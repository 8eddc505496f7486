use vstd::prelude::*;

verus! {

/// The index of a generation of a stream: generations are numbered from zero and
/// fit in 32 bits.
#[derive(Clone, Copy, Debug, PartialEq, Eq, Structural)]
pub struct GenerationIdx(pub u32);

impl GenerationIdx {
    /// Turns a count or a position into a generation index; it must fit in 32 bits.
    pub fn from_usize(value: usize) -> (idx: GenerationIdx)
        requires
            value <= u32::MAX,
        ensures
            idx.0 == value,
    {
        GenerationIdx(value as u32)
    }

    /// The index as a position in a vector of generations.
    pub fn to_usize(self) -> (value: usize)
        ensures
            value == self.0,
    {
        self.0 as usize
    }

    /// `self + other`, or `None` where the sum leaves the 32-bit range.
    pub fn checked_add(self, other: GenerationIdx) -> (sum: Option<GenerationIdx>)
        ensures
            self.0 + other.0 <= u32::MAX ==> sum == Some(GenerationIdx((self.0 + other.0) as u32)),
            self.0 + other.0 > u32::MAX ==> sum is None,
    {
        match self.0.checked_add(other.0) {
            Some(s) => Some(GenerationIdx(s)),
            None => None,
        }
    }
}

/// The part of a stream that a value is added to: a generation of the values that came
/// from the previous data, one of those that came from the current data, or the last
/// generation of the values that are new in this run.
#[derive(Clone, Copy, Debug, PartialEq, Eq, Structural)]
pub enum Generation {
    Previous(GenerationIdx),
    Current(GenerationIdx),
    New,
}

} // verus!
