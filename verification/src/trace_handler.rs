use vstd::prelude::*;

use crate::errors::GenerationCompactificationError;
use crate::generation::GenerationIdx;
use crate::security_tetraplet::TracePos;

verus! {

/// A state of the execution trace, as far as the generations of stream values go: a
/// state that put a value into a stream, with the generation it was put in, or any other
/// state.
#[derive(Clone, Copy, Debug, PartialEq, Eq, Structural)]
pub enum ExecutedState {
    StreamValue { generation: GenerationIdx },
    Other,
}

/// The trace of the current run, in which the final generations of stream values are
/// written when the streams are compacted.
#[derive(Debug)]
pub struct TraceHandler {
    result_trace: Vec<ExecutedState>,
}

impl View for TraceHandler {
    type V = Seq<ExecutedState>;

    closed spec fn view(&self) -> Seq<ExecutedState> {
        self.result_trace@
    }
}

/// The trace after writing `generation` at `pos`, or the error that refuses it.
pub open spec fn trace_with_generation(
    trace: Seq<ExecutedState>,
    pos: TracePos,
    generation: GenerationIdx,
) -> Result<Seq<ExecutedState>, GenerationCompactificationError> {
    if pos.0 >= trace.len() {
        Err(GenerationCompactificationError::PointsToNothing(pos))
    } else if trace[pos.0 as int] is StreamValue {
        Ok(trace.update(pos.0 as int, ExecutedState::StreamValue { generation }))
    } else {
        Err(GenerationCompactificationError::PointsToInvalidState(pos))
    }
}

/// Writing a generation changes only the state at its position, into a stream value of that
/// generation; it is refused exactly where the position is past the trace or holds a state
/// that put no value into a stream.
pub proof fn lemma_trace_with_generation(trace: Seq<ExecutedState>, pos: TracePos, generation: GenerationIdx)
    ensures
        trace_with_generation(trace, pos, generation) is Ok <==> pos.0 < trace.len() && trace[pos.0 as int] is StreamValue,
        trace_with_generation(trace, pos, generation) matches Ok(after) ==> {
            &&& after.len() == trace.len()
            &&& after[pos.0 as int] == (ExecutedState::StreamValue { generation })
            &&& forall|i: int| 0 <= i < trace.len() && i != pos.0 ==> #[trigger] after[i] == trace[i]
        },
{
}

/// Writes `updates` into `trace` one after the other, stopping at the first that is
/// refused: the trace as far as it got, and the error, if one came.
pub open spec fn trace_with_generations(
    trace: Seq<ExecutedState>,
    updates: Seq<(TracePos, GenerationIdx)>,
) -> (Seq<ExecutedState>, Option<GenerationCompactificationError>)
    decreases updates.len(),
{
    if updates.len() == 0 {
        (trace, None)
    } else {
        let (before, error) = trace_with_generations(trace, updates.drop_last());
        if error is Some {
            (before, error)
        } else {
            match trace_with_generation(before, updates.last().0, updates.last().1) {
                Ok(after) => (after, None),
                Err(e) => (before, Some(e)),
            }
        }
    }
}

impl TraceHandler {
    pub fn new(result_trace: Vec<ExecutedState>) -> (handler: Self)
        ensures
            handler@ == result_trace@,
    {
        Self { result_trace }
    }

    /// The states of the trace.
    pub fn result_trace(&self) -> (trace: &Vec<ExecutedState>)
        ensures
            trace@ == self@,
    {
        &self.result_trace
    }

    /// Writes `generation` as the generation of the stream value put at `trace_pos`.
    pub fn update_generation(&mut self, trace_pos: TracePos, generation: GenerationIdx) -> (result:
        Result<(), GenerationCompactificationError>)
        ensures
            match trace_with_generation(old(self)@, trace_pos, generation) {
                Ok(after) => result is Ok && final(self)@ == after,
                Err(e) => result == Err::<(), _>(e) && final(self)@ == old(self)@,
            },
    {
        let pos = trace_pos.0 as usize;
        if pos >= self.result_trace.len() {
            return Err(GenerationCompactificationError::PointsToNothing(trace_pos));
        }
        match self.result_trace[pos] {
            ExecutedState::StreamValue { .. } => {
                self.result_trace[pos] = ExecutedState::StreamValue { generation };
                Ok(())
            },
            ExecutedState::Other => Err(GenerationCompactificationError::PointsToInvalidState(trace_pos)),
        }
    }
}

} // verus!
