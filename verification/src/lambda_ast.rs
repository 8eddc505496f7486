use vstd::prelude::*;

use crate::stream_map_key::{decimal, u64_to_string};

verus! {

/// One step of a lambda: take an element of an array, or a field of an object.
#[derive(Debug, PartialEq, Eq)]
pub enum ValueAccessor {
    ArrayAccess { idx: u32 },
    FieldAccessByName { field_name: String },
}

/// A functor applied to a value.
#[derive(Clone, Copy, Debug, PartialEq, Eq, Structural)]
pub enum Functor {
    /// The length of an array.
    Length,
}

/// A lambda: a path of accessors into a value, or a functor.
#[derive(Debug, PartialEq, Eq)]
pub enum LambdaAST {
    ValuePath(Vec<ValueAccessor>),
    Functor(Functor),
}

/// An accessor as mathematics sees it.
pub enum AccessorView {
    ArrayAccess(u32),
    FieldAccessByName(Seq<char>),
}

/// A lambda as mathematics sees it.
pub enum LambdaView {
    ValuePath(Seq<AccessorView>),
    Functor(Functor),
}

impl View for ValueAccessor {
    type V = AccessorView;

    open spec fn view(&self) -> AccessorView {
        match self {
            ValueAccessor::ArrayAccess { idx } => AccessorView::ArrayAccess(*idx),
            ValueAccessor::FieldAccessByName { field_name } => AccessorView::FieldAccessByName(field_name@),
        }
    }
}

impl View for LambdaAST {
    type V = LambdaView;

    open spec fn view(&self) -> LambdaView {
        match self {
            LambdaAST::ValuePath(path) => LambdaView::ValuePath(path@.map_values(|a: ValueAccessor| a@)),
            LambdaAST::Functor(f) => LambdaView::Functor(*f),
        }
    }
}

/// The text of an accessor: `[idx]` or the field name.
pub open spec fn accessor_text(accessor: AccessorView) -> Seq<char> {
    match accessor {
        AccessorView::ArrayAccess(idx) => seq!['['] + decimal(idx as nat) + seq![']'],
        AccessorView::FieldAccessByName(name) => name,
    }
}

/// The texts of the accessors, each preceded by a dot.
pub open spec fn path_text(path: Seq<AccessorView>) -> Seq<char>
    decreases path.len(),
{
    if path.len() == 0 {
        Seq::empty()
    } else {
        path_text(path.drop_last()) + seq!['.'] + accessor_text(path.last())
    }
}

/// The text of a lambda: `.$` and the path, or a dot and the functor's name.
pub open spec fn lambda_text(lambda: LambdaView) -> Seq<char> {
    match lambda {
        LambdaView::ValuePath(path) => seq!['.', '$'] + path_text(path),
        LambdaView::Functor(Functor::Length) => seq!['.', 'l', 'e', 'n', 'g', 't', 'h'],
    }
}

impl ValueAccessor {
    pub fn to_text(&self) -> (text: String)
        ensures
            text@ == accessor_text(self@),
    {
        match self {
            ValueAccessor::ArrayAccess { idx } => {
                let mut text = String::from_str("[");
                let digits = u64_to_string(*idx as u64);
                text.append(digits.as_str());
                text.append("]");
                proof {
                    reveal_strlit("[");
                    reveal_strlit("]");
                }
                text
            },
            ValueAccessor::FieldAccessByName { field_name } => field_name.clone(),
        }
    }
}

impl LambdaAST {
    /// The text of the lambda, as it is written in a script.
    pub fn to_text(&self) -> (text: String)
        ensures
            text@ == lambda_text(self@),
    {
        match self {
            LambdaAST::ValuePath(path) => {
                let mut text = String::from_str(".$");
                proof {
                    reveal_strlit(".$");
                    reveal_strlit(".");
                }
                let ghost pv = path@.map_values(|a: ValueAccessor| a@);
                let mut i: usize = 0;
                assert(pv.take(0) =~= Seq::<AccessorView>::empty());
                while i < path.len()
                    invariant
                        pv == path@.map_values(|a: ValueAccessor| a@),
                        i <= path.len(),
                        text@ == seq!['.', '$'] + path_text(pv.take(i as int)),
                        "."@ == seq!['.'],
                    decreases path.len() - i,
                {
                    let part = path[i].to_text();
                    text.append(".");
                    text.append(part.as_str());
                    proof {
                        assert(pv.take(i + 1).drop_last() =~= pv.take(i as int));
                        assert(pv.take(i + 1).last() == path@[i as int]@);
                        assert(text@ =~= seq!['.', '$'] + path_text(pv.take(i + 1)));
                    }
                    i = i + 1;
                }
                assert(pv.take(i as int) =~= pv);
                text
            },
            LambdaAST::Functor(Functor::Length) => {
                let text = String::from_str(".length");
                proof {
                    reveal_strlit(".length");
                }
                text
            },
        }
    }
}

} // verus!
