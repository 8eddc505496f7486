use vstd::prelude::*;

use crate::json::{JValue, JsonView};
use crate::security_tetraplet::TracePos;

verus! {

/// Errors in building a stream map from a stream of key-value pairs.
#[derive(Clone, Copy, Debug, PartialEq, Eq, Structural)]
pub enum StreamMapError {
    /// A value of the stream is not a key-value pair object, or its key is neither a
    /// string nor an integer.
    UnsupportedKVPairObjectOrMapKeyType,
}

/// Errors in reading a key-value pair object.
#[derive(Clone, Copy, Debug, PartialEq, Eq, Structural)]
pub enum StreamMapKeyError {
    /// The value is not a JSON object.
    NotAnObject,
    /// The object has no `value` field.
    ValueFieldIsAbsent,
    /// The value is not a key-value pair object, or its key is neither a string nor an
    /// integer.
    UnsupportedKVPairObjectOrMapKeyType,
}

/// Errors in writing the final generation of a value into the trace.
#[derive(Clone, Copy, Debug, PartialEq, Eq, Structural)]
pub enum GenerationCompactificationError {
    /// The trace has no state at this position.
    PointsToNothing(TracePos),
    /// The state at this position does not hold a stream value.
    PointsToInvalidState(TracePos),
}

/// Errors that stop the execution of a script.
#[derive(Clone, Copy, Debug, PartialEq, Eq, Structural)]
pub enum UncatchableError {
    StreamMapError(StreamMapError),
    StreamMapKeyError(StreamMapKeyError),
    GenerationCompactificationError(GenerationCompactificationError),
}

/// Errors in applying a lambda to a value.
#[derive(Clone, Debug, PartialEq)]
pub enum LambdaError {
    /// An array index was applied to a value that is no array.
    ArrayAccessorNotMatchValue { value: JValue, idx: u32 },
    /// The array has no element at the index.
    ValueNotContainsSuchArrayIdx { value: JValue, idx: u32 },
    /// A field name was applied to a value that is no object.
    FieldAccessorNotMatchValue { value: JValue, field_name: String },
    /// The object has no field of that name.
    JsonValueNotContainsSuchField { value: JValue, field_name: String },
}

/// Errors that a script can catch.
#[derive(Clone, Debug, PartialEq)]
pub enum CatchableError {
    LambdaApplierError(LambdaError),
    /// The length functor was applied to a value that is no array.
    LengthFunctorAppliedToNotArray(JValue),
}

/// A lambda error as mathematics sees it.
pub enum LambdaErrorView {
    ArrayAccessorNotMatchValue { value: JsonView, idx: u32 },
    ValueNotContainsSuchArrayIdx { value: JsonView, idx: u32 },
    FieldAccessorNotMatchValue { value: JsonView, field_name: Seq<char> },
    JsonValueNotContainsSuchField { value: JsonView, field_name: Seq<char> },
}

/// A catchable error as mathematics sees it.
pub enum CatchableErrorView {
    LambdaApplierError(LambdaErrorView),
    LengthFunctorAppliedToNotArray(JsonView),
}

impl View for LambdaError {
    type V = LambdaErrorView;

    open spec fn view(&self) -> LambdaErrorView {
        match self {
            LambdaError::ArrayAccessorNotMatchValue { value, idx } => LambdaErrorView::ArrayAccessorNotMatchValue {
                value: value@,
                idx: *idx,
            },
            LambdaError::ValueNotContainsSuchArrayIdx { value, idx } => LambdaErrorView::ValueNotContainsSuchArrayIdx {
                value: value@,
                idx: *idx,
            },
            LambdaError::FieldAccessorNotMatchValue { value, field_name } => LambdaErrorView::FieldAccessorNotMatchValue {
                value: value@,
                field_name: field_name@,
            },
            LambdaError::JsonValueNotContainsSuchField { value, field_name } => LambdaErrorView::JsonValueNotContainsSuchField {
                value: value@,
                field_name: field_name@,
            },
        }
    }
}

impl View for CatchableError {
    type V = CatchableErrorView;

    open spec fn view(&self) -> CatchableErrorView {
        match self {
            CatchableError::LambdaApplierError(e) => CatchableErrorView::LambdaApplierError(e@),
            CatchableError::LengthFunctorAppliedToNotArray(v) => CatchableErrorView::LengthFunctorAppliedToNotArray(v@),
        }
    }
}

/// Errors of the execution of a script.
#[derive(Clone, Debug, PartialEq)]
pub enum ExecutionError {
    Catchable(CatchableError),
    Uncatchable(UncatchableError),
}

impl ExecutionError {
    pub fn from_uncatchable(error: UncatchableError) -> (e: ExecutionError)
        ensures
            e == ExecutionError::Uncatchable(error),
    {
        ExecutionError::Uncatchable(error)
    }
}

pub type ExecutionResult<T> = Result<T, ExecutionError>;

} // verus!
