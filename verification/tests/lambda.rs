use air::errors::{CatchableError, ExecutionError, LambdaError};
use air::json::{JNumber, JValue};
use air::lambda_ast::{Functor, LambdaAST, ValueAccessor};
use air::security_tetraplet::{Provenance, SecurityTetraplet, TracePos, CID};
use air::value_aggregate::ValueAggregate;

fn number(n: u64) -> JValue {
    JValue::Number(JNumber::PosInt(n))
}

fn sample() -> JValue {
    JValue::Object(vec![("a".to_string(), JValue::Array(vec![number(10), number(20)]))])
}

fn aggregate() -> ValueAggregate {
    let tetraplet = SecurityTetraplet::new("peer".to_string(), "service".to_string(), "f".to_string(), "".to_string());
    ValueAggregate::new(sample(), tetraplet, TracePos(1), Provenance::ServiceResult { cid: CID("cid".to_string()) })
}

fn path(accessors: Vec<ValueAccessor>) -> LambdaAST {
    LambdaAST::ValuePath(accessors)
}

fn field(name: &str) -> ValueAccessor {
    ValueAccessor::FieldAccessByName { field_name: name.to_string() }
}

#[test]
fn lambda_selects_along_its_path() {
    let lambda = path(vec![field("a"), ValueAccessor::ArrayAccess { idx: 1 }]);
    assert_eq!(aggregate().apply_lambda(&lambda), Ok(number(20)));
    assert_eq!(lambda.to_text(), ".$.a.[1]");
    assert_eq!(aggregate().apply_lambda(&path(vec![])), Ok(sample()));
}

#[test]
fn lambda_with_tetraplets_extends_the_lens() {
    let lambda = path(vec![field("a"), ValueAccessor::ArrayAccess { idx: 0 }]);
    let (value, tetraplet, provenance) = aggregate().apply_lambda_with_tetraplets(&lambda, &Provenance::literal()).unwrap();
    assert_eq!(value, number(10));
    assert_eq!(tetraplet.lens, ".$.a.[0]");
    assert_eq!(tetraplet.peer_pk, "peer");
    assert_eq!(provenance, Provenance::ServiceResult { cid: CID("cid".to_string()) });
}

#[test]
fn lambda_errors() {
    let out_of_range = path(vec![field("a"), ValueAccessor::ArrayAccess { idx: 2 }]);
    assert_eq!(
        aggregate().apply_lambda(&out_of_range),
        Err(ExecutionError::Catchable(CatchableError::LambdaApplierError(
            LambdaError::ValueNotContainsSuchArrayIdx { value: JValue::Array(vec![number(10), number(20)]), idx: 2 }
        )))
    );
    assert_eq!(
        aggregate().apply_lambda(&path(vec![ValueAccessor::ArrayAccess { idx: 0 }])),
        Err(ExecutionError::Catchable(CatchableError::LambdaApplierError(
            LambdaError::ArrayAccessorNotMatchValue { value: sample(), idx: 0 }
        )))
    );
    assert_eq!(
        aggregate().apply_lambda(&path(vec![field("b")])),
        Err(ExecutionError::Catchable(CatchableError::LambdaApplierError(
            LambdaError::JsonValueNotContainsSuchField { value: sample(), field_name: "b".to_string() }
        )))
    );
    assert_eq!(
        aggregate().apply_lambda(&path(vec![field("a"), field("x")])),
        Err(ExecutionError::Catchable(CatchableError::LambdaApplierError(
            LambdaError::FieldAccessorNotMatchValue {
                value: JValue::Array(vec![number(10), number(20)]),
                field_name: "x".to_string()
            }
        )))
    );
}

#[test]
fn length_functor() {
    let length = LambdaAST::Functor(Functor::Length);
    assert_eq!(length.to_text(), ".length");
    assert_eq!(
        aggregate().apply_lambda(&length),
        Err(ExecutionError::Catchable(CatchableError::LengthFunctorAppliedToNotArray(sample())))
    );
    let array = ValueAggregate::new(JValue::Array(vec![number(1), number(2), number(3)]), SecurityTetraplet::default(), TracePos(0), Provenance::literal());
    assert_eq!(array.apply_lambda(&length), Ok(number(3)));
}

#[test]
fn value_aggregate_as_jvalue_and_tetraplets() {
    let value = aggregate();
    assert_eq!(value.as_jvalue(), sample());
    assert_eq!(value.as_tetraplets(), vec![value.get_tetraplet()]);
    assert_eq!(Box::new(value).into_jvalue(), sample());
}
