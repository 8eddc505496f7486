use fluence_it_types::IValue as W;
use air::interpreter_outcome::{
    try_as_byte_vec, try_as_i32, try_as_record, try_as_string, try_as_string_vec, IValue, InterpreterOutcome,
    INTERPRETER_SUCCESS,
};

fn outcome_record() -> IValue {
    IValue::Record(vec![
        IValue::S32(0),
        IValue::String("no error".to_string()),
        IValue::ByteArray(vec![1, 2, 3]),
        IValue::Array(vec![IValue::String("peer_a".to_string()), IValue::String("peer_b".to_string())]),
        IValue::Array(vec![IValue::U8(9), IValue::U8(8)]),
    ])
}

#[test]
fn from_ivalue_reads_all_fields() {
    let outcome = InterpreterOutcome::from_ivalue(outcome_record()).unwrap();
    assert_eq!(
        outcome,
        InterpreterOutcome {
            ret_code: INTERPRETER_SUCCESS,
            error_message: "no error".to_string(),
            data: vec![1, 2, 3],
            next_peer_pks: vec!["peer_a".to_string(), "peer_b".to_string()],
            call_requests: vec![9, 8],
        }
    );
}

#[test]
fn from_ivalue_refuses_a_non_record() {
    let value = IValue::S32(7);
    let expected = format!("expected record for InterpreterOutcome, got {:?}", value);
    assert_eq!(InterpreterOutcome::from_ivalue(value), Err(expected));
    assert_eq!(expected_text_of_s32(), "expected record for InterpreterOutcome, got S32(7)");
}

fn expected_text_of_s32() -> String {
    match InterpreterOutcome::from_ivalue(IValue::S32(7)) {
        Err(message) => message,
        Ok(_) => String::new(),
    }
}

#[test]
fn from_ivalue_refuses_a_wrong_field_count() {
    let fields = vec![IValue::S32(0), IValue::String("x".to_string())];
    let expected = format!("expected InterpreterOutcome struct with 5 fields, got {:?}", fields);
    assert_eq!(InterpreterOutcome::from_ivalue(IValue::Record(fields)), Err(expected));
}

#[test]
fn from_ivalue_checks_fields_from_the_last() {
    let value = IValue::Record(vec![
        IValue::String("not a code".to_string()),
        IValue::String("".to_string()),
        IValue::ByteArray(vec![]),
        IValue::Array(vec![]),
        IValue::Boolean(true),
    ]);
    assert_eq!(
        InterpreterOutcome::from_ivalue(value),
        Err("expected a Vec<u8> for call_requests, got Boolean(true)".to_string())
    );
}

#[test]
fn from_ivalue_refuses_a_bad_ret_code() {
    let value = IValue::Record(vec![
        IValue::String("not a code".to_string()),
        IValue::String("".to_string()),
        IValue::ByteArray(vec![]),
        IValue::Array(vec![]),
        IValue::ByteArray(vec![]),
    ]);
    assert_eq!(
        InterpreterOutcome::from_ivalue(value),
        Err("expected an i32 for ret_code, got String(\"not a code\")".to_string())
    );
}

#[test]
fn try_as_byte_vec_reads_arrays_of_bytes() {
    assert_eq!(try_as_byte_vec(IValue::ByteArray(vec![4, 5]), "data"), Ok(vec![4, 5]));
    assert_eq!(try_as_byte_vec(IValue::Array(vec![IValue::U8(4), IValue::U8(5)]), "data"), Ok(vec![4, 5]));
    assert_eq!(
        try_as_byte_vec(IValue::Array(vec![IValue::U8(4), IValue::S32(5), IValue::U16(6)]), "data"),
        Err("expected a byte, got S32(5)".to_string())
    );
    assert_eq!(
        try_as_byte_vec(IValue::U8(4), "data"),
        Err("expected a Vec<u8> for data, got U8(4)".to_string())
    );
}

#[test]
fn try_as_string_vec_reads_arrays_of_strings() {
    assert_eq!(
        try_as_string_vec(IValue::Array(vec![IValue::String("a".to_string())]), "next_peer_pks"),
        Ok(vec!["a".to_string()])
    );
    assert_eq!(
        try_as_string_vec(IValue::Array(vec![IValue::String("a".to_string()), IValue::U8(1)]), "peers"),
        Err("expected string for next_peer_pks, got U8(1)".to_string())
    );
    assert_eq!(
        try_as_string_vec(IValue::ByteArray(vec![]), "peers"),
        Err("expected an array for peers, got ByteArray([])".to_string())
    );
}

#[test]
fn try_as_scalars() {
    assert_eq!(try_as_i32(IValue::S32(-4), "ret_code"), Ok(-4));
    assert_eq!(try_as_i32(IValue::I32(-4), "ret_code"), Err("expected an i32 for ret_code, got I32(-4)".to_string()));
    assert_eq!(try_as_string(IValue::String("m".to_string()), "error_message"), Ok("m".to_string()));
    assert_eq!(
        try_as_string(IValue::U64(3), "error_message"),
        Err("expected a string for error_message, got U64(3)".to_string())
    );
    assert_eq!(try_as_record(IValue::Record(vec![IValue::U8(1)])), Ok(vec![IValue::U8(1)]));
    assert_eq!(
        try_as_record(IValue::Array(vec![])),
        Err("expected record for InterpreterOutcome, got Array([])".to_string())
    );
}

/// The library's form of an interface value, floats as the text `{:?}` writes for them.
fn from_wit(value: W) -> IValue {
    match value {
        W::Boolean(v) => IValue::Boolean(v),
        W::S8(v) => IValue::S8(v),
        W::S16(v) => IValue::S16(v),
        W::S32(v) => IValue::S32(v),
        W::S64(v) => IValue::S64(v),
        W::U8(v) => IValue::U8(v),
        W::U16(v) => IValue::U16(v),
        W::U32(v) => IValue::U32(v),
        W::U64(v) => IValue::U64(v),
        W::F32(v) => IValue::F32(format!("{:?}", v)),
        W::F64(v) => IValue::F64(format!("{:?}", v)),
        W::String(v) => IValue::String(v),
        W::ByteArray(v) => IValue::ByteArray(v),
        W::Array(values) => IValue::Array(values.into_iter().map(from_wit).collect()),
        W::I32(v) => IValue::I32(v),
        W::I64(v) => IValue::I64(v),
        W::Record(fields) => IValue::Record(fields.into_vec().into_iter().map(from_wit).collect()),
    }
}

fn nested_wit_value() -> W {
    let inner = W::Array(vec![
        W::S8(-3),
        W::S16(-300),
        W::S64(i64::MIN),
        W::U16(65535),
        W::U32(7),
        W::U64(u64::MAX),
        W::Boolean(false),
        W::I32(-1),
    ]);
    W::Record(
        fluence_it_types::ne_vec::NEVec::new(vec![
            W::F32(1.5),
            W::F64(-2.0e20),
            W::F32(f32::NAN),
            W::String("quote \" and\nnewline".to_string()),
            W::ByteArray(vec![0, 255]),
            inner,
            W::Array(vec![]),
            W::I64(i64::MAX),
            W::Boolean(true),
        ])
        .unwrap(),
    )
}

#[test]
fn error_text_is_the_debug_text_of_the_interface_value() {
    let wit = nested_wit_value();
    let expected = format!("expected an i32 for ret_code, got {:?}", wit);
    assert_eq!(try_as_i32(from_wit(wit), "ret_code"), Err(expected));
}

#[test]
fn field_count_error_lists_the_fields_as_debug_writes_them() {
    let wit = nested_wit_value();
    let fields = match &wit {
        W::Record(fields) => fields.to_vec(),
        _ => unreachable!(),
    };
    let expected = format!("expected InterpreterOutcome struct with 5 fields, got {:?}", fields);
    assert_eq!(InterpreterOutcome::from_ivalue(from_wit(wit)), Err(expected));
}

#[test]
fn float_values_read_as_floats_in_error_text() {
    assert_eq!(
        try_as_string(IValue::F32("1.0".to_string()), "error_message"),
        Err("expected a string for error_message, got F32(1.0)".to_string())
    );
    assert_eq!(
        try_as_byte_vec(IValue::Array(vec![IValue::U8(1), IValue::F64("-0.5".to_string())]), "data"),
        Err("expected a byte, got F64(-0.5)".to_string())
    );
}
