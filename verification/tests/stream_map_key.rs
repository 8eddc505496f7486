use air::errors::{ExecutionError, StreamMapError, StreamMapKeyError, UncatchableError};
use air::json::{get_field, JNumber, JValue};
use air::security_tetraplet::{Provenance, SecurityTetraplet, TracePos, CID};
use air::stream_map_key::{from_key_value, StreamMapKey};
use air::value_aggregate::{CanonStream, ValueAggregate};
use air::value_types::canon_stream_map::{get_value_from_obj, CanonStreamMap, CanonStreamMapWithProvenance};
use air::boxed_value::canon_stream_map as boxed;

fn aggregate(value: JValue) -> ValueAggregate {
    ValueAggregate::new(value, SecurityTetraplet::default(), TracePos(4), Provenance::literal())
}

fn string(text: &str) -> JValue {
    JValue::String(text.to_string())
}

#[test]
fn keys_are_read_from_strings_and_integers() {
    assert_eq!(StreamMapKey::from_value(string("k")), Some(StreamMapKey::Str("k".to_string())));
    assert_eq!(StreamMapKey::from_value(JValue::Number(JNumber::PosInt(5))), Some(StreamMapKey::I64(5)));
    assert_eq!(StreamMapKey::from_value(JValue::Number(JNumber::NegInt(-5))), Some(StreamMapKey::I64(-5)));
    assert_eq!(
        StreamMapKey::from_value(JValue::Number(JNumber::PosInt(u64::MAX))),
        Some(StreamMapKey::U64(u64::MAX))
    );
    assert_eq!(StreamMapKey::from_value(JValue::Number(JNumber::Float(1.5f64.to_bits()))), None);
    assert_eq!(StreamMapKey::from_value(JValue::Bool(true)), None);
    assert_eq!(StreamMapKey::from_value(JValue::Null), None);
}

#[test]
fn keys_are_written_as_text() {
    assert_eq!(StreamMapKey::Str("abc".to_string()).to_text(), "abc");
    assert_eq!(StreamMapKey::U64(18446744073709551615).to_text(), "18446744073709551615");
    assert_eq!(StreamMapKey::I64(-42).to_text(), "-42");
    assert_eq!(StreamMapKey::I64(0).to_text(), "0");
}

#[test]
fn kvpair_object_gives_back_key_and_value() {
    let object = from_key_value(StreamMapKey::I64(-3), &string("v"));
    let expected = JValue::Object(vec![
        ("key".to_string(), JValue::Number(JNumber::NegInt(-3))),
        ("value".to_string(), string("v")),
    ]);
    assert_eq!(object, expected);
    let value = aggregate(object);
    assert_eq!(StreamMapKey::from_kvpair(&value), Some(StreamMapKey::I64(-3)));
    let read = get_value_from_obj(&value).unwrap();
    assert_eq!(read.get_result(), &string("v"));
    assert_eq!(read.get_trace_pos(), TracePos(4));
}

#[test]
fn u64_key_below_i64_max_comes_back_as_i64() {
    let object = from_key_value(StreamMapKey::U64(7), &JValue::Null);
    assert_eq!(StreamMapKey::from_kvpair(&aggregate(object)), Some(StreamMapKey::I64(7)));
}

#[test]
fn get_value_from_obj_errors() {
    assert_eq!(
        get_value_from_obj(&aggregate(string("x"))),
        Err(ExecutionError::Uncatchable(UncatchableError::StreamMapKeyError(StreamMapKeyError::NotAnObject)))
    );
    let no_value = JValue::Object(vec![("key".to_string(), string("k"))]);
    assert_eq!(
        get_value_from_obj(&aggregate(no_value)),
        Err(ExecutionError::Uncatchable(UncatchableError::StreamMapKeyError(StreamMapKeyError::ValueFieldIsAbsent)))
    );
}

#[test]
fn get_field_takes_the_named_field() {
    let fields = vec![("a".to_string(), string("1")), ("b".to_string(), string("2"))];
    assert_eq!(get_field(&fields, &"b".to_string()), Some(&string("2")));
    assert_eq!(get_field(&fields, &"c".to_string()), None);
}

fn kvpairs(pairs: &[(&str, &str)]) -> CanonStream {
    let values = pairs
        .iter()
        .map(|(k, v)| aggregate(from_key_value(StreamMapKey::Str(k.to_string()), &string(v))))
        .collect();
    CanonStream::from_values(values, "peer".to_string())
}

#[test]
fn canon_stream_map_groups_values_by_key() {
    let map = CanonStreamMap::from_canon_stream(kvpairs(&[("a", "1"), ("b", "2"), ("a", "3")])).unwrap();
    assert_eq!(map.len(), 3);
    assert!(!map.is_empty());
    let a: Vec<JValue> = map
        .index(&StreamMapKey::Str("a".to_string()))
        .unwrap()
        .iter()
        .iter()
        .map(|v| v.get_result().clone())
        .collect();
    assert_eq!(a, vec![string("1"), string("3")]);
    assert_eq!(map.index(&StreamMapKey::Str("a".to_string())).unwrap().tetraplet().peer_pk, "peer");
    assert!(map.index(&StreamMapKey::Str("c".to_string())).is_none());
    assert_eq!(map.tetraplet().peer_pk, "peer");
    assert_eq!(map.iter().len(), 3);
}

#[test]
fn canon_stream_map_as_json_object() {
    let map = CanonStreamMap::from_canon_stream(kvpairs(&[("a", "1"), ("b", "2"), ("a", "3")])).unwrap();
    let json = map.as_jvalue();
    let fields = match json {
        JValue::Object(fields) => fields,
        _ => panic!("an object"),
    };
    assert_eq!(fields.len(), 2);
    assert_eq!(get_field(&fields, &"a".to_string()), Some(&JValue::Array(vec![string("1"), string("3")])));
    assert_eq!(get_field(&fields, &"b".to_string()), Some(&JValue::Array(vec![string("2")])));
}

#[test]
fn empty_canon_stream_map() {
    let map = CanonStreamMap::from_canon_stream(CanonStream::from_values(vec![], "peer".to_string())).unwrap();
    assert!(map.is_empty());
    assert_eq!(map.len(), 0);
    assert_eq!(map.as_jvalue(), JValue::Object(vec![]));
}

#[test]
fn canon_stream_map_refuses_objects_without_key() {
    let canon = CanonStream::from_values(vec![aggregate(string("not a pair"))], "peer".to_string());
    assert_eq!(
        CanonStreamMap::from_canon_stream(canon).err(),
        Some(ExecutionError::Uncatchable(UncatchableError::StreamMapKeyError(
            StreamMapKeyError::UnsupportedKVPairObjectOrMapKeyType
        )))
    );
    let without_value = JValue::Object(vec![("key".to_string(), string("k"))]);
    let canon = CanonStream::from_values(vec![aggregate(without_value)], "peer".to_string());
    assert_eq!(
        CanonStreamMap::from_canon_stream(canon).err(),
        Some(ExecutionError::Uncatchable(UncatchableError::StreamMapKeyError(StreamMapKeyError::ValueFieldIsAbsent)))
    );
}

#[test]
fn canon_stream_map_with_provenance_derefs_to_map() {
    let map = CanonStreamMap::from_canon_stream(kvpairs(&[("a", "1")])).unwrap();
    let with_provenance = CanonStreamMapWithProvenance::new(map, CID("bagaaiera".to_string()));
    assert_eq!(with_provenance.deref().len(), 1);
    assert_eq!(with_provenance.cid, CID("bagaaiera".to_string()));
}

#[test]
fn boxed_canon_stream_map_reads_keys() {
    let canon = kvpairs(&[("a", "1"), ("b", "2"), ("a", "3")]);
    assert!(boxed::CanonStreamMap::from_canon_stream(&canon).is_ok());
    let pair = boxed::from_obj_idx_pair((2, &canon.iter()[2])).unwrap();
    assert_eq!(pair, (StreamMapKey::Str("a".to_string()), 2));
    let bad = CanonStream::from_values(vec![aggregate(string("x"))], "peer".to_string());
    assert_eq!(
        boxed::CanonStreamMap::from_canon_stream(&bad).err(),
        Some(ExecutionError::Uncatchable(UncatchableError::StreamMapError(
            StreamMapError::UnsupportedKVPairObjectOrMapKeyType
        )))
    );
    let map = boxed::CanonStreamMap::new(vec![], SecurityTetraplet::default());
    let with_provenance = boxed::CanonStreamMapWithProvenance::new(map, CID("c".to_string()));
    assert_eq!(with_provenance.cid.0, "c");
    let _ = with_provenance.deref();
}

#[test]
fn key_texts_are_decimal_at_the_limits() {
    assert_eq!(StreamMapKey::I64(i64::MIN).to_text(), i64::MIN.to_string());
    assert_eq!(StreamMapKey::I64(-1).to_text(), "-1");
    assert_eq!(StreamMapKey::I64(0).to_text(), "0");
    assert_eq!(StreamMapKey::U64(u64::MAX).to_text(), u64::MAX.to_string());
    assert_eq!(StreamMapKey::U64(10).to_text(), "10");
}
