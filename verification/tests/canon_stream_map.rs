use air::json::JValue;
use air::security_tetraplet::{Provenance, SecurityTetraplet, TracePos};
use air::stream_map_key::{from_key_value, StreamMapKey};
use air::value_aggregate::{CanonStream, ValueAggregate};
use air::value_types::canon_stream_map::{get_value_from_obj, CanonStreamMap};

fn create_value_aggregate(value: JValue) -> ValueAggregate {
    ValueAggregate::new(value, SecurityTetraplet::default(), TracePos(0), Provenance::literal())
}

fn create_value_aggregate_and_keys_vec() -> (Vec<ValueAggregate>, Vec<&'static str>) {
    let keys = vec!["key_one", "key_two", "key_one"];
    let values = vec!["first_value", "second_value", "third_value"];
    let va_vec = keys
        .iter()
        .zip(values)
        .map(|(key, value)| {
            let key = StreamMapKey::Str(key.to_string());
            let value = JValue::String(value.to_string());
            let kvpair = from_key_value(key, &value);
            create_value_aggregate(kvpair)
        })
        .collect();

    (va_vec, keys)
}

fn create_va_canon_and_keys_vecs(peer_pk: &str) -> (Vec<ValueAggregate>, Vec<CanonStream>, Vec<&'static str>) {
    let (va_vec, keys) = create_value_aggregate_and_keys_vec();

    let va_one = get_value_from_obj(&va_vec[0]).unwrap();
    let va_two = get_value_from_obj(&va_vec[1]).unwrap();
    let va_three = get_value_from_obj(&va_vec[2]).unwrap();

    let va_vec_one = vec![va_one, va_three];
    let va_vec_two = vec![va_two];
    let canon_stream_one = CanonStream::from_values(va_vec_one, peer_pk.into());
    let canon_stream_two = CanonStream::from_values(va_vec_two, peer_pk.into());

    (va_vec, vec![canon_stream_one, canon_stream_two], keys)
}

#[test]
fn from_canon_stream() {
    let peer_pk = "some_tetraplet";
    let (va_vec, canon_streams, keys) = create_va_canon_and_keys_vecs(peer_pk);
    let canon_stream = CanonStream::from_values(va_vec, peer_pk.into());
    let canon_stream_map = CanonStreamMap::from_canon_stream(canon_stream).expect("This ctor call must not fail");

    let key_one = StreamMapKey::Str((*keys.first().expect("There must be a key")).to_string());
    let key_two = StreamMapKey::Str(keys[1].to_string());

    let canon_stream_map_key_one = canon_stream_map.index(&key_one).expect("There must be a key");
    let canon_stream_map_key_two = canon_stream_map.index(&key_two).expect("There must be a key");
    let canon_stream_one = canon_streams.first().expect("There must be a canon stream");
    let canon_stream_two = canon_streams.last().expect("There must be a canon stream");

    assert!(canon_stream_map_key_one.clone().into_values() == canon_stream_one.clone().into_values());
    assert!(canon_stream_map_key_two.clone().into_values() == canon_stream_two.clone().into_values());
}

#[test]
fn test_index_ok() {
    let peer_pk = "some_tetraplet";
    let (va_vec, canon_streams, _) = create_va_canon_and_keys_vecs(peer_pk);
    let canon_stream = CanonStream::from_values(va_vec, peer_pk.into());
    let canon_stream_map =
        CanonStreamMap::from_canon_stream(canon_stream.clone()).expect("This ctor call must not fail");
    let key_one = StreamMapKey::Str("key_one".to_string());

    let result_canon_stream = canon_stream_map
        .index(&key_one)
        .expect("There must be a value for this index.");
    let canon_stream_one = canon_streams.first().unwrap();

    assert!(result_canon_stream.clone().into_values() == canon_stream_one.clone().into_values());

    let key_two = StreamMapKey::Str("key_two".to_string());
    let result_canon_stream = canon_stream_map
        .index(&key_two)
        .expect("There must be a value for this index.");
    let canon_stream_two = canon_streams.last().unwrap();

    assert!(result_canon_stream.clone().into_values() == canon_stream_two.clone().into_values());
}

#[test]
fn entries_hold_each_key_once() {
    let peer_pk = "some_tetraplet";
    let (va_vec, _canon_streams, _keys) = create_va_canon_and_keys_vecs(peer_pk);
    let canon_stream = CanonStream::from_values(va_vec, peer_pk.into());
    let canon_stream_map = CanonStreamMap::from_canon_stream(canon_stream).unwrap();
    let entries = canon_stream_map.entries();
    let mut shown: Vec<(String, usize)> = entries.iter().map(|(k, c)| (k.to_text(), c.len())).collect();
    shown.sort();
    assert_eq!(shown, vec![("key_one".to_string(), 2), ("key_two".to_string(), 1)]);
}
