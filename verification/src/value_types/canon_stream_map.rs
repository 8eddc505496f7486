use vstd::prelude::*;

use crate::assoc::{assoc_map, keys_distinct, lemma_assoc_map, lemma_assoc_push, lemma_assoc_update};
use crate::errors::{ExecutionError, ExecutionResult, StreamMapKeyError, UncatchableError};
use crate::json::{fields_distinct, field_lookup, get_field, JValue, JsonView};
use crate::results::{collect_results, lemma_collect_results_ok, lemma_first_error_stays};
use crate::text::{append_each_followed_by, each_followed_by, join_pairs, pairs_joined};
use crate::security_tetraplet::{CID, SecurityTetraplet, TetrapletView};
use crate::stream_map::kvpair_aggregate;
use crate::stream_map_key::{
    key_in_read_form, key_text, kvpair_key, lemma_kvpair_key, lemma_kvpair_value, value_field, value_field_name, KeyView,
    StreamMapKey,
};
use crate::value_aggregate::{aggregates_view, AggregateView, CanonStream, CanonStreamView, ValueAggregate};

verus! {

/// The error of a value of a canon stream that is not a key-value pair object with a key.
pub open spec fn unsupported_kvpair() -> ExecutionError {
    ExecutionError::Uncatchable(
        UncatchableError::StreamMapKeyError(StreamMapKeyError::UnsupportedKVPairObjectOrMapKeyType),
    )
}

/// The value of a key-value pair object, with the tetraplet, trace position and
/// provenance of the object; or the error where the object is no object or has no value.
pub open spec fn spec_value_from_obj(obj: AggregateView) -> Result<AggregateView, ExecutionError> {
    match obj.result {
        JsonView::Object(fields) => match field_lookup(fields, value_field_name()) {
            Some(value) => Ok(AggregateView { result: value, ..obj }),
            None => Err(
                ExecutionError::Uncatchable(
                    UncatchableError::StreamMapKeyError(StreamMapKeyError::ValueFieldIsAbsent),
                ),
            ),
        },
        _ => Err(
            ExecutionError::Uncatchable(UncatchableError::StreamMapKeyError(StreamMapKeyError::NotAnObject)),
        ),
    }
}

/// The keys and values of a sequence of key-value pair objects, in order; or the error of
/// the first object that is refused.
pub open spec fn kvpair_entries(values: Seq<AggregateView>) -> Result<
    Seq<(KeyView, AggregateView)>,
    ExecutionError,
> {
    collect_results(values, kvpair_step())
}

/// The key and value of a key-value pair object, or the error that refuses it.
pub open spec fn kvpair_step() -> spec_fn(int, AggregateView) -> Result<(KeyView, AggregateView), ExecutionError> {
    |_i: int, obj: AggregateView|
        match kvpair_key(obj.result) {
            None => Err(unsupported_kvpair()),
            Some(key) => match spec_value_from_obj(obj) {
                Err(e) => Err(e),
                Ok(value) => Ok((key, value)),
            },
        }
}

/// The values of `entries` grouped by key, each group a canon stream with `tetraplet` that
/// keeps the values in their order.
pub open spec fn group_by_key(entries: Seq<(KeyView, AggregateView)>, tetraplet: TetrapletView) -> Map<
    KeyView,
    CanonStreamView,
>
    decreases entries.len(),
{
    if entries.len() == 0 {
        Map::empty()
    } else {
        let m = group_by_key(entries.drop_last(), tetraplet);
        let (key, value) = entries.last();
        m.insert(
            key,
            CanonStreamView {
                values: (if m.contains_key(key) {
                    m[key].values
                } else {
                    Seq::empty()
                }).push(value),
                tetraplet,
            },
        )
    }
}

/// A canon stream map as mathematics sees it: the key-value pair objects, the canon stream
/// of the values of each key, and the tetraplet.
pub struct CanonStreamMapView {
    pub values: Seq<AggregateView>,
    pub map: Map<KeyView, CanonStreamView>,
    pub tetraplet: TetrapletView,
}

/// The canon stream map that a canon stream of key-value pair objects gives, or the error
/// of the first object that is refused.
pub open spec fn spec_from_canon_stream(canon: CanonStreamView) -> Result<CanonStreamMapView, ExecutionError> {
    match kvpair_entries(canon.values) {
        Err(e) => Err(e),
        Ok(entries) => Ok(
            CanonStreamMapView {
                values: canon.values,
                map: group_by_key(entries, canon.tetraplet),
                tetraplet: canon.tetraplet,
            },
        ),
    }
}

/// A canon stream as a JSON array of its values.
pub open spec fn canon_json(canon: CanonStreamView) -> JsonView {
    JsonView::Array(canon.values.map_values(|v: AggregateView| v.result))
}

/// The values of the entries with key `key`, in order.
pub open spec fn values_of_key(entries: Seq<(KeyView, AggregateView)>, key: KeyView) -> Seq<AggregateView>
    decreases entries.len(),
{
    if entries.len() == 0 {
        Seq::empty()
    } else if entries.last().0 == key {
        values_of_key(entries.drop_last(), key).push(entries.last().1)
    } else {
        values_of_key(entries.drop_last(), key)
    }
}

/// A key is in the grouping exactly where some entry has it, and its canon stream holds
/// the values of the entries with that key, in their order: grouping neither loses,
/// duplicates nor reorders values.
pub proof fn lemma_group_by_key_values(
    entries: Seq<(KeyView, AggregateView)>,
    tetraplet: TetrapletView,
    key: KeyView,
)
    ensures
        group_by_key(entries, tetraplet).contains_key(key) <==> values_of_key(entries, key).len() > 0,
        group_by_key(entries, tetraplet).contains_key(key) ==> group_by_key(entries, tetraplet)[key]
            == (CanonStreamView { values: values_of_key(entries, key), tetraplet }),
    decreases entries.len(),
{
    if entries.len() > 0 {
        let init = entries.drop_last();
        lemma_group_by_key_values(init, tetraplet, key);
        if entries.last().0 == key && !group_by_key(init, tetraplet).contains_key(key) {
            assert(values_of_key(init, key) =~= Seq::<AggregateView>::empty());
        }
    }
}

/// Reading the key-value pair objects that a stream map holds gives back the keys and
/// values they were made of, where each key is in the form that reading gives (an integer
/// key is read as an `i64` where it fits).
pub proof fn lemma_kvpair_entries_roundtrip(pairs: Seq<(KeyView, AggregateView)>)
    requires
        forall|i: int| 0 <= i < pairs.len() ==> key_in_read_form(#[trigger] pairs[i].0),
    ensures
        kvpair_entries(pairs.map_values(|p: (KeyView, AggregateView)| kvpair_aggregate(p.0, p.1)))
            == Ok::<Seq<(KeyView, AggregateView)>, ExecutionError>(pairs),
    decreases pairs.len(),
{
    let objects = pairs.map_values(|p: (KeyView, AggregateView)| kvpair_aggregate(p.0, p.1));
    if pairs.len() == 0 {
        assert(pairs =~= Seq::<(KeyView, AggregateView)>::empty());
    } else {
        let init = pairs.drop_last();
        assert forall|i: int| 0 <= i < init.len() implies key_in_read_form(#[trigger] init[i].0) by {
            assert(init[i] == pairs[i]);
        }
        lemma_kvpair_entries_roundtrip(init);
        assert(objects.drop_last() =~= init.map_values(|p: (KeyView, AggregateView)| kvpair_aggregate(p.0, p.1)));
        let (k, v) = pairs.last();
        assert(pairs[pairs.len() - 1] == pairs.last());
        lemma_kvpair_key(k, v.result);
        lemma_kvpair_value(k, v.result);
        assert(objects.last() == kvpair_aggregate(k, v));
        assert(pairs =~= init.push((k, v)));
        assert(kvpair_key(objects.last().result) == Some(k));
        assert(spec_value_from_obj(objects.last()) == Ok::<AggregateView, ExecutionError>(v));
    }
}

/// Reading key-value pair objects gives, for each object at its place, the key read from
/// it and the value read from it.
pub proof fn lemma_kvpair_entries_at(values: Seq<AggregateView>)
    requires
        kvpair_entries(values) is Ok,
    ensures
        kvpair_entries(values)->Ok_0.len() == values.len(),
        forall|i: int|
            0 <= i < values.len() ==> kvpair_key(#[trigger] values[i].result) == Some(
                kvpair_entries(values)->Ok_0[i].0,
            ) && spec_value_from_obj(values[i]) == Ok::<AggregateView, ExecutionError>(
                kvpair_entries(values)->Ok_0[i].1,
            ),
{
    lemma_collect_results_ok(values, kvpair_step());
    let e = kvpair_entries(values)->Ok_0;
    assert forall|i: int| 0 <= i < values.len() implies kvpair_key(#[trigger] values[i].result) == Some(e[i].0)
        && spec_value_from_obj(values[i]) == Ok::<AggregateView, ExecutionError>(e[i].1) by {
        assert(kvpair_step()(i, values[i]) == Ok::<(KeyView, AggregateView), ExecutionError>(e[i]));
    }
}

/// The map built from a canon stream is keyed by the keys read from its objects, as they
/// were read: each object's key is in the map, with the values of all objects of that key
/// in their order and the tetraplet of the canon stream; and every key of the map is the
/// key of some object.
pub proof fn lemma_from_canon_stream_keys(canon: CanonStreamView, key: KeyView)
    requires
        spec_from_canon_stream(canon) is Ok,
    ensures
        ({
            let m = spec_from_canon_stream(canon)->Ok_0;
            let entries = kvpair_entries(canon.values)->Ok_0;
            &&& m.values == canon.values
            &&& m.tetraplet == canon.tetraplet
            &&& m.map.contains_key(key) <==> exists|i: int|
                0 <= i < canon.values.len() && kvpair_key(#[trigger] canon.values[i].result) == Some(key)
            &&& m.map.contains_key(key) ==> m.map[key] == (CanonStreamView {
                values: values_of_key(entries, key),
                tetraplet: canon.tetraplet,
            })
        }),
{
    let entries = kvpair_entries(canon.values)->Ok_0;
    lemma_kvpair_entries_at(canon.values);
    lemma_group_by_key_values(entries, canon.tetraplet, key);
    lemma_values_of_key_nonempty(entries, key);
    if exists|i: int| 0 <= i < canon.values.len() && kvpair_key(#[trigger] canon.values[i].result) == Some(key) {
        let i = choose|i: int| 0 <= i < canon.values.len() && kvpair_key(#[trigger] canon.values[i].result) == Some(key);
        assert(entries[i].0 == key);
    }
    if values_of_key(entries, key).len() > 0 {
        let i = choose|i: int| 0 <= i < entries.len() && #[trigger] entries[i].0 == key;
        assert(kvpair_key(canon.values[i].result) == Some(key));
    }
}

/// A key has values exactly where some entry has it.
proof fn lemma_values_of_key_nonempty(entries: Seq<(KeyView, AggregateView)>, key: KeyView)
    ensures
        values_of_key(entries, key).len() > 0 <==> exists|i: int| 0 <= i < entries.len() && #[trigger] entries[i].0 == key,
    decreases entries.len(),
{
    if entries.len() > 0 {
        let init = entries.drop_last();
        lemma_values_of_key_nonempty(init, key);
        if exists|i: int| 0 <= i < init.len() && #[trigger] init[i].0 == key {
            let i = choose|i: int| 0 <= i < init.len() && #[trigger] init[i].0 == key;
            assert(entries[i].0 == key);
        }
        if exists|i: int| 0 <= i < entries.len() && #[trigger] entries[i].0 == key {
            let i = choose|i: int| 0 <= i < entries.len() && #[trigger] entries[i].0 == key;
            if i < entries.len() - 1 {
                assert(init[i].0 == key);
            }
        }
    }
}

/// Every canon stream of a map built from a canon stream carries the tetraplet of that
/// canon stream: grouping by key never changes where the values came from.
pub proof fn lemma_group_tetraplet(entries: Seq<(KeyView, AggregateView)>, tetraplet: TetrapletView)
    ensures
        forall|k: KeyView|
            #[trigger] group_by_key(entries, tetraplet).contains_key(k) ==> group_by_key(
                entries,
                tetraplet,
            )[k].tetraplet == tetraplet,
    decreases entries.len(),
{
    if entries.len() > 0 {
        let init = entries.drop_last();
        lemma_group_tetraplet(init, tetraplet);
        assert forall|k: KeyView| #[trigger] group_by_key(entries, tetraplet).contains_key(k) implies group_by_key(
            entries,
            tetraplet,
        )[k].tetraplet == tetraplet by {
            if k != entries.last().0 {
                assert(group_by_key(init, tetraplet).contains_key(k));
            }
        }
    }
}

/// The names and values of JSON object fields.
pub open spec fn fields_view(fields: Seq<(String, JValue)>) -> Seq<(Seq<char>, JsonView)> {
    fields.map_values(|x: (String, JValue)| (x.0@, x.1@))
}

/// Each field is the text of one of the first `i` keys with the JSON of its canon stream.
pub open spec fn fields_from(fields: Seq<(Seq<char>, JsonView)>, entries: Seq<(KeyView, CanonStreamView)>, i: int) -> bool {
    forall|a: int|
        #![trigger fields[a]]
        0 <= a < fields.len() ==> exists|j: int|
            0 <= j < i && #[trigger] key_text(entries[j].0) == fields[a].0 && fields[a].1 == canon_json(
                entries[j].1,
            )
}

/// The text of each of the first `i` keys names a field.
pub open spec fn keys_in_fields(fields: Seq<(Seq<char>, JsonView)>, entries: Seq<(KeyView, CanonStreamView)>, i: int) -> bool {
    forall|j: int|
        #![trigger entries[j]]
        0 <= j < i ==> exists|a: int| 0 <= a < fields.len() && #[trigger] fields[a].0 == key_text(entries[j].0)
}

/// The fields of the JSON object of a canon stream map: the names are distinct, each is the
/// text of a key with the JSON array of that key's values, and each key's text names one.
pub open spec fn json_of_map(fields: Seq<(Seq<char>, JsonView)>, map: Map<KeyView, CanonStreamView>) -> bool {
    &&& fields_distinct(fields)
    &&& forall|a: int|
        #![trigger fields[a]]
        0 <= a < fields.len() ==> exists|k: KeyView|
            #[trigger] map.contains_key(k) && key_text(k) == fields[a].0 && fields[a].1 == canon_json(map[k])
    &&& forall|k: KeyView|
        #[trigger] map.contains_key(k) ==> exists|a: int| 0 <= a < fields.len() && #[trigger] fields[a].0 == key_text(k)
}

proof fn lemma_fields_replace(
    fields: Seq<(Seq<char>, JsonView)>,
    entries: Seq<(KeyView, CanonStreamView)>,
    i: int,
    f: int,
    json: JsonView,
)
    requires
        0 <= i < entries.len(),
        0 <= f < fields.len(),
        fields_distinct(fields),
        fields_from(fields, entries, i),
        keys_in_fields(fields, entries, i),
        fields[f].0 == key_text(entries[i].0),
        json == canon_json(entries[i].1),
    ensures
        fields_distinct(fields.update(f, (fields[f].0, json))),
        fields_from(fields.update(f, (fields[f].0, json)), entries, i + 1),
        keys_in_fields(fields.update(f, (fields[f].0, json)), entries, i + 1),
{
    let f2 = fields.update(f, (fields[f].0, json));
    assert forall|a: int, b: int| 0 <= a < f2.len() && 0 <= b < f2.len() && a != b implies #[trigger] f2[a].0
        != #[trigger] f2[b].0 by {
        assert(f2[a].0 == fields[a].0 && f2[b].0 == fields[b].0);
    }
    assert forall|a: int| #![trigger f2[a]] 0 <= a < f2.len() implies exists|j: int|
        0 <= j < i + 1 && #[trigger] key_text(entries[j].0) == f2[a].0 && f2[a].1 == canon_json(entries[j].1) by {
        if a == f {
            assert(key_text(entries[i].0) == f2[a].0);
        } else {
            assert(f2[a] == fields[a]);
            let j = choose|j: int|
                0 <= j < i && #[trigger] key_text(entries[j].0) == fields[a].0 && fields[a].1 == canon_json(
                    entries[j].1,
                );
            assert(key_text(entries[j].0) == f2[a].0);
        }
    }
    assert forall|j: int| #![trigger entries[j]] 0 <= j < i + 1 implies exists|a: int|
        0 <= a < f2.len() && #[trigger] f2[a].0 == key_text(entries[j].0) by {
        if j == i {
            assert(f2[f].0 == key_text(entries[j].0));
        } else {
            let a = choose|a: int| 0 <= a < fields.len() && #[trigger] fields[a].0 == key_text(entries[j].0);
            assert(f2[a].0 == fields[a].0);
        }
    }
}

proof fn lemma_fields_push(
    fields: Seq<(Seq<char>, JsonView)>,
    entries: Seq<(KeyView, CanonStreamView)>,
    i: int,
    json: JsonView,
)
    requires
        0 <= i < entries.len(),
        fields_distinct(fields),
        fields_from(fields, entries, i),
        keys_in_fields(fields, entries, i),
        forall|a: int| 0 <= a < fields.len() ==> #[trigger] fields[a].0 != key_text(entries[i].0),
        json == canon_json(entries[i].1),
    ensures
        fields_distinct(fields.push((key_text(entries[i].0), json))),
        fields_from(fields.push((key_text(entries[i].0), json)), entries, i + 1),
        keys_in_fields(fields.push((key_text(entries[i].0), json)), entries, i + 1),
{
    let f2 = fields.push((key_text(entries[i].0), json));
    let n = fields.len() as int;
    assert forall|a: int, b: int| 0 <= a < f2.len() && 0 <= b < f2.len() && a != b implies #[trigger] f2[a].0
        != #[trigger] f2[b].0 by {
        if a == n {
            assert(f2[b] == fields[b]);
        } else if b == n {
            assert(f2[a] == fields[a]);
        } else {
            assert(f2[a] == fields[a] && f2[b] == fields[b]);
        }
    }
    assert forall|a: int| #![trigger f2[a]] 0 <= a < f2.len() implies exists|j: int|
        0 <= j < i + 1 && #[trigger] key_text(entries[j].0) == f2[a].0 && f2[a].1 == canon_json(entries[j].1) by {
        if a == n {
            assert(key_text(entries[i].0) == f2[a].0);
        } else {
            assert(f2[a] == fields[a]);
            let j = choose|j: int|
                0 <= j < i && #[trigger] key_text(entries[j].0) == fields[a].0 && fields[a].1 == canon_json(
                    entries[j].1,
                );
            assert(key_text(entries[j].0) == f2[a].0);
        }
    }
    assert forall|j: int| #![trigger entries[j]] 0 <= j < i + 1 implies exists|a: int|
        0 <= a < f2.len() && #[trigger] f2[a].0 == key_text(entries[j].0) by {
        if j == i {
            assert(f2[n].0 == key_text(entries[j].0));
        } else {
            let a = choose|a: int| 0 <= a < fields.len() && #[trigger] fields[a].0 == key_text(entries[j].0);
            assert(f2[a] == fields[a]);
        }
    }
}

/// Fields built from all entries of a map with distinct keys describe the map.
proof fn lemma_fields_cover_map(fields: Seq<(Seq<char>, JsonView)>, entries: Seq<(KeyView, CanonStreamView)>)
    requires
        keys_distinct(entries),
        fields_distinct(fields),
        fields_from(fields, entries, entries.len() as int),
        keys_in_fields(fields, entries, entries.len() as int),
    ensures
        json_of_map(fields, assoc_map(entries)),
{
    lemma_assoc_map(entries);
    let m = assoc_map(entries);
    assert forall|a: int| #![trigger fields[a]] 0 <= a < fields.len() implies exists|k: KeyView|
        #[trigger] m.contains_key(k) && key_text(k) == fields[a].0 && fields[a].1 == canon_json(m[k]) by {
        let j = choose|j: int|
            0 <= j < entries.len() && #[trigger] key_text(entries[j].0) == fields[a].0 && fields[a].1
                == canon_json(entries[j].1);
        assert(m[entries[j].0] == entries[j].1);
        assert(m.contains_key(entries[j].0));
    }
    assert forall|k: KeyView| #[trigger] m.contains_key(k) implies exists|a: int|
        0 <= a < fields.len() && #[trigger] fields[a].0 == key_text(k) by {
        let j = choose|j: int| 0 <= j < entries.len() && #[trigger] entries[j].0 == k;
        let a = choose|a: int| 0 <= a < fields.len() && #[trigger] fields[a].0 == key_text(entries[j].0);
    }
}

/// The index of the field named `name`.
fn find_field(fields: &Vec<(String, JValue)>, name: &String) -> (index: Option<usize>)
    ensures
        index matches Some(f) ==> f < fields@.len() && fields@[f as int].0@ == name@,
        index is None ==> forall|a: int| 0 <= a < fields@.len() ==> #[trigger] fields@[a].0@ != name@,
{
    let mut f: usize = 0;
    while f < fields.len()
        invariant
            f <= fields@.len(),
            forall|a: int| 0 <= a < f ==> #[trigger] fields@[a].0@ != name@,
        decreases fields.len() - f,
    {
        if fields[f].0 == *name {
            return Some(f);
        }
        f = f + 1;
    }
    None
}

/// The key and canon stream views of entries of a map.
pub open spec fn map_entries_view(entries: Seq<(StreamMapKey, CanonStream)>) -> Seq<(KeyView, CanonStreamView)> {
    entries.map_values(|e: (StreamMapKey, CanonStream)| (e.0@, e.1@))
}

/// The value of a key-value pair object, with the tetraplet, trace position and provenance
/// of the object.
pub fn get_value_from_obj(value_aggregate: &ValueAggregate) -> (value: ExecutionResult<ValueAggregate>)
    ensures
        match spec_value_from_obj(value_aggregate@) {
            Ok(v) => value matches Ok(a) && a@ == v,
            Err(e) => value == Err::<ValueAggregate, ExecutionError>(e),
        },
{
    let tetraplet = value_aggregate.get_tetraplet();
    let provenance = value_aggregate.get_provenance();
    let trace_pos = value_aggregate.get_trace_pos();
    let object = match value_aggregate.get_result().as_object() {
        Some(object) => object,
        None => {
            return Err(
                ExecutionError::Uncatchable(UncatchableError::StreamMapKeyError(StreamMapKeyError::NotAnObject)),
            );
        },
    };
    let name = value_field();
    let value = match get_field(object, &name) {
        Some(value) => value,
        None => {
            return Err(
                ExecutionError::Uncatchable(
                    UncatchableError::StreamMapKeyError(StreamMapKeyError::ValueFieldIsAbsent),
                ),
            );
        },
    };
    let result = value.deep_copy();
    Ok(ValueAggregate::new(result, tetraplet, trace_pos, provenance))
}

/// The index of the entry for `key`.
fn find_key(entries: &Vec<(StreamMapKey, CanonStream)>, key: &StreamMapKey) -> (index: Option<usize>)
    requires
        keys_distinct(map_entries_view(entries@)),
    ensures
        index matches Some(i) ==> i < entries@.len() && entries@[i as int].0@ == key@
            && assoc_map(map_entries_view(entries@)).contains_key(key@) && assoc_map(
            map_entries_view(entries@),
        )[key@] == entries@[i as int].1@,
        index is None ==> !assoc_map(map_entries_view(entries@)).contains_key(key@),
{
    let ghost ev = map_entries_view(entries@);
    let mut i: usize = 0;
    while i < entries.len()
        invariant
            ev == map_entries_view(entries@),
            keys_distinct(ev),
            i <= entries@.len(),
            forall|j: int| 0 <= j < i ==> #[trigger] ev[j].0 != key@,
        decreases entries.len() - i,
    {
        if entries[i].0.same_as(key) {
            proof {
                lemma_assoc_map(ev);
                assert(ev[i as int].0 == key@);
                assert(assoc_map(ev)[ev[i as int].0] == ev[i as int].1);
            }
            return Some(i);
        }
        i = i + 1;
    }
    proof {
        lemma_assoc_map(ev);
        if assoc_map(ev).contains_key(key@) {
            let j = choose|j: int| 0 <= j < ev.len() && #[trigger] ev[j].0 == key@;
            assert(false);
        }
    }
    None
}

/// A read-only map from keys to the canon streams of their values, made from a canon
/// stream of key-value pair objects. A key may occur in several objects; its canon stream
/// holds their values in order.
#[derive(Debug)]
pub struct CanonStreamMap {
    values: Vec<ValueAggregate>,
    map: Vec<(StreamMapKey, CanonStream)>,
    tetraplet: SecurityTetraplet,
}

impl View for CanonStreamMap {
    type V = CanonStreamMapView;

    closed spec fn view(&self) -> CanonStreamMapView {
        CanonStreamMapView {
            values: aggregates_view(self.values@),
            map: assoc_map(map_entries_view(self.map@)),
            tetraplet: self.tetraplet@,
        }
    }
}

impl CanonStreamMap {
    #[verifier::type_invariant]
    closed spec fn keys_once(&self) -> bool {
        keys_distinct(map_entries_view(self.map@))
    }

    /// The map of a canon stream of key-value pair objects: each key with the canon stream
    /// of its values, which shares the tetraplet of `canon_stream`.
    pub fn from_canon_stream(canon_stream: CanonStream) -> (map: ExecutionResult<CanonStreamMap>)
        ensures
            match spec_from_canon_stream(canon_stream@) {
                Ok(v) => map matches Ok(m) && m@ == v,
                Err(e) => map matches Err(err) && err == e,
            },
    {
        let tetraplet = canon_stream.tetraplet().duplicate();
        let ghost t = canon_stream@.tetraplet;
        let ghost all = canon_stream@.values;
        let mut map: Vec<(StreamMapKey, CanonStream)> = Vec::new();
        let ghost mut entries: Seq<(KeyView, AggregateView)> = Seq::empty();
        let values = canon_stream.iter();
        let mut i: usize = 0;
        assert(all.take(0) =~= Seq::<AggregateView>::empty());
        assert(map_entries_view(map@) =~= Seq::<(KeyView, CanonStreamView)>::empty());
        while i < values.len()
            invariant
                all == canon_stream@.values,
                all == aggregates_view(values@),
                t == canon_stream@.tetraplet,
                i <= values.len(),
                kvpair_entries(all.take(i as int)) == Ok::<Seq<(KeyView, AggregateView)>, ExecutionError>(entries),
                keys_distinct(map_entries_view(map@)),
                assoc_map(map_entries_view(map@)) == group_by_key(entries, t),
            decreases values.len() - i,
        {
            let kvpair_obj = &values[i];
            assert(all.take(i + 1).drop_last() =~= all.take(i as int));
            assert(all.take(i + 1).last() == kvpair_obj@);
            let key = match StreamMapKey::from_kvpair(kvpair_obj) {
                Some(key) => key,
                None => {
                    proof {
                        lemma_first_error_stays(all, kvpair_step(), i as int);
                    }
                    return Err(
                        ExecutionError::Uncatchable(
                            UncatchableError::StreamMapKeyError(
                                StreamMapKeyError::UnsupportedKVPairObjectOrMapKeyType,
                            ),
                        ),
                    );
                },
            };
            let value = match get_value_from_obj(kvpair_obj) {
                Ok(value) => value,
                Err(e) => {
                    proof {
                        lemma_first_error_stays(all, kvpair_step(), i as int);
                    }
                    return Err(e);
                },
            };
            let ghost ev = map_entries_view(map@);
            let ghost g = group_by_key(entries, t);
            proof {
                assert((entries.push((key@, value@))).drop_last() =~= entries);
                entries = entries.push((key@, value@));
            }
            match find_key(&map, &key) {
                Some(j) => {
                    let ghost old_map = map@;
                    let mut canon = CanonStream::new(Vec::new(), SecurityTetraplet::default());
                    std::mem::swap(&mut canon, &mut map[j].1);
                    canon.push(value);
                    let ghost cv = canon@;
                    let _ = std::mem::swap(&mut canon, &mut map[j].1);
                    proof {
                        assert(map@ =~= old_map.update(j as int, (old_map[j as int].0, map@[j as int].1)));
                        assert(map@[j as int].1@ == cv);
                        assert(map_entries_view(map@) =~= ev.update(j as int, (ev[j as int].0, cv)));
                        lemma_assoc_update(ev, j as int, cv);
                        assert(g.contains_key(key@));
                        lemma_group_tetraplet(entries.drop_last(), t);
                        assert(g[key@].tetraplet == t);
                        assert(cv == CanonStreamView { values: g[key@].values.push(value@), tetraplet: t });
                        assert(group_by_key(entries, t) == g.insert(key@, cv));
                    }
                },
                None => {
                    let mut canon = CanonStream::new(Vec::new(), canon_stream.tetraplet().duplicate());
                    assert(canon@.values =~= Seq::<AggregateView>::empty());
                    canon.push(value);
                    let ghost entry = (key@, canon@);
                    map.push((key, canon));
                    proof {
                        assert(map_entries_view(map@) =~= ev.push(entry));
                        lemma_assoc_push(ev, entry);
                        assert(!g.contains_key(key@));
                        assert(entry.1 == CanonStreamView { values: Seq::<AggregateView>::empty().push(value@), tetraplet: t });
                        assert(group_by_key(entries, t) == g.insert(key@, entry.1));
                    }
                },
            }
            i = i + 1;
        }
        assert(all.take(i as int) =~= all);
        let values = canon_stream.into_values();
        let result = Self { values, map, tetraplet };
        Ok(result)
    }

    /// The number of key-value pair objects of the map.
    pub fn len(&self) -> (len: usize)
        ensures
            len == self@.values.len(),
    {
        self.values.len()
    }

    /// Whether the map has no key.
    pub fn is_empty(&self) -> (is_empty: bool)
        ensures
            is_empty == (self@.map == Map::<KeyView, CanonStreamView>::empty()),
    {
        proof {
            use_type_invariant(self);
            lemma_assoc_map(map_entries_view(self.map@));
            if self.map@.len() > 0 {
                assert(map_entries_view(self.map@)[0].0 == map_entries_view(self.map@)[0].0);
                assert(assoc_map(map_entries_view(self.map@)).contains_key(map_entries_view(self.map@)[0].0));
            } else {
                assert(assoc_map(map_entries_view(self.map@)) =~= Map::<KeyView, CanonStreamView>::empty());
            }
        }
        self.map.len() == 0
    }

    /// The key-value pair objects, in order.
    pub fn iter(&self) -> (values: &Vec<ValueAggregate>)
        ensures
            aggregates_view(values@) == self@.values,
    {
        &self.values
    }

    pub fn tetraplet(&self) -> (tetraplet: &SecurityTetraplet)
        ensures
            tetraplet@ == self@.tetraplet,
    {
        &self.tetraplet
    }

    /// Each key of the map once, with its canon stream: what a text of the map shows.
    pub fn entries(&self) -> (entries: &Vec<(StreamMapKey, CanonStream)>)
        ensures
            keys_distinct(map_entries_view(entries@)),
            assoc_map(map_entries_view(entries@)) == self@.map,
            forall|i: int|
                0 <= i < entries@.len() ==> #[trigger] self@.map.contains_key(entries@[i].0@) && self@.map[entries@[i].0@]
                    == entries@[i].1@,
            forall|k: KeyView|
                #[trigger] self@.map.contains_key(k) ==> exists|i: int| 0 <= i < entries@.len() && entries@[i].0@ == k,
    {
        proof {
            use_type_invariant(self);
            lemma_assoc_map(map_entries_view(self.map@));
            assert forall|i: int| 0 <= i < self.map@.len() implies #[trigger] self@.map.contains_key(self.map@[i].0@)
                && self@.map[self.map@[i].0@] == self.map@[i].1@ by {
                let ev = map_entries_view(self.map@);
                assert(ev[i] == (self.map@[i].0@, self.map@[i].1@));
                assert(ev[i].0 == self.map@[i].0@);
                assert(assoc_map(ev).contains_key(ev[i].0));
                assert(assoc_map(ev)[ev[i].0] == ev[i].1);
            }
            assert forall|k: KeyView| #[trigger] self@.map.contains_key(k) implies exists|i: int|
                0 <= i < self.map@.len() && self.map@[i].0@ == k by {
                let i = choose|i: int| 0 <= i < map_entries_view(self.map@).len() && #[trigger] map_entries_view(self.map@)[i].0 == k;
                assert(self.map@[i].0@ == k);
            }
        }
        &self.map
    }

    /// The canon stream of the values of `stream_map_key`.
    pub fn index(&self, stream_map_key: &StreamMapKey) -> (canon: Option<&CanonStream>)
        ensures
            canon matches Some(c) ==> self@.map.contains_key(stream_map_key@) && c@ == self@.map[stream_map_key@],
            canon is None ==> !self@.map.contains_key(stream_map_key@),
    {
        proof {
            use_type_invariant(self);
        }
        match find_key(&self.map, stream_map_key) {
            Some(i) => Some(&self.map[i].1),
            None => None,
        }
    }

    /// The map as a JSON object: each key, written as text, with the array of its values.
    /// Where two keys have the same text, the field holds the values of one of them.
    pub fn as_jvalue(&self) -> (value: JValue)
        ensures
            value@ is Object,
            json_of_map(value@->Object_0, self@.map),
    {
        proof {
            use_type_invariant(self);
            lemma_assoc_map(map_entries_view(self.map@));
        }
        let ghost ev = map_entries_view(self.map@);
        let mut fields: Vec<(String, JValue)> = Vec::new();
        let mut i: usize = 0;
        assert(fields_view(fields@) =~= Seq::<(Seq<char>, JsonView)>::empty());
        while i < self.map.len()
            invariant
                ev == map_entries_view(self.map@),
                i <= self.map@.len(),
                fields_distinct(fields_view(fields@)),
                fields_from(fields_view(fields@), ev, i as int),
                keys_in_fields(fields_view(fields@), ev, i as int),
            decreases self.map.len() - i,
        {
            let text = self.map[i].0.to_text();
            let json = self.map[i].1.as_jvalue();
            let ghost fv = fields_view(fields@);
            assert(json@ == canon_json(ev[i as int].1)) by {
                assert(self.map@[i as int].1@.values.map_values(|v: AggregateView| v.result)
                    =~= ev[i as int].1.values.map_values(|v: AggregateView| v.result));
            }
            match find_field(&fields, &text) {
                Some(f) => {
                    let name = fields[f].0.clone();
                    let ghost jv = json@;
                    fields.set(f, (name, json));
                    proof {
                        assert(fields_view(fields@) =~= fv.update(f as int, (fv[f as int].0, jv)));
                        lemma_fields_replace(fv, ev, i as int, f as int, jv);
                    }
                },
                None => {
                    let ghost entry = (text@, json@);
                    fields.push((text, json));
                    proof {
                        assert(fields_view(fields@) =~= fv.push(entry));
                        lemma_fields_push(fv, ev, i as int, entry.1);
                    }
                },
            }
            i = i + 1;
        }
        let value = JValue::Object(fields);
        proof {
            assert(value@->Object_0 =~= fields_view(fields@));
            lemma_fields_cover_map(fields_view(fields@), ev);
        }
        value
    }
}

/// A canon stream map with the content identifier of the canon result it came from.
#[derive(Debug)]
pub struct CanonStreamMapWithProvenance {
    pub canon_stream_map: CanonStreamMap,
    pub cid: CID,
}

impl CanonStreamMapWithProvenance {
    pub fn new(canon_stream_map: CanonStreamMap, cid: CID) -> (with_provenance: Self)
        ensures
            with_provenance.canon_stream_map@ == canon_stream_map@,
            with_provenance.cid.0@ == cid.0@,
    {
        Self { canon_stream_map, cid }
    }

    /// The canon stream map itself.
    pub fn deref(&self) -> (canon_stream_map: &CanonStreamMap)
        ensures
            canon_stream_map@ == self.canon_stream_map@,
    {
        &self.canon_stream_map
    }
}


/// The text in which the map is shown, given the text of each key with that of its
/// canon stream: `[`, each `key : canon stream` followed by `, `, and `]`.
pub fn canon_map_text(entries: &Vec<(String, String)>) -> (text: String)
    ensures
        text@ == "["@ + each_followed_by(pairs_joined(entries@, " : "@), ", "@) + "]"@,
{
    let parts = join_pairs(entries, " : ");
    let mut text = String::from_str("[");
    append_each_followed_by(&mut text, &parts, ", ");
    text.append("]");
    text
}

} // verus!
