use vstd::prelude::*;

use crate::assoc::{assoc_map, lemma_assoc_map_last, keys_distinct, lemma_assoc_map, lemma_assoc_push, lemma_assoc_update};
use crate::errors::{ExecutionError, ExecutionResult, StreamMapError, UncatchableError};
use crate::results::{collect_results, lemma_collect_results_ok, lemma_first_error_stays};
use crate::text::{append_each_followed_by, each_followed_by, texts_view};
use crate::security_tetraplet::{CID, SecurityTetraplet, TetrapletView};
use crate::stream_map_key::{kvpair_key, KeyView, StreamMapKey};
use crate::value_aggregate::{aggregates_view, duplicate_all, AggregateView, CanonStream, CanonStreamView, ValueAggregate};

verus! {

/// The error of a value that is not a key-value pair object with a key.
pub open spec fn unsupported_kvpair_object() -> ExecutionError {
    ExecutionError::Uncatchable(
        UncatchableError::StreamMapError(StreamMapError::UnsupportedKVPairObjectOrMapKeyType),
    )
}

/// The key of the key-value pair object at position `idx`, paired with that position.
pub open spec fn spec_from_obj_idx_pair(idx: int, obj: AggregateView) -> Result<(KeyView, int), ExecutionError> {
    match kvpair_key(obj.result) {
        Some(key) => Ok((key, idx)),
        None => Err(unsupported_kvpair_object()),
    }
}

/// The key and position of each object of `values`, in order; or the error of the first
/// object without a key.
pub open spec fn key_positions(values: Seq<AggregateView>) -> Result<Seq<(KeyView, int)>, ExecutionError> {
    collect_results(values, key_position_step())
}

/// The key of an object paired with its position, or the error that refuses it.
pub open spec fn key_position_step() -> spec_fn(int, AggregateView) -> Result<(KeyView, int), ExecutionError> {
    |idx: int, obj: AggregateView| spec_from_obj_idx_pair(idx, obj)
}

/// The key of the key-value pair object `obj`, paired with its position `idx`.
pub fn from_obj_idx_pair(pair: (usize, &ValueAggregate)) -> (entry: ExecutionResult<(StreamMapKey, usize)>)
    ensures
        match spec_from_obj_idx_pair(pair.0 as int, pair.1@) {
            Ok((k, i)) => entry matches Ok(e) && e.0@ == k && e.1 == i,
            Err(err) => entry == Err::<(StreamMapKey, usize), ExecutionError>(err),
        },
{
    let (idx, obj) = pair;
    let opt_key = StreamMapKey::from_kvpair(obj);
    match opt_key {
        None => Err(
            ExecutionError::Uncatchable(
                UncatchableError::StreamMapError(StreamMapError::UnsupportedKVPairObjectOrMapKeyType),
            ),
        ),
        Some(key) => Ok((key, idx)),
    }
}

/// The key and position views of entries of a map.
pub open spec fn positions_view(entries: Seq<(StreamMapKey, usize)>) -> Seq<(KeyView, int)> {
    entries.map_values(|e: (StreamMapKey, usize)| (e.0@, e.1 as int))
}

/// A canon stream map as mathematics sees it: the values, the position of the last object
/// of each key, and the tetraplet.
pub struct CanonStreamMapView {
    pub values: Seq<AggregateView>,
    pub map: Map<KeyView, int>,
    pub tetraplet: TetrapletView,
}

/// The canon stream map of a canon stream, or the error of the first object without a key.
pub open spec fn spec_from_canon_stream(canon: CanonStreamView) -> Result<CanonStreamMapView, ExecutionError> {
    match key_positions(canon.values) {
        Err(e) => Err(e),
        Ok(entries) => Ok(
            CanonStreamMapView { values: canon.values, map: assoc_map(entries), tetraplet: canon.tetraplet },
        ),
    }
}

/// The map built from a canon stream holds exactly the keys read from its objects, each
/// with the position of the last object of that key; the values and the tetraplet are those
/// of the canon stream.
pub proof fn lemma_from_canon_stream_last_positions(canon: CanonStreamView, key: KeyView)
    requires
        spec_from_canon_stream(canon) is Ok,
    ensures
        ({
            let m = spec_from_canon_stream(canon)->Ok_0;
            &&& m.values == canon.values
            &&& m.tetraplet == canon.tetraplet
            &&& m.map.contains_key(key) <==> exists|i: int|
                0 <= i < canon.values.len() && kvpair_key(#[trigger] canon.values[i].result) == Some(key)
            &&& m.map.contains_key(key) ==> {
                &&& 0 <= m.map[key] < canon.values.len()
                &&& kvpair_key(canon.values[m.map[key]].result) == Some(key)
                &&& forall|j: int|
                    m.map[key] < j < canon.values.len() ==> kvpair_key(#[trigger] canon.values[j].result) != Some(key)
            }
        }),
{
    let values = canon.values;
    lemma_collect_results_ok(values, key_position_step());
    let entries = key_positions(values)->Ok_0;
    assert forall|i: int| 0 <= i < values.len() implies kvpair_key(#[trigger] values[i].result) == Some(entries[i].0)
        && entries[i].1 == i by {
        assert(key_position_step()(i, values[i]) == Ok::<(KeyView, int), ExecutionError>(entries[i]));
    }
    lemma_assoc_map_last(entries, key);
    if exists|i: int| 0 <= i < values.len() && kvpair_key(#[trigger] values[i].result) == Some(key) {
        let i = choose|i: int| 0 <= i < values.len() && kvpair_key(#[trigger] values[i].result) == Some(key);
        assert(entries[i].0 == key);
    }
    if assoc_map(entries).contains_key(key) {
        let i = choose|i: int|
            0 <= i < entries.len() && #[trigger] entries[i].0 == key && assoc_map(entries)[key] == entries[i].1
                && forall|j: int| i < j < entries.len() ==> entries[j].0 != key;
        assert(kvpair_key(values[i].result) == Some(key));
        assert forall|j: int| i < j < values.len() implies kvpair_key(#[trigger] values[j].result) != Some(key) by {
            assert(kvpair_key(values[j].result) == Some(entries[j].0));
        }
    }
}

/// A canon stream of key-value pair objects with, for each key, the position of its last
/// object.
#[derive(Debug)]
pub struct CanonStreamMap {
    values: Vec<ValueAggregate>,
    map: Vec<(StreamMapKey, usize)>,
    tetraplet: SecurityTetraplet,
}

impl View for CanonStreamMap {
    type V = CanonStreamMapView;

    closed spec fn view(&self) -> CanonStreamMapView {
        CanonStreamMapView {
            values: aggregates_view(self.values@),
            map: assoc_map(positions_view(self.map@)),
            tetraplet: self.tetraplet@,
        }
    }
}

impl CanonStreamMap {
    /// A map of `values` without any key.
    pub fn new(values: Vec<ValueAggregate>, tetraplet: SecurityTetraplet) -> (map: Self)
        ensures
            map@ == (CanonStreamMapView {
                values: aggregates_view(values@),
                map: Map::empty(),
                tetraplet: tetraplet@,
            }),
    {
        let map = Self { values, map: Vec::new(), tetraplet };
        assert(positions_view(map.map@) =~= Seq::<(KeyView, int)>::empty());
        map
    }

    /// The key-value pair objects, in order: what a text of the map shows.
    pub fn values(&self) -> (values: &Vec<ValueAggregate>)
        ensures
            aggregates_view(values@) == self@.values,
    {
        &self.values
    }

    /// The map of a canon stream of key-value pair objects: each key with the position of
    /// its last object.
    pub fn from_canon_stream(canon_stream: &CanonStream) -> (map: ExecutionResult<CanonStreamMap>)
        ensures
            match spec_from_canon_stream(canon_stream@) {
                Ok(v) => map matches Ok(m) && m@ == v,
                Err(e) => map == Err::<CanonStreamMap, ExecutionError>(e),
            },
    {
        let values = duplicate_all(canon_stream.iter());
        let tetraplet = canon_stream.tetraplet().duplicate();
        let ghost all = canon_stream@.values;
        let objects = canon_stream.iter();
        let mut map: Vec<(StreamMapKey, usize)> = Vec::new();
        let ghost mut entries: Seq<(KeyView, int)> = Seq::empty();
        let mut i: usize = 0;
        assert(all.take(0) =~= Seq::<AggregateView>::empty());
        assert(positions_view(map@) =~= Seq::<(KeyView, int)>::empty());
        while i < objects.len()
            invariant
                all == canon_stream@.values,
                all == aggregates_view(objects@),
                i <= objects.len(),
                key_positions(all.take(i as int)) == Ok::<Seq<(KeyView, int)>, ExecutionError>(entries),
                keys_distinct(positions_view(map@)),
                assoc_map(positions_view(map@)) == assoc_map(entries),
            decreases objects.len() - i,
        {
            assert(all.take(i + 1).drop_last() =~= all.take(i as int));
            assert(all.take(i + 1).last() == objects@[i as int]@);
            let (key, idx) = match from_obj_idx_pair((i, &objects[i])) {
                Ok(pair) => pair,
                Err(e) => {
                    proof {
                        lemma_first_error_stays(all, key_position_step(), i as int);
                    }
                    return Err(e);
                },
            };
            let ghost pv = positions_view(map@);
            proof {
                assert(entries.push((key@, idx as int)).drop_last() =~= entries);
                entries = entries.push((key@, idx as int));
            }
            match find_position(&map, &key) {
                Some(j) => {
                    let ghost before = map@;
                    let k = key;
                    map.set(j, (k, idx));
                    proof {
                        assert(positions_view(map@) =~= pv.update(j as int, (pv[j as int].0, idx as int)));
                        lemma_assoc_update(pv, j as int, idx as int);
                    }
                },
                None => {
                    let ghost entry = (key@, idx as int);
                    map.push((key, idx));
                    proof {
                        assert(positions_view(map@) =~= pv.push(entry));
                        lemma_assoc_push(pv, entry);
                    }
                },
            }
            i = i + 1;
        }
        assert(all.take(i as int) =~= all);
        Ok(Self { values, map, tetraplet })
    }
}

/// The index of the entry for `key`.
fn find_position(entries: &Vec<(StreamMapKey, usize)>, key: &StreamMapKey) -> (index: Option<usize>)
    requires
        keys_distinct(positions_view(entries@)),
    ensures
        index matches Some(i) ==> i < entries@.len() && entries@[i as int].0@ == key@,
        index is None ==> !assoc_map(positions_view(entries@)).contains_key(key@),
{
    let ghost pv = positions_view(entries@);
    let mut i: usize = 0;
    while i < entries.len()
        invariant
            pv == positions_view(entries@),
            i <= entries@.len(),
            forall|j: int| 0 <= j < i ==> #[trigger] pv[j].0 != key@,
        decreases entries.len() - i,
    {
        if entries[i].0.same_as(key) {
            return Some(i);
        }
        i = i + 1;
    }
    proof {
        lemma_assoc_map(pv);
        if assoc_map(pv).contains_key(key@) {
            let j = choose|j: int| 0 <= j < pv.len() && #[trigger] pv[j].0 == key@;
            assert(false);
        }
    }
    None
}

/// A canon stream map with the content identifier of the canon result it came from.
#[derive(Debug)]
pub struct CanonStreamMapWithProvenance {
    pub canon_stream_map: CanonStreamMap,
    pub cid: CID,
}

impl CanonStreamMapWithProvenance {
    pub fn new(canon_stream_map: CanonStreamMap, cid: CID) -> (with_provenance: Self)
        ensures
            with_provenance.canon_stream_map@ == canon_stream_map@,
            with_provenance.cid.0@ == cid.0@,
    {
        Self { canon_stream_map, cid }
    }

    /// The canon stream map itself.
    pub fn deref(&self) -> (canon_stream_map: &CanonStreamMap)
        ensures
            canon_stream_map@ == self.canon_stream_map@,
    {
        &self.canon_stream_map
    }
}


/// The text in which the map is shown, given the `Debug` text of each of its values:
/// `[`, each value text followed by `, `, and `]`.
pub fn canon_stream_map_text(value_texts: &Vec<String>) -> (text: String)
    ensures
        text@ == "["@ + each_followed_by(texts_view(value_texts@), ", "@) + "]"@,
{
    let mut text = String::from_str("[");
    append_each_followed_by(&mut text, value_texts, ", ");
    text.append("]");
    text
}

} // verus!
