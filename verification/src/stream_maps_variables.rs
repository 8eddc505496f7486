use vstd::prelude::*;

pub mod display;

use crate::errors::{ExecutionError, ExecutionResult, UncatchableError};
use crate::generation::Generation;
use crate::security_tetraplet::TracePos;
use crate::generation::GenerationIdx;
use crate::stream::{lemma_trace_with_generations_append, StreamView};
use crate::stream_map::{kvpair_aggregate, StreamMap};
use crate::stream_map_key::StreamMapKey;
use crate::trace_handler::{trace_with_generations, TraceHandler};
use crate::value_aggregate::{AggregateView, ValueAggregate};

verus! {

/// A position in an AIR script.
#[derive(Clone, Copy, Debug, PartialEq, Eq, Structural)]
pub struct AirPos(pub usize);

/// The positions strictly between `left` and `right`: the instructions inside a scope.
#[derive(Clone, Copy, Debug, PartialEq, Eq, Structural)]
pub struct Span {
    pub left: AirPos,
    pub right: AirPos,
}

impl Span {
    pub fn new(left: AirPos, right: AirPos) -> (span: Span)
        ensures
            span == (Span { left, right }),
    {
        Span { left, right }
    }

    pub open spec fn spec_contains_position(self, position: AirPos) -> bool {
        self.left.0 < position.0 && position.0 < self.right.0
    }

    /// Whether `position` lies inside the span.
    pub fn contains_position(&self, position: AirPos) -> (contains: bool)
        ensures
            contains == self.spec_contains_position(position),
    {
        self.left.0 < position.0 && position.0 < self.right.0
    }
}

/// The span of a global stream map: the whole script.
pub open spec fn global_span() -> Span {
    Span { left: AirPos(0), right: AirPos(usize::MAX) }
}

/// A value to put into the stream map `name` at `position` of the script.
pub struct StreamMapValueDescriptor<'stream_name> {
    pub value: ValueAggregate,
    pub name: &'stream_name str,
    pub generation: Generation,
    pub position: AirPos,
}

impl<'stream_name> StreamMapValueDescriptor<'stream_name> {
    pub fn new(value: ValueAggregate, name: &'stream_name str, generation: Generation, position: AirPos) -> (
        descriptor: Self)
        ensures
            descriptor.value@ == value@,
            descriptor.name@ == name@,
            descriptor.generation == generation,
            descriptor.position == position,
    {
        Self { value, name, generation, position }
    }
}

/// A stream map with the span of the script in which it is visible.
#[derive(Debug)]
pub struct StreamMapDescriptor {
    pub span: Span,
    pub stream_map: StreamMap,
}

/// A descriptor as mathematics sees it.
pub struct DescriptorView {
    pub span: Span,
    pub stream_map: StreamView,
}

impl View for StreamMapDescriptor {
    type V = DescriptorView;

    open spec fn view(&self) -> DescriptorView {
        DescriptorView { span: self.span, stream_map: self.stream_map@ }
    }
}

/// The views of a sequence of descriptors.
pub open spec fn descriptors_view(ds: Seq<StreamMapDescriptor>) -> Seq<DescriptorView> {
    ds.map_values(|d: StreamMapDescriptor| d@)
}

impl StreamMapDescriptor {
    /// A stream map visible in the whole script.
    pub fn global(stream_map: StreamMap) -> (descriptor: Self)
        ensures
            descriptor@ == (DescriptorView { span: global_span(), stream_map: stream_map@ }),
    {
        Self { span: Span::new(AirPos(0), AirPos(usize::MAX)), stream_map }
    }

    /// A stream map visible inside `span`.
    pub fn restricted(stream_map: StreamMap, span: Span) -> (descriptor: Self)
        ensures
            descriptor@ == (DescriptorView { span, stream_map: stream_map@ }),
    {
        Self { span, stream_map }
    }
}

/// The index of the last descriptor whose span holds `position`: descriptors are kept in
/// the order in which their scopes were entered, so that is the innermost one.
pub open spec fn closest_index(ds: Seq<DescriptorView>, position: AirPos) -> Option<int>
    decreases ds.len(),
{
    if ds.len() == 0 {
        None
    } else if ds.last().span.spec_contains_position(position) {
        Some(ds.len() - 1)
    } else {
        closest_index(ds.drop_last(), position)
    }
}

/// `closest_index` is the last index whose span holds the position, or `None` where no
/// span holds it.
pub proof fn lemma_closest_index(ds: Seq<DescriptorView>, position: AirPos)
    ensures
        closest_index(ds, position) matches Some(i) ==> {
            &&& 0 <= i < ds.len()
            &&& ds[i].span.spec_contains_position(position)
            &&& forall|j: int| i < j < ds.len() ==> !(#[trigger] ds[j].span.spec_contains_position(position))
        },
        closest_index(ds, position) is None ==> forall|j: int|
            0 <= j < ds.len() ==> !(#[trigger] ds[j].span.spec_contains_position(position)),
    decreases ds.len(),
{
    if ds.len() > 0 {
        lemma_closest_index(ds.drop_last(), position);
        if !ds.last().span.spec_contains_position(position) {
            assert forall|j: int| 0 <= j < ds.len() - 1 implies ds[j] == ds.drop_last()[j] by {}
        }
    }
}

/// Searches the descriptors from the last one for one whose span holds `position`.
fn closest_position(descriptors: &Vec<StreamMapDescriptor>, position: AirPos) -> (index: Option<usize>)
    ensures
        index matches Some(i) ==> i < descriptors@.len() && closest_index(
            descriptors_view(descriptors@),
            position,
        ) == Some(i as int),
        index is None ==> closest_index(descriptors_view(descriptors@), position) is None,
{
    let ghost dv = descriptors_view(descriptors@);
    let mut n: usize = descriptors.len();
    assert(dv.take(n as int) =~= dv);
    while n > 0
        invariant
            dv == descriptors_view(descriptors@),
            n <= descriptors.len(),
            closest_index(dv, position) == closest_index(dv.take(n as int), position),
        decreases n,
    {
        let ghost prefix = dv.take(n as int);
        assert(prefix.last() == dv[n - 1]);
        if descriptors[n - 1].span.contains_position(position) {
            return Some(n - 1);
        }
        assert(prefix.drop_last() =~= dv.take(n - 1));
        n = n - 1;
    }
    None
}

/// The stream map of the last descriptor whose span holds `position`.
pub fn find_closest(descriptors: &Vec<StreamMapDescriptor>, position: AirPos) -> (stream_map: Option<
    &StreamMap,
>)
    ensures
        match closest_index(descriptors_view(descriptors@), position) {
            Some(i) => stream_map matches Some(m) && m@ == descriptors@[i].stream_map@,
            None => stream_map is None,
        },
{
    proof {
        lemma_closest_index(descriptors_view(descriptors@), position);
    }
    match closest_position(descriptors, position) {
        Some(i) => Some(&descriptors[i].stream_map),
        None => None,
    }
}

/// The stream map of the last descriptor whose span holds `position`, to be changed.
pub fn find_closest_mut(descriptors: &mut Vec<StreamMapDescriptor>, position: AirPos) -> (stream_map:
    Option<&mut StreamMap>)
    ensures
        match closest_index(descriptors_view(old(descriptors)@), position) {
            Some(i) => stream_map matches Some(m) && *m == old(descriptors)@[i].stream_map
                && final(descriptors)@ == old(descriptors)@.update(
                i,
                StreamMapDescriptor { stream_map: *final(m), ..old(descriptors)@[i] },
            ),
            None => stream_map is None && final(descriptors)@ == old(descriptors)@,
        },
{
    proof {
        lemma_closest_index(descriptors_view(descriptors@), position);
    }
    match closest_position(descriptors, position) {
        Some(i) => Some(&mut descriptors[i].stream_map),
        None => None,
    }
}

/// The stream maps of a name as a map from names to descriptors, later entries winning.
pub open spec fn entries_view(entries: Seq<(String, Vec<StreamMapDescriptor>)>) -> Map<
    Seq<char>,
    Seq<DescriptorView>,
>
    decreases entries.len(),
{
    if entries.len() == 0 {
        Map::empty()
    } else {
        entries_view(entries.drop_last()).insert(
            entries.last().0@,
            descriptors_view(entries.last().1@),
        )
    }
}

/// No two entries have the same name.
pub open spec fn names_distinct(entries: Seq<(String, Vec<StreamMapDescriptor>)>) -> bool {
    forall|i: int, j: int|
        0 <= i < entries.len() && 0 <= j < entries.len() && i != j ==> #[trigger] entries[i].0@
            != #[trigger] entries[j].0@
}

/// With distinct names, the map holds exactly the names of the entries, each with its
/// descriptors.
proof fn lemma_entries_view(entries: Seq<(String, Vec<StreamMapDescriptor>)>)
    requires
        names_distinct(entries),
    ensures
        forall|k: Seq<char>|
            #[trigger] entries_view(entries).contains_key(k) <==> exists|i: int|
                0 <= i < entries.len() && #[trigger] entries[i].0@ == k,
        forall|i: int|
            0 <= i < entries.len() ==> #[trigger] entries_view(entries)[entries[i].0@]
                == descriptors_view(entries[i].1@),
    decreases entries.len(),
{
    if entries.len() > 0 {
        let init = entries.drop_last();
        assert(names_distinct(init)) by {
            assert forall|i: int, j: int|
                0 <= i < init.len() && 0 <= j < init.len() && i != j implies #[trigger] init[i].0@
                != #[trigger] init[j].0@ by {
                assert(init[i] == entries[i] && init[j] == entries[j]);
            }
        }
        lemma_entries_view(init);
        let last = entries.len() - 1;
        assert forall|k: Seq<char>|
            #[trigger] entries_view(entries).contains_key(k) <==> exists|i: int|
                0 <= i < entries.len() && #[trigger] entries[i].0@ == k by {
            if entries_view(entries).contains_key(k) && k != entries[last].0@ {
                assert(entries_view(init).contains_key(k));
                let i = choose|i: int| 0 <= i < init.len() && #[trigger] init[i].0@ == k;
                assert(entries[i] == init[i]);
                assert(entries[i].0@ == k);
            }
            if entries_view(entries).contains_key(k) && k == entries[last].0@ {
                assert(entries[last].0@ == k);
            }
            if exists|i: int| 0 <= i < entries.len() && #[trigger] entries[i].0@ == k {
                let i = choose|i: int| 0 <= i < entries.len() && #[trigger] entries[i].0@ == k;
                if i < last {
                    assert(init[i] == entries[i]);
                    assert(entries_view(init).contains_key(k));
                }
            }
        }
        assert forall|i: int| 0 <= i < entries.len() implies #[trigger] entries_view(
            entries,
        )[entries[i].0@] == descriptors_view(entries[i].1@) by {
            if i < last {
                assert(init[i] == entries[i]);
                assert(entries[i].0@ != entries[last].0@);
                assert(entries_view(init)[init[i].0@] == descriptors_view(init[i].1@));
            }
        }
    }
}

/// Giving an entry new descriptors changes the map at its name only.
proof fn lemma_entries_update(
    entries: Seq<(String, Vec<StreamMapDescriptor>)>,
    i: int,
    descriptors: Vec<StreamMapDescriptor>,
)
    requires
        names_distinct(entries),
        0 <= i < entries.len(),
    ensures
        names_distinct(entries.update(i, (entries[i].0, descriptors))),
        entries_view(entries.update(i, (entries[i].0, descriptors))) == entries_view(entries).insert(
            entries[i].0@,
            descriptors_view(descriptors@),
        ),
{
    let e2 = entries.update(i, (entries[i].0, descriptors));
    assert(names_distinct(e2)) by {
        assert forall|a: int, b: int|
            0 <= a < e2.len() && 0 <= b < e2.len() && a != b implies #[trigger] e2[a].0@
            != #[trigger] e2[b].0@ by {
            assert(e2[a].0@ == entries[a].0@ && e2[b].0@ == entries[b].0@);
        }
    }
    lemma_entries_view(entries);
    lemma_entries_view(e2);
    let m1 = entries_view(entries).insert(entries[i].0@, descriptors_view(descriptors@));
    let m2 = entries_view(e2);
    assert forall|k: Seq<char>| m2.contains_key(k) <==> m1.contains_key(k) by {
        if m2.contains_key(k) {
            let j = choose|j: int| 0 <= j < e2.len() && #[trigger] e2[j].0@ == k;
            assert(entries[j].0@ == k);
        }
        if m1.contains_key(k) && k != entries[i].0@ {
            let j = choose|j: int| 0 <= j < entries.len() && #[trigger] entries[j].0@ == k;
            assert(e2[j].0@ == k);
        }
        if k == entries[i].0@ {
            assert(e2[i].0@ == k);
        }
    }
    assert forall|k: Seq<char>| m2.contains_key(k) implies m2[k] == m1[k] by {
        let j = choose|j: int| 0 <= j < e2.len() && #[trigger] e2[j].0@ == k;
        assert(m2[e2[j].0@] == descriptors_view(e2[j].1@));
        if j != i {
            assert(entries[j].0@ == k);
            assert(entries_view(entries)[entries[j].0@] == descriptors_view(entries[j].1@));
        }
    }
    assert(m2 =~= m1);
}

/// Adding an entry under a new name adds that name to the map.
proof fn lemma_entries_push(entries: Seq<(String, Vec<StreamMapDescriptor>)>, entry: (String, Vec<StreamMapDescriptor>))
    requires
        names_distinct(entries),
        !entries_view(entries).contains_key(entry.0@),
    ensures
        names_distinct(entries.push(entry)),
        entries_view(entries.push(entry)) == entries_view(entries).insert(
            entry.0@,
            descriptors_view(entry.1@),
        ),
{
    lemma_entries_view(entries);
    let e2 = entries.push(entry);
    assert(names_distinct(e2)) by {
        assert forall|a: int, b: int|
            0 <= a < e2.len() && 0 <= b < e2.len() && a != b implies #[trigger] e2[a].0@
            != #[trigger] e2[b].0@ by {
            if a == entries.len() {
                assert(e2[b] == entries[b]);
            } else if b == entries.len() {
                assert(e2[a] == entries[a]);
            } else {
                assert(e2[a] == entries[a] && e2[b] == entries[b]);
            }
        }
    }
    assert(e2.drop_last() =~= entries);
}

/// Removing the entry of a name removes that name from the map.
proof fn lemma_entries_remove(entries: Seq<(String, Vec<StreamMapDescriptor>)>, i: int)
    requires
        names_distinct(entries),
        0 <= i < entries.len(),
    ensures
        names_distinct(entries.remove(i)),
        entries_view(entries.remove(i)) == entries_view(entries).remove(entries[i].0@),
{
    let e2 = entries.remove(i);
    assert forall|a: int| 0 <= a < e2.len() implies #[trigger] e2[a] == entries[if a < i { a } else { a + 1 }] by {}
    assert(names_distinct(e2)) by {
        assert forall|a: int, b: int|
            0 <= a < e2.len() && 0 <= b < e2.len() && a != b implies #[trigger] e2[a].0@
            != #[trigger] e2[b].0@ by {
            assert(e2[a] == entries[if a < i { a } else { a + 1 }]);
            assert(e2[b] == entries[if b < i { b } else { b + 1 }]);
        }
    }
    lemma_entries_view(entries);
    lemma_entries_view(e2);
    let m1 = entries_view(entries).remove(entries[i].0@);
    let m2 = entries_view(e2);
    assert forall|k: Seq<char>| m2.contains_key(k) <==> m1.contains_key(k) by {
        if m2.contains_key(k) {
            let j = choose|j: int| 0 <= j < e2.len() && #[trigger] e2[j].0@ == k;
            let jj = if j < i { j } else { j + 1 };
            assert(e2[j] == entries[jj]);
            assert(entries[jj].0@ == k);
            assert(jj != i);
        }
        if m1.contains_key(k) {
            let j = choose|j: int| 0 <= j < entries.len() && #[trigger] entries[j].0@ == k;
            assert(j != i);
            let jj = if j < i { j } else { j - 1 };
            assert(e2[jj] == entries[j]);
            assert(e2[jj].0@ == k);
        }
    }
    assert forall|k: Seq<char>| m2.contains_key(k) implies m2[k] == m1[k] by {
        let j = choose|j: int| 0 <= j < e2.len() && #[trigger] e2[j].0@ == k;
        let jj = if j < i { j } else { j + 1 };
        assert(e2[j] == entries[jj]);
        assert(m2[e2[j].0@] == descriptors_view(e2[j].1@));
        assert(entries_view(entries)[entries[jj].0@] == descriptors_view(entries[jj].1@));
    }
    assert(m2 =~= m1);
}

/// `maps` with the stream map of descriptor `i` of `name` replaced by `stream_map`.
pub open spec fn with_stream_map_at(
    maps: Map<Seq<char>, Seq<DescriptorView>>,
    name: Seq<char>,
    i: int,
    stream_map: StreamView,
) -> Map<Seq<char>, Seq<DescriptorView>> {
    maps.insert(name, maps[name].update(i, DescriptorView { stream_map, ..maps[name][i] }))
}

/// The index of the descriptor of `name` whose stream map is visible at `position`.
pub open spec fn closest_of(
    maps: Map<Seq<char>, Seq<DescriptorView>>,
    name: Seq<char>,
    position: AirPos,
) -> Option<int> {
    if maps.contains_key(name) {
        closest_index(maps[name], position)
    } else {
        None
    }
}

/// The stream maps after a scope of `name` spanning `span` is entered.
pub open spec fn after_scope_start(
    maps: Map<Seq<char>, Seq<DescriptorView>>,
    name: Seq<char>,
    span: Span,
) -> Map<Seq<char>, Seq<DescriptorView>> {
    maps.insert(
        name,
        (if maps.contains_key(name) {
            maps[name]
        } else {
            Seq::empty()
        }).push(DescriptorView { span, stream_map: StreamView::empty() }),
    )
}

/// The stream maps after the innermost scope of `name` is left.
pub open spec fn after_scope_end(maps: Map<Seq<char>, Seq<DescriptorView>>, name: Seq<char>) -> Map<
    Seq<char>,
    Seq<DescriptorView>,
> {
    if maps[name].len() == 1 {
        maps.remove(name)
    } else {
        maps.insert(name, maps[name].drop_last())
    }
}

/// The stream maps after `value` is put into `generation` of the stream map `name`
/// visible at `position`, or into a new global one where none is visible there.
pub open spec fn after_add(
    maps: Map<Seq<char>, Seq<DescriptorView>>,
    name: Seq<char>,
    position: AirPos,
    value: AggregateView,
    generation: Generation,
) -> Map<Seq<char>, Seq<DescriptorView>> {
    match closest_of(maps, name, position) {
        Some(i) => with_stream_map_at(maps, name, i, maps[name][i].stream_map.with_value(value, generation)),
        None => maps.insert(
            name,
            seq![
                DescriptorView {
                    span: global_span(),
                    stream_map: StreamView::empty().with_value(value, generation),
                },
            ],
        ),
    }
}

/// The stream maps of a name that is in `maps`, the one visible at `position`: that of the
/// last descriptor whose span holds it.
pub open spec fn closest_map(
    maps: Map<Seq<char>, Seq<DescriptorView>>,
    name: Seq<char>,
    position: AirPos,
) -> Option<StreamView> {
    if maps.contains_key(name) {
        match closest_index(maps[name], position) {
            Some(i) => Some(maps[name][i].stream_map),
            None => None,
        }
    } else {
        None
    }
}

/// The trace updates of compacting the stream maps of `descriptors`, in order.
pub open spec fn descriptors_updates(descriptors: Seq<DescriptorView>) -> Seq<(TracePos, GenerationIdx)>
    decreases descriptors.len(),
{
    if descriptors.len() == 0 {
        Seq::empty()
    } else {
        descriptors_updates(descriptors.drop_last()) + descriptors.last().stream_map.compaction_updates()
    }
}

/// The trace updates of compacting all stream maps of `names`, name after name.
pub open spec fn names_updates(maps: Map<Seq<char>, Seq<DescriptorView>>, names: Seq<Seq<char>>) -> Seq<
    (TracePos, GenerationIdx),
>
    decreases names.len(),
{
    if names.len() == 0 {
        Seq::empty()
    } else {
        names_updates(maps, names.drop_last()) + descriptors_updates(maps[names.last()])
    }
}

/// The descriptors with their stream maps compacted.
pub open spec fn compacted_descriptors(descriptors: Seq<DescriptorView>) -> Seq<DescriptorView> {
    descriptors.map_values(
        |d: DescriptorView| DescriptorView { span: d.span, stream_map: d.stream_map.compacted() },
    )
}

proof fn lemma_descriptors_updates_split(a: Seq<DescriptorView>, b: Seq<DescriptorView>)
    ensures
        descriptors_updates(a + b) == descriptors_updates(a) + descriptors_updates(b),
    decreases b.len(),
{
    if b.len() == 0 {
        assert(a + b =~= a);
        assert(descriptors_updates(a) + descriptors_updates(b) =~= descriptors_updates(a));
    } else {
        lemma_descriptors_updates_split(a, b.drop_last());
        assert((a + b).drop_last() =~= a + b.drop_last());
        assert(descriptors_updates(a) + descriptors_updates(b) =~= descriptors_updates(a)
            + descriptors_updates(b.drop_last()) + b.last().stream_map.compaction_updates());
    }
}

proof fn lemma_names_updates_split(
    maps: Map<Seq<char>, Seq<DescriptorView>>,
    a: Seq<Seq<char>>,
    b: Seq<Seq<char>>,
)
    ensures
        names_updates(maps, a + b) == names_updates(maps, a) + names_updates(maps, b),
    decreases b.len(),
{
    if b.len() == 0 {
        assert(a + b =~= a);
        assert(names_updates(maps, a) + names_updates(maps, b) =~= names_updates(maps, a));
    } else {
        lemma_names_updates_split(maps, a, b.drop_last());
        assert((a + b).drop_last() =~= a + b.drop_last());
        assert(names_updates(maps, a) + names_updates(maps, b) =~= names_updates(maps, a) + names_updates(
            maps,
            b.drop_last(),
        ) + descriptors_updates(maps[b.last()]));
    }
}

/// The updates up to stream map `j` of name `i` are a prefix of all updates.
proof fn lemma_updates_prefix(maps: Map<Seq<char>, Seq<DescriptorView>>, names: Seq<Seq<char>>, i: int, j: int)
    requires
        0 <= i < names.len(),
        0 <= j < maps[names[i]].len(),
    ensures
        ({
            let ds = maps[names[i]];
            let prefix = names_updates(maps, names.take(i)) + descriptors_updates(ds.take(j + 1));
            names_updates(maps, names) == prefix + (descriptors_updates(ds.skip(j + 1)) + names_updates(
                maps,
                names.skip(i + 1),
            ))
        }),
{
    let ds = maps[names[i]];
    assert(names =~= names.take(i) + seq![names[i]] + names.skip(i + 1));
    lemma_names_updates_split(maps, names.take(i) + seq![names[i]], names.skip(i + 1));
    lemma_names_updates_split(maps, names.take(i), seq![names[i]]);
    assert(seq![names[i]].drop_last() =~= Seq::<Seq<char>>::empty());
    assert(seq![names[i]].last() == names[i]);
    assert(names_updates(maps, Seq::<Seq<char>>::empty()) =~= Seq::<(TracePos, GenerationIdx)>::empty());
    assert(names_updates(maps, seq![names[i]]) =~= descriptors_updates(ds));
    assert(ds =~= ds.take(j + 1) + ds.skip(j + 1));
    lemma_descriptors_updates_split(ds.take(j + 1), ds.skip(j + 1));
    let p = names_updates(maps, names.take(i));
    let x = descriptors_updates(ds.take(j + 1));
    let y = descriptors_updates(ds.skip(j + 1));
    let z = names_updates(maps, names.skip(i + 1));
    assert(p + (x + y) + z =~= p + x + (y + z));
}

/// Every name of `maps` has at least one stream map, as `StreamMaps::inv` keeps it.
pub open spec fn names_have_maps(maps: Map<Seq<char>, Seq<DescriptorView>>) -> bool {
    forall|name: Seq<char>| #[trigger] maps.contains_key(name) ==> maps[name].len() > 0
}

/// Entering a scope and leaving it gives back the stream maps as they were.
pub proof fn lemma_scope_start_end_restores(
    maps: Map<Seq<char>, Seq<DescriptorView>>,
    name: Seq<char>,
    span: Span,
)
    requires
        names_have_maps(maps),
    ensures
        after_scope_end(after_scope_start(maps, name, span), name) == maps,
{
    let started = after_scope_start(maps, name, span);
    if maps.contains_key(name) {
        assert(started[name].drop_last() =~= maps[name]);
        assert(after_scope_end(started, name) =~= maps);
    } else {
        assert(after_scope_end(started, name) =~= maps);
    }
}

/// Inside the span of a scope just entered, the stream map visible is the new, empty one.
pub proof fn lemma_scope_start_visible(
    maps: Map<Seq<char>, Seq<DescriptorView>>,
    name: Seq<char>,
    span: Span,
    position: AirPos,
)
    requires
        span.spec_contains_position(position),
    ensures
        closest_map(after_scope_start(maps, name, span), name, position) == Some(StreamView::empty()),
{
}

/// Entering and leaving scopes of one name leaves the stream maps of other names as they
/// were.
pub proof fn lemma_scopes_of_other_names(
    maps: Map<Seq<char>, Seq<DescriptorView>>,
    name: Seq<char>,
    other: Seq<char>,
    span: Span,
)
    requires
        name != other,
        maps.contains_key(name),
    ensures
        after_scope_start(maps, name, span).contains_key(other) == maps.contains_key(other),
        after_scope_end(maps, name).contains_key(other) == maps.contains_key(other),
        maps.contains_key(other) ==> after_scope_start(maps, name, span)[other] == maps[other],
        maps.contains_key(other) ==> after_scope_end(maps, name)[other] == maps[other],
{
}

/// After a value is put into the stream map `name` at `position`, the stream map visible
/// there is the one that received it: the one visible before, with the value added, or a
/// new global one holding only the value.
pub proof fn lemma_add_then_get(
    maps: Map<Seq<char>, Seq<DescriptorView>>,
    name: Seq<char>,
    position: AirPos,
    value: AggregateView,
    generation: Generation,
)
    requires
        0 < position.0 < usize::MAX,
    ensures
        closest_map(after_add(maps, name, position, value, generation), name, position) == Some(
            match closest_map(maps, name, position) {
                Some(m) => m.with_value(value, generation),
                None => StreamView::empty().with_value(value, generation),
            },
        ),
{
    match closest_of(maps, name, position) {
        Some(i) => {
            let ds = maps[name];
            lemma_closest_index(ds, position);
            let ds2 = ds.update(i, DescriptorView { stream_map: ds[i].stream_map.with_value(value, generation), ..ds[i] });
            assert forall|j: int| i < j < ds2.len() implies !(#[trigger] ds2[j].span.spec_contains_position(position)) by {
                assert(ds2[j] == ds[j]);
            }
            lemma_closest_index_unique(ds2, position, i);
        },
        None => {
            let d = DescriptorView {
                span: global_span(),
                stream_map: StreamView::empty().with_value(value, generation),
            };
            assert(seq![d].drop_last() =~= Seq::<DescriptorView>::empty());
        },
    }
}

/// The last index whose span holds the position is `closest_index`.
proof fn lemma_closest_index_unique(ds: Seq<DescriptorView>, position: AirPos, i: int)
    requires
        0 <= i < ds.len(),
        ds[i].span.spec_contains_position(position),
        forall|j: int| i < j < ds.len() ==> !(#[trigger] ds[j].span.spec_contains_position(position)),
    ensures
        closest_index(ds, position) == Some(i),
    decreases ds.len(),
{
    if i < ds.len() - 1 {
        let init = ds.drop_last();
        assert forall|j: int| i < j < init.len() implies !(#[trigger] init[j].span.spec_contains_position(position)) by {
            assert(init[j] == ds[j]);
        }
        lemma_closest_index_unique(init, position, i);
    }
}

/// The trace updates of compacting, in the order of `names`, every stream map before
/// stream map `b` of name `a`.
pub open spec fn updates_before(
    maps: Map<Seq<char>, Seq<DescriptorView>>,
    names: Seq<Seq<char>>,
    a: int,
    b: int,
) -> Seq<(TracePos, GenerationIdx)> {
    names_updates(maps, names.take(a)) + descriptors_updates(maps[names[a]].take(b))
}

/// `after` holds the stream maps of `before`, those before stream map `b` of name `a` (in
/// the order of `names`) compacted and the others as they were.
pub open spec fn compacted_before(
    before: Map<Seq<char>, Seq<DescriptorView>>,
    after: Map<Seq<char>, Seq<DescriptorView>>,
    names: Seq<Seq<char>>,
    a: int,
    b: int,
) -> bool {
    forall|c: int, j: int|
        0 <= c < names.len() && 0 <= j < before[names[c]].len() ==> #[trigger] after[names[c]][j] == (
        DescriptorView {
            span: before[names[c]][j].span,
            stream_map: if c < a || (c == a && j < b) {
                before[names[c]][j].stream_map.compacted()
            } else {
                before[names[c]][j].stream_map
            },
        })
}

/// After compacting the stream maps of the first `i` entries and the first `j` of entry
/// `i`, the entries are those of `e0` with just these stream maps compacted.
pub open spec fn compacted_up_to(
    e0: Seq<(String, Vec<StreamMapDescriptor>)>,
    e: Seq<(String, Vec<StreamMapDescriptor>)>,
    i: int,
    j: int,
) -> bool {
    &&& e.len() == e0.len()
    &&& forall|a: int| 0 <= a < e.len() ==> #[trigger] e[a].0 == e0[a].0 && e[a].1@.len() == e0[a].1@.len()
    &&& forall|a: int, b: int|
        0 <= a < e.len() && 0 <= b < e0[a].1@.len() ==> #[trigger] e[a].1@[b]@ == (DescriptorView {
            span: e0[a].1@[b]@.span,
            stream_map: if a < i || (a == i && b < j) {
                e0[a].1@[b]@.stream_map.compacted()
            } else {
                e0[a].1@[b]@.stream_map
            },
        })
}

/// The stream maps of a script, by name; a name has one stream map for each scope of it
/// that has been entered and not left, and a global one where values were put into it
/// outside of any such scope.
#[derive(Debug)]
pub struct StreamMaps {
    stream_maps: Vec<(String, Vec<StreamMapDescriptor>)>,
}

impl View for StreamMaps {
    type V = Map<Seq<char>, Seq<DescriptorView>>;

    closed spec fn view(&self) -> Map<Seq<char>, Seq<DescriptorView>> {
        entries_view(self.stream_maps@)
    }
}

impl StreamMaps {
    /// Each name is kept once, with at least one descriptor.
    pub closed spec fn inv(&self) -> bool {
        &&& names_distinct(self.stream_maps@)
        &&& forall|i: int| 0 <= i < self.stream_maps@.len() ==> #[trigger] self.stream_maps@[i].1@.len() > 0
    }

    pub fn new() -> (maps: Self)
        ensures
            maps.inv(),
            maps@ == Map::<Seq<char>, Seq<DescriptorView>>::empty(),
    {
        Self { stream_maps: Vec::new() }
    }

    /// The invariant gives every name at least one descriptor.
    pub proof fn lemma_inv_non_empty(&self, name: Seq<char>)
        requires
            self.inv(),
            self@.contains_key(name),
        ensures
            self@[name].len() > 0,
    {
        lemma_entries_view(self.stream_maps@);
        let i = choose|i: int| 0 <= i < self.stream_maps@.len() && #[trigger] self.stream_maps@[i].0@ == name;
        assert(self.stream_maps@[i].1@.len() > 0);
    }

    /// The index of the entry for `name`.
    fn position_of(&self, name: &String) -> (index: Option<usize>)
        requires
            self.inv(),
        ensures
            index matches Some(i) ==> i < self.stream_maps@.len() && self.stream_maps@[i as int].0@
                == name@ && self@.contains_key(name@) && self@[name@] == descriptors_view(
                self.stream_maps@[i as int].1@,
            ),
            index is None ==> !self@.contains_key(name@),
    {
        let mut i: usize = 0;
        while i < self.stream_maps.len()
            invariant
                names_distinct(self.stream_maps@),
                i <= self.stream_maps@.len(),
                forall|j: int| 0 <= j < i ==> #[trigger] self.stream_maps@[j].0@ != name@,
            decreases self.stream_maps.len() - i,
        {
            if self.stream_maps[i].0 == *name {
                proof {
                    lemma_entries_view(self.stream_maps@);
                }
                assert(entries_view(self.stream_maps@)[self.stream_maps@[i as int].0@] == descriptors_view(
                    self.stream_maps@[i as int].1@,
                ));
                assert(entries_view(self.stream_maps@).contains_key(self.stream_maps@[i as int].0@));
                return Some(i);
            }
            i = i + 1;
        }
        proof {
            lemma_entries_view(self.stream_maps@);
        }
        assert(!entries_view(self.stream_maps@).contains_key(name@));
        None
    }

    /// The stream map `name` that is visible at `position`.
    pub fn get(&self, name: &str, position: AirPos) -> (stream_map: Option<&StreamMap>)
        requires
            self.inv(),
        ensures
            match closest_map(self@, name@, position) {
                Some(m) => stream_map matches Some(s) && s@ == m,
                None => stream_map is None,
            },
    {
        let name = String::from_str(name);
        match self.position_of(&name) {
            Some(i) => {
                let r = find_closest(&self.stream_maps[i].1, position);
                proof {
                    lemma_closest_index(descriptors_view(self.stream_maps@[i as int].1@), position);
                }
                r
            },
            None => None,
        }
    }

    /// The stream map `name` that is visible at `position`, to be changed.
    pub fn get_mut(&mut self, name: &str, position: AirPos) -> (stream_map: Option<&mut StreamMap>)
        requires
            old(self).inv(),
        ensures
            final(self).inv(),
            match closest_of(old(self)@, name@, position) {
                Some(i) => stream_map matches Some(m) && m@ == old(self)@[name@][i].stream_map
                    && final(self)@ == with_stream_map_at(old(self)@, name@, i, final(m)@),
                None => stream_map is None && final(self)@ == old(self)@,
            },
    {
        let name = String::from_str(name);
        match self.position_of(&name) {
            Some(i) => {
                let ghost e0 = self.stream_maps@;
                let ghost ds0 = e0[i as int].1@;
                proof {
                    lemma_closest_index(descriptors_view(ds0), position);
                }
                match closest_position(&self.stream_maps[i].1, position) {
                    Some(j) => {
                        proof {
                            assert forall|ds2: Vec<StreamMapDescriptor>|
                                #![trigger e0.update(i as int, (e0[i as int].0, ds2))]
                                names_distinct(e0.update(i as int, (e0[i as int].0, ds2))) && entries_view(
                                    e0.update(i as int, (e0[i as int].0, ds2)),
                                ) == entries_view(e0).insert(e0[i as int].0@, descriptors_view(ds2@)) by {
                                lemma_entries_update(e0, i as int, ds2);
                            }
                            assert forall|sm: StreamMap|
                                #![trigger ds0.update(j as int, StreamMapDescriptor { span: ds0[j as int].span, stream_map: sm })]
                                descriptors_view(
                                    ds0.update(j as int, StreamMapDescriptor { span: ds0[j as int].span, stream_map: sm }),
                                ) == descriptors_view(ds0).update(
                                    j as int,
                                    DescriptorView { stream_map: sm@, ..descriptors_view(ds0)[j as int] },
                                ) by {
                                assert(descriptors_view(
                                    ds0.update(j as int, StreamMapDescriptor { span: ds0[j as int].span, stream_map: sm }),
                                ) =~= descriptors_view(ds0).update(
                                    j as int,
                                    DescriptorView { stream_map: sm@, ..descriptors_view(ds0)[j as int] },
                                ));
                            }
                        }
                        Some(&mut self.stream_maps[i].1[j].stream_map)
                    },
                    None => None,
                }
            },
            None => None,
        }
    }

    /// Gives entry `i` the descriptors `descriptors`, handing back those it had.
    fn replace_descriptors(&mut self, i: usize, descriptors: Vec<StreamMapDescriptor>) -> (previous:
        Vec<StreamMapDescriptor>)
        requires
            i < old(self).stream_maps@.len(),
        ensures
            final(self).stream_maps@ == old(self).stream_maps@.update(
                i as int,
                (old(self).stream_maps@[i as int].0, descriptors),
            ),
            previous == old(self).stream_maps@[i as int].1,
    {
        let mut descriptors = descriptors;
        std::mem::swap(&mut descriptors, &mut self.stream_maps[i].1);
        descriptors
    }

    /// Sets the descriptors of `name` to `descriptors`, as a map insertion does.
    fn insert_entry(&mut self, name: String, descriptors: Vec<StreamMapDescriptor>)
        requires
            old(self).inv(),
            descriptors@.len() > 0,
        ensures
            final(self).inv(),
            final(self)@ == old(self)@.insert(name@, descriptors_view(descriptors@)),
    {
        let ghost e0 = self.stream_maps@;
        match self.position_of(&name) {
            Some(i) => {
                let ghost d = descriptors;
                let _ = self.replace_descriptors(i, descriptors);
                proof {
                    lemma_entries_update(e0, i as int, d);
                    assert forall|a: int| 0 <= a < self.stream_maps@.len() implies #[trigger] self.stream_maps@[a].1@.len() > 0 by {
                        if a != i {
                            assert(self.stream_maps@[a] == e0[a]);
                        }
                    }
                }
            },
            None => {
                let ghost entry = (name, descriptors);
                self.stream_maps.push((name, descriptors));
                proof {
                    lemma_entries_push(e0, entry);
                    assert forall|a: int| 0 <= a < self.stream_maps@.len() implies #[trigger] self.stream_maps@[a].1@.len() > 0 by {
                        if a < e0.len() {
                            assert(self.stream_maps@[a] == e0[a]);
                        }
                    }
                }
            },
        }
    }

    /// Puts a value into the stream map `name` visible at the position of the value; where
    /// none is visible there, a new global stream map of that name is made for it, in place
    /// of whatever stream maps the name had.
    pub fn add_stream_map_value(
        &mut self,
        key: StreamMapKey,
        value_descriptor: StreamMapValueDescriptor<'_>,
    ) -> (result: ExecutionResult<()>)
        requires
            old(self).inv(),
            match closest_of(old(self)@, value_descriptor.name@, value_descriptor.position) {
                Some(i) => old(self)@[value_descriptor.name@][i].stream_map.can_add(
                    value_descriptor.generation,
                ),
                None => StreamView::empty().can_add(value_descriptor.generation),
            },
        ensures
            final(self).inv(),
            result is Ok,
            final(self)@ == after_add(
                old(self)@,
                value_descriptor.name@,
                value_descriptor.position,
                kvpair_aggregate(key@, value_descriptor.value@),
                value_descriptor.generation,
            ),
    {
        let StreamMapValueDescriptor { value, name, generation, position } = value_descriptor;
        match self.get_mut(name, position) {
            Some(stream_map) => stream_map.insert(key, &value, generation),
            None => {
                let mut stream_map = StreamMap::new();
                let r = stream_map.insert(key, &value, generation);
                if let Err(e) = r {
                    return Err(e);
                }
                let descriptor = StreamMapDescriptor::global(stream_map);
                let ghost d = descriptor@;
                let descriptors = vec![descriptor];
                assert(descriptors_view(descriptors@) =~= seq![d]);
                self.insert_entry(String::from_str(name), descriptors);
                Ok(())
            },
        }
    }

    /// Enters a scope of the stream map `name`: a new, empty stream map of that name is
    /// visible inside `span`.
    pub fn meet_scope_start(&mut self, name: String, span: Span)
        requires
            old(self).inv(),
        ensures
            final(self).inv(),
            final(self)@ == after_scope_start(old(self)@, name@, span),
    {
        let new_stream_map = StreamMap::new();
        let new_descriptor = StreamMapDescriptor::restricted(new_stream_map, span);
        let ghost d = new_descriptor@;
        match self.position_of(&name) {
            Some(i) => {
                let ghost e0 = self.stream_maps@;
                let mut descriptors = self.replace_descriptors(i, Vec::new());
                let ghost before = descriptors@;
                descriptors.push(new_descriptor);
                assert(descriptors_view(descriptors@) =~= descriptors_view(before).push(d));
                let _ = self.replace_descriptors(i, descriptors);
                proof {
                    assert(self.stream_maps@ =~= e0.update(i as int, (e0[i as int].0, descriptors)));
                    lemma_entries_update(e0, i as int, descriptors);
                    assert forall|a: int| 0 <= a < self.stream_maps@.len() implies #[trigger] self.stream_maps@[a].1@.len() > 0 by {
                        if a != i {
                            assert(self.stream_maps@[a] == e0[a]);
                        }
                    }
                }
            },
            None => {
                let descriptors = vec![new_descriptor];
                assert(descriptors_view(descriptors@) =~= Seq::<DescriptorView>::empty().push(d));
                self.insert_entry(name, descriptors);
            },
        }
    }

    /// Leaves the innermost scope of the stream map `name`: its last stream map is no
    /// longer visible, and the name is dropped where none is left. The stream map left is
    /// compacted, which writes the final generations of its values into the trace.
    pub fn meet_scope_end(&mut self, name: String, trace_ctx: &mut TraceHandler) -> (result:
        ExecutionResult<()>)
        requires
            old(self).inv(),
            old(self)@.contains_key(name@),
            old(self)@[name@].last().stream_map.compactable(),
        ensures
            final(self).inv(),
            final(self)@ == after_scope_end(old(self)@, name@),
            ({
                let (trace, error) = trace_with_generations(
                    old(trace_ctx)@,
                    old(self)@[name@].last().stream_map.compaction_updates(),
                );
                &&& final(trace_ctx)@ == trace
                &&& match error {
                    None => result is Ok,
                    Some(e) => result == Err::<(), ExecutionError>(
                        ExecutionError::Uncatchable(UncatchableError::GenerationCompactificationError(e)),
                    ),
                }
            }),
    {
        proof {
            self.lemma_inv_non_empty(name@);
        }
        let ghost e0 = self.stream_maps@;
        let i = match self.position_of(&name) {
            Some(i) => i,
            None => {
                assert(false);
                return Ok(());
            },
        };
        let mut descriptors = self.replace_descriptors(i, Vec::new());
        let ghost before = descriptors@;
        assert(before.len() > 0);
        let mut last_descriptor = match descriptors.pop() {
            Some(d) => d,
            None => {
                assert(false);
                return Ok(());
            },
        };
        assert(descriptors_view(before).last() == last_descriptor@);
        assert(descriptors_view(descriptors@) =~= descriptors_view(before).drop_last());
        if descriptors.len() == 0 {
            self.stream_maps.remove(i);
            proof {
                assert(self.stream_maps@ =~= e0.remove(i as int));
                lemma_entries_remove(e0, i as int);
                assert forall|a: int| 0 <= a < self.stream_maps@.len() implies #[trigger] self.stream_maps@[a].1@.len() > 0 by {
                    assert(self.stream_maps@[a] == e0[if a < i { a } else { a + 1 }]);
                }
            }
        } else {
            let _ = self.replace_descriptors(i, descriptors);
            proof {
                assert(self.stream_maps@ =~= e0.update(i as int, (e0[i as int].0, descriptors)));
                lemma_entries_update(e0, i as int, descriptors);
                assert forall|a: int| 0 <= a < self.stream_maps@.len() implies #[trigger] self.stream_maps@[a].1@.len() > 0 by {
                    if a != i {
                        assert(self.stream_maps@[a] == e0[a]);
                    }
                }
            }
        }
        last_descriptor.stream_map.compactify(trace_ctx)
    }

    /// Each name, in `compaction_order`, with its last descriptor: the innermost scope
    /// entered and not left, or the global stream map. The older descriptors of a name are
    /// left out; this is what a text of the stream maps shows.
    pub fn last_descriptors(&self) -> (last: Vec<(&String, &StreamMapDescriptor)>)
        requires
            self.inv(),
        ensures
            last@.len() == self.compaction_order().len(),
            forall|i: int|
                0 <= i < last@.len() ==> #[trigger] last@[i].0@ == self.compaction_order()[i] && self@.contains_key(
                    last@[i].0@,
                ) && last@[i].1@ == self@[last@[i].0@].last(),
    {
        proof {
            lemma_entries_view(self.stream_maps@);
        }
        let mut last: Vec<(&String, &StreamMapDescriptor)> = Vec::new();
        let mut i: usize = 0;
        while i < self.stream_maps.len()
            invariant
                self.inv(),
                i <= self.stream_maps@.len(),
                last@.len() == i,
                forall|k: Seq<char>|
                    #[trigger] entries_view(self.stream_maps@).contains_key(k) <==> exists|a: int|
                        0 <= a < self.stream_maps@.len() && #[trigger] self.stream_maps@[a].0@ == k,
                forall|a: int|
                    0 <= a < self.stream_maps@.len() ==> #[trigger] entries_view(self.stream_maps@)[self.stream_maps@[a].0@]
                        == descriptors_view(self.stream_maps@[a].1@),
                forall|j: int|
                    0 <= j < i ==> #[trigger] last@[j].0@ == self.compaction_order()[j] && self@.contains_key(
                        last@[j].0@,
                    ) && last@[j].1@ == self@[last@[j].0@].last(),
            decreases self.stream_maps.len() - i,
        {
            let entry = &self.stream_maps[i];
            let n = entry.1.len();
            assert(n > 0);
            let d = &entry.1[n - 1];
            proof {
                assert(self.stream_maps@[i as int].0@ == self.stream_maps@[i as int].0@);
                assert(self@.contains_key(entry.0@));
                assert(self@[entry.0@] == descriptors_view(entry.1@));
                assert(self.compaction_order()[i as int] == entry.0@);
            }
            last.push((&entry.0, d));
            i = i + 1;
        }
        last
    }

    /// The names in the order in which `compactify` visits them.
    pub closed spec fn compaction_order(&self) -> Seq<Seq<char>> {
        self.stream_maps@.map_values(|e: (String, Vec<StreamMapDescriptor>)| e.0@)
    }

    /// The order of compaction visits each name once.
    pub proof fn lemma_compaction_order(&self)
        requires
            self.inv(),
        ensures
            self.compaction_order().no_duplicates(),
            self.compaction_order().to_set() == self@.dom(),
            names_have_maps(self@),
    {
        lemma_entries_view(self.stream_maps@);
        let order = self.compaction_order();
        assert forall|k: Seq<char>| order.to_set().contains(k) <==> self@.dom().contains(k) by {
            if order.to_set().contains(k) {
                let i = choose|i: int| 0 <= i < order.len() && order[i] == k;
                assert(self.stream_maps@[i].0@ == k);
            }
            if self@.dom().contains(k) {
                let i = choose|i: int| 0 <= i < self.stream_maps@.len() && #[trigger] self.stream_maps@[i].0@ == k;
                assert(order[i] == k);
            }
        }
        assert(order.to_set() =~= self@.dom());
        assert forall|k: Seq<char>| #[trigger] self@.contains_key(k) implies self@[k].len() > 0 by {
            let i = choose|i: int| 0 <= i < self.stream_maps@.len() && #[trigger] self.stream_maps@[i].0@ == k;
            assert(self.stream_maps@[i].1@.len() > 0);
        }
    }

    /// Compacts every stream map, name after name in `compaction_order` and each name's
    /// stream maps in order, stopping at the first error: each drops its empty generations
    /// and writes the final generations of its values into the trace.
    #[verifier::rlimit(40)]
    pub fn compactify(&mut self, trace_ctx: &mut TraceHandler) -> (result: ExecutionResult<()>)
        requires
            old(self).inv(),
            forall|name: Seq<char>, j: int|
                #[trigger] old(self)@.contains_key(name) && 0 <= j < old(self)@[name].len() ==> (#[trigger] old(
                    self,
                )@[name][j]).stream_map.compactable(),
        ensures
            final(self).inv(),
            old(self).compaction_order().no_duplicates(),
            old(self).compaction_order().to_set() == old(self)@.dom(),
            ({
                let (trace, error) = trace_with_generations(
                    old(trace_ctx)@,
                    names_updates(old(self)@, old(self).compaction_order()),
                );
                &&& final(trace_ctx)@ == trace
                &&& match error {
                    None => result is Ok,
                    Some(e) => result == Err::<(), ExecutionError>(
                        ExecutionError::Uncatchable(UncatchableError::GenerationCompactificationError(e)),
                    ),
                }
            }),
            result is Ok ==> final(self)@ == old(self)@.map_values(
                |ds: Seq<DescriptorView>| compacted_descriptors(ds),
            ),
            final(self)@.dom() == old(self)@.dom(),
            forall|name: Seq<char>|
                #[trigger] old(self)@.contains_key(name) ==> final(self)@[name].len() == old(self)@[name].len(),
            result is Err ==> exists|a: int, b: int|
                #![trigger updates_before(old(self)@, old(self).compaction_order(), a, b)]
                {
                    let order = old(self).compaction_order();
                    &&& 0 <= a < order.len()
                    &&& 0 <= b < old(self)@[order[a]].len()
                    &&& trace_with_generations(old(trace_ctx)@, updates_before(old(self)@, order, a, b)).1 is None
                    &&& trace_with_generations(old(trace_ctx)@, updates_before(old(self)@, order, a, b + 1)).1 is Some
                    &&& compacted_before(old(self)@, final(self)@, order, a, b + 1)
                },
    {
        proof {
            self.lemma_compaction_order();
            lemma_entries_view(self.stream_maps@);
        }
        let ghost e0 = self.stream_maps@;
        let ghost m0 = self@;
        let ghost names = self.compaction_order();
        let ghost t0 = trace_ctx@;
        let mut i: usize = 0;
        assert(names.take(0) =~= Seq::<Seq<char>>::empty());
        while i < self.stream_maps.len()
            invariant
                names_distinct(e0),
                forall|a: int| 0 <= a < e0.len() ==> #[trigger] e0[a].1@.len() > 0,
                m0 == entries_view(e0),
                m0 == old(self)@,
                names == old(self).compaction_order(),
                names.no_duplicates(),
                names.to_set() == m0.dom(),
                names == e0.map_values(|e: (String, Vec<StreamMapDescriptor>)| e.0@),
                forall|a: int| 0 <= a < e0.len() ==> #[trigger] m0[e0[a].0@] == descriptors_view(e0[a].1@),
                forall|name: Seq<char>, j: int|
                    #[trigger] m0.contains_key(name) && 0 <= j < m0[name].len() ==> (#[trigger] m0[name][j]).stream_map.compactable(),
                forall|a: int| 0 <= a < e0.len() ==> #[trigger] m0.contains_key(e0[a].0@),
                t0 == old(trace_ctx)@,
                i <= self.stream_maps@.len(),
                compacted_up_to(e0, self.stream_maps@, i as int, 0),
                trace_with_generations(t0, names_updates(m0, names.take(i as int))) == (
                    trace_ctx@,
                    None::<crate::errors::GenerationCompactificationError>,
                ),
            decreases self.stream_maps.len() - i,
        {
            let ghost ds = m0[names[i as int]];
            assert(names[i as int] == e0[i as int].0@);
            assert(m0.contains_key(e0[i as int].0@));
            assert(ds == descriptors_view(e0[i as int].1@));
            assert(ds.take(0) =~= Seq::<DescriptorView>::empty());
            assert(self.stream_maps@[i as int].0 == e0[i as int].0);
            assert forall|jj: int| 0 <= jj < ds.len() implies (#[trigger] ds[jj]).stream_map.compactable() by {
                assert(m0[names[i as int]][jj] == ds[jj]);
            }
            let mut j: usize = 0;
            while j < self.stream_maps[i].1.len()
                invariant
                    names_distinct(e0),
                    m0 == entries_view(e0),
                    m0 == old(self)@,
                    names == old(self).compaction_order(),
                    names.no_duplicates(),
                    names.to_set() == m0.dom(),
                    names == e0.map_values(|e: (String, Vec<StreamMapDescriptor>)| e.0@),
                    ds == m0[names[i as int]],
                    ds == descriptors_view(e0[i as int].1@),
                    forall|a: int| 0 <= a < e0.len() ==> #[trigger] e0[a].1@.len() > 0,
                    forall|a: int| 0 <= a < e0.len() ==> #[trigger] m0[e0[a].0@] == descriptors_view(e0[a].1@),
                    self.stream_maps@[i as int].1@.len() == ds.len(),
                    forall|jj: int| 0 <= jj < ds.len() ==> (#[trigger] ds[jj]).stream_map.compactable(),
                    t0 == old(trace_ctx)@,
                    i < self.stream_maps@.len(),
                    j <= self.stream_maps@[i as int].1@.len(),
                    compacted_up_to(e0, self.stream_maps@, i as int, j as int),
                    trace_with_generations(
                        t0,
                        names_updates(m0, names.take(i as int)) + descriptors_updates(ds.take(j as int)),
                    ) == (trace_ctx@, None::<crate::errors::GenerationCompactificationError>),
                decreases self.stream_maps@[i as int].1@.len() - j,
            {
                let ghost before = self.stream_maps@;
                let ghost tb = trace_ctx@;
                let ghost sm = ds[j as int].stream_map;
                assert(before[i as int].0 == e0[i as int].0);
                assert(before[i as int].1@[j as int]@ == (DescriptorView {
                    span: e0[i as int].1@[j as int]@.span,
                    stream_map: e0[i as int].1@[j as int]@.stream_map,
                }));
                assert(before[i as int].1@[j as int]@.stream_map == sm);
                let r = self.stream_maps[i].1[j].stream_map.compactify(trace_ctx);
                let ghost prefix = names_updates(m0, names.take(i as int)) + descriptors_updates(ds.take(j as int));
                proof {
                    assert(ds.take(j + 1).drop_last() =~= ds.take(j as int));
                    assert(prefix + sm.compaction_updates() =~= names_updates(m0, names.take(i as int))
                        + descriptors_updates(ds.take(j + 1)));
                    lemma_trace_with_generations_append(t0, prefix, sm.compaction_updates());
                    assert forall|a: int, b: int|
                        0 <= a < e0.len() && 0 <= b < e0[a].1@.len() implies #[trigger] self.stream_maps@[a].1@[b]@
                        == (DescriptorView {
                        span: e0[a].1@[b]@.span,
                        stream_map: if a < i || (a == i && b < j + 1) {
                            e0[a].1@[b]@.stream_map.compacted()
                        } else {
                            e0[a].1@[b]@.stream_map
                        },
                    }) by {
                        if a != i || b != j {
                            assert(self.stream_maps@[a].1@[b] == before[a].1@[b]);
                        }
                    }
                    assert forall|a: int| 0 <= a < self.stream_maps@.len() implies #[trigger] self.stream_maps@[a].0
                        == e0[a].0 && self.stream_maps@[a].1@.len() == e0[a].1@.len() by {
                        assert(before[a].0 == e0[a].0);
                    }
                    assert(compacted_up_to(e0, self.stream_maps@, i as int, j + 1));
                }
                if let Err(e) = r {
                    proof {
                        lemma_updates_prefix(m0, names, i as int, j as int);
                        let full = names_updates(m0, names);
                        let rest = descriptors_updates(ds.skip(j + 1)) + names_updates(m0, names.skip(i + 1));
                        lemma_trace_with_generations_append(
                            t0,
                            names_updates(m0, names.take(i as int)) + descriptors_updates(ds.take(j + 1)),
                            rest,
                        );
                        self.lemma_progress_view(e0, i as int, j + 1);
                        self.lemma_progress_exact(e0, i as int, j + 1);
                        assert forall|c: int, jj: int|
                            0 <= c < names.len() && 0 <= jj < m0[names[c]].len() implies #[trigger] self@[names[c]][jj]
                            == (DescriptorView {
                            span: m0[names[c]][jj].span,
                            stream_map: if c < i || (c == i && jj < j + 1) {
                                m0[names[c]][jj].stream_map.compacted()
                            } else {
                                m0[names[c]][jj].stream_map
                            },
                        }) by {
                            assert(names[c] == e0[c].0@);
                            assert(m0[e0[c].0@] == descriptors_view(e0[c].1@));
                            assert(self@[e0[c].0@][jj] == (DescriptorView {
                                span: e0[c].1@[jj]@.span,
                                stream_map: if c < i || (c == i && jj < j + 1) {
                                    e0[c].1@[jj]@.stream_map.compacted()
                                } else {
                                    e0[c].1@[jj]@.stream_map
                                },
                            }));
                        }
                        assert(compacted_before(m0, self@, names, i as int, j + 1));
                        assert(updates_before(m0, names, i as int, j as int) == prefix);
                        assert(updates_before(m0, names, i as int, j + 1) == names_updates(m0, names.take(i as int))
                            + descriptors_updates(ds.take(j + 1)));
                        assert(trace_with_generations(t0, updates_before(m0, names, i as int, j as int)).1 is None);
                        assert(trace_with_generations(t0, updates_before(m0, names, i as int, j + 1)).1 is Some);
                    }
                    return Err(e);
                }
                j = j + 1;
            }
            proof {
                assert(ds.take(j as int) =~= ds);
                assert(names.take(i + 1).drop_last() =~= names.take(i as int));
                assert(names.take(i + 1).last() == names[i as int]);
                assert forall|a: int, b: int|
                    0 <= a < e0.len() && 0 <= b < e0[a].1@.len() implies #[trigger] self.stream_maps@[a].1@[b]@
                    == (DescriptorView {
                    span: e0[a].1@[b]@.span,
                    stream_map: if a < i + 1 || (a == i + 1 && b < 0) {
                        e0[a].1@[b]@.stream_map.compacted()
                    } else {
                        e0[a].1@[b]@.stream_map
                    },
                }) by {
                    if a == i {
                        assert(b < j);
                    }
                }
            }
            i = i + 1;
        }
        proof {
            assert(names.take(i as int) =~= names);
            self.lemma_progress_view(e0, i as int, 0);
            let target = m0.map_values(|ds: Seq<DescriptorView>| compacted_descriptors(ds));
            lemma_entries_view(self.stream_maps@);
            assert forall|k: Seq<char>| #[trigger] self@.contains_key(k) implies self@[k] == target[k] by {
                let a = choose|a: int| 0 <= a < e0.len() && #[trigger] e0[a].0@ == k;
                assert(self.stream_maps@[a].0@ == k);
                assert(self@[k] =~= compacted_descriptors(m0[k]));
            }
            assert(self@ =~= target);
        }
        Ok(())
    }

    /// Each stream map while compaction has gone up to stream map `j` of entry `i`: those
    /// before it compacted, the others as they were.
    proof fn lemma_progress_exact(&self, e0: Seq<(String, Vec<StreamMapDescriptor>)>, i: int, j: int)
        requires
            names_distinct(e0),
            compacted_up_to(e0, self.stream_maps@, i, j),
        ensures
            forall|c: int, b: int|
                0 <= c < e0.len() && 0 <= b < e0[c].1@.len() ==> #[trigger] self@[e0[c].0@][b] == (DescriptorView {
                    span: e0[c].1@[b]@.span,
                    stream_map: if c < i || (c == i && b < j) {
                        e0[c].1@[b]@.stream_map.compacted()
                    } else {
                        e0[c].1@[b]@.stream_map
                    },
                }),
    {
        let e = self.stream_maps@;
        assert(names_distinct(e)) by {
            assert forall|a: int, b: int| 0 <= a < e.len() && 0 <= b < e.len() && a != b implies #[trigger] e[a].0@
                != #[trigger] e[b].0@ by {
                assert(e[a].0 == e0[a].0 && e[b].0 == e0[b].0);
            }
        }
        lemma_entries_view(e);
        assert forall|c: int, b: int| 0 <= c < e0.len() && 0 <= b < e0[c].1@.len() implies #[trigger] self@[e0[c].0@][b]
            == (DescriptorView {
            span: e0[c].1@[b]@.span,
            stream_map: if c < i || (c == i && b < j) {
                e0[c].1@[b]@.stream_map.compacted()
            } else {
                e0[c].1@[b]@.stream_map
            },
        }) by {
            assert(e[c].0 == e0[c].0);
            assert(self@[e[c].0@] == descriptors_view(e[c].1@));
            assert(e[c].1@[b]@ == self@[e0[c].0@][b]);
        }
    }

    /// The stream maps while compaction has gone up to stream map `j` of entry `i`.
    proof fn lemma_progress_view(&self, e0: Seq<(String, Vec<StreamMapDescriptor>)>, i: int, j: int)
        requires
            names_distinct(e0),
            forall|a: int| 0 <= a < e0.len() ==> #[trigger] e0[a].1@.len() > 0,
            compacted_up_to(e0, self.stream_maps@, i, j),
        ensures
            self.inv(),
            self@.dom() == entries_view(e0).dom(),
            forall|name: Seq<char>|
                #[trigger] entries_view(e0).contains_key(name) ==> self@[name].len() == entries_view(e0)[name].len()
                    && forall|b: int|
                    0 <= b < entries_view(e0)[name].len() ==> {
                        let d = #[trigger] self@[name][b];
                        &&& d.span == entries_view(e0)[name][b].span
                        &&& (d.stream_map == entries_view(e0)[name][b].stream_map || d.stream_map
                            == entries_view(e0)[name][b].stream_map.compacted())
                    },
            forall|name: Seq<char>|
                #[trigger] entries_view(e0).contains_key(name) ==> self@[name].len() == entries_view(e0)[name].len(),
    {
        let e = self.stream_maps@;
        assert(names_distinct(e)) by {
            assert forall|a: int, b: int| 0 <= a < e.len() && 0 <= b < e.len() && a != b implies #[trigger] e[a].0@
                != #[trigger] e[b].0@ by {
                assert(e[a].0 == e0[a].0 && e[b].0 == e0[b].0);
            }
        }
        assert forall|a: int| 0 <= a < e.len() implies #[trigger] e[a].1@.len() > 0 by {
            assert(e[a].0 == e0[a].0);
            assert(e[a].1@.len() == e0[a].1@.len());
        }
        lemma_entries_view(e);
        lemma_entries_view(e0);
        assert forall|k: Seq<char>| self@.dom().contains(k) <==> entries_view(e0).dom().contains(k) by {
            if self@.contains_key(k) {
                let a = choose|a: int| 0 <= a < e.len() && #[trigger] e[a].0@ == k;
                assert(e0[a].0@ == k);
            }
            if entries_view(e0).contains_key(k) {
                let a = choose|a: int| 0 <= a < e0.len() && #[trigger] e0[a].0@ == k;
                assert(e[a].0@ == k);
            }
        }
        assert(self@.dom() =~= entries_view(e0).dom());
        assert forall|name: Seq<char>| #[trigger] entries_view(e0).contains_key(name) implies self@[name].len()
            == entries_view(e0)[name].len() && forall|b: int|
            0 <= b < entries_view(e0)[name].len() ==> {
                let d = #[trigger] self@[name][b];
                &&& d.span == entries_view(e0)[name][b].span
                &&& (d.stream_map == entries_view(e0)[name][b].stream_map || d.stream_map
                    == entries_view(e0)[name][b].stream_map.compacted())
            } by {
            let a = choose|a: int| 0 <= a < e0.len() && #[trigger] e0[a].0@ == name;
            assert(e[a].0 == e0[a].0);
            assert(e[a].0@ == name);
            assert(self@[name] == descriptors_view(e[a].1@));
            assert(entries_view(e0)[name] == descriptors_view(e0[a].1@));
            assert forall|b: int| 0 <= b < entries_view(e0)[name].len() implies {
                let d = #[trigger] self@[name][b];
                &&& d.span == entries_view(e0)[name][b].span
                &&& (d.stream_map == entries_view(e0)[name][b].stream_map || d.stream_map
                    == entries_view(e0)[name][b].stream_map.compacted())
            } by {
                assert(e[a].1@[b]@ == self@[name][b]);
            }
        }
    }
}


} // verus!
