use air::errors::{ExecutionError, GenerationCompactificationError, UncatchableError};
use air::generation::{Generation, GenerationIdx};
use air::json::{JNumber, JValue};
use air::security_tetraplet::{Provenance, SecurityTetraplet, TracePos};
use air::stream_map::StreamMap;
use air::stream_map_key::{from_key_value, StreamMapKey};
use air::stream_maps_variables::{
    find_closest, AirPos, Span, StreamMapDescriptor, StreamMapValueDescriptor, StreamMaps,
};
use air::trace_handler::{ExecutedState, TraceHandler};
use air::value_aggregate::ValueAggregate;

fn number(n: u64) -> JValue {
    JValue::Number(JNumber::PosInt(n))
}

fn aggregate(value: JValue, trace_pos: u32) -> ValueAggregate {
    ValueAggregate::new(value, SecurityTetraplet::default(), TracePos(trace_pos), Provenance::literal())
}

fn key(text: &str) -> StreamMapKey {
    StreamMapKey::Str(text.to_string())
}

fn kvpair(text: &str, n: u64) -> JValue {
    from_key_value(key(text), &number(n))
}

fn results(maps: &StreamMaps, name: &str, position: usize) -> Option<Vec<JValue>> {
    maps.get(name, AirPos(position))
        .map(|map| map.iter().into_iter().map(|v| v.get_result().clone()).collect())
}

fn add(maps: &mut StreamMaps, name: &str, k: &str, n: u64, position: usize, generation: Generation) {
    let descriptor = StreamMapValueDescriptor::new(aggregate(number(n), n as u32), name, generation, AirPos(position));
    assert!(maps.add_stream_map_value(key(k), descriptor).is_ok());
}

#[test]
fn value_outside_any_scope_makes_a_global_map() {
    let mut maps = StreamMaps::new();
    assert_eq!(results(&maps, "%m", 5), None);
    add(&mut maps, "%m", "a", 1, 5, Generation::New);
    assert_eq!(results(&maps, "%m", 5), Some(vec![kvpair("a", 1)]));
    assert_eq!(results(&maps, "%m", 1000), Some(vec![kvpair("a", 1)]));
    assert_eq!(results(&maps, "%other", 5), None);
}

#[test]
fn scope_is_visible_inside_its_span_only() {
    let mut maps = StreamMaps::new();
    maps.meet_scope_start("%m".to_string(), Span::new(AirPos(10), AirPos(20)));
    assert_eq!(results(&maps, "%m", 15), Some(vec![]));
    assert_eq!(results(&maps, "%m", 10), None);
    assert_eq!(results(&maps, "%m", 20), None);
    assert_eq!(results(&maps, "%m", 25), None);

    add(&mut maps, "%m", "a", 1, 15, Generation::New);
    assert_eq!(results(&maps, "%m", 15), Some(vec![kvpair("a", 1)]));
}

#[test]
fn inner_scope_shadows_outer_scope() {
    let mut maps = StreamMaps::new();
    let mut trace = TraceHandler::new(vec![]);
    maps.meet_scope_start("%m".to_string(), Span::new(AirPos(10), AirPos(100)));
    add(&mut maps, "%m", "outer", 1, 15, Generation::Current(GenerationIdx(0)));
    maps.meet_scope_start("%m".to_string(), Span::new(AirPos(20), AirPos(30)));
    add(&mut maps, "%m", "inner", 2, 25, Generation::Current(GenerationIdx(0)));

    assert_eq!(results(&maps, "%m", 25), Some(vec![kvpair("inner", 2)]));
    assert_eq!(results(&maps, "%m", 50), Some(vec![kvpair("outer", 1)]));

    assert!(maps.meet_scope_end("%m".to_string(), &mut trace).is_err());
    assert_eq!(results(&maps, "%m", 25), Some(vec![kvpair("outer", 1)]));
}

#[test]
fn leaving_every_scope_drops_the_name() {
    let mut maps = StreamMaps::new();
    let mut trace = TraceHandler::new(vec![]);
    maps.meet_scope_start("%m".to_string(), Span::new(AirPos(10), AirPos(20)));
    assert_eq!(maps.meet_scope_end("%m".to_string(), &mut trace), Ok(()));
    assert!(maps.get("%m", AirPos(15)).is_none());
    maps.meet_scope_start("%m".to_string(), Span::new(AirPos(10), AirPos(20)));
    assert_eq!(results(&maps, "%m", 15), Some(vec![]));
}

#[test]
fn value_outside_the_scopes_replaces_them_with_a_global_map() {
    let mut maps = StreamMaps::new();
    maps.meet_scope_start("%m".to_string(), Span::new(AirPos(10), AirPos(20)));
    add(&mut maps, "%m", "a", 1, 15, Generation::New);
    add(&mut maps, "%m", "b", 2, 50, Generation::New);
    assert_eq!(results(&maps, "%m", 15), Some(vec![kvpair("b", 2)]));
}

#[test]
fn values_are_read_by_generations() {
    let mut maps = StreamMaps::new();
    add(&mut maps, "%m", "n", 1, 5, Generation::New);
    add(&mut maps, "%m", "c", 2, 5, Generation::Current(GenerationIdx(1)));
    add(&mut maps, "%m", "p", 3, 5, Generation::Previous(GenerationIdx(0)));
    assert_eq!(results(&maps, "%m", 5), Some(vec![kvpair("p", 3), kvpair("c", 2), kvpair("n", 1)]));
}

#[test]
fn scope_end_writes_compacted_generations_into_the_trace() {
    let mut maps = StreamMaps::new();
    let state = ExecutedState::StreamValue { generation: GenerationIdx(9) };
    let mut trace = TraceHandler::new(vec![state, state, state, ExecutedState::Other]);
    maps.meet_scope_start("%m".to_string(), Span::new(AirPos(10), AirPos(100)));
    add(&mut maps, "%m", "a", 0, 15, Generation::Previous(GenerationIdx(3)));
    add(&mut maps, "%m", "b", 1, 15, Generation::Current(GenerationIdx(2)));
    add(&mut maps, "%m", "c", 2, 15, Generation::New);

    assert_eq!(maps.meet_scope_end("%m".to_string(), &mut trace), Ok(()));
    assert_eq!(
        trace.result_trace(),
        &vec![
            ExecutedState::StreamValue { generation: GenerationIdx(0) },
            ExecutedState::StreamValue { generation: GenerationIdx(1) },
            ExecutedState::StreamValue { generation: GenerationIdx(2) },
            ExecutedState::Other,
        ]
    );
}

#[test]
fn compaction_refuses_states_that_hold_no_stream_value() {
    let mut maps = StreamMaps::new();
    let mut trace = TraceHandler::new(vec![ExecutedState::Other, ExecutedState::Other, ExecutedState::Other, ExecutedState::Other]);
    add(&mut maps, "%m", "a", 3, 5, Generation::New);
    assert_eq!(
        maps.compactify(&mut trace),
        Err(ExecutionError::Uncatchable(UncatchableError::GenerationCompactificationError(
            GenerationCompactificationError::PointsToInvalidState(TracePos(3))
        )))
    );
}

#[test]
fn compaction_refuses_positions_beyond_the_trace() {
    let mut maps = StreamMaps::new();
    let mut trace = TraceHandler::new(vec![]);
    add(&mut maps, "%m", "a", 7, 5, Generation::New);
    assert_eq!(
        maps.compactify(&mut trace),
        Err(ExecutionError::Uncatchable(UncatchableError::GenerationCompactificationError(
            GenerationCompactificationError::PointsToNothing(TracePos(7))
        )))
    );
}

#[test]
fn compactify_numbers_generations_of_every_map() {
    let mut maps = StreamMaps::new();
    let state = ExecutedState::StreamValue { generation: GenerationIdx(9) };
    let mut trace = TraceHandler::new(vec![state, state, state]);
    add(&mut maps, "%m", "a", 0, 5, Generation::Current(GenerationIdx(4)));
    add(&mut maps, "%m", "b", 1, 5, Generation::Current(GenerationIdx(7)));
    add(&mut maps, "%n", "c", 2, 5, Generation::Previous(GenerationIdx(3)));
    assert_eq!(maps.compactify(&mut trace), Ok(()));
    assert_eq!(
        trace.result_trace(),
        &vec![
            ExecutedState::StreamValue { generation: GenerationIdx(0) },
            ExecutedState::StreamValue { generation: GenerationIdx(1) },
            ExecutedState::StreamValue { generation: GenerationIdx(0) },
        ]
    );
    assert_eq!(results(&maps, "%m", 5), Some(vec![kvpair("a", 0), kvpair("b", 1)]));
}

#[test]
fn find_closest_takes_the_last_matching_descriptor() {
    let descriptors = vec![
        StreamMapDescriptor::global(StreamMap::new()),
        StreamMapDescriptor::restricted(StreamMap::new(), Span::new(AirPos(10), AirPos(20))),
    ];
    let mut with_value = StreamMap::new();
    assert!(with_value.insert(key("k"), &aggregate(number(1), 0), Generation::New).is_ok());
    let mut descriptors = descriptors;
    descriptors.push(StreamMapDescriptor::restricted(with_value, Span::new(AirPos(12), AirPos(14))));
    assert_eq!(find_closest(&descriptors, AirPos(13)).map(|m| m.iter().len()), Some(1));
    assert_eq!(find_closest(&descriptors, AirPos(15)).map(|m| m.iter().len()), Some(0));
    assert!(find_closest(&descriptors, AirPos(0)).is_none());
}

#[test]
fn last_descriptors_show_the_innermost_scope_of_each_name() {
    let mut maps = StreamMaps::new();
    add(&mut maps, "%a", "k", 1, 5, Generation::New);
    maps.meet_scope_start("%b".to_string(), Span::new(AirPos(10), AirPos(40)));
    maps.meet_scope_start("%b".to_string(), Span::new(AirPos(20), AirPos(30)));
    let last = maps.last_descriptors();
    let shown: Vec<(String, Span)> = last.iter().map(|(name, d)| ((*name).clone(), d.span)).collect();
    assert_eq!(
        shown,
        vec![
            ("%a".to_string(), Span::new(AirPos(0), AirPos(usize::MAX))),
            ("%b".to_string(), Span::new(AirPos(20), AirPos(30))),
        ]
    );
}
