use vstd::prelude::*;

use crate::errors::{ExecutionError, ExecutionResult, UncatchableError};
use crate::generation::Generation;
use crate::stream::{Stream, StreamView};
use crate::json::object_field;
use crate::stream_map_key::{
    from_key_value, key_in_read_form, kvpair_json, kvpair_key, lemma_kvpair_key, lemma_kvpair_value, value_field_name, KeyView,
    StreamMapKey,
};
use crate::trace_handler::{trace_with_generations, TraceHandler};
use crate::value_aggregate::{aggregates_view, AggregateView, ValueAggregate};

verus! {

/// The aggregate that a stream map holds for `value` put under `key`: the key-value pair
/// object, with the tetraplet, trace position and provenance of the value.
pub open spec fn kvpair_aggregate(key: KeyView, value: AggregateView) -> AggregateView {
    AggregateView { result: kvpair_json(key, value.result), ..value }
}

/// The object a stream map holds for a value reads back the key it was put under (where the
/// key is in the form reading gives) and the value, and keeps where the value came from:
/// its tetraplet, trace position and provenance.
pub proof fn lemma_kvpair_aggregate_reads_back(key: KeyView, value: AggregateView)
    requires
        key_in_read_form(key),
    ensures
        kvpair_key(kvpair_aggregate(key, value).result) == Some(key),
        object_field(kvpair_aggregate(key, value).result, value_field_name()) == Some(value.result),
        kvpair_aggregate(key, value).tetraplet == value.tetraplet,
        kvpair_aggregate(key, value).trace_pos == value.trace_pos,
        kvpair_aggregate(key, value).provenance == value.provenance,
{
    lemma_kvpair_key(key, value.result);
    lemma_kvpair_value(key, value.result);
}

/// A stream of key-value pair objects.
#[derive(Debug)]
pub struct StreamMap {
    stream: Stream,
}

impl View for StreamMap {
    type V = StreamView;

    closed spec fn view(&self) -> StreamView {
        self.stream@
    }
}

impl StreamMap {
    pub fn new() -> (map: Self)
        ensures
            map@ == StreamView::empty(),
    {
        Self { stream: Stream::new() }
    }

    /// All key-value pair objects of the map: those of the previous, the current and the
    /// new generations, each generation in order.
    pub fn iter(&self) -> (values: Vec<&ValueAggregate>)
        ensures
            aggregates_view(values@.unref()) == self@.values(),
    {
        self.stream.iter()
    }

    /// Puts `value` under `key` into `generation` of the map.
    pub fn insert(&mut self, key: StreamMapKey, value: &ValueAggregate, generation: Generation) -> (result:
        ExecutionResult<()>)
        requires
            old(self)@.can_add(generation),
        ensures
            result is Ok,
            final(self)@ == old(self)@.with_value(kvpair_aggregate(key@, value@), generation),
    {
        let obj = from_key_value(key, value.get_result());
        let value = ValueAggregate::new(
            obj,
            value.get_tetraplet(),
            value.get_trace_pos(),
            value.get_provenance(),
        );
        self.stream.add_value(value, generation);
        Ok(())
    }

    /// Drops the empty generations of the map and writes into the trace the final
    /// generation of each of its values.
    pub fn compactify(&mut self, trace_ctx: &mut TraceHandler) -> (result: ExecutionResult<()>)
        requires
            old(self)@.compactable(),
        ensures
            final(self)@ == old(self)@.compacted(),
            ({
                let (trace, error) = trace_with_generations(
                    old(trace_ctx)@,
                    old(self)@.compaction_updates(),
                );
                &&& final(trace_ctx)@ == trace
                &&& match error {
                    None => result is Ok,
                    Some(e) => result == Err::<(), ExecutionError>(
                        ExecutionError::Uncatchable(UncatchableError::GenerationCompactificationError(e)),
                    ),
                }
            }),
    {
        self.stream.compactify(trace_ctx)
    }
}

} // verus!
