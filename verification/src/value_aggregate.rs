use vstd::prelude::*;

use crate::json::{JValue, JsonView};
use crate::security_tetraplet::{Provenance, ProvenanceView, SecurityTetraplet, TetrapletView, TracePos};

verus! {

/// A value together with what the interpreter knows of it: where it came from, where in
/// the trace it was produced, and its provenance in the data.
#[derive(Clone, Debug, PartialEq)]
pub struct ValueAggregate {
    result: JValue,
    tetraplet: SecurityTetraplet,
    trace_pos: TracePos,
    provenance: Provenance,
}

/// A value aggregate as mathematics sees it.
pub struct AggregateView {
    pub result: JsonView,
    pub tetraplet: TetrapletView,
    pub trace_pos: TracePos,
    pub provenance: ProvenanceView,
}

impl View for ValueAggregate {
    type V = AggregateView;

    closed spec fn view(&self) -> AggregateView {
        AggregateView {
            result: self.result@,
            tetraplet: self.tetraplet@,
            trace_pos: self.trace_pos,
            provenance: self.provenance@,
        }
    }
}

/// The views of a sequence of value aggregates.
pub open spec fn aggregates_view(values: Seq<ValueAggregate>) -> Seq<AggregateView> {
    values.map_values(|v: ValueAggregate| v@)
}

impl ValueAggregate {
    pub fn new(
        result: JValue,
        tetraplet: SecurityTetraplet,
        trace_pos: TracePos,
        provenance: Provenance,
    ) -> (aggregate: Self)
        ensures
            aggregate@ == (AggregateView {
                result: result@,
                tetraplet: tetraplet@,
                trace_pos,
                provenance: provenance@,
            }),
    {
        Self { result, tetraplet, trace_pos, provenance }
    }

    pub fn get_result(&self) -> (result: &JValue)
        ensures
            result@ == self@.result,
    {
        &self.result
    }

    pub fn get_tetraplet(&self) -> (tetraplet: SecurityTetraplet)
        ensures
            tetraplet@ == self@.tetraplet,
    {
        self.tetraplet.duplicate()
    }

    pub fn get_trace_pos(&self) -> (trace_pos: TracePos)
        ensures
            trace_pos == self@.trace_pos,
    {
        self.trace_pos
    }

    pub fn get_provenance(&self) -> (provenance: Provenance)
        ensures
            provenance@ == self@.provenance,
    {
        self.provenance.duplicate()
    }

    /// A copy of the aggregate.
    pub fn duplicate(&self) -> (copy: Self)
        ensures
            copy@ == self@,
    {
        Self {
            result: self.result.deep_copy(),
            tetraplet: self.tetraplet.duplicate(),
            trace_pos: self.trace_pos,
            provenance: self.provenance.duplicate(),
        }
    }
}

/// Copies of each of `values`, in order.
pub fn duplicate_all(values: &Vec<ValueAggregate>) -> (copies: Vec<ValueAggregate>)
    ensures
        aggregates_view(copies@) == aggregates_view(values@),
{
    let mut copies: Vec<ValueAggregate> = Vec::new();
    let mut i: usize = 0;
    while i < values.len()
        invariant
            i <= values.len(),
            aggregates_view(copies@) == aggregates_view(values@.take(i as int)),
        decreases values.len() - i,
    {
        let ghost before = copies@;
        let c = values[i].duplicate();
        copies.push(c);
        assert(aggregates_view(copies@) =~= aggregates_view(before).push(c@));
        assert(aggregates_view(values@.take(i + 1)) =~= aggregates_view(values@.take(i as int)).push(
            values@[i as int]@,
        ));
        i = i + 1;
    }
    assert(values@.take(i as int) =~= values@);
    copies
}

/// A stream fixed at some point of the execution: its values, in order, and the tetraplet
/// that the canon instruction gave it.
#[derive(Clone, Debug, PartialEq)]
pub struct CanonStream {
    values: Vec<ValueAggregate>,
    tetraplet: SecurityTetraplet,
}

/// A canon stream as mathematics sees it.
pub struct CanonStreamView {
    pub values: Seq<AggregateView>,
    pub tetraplet: TetrapletView,
}

impl View for CanonStream {
    type V = CanonStreamView;

    closed spec fn view(&self) -> CanonStreamView {
        CanonStreamView { values: aggregates_view(self.values@), tetraplet: self.tetraplet@ }
    }
}

impl CanonStream {
    pub fn new(values: Vec<ValueAggregate>, tetraplet: SecurityTetraplet) -> (canon: Self)
        ensures
            canon@ == (CanonStreamView { values: aggregates_view(values@), tetraplet: tetraplet@ }),
    {
        Self { values, tetraplet }
    }

    /// A canon stream of `values` made on the peer `peer_pk`.
    pub fn from_values(values: Vec<ValueAggregate>, peer_pk: String) -> (canon: Self)
        ensures
            canon@ == (CanonStreamView {
                values: aggregates_view(values@),
                tetraplet: TetrapletView {
                    peer_pk: peer_pk@,
                    service_id: Seq::empty(),
                    function_name: Seq::empty(),
                    lens: Seq::empty(),
                },
            }),
    {
        let tetraplet = SecurityTetraplet::new(peer_pk, String::new(), String::new(), String::new());
        Self { values, tetraplet }
    }

    /// The values of the stream, in order.
    pub fn iter(&self) -> (values: &Vec<ValueAggregate>)
        ensures
            aggregates_view(values@) == self@.values,
    {
        &self.values
    }

    pub fn tetraplet(&self) -> (tetraplet: &SecurityTetraplet)
        ensures
            tetraplet@ == self@.tetraplet,
    {
        &self.tetraplet
    }

    pub fn len(&self) -> (len: usize)
        ensures
            len == self@.values.len(),
    {
        self.values.len()
    }

    pub fn is_empty(&self) -> (is_empty: bool)
        ensures
            is_empty == (self@.values.len() == 0),
    {
        self.values.len() == 0
    }

    /// Appends `value` to the stream.
    pub fn push(&mut self, value: ValueAggregate)
        ensures
            final(self)@ == (CanonStreamView {
                values: old(self)@.values.push(value@),
                tetraplet: old(self)@.tetraplet,
            }),
    {
        let ghost before = self.values@;
        self.values.push(value);
        assert(aggregates_view(self.values@) =~= aggregates_view(before).push(value@));
    }

    pub fn into_values(self) -> (values: Vec<ValueAggregate>)
        ensures
            aggregates_view(values@) == self@.values,
    {
        self.values
    }

    /// The stream as a JSON array of its values.
    pub fn as_jvalue(&self) -> (value: JValue)
        ensures
            value@ == JsonView::Array(self@.values.map_values(|v: AggregateView| v.result)),
    {
        let mut items: Vec<JValue> = Vec::new();
        let mut i: usize = 0;
        while i < self.values.len()
            invariant
                i <= self.values.len(),
                items@.len() == i,
                forall|j: int| 0 <= j < i ==> #[trigger] items@[j]@ == self.values@[j]@.result,
            decreases self.values.len() - i,
        {
            items.push(self.values[i].get_result().deep_copy());
            i = i + 1;
        }
        let value = JValue::Array(items);
        assert(value@ == JsonView::Array(self@.values.map_values(|v: AggregateView| v.result))) by {
            if let JsonView::Array(a) = value@ {
                assert forall|j: int| 0 <= j < a.len() implies a[j] == self@.values[j].result by {
                    assert(items@[j]@ == self.values@[j]@.result);
                }
                assert(a =~= self@.values.map_values(|v: AggregateView| v.result));
            }
        }
        value
    }

    /// A copy of the stream.
    pub fn duplicate(&self) -> (copy: Self)
        ensures
            copy@ == self@,
    {
        Self { values: duplicate_all(&self.values), tetraplet: self.tetraplet.duplicate() }
    }
}

} // verus!
