use vstd::prelude::*;

use crate::errors::{ExecutionError, ExecutionResult, GenerationCompactificationError, UncatchableError};
use crate::generation::{Generation, GenerationIdx};
use crate::security_tetraplet::TracePos;
use crate::trace_handler::{trace_with_generations, ExecutedState, TraceHandler};
use crate::value_aggregate::{aggregates_view, AggregateView, ValueAggregate};
use crate::values_matrix::{
    lemma_add_value_counts_one_more, lemma_add_value_to_generation_shape,
    lemma_non_empty_generations_keep_values,
    lemma_add_to_last_generation_appends, lemma_non_empty_generations_idempotent, non_empty_generations, skip_generations,
    with_value_in_generation, is_non_empty, last_generation_index, NewValuesMatrix, ValuesMatrix,
};

verus! {

/// The views of the values of a matrix of value aggregates.
pub open spec fn matrix_view(m: Seq<Seq<ValueAggregate>>) -> Seq<Seq<AggregateView>> {
    m.map_values(|generation: Seq<ValueAggregate>| aggregates_view(generation))
}

/// The trace updates that give each value of `gens` its generation, counted from `start`:
/// generation after generation, in order.
pub open spec fn generation_updates(gens: Seq<Seq<AggregateView>>, start: int) -> Seq<
    (TracePos, GenerationIdx),
>
    decreases gens.len(),
{
    if gens.len() == 0 {
        Seq::empty()
    } else {
        generation_updates(gens.drop_last(), start) + gens.last().map_values(
            |v: AggregateView| (v.trace_pos, GenerationIdx((start + gens.len() - 1) as u32)),
        )
    }
}

/// A stream as mathematics sees it: the generations of values from the previous data,
/// those from the current data, and those that are new in this run.
pub struct StreamView {
    pub previous: Seq<Seq<AggregateView>>,
    pub current: Seq<Seq<AggregateView>>,
    pub new: Seq<Seq<AggregateView>>,
}

impl StreamView {
    pub open spec fn empty() -> StreamView {
        StreamView { previous: Seq::empty(), current: Seq::empty(), new: Seq::empty() }
    }

    /// Whether a value can be added to `generation` of the stream.
    pub open spec fn can_add(self, generation: Generation) -> bool {
        match generation {
            Generation::Previous(idx) => idx.0 < u32::MAX || idx.0 < self.previous.len(),
            Generation::Current(idx) => idx.0 < u32::MAX || idx.0 < self.current.len(),
            Generation::New => self.new.len() <= u32::MAX + 1,
        }
    }

    /// The stream with `value` added to `generation`.
    pub open spec fn with_value(self, value: AggregateView, generation: Generation) -> StreamView {
        match generation {
            Generation::Previous(idx) => StreamView {
                previous: with_value_in_generation(self.previous, idx.0 as int, value),
                ..self
            },
            Generation::Current(idx) => StreamView {
                current: with_value_in_generation(self.current, idx.0 as int, value),
                ..self
            },
            Generation::New => StreamView {
                new: with_value_in_generation(self.new, last_generation_index(self.new), value),
                ..self
            },
        }
    }

    /// The stream without its empty generations.
    pub open spec fn compacted(self) -> StreamView {
        StreamView {
            previous: non_empty_generations(self.previous),
            current: non_empty_generations(self.current),
            new: non_empty_generations(self.new),
        }
    }

    /// Whether the generations left after compaction can be numbered in 32 bits.
    pub open spec fn compactable(self) -> bool {
        let c = self.compacted();
        &&& c.previous.len() + c.current.len() <= u32::MAX
        &&& c.previous.len() + c.current.len() + c.new.len() <= u32::MAX + 1
    }

    /// The trace updates that compaction makes: the values of the previous, the current
    /// and the new generations get consecutive generation numbers, in this order.
    pub open spec fn compaction_updates(self) -> Seq<(TracePos, GenerationIdx)> {
        let c = self.compacted();
        generation_updates(c.previous, 0) + generation_updates(c.current, c.previous.len() as int)
            + generation_updates(c.new, (c.previous.len() + c.current.len()) as int)
    }
}

/// `matrix_view` and adding a value to a generation can be taken in either order.
pub proof fn lemma_matrix_view_with_value(m: Seq<Seq<ValueAggregate>>, idx: int, value: ValueAggregate)
    requires
        0 <= idx,
    ensures
        matrix_view(with_value_in_generation(m, idx, value)) == with_value_in_generation(
            matrix_view(m),
            idx,
            value@,
        ),
{
    let l = matrix_view(with_value_in_generation(m, idx, value));
    let r = with_value_in_generation(matrix_view(m), idx, value@);
    assert forall|j: int| 0 <= j < l.len() implies l[j] == r[j] by {
        if j == idx {
            let padded = if idx < m.len() {
                m
            } else {
                m + Seq::new((idx + 1 - m.len()) as nat, |_i: int| Seq::<ValueAggregate>::empty())
            };
            assert(aggregates_view(padded[idx].push(value)) =~= aggregates_view(padded[idx]).push(
                value@,
            ));
        } else if j >= m.len() {
            assert(aggregates_view(Seq::<ValueAggregate>::empty()) =~= Seq::<AggregateView>::empty());
        }
    }
    assert(l =~= r);
}

/// `matrix_view` and dropping the empty generations can be taken in either order.
pub proof fn lemma_matrix_view_non_empty(m: Seq<Seq<ValueAggregate>>)
    ensures
        matrix_view(non_empty_generations(m)) == non_empty_generations(matrix_view(m)),
    decreases m.len(),
{
    if m.len() > 0 {
        let init = m.drop_last();
        lemma_matrix_view_non_empty(init);
        assert(m =~= init.push(m.last()));
        assert(matrix_view(m) =~= matrix_view(init).push(aggregates_view(m.last())));
        init.lemma_filter_push(m.last(), is_non_empty());
        matrix_view(init).lemma_filter_push(aggregates_view(m.last()), is_non_empty());
        if m.last().len() > 0 {
            assert(matrix_view(non_empty_generations(init).push(m.last())) =~= matrix_view(
                non_empty_generations(init),
            ).push(aggregates_view(m.last())));
        }
    }
}

/// Writing `a` then `b` is writing `a + b`; where `a` is refused, `b` is not tried.
pub proof fn lemma_trace_with_generations_append(
    trace: Seq<ExecutedState>,
    a: Seq<(TracePos, GenerationIdx)>,
    b: Seq<(TracePos, GenerationIdx)>,
)
    ensures
        trace_with_generations(trace, a + b) == (if trace_with_generations(trace, a).1 is Some {
            trace_with_generations(trace, a)
        } else {
            trace_with_generations(trace_with_generations(trace, a).0, b)
        }),
    decreases b.len(),
{
    if b.len() == 0 {
        assert(a + b =~= a);
    } else {
        lemma_trace_with_generations_append(trace, a, b.drop_last());
        assert((a + b).drop_last() =~= a + b.drop_last());
    }
}

/// The trace updates of the first `j` values of generation `g`, all put in generation `idx`.
pub open spec fn slice_updates(g: Seq<AggregateView>, idx: int) -> Seq<(TracePos, GenerationIdx)> {
    g.map_values(|v: AggregateView| (v.trace_pos, GenerationIdx(idx as u32)))
}

/// The views of slices of value aggregates.
pub open spec fn slices_view(slices: Seq<&[ValueAggregate]>) -> Seq<Seq<AggregateView>> {
    Seq::new(slices.len(), |k: int| aggregates_view(slices[k]@))
}

/// Writes into the trace the generation of each value of `slices`: the values of slice
/// `k` are in generation `start_idx + k`.
fn update_generations(
    slices: &Vec<&[ValueAggregate]>,
    start_idx: GenerationIdx,
    trace_ctx: &mut TraceHandler,
) -> (result: ExecutionResult<()>)
    requires
        start_idx.0 + slices@.len() <= u32::MAX + 1,
    ensures
        ({
            let (trace, error) = trace_with_generations(
                old(trace_ctx)@,
                generation_updates(slices_view(slices@), start_idx.0 as int),
            );
            &&& final(trace_ctx)@ == trace
            &&& match error {
                None => result is Ok,
                Some(e) => result == Err::<(), ExecutionError>(
                    ExecutionError::Uncatchable(UncatchableError::GenerationCompactificationError(e)),
                ),
            }
        }),
{
    let ghost gens = slices_view(slices@);
    let ghost trace0 = trace_ctx@;
    let mut position: usize = 0;
    while position < slices.len()
        invariant
            gens == slices_view(slices@),
            trace0 == old(trace_ctx)@,
            start_idx.0 + slices@.len() <= u32::MAX + 1,
            position <= slices.len(),
            trace_with_generations(trace0, generation_updates(gens.take(position as int), start_idx.0 as int))
                == (trace_ctx@, None::<GenerationCompactificationError>),
        decreases slices.len() - position,
    {
        let values = slices[position];
        let absolute_idx = GenerationIdx((start_idx.0 as usize + position) as u32);
        let ghost done = generation_updates(gens.take(position as int), start_idx.0 as int);
        let ghost g = gens[position as int];
        let mut j: usize = 0;
        while j < values.len()
            invariant
                gens == slices_view(slices@),
                trace0 == old(trace_ctx)@,
                position < slices.len(),
                values@ == slices@[position as int]@,
                g == gens[position as int],
                g == aggregates_view(values@),
                done == generation_updates(gens.take(position as int), start_idx.0 as int),
                absolute_idx.0 == start_idx.0 + position,
                j <= values.len(),
                trace_with_generations(trace0, done + slice_updates(g.take(j as int), absolute_idx.0 as int))
                    == (trace_ctx@, None::<GenerationCompactificationError>),
            decreases values.len() - j,
        {
            let ghost before = trace_ctx@;
            let ghost upd = (values@[j as int]@.trace_pos, absolute_idx);
            let ghost prefix = done + slice_updates(g.take(j as int), absolute_idx.0 as int);
            assert(done + slice_updates(g.take(j + 1), absolute_idx.0 as int) =~= prefix.push(upd));
            assert((prefix.push(upd)).drop_last() =~= prefix);
            let r = trace_ctx.update_generation(values[j].get_trace_pos(), absolute_idx);
            match r {
                Ok(()) => {},
                Err(e) => {
                    proof {
                        let all = generation_updates(gens, start_idx.0 as int);
                        assert(trace_with_generations(trace0, prefix.push(upd)) == (before, Some(e)));
                        lemma_generation_updates_prefix(gens, start_idx.0 as int, position as int, j as int);
                        let n: int = prefix.len() + 1int;
                        assert(all[prefix.len() as int] == upd);
                        assert(prefix.push(upd) =~= all.subrange(0, n));
                        lemma_trace_with_generations_append(trace0, prefix.push(upd), all.subrange(n, all.len() as int));
                        assert(all.subrange(0, n) + all.subrange(n, all.len() as int) =~= all);
                    }
                    return Err(
                        ExecutionError::Uncatchable(UncatchableError::GenerationCompactificationError(e)),
                    );
                },
            }
            j = j + 1;
        }
        proof {
            assert(g.take(j as int) =~= g);
            assert(gens.take(position + 1) =~= gens.take(position as int).push(g));
            assert(gens.take(position + 1).drop_last() =~= gens.take(position as int));
        }
        position = position + 1;
    }
    assert(gens.take(position as int) =~= gens);
    Ok(())
}

/// The updates of the first `j` values of generation `p` of `gens` are a prefix of all
/// updates of `gens`, with the update of value `j` right after them.
proof fn lemma_generation_updates_prefix(gens: Seq<Seq<AggregateView>>, start: int, p: int, j: int)
    requires
        0 <= p < gens.len(),
        0 <= j < gens[p].len(),
    ensures
        ({
            let prefix = generation_updates(gens.take(p), start) + slice_updates(gens[p].take(j), start + p);
            let all = generation_updates(gens, start);
            &&& prefix.len() < all.len()
            &&& all.subrange(0, prefix.len() as int) == prefix
            &&& all[prefix.len() as int] == (gens[p][j].trace_pos, GenerationIdx((start + p) as u32))
        }),
    decreases gens.len(),
{
    if p == gens.len() - 1 {
        assert(gens.take(p) =~= gens.drop_last());
        let prefix = generation_updates(gens.take(p), start) + slice_updates(gens[p].take(j), start + p);
        let all = generation_updates(gens, start);
        assert(all.subrange(0, prefix.len() as int) =~= prefix);
    } else {
        let init = gens.drop_last();
        lemma_generation_updates_prefix(init, start, p, j);
        assert(init.take(p) =~= gens.take(p));
        let prefix = generation_updates(gens.take(p), start) + slice_updates(gens[p].take(j), start + p);
        let all = generation_updates(gens, start);
        let all_init = generation_updates(init, start);
        assert(all.subrange(0, prefix.len() as int) =~= all_init.subrange(0, prefix.len() as int));
    }
}

/// The updates of `gens` hold one update for each value, in the order the values are read.
proof fn lemma_generation_updates_len(gens: Seq<Seq<AggregateView>>, start: int)
    ensures
        generation_updates(gens, start).len() == gens.flatten().len(),
    decreases gens.len(),
{
    if gens.len() > 0 {
        let init = gens.drop_last();
        lemma_generation_updates_len(init, start);
        assert(gens =~= init.push(gens.last()));
        init.lemma_flatten_push(gens.last());
    }
}

/// Value `j` of generation `k` of `gens` is read after all values of the generations before
/// it, and its update gives it generation `start + k`.
proof fn lemma_generation_updates_at(gens: Seq<Seq<AggregateView>>, start: int, k: int, j: int)
    requires
        0 <= k < gens.len(),
        0 <= j < gens[k].len(),
    ensures
        gens.take(k).flatten().len() + j < generation_updates(gens, start).len(),
        generation_updates(gens, start)[gens.take(k).flatten().len() + j] == (
            gens[k][j].trace_pos,
            GenerationIdx((start + k) as u32),
        ),
{
    lemma_generation_updates_prefix(gens, start, k, j);
    lemma_generation_updates_len(gens.take(k), start);
}

/// Compaction numbers the generations that hold values consecutively and in their order:
/// value `j` of the `k`-th non-empty previous generation gets generation `k`, the current
/// generations follow the previous ones, and the new generations follow those. Each update
/// stands at the place of its value in the order in which the values are read.
pub proof fn lemma_compaction_numbers_generations_in_order(s: StreamView, k: int, j: int)
    ensures
        ({
            let p = non_empty_generations(s.previous);
            let c = non_empty_generations(s.current);
            let n = non_empty_generations(s.new);
            let u = s.compaction_updates();
            &&& u.len() == s.values().len()
            &&& (0 <= k < p.len() && 0 <= j < p[k].len()) ==> u[p.take(k).flatten().len() + j] == (
                p[k][j].trace_pos,
                GenerationIdx(k as u32),
            )
            &&& (0 <= k < c.len() && 0 <= j < c[k].len()) ==> u[p.flatten().len() + c.take(k).flatten().len()
                + j] == (c[k][j].trace_pos, GenerationIdx((p.len() + k) as u32))
            &&& (0 <= k < n.len() && 0 <= j < n[k].len()) ==> u[p.flatten().len() + c.flatten().len() + n.take(
                k,
            ).flatten().len() + j] == (n[k][j].trace_pos, GenerationIdx((p.len() + c.len() + k) as u32))
        }),
{
    let p = non_empty_generations(s.previous);
    let c = non_empty_generations(s.current);
    let n = non_empty_generations(s.new);
    lemma_generation_updates_len(p, 0);
    lemma_generation_updates_len(c, p.len() as int);
    lemma_generation_updates_len(n, (p.len() + c.len()) as int);
    lemma_non_empty_generations_keep_values(s.previous);
    lemma_non_empty_generations_keep_values(s.current);
    lemma_non_empty_generations_keep_values(s.new);
    let up = generation_updates(p, 0);
    let uc = generation_updates(c, p.len() as int);
    let un = generation_updates(n, (p.len() + c.len()) as int);
    assert(s.compaction_updates() == up + uc + un);
    if 0 <= k < p.len() && 0 <= j < p[k].len() {
        lemma_generation_updates_at(p, 0, k, j);
    }
    if 0 <= k < c.len() && 0 <= j < c[k].len() {
        lemma_generation_updates_at(c, p.len() as int, k, j);
    }
    if 0 <= k < n.len() && 0 <= j < n[k].len() {
        lemma_generation_updates_at(n, (p.len() + c.len()) as int, k, j);
    }
}

/// A value added to the new generations is read last: the stream then reads the values
/// it read before, followed by this one.
pub proof fn lemma_new_value_is_read_last(s: StreamView, value: AggregateView)
    ensures
        s.with_value(value, Generation::New).values() == s.values().push(value),
{
    lemma_add_to_last_generation_appends(s.new, value);
    assert(s.with_value(value, Generation::New).values() =~= s.values().push(value));
}

/// Adding a value to a generation of one part of the stream (previous, current or new)
/// leaves the other parts as they were, keeps the values of that generation and puts the
/// value last in it; the stream then holds exactly one value more.
pub proof fn lemma_with_value_parts(s: StreamView, value: AggregateView, generation: Generation)
    ensures
        s.with_value(value, generation).values().len() == s.values().len() + 1,
        match generation {
            Generation::Previous(idx) => {
                let r = s.with_value(value, generation);
                &&& r.current == s.current
                &&& r.new == s.new
                &&& r.previous[idx.0 as int] == (if idx.0 < s.previous.len() {
                    s.previous[idx.0 as int]
                } else {
                    Seq::<AggregateView>::empty()
                }).push(value)
            },
            Generation::Current(idx) => {
                let r = s.with_value(value, generation);
                &&& r.previous == s.previous
                &&& r.new == s.new
                &&& r.current[idx.0 as int] == (if idx.0 < s.current.len() {
                    s.current[idx.0 as int]
                } else {
                    Seq::<AggregateView>::empty()
                }).push(value)
            },
            Generation::New => {
                let r = s.with_value(value, generation);
                &&& r.previous == s.previous
                &&& r.current == s.current
                &&& r.values() == s.values().push(value)
            },
        },
{
    match generation {
        Generation::Previous(idx) => {
            lemma_add_value_to_generation_shape(s.previous, idx.0 as int, value);
            lemma_add_value_counts_one_more(s.previous, idx.0 as int, value);
        },
        Generation::Current(idx) => {
            lemma_add_value_to_generation_shape(s.current, idx.0 as int, value);
            lemma_add_value_counts_one_more(s.current, idx.0 as int, value);
        },
        Generation::New => {
            lemma_new_value_is_read_last(s, value);
        },
    }
}

/// `matrix_view` and reading the values in order can be taken in either order.
pub proof fn lemma_matrix_view_flatten(m: Seq<Seq<ValueAggregate>>)
    ensures
        matrix_view(m).flatten() == aggregates_view(m.flatten()),
    decreases m.len(),
{
    if m.len() > 0 {
        let init = m.drop_last();
        lemma_matrix_view_flatten(init);
        assert(m =~= init.push(m.last()));
        assert(matrix_view(m) =~= matrix_view(init).push(aggregates_view(m.last())));
        init.lemma_flatten_push(m.last());
        matrix_view(init).lemma_flatten_push(aggregates_view(m.last()));
        assert(aggregates_view(init.flatten() + m.last()) =~= aggregates_view(init.flatten()) + aggregates_view(
            m.last(),
        ));
    } else {
        assert(aggregates_view(m.flatten()) =~= Seq::<AggregateView>::empty());
    }
}

impl StreamView {
    /// All values of the stream: those of the previous, the current and the new
    /// generations, each generation in order.
    pub open spec fn values(self) -> Seq<AggregateView> {
        self.previous.flatten() + self.current.flatten() + self.new.flatten()
    }
}

/// The values of a stream, kept by generations: those from the previous data, those from
/// the current data, and those that are new in this run.
#[derive(Debug)]
pub struct Stream {
    previous_values: ValuesMatrix<ValueAggregate>,
    current_values: ValuesMatrix<ValueAggregate>,
    new_values: NewValuesMatrix<ValueAggregate>,
}

impl View for Stream {
    type V = StreamView;

    closed spec fn view(&self) -> StreamView {
        StreamView {
            previous: matrix_view(self.previous_values@),
            current: matrix_view(self.current_values@),
            new: matrix_view(self.new_values@),
        }
    }
}

impl Stream {
    pub fn new() -> (stream: Self)
        ensures
            stream@ == StreamView::empty(),
    {
        let stream = Self {
            previous_values: ValuesMatrix::new(),
            current_values: ValuesMatrix::new(),
            new_values: NewValuesMatrix::new(),
        };
        assert(stream@.previous =~= Seq::<Seq<AggregateView>>::empty());
        assert(stream@.current =~= Seq::<Seq<AggregateView>>::empty());
        assert(stream@.new =~= Seq::<Seq<AggregateView>>::empty());
        stream
    }

    /// All values of the stream: those of the previous, the current and the new
    /// generations, each generation in order.
    pub fn iter(&self) -> (values: Vec<&ValueAggregate>)
        ensures
            aggregates_view(values@.unref()) == self@.values(),
    {
        let mut values = self.previous_values.iter();
        let mut current = self.current_values.iter();
        let mut new = self.new_values.iter();
        let ghost p = values@;
        let ghost c = current@;
        let ghost n = new@;
        values.append(&mut current);
        values.append(&mut new);
        proof {
            lemma_matrix_view_flatten(self.previous_values@);
            lemma_matrix_view_flatten(self.current_values@);
            lemma_matrix_view_flatten(self.new_values@);
            assert(values@ =~= p + c + n);
            assert(values@.unref() =~= p.unref() + c.unref() + n.unref());
            assert(aggregates_view(values@.unref()) =~= aggregates_view(p.unref()) + aggregates_view(c.unref())
                + aggregates_view(n.unref()));
        }
        values
    }

    /// Adds `value` to `generation` of the stream.
    pub fn add_value(&mut self, value: ValueAggregate, generation: Generation)
        requires
            old(self)@.can_add(generation),
        ensures
            final(self)@ == old(self)@.with_value(value@, generation),
    {
        let ghost v = value;
        match generation {
            Generation::Previous(idx) => {
                let ghost m = self.previous_values@;
                self.previous_values.add_value_to_generation(value, idx);
                proof {
                    lemma_matrix_view_with_value(m, idx.0 as int, v);
                }
            },
            Generation::Current(idx) => {
                let ghost m = self.current_values@;
                self.current_values.add_value_to_generation(value, idx);
                proof {
                    lemma_matrix_view_with_value(m, idx.0 as int, v);
                }
            },
            Generation::New => {
                let ghost m = self.new_values@;
                self.new_values.add_to_last_generation(value);
                proof {
                    lemma_matrix_view_with_value(m, last_generation_index(m), v);
                    assert(last_generation_index(m) == last_generation_index(matrix_view(m)));
                }
            },
        }
    }

    /// Drops the empty generations of the stream and writes into the trace the final
    /// generation of each value: the values of the previous, the current and the new
    /// generations get consecutive generation numbers, in this order.
    pub fn compactify(&mut self, trace_ctx: &mut TraceHandler) -> (result: ExecutionResult<()>)
        requires
            old(self)@.compactable(),
        ensures
            final(self)@ == old(self)@.compacted(),
            ({
                let (trace, error) = trace_with_generations(
                    old(trace_ctx)@,
                    old(self)@.compaction_updates(),
                );
                &&& final(trace_ctx)@ == trace
                &&& match error {
                    None => result is Ok,
                    Some(e) => result == Err::<(), ExecutionError>(
                        ExecutionError::Uncatchable(UncatchableError::GenerationCompactificationError(e)),
                    ),
                }
            }),
    {
        let ghost s0 = self@;
        let ghost c = s0.compacted();
        let ghost t0 = trace_ctx@;
        proof {
            lemma_matrix_view_non_empty(self.previous_values@);
            lemma_matrix_view_non_empty(self.current_values@);
            lemma_matrix_view_non_empty(self.new_values@);
            lemma_non_empty_generations_idempotent(self.previous_values@);
            lemma_non_empty_generations_idempotent(self.current_values@);
            lemma_non_empty_generations_idempotent(self.new_values@);
        }
        self.previous_values.remove_empty_generations();
        self.current_values.remove_empty_generations();
        self.new_values.remove_empty_generations();
        assert(self@ == c);

        let ghost a = generation_updates(c.previous, 0);
        let ghost b = generation_updates(c.current, c.previous.len() as int);
        let ghost d = generation_updates(c.new, (c.previous.len() + c.current.len()) as int);

        let start_idx = GenerationIdx(0);
        let slices = self.previous_values.slice_iter(start_idx);
        proof {
            lemma_slices_are_generations(self.previous_values@, slices@);
        }
        let r = update_generations(&slices, start_idx, trace_ctx);
        proof {
            lemma_trace_with_generations_append(t0, a, b + d);
            assert(a + (b + d) =~= a + b + d);
        }
        if let Err(e) = r {
            return Err(e);
        }
        let ghost t1 = trace_ctx@;

        let start_idx = self.previous_values.generations_count();
        let slices = self.current_values.slice_iter(GenerationIdx(0));
        proof {
            lemma_slices_are_generations(self.current_values@, slices@);
        }
        let r = update_generations(&slices, start_idx, trace_ctx);
        proof {
            lemma_trace_with_generations_append(t1, b, d);
        }
        if let Err(e) = r {
            return Err(e);
        }

        let start_idx = match start_idx.checked_add(self.current_values.generations_count()) {
            Some(idx) => idx,
            None => {
                assert(false);
                start_idx
            },
        };
        let slices = self.new_values.slice_iter(GenerationIdx(0));
        proof {
            lemma_slices_are_generations(self.new_values@, slices@);
        }
        update_generations(&slices, start_idx, trace_ctx)
    }
}

/// The slices that `slice_iter(0)` gives of a matrix without empty generations are its
/// generations.
proof fn lemma_slices_are_generations(m: Seq<Seq<ValueAggregate>>, slices: Seq<&[ValueAggregate]>)
    requires
        m == non_empty_generations(m),
        slices.len() == skip_generations(non_empty_generations(m), 0).len(),
        forall|k: int|
            0 <= k < slices.len() ==> #[trigger] slices[k]@ == skip_generations(non_empty_generations(m), 0)[k],
    ensures
        slices_view(slices) == matrix_view(m),
{
    assert(non_empty_generations(m).skip(0) =~= non_empty_generations(m));
    assert(slices_view(slices) =~= matrix_view(m));
}

} // verus!
