use vstd::prelude::*;

use crate::generation::GenerationIdx;
use crate::stream_map_key::{decimal, u64_to_string};
use crate::text::{append_each_followed_by, each_followed_by, texts_view};

verus! {

/// The generations of a matrix as sequences of values, in order.
pub open spec fn generations_view<T>(values: Seq<Vec<T>>) -> Seq<Seq<T>> {
    values.map_values(|generation: Vec<T>| generation@)
}

/// The generations of `m` that hold at least one value, in their order.
pub open spec fn non_empty_generations<T>(m: Seq<Seq<T>>) -> Seq<Seq<T>> {
    m.filter(is_non_empty())
}

/// Whether a generation holds at least one value.
pub open spec fn is_non_empty<T>() -> spec_fn(Seq<T>) -> bool {
    |generation: Seq<T>| generation.len() > 0
}

/// `m` without its first `n` generations; nothing where it has fewer than `n`.
pub open spec fn skip_generations<T>(m: Seq<Seq<T>>, n: int) -> Seq<Seq<T>> {
    if n <= m.len() {
        m.skip(n)
    } else {
        Seq::empty()
    }
}

/// `m` with `value` appended to generation `idx`; where `m` has no such generation, it is
/// first extended with empty generations up to `idx`.
pub open spec fn with_value_in_generation<T>(m: Seq<Seq<T>>, idx: int, value: T) -> Seq<Seq<T>> {
    let padded = if idx < m.len() {
        m
    } else {
        m + Seq::new((idx + 1 - m.len()) as nat, |_i: int| Seq::<T>::empty())
    };
    padded.update(idx, padded[idx].push(value))
}

/// Dropping the empty generations leaves the values, read generation after generation,
/// as they were: `remove_empty_generations` does not change what `iter` gives.
pub proof fn lemma_non_empty_generations_keep_values<T>(m: Seq<Seq<T>>)
    ensures
        non_empty_generations(m).flatten() == m.flatten(),
    decreases m.len(),
{
    if m.len() > 0 {
        let init = m.drop_last();
        lemma_non_empty_generations_keep_values(init);
        assert(m =~= init.push(m.last()));
        init.lemma_filter_push(m.last(), is_non_empty());
        init.lemma_flatten_push(m.last());
        non_empty_generations(init).lemma_flatten_push(m.last());
        if m.last().len() == 0 {
            assert(init.flatten() + m.last() =~= init.flatten());
        }
    }
}

/// After the empty generations are dropped, none is left to drop: compacting twice is
/// compacting once.
pub proof fn lemma_non_empty_generations_idempotent<T>(m: Seq<Seq<T>>)
    ensures
        non_empty_generations(non_empty_generations(m)) == non_empty_generations(m),
    decreases m.len(),
{
    if m.len() > 0 {
        let init = m.drop_last();
        lemma_non_empty_generations_idempotent(init);
        assert(m =~= init.push(m.last()));
        init.lemma_filter_push(m.last(), is_non_empty());
        if m.last().len() > 0 {
            non_empty_generations(init).lemma_filter_push(m.last(), is_non_empty());
        }
    }
}

/// Dropping the empty generations leaves no empty generation, and keeps each non-empty one:
/// every generation left is a generation of `m`, and each non-empty generation of `m` is
/// left.
pub proof fn lemma_non_empty_generations_are_those_of_m<T>(m: Seq<Seq<T>>)
    ensures
        forall|k: int|
            0 <= k < non_empty_generations(m).len() ==> #[trigger] non_empty_generations(m)[k].len() > 0
                && m.contains(non_empty_generations(m)[k]),
        forall|i: int| 0 <= i < m.len() && m[i].len() > 0 ==> non_empty_generations(m).contains(#[trigger] m[i]),
        non_empty_generations(m).len() <= m.len(),
{
    broadcast use vstd::seq_lib::group_filter_ensures;
    assert forall|i: int| 0 <= i < m.len() && m[i].len() > 0 implies non_empty_generations(m).contains(
        #[trigger] m[i],
    ) by {
        assert(is_non_empty::<T>()(m[i]));
        assert(m.contains(m[i]));
    }
    assert forall|k: int| 0 <= k < non_empty_generations(m).len() implies #[trigger] non_empty_generations(m)[k].len()
        > 0 && m.contains(non_empty_generations(m)[k]) by {
        let g = non_empty_generations(m)[k];
        assert(non_empty_generations(m).contains(g));
        m.lemma_filter_contains_rev(is_non_empty(), g);
        m.lemma_filter_pred(is_non_empty(), k);
        assert(is_non_empty::<T>()(g));
    }
}

/// The generations skipped and those left make up all generations, in order: skipping `n`
/// leaves exactly the generations after the first `n`, and nothing where there are fewer.
pub proof fn lemma_skip_generations_split<T>(m: Seq<Seq<T>>, n: int)
    requires
        0 <= n,
    ensures
        n <= m.len() ==> m.take(n) + skip_generations(m, n) == m,
        n <= m.len() ==> skip_generations(m, n).len() == m.len() - n,
        n > m.len() ==> skip_generations(m, n).len() == 0,
{
    if n <= m.len() {
        assert(m.take(n) + skip_generations(m, n) =~= m);
    }
}

/// Skipping no generation, the non-empty generations hold every value in order:
/// `slice_iter` from 0 reads what `iter` reads.
pub proof fn lemma_slices_from_start_hold_all_values<T>(m: Seq<Seq<T>>)
    ensures
        skip_generations(non_empty_generations(m), 0).flatten() == m.flatten(),
{
    assert(non_empty_generations(m).skip(0) =~= non_empty_generations(m));
    lemma_non_empty_generations_keep_values(m);
}

/// A value added to the last generation comes out last when the values are read in order.
pub proof fn lemma_add_to_last_generation_appends<T>(m: Seq<Seq<T>>, value: T)
    ensures
        with_value_in_generation(m, last_generation_index(m), value).flatten() == m.flatten().push(
            value,
        ),
{
    let r = with_value_in_generation(m, last_generation_index(m), value);
    if m.len() == 0 {
        assert(r =~= seq![seq![value]]);
        seq![seq![value]].lemma_flatten_one_element();
        assert(m.flatten().push(value) =~= seq![value]);
    } else {
        let init = m.drop_last();
        assert(m =~= init.push(m.last()));
        assert(r =~= init.push(m.last().push(value)));
        init.lemma_flatten_push(m.last());
        init.lemma_flatten_push(m.last().push(value));
        assert(init.flatten() + m.last().push(value) =~= (init.flatten() + m.last()).push(value));
    }
}

/// Adding a value to generation `idx` leaves at least `idx + 1` generations: generation
/// `idx` keeps the values it held and gets the value last, every other generation is as
/// it was, and the generations added on the way are empty.
pub proof fn lemma_add_value_to_generation_shape<T>(m: Seq<Seq<T>>, idx: int, value: T)
    requires
        0 <= idx,
    ensures
        ({
            let r = with_value_in_generation(m, idx, value);
            &&& r.len() == (if idx < m.len() { m.len() as int } else { idx + 1 })
            &&& r[idx].last() == value
            &&& r[idx] == (if idx < m.len() { m[idx] } else { Seq::<T>::empty() }).push(value)
            &&& forall|j: int| 0 <= j < m.len() && j != idx ==> #[trigger] r[j] == m[j]
            &&& forall|j: int| m.len() <= j < r.len() && j != idx ==> #[trigger] r[j] == Seq::<T>::empty()
        }),
{
}

/// Replacing one generation changes the number of values by the difference of the sizes.
proof fn lemma_flatten_len_update<T>(m: Seq<Seq<T>>, i: int, x: Seq<T>)
    requires
        0 <= i < m.len(),
    ensures
        m.update(i, x).flatten().len() + m[i].len() == m.flatten().len() + x.len(),
    decreases m.len(),
{
    let init = m.drop_last();
    assert(m =~= init.push(m.last()));
    init.lemma_flatten_push(m.last());
    if i == m.len() - 1 {
        assert(m.update(i, x) =~= init.push(x));
        init.lemma_flatten_push(x);
    } else {
        lemma_flatten_len_update(init, i, x);
        assert(m.update(i, x) =~= init.update(i, x).push(m.last()));
        init.update(i, x).lemma_flatten_push(m.last());
    }
}

/// Empty generations added at the end hold no value.
proof fn lemma_flatten_len_pad<T>(m: Seq<Seq<T>>, n: nat)
    ensures
        (m + Seq::new(n, |_i: int| Seq::<T>::empty())).flatten().len() == m.flatten().len(),
    decreases n,
{
    if n > 0 {
        let shorter = m + Seq::new((n - 1) as nat, |_i: int| Seq::<T>::empty());
        lemma_flatten_len_pad(m, (n - 1) as nat);
        assert(m + Seq::new(n, |_i: int| Seq::<T>::empty()) =~= shorter.push(Seq::<T>::empty()));
        shorter.lemma_flatten_push(Seq::<T>::empty());
    }
}

/// Adding a value to any generation adds exactly one value to the matrix: no value that
/// was there is lost.
pub proof fn lemma_add_value_counts_one_more<T>(m: Seq<Seq<T>>, idx: int, value: T)
    requires
        0 <= idx,
    ensures
        with_value_in_generation(m, idx, value).flatten().len() == m.flatten().len() + 1,
{
    let padded = if idx < m.len() {
        m
    } else {
        m + Seq::new((idx + 1 - m.len()) as nat, |_i: int| Seq::<T>::empty())
    };
    if idx >= m.len() {
        lemma_flatten_len_pad(m, (idx + 1 - m.len()) as nat);
    }
    assert(padded.flatten().len() == m.flatten().len());
    lemma_flatten_len_update(padded, idx, padded[idx].push(value));
}

/// Values stored by generations. Generations are ordered, and so are the values inside one
/// generation: read row by row, the matrix is the sequence in which the values are handled.
#[derive(Debug)]
pub struct ValuesMatrix<T> {
    values: Vec<Vec<T>>,
}

impl<T> View for ValuesMatrix<T> {
    type V = Seq<Seq<T>>;

    closed spec fn view(&self) -> Seq<Seq<T>> {
        generations_view(self.values@)
    }
}

impl<T> ValuesMatrix<T> {
    pub fn new() -> (matrix: Self)
        ensures
            matrix@ == Seq::<Seq<T>>::empty(),
    {
        let matrix = Self { values: Vec::new() };
        assert(matrix@ =~= Seq::<Seq<T>>::empty());
        matrix
    }

    /// Drops the generations that hold no value; the others keep their order.
    pub fn remove_empty_generations(&mut self)
        ensures
            final(self)@ == non_empty_generations(old(self)@),
    {
        let mut old_values: Vec<Vec<T>> = Vec::new();
        std::mem::swap(&mut old_values, &mut self.values);
        let ghost gens = generations_view(old_values@);
        let mut kept: Vec<Vec<T>> = Vec::new();
        for generation in it: old_values
            invariant
                it.seq() == old_values@,
                gens == generations_view(old_values@),
                generations_view(kept@) == non_empty_generations(gens.take(it.index() as int)),
        {
            proof {
                let i = it.index() as int;
                assert(gens.take(i + 1) =~= gens.take(i).push(gens[i]));
                gens.take(i).lemma_filter_push(gens[i], is_non_empty());
            }
            if generation.len() > 0 {
                let ghost before = kept@;
                kept.push(generation);
                assert(generations_view(kept@) =~= generations_view(before).push(generation@));
            }
        }
        assert(gens.take(gens.len() as int) =~= gens);
        self.values = kept;
    }

    /// The number of generations, empty ones included.
    pub fn generations_count(&self) -> (count: GenerationIdx)
        requires
            self@.len() <= u32::MAX,
        ensures
            count.0 == self@.len(),
    {
        GenerationIdx::from_usize(self.values.len())
    }

    /// Every generation, empty ones included, in order: what a text of the matrix shows.
    pub fn generations(&self) -> (generations: Vec<&[T]>)
        ensures
            generations@.len() == self@.len(),
            forall|i: int| 0 <= i < generations@.len() ==> #[trigger] generations@[i]@ == self@[i],
    {
        let mut generations: Vec<&[T]> = Vec::new();
        let mut i: usize = 0;
        while i < self.values.len()
            invariant
                i <= self.values.len(),
                generations@.len() == i,
                forall|j: int| 0 <= j < i ==> #[trigger] generations@[j]@ == self@[j],
            decreases self.values.len() - i,
        {
            generations.push(self.values[i].as_slice());
            i = i + 1;
        }
        generations
    }

    /// All values, generation after generation, each generation in its own order.
    pub fn iter(&self) -> (values: Vec<&T>)
        ensures
            values@.unref() == self@.flatten(),
    {
        let ghost m = self@;
        let mut values: Vec<&T> = Vec::new();
        let mut i: usize = 0;
        while i < self.values.len()
            invariant
                m == self@,
                i <= self.values.len(),
                values@.unref() == m.take(i as int).flatten(),
            decreases self.values.len() - i,
        {
            let generation = &self.values[i];
            let mut j: usize = 0;
            while j < generation.len()
                invariant
                    m == self@,
                    i < self.values.len(),
                    generation@ == m[i as int],
                    j <= generation.len(),
                    values@.unref() == m.take(i as int).flatten() + m[i as int].take(j as int),
                decreases generation.len() - j,
            {
                let ghost before = values@;
                values.push(&generation[j]);
                assert(values@.unref() =~= before.unref().push(m[i as int][j as int]));
                assert(m[i as int].take(j + 1) =~= m[i as int].take(j as int).push(m[i as int][j as int]));
                j = j + 1;
            }
            proof {
                assert(m[i as int].take(j as int) =~= m[i as int]);
                assert(m.take(i + 1) =~= m.take(i as int).push(m[i as int]));
                m.take(i as int).lemma_flatten_push(m[i as int]);
            }
            i = i + 1;
        }
        assert(m.take(i as int) =~= m);
        values
    }

    /// The non-empty generations, without the first `skip` of them.
    pub fn slice_iter(&self, skip: GenerationIdx) -> (slices: Vec<&[T]>)
        ensures
            slices@.len() == skip_generations(non_empty_generations(self@), skip.0 as int).len(),
            forall|k: int|
                0 <= k < slices@.len() ==> #[trigger] slices@[k]@ == skip_generations(
                    non_empty_generations(self@),
                    skip.0 as int,
                )[k],
    {
        let ghost m = self@;
        let skip = skip.to_usize();
        let mut slices: Vec<&[T]> = Vec::new();
        let mut seen: usize = 0;
        let mut i: usize = 0;
        while i < self.values.len()
            invariant
                m == self@,
                i <= self.values.len(),
                seen == non_empty_generations(m.take(i as int)).len(),
                slices@.len() == skip_generations(non_empty_generations(m.take(i as int)), skip as int).len(),
                forall|k: int|
                    0 <= k < slices@.len() ==> #[trigger] slices@[k]@ == skip_generations(
                        non_empty_generations(m.take(i as int)),
                        skip as int,
                    )[k],
            decreases self.values.len() - i,
        {
            let ghost ne = non_empty_generations(m.take(i as int));
            proof {
                assert(m.take(i + 1) =~= m.take(i as int).push(m[i as int]));
                m.take(i as int).lemma_filter_push(m[i as int], is_non_empty());
            }
            let generation = &self.values[i];
            if generation.len() > 0 {
                proof {
                    let ne2 = non_empty_generations(m.take(i + 1));
                    assert(ne2 == ne.push(m[i as int]));
                    if skip <= ne.len() {
                        assert(skip_generations(ne2, skip as int) =~= skip_generations(ne, skip as int).push(
                            m[i as int],
                        ));
                    } else {
                        assert(skip_generations(ne2, skip as int) =~= Seq::<Seq<T>>::empty());
                    }
                }
                if seen >= skip {
                    slices.push(generation.as_slice());
                }
                seen = seen + 1;
            } else {
                assert(generation@ == m[i as int]);
                assert(!is_non_empty::<T>()(m[i as int]));
                assert(non_empty_generations(m.take(i + 1)) == ne);
            }
            i = i + 1;
        }
        assert(m.take(i as int) =~= m);
        slices
    }

    /// Appends `value` to generation `generation_idx`, first adding empty generations up to
    /// it where the matrix has fewer.
    pub fn add_value_to_generation(&mut self, value: T, generation_idx: GenerationIdx)
        requires
            generation_idx.0 < old(self)@.len() || generation_idx.0 < u32::MAX,
        ensures
            final(self)@ == with_value_in_generation(old(self)@, generation_idx.0 as int, value),
    {
        let ghost m = self@;
        let idx = generation_idx.to_usize();
        if idx >= self.values.len() {
            let new_size = match generation_idx.checked_add(GenerationIdx(1)) {
                Some(size) => size.to_usize(),
                None => idx + 1,
            };
            let ghost pad = Seq::new((idx + 1 - m.len()) as nat, |_i: int| Seq::<T>::empty());
            while self.values.len() < new_size
                invariant
                    new_size == idx + 1,
                    m.len() <= self.values.len() <= new_size,
                    pad.len() == new_size - m.len(),
                    forall|k: int| 0 <= k < pad.len() ==> pad[k] == Seq::<T>::empty(),
                    self@ == m + pad.take(self.values.len() - m.len()),
                decreases new_size - self.values.len(),
            {
                let ghost before = self@;
                assert(pad[before.len() - m.len()] == Seq::<T>::empty());
                self.values.push(Vec::new());
                assert(self@ =~= before.push(Seq::<T>::empty()));
                assert(pad.take(self.values.len() - m.len()) =~= pad.take(before.len() - m.len()).push(
                    Seq::<T>::empty(),
                ));
            }
            assert(pad.take(self.values.len() - m.len()) =~= pad);
        }
        let ghost before = self@;
        self.values[idx].push(value);
        assert(self@ =~= before.update(idx as int, before[idx as int].push(value)));
    }
}

impl<T> Default for ValuesMatrix<T> {
    fn default() -> (matrix: Self)
        ensures
            matrix@ == Seq::<Seq<T>>::empty(),
    {
        Self::new()
    }
}

/// The values that call results bring in the current run, by generations; the last
/// generation is the one that new values go to.
#[derive(Debug)]
pub struct NewValuesMatrix<T>(ValuesMatrix<T>);

impl<T> View for NewValuesMatrix<T> {
    type V = Seq<Seq<T>>;

    closed spec fn view(&self) -> Seq<Seq<T>> {
        self.0@
    }
}

/// The index that `last_non_empty_generation_idx` gives for `m`: that of its last
/// generation, or 0 where it has none.
pub open spec fn last_generation_index<T>(m: Seq<Seq<T>>) -> int {
    if m.len() == 0 {
        0
    } else {
        m.len() - 1
    }
}

impl<T> NewValuesMatrix<T> {
    pub fn new() -> (matrix: Self)
        ensures
            matrix@ == Seq::<Seq<T>>::empty(),
    {
        let values = ValuesMatrix::new();
        Self(values)
    }

    /// Opens a new generation, which holds no value yet.
    pub fn add_new_empty_generation(&mut self)
        ensures
            final(self)@ == old(self)@.push(Seq::<T>::empty()),
    {
        let ghost before = self.0.values@;
        self.0.values.push(Vec::new());
        assert(generations_view(self.0.values@) =~= generations_view(before).push(Seq::<T>::empty()));
    }

    /// Drops the generations that hold no value; the others keep their order.
    pub fn remove_empty_generations(&mut self)
        ensures
            final(self)@ == non_empty_generations(old(self)@),
    {
        self.0.remove_empty_generations();
    }

    /// Drops the last generation, if there is one.
    pub fn remove_last_generation(&mut self)
        ensures
            old(self)@.len() == 0 ==> final(self)@ == old(self)@,
            old(self)@.len() > 0 ==> final(self)@ == old(self)@.drop_last(),
    {
        let ghost before = self.0.values@;
        let _ = self.0.values.pop();
        assert(old(self)@.len() > 0 ==> generations_view(self.0.values@) =~= generations_view(
            before,
        ).drop_last());
    }

    /// Whether the last generation holds no value; true where there is no generation.
    pub fn last_generation_is_empty(&mut self) -> (is_empty: bool)
        requires
            old(self)@.len() <= u32::MAX + 1,
        ensures
            final(self)@ == old(self)@,
            is_empty == (old(self)@.len() == 0 || old(self)@.last().len() == 0),
    {
        if self.0.values.len() == 0 {
            return true;
        }
        let idx = self.last_non_empty_generation_idx().to_usize();
        self.0.values[idx].len() == 0
    }

    /// All values, generation after generation, each generation in its own order.
    pub fn iter(&self) -> (values: Vec<&T>)
        ensures
            values@.unref() == self@.flatten(),
    {
        self.0.iter()
    }

    /// The non-empty generations, without the first `skip` of them.
    pub fn slice_iter(&self, skip: GenerationIdx) -> (slices: Vec<&[T]>)
        ensures
            slices@.len() == skip_generations(non_empty_generations(self@), skip.0 as int).len(),
            forall|k: int|
                0 <= k < slices@.len() ==> #[trigger] slices@[k]@ == skip_generations(
                    non_empty_generations(self@),
                    skip.0 as int,
                )[k],
    {
        self.0.slice_iter(skip)
    }

    /// The number of generations, empty ones included.
    pub fn generations_count(&self) -> (count: GenerationIdx)
        requires
            self@.len() <= u32::MAX,
        ensures
            count.0 == self@.len(),
    {
        self.0.generations_count()
    }

    /// Every generation, empty ones included, in order: what a text of the matrix shows.
    pub fn generations(&self) -> (generations: Vec<&[T]>)
        ensures
            generations@.len() == self@.len(),
            forall|i: int| 0 <= i < generations@.len() ==> #[trigger] generations@[i]@ == self@[i],
    {
        self.0.generations()
    }

    /// The index of the last generation (empty or not), or 0 where there is none.
    pub fn last_non_empty_generation_idx(&self) -> (idx: GenerationIdx)
        requires
            self@.len() <= u32::MAX + 1,
        ensures
            idx.0 == last_generation_index(self@),
    {
        let values_len = self.0.values.len();
        if values_len == 0 {
            return GenerationIdx::from_usize(0);
        }
        GenerationIdx::from_usize(values_len - 1)
    }

    /// Appends `value` to the last generation, opening generation 0 where there is none.
    pub fn add_to_last_generation(&mut self, value: T)
        requires
            old(self)@.len() <= u32::MAX + 1,
        ensures
            final(self)@ == with_value_in_generation(old(self)@, last_generation_index(old(self)@), value),
    {
        let last_generation_idx = self.last_non_empty_generation_idx();
        self.0.add_value_to_generation(value, last_generation_idx);
    }
}

impl<T> Default for NewValuesMatrix<T> {
    fn default() -> (matrix: Self)
        ensures
            matrix@ == Seq::<Seq<T>>::empty(),
    {
        Self(ValuesMatrix::default())
    }
}


/// The line of generation `idx` whose values read `texts`: ` -- idx: ` and each value
/// followed by `, `.
pub open spec fn generation_line(idx: nat, texts: Seq<Seq<char>>) -> Seq<char> {
    " -- "@ + decimal(idx) + ": "@ + each_followed_by(texts, ", "@) + "\n"@
}

/// The lines of the generations, numbered from zero.
pub open spec fn generation_lines(generations: Seq<Seq<Seq<char>>>) -> Seq<char>
    decreases generations.len(),
{
    if generations.len() == 0 {
        Seq::empty()
    } else {
        generation_lines(generations.drop_last()) + generation_line(
            (generations.len() - 1) as nat,
            generations.last(),
        )
    }
}

/// The text of a matrix whose generations hold values that read `generations`: `[]` where
/// there is no generation, else `[`, a line for each generation, and `]`.
pub open spec fn matrix_text(generations: Seq<Seq<Seq<char>>>) -> Seq<char> {
    if generations.len() == 0 {
        "[]"@
    } else {
        "[\n"@ + generation_lines(generations) + "]"@
    }
}

/// The texts of the values of each generation.
pub open spec fn generation_texts_view(generations: Seq<Vec<String>>) -> Seq<Seq<Seq<char>>> {
    generations.map_values(|g: Vec<String>| texts_view(g@))
}

/// The text in which a matrix is shown, given the text of each of its values by
/// generation; `NewValuesMatrix` is shown the same way.
pub fn values_matrix_text(generation_texts: &Vec<Vec<String>>) -> (text: String)
    ensures
        text@ == matrix_text(generation_texts_view(generation_texts@)),
{
    let ghost gens = generation_texts_view(generation_texts@);
    if generation_texts.len() == 0 {
        return String::from_str("[]");
    }
    let mut text = String::from_str("[\n");
    let mut i: usize = 0;
    assert(gens.take(0) =~= Seq::<Seq<Seq<char>>>::empty());
    assert("[\n"@ + generation_lines(gens.take(0)) =~= "[\n"@);
    while i < generation_texts.len()
        invariant
            gens == generation_texts_view(generation_texts@),
            i <= generation_texts.len(),
            text@ == "[\n"@ + generation_lines(gens.take(i as int)),
        decreases generation_texts.len() - i,
    {
        let ghost before = text@;
        text.append(" -- ");
        let idx = u64_to_string(i as u64);
        text.append(idx.as_str());
        text.append(": ");
        append_each_followed_by(&mut text, &generation_texts[i], ", ");
        text.append("\n");
        proof {
            assert(gens.take(i + 1).drop_last() =~= gens.take(i as int));
            assert(gens.take(i + 1).last() == texts_view(generation_texts@[i as int]@));
            assert(text@ =~= before + generation_line(i as nat, gens[i as int]));
            assert(text@ =~= "[\n"@ + generation_lines(gens.take(i + 1)));
        }
        i = i + 1;
    }
    assert(gens.take(i as int) =~= gens);
    text.append("]");
    text
}

} // verus!
