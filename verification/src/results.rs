use vstd::prelude::*;

verus! {

/// What `step` gives for each item with its position, in order; or the error of the first
/// item that `step` refuses. This is what collecting an iterator of results gives.
pub open spec fn collect_results<A, B, E>(items: Seq<A>, step: spec_fn(int, A) -> Result<B, E>) -> Result<
    Seq<B>,
    E,
>
    decreases items.len(),
{
    if items.len() == 0 {
        Ok(Seq::empty())
    } else {
        match collect_results(items.drop_last(), step) {
            Err(e) => Err(e),
            Ok(done) => match step(items.len() - 1, items.last()) {
                Err(e) => Err(e),
                Ok(b) => Ok(done.push(b)),
            },
        }
    }
}

/// Once a prefix is refused, the whole sequence is refused with the same error: items after
/// the first refused one are not looked at.
pub proof fn lemma_first_error_stays<A, B, E>(items: Seq<A>, step: spec_fn(int, A) -> Result<B, E>, i: int)
    requires
        0 <= i < items.len(),
        collect_results(items.take(i + 1), step) is Err,
    ensures
        collect_results(items, step) == collect_results(items.take(i + 1), step),
    decreases items.len() - i,
{
    if i + 1 == items.len() {
        assert(items.take(i + 1) =~= items);
    } else {
        assert(items.drop_last().take(i + 1) =~= items.take(i + 1));
        lemma_first_error_stays(items.drop_last(), step, i);
    }
}


/// Where every item is accepted, the result holds what `step` gave for each item, at its
/// place.
pub proof fn lemma_collect_results_ok<A, B, E>(items: Seq<A>, step: spec_fn(int, A) -> Result<B, E>)
    requires
        collect_results(items, step) is Ok,
    ensures
        collect_results(items, step)->Ok_0.len() == items.len(),
        forall|i: int|
            0 <= i < items.len() ==> #[trigger] step(i, items[i]) == Ok::<B, E>(
                collect_results(items, step)->Ok_0[i],
            ),
    decreases items.len(),
{
    if items.len() > 0 {
        let init = items.drop_last();
        lemma_collect_results_ok(init, step);
        assert forall|i: int| 0 <= i < items.len() implies #[trigger] step(i, items[i]) == Ok::<B, E>(
            collect_results(items, step)->Ok_0[i],
        ) by {
            if i < items.len() - 1 {
                assert(items[i] == init[i]);
            }
        }
    }
}

} // verus!
