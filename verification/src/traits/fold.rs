//! Folding what a container holds into one value.

use crate::Pair;
use vstd::prelude::*;

verus! {

/// Whether folding `items` from the left, starting with `start`, can end in
/// `out`: `step(acc, item, next)` says that the folding function may return
/// `next` for the accumulator `acc` and the item `item`.
pub open spec fn seq_folds_to<T>(
    items: Seq<T>,
    start: T,
    step: spec_fn(T, T, T) -> bool,
    out: T,
) -> bool
    decreases items.len(),
{
    if items.len() == 0 {
        out == start
    } else {
        exists|acc: T|
            seq_folds_to(items.drop_last(), start, step, acc) && #[trigger] step(
                acc,
                items.last(),
                out,
            )
    }
}

/// Whether the folding function may be called at every step of a fold of
/// `items` from the left: `ready(acc, item)` says that it may be called on
/// the accumulator `acc` and the item `item`.
pub open spec fn seq_foldable<T>(
    items: Seq<T>,
    start: T,
    ready: spec_fn(T, T) -> bool,
    step: spec_fn(T, T, T) -> bool,
) -> bool
    decreases items.len(),
{
    items.len() == 0 || {
        &&& seq_foldable(items.drop_last(), start, ready, step)
        &&& forall|acc: T|
            seq_folds_to(items.drop_last(), start, step, acc) ==> #[trigger] ready(
                acc,
                items.last(),
            )
    }
}

/// A container whose items can be folded into one value.
pub trait Fold<T> {
    /// Whether the folding function may be called at every step of the
    /// fold. A container that does not say in which steps it folds admits no
    /// call of `fold` from verified code.
    open spec fn foldable(
        &self,
        start: T,
        ready: spec_fn(T, T) -> bool,
        step: spec_fn(T, T, T) -> bool,
    ) -> bool {
        false
    }

    /// Whether the fold that starts with `start` can end in `out`. Of a
    /// container that does not say in which steps it folds, nothing is
    /// stated.
    open spec fn folds_to(&self, start: T, step: spec_fn(T, T, T) -> bool, out: T) -> bool {
        true
    }

    /// Folds the items into one value, starting with `start`.
    fn fold<F: Fn(&T, &T) -> T>(&self, start: T, f: F) -> (out: T)
        requires
            self.foldable(
                start,
                |acc: T, item: T| call_requires(f, (&acc, &item)),
                |acc: T, item: T, next: T| call_ensures(f, (&acc, &item), next),
            ),
        ensures
            self.folds_to(
                start,
                |acc: T, item: T, next: T| call_ensures(f, (&acc, &item), next),
                out,
            ),
    ;
}

impl<T> Fold<T> for Pair<T> {
    open spec fn foldable(
        &self,
        start: T,
        ready: spec_fn(T, T) -> bool,
        step: spec_fn(T, T, T) -> bool,
    ) -> bool {
        &&& ready(self.0, self.1)
        &&& forall|both: T| (#[trigger] step(self.0, self.1, both)) ==> ready(start, both)
    }

    /// The two components are combined first, then `start` with what that
    /// gave.
    open spec fn folds_to(&self, start: T, step: spec_fn(T, T, T) -> bool, out: T) -> bool {
        exists|both: T| (#[trigger] step(self.0, self.1, both)) && step(start, both, out)
    }

    fn fold<F: Fn(&T, &T) -> T>(&self, start: T, f: F) -> (out: T) {
        let ghost step = |acc: T, item: T, next: T| call_ensures(f, (&acc, &item), next);
        let both = f(&self.0, &self.1);
        assert(step(self.0, self.1, both));
        let out = f(&start, &both);
        assert(step(self.0, self.1, both) && step(start, both, out));
        out
    }
}

impl<T> Fold<T> for Vec<T> {
    open spec fn foldable(
        &self,
        start: T,
        ready: spec_fn(T, T) -> bool,
        step: spec_fn(T, T, T) -> bool,
    ) -> bool {
        seq_foldable(self@, start, ready, step)
    }

    /// The items are taken from the left; an empty vector gives `start`.
    open spec fn folds_to(&self, start: T, step: spec_fn(T, T, T) -> bool, out: T) -> bool {
        seq_folds_to(self@, start, step, out)
    }

    fn fold<F: Fn(&T, &T) -> T>(&self, start: T, f: F) -> (out: T) {
        if self.len() == 0 {
            return start;
        }
        let ghost ready = |acc: T, item: T| call_requires(f, (&acc, &item));
        let ghost step = |acc: T, item: T, next: T| call_ensures(f, (&acc, &item), next);
        let mut accum = start;
        let mut i: usize = 0;
        while i < self.len()
            invariant
                i <= self@.len(),
                ready == |acc: T, item: T| call_requires(f, (&acc, &item)),
                step == |acc: T, item: T, next: T| call_ensures(f, (&acc, &item), next),
                seq_foldable(self@, start, ready, step),
                seq_folds_to(self@.take(i as int), start, step, accum),
            decreases self@.len() - i,
        {
            proof {
                lemma_foldable_prefix(self@, start, ready, step, i + 1);
                assert(self@.take(i + 1).drop_last() == self@.take(i as int));
            }
            assert(ready(accum, self@.take(i + 1).last()));
            let next = f(&accum, &self[i]);
            proof {
                assert(seq_folds_to(self@.take(i + 1).drop_last(), start, step, accum) && step(
                    accum,
                    self@.take(i + 1).last(),
                    next,
                ));
            }
            accum = next;
            i += 1;
        }
        proof {
            assert(self@.take(self@.len() as int) == self@);
        }
        accum
    }
}

/// A fold that can run on `items` can run on every prefix of `items`.
pub proof fn lemma_foldable_prefix<T>(
    items: Seq<T>,
    start: T,
    ready: spec_fn(T, T) -> bool,
    step: spec_fn(T, T, T) -> bool,
    count: int,
)
    requires
        seq_foldable(items, start, ready, step),
        0 <= count <= items.len(),
    ensures
        seq_foldable(items.take(count), start, ready, step),
    decreases items.len(),
{
    if count == items.len() {
        assert(items.take(count) == items);
    } else {
        lemma_foldable_prefix(items.drop_last(), start, ready, step, count);
        assert(items.drop_last().take(count) == items.take(count));
    }
}

/// Where the folding function computes `combine`, the fold ends in the left
/// fold of `combine` over the items.
pub proof fn lemma_fold_of_function<T>(
    items: Seq<T>,
    start: T,
    step: spec_fn(T, T, T) -> bool,
    combine: spec_fn(T, T) -> T,
    out: T,
)
    requires
        forall|acc: T, item: T, next: T|
            (#[trigger] step(acc, item, next)) ==> next == combine(acc, item),
        seq_folds_to(items, start, step, out),
    ensures
        out == items.fold_left(start, combine),
    decreases items.len(),
{
    if items.len() > 0 {
        let acc = choose|acc: T|
            seq_folds_to(items.drop_last(), start, step, acc) && #[trigger] step(
                acc,
                items.last(),
                out,
            );
        lemma_fold_of_function(items.drop_last(), start, step, combine, acc);
        assert(step(acc, items.last(), out));
    }
}

} // verus!
