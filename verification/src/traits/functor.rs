//! Mapping a function over what a container holds.

use crate::Pair;
use vstd::prelude::*;

verus! {

/// A container of `T` that can be mapped to a container of `U` of the same
/// shape.
pub trait Functor<T, U> {
    /// The container of the same shape that holds `U`.
    type Functor;

    /// Whether every item held satisfies `ok`. A container that does not
    /// say which items it holds admits no call of `fmap` from verified code.
    open spec fn all_items(&self, ok: spec_fn(T) -> bool) -> bool {
        false
    }

    /// Whether `out` has the shape of `self`, and each item of `out` is
    /// related by `rel` to the item of `self` that stands in its place. Of a
    /// container that does not say what its shape is, nothing is stated.
    open spec fn maps_to(&self, rel: spec_fn(T, U) -> bool, out: Self::Functor) -> bool {
        true
    }

    /// Calls `f` on every item and collects what it returns, each result in
    /// the place of the item it was computed from.
    fn fmap<F: Fn(&T) -> U>(&self, f: F) -> (out: Self::Functor)
        requires
            self.all_items(|item: T| call_requires(f, (&item,))),
        ensures
            self.maps_to(|item: T, image: U| call_ensures(f, (&item,), image), out),
    ;
}

impl<T, U> Functor<T, U> for Option<T> {
    type Functor = Option<U>;

    open spec fn all_items(&self, ok: spec_fn(T) -> bool) -> bool {
        self matches Some(item) ==> ok(*item)
    }

    open spec fn maps_to(&self, rel: spec_fn(T, U) -> bool, out: Option<U>) -> bool {
        match self {
            Some(item) => out matches Some(image) && rel(*item, image),
            None => out is None,
        }
    }

    fn fmap<F: Fn(&T) -> U>(&self, f: F) -> (out: Option<U>) {
        match &self {
            Some(v) => Some(f(v)),
            None => None,
        }
    }
}

impl<T, U, E> Functor<T, U> for Result<T, E> where E: Clone {
    type Functor = Result<U, E>;

    open spec fn all_items(&self, ok: spec_fn(T) -> bool) -> bool {
        self matches Ok(item) ==> ok(*item)
    }

    /// An error is kept: `out` then holds a clone of it.
    open spec fn maps_to(&self, rel: spec_fn(T, U) -> bool, out: Result<U, E>) -> bool {
        match self {
            Ok(item) => out matches Ok(image) && rel(*item, image),
            Err(error) => out matches Err(kept) && cloned(*error, kept),
        }
    }

    fn fmap<F: Fn(&T) -> U>(&self, f: F) -> (out: Result<U, E>) {
        match &self {
            Ok(v) => Ok(f(v)),
            Err(e) => Err(e.clone()),
        }
    }
}

impl<T, U> Functor<T, U> for Vec<T> {
    type Functor = Vec<U>;

    open spec fn all_items(&self, ok: spec_fn(T) -> bool) -> bool {
        forall|i: int| 0 <= i < self@.len() ==> ok(#[trigger] self@[i])
    }

    open spec fn maps_to(&self, rel: spec_fn(T, U) -> bool, out: Vec<U>) -> bool {
        &&& out@.len() == self@.len()
        &&& forall|i: int| 0 <= i < self@.len() ==> rel(self@[i], #[trigger] out@[i])
    }

    fn fmap<F: Fn(&T) -> U>(&self, f: F) -> (out: Vec<U>) {
        let ghost ok = |item: T| call_requires(f, (&item,));
        let ghost rel = |item: T, image: U| call_ensures(f, (&item,), image);
        assert(<Vec<T> as Functor<T, U>>::all_items(self, ok));
        let mut result = Vec::with_capacity(self.len());
        let mut i: usize = 0;
        while i < self.len()
            invariant
                i <= self@.len(),
                result@.len() == i,
                ok == |item: T| call_requires(f, (&item,)),
                rel == |item: T, image: U| call_ensures(f, (&item,), image),
                forall|k: int| 0 <= k < self@.len() ==> ok(#[trigger] self@[k]),
                forall|k: int| 0 <= k < i ==> rel(self@[k], #[trigger] result@[k]),
            decreases self@.len() - i,
        {
            assert(ok(self@[i as int]));
            let image = f(&self[i]);
            assert(rel(self@[i as int], image));
            result.push(image);
            i += 1;
        }
        assert(<Vec<T> as Functor<T, U>>::maps_to(self, rel, result));
        result
    }
}

impl<T, U> Functor<T, U> for Pair<T> {
    type Functor = Pair<U>;

    open spec fn all_items(&self, ok: spec_fn(T) -> bool) -> bool {
        ok(self.0) && ok(self.1)
    }

    open spec fn maps_to(&self, rel: spec_fn(T, U) -> bool, out: Pair<U>) -> bool {
        rel(self.0, out.0) && rel(self.1, out.1)
    }

    fn fmap<F: Fn(&T) -> U>(&self, f: F) -> (out: Pair<U>) {
        (f(&self.0), f(&self.1))
    }
}

} // verus!
