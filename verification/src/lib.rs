//! A collection of small building blocks: a composable state container with
//! its store, a bounded cache, a few linked data structures, sealed byte
//! buffers, and traits for folding and mapping over containers.
//!
//! Executable functions carry contracts, and Verus proves them. The few
//! functions that call the `aes_gcm` crate or a function of the standard
//! library that has no specification are marked `external_body`: their
//! contracts state what the called function is documented to do, and Verus
//! takes them on trust.

use vstd::prelude::*;

pub mod cache;
pub mod data_structures;
pub mod encryption;
pub mod graphics;
pub mod redux;
pub mod serde;
pub mod traits;

verus! {

/// Two values of one type.
pub type Pair<T> = (T, T);

/// The function that runs `f` and hands what it returns to `g`.
///
/// The result may be called on `x` wherever `f` may be called on `x` and `g`
/// on whatever `f` returns for it; what it then returns is what `g` returns
/// for some result of `f`.
pub fn compose<I, M, O, F, G>(f: F, g: G) -> (both: impl Fn(I) -> O) where
    F: Fn(I) -> M,
    G: Fn(M) -> O,

    ensures
        forall|x: I|
            (call_requires(f, (x,)) && forall|m: M|
                call_ensures(f, (x,), m) ==> call_requires(g, (m,))) ==> #[trigger] call_requires(
                both,
                (x,),
            ),
        forall|x: I, out: O| #[trigger]
            call_ensures(both, (x,), out) ==> exists|m: M|
                call_ensures(f, (x,), m) && call_ensures(g, (m,), out),
{
    move |x: I| -> (out: O)
        requires
            call_requires(f, (x,)),
            forall|m: M| call_ensures(f, (x,), m) ==> call_requires(g, (m,)),
        ensures
            exists|m: M| call_ensures(f, (x,), m) && call_ensures(g, (m,), out),
        { g(f(x)) }
}

} // verus!
