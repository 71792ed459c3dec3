//! Running two independent pieces of work, on two threads where the
//! options allow.
use vstd::prelude::*;
use crate::options::DecodeOptions;

verus! {

/// `rayon::join`: runs both closures, potentially in parallel, and returns
/// both results. Its documentation promises both results, each the result
/// of its own closure, which is what the contract states.
#[verifier::external_body]
fn join<A, B, RA, RB>(a: A, b: B) -> (results: (RA, RB))
    where
        A: FnOnce() -> RA + Send,
        B: FnOnce() -> RB + Send,
        RA: Send,
        RB: Send,
    requires
        a.requires(()),
        b.requires(()),
    ensures
        a.ensures((), results.0),
        b.ensures((), results.1),
{
    rayon::join(a, b)
}

/// Runs `a` and `b`, in parallel where the options allow it, and returns
/// both results.
pub fn parallel<A, B, FA, FB, O>(a: FA, b: FB, options: &O) -> (results: (A, B))
    where
        A: Send,
        B: Send,
        FA: FnOnce() -> A + Send,
        FB: FnOnce() -> B + Send,
        O: DecodeOptions,
    requires
        a.requires(()),
        b.requires(()),
    ensures
        a.ensures((), results.0),
        b.ensures((), results.1),
{
    if options.parallel() {
        join(a, b)
    } else {
        (a(), b())
    }
}

} // verus!
