//! The escape-time test: when it stops, and with which verdict.
//!
//! The test follows the orbit of a point one iterate at a time. The caller
//! supplies the step from one iterate to the next, together with the answer
//! to the question whether the new iterate has left the disc. The first
//! iterate that has left ends the test: the point escapes. A point whose
//! first `budget + 1` iterates all stay inside is taken to be bounded.

use vstd::prelude::*;

verus! {

/// The iterate that the `k`-th entry of `orbit` was stepped from.
pub open spec fn origin_of<S>(start: S, orbit: Seq<(S, bool)>, k: int) -> S {
    if k == 0 {
        start
    } else {
        orbit[k - 1].0
    }
}

/// Whether `orbit` lists iterates, each with its escape flag, that `advance`
/// can produce one after another from `start`.
pub open spec fn follows<S, F: Fn(S) -> (S, bool)>(
    advance: F,
    start: S,
    orbit: Seq<(S, bool)>,
) -> bool {
    forall|k: int|
        0 <= k < orbit.len() ==> advance.ensures((origin_of(start, orbit, k),), #[trigger] orbit[k])
}

/// Whether `orbit` is as far as the test goes under `budget`, and `bounded`
/// the verdict it supports.
///
/// The test looks at no more than `budget + 1` iterates and stops at the
/// first one that escaped. The point is bounded when there is none, which
/// takes all `budget + 1` of them to know.
pub open spec fn judged<S>(orbit: Seq<(S, bool)>, budget: u32, bounded: bool) -> bool {
    &&& 1 <= orbit.len() <= budget + 1
    &&& forall|k: int| 0 <= k < orbit.len() - 1 ==> !(#[trigger] orbit[k]).1
    &&& bounded == !orbit.last().1
    &&& bounded ==> orbit.len() == budget + 1
}

/// Whether `advance` gives each iterate a single successor and flag.
pub open spec fn single_valued<S, F: Fn(S) -> (S, bool)>(advance: F) -> bool {
    forall|s: S, a: (S, bool), b: (S, bool)|
        advance.ensures((s,), a) && advance.ensures((s,), b) ==> a == b
}

/// Runs the escape-time test on the orbit that `advance` produces from
/// `start`, and says whether the point counts as bounded.
///
/// `advance` takes an iterate and returns the next one, with `true` where
/// the next one has escaped. The escape flag of an iterate is looked at
/// before the budget: an iterate that escapes ends the test with `false`
/// even when it is the last one that the budget pays for.
pub fn in_mand<S, F: Fn(S) -> (S, bool)>(start: S, iters: &u32, advance: F) -> (bounded: bool)
    requires
        forall|s: S| advance.requires((s,)),
    ensures
        exists|orbit: Seq<(S, bool)>| #[trigger]
            follows(advance, start, orbit) && judged(orbit, *iters, bounded),
{
    let budget: u32 = *iters;
    let mut iter: u32 = 0;
    let mut z = start;
    let ghost mut orbit: Seq<(S, bool)> = Seq::empty();
    loop
        invariant
            budget == *iters,
            forall|s: S| advance.requires((s,)),
            follows(advance, start, orbit),
            orbit.len() == iter,
            iter <= budget,
            forall|k: int| 0 <= k < orbit.len() ==> !(#[trigger] orbit[k]).1,
            z == origin_of(start, orbit, orbit.len() as int),
        decreases budget - iter,
    {
        let ghost before = orbit;
        let stepped = advance(z);
        let escaped = stepped.1;
        proof {
            orbit = before.push(stepped);
            assert forall|k: int| 0 <= k < orbit.len() implies advance.ensures(
                (origin_of(start, orbit, k),),
                #[trigger] orbit[k],
            ) by {
                if k < before.len() {
                    assert(orbit[k] == before[k]);
                    assert(origin_of(start, orbit, k) == origin_of(start, before, k));
                }
            }
        }
        if escaped {
            proof {
                assert(follows(advance, start, orbit) && judged(orbit, *iters, false));
            }
            return false;
        }
        if iter >= budget {
            proof {
                assert(follows(advance, start, orbit) && judged(orbit, *iters, true));
            }
            return true;
        }
        z = stepped.0;
        iter += 1;
    }
}

/// Two orbits that a single-valued step produces from one start agree as far
/// as both go.
pub proof fn lemma_orbits_agree<S, F: Fn(S) -> (S, bool)>(
    advance: F,
    start: S,
    first: Seq<(S, bool)>,
    second: Seq<(S, bool)>,
    k: int,
)
    requires
        single_valued(advance),
        follows(advance, start, first),
        follows(advance, start, second),
        0 <= k < first.len(),
        k < second.len(),
    ensures
        first[k] == second[k],
    decreases k,
{
    if k > 0 {
        lemma_orbits_agree(advance, start, first, second, k - 1);
    }
    assert(origin_of(start, first, k) == origin_of(start, second, k));
    assert(advance.ensures((origin_of(start, first, k),), first[k]));
    assert(advance.ensures((origin_of(start, second, k),), second[k]));
}

/// With a single-valued step the test has one outcome: it looks at the same
/// iterates and reaches the same verdict every time.
pub proof fn lemma_verdict_is_unique<S, F: Fn(S) -> (S, bool)>(
    advance: F,
    start: S,
    budget: u32,
    first: Seq<(S, bool)>,
    first_bounded: bool,
    second: Seq<(S, bool)>,
    second_bounded: bool,
)
    requires
        single_valued(advance),
        follows(advance, start, first),
        judged(first, budget, first_bounded),
        follows(advance, start, second),
        judged(second, budget, second_bounded),
    ensures
        first == second,
        first_bounded == second_bounded,
{
    if first.len() < second.len() {
        let last = first.len() - 1;
        lemma_orbits_agree(advance, start, first, second, last);
        assert(!second[last].1);
    } else if second.len() < first.len() {
        let last = second.len() - 1;
        lemma_orbits_agree(advance, start, first, second, last);
        assert(!first[last].1);
    } else {
        assert forall|k: int| 0 <= k < first.len() implies first[k] == second[k] by {
            lemma_orbits_agree(advance, start, first, second, k);
        }
        assert(first =~= second);
    }
}

/// A point is bounded exactly when none of the first `budget + 1` iterates
/// of its orbit escaped.
pub proof fn lemma_bounded_means_no_escape<S>(orbit: Seq<(S, bool)>, budget: u32, bounded: bool)
    requires
        judged(orbit, budget, bounded),
    ensures
        bounded <==> (orbit.len() == budget + 1 && forall|k: int|
            0 <= k <= budget ==> !(#[trigger] orbit[k]).1),
        !bounded <==> orbit.last().1,
{
    if bounded {
        assert forall|k: int| 0 <= k <= budget implies !(#[trigger] orbit[k]).1 by {
            if k == orbit.len() - 1 {
                assert(orbit[k] == orbit.last());
            }
        }
    } else {
        assert(orbit[orbit.len() - 1] == orbit.last());
    }
}

} // verus!
