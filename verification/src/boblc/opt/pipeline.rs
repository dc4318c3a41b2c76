//! The optimizations run together until none of them changes anything.
use vstd::prelude::*;
use crate::boblc::tac::TacInst;
use super::constpropagation::{lemma_propagate_weight, propagate};
use super::deadtempelimination::{dce_prefix, lemma_dce_weight};
use super::remaptemp::{lemma_remap_idempotent, lemma_remap_unchanged, lemma_remap_weight, remap_prefix};
use super::weight::{lemma_weight_len, weight};

verus! {

/// One round over a body: propagation, then elimination, then renumbering;
/// the body after it, its count of temporaries, and whether any pass
/// changed it.
pub open spec fn round_body(b: Seq<TacInst>) -> (Seq<TacInst>, nat, bool) {
    let (b1, c1) = propagate(b);
    let (b2, c2) = dce_prefix(b1, b1.len());
    let (b3, st, c3) = remap_prefix(b2, b2.len());
    (b3, st.next, c1 || c2 || c3)
}

/// Whether propagation or elimination changes a body.
pub open spec fn shrinks(b: Seq<TacInst>) -> bool {
    propagate(b).1 || dce_prefix(propagate(b).0, propagate(b).0.len()).1
}

/// Whether a round changes any of the bodies.
pub open spec fn round_changed(bodies: Seq<Seq<TacInst>>) -> bool {
    exists|k: int| 0 <= k < bodies.len() && (#[trigger] round_body(bodies[k])).2
}

/// The bodies after a round.
pub open spec fn next_bodies(bodies: Seq<Seq<TacInst>>) -> Seq<Seq<TacInst>>
    decreases bodies.len(),
{
    if bodies.len() == 0 {
        Seq::empty()
    } else {
        next_bodies(bodies.drop_last()).push(round_body(bodies.last()).0)
    }
}

/// The bodies after a round with their counts of temporaries.
pub open spec fn round_results(bodies: Seq<Seq<TacInst>>) -> Seq<(Seq<TacInst>, nat)>
    decreases bodies.len(),
{
    if bodies.len() == 0 {
        Seq::empty()
    } else {
        round_results(bodies.drop_last()).push((round_body(bodies.last()).0, round_body(bodies.last()).1))
    }
}

/// Whether every body is short enough to renumber.
pub open spec fn small(bodies: Seq<Seq<TacInst>>) -> bool {
    forall|k: int| 0 <= k < bodies.len() ==> 3 * (#[trigger] bodies[k]).len() + 3 < u32::MAX
}

/// The measure of all bodies together.
pub open spec fn total_weight(bodies: Seq<Seq<TacInst>>) -> nat
    decreases bodies.len(),
{
    if bodies.len() == 0 {
        0
    } else {
        total_weight(bodies.drop_last()) + weight(bodies.last())
    }
}

/// Whether renumbering would change none of the bodies.
pub open spec fn all_renumbered(bodies: Seq<Seq<TacInst>>) -> bool {
    forall|k: int| 0 <= k < bodies.len() ==> !(#[trigger] remap_prefix(bodies[k], bodies[k].len())).2
}

/// What bounds the number of rounds left.
pub open spec fn rounds_bound(bodies: Seq<Seq<TacInst>>) -> nat {
    2 * total_weight(bodies) + (if all_renumbered(bodies) { 0nat } else { 1 })
}

/// The bodies and counts of temporaries once the rounds stop: after the
/// first round that changes nothing.
pub open spec fn optimized(bodies: Seq<Seq<TacInst>>) -> Seq<(Seq<TacInst>, nat)>
    decreases rounds_bound(bodies),
    when small(bodies)
    via lemma_optimized_decreases
{
    if round_changed(bodies) {
        optimized(next_bodies(bodies))
    } else {
        round_results(bodies)
    }
}

/// One round on a short body: never longer, never heavier; strictly
/// lighter when propagation or elimination changed it; otherwise it is the
/// renumbered body; and the result is renumbered already.
proof fn lemma_round_body(b: Seq<TacInst>)
    requires
        3 * b.len() + 3 < u32::MAX,
    ensures
        round_body(b).0.len() <= b.len(),
        weight(round_body(b).0) <= weight(b),
        shrinks(b) ==> weight(round_body(b).0) < weight(b),
        !shrinks(b) ==> round_body(b).2 == remap_prefix(b, b.len()).2,
        !remap_prefix(round_body(b).0, round_body(b).0.len()).2,
{
    lemma_propagate_weight(b);
    let b1 = propagate(b).0;
    lemma_dce_weight(b1, b1.len());
    assert(b1.take(b1.len() as int) =~= b1);
    let b2 = dce_prefix(b1, b1.len()).0;
    lemma_remap_weight(b2, b2.len());
    assert(b2.take(b2.len() as int) =~= b2);
    lemma_remap_idempotent(b2);
}

/// The facts of a round over all bodies, by induction on their number.
proof fn lemma_round_all(bodies: Seq<Seq<TacInst>>)
    requires
        small(bodies),
    ensures
        next_bodies(bodies).len() == bodies.len(),
        forall|k: int| 0 <= k < bodies.len() ==> #[trigger] next_bodies(bodies)[k] == round_body(bodies[k]).0,
        round_results(bodies).len() == bodies.len(),
        forall|k: int| 0 <= k < bodies.len() ==>
            #[trigger] round_results(bodies)[k] == (round_body(bodies[k]).0, round_body(bodies[k]).1),
        total_weight(next_bodies(bodies)) <= total_weight(bodies),
        (exists|k: int| 0 <= k < bodies.len() && #[trigger] shrinks(bodies[k]))
            ==> total_weight(next_bodies(bodies)) < total_weight(bodies),
        small(next_bodies(bodies)),
        all_renumbered(next_bodies(bodies)),
    decreases bodies.len(),
{
    if bodies.len() > 0 {
        let init = bodies.drop_last();
        assert forall|k: int| 0 <= k < init.len() implies 3 * (#[trigger] init[k]).len() + 3 < u32::MAX by {
            assert(init[k] == bodies[k]);
        }
        lemma_round_all(init);
        assert(3 * bodies[bodies.len() - 1].len() + 3 < u32::MAX);
        lemma_round_body(bodies.last());
        let nb = next_bodies(bodies);
        assert(nb.drop_last() =~= next_bodies(init));
        assert forall|k: int| 0 <= k < bodies.len() implies #[trigger] next_bodies(bodies)[k] == round_body(bodies[k]).0 by {
            if k < init.len() {
                assert(next_bodies(init)[k] == round_body(init[k]).0);
            }
        }
        assert forall|k: int| 0 <= k < bodies.len() implies
            #[trigger] round_results(bodies)[k] == (round_body(bodies[k]).0, round_body(bodies[k]).1) by {
            if k < init.len() {
                assert(round_results(init)[k] == (round_body(init[k]).0, round_body(init[k]).1));
            }
        }
        if exists|k: int| 0 <= k < bodies.len() && #[trigger] shrinks(bodies[k]) {
            let k = choose|k: int| 0 <= k < bodies.len() && #[trigger] shrinks(bodies[k]);
            if k < init.len() {
                assert(init[k] == bodies[k]);
                assert(shrinks(init[k]));
            } else {
                assert(bodies[k] == bodies.last());
            }
        }
        assert forall|k: int| 0 <= k < nb.len() implies 3 * (#[trigger] nb[k]).len() + 3 < u32::MAX by {
            if k < init.len() {
                assert(nb[k] == next_bodies(init)[k]);
            }
        }
        assert forall|k: int| 0 <= k < nb.len() implies !(#[trigger] remap_prefix(nb[k], nb[k].len())).2 by {
            if k < init.len() {
                assert(nb[k] == next_bodies(init)[k]);
            }
        }
    }
}

/// When no body changes under propagation or elimination, a round keeps
/// every body's measure.
proof fn lemma_round_weight_kept(bodies: Seq<Seq<TacInst>>)
    requires
        small(bodies),
        forall|k: int| 0 <= k < bodies.len() ==> !(#[trigger] shrinks(bodies[k])),
    ensures
        total_weight(next_bodies(bodies)) == total_weight(bodies),
    decreases bodies.len(),
{
    if bodies.len() > 0 {
        let init = bodies.drop_last();
        assert forall|k: int| 0 <= k < init.len() implies 3 * (#[trigger] init[k]).len() + 3 < u32::MAX by {
            assert(init[k] == bodies[k]);
        }
        assert forall|k: int| 0 <= k < init.len() implies !(#[trigger] shrinks(init[k])) by {
            assert(init[k] == bodies[k]);
        }
        lemma_round_weight_kept(init);
        let b = bodies.last();
        assert(!shrinks(b)) by {
            assert(b == bodies[bodies.len() - 1]);
        }
        lemma_propagate_weight(b);
        lemma_dce_weight(b, b.len());
        assert(b.take(b.len() as int) =~= b);
        lemma_remap_weight(b, b.len());
        assert(next_bodies(bodies).drop_last() =~= next_bodies(init));
    }
}

/// The rounds stop: each round that changes something lowers the bound on
/// the rounds left.
#[via_fn]
proof fn lemma_optimized_decreases(bodies: Seq<Seq<TacInst>>) {
    if small(bodies) && round_changed(bodies) {
        lemma_rounds_decrease(bodies);
    }
}

/// Each round that changes something lowers the bound on the rounds left.
pub proof fn lemma_rounds_decrease(bodies: Seq<Seq<TacInst>>)
    requires
        small(bodies),
        round_changed(bodies),
    ensures
        rounds_bound(next_bodies(bodies)) < rounds_bound(bodies),
{
    {
        lemma_round_all(bodies);
        let nb = next_bodies(bodies);
        if !(exists|k: int| 0 <= k < bodies.len() && #[trigger] shrinks(bodies[k])) {
            lemma_round_weight_kept(bodies);
            let k = choose|k: int| 0 <= k < bodies.len() && (#[trigger] round_body(bodies[k])).2;
            assert(!shrinks(bodies[k]));
            lemma_round_body(bodies[k]);
            assert(!all_renumbered(bodies));
        }
    }
}

/// The rounds keep bodies short.
pub proof fn lemma_next_small(bodies: Seq<Seq<TacInst>>)
    requires
        small(bodies),
    ensures
        small(next_bodies(bodies)),
        next_bodies(bodies).len() == bodies.len(),
        forall|k: int| 0 <= k < bodies.len() ==> #[trigger] next_bodies(bodies)[k] == round_body(bodies[k]).0,
        round_results(bodies).len() == bodies.len(),
        forall|k: int| 0 <= k < bodies.len() ==>
            #[trigger] round_results(bodies)[k] == (round_body(bodies[k]).0, round_body(bodies[k]).1),
{
    lemma_round_all(bodies);
}

/// Once the rounds stop, the bodies are a fixpoint of the three passes:
/// on each body they leave, propagation, elimination and renumbering each
/// report no change, and its count of temporaries is the one renumbering
/// gives it.
pub proof fn lemma_optimized_fixpoint(bodies: Seq<Seq<TacInst>>)
    requires
        small(bodies),
    ensures
        optimized(bodies).len() == bodies.len(),
        forall|k: int| 0 <= k < bodies.len() ==> {
            let (b, n) = #[trigger] optimized(bodies)[k];
            &&& !propagate(b).1
            &&& !dce_prefix(b, b.len()).1
            &&& !remap_prefix(b, b.len()).2
            &&& remap_prefix(b, b.len()).1.next == n
        },
    decreases rounds_bound(bodies),
{
    lemma_next_small(bodies);
    if round_changed(bodies) {
        lemma_rounds_decrease(bodies);
        lemma_optimized_fixpoint(next_bodies(bodies));
    } else {
        assert forall|k: int| 0 <= k < bodies.len() implies {
            let (b, n) = #[trigger] optimized(bodies)[k];
            &&& !propagate(b).1
            &&& !dce_prefix(b, b.len()).1
            &&& !remap_prefix(b, b.len()).2
            &&& remap_prefix(b, b.len()).1.next == n
        } by {
            let b0 = bodies[k];
            assert(!round_body(b0).2);
            lemma_propagate_weight(b0);
            let b1 = propagate(b0).0;
            assert(b1 == b0);
            lemma_dce_weight(b1, b1.len());
            assert(b1.take(b1.len() as int) =~= b1);
            let b2 = dce_prefix(b1, b1.len()).0;
            assert(b2 == b0);
            lemma_remap_unchanged(b2, b2.len());
            assert(b2.take(b2.len() as int) =~= b2);
            assert(round_body(b0).0 == b0);
            assert(optimized(bodies)[k] == (b0, round_body(b0).1));
        }
    }
}

} // verus!
