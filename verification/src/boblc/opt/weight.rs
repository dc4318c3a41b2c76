//! A measure of how much the optimizations can still do to a body: its
//! length, the calls and parameters that could still be folded, and the
//! call results that could still be dropped. Each pass that changes a body
//! lowers it, and no pass raises it.
use vstd::prelude::*;
use crate::boblc::tac::TacInst;

verus! {

/// Whether propagation could still fold an instruction: a call through a
/// temporary, or a parameter passed from a temporary.
pub open spec fn foldable(i: TacInst) -> bool {
    i is Call || i is Param
}

/// Whether an instruction is a call that keeps its result.
pub open spec fn keeps_result(i: TacInst) -> bool {
    match i {
        TacInst::Call { dst: Some(_), .. } | TacInst::CallDirect { dst: Some(_), .. } => true,
        _ => false,
    }
}

/// The measure of one instruction.
pub open spec fn inst_weight(i: TacInst) -> nat {
    1 + (if foldable(i) { 1nat } else { 0 }) + (if keeps_result(i) { 1nat } else { 0 })
}

/// The measure of a body: the sum over its instructions.
pub open spec fn weight(b: Seq<TacInst>) -> nat
    decreases b.len(),
{
    if b.len() == 0 {
        0
    } else {
        weight(b.drop_last()) + inst_weight(b.last())
    }
}

/// The measure of a body grows by an instruction's measure when it is pushed.
pub proof fn lemma_weight_push(b: Seq<TacInst>, i: TacInst)
    ensures
        weight(b.push(i)) == weight(b) + inst_weight(i),
{
    assert(b.push(i).drop_last() =~= b);
}

/// The measure of a prefix one longer.
pub proof fn lemma_weight_take(b: Seq<TacInst>, k: int)
    requires
        0 <= k < b.len(),
    ensures
        weight(b.take(k + 1)) == weight(b.take(k)) + inst_weight(b[k]),
{
    assert(b.take(k + 1).drop_last() =~= b.take(k));
}

/// The measure never falls below the length.
pub proof fn lemma_weight_len(b: Seq<TacInst>)
    ensures
        weight(b) >= b.len(),
    decreases b.len(),
{
    if b.len() > 0 {
        lemma_weight_len(b.drop_last());
    }
}

} // verus!
