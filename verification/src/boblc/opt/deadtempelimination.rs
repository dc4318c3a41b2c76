//! Removing instructions whose only effect is a temporary that nothing reads.
use vstd::prelude::*;
use crate::boblc::tac::{take_funcs_reversed, TacFunction, TacInst, TacProgram, Temp};
use super::weight::{inst_weight, lemma_weight_push, lemma_weight_take, weight};

verus! {

/// Whether an instruction reads temporary `t`.
pub open spec fn reads(inst: TacInst, t: Temp) -> bool {
    match inst {
        TacInst::Copy { src, .. } => src == t,
        TacInst::StoreVar { src, .. } => src == t,
        TacInst::Load { addr, .. } => addr == t,
        TacInst::Store { addr, src } => addr == t || src == t,
        TacInst::BinOp { lhs, rhs, .. } => lhs == t || rhs == t,
        TacInst::UnOp { src, .. } => src == t,
        TacInst::Param(p) => p == t,
        TacInst::Call { callee, .. } => callee == t,
        TacInst::JumpIfZero { cond, .. } => cond == t,
        TacInst::Return(Some(v)) => v == t,
        TacInst::AsmIn { src, .. } => src == t,
        _ => false,
    }
}

/// Whether any instruction of a body reads temporary `t`.
pub open spec fn read_in(body: Seq<TacInst>, t: Temp) -> bool {
    exists|k: int| 0 <= k < body.len() && reads(#[trigger] body[k], t)
}

/// The temporary an instruction computes without any other effect.
pub open spec fn pure_dst_spec(inst: TacInst) -> Option<Temp> {
    match inst {
        TacInst::ConstInt { dst, .. } | TacInst::ConstStr { dst, .. } | TacInst::Copy { dst, .. }
        | TacInst::LoadVar { dst, .. } | TacInst::Load { dst, .. } | TacInst::AddrOf { dst, .. }
        | TacInst::LoadFunc { dst, .. } | TacInst::BinOp { dst, .. } | TacInst::UnOp { dst, .. }
        | TacInst::AsmOut { dst, .. } => Some(dst),
        _ => None,
    }
}

/// What becomes of one instruction of `body`: dropped (`None`) when it is a
/// placeholder or only computes an unread temporary, a call without its
/// result when the result is unread, else itself; and whether it changed.
pub open spec fn dce_inst(body: Seq<TacInst>, inst: TacInst) -> (Option<TacInst>, bool) {
    match inst {
        TacInst::Dummy => (None, true),
        TacInst::Call { dst: Some(d), callee } =>
            (Some(TacInst::Call { dst: if read_in(body, d) { Some(d) } else { None }, callee }), !read_in(body, d)),
        TacInst::CallDirect { dst: Some(d), callee } =>
            (Some(TacInst::CallDirect { dst: if read_in(body, d) { Some(d) } else { None }, callee }), !read_in(body, d)),
        _ => match pure_dst_spec(inst) {
            Some(d) => if read_in(body, d) { (Some(inst), false) } else { (None, true) },
            None => (Some(inst), false),
        },
    }
}

/// The first `k` instructions of `body` after elimination, and whether any changed.
pub open spec fn dce_prefix(body: Seq<TacInst>, k: nat) -> (Seq<TacInst>, bool)
    decreases k,
{
    if k == 0 || k > body.len() {
        (Seq::empty(), false)
    } else {
        let (kept, ch) = dce_prefix(body, (k - 1) as nat);
        let (o, c) = dce_inst(body, body[k - 1]);
        (match o {
            Some(i) => kept.push(i),
            None => kept,
        }, ch || c)
    }
}

/// Pushes the temporaries an instruction reads.
fn collect_used_temps(inst: &TacInst, used: &mut Vec<Temp>)
    ensures
        forall|t: Temp| final(used)@.contains(t) <==> (old(used)@.contains(t) || reads(*inst, t)),
{
    let ghost u0 = used@;
    match inst {
        TacInst::Copy { src, .. } => used.push(*src),
        TacInst::StoreVar { src, .. } => used.push(*src),
        TacInst::Load { addr, .. } => used.push(*addr),
        TacInst::Store { addr, src } => {
            used.push(*addr);
            used.push(*src);
        }
        TacInst::BinOp { lhs, rhs, .. } => {
            used.push(*lhs);
            used.push(*rhs);
        }
        TacInst::UnOp { src, .. } => used.push(*src),
        TacInst::Param(t) => used.push(*t),
        TacInst::Call { callee, .. } => used.push(*callee),
        TacInst::JumpIfZero { cond, .. } => used.push(*cond),
        TacInst::Return(Some(t)) => used.push(*t),
        TacInst::AsmIn { src, .. } => used.push(*src),
        _ => {},
    }
    assert forall|t: Temp| used@.contains(t) <==> (u0.contains(t) || reads(*inst, t)) by {
        if used@.contains(t) {
            let j = choose|j: int| 0 <= j < used@.len() && used@[j] == t;
            if j >= u0.len() {
                assert(reads(*inst, t));
            } else {
                assert(u0[j] == t);
            }
        }
        if u0.contains(t) {
            let j = choose|j: int| 0 <= j < u0.len() && u0[j] == t;
            assert(used@[j] == t);
        }
        if reads(*inst, t) {
            assert(used@.contains(t)) by {
                if used@.len() == u0.len() + 2 {
                    if used@[u0.len() as int] == t {} else { assert(used@[u0.len() as int + 1] == t); }
                } else {
                    assert(used@[u0.len() as int] == t);
                }
            }
        }
    }
}

/// Whether temporary `t` is in the list.
fn contains_temp(used: &Vec<Temp>, t: Temp) -> (r: bool)
    ensures
        r == used@.contains(t),
{
    let mut j: usize = 0;
    while j < used.len()
        invariant
            j <= used@.len(),
            forall|k: int| 0 <= k < j ==> used@[k] != t,
        decreases used@.len() - j,
    {
        if used[j] == t {
            return true;
        }
        j += 1;
    }
    false
}

/// Eliminates dead temporaries from one body; whether anything changed.
fn optimize_body(insts: Vec<TacInst>) -> (r: (bool, Vec<TacInst>))
    ensures
        (r.1@, r.0) == dce_prefix(insts@, insts@.len()),
{
    let ghost body = insts@;
    let mut used: Vec<Temp> = Vec::new();
    let mut k: usize = 0;
    while k < insts.len()
        invariant
            body == insts@,
            k <= insts@.len(),
            forall|t: Temp| used@.contains(t) <==> exists|j: int| 0 <= j < k && reads(#[trigger] insts@[j], t),
        decreases insts@.len() - k,
    {
        let ghost u0 = used@;
        collect_used_temps(&insts[k], &mut used);
        assert forall|t: Temp| used@.contains(t) <==> exists|j: int| 0 <= j < k + 1 && reads(#[trigger] insts@[j], t) by {
            if reads(insts@[k as int], t) {
                assert(0 <= k < k + 1 && reads(insts@[k as int], t));
            }
            if exists|j: int| 0 <= j < k + 1 && reads(#[trigger] insts@[j], t) {
                let j = choose|j: int| 0 <= j < k + 1 && reads(#[trigger] insts@[j], t);
                if j < k {
                    assert(u0.contains(t));
                }
            }
        }
        k += 1;
    }
    let mut rest = insts;
    let mut rev: Vec<TacInst> = Vec::new();
    while rest.len() > 0
        invariant
            rest@ + rev@.reverse() == body,
        decreases rest@.len(),
    {
        let ghost r0 = rest@;
        let ghost v0 = rev@;
        let inst = rest.pop().unwrap();
        rev.push(inst);
        assert(rest@ + rev@.reverse() =~= r0.drop_last() + (v0.push(r0.last())).reverse());
        assert(r0.drop_last() + (v0.push(r0.last())).reverse() =~= r0 + v0.reverse());
    }
    assert(rev@.reverse() =~= body);
    let mut changed = false;
    let mut kept: Vec<TacInst> = Vec::new();
    let ghost mut done: nat = 0;
    loop
        invariant
            rev@.reverse() == body.skip(done as int),
            done <= body.len(),
            rev@.len() + done == body.len(),
            (kept@, changed) == dce_prefix(body, done),
            forall|t: Temp| used@.contains(t) <==> read_in(body, t),
        ensures
            done == body.len(),
            (kept@, changed) == dce_prefix(body, done),
        decreases rev@.len(),
    {
        let ghost v0 = rev@;
        match rev.pop() {
            None => {
                assert(body.skip(done as int).len() == 0);
                break;
            }
            Some(inst) => {
                assert(inst == v0.last());
                assert(v0.reverse()[0] == v0.last());
                assert(inst == body[done as int]);
                assert(rev@.reverse() =~= body.skip(done as int + 1)) by {
                    assert(rev@ =~= v0.drop_last());
                    assert(v0.drop_last().reverse() =~= v0.reverse().drop_first());
                }
                match inst {
                    TacInst::Dummy => {
                        changed = true;
                    }
                    TacInst::Call { dst: Some(dst), callee } => {
                        let u = contains_temp(&used, dst);
                        changed = changed || !u;
                        kept.push(TacInst::Call { dst: if u { Some(dst) } else { None }, callee });
                    }
                    TacInst::CallDirect { dst: Some(dst), callee } => {
                        let u = contains_temp(&used, dst);
                        changed = changed || !u;
                        kept.push(TacInst::CallDirect { dst: if u { Some(dst) } else { None }, callee });
                    }
                    other => {
                        match pure_dst(&other) {
                            Some(dst) => {
                                if contains_temp(&used, dst) {
                                    kept.push(other);
                                } else {
                                    changed = true;
                                }
                            }
                            None => kept.push(other),
                        }
                    }
                }
                proof { done = done + 1; }
            }
        }
    }
    (changed, kept)
}

/// The temporary an instruction computes without any other effect.
fn pure_dst(inst: &TacInst) -> (r: Option<Temp>)
    ensures
        r == pure_dst_spec(*inst),
{
    match inst {
        TacInst::ConstInt { dst, .. } | TacInst::ConstStr { dst, .. } | TacInst::Copy { dst, .. }
        | TacInst::LoadVar { dst, .. } | TacInst::Load { dst, .. } | TacInst::AddrOf { dst, .. }
        | TacInst::LoadFunc { dst, .. } | TacInst::BinOp { dst, .. } | TacInst::UnOp { dst, .. }
        | TacInst::AsmOut { dst, .. } => Some(*dst),
        _ => None,
    }
}

/// Removes, from every function, placeholder instructions and instructions
/// that only compute a temporary nothing reads, and drops unread call
/// results; whether anything changed.
pub fn optimize(program: &mut TacProgram) -> (changed: bool)
    ensures
        final(program).funcs@.len() == old(program).funcs@.len(),
        forall|k: int| 0 <= k < old(program).funcs@.len() ==> {
            let f = #[trigger] old(program).funcs@[k];
            final(program).funcs@[k] == TacFunction { body: final(program).funcs@[k].body, ..f }
                && final(program).funcs@[k].body@ == dce_prefix(f.body@, f.body@.len()).0
        },
        changed == exists|k: int| 0 <= k < old(program).funcs@.len()
            && (#[trigger] dce_prefix(old(program).funcs@[k].body@, old(program).funcs@[k].body@.len())).1,
{
    let ghost fs0 = program.funcs@;
    let mut rev = take_funcs_reversed(program);
    let mut changed = false;
    let mut out: Vec<TacFunction> = Vec::new();
    loop
        invariant
            rev@.reverse() == fs0.skip(out@.len() as int),
            out@.len() <= fs0.len(),
            rev@.len() + out@.len() == fs0.len(),
            forall|k: int| 0 <= k < out@.len() ==> {
                let f = #[trigger] fs0[k];
                out@[k] == TacFunction { body: out@[k].body, ..f }
                    && out@[k].body@ == dce_prefix(f.body@, f.body@.len()).0
            },
            changed == exists|k: int| 0 <= k < out@.len() && (#[trigger] dce_prefix(fs0[k].body@, fs0[k].body@.len())).1,
        ensures
            out@.len() == fs0.len(),
            forall|k: int| 0 <= k < out@.len() ==> {
                let f = #[trigger] fs0[k];
                out@[k] == TacFunction { body: out@[k].body, ..f }
                    && out@[k].body@ == dce_prefix(f.body@, f.body@.len()).0
            },
            changed == exists|k: int| 0 <= k < out@.len() && (#[trigger] dce_prefix(fs0[k].body@, fs0[k].body@.len())).1,
        decreases rev@.len(),
    {
        let ghost v0 = rev@;
        let ghost n = out@.len() as int;
        match rev.pop() {
            None => {
                assert(fs0.skip(n).len() == 0);
                break;
            }
            Some(f) => {
                assert(f == v0.last());
                assert(v0.reverse()[0] == v0.last());
                assert(f == fs0[n]);
                assert(rev@.reverse() =~= fs0.skip(n + 1)) by {
                    assert(rev@ =~= v0.drop_last());
                    assert(v0.drop_last().reverse() =~= v0.reverse().drop_first());
                }
                let TacFunction { id, params, num_temps, locals, body } = f;
                let (c, new_body) = optimize_body(body);
                let ghost ch0 = changed;
                changed = changed || c;
                out.push(TacFunction { id, params, num_temps, locals, body: new_body });
                proof {
                    if c {
                        assert(dce_prefix(fs0[n].body@, fs0[n].body@.len()).1);
                    }
                    if ch0 {
                        let j = choose|j: int| 0 <= j < n && (#[trigger] dce_prefix(fs0[j].body@, fs0[j].body@.len())).1;
                        assert(dce_prefix(fs0[j].body@, fs0[j].body@.len()).1);
                    }
                }
            }
        }
    }
    program.funcs = out;
    changed
}


/// Elimination never lengthens a body and lowers its measure whenever it
/// changes anything; when it changes nothing the body stays as it was.
pub proof fn lemma_dce_weight(body: Seq<TacInst>, k: nat)
    requires
        k <= body.len(),
    ensures
        weight(dce_prefix(body, k).0) + (if dce_prefix(body, k).1 { 1nat } else { 0 }) <= weight(body.take(k as int)),
        dce_prefix(body, k).0.len() <= k,
        !dce_prefix(body, k).1 ==> dce_prefix(body, k).0 == body.take(k as int),
    decreases k,
{
    if k == 0 {
        assert(body.take(0) =~= Seq::<TacInst>::empty());
    } else {
        lemma_dce_weight(body, (k - 1) as nat);
        let (kept, ch) = dce_prefix(body, (k - 1) as nat);
        let inst = body[k - 1];
        lemma_weight_take(body, k - 1);
        if let Some(i) = dce_inst(body, inst).0 {
            lemma_weight_push(kept, i);
        }
        if !dce_prefix(body, k).1 {
            assert(body.take(k as int) =~= body.take(k - 1).push(inst));
        }
    }
}

} // verus!
