//! Renumbering the temporaries of each function densely, in order of first
//! appearance, so that the count of temporaries is as small as it can be.
use vstd::prelude::*;
use crate::boblc::tac::{take_funcs_reversed, TacFunction, TacInst, TacProgram, Temp};
use super::weight::{inst_weight, lemma_weight_push, lemma_weight_take, weight};

verus! {

/// The renaming built so far, as (old, new) pairs, and the next new number.
pub struct RemapState {
    pub pairs: Seq<(Temp, Temp)>,
    pub next: nat,
}

/// The new name of `t` in a list of pairs, if it has one.
pub open spec fn renamed(pairs: Seq<(Temp, Temp)>, t: Temp) -> Option<Temp>
    decreases pairs.len(),
{
    if pairs.len() == 0 {
        None
    } else if pairs[0].0 == t {
        Some(pairs[0].1)
    } else {
        renamed(pairs.drop_first(), t)
    }
}

/// The new name of `t` and the renaming after it: its existing name, or the
/// next number.
pub open spec fn remap_spec(t: Temp, st: RemapState) -> (Temp, RemapState) {
    match renamed(st.pairs, t) {
        Some(n) => (n, st),
        None => (Temp(st.next as u32), RemapState { pairs: st.pairs.push((t, Temp(st.next as u32))), next: st.next + 1 }),
    }
}

/// An instruction with its temporaries renamed in the order they are
/// written (destination first), and the renaming after it.
pub open spec fn remap_inst_spec(inst: TacInst, st: RemapState) -> (TacInst, RemapState) {
    match inst {
        TacInst::ConstInt { dst, val } => { let (d, s1) = remap_spec(dst, st); (TacInst::ConstInt { dst: d, val }, s1) },
        TacInst::ConstStr { dst, val } => { let (d, s1) = remap_spec(dst, st); (TacInst::ConstStr { dst: d, val }, s1) },
        TacInst::Copy { dst, src } => {
            let (d, s1) = remap_spec(dst, st);
            let (s, s2) = remap_spec(src, s1);
            (TacInst::Copy { dst: d, src: s }, s2)
        },
        TacInst::LoadVar { dst, var } => { let (d, s1) = remap_spec(dst, st); (TacInst::LoadVar { dst: d, var }, s1) },
        TacInst::StoreVar { var, src } => { let (s, s1) = remap_spec(src, st); (TacInst::StoreVar { var, src: s }, s1) },
        TacInst::Load { dst, addr } => {
            let (d, s1) = remap_spec(dst, st);
            let (a, s2) = remap_spec(addr, s1);
            (TacInst::Load { dst: d, addr: a }, s2)
        },
        TacInst::Store { addr, src } => {
            let (a, s1) = remap_spec(addr, st);
            let (s, s2) = remap_spec(src, s1);
            (TacInst::Store { addr: a, src: s }, s2)
        },
        TacInst::AddrOf { dst, var } => { let (d, s1) = remap_spec(dst, st); (TacInst::AddrOf { dst: d, var }, s1) },
        TacInst::LoadFunc { dst, func } => { let (d, s1) = remap_spec(dst, st); (TacInst::LoadFunc { dst: d, func }, s1) },
        TacInst::BinOp { dst, op, lhs, rhs } => {
            let (d, s1) = remap_spec(dst, st);
            let (l, s2) = remap_spec(lhs, s1);
            let (r, s3) = remap_spec(rhs, s2);
            (TacInst::BinOp { dst: d, op, lhs: l, rhs: r }, s3)
        },
        TacInst::UnOp { dst, op, src } => {
            let (d, s1) = remap_spec(dst, st);
            let (s, s2) = remap_spec(src, s1);
            (TacInst::UnOp { dst: d, op, src: s }, s2)
        },
        TacInst::Param(t) => { let (n, s1) = remap_spec(t, st); (TacInst::Param(n), s1) },
        TacInst::Call { dst, callee } => {
            let (d, s1) = match dst {
                Some(d0) => { let (d1, s) = remap_spec(d0, st); (Some(d1), s) },
                None => (None, st),
            };
            let (c, s2) = remap_spec(callee, s1);
            (TacInst::Call { dst: d, callee: c }, s2)
        },
        TacInst::CallDirect { dst, callee } => {
            let (d, s1) = match dst {
                Some(d0) => { let (d1, s) = remap_spec(d0, st); (Some(d1), s) },
                None => (None, st),
            };
            (TacInst::CallDirect { dst: d, callee }, s1)
        },
        TacInst::JumpIfZero { cond, target } => { let (c, s1) = remap_spec(cond, st); (TacInst::JumpIfZero { cond: c, target }, s1) },
        TacInst::Return(Some(t)) => { let (n, s1) = remap_spec(t, st); (TacInst::Return(Some(n)), s1) },
        TacInst::AsmIn { dst, src } => { let (s, s1) = remap_spec(src, st); (TacInst::AsmIn { dst, src: s }, s1) },
        TacInst::AsmOut { dst, src } => { let (d, s1) = remap_spec(dst, st); (TacInst::AsmOut { dst: d, src }, s1) },
        _ => (inst, st),
    }
}

/// The first `k` instructions renamed, the renaming after them, and whether
/// any instruction changed.
pub open spec fn remap_prefix(body: Seq<TacInst>, k: nat) -> (Seq<TacInst>, RemapState, bool)
    decreases k,
{
    if k == 0 || k > body.len() {
        (Seq::empty(), RemapState { pairs: Seq::empty(), next: 0 }, false)
    } else {
        let (out, st, ch) = remap_prefix(body, (k - 1) as nat);
        let (i, st2) = remap_inst_spec(body[k - 1], st);
        (out.push(i), st2, ch || i != body[k - 1])
    }
}

/// The new name of `t`, given the next number if it has none yet.
fn remap_temp(temp: Temp, remap: &mut Vec<(Temp, Temp)>, next: &mut u32) -> (r: Temp)
    requires
        *old(next) < u32::MAX,
    ensures
        ({
            let (n, st) = remap_spec(temp, RemapState { pairs: old(remap)@, next: *old(next) as nat });
            r == n && final(remap)@ == st.pairs && *final(next) as nat == st.next
        }),
{
    let mut j: usize = 0;
    assert(remap@.skip(0) =~= remap@);
    while j < remap.len()
        invariant
            j <= remap@.len(),
            renamed(remap@, temp) == renamed(remap@.skip(j as int), temp),
        decreases remap@.len() - j,
    {
        assert(remap@.skip(j as int).drop_first() =~= remap@.skip(j + 1));
        if remap[j].0 == temp {
            return remap[j].1;
        }
        j += 1;
    }
    let result = Temp(*next);
    *next = *next + 1;
    remap.push((temp, result));
    result
}


/// An instruction with its temporaries renamed; whether it changed.
fn remap_instruction(inst: TacInst, remap: &mut Vec<(Temp, Temp)>, next: &mut u32) -> (r: (bool, TacInst))
    requires
        *old(next) as nat + 3 < u32::MAX,
    ensures
        ({
            let (i, st) = remap_inst_spec(inst, RemapState { pairs: old(remap)@, next: *old(next) as nat });
            r.1 == i && r.0 == (i != inst) && final(remap)@ == st.pairs && *final(next) as nat == st.next
        }),
        *final(next) <= *old(next) + 3,
{
    match inst {
        TacInst::ConstInt { dst, val } => {
            let d = remap_temp(dst, remap, next);
            (d != dst, TacInst::ConstInt { dst: d, val })
        }
        TacInst::ConstStr { dst, val } => {
            let d = remap_temp(dst, remap, next);
            (d != dst, TacInst::ConstStr { dst: d, val })
        }
        TacInst::Copy { dst, src } => {
            let d = remap_temp(dst, remap, next);
            let s = remap_temp(src, remap, next);
            (d != dst || s != src, TacInst::Copy { dst: d, src: s })
        }
        TacInst::LoadVar { dst, var } => {
            let d = remap_temp(dst, remap, next);
            (d != dst, TacInst::LoadVar { dst: d, var })
        }
        TacInst::StoreVar { var, src } => {
            let s = remap_temp(src, remap, next);
            (s != src, TacInst::StoreVar { var, src: s })
        }
        TacInst::Load { dst, addr } => {
            let d = remap_temp(dst, remap, next);
            let a = remap_temp(addr, remap, next);
            (d != dst || a != addr, TacInst::Load { dst: d, addr: a })
        }
        TacInst::Store { addr, src } => {
            let a = remap_temp(addr, remap, next);
            let s = remap_temp(src, remap, next);
            (a != addr || s != src, TacInst::Store { addr: a, src: s })
        }
        TacInst::AddrOf { dst, var } => {
            let d = remap_temp(dst, remap, next);
            (d != dst, TacInst::AddrOf { dst: d, var })
        }
        TacInst::LoadFunc { dst, func } => {
            let d = remap_temp(dst, remap, next);
            (d != dst, TacInst::LoadFunc { dst: d, func })
        }
        TacInst::BinOp { dst, op, lhs, rhs } => {
            let d = remap_temp(dst, remap, next);
            let l = remap_temp(lhs, remap, next);
            let r = remap_temp(rhs, remap, next);
            (d != dst || l != lhs || r != rhs, TacInst::BinOp { dst: d, op, lhs: l, rhs: r })
        }
        TacInst::UnOp { dst, op, src } => {
            let d = remap_temp(dst, remap, next);
            let s = remap_temp(src, remap, next);
            (d != dst || s != src, TacInst::UnOp { dst: d, op, src: s })
        }
        TacInst::Param(t) => {
            let n = remap_temp(t, remap, next);
            (n != t, TacInst::Param(n))
        }
        TacInst::Call { dst, callee } => {
            let (d, dc) = match dst {
                Some(d0) => {
                    let d1 = remap_temp(d0, remap, next);
                    (Some(d1), d1 != d0)
                }
                None => (None, false),
            };
            let c = remap_temp(callee, remap, next);
            (dc || c != callee, TacInst::Call { dst: d, callee: c })
        }
        TacInst::CallDirect { dst, callee } => {
            let (d, dc) = match dst {
                Some(d0) => {
                    let d1 = remap_temp(d0, remap, next);
                    (Some(d1), d1 != d0)
                }
                None => (None, false),
            };
            (dc, TacInst::CallDirect { dst: d, callee })
        }
        TacInst::JumpIfZero { cond, target } => {
            let c = remap_temp(cond, remap, next);
            (c != cond, TacInst::JumpIfZero { cond: c, target })
        }
        TacInst::Return(Some(t)) => {
            let n = remap_temp(t, remap, next);
            (n != t, TacInst::Return(Some(n)))
        }
        TacInst::AsmIn { dst, src } => {
            let s = remap_temp(src, remap, next);
            (s != src, TacInst::AsmIn { dst, src: s })
        }
        TacInst::AsmOut { dst, src } => {
            let d = remap_temp(dst, remap, next);
            (d != dst, TacInst::AsmOut { dst: d, src })
        }
        other => (false, other),
    }
}


/// Renumbering changes no instruction count and takes at most three new
/// numbers per instruction.
pub proof fn lemma_remap_prefix_bounds(body: Seq<TacInst>, k: nat)
    requires
        k <= body.len(),
    ensures
        remap_prefix(body, k).0.len() == k,
        remap_prefix(body, k).1.next <= 3 * k,
    decreases k,
{
    if k > 0 {
        lemma_remap_prefix_bounds(body, (k - 1) as nat);
        let st = remap_prefix(body, (k - 1) as nat).1;
        lemma_remap_inst_bound(body[k - 1], st);
    }
}

proof fn lemma_remap_inst_bound(inst: TacInst, st: RemapState)
    ensures
        remap_inst_spec(inst, st).1.next <= st.next + 3,
{
}

/// Renumbers the temporaries of one body in place; whether any instruction
/// changed, and how many temporaries the body now uses.
fn optimize_body(body: &mut Vec<TacInst>) -> (r: (bool, u32))
    requires
        3 * old(body)@.len() + 3 < u32::MAX,
    ensures
        ({
            let (out, st, ch) = remap_prefix(old(body)@, old(body)@.len());
            final(body)@ == out && r.0 == ch && r.1 as nat == st.next
        }),
{
    let ghost b0 = body@;
    let mut rest: Vec<TacInst> = Vec::new();
    std::mem::swap(&mut rest, body);
    let mut rev: Vec<TacInst> = Vec::new();
    assert(rest@ + rev@.reverse() =~= b0);
    while rest.len() > 0
        invariant
            rest@ + rev@.reverse() == b0,
        decreases rest@.len(),
    {
        let ghost r0 = rest@;
        let ghost v0 = rev@;
        let inst = rest.pop().unwrap();
        rev.push(inst);
        assert(rest@ + rev@.reverse() =~= r0.drop_last() + (v0.push(r0.last())).reverse());
        assert(r0.drop_last() + (v0.push(r0.last())).reverse() =~= r0 + v0.reverse());
    }
    assert(rev@.reverse() =~= b0);
    let mut remap: Vec<(Temp, Temp)> = Vec::new();
    let mut next: u32 = 0;
    let mut changed = false;
    let mut out: Vec<TacInst> = Vec::new();
    loop
        invariant
            3 * b0.len() + 3 < u32::MAX,
            rev@.reverse() == b0.skip(out@.len() as int),
            rev@.len() + out@.len() == b0.len(),
            ({
                let (o, st, ch) = remap_prefix(b0, out@.len() as nat);
                out@ == o && remap@ == st.pairs && next as nat == st.next && changed == ch
            }),
        ensures
            out@.len() == b0.len(),
            ({
                let (o, st, ch) = remap_prefix(b0, b0.len());
                out@ == o && next as nat == st.next && changed == ch
            }),
        decreases rev@.len(),
    {
        let ghost v0 = rev@;
        let ghost n = out@.len() as int;
        proof { lemma_remap_prefix_bounds(b0, n as nat); }
        match rev.pop() {
            None => {
                break;
            }
            Some(inst) => {
                assert(v0.reverse()[0] == v0.last());
                assert(inst == b0[n]);
                assert(rev@.reverse() =~= b0.skip(n + 1)) by {
                    assert(rev@ =~= v0.drop_last());
                    assert(v0.drop_last().reverse() =~= v0.reverse().drop_first());
                }
                let (c, new_inst) = remap_instruction(inst, &mut remap, &mut next);
                changed = changed || c;
                out.push(new_inst);
            }
        }
    }
    *body = out;
    (changed, next)
}

/// Renumbers the temporaries of every function densely and records how many
/// each uses; whether any instruction changed.
pub fn optimize(program: &mut TacProgram) -> (changed: bool)
    requires
        forall|k: int| 0 <= k < old(program).funcs@.len() ==> 3 * (#[trigger] old(program).funcs@[k]).body@.len() + 3 < u32::MAX,
    ensures
        final(program).funcs@.len() == old(program).funcs@.len(),
        forall|k: int| 0 <= k < old(program).funcs@.len() ==> {
            let f = #[trigger] old(program).funcs@[k];
            let (out, st, _) = remap_prefix(f.body@, f.body@.len());
            final(program).funcs@[k] == TacFunction { body: final(program).funcs@[k].body, num_temps: st.next as u32, ..f }
                && final(program).funcs@[k].body@ == out
        },
        changed == exists|k: int| 0 <= k < old(program).funcs@.len()
            && (#[trigger] remap_prefix(old(program).funcs@[k].body@, old(program).funcs@[k].body@.len())).2,
{
    let ghost fs0 = program.funcs@;
    let mut rev = take_funcs_reversed(program);
    let mut changed = false;
    let mut out: Vec<TacFunction> = Vec::new();
    loop
        invariant
            forall|k: int| 0 <= k < fs0.len() ==> 3 * (#[trigger] fs0[k]).body@.len() + 3 < u32::MAX,
            rev@.reverse() == fs0.skip(out@.len() as int),
            rev@.len() + out@.len() == fs0.len(),
            forall|k: int| 0 <= k < out@.len() ==> {
                let f = #[trigger] fs0[k];
                let (o, st, _) = remap_prefix(f.body@, f.body@.len());
                out@[k] == TacFunction { body: out@[k].body, num_temps: st.next as u32, ..f } && out@[k].body@ == o
            },
            changed == exists|k: int| 0 <= k < out@.len() && (#[trigger] remap_prefix(fs0[k].body@, fs0[k].body@.len())).2,
        ensures
            out@.len() == fs0.len(),
            forall|k: int| 0 <= k < out@.len() ==> {
                let f = #[trigger] fs0[k];
                let (o, st, _) = remap_prefix(f.body@, f.body@.len());
                out@[k] == TacFunction { body: out@[k].body, num_temps: st.next as u32, ..f } && out@[k].body@ == o
            },
            changed == exists|k: int| 0 <= k < out@.len() && (#[trigger] remap_prefix(fs0[k].body@, fs0[k].body@.len())).2,
        decreases rev@.len(),
    {
        let ghost v0 = rev@;
        let ghost n = out@.len() as int;
        match rev.pop() {
            None => {
                break;
            }
            Some(f) => {
                assert(v0.reverse()[0] == v0.last());
                assert(f == fs0[n]);
                assert(rev@.reverse() =~= fs0.skip(n + 1)) by {
                    assert(rev@ =~= v0.drop_last());
                    assert(v0.drop_last().reverse() =~= v0.reverse().drop_first());
                }
                let TacFunction { id, params, num_temps, locals, mut body } = f;
                let (c, num) = optimize_body(&mut body);
                let ghost ch0 = changed;
                changed = changed || c;
                out.push(TacFunction { id, params, num_temps: num, locals, body });
                proof {
                    if c {
                        assert(remap_prefix(fs0[n].body@, fs0[n].body@.len()).2);
                    }
                    if ch0 {
                        let j = choose|j: int| 0 <= j < n && (#[trigger] remap_prefix(fs0[j].body@, fs0[j].body@.len())).2;
                        assert(remap_prefix(fs0[j].body@, fs0[j].body@.len()).2);
                    }
                }
            }
        }
    }
    program.funcs = out;
    changed
}


/// The renaming of a body already numbered densely: each of the first `n`
/// numbers to itself.
pub open spec fn identity_pairs(n: nat) -> Seq<(Temp, Temp)> {
    Seq::new(n, |j: int| (Temp(j as u32), Temp(j as u32)))
}

/// The renaming state that leaves the first `st.next` numbers as they are.
pub open spec fn canonical(st: RemapState) -> RemapState {
    RemapState { pairs: identity_pairs(st.next), next: st.next }
}

/// Whether every new name of a renaming is below its next number.
pub open spec fn names_below(st: RemapState) -> bool {
    forall|j: int| 0 <= j < st.pairs.len() ==> (#[trigger] st.pairs[j]).1.0 < st.next
}

/// `renamed` finds the first pair for a temporary.
proof fn lemma_renamed_at(pairs: Seq<(Temp, Temp)>, t: Temp, j: int)
    requires
        0 <= j < pairs.len(),
        pairs[j].0 == t,
        forall|i: int| 0 <= i < j ==> pairs[i].0 != t,
    ensures
        renamed(pairs, t) == Some(pairs[j].1),
    decreases j,
{
    if j > 0 {
        lemma_renamed_at(pairs.drop_first(), t, j - 1);
    }
}

/// `renamed` finds nothing for a temporary without a pair.
proof fn lemma_renamed_none(pairs: Seq<(Temp, Temp)>, t: Temp)
    requires
        forall|i: int| 0 <= i < pairs.len() ==> pairs[i].0 != t,
    ensures
        renamed(pairs, t) is None,
    decreases pairs.len(),
{
    if pairs.len() > 0 {
        lemma_renamed_none(pairs.drop_first(), t);
    }
}

/// What `renamed` finds is the new name of some pair.
proof fn lemma_renamed_in(pairs: Seq<(Temp, Temp)>, t: Temp)
    ensures
        renamed(pairs, t) matches Some(n) ==> exists|j: int| 0 <= j < pairs.len() && (#[trigger] pairs[j]).1 == n,
    decreases pairs.len(),
{
    if pairs.len() > 0 && pairs[0].0 != t {
        lemma_renamed_in(pairs.drop_first(), t);
        if let Some(n) = renamed(pairs, t) {
            let j = choose|j: int| 0 <= j < pairs.drop_first().len() && (#[trigger] pairs.drop_first()[j]).1 == n;
            assert(pairs[j + 1].1 == n);
        }
    }
}

/// Renaming a temporary and then renaming its new name in the canonical
/// state gives the new name back.
proof fn lemma_remap_spec_canon(t: Temp, st: RemapState)
    requires
        names_below(st),
        st.next + 1 < u32::MAX,
    ensures
        remap_spec(remap_spec(t, st).0, canonical(st)) == (remap_spec(t, st).0, canonical(remap_spec(t, st).1)),
        names_below(remap_spec(t, st).1),
        remap_spec(t, st).1.next <= st.next + 1,
{
    let ids = identity_pairs(st.next);
    match renamed(st.pairs, t) {
        Some(n) => {
            lemma_renamed_in(st.pairs, t);
            let j = choose|j: int| 0 <= j < st.pairs.len() && (#[trigger] st.pairs[j]).1 == n;
            assert(st.pairs[j].1.0 < st.next);
            assert(ids[n.0 as int].0 == n);
            lemma_renamed_at(ids, n, n.0 as int);
        },
        None => {
            let n = Temp(st.next as u32);
            assert forall|i: int| 0 <= i < ids.len() implies ids[i].0 != n by {
                assert(ids[i].0 == Temp(i as u32));
            }
            lemma_renamed_none(ids, n);
            let s1 = remap_spec(t, st).1;
            assert(ids.push((n, n)) =~= identity_pairs(st.next + 1));
            assert forall|j: int| 0 <= j < s1.pairs.len() implies (#[trigger] s1.pairs[j]).1.0 < s1.next by {
                if j < st.pairs.len() {
                    assert(s1.pairs[j] == st.pairs[j]);
                }
            }
        },
    }
}

/// Renaming an instruction and then renaming the result in the canonical
/// state gives the result back.
proof fn lemma_remap_inst_canon(inst: TacInst, st: RemapState)
    requires
        names_below(st),
        st.next + 3 < u32::MAX,
    ensures
        remap_inst_spec(remap_inst_spec(inst, st).0, canonical(st)) == (remap_inst_spec(inst, st).0, canonical(remap_inst_spec(inst, st).1)),
        names_below(remap_inst_spec(inst, st).1),
{
    match inst {
        TacInst::ConstInt { dst, .. } | TacInst::ConstStr { dst, .. } | TacInst::LoadVar { dst, .. }
        | TacInst::AddrOf { dst, .. } | TacInst::LoadFunc { dst, .. } | TacInst::AsmOut { dst, .. } => {
            lemma_remap_spec_canon(dst, st);
        },
        TacInst::StoreVar { src: t, .. } | TacInst::Param(t) | TacInst::JumpIfZero { cond: t, .. }
        | TacInst::AsmIn { src: t, .. } => {
            lemma_remap_spec_canon(t, st);
        },
        TacInst::Return(Some(t)) => {
            lemma_remap_spec_canon(t, st);
        },
        TacInst::Copy { dst: a, src: b } | TacInst::Load { dst: a, addr: b } | TacInst::Store { addr: a, src: b }
        | TacInst::UnOp { dst: a, src: b, .. } => {
            lemma_remap_spec_canon(a, st);
            let s1 = remap_spec(a, st).1;
            lemma_remap_spec_canon(b, s1);
        },
        TacInst::BinOp { dst, lhs, rhs, .. } => {
            lemma_remap_spec_canon(dst, st);
            let s1 = remap_spec(dst, st).1;
            lemma_remap_spec_canon(lhs, s1);
            let s2 = remap_spec(lhs, s1).1;
            lemma_remap_spec_canon(rhs, s2);
        },
        TacInst::Call { dst, callee } => {
            let s1 = match dst {
                Some(d0) => {
                    lemma_remap_spec_canon(d0, st);
                    remap_spec(d0, st).1
                },
                None => st,
            };
            lemma_remap_spec_canon(callee, s1);
        },
        TacInst::CallDirect { dst, .. } => {
            if let Some(d0) = dst {
                lemma_remap_spec_canon(d0, st);
            }
        },
        _ => {},
    }
}

/// The first `j` renamed instructions do not depend on the rest.
proof fn lemma_remap_prefix_take(body: Seq<TacInst>, j: nat, k: nat)
    requires
        j <= k <= body.len(),
    ensures
        remap_prefix(body, k).0.take(j as int) == remap_prefix(body, j).0,
    decreases k,
{
    lemma_remap_prefix_bounds(body, k);
    if j < k {
        lemma_remap_prefix_take(body, j, (k - 1) as nat);
        lemma_remap_prefix_bounds(body, (k - 1) as nat);
        assert(remap_prefix(body, k).0.take(j as int) =~= remap_prefix(body, (k - 1) as nat).0.take(j as int));
    } else {
        assert(remap_prefix(body, k).0.take(j as int) =~= remap_prefix(body, k).0);
    }
}

/// Renaming the renamed body step by step reproduces it, in the canonical
/// state of the first renaming.
proof fn lemma_remap_prefix_canon(body: Seq<TacInst>, k: nat)
    requires
        k <= body.len(),
        3 * body.len() + 3 < u32::MAX,
    ensures
        names_below(remap_prefix(body, k).1),
        remap_prefix(remap_prefix(body, body.len()).0, k)
            == (remap_prefix(body, k).0, canonical(remap_prefix(body, k).1), false),
    decreases k,
{
    let o = remap_prefix(body, body.len()).0;
    lemma_remap_prefix_bounds(body, body.len());
    if k == 0 {
        assert(identity_pairs(0) =~= Seq::<(Temp, Temp)>::empty());
    } else {
        lemma_remap_prefix_canon(body, (k - 1) as nat);
        lemma_remap_prefix_bounds(body, (k - 1) as nat);
        let st = remap_prefix(body, (k - 1) as nat).1;
        lemma_remap_inst_canon(body[k - 1], st);
        lemma_remap_prefix_take(body, k, body.len());
        lemma_remap_prefix_bounds(body, k);
        assert(o[k - 1] == remap_prefix(body, k).0[k - 1]);
    }
}

/// Renumbering is idempotent: renumbering a renumbered body changes
/// nothing, reports no change and counts as many temporaries.
pub proof fn lemma_remap_idempotent(body: Seq<TacInst>)
    requires
        3 * body.len() + 3 < u32::MAX,
    ensures
        remap_prefix(body, body.len()).0.len() == body.len(),
        remap_prefix(remap_prefix(body, body.len()).0, body.len()).0 == remap_prefix(body, body.len()).0,
        !remap_prefix(remap_prefix(body, body.len()).0, body.len()).2,
        remap_prefix(remap_prefix(body, body.len()).0, body.len()).1.next == remap_prefix(body, body.len()).1.next,
{
    lemma_remap_prefix_bounds(body, body.len());
    lemma_remap_prefix_canon(body, body.len());
}


/// Renaming keeps the measure of an instruction.
proof fn lemma_remap_inst_weight(inst: TacInst, st: RemapState)
    ensures
        inst_weight(remap_inst_spec(inst, st).0) == inst_weight(inst),
{
}

/// Renumbering keeps the measure of a body.
pub proof fn lemma_remap_weight(body: Seq<TacInst>, k: nat)
    requires
        k <= body.len(),
    ensures
        weight(remap_prefix(body, k).0) == weight(body.take(k as int)),
    decreases k,
{
    if k == 0 {
        assert(body.take(0) =~= Seq::<TacInst>::empty());
    } else {
        lemma_remap_weight(body, (k - 1) as nat);
        let (out, st, _) = remap_prefix(body, (k - 1) as nat);
        lemma_remap_inst_weight(body[k - 1], st);
        lemma_weight_push(out, remap_inst_spec(body[k - 1], st).0);
        lemma_weight_take(body, k - 1);
    }
}

/// Whether a renaming numbers the temporaries it has met densely and
/// one to one: the `j`-th temporary met is named `Temp(j)`, no temporary is
/// met twice, and the next number is how many were met.
pub open spec fn dense_renaming(st: RemapState) -> bool {
    &&& st.pairs.len() == st.next
    &&& forall|j: int| 0 <= j < st.pairs.len() ==> (#[trigger] st.pairs[j]).1 == Temp(j as u32)
    &&& forall|i: int, j: int| 0 <= i < j < st.pairs.len() ==> #[trigger] st.pairs[i].0 != #[trigger] st.pairs[j].0
}

/// A temporary without a new name is none of those met.
proof fn lemma_unnamed_unmet(pairs: Seq<(Temp, Temp)>, t: Temp)
    ensures
        renamed(pairs, t) is None ==> forall|j: int| 0 <= j < pairs.len() ==> (#[trigger] pairs[j]).0 != t,
    decreases pairs.len(),
{
    if pairs.len() > 0 && pairs[0].0 != t {
        lemma_unnamed_unmet(pairs.drop_first(), t);
        if renamed(pairs, t) is None {
            assert forall|j: int| 0 <= j < pairs.len() implies (#[trigger] pairs[j]).0 != t by {
                if j > 0 {
                    assert(pairs[j] == pairs.drop_first()[j - 1]);
                }
            }
        }
    }
}

/// Naming one temporary keeps a renaming dense.
proof fn lemma_remap_spec_dense(t: Temp, st: RemapState)
    requires
        dense_renaming(st),
        st.next + 1 < u32::MAX,
    ensures
        dense_renaming(remap_spec(t, st).1),
        remap_spec(t, st).1.next <= st.next + 1,
{
    lemma_unnamed_unmet(st.pairs, t);
    if renamed(st.pairs, t) is None {
        let s1 = remap_spec(t, st).1;
        assert forall|j: int| 0 <= j < s1.pairs.len() implies (#[trigger] s1.pairs[j]).1 == Temp(j as u32) by {
            if j < st.pairs.len() {
                assert(s1.pairs[j] == st.pairs[j]);
            }
        }
        assert forall|i: int, j: int| 0 <= i < j < s1.pairs.len() implies #[trigger] s1.pairs[i].0 != #[trigger] s1.pairs[j].0 by {
            assert(s1.pairs[i] == st.pairs[i]);
            if j < st.pairs.len() {
                assert(s1.pairs[j] == st.pairs[j]);
            }
        }
    }
}

/// Renaming one instruction keeps a renaming dense.
proof fn lemma_remap_inst_dense(inst: TacInst, st: RemapState)
    requires
        dense_renaming(st),
        st.next + 3 < u32::MAX,
    ensures
        dense_renaming(remap_inst_spec(inst, st).1),
{
    match inst {
        TacInst::ConstInt { dst: a, .. } | TacInst::ConstStr { dst: a, .. } | TacInst::LoadVar { dst: a, .. }
        | TacInst::AddrOf { dst: a, .. } | TacInst::LoadFunc { dst: a, .. } | TacInst::AsmOut { dst: a, .. }
        | TacInst::StoreVar { src: a, .. } | TacInst::Param(a) | TacInst::JumpIfZero { cond: a, .. }
        | TacInst::AsmIn { src: a, .. } => {
            lemma_remap_spec_dense(a, st);
        },
        TacInst::Return(Some(a)) => {
            lemma_remap_spec_dense(a, st);
        },
        TacInst::Copy { dst: a, src: b } | TacInst::Load { dst: a, addr: b } | TacInst::Store { addr: a, src: b }
        | TacInst::UnOp { dst: a, src: b, .. } => {
            lemma_remap_spec_dense(a, st);
            lemma_remap_spec_dense(b, remap_spec(a, st).1);
        },
        TacInst::BinOp { dst, lhs, rhs, .. } => {
            lemma_remap_spec_dense(dst, st);
            let s1 = remap_spec(dst, st).1;
            lemma_remap_spec_dense(lhs, s1);
            lemma_remap_spec_dense(rhs, remap_spec(lhs, s1).1);
        },
        TacInst::Call { dst, callee } => {
            let s1 = match dst {
                Some(d0) => {
                    lemma_remap_spec_dense(d0, st);
                    remap_spec(d0, st).1
                },
                None => st,
            };
            lemma_remap_spec_dense(callee, s1);
        },
        TacInst::CallDirect { dst, .. } => {
            if let Some(d0) = dst {
                lemma_remap_spec_dense(d0, st);
            }
        },
        _ => {},
    }
}

/// Renumbering names the temporaries of a body densely and one to one, in
/// the order they are first met (within an instruction, its destination
/// first): the `j`-th temporary met becomes `Temp(j)`, two temporaries never
/// share a new name, and the count of temporaries is how many were met.
pub proof fn lemma_remap_dense(body: Seq<TacInst>, k: nat)
    requires
        k <= body.len(),
        3 * body.len() + 3 < u32::MAX,
    ensures
        dense_renaming(remap_prefix(body, k).1),
        forall|i: int, j: int| 0 <= i < j < remap_prefix(body, k).1.pairs.len()
            ==> #[trigger] remap_prefix(body, k).1.pairs[i].1 != #[trigger] remap_prefix(body, k).1.pairs[j].1,
    decreases k,
{
    if k > 0 {
        lemma_remap_dense(body, (k - 1) as nat);
        lemma_remap_prefix_bounds(body, (k - 1) as nat);
        let st = remap_prefix(body, (k - 1) as nat).1;
        lemma_remap_inst_dense(body[k - 1], st);
    }
    let st = remap_prefix(body, k).1;
    assert forall|i: int, j: int| 0 <= i < j < st.pairs.len() implies #[trigger] st.pairs[i].1 != #[trigger] st.pairs[j].1 by {
        lemma_remap_prefix_bounds(body, k);
        assert(st.pairs[i].1 == Temp(i as u32));
        assert(st.pairs[j].1 == Temp(j as u32));
    }
}

/// Renumbering that reports no change gives the body back.
pub proof fn lemma_remap_unchanged(body: Seq<TacInst>, k: nat)
    requires
        k <= body.len(),
    ensures
        !remap_prefix(body, k).2 ==> remap_prefix(body, k).0 == body.take(k as int),
    decreases k,
{
    if k == 0 {
        assert(body.take(0) =~= Seq::<TacInst>::empty());
    } else {
        lemma_remap_unchanged(body, (k - 1) as nat);
        if !remap_prefix(body, k).2 {
            assert(body.take(k as int) =~= body.take(k - 1).push(body[k - 1]));
        }
    }
}

} // verus!
