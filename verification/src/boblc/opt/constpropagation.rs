//! Folding known constants into their uses: a call through a just-loaded
//! function becomes a direct call, and a parameter that is a just-loaded
//! integer or string is passed as such; the loads are then removed.
use vstd::prelude::*;
use crate::boblc::rast::FuncId;
use crate::boblc::tac::{take_funcs_reversed, TacFunction, TacInst, TacProgram, Temp};
use super::weight::{inst_weight, lemma_weight_push, lemma_weight_take, weight};

verus! {

/// A constant that a temporary is known to hold.
pub enum Constant {
    Int(u16),
    Str(String),
    Func(FuncId),
}

/// The constant a temporary holds and the output index of the instruction
/// that loaded it: the latest entry for the temporary.
pub open spec fn known_get(known: Seq<(Temp, Constant, int)>, t: Temp) -> Option<(Constant, int)>
    decreases known.len(),
{
    if known.len() == 0 {
        None
    } else if known.last().0 == t {
        Some((known.last().1, known.last().2))
    } else {
        known_get(known.drop_last(), t)
    }
}

/// The entries without those of temporary `t`.
pub open spec fn known_forget(known: Seq<(Temp, Constant, int)>, t: Temp) -> Seq<(Temp, Constant, int)>
    decreases known.len(),
{
    if known.len() == 0 {
        known
    } else if known.last().0 == t {
        known_forget(known.drop_last(), t)
    } else {
        known_forget(known.drop_last(), t).push(known.last())
    }
}

/// The temporary an instruction writes, among those this pass tracks.
pub open spec fn assigned_temp(inst: TacInst) -> Option<Temp> {
    match inst {
        TacInst::ConstInt { dst, .. } | TacInst::ConstStr { dst, .. } | TacInst::Copy { dst, .. }
        | TacInst::LoadVar { dst, .. } | TacInst::Load { dst, .. } | TacInst::AddrOf { dst, .. }
        | TacInst::LoadFunc { dst, .. } | TacInst::BinOp { dst, .. } | TacInst::UnOp { dst, .. }
        | TacInst::Call { dst: Some(dst), .. } | TacInst::CallDirect { dst: Some(dst), .. }
        | TacInst::AsmOut { dst, .. } => Some(dst),
        _ => None,
    }
}

/// The known constants, the output indices to remove, the output so far, and
/// whether anything changed.
pub struct CpState {
    pub known: Seq<(Temp, Constant, int)>,
    pub remove: Seq<int>,
    pub output: Seq<TacInst>,
    pub changed: bool,
}

/// The state after one more instruction.
pub open spec fn cp_step(st: CpState, inst: TacInst) -> CpState {
    let idx = st.output.len() as int;
    match inst {
        TacInst::ConstInt { dst, val } => CpState { known: st.known.push((dst, Constant::Int(val), idx)), output: st.output.push(inst), ..st },
        TacInst::ConstStr { dst, val } => CpState { known: st.known.push((dst, Constant::Str(val), idx)), output: st.output.push(inst), ..st },
        TacInst::LoadFunc { dst, func } => CpState { known: st.known.push((dst, Constant::Func(func), idx)), output: st.output.push(inst), ..st },
        TacInst::Call { dst, callee } => {
            let known = match dst {
                Some(d) => known_forget(st.known, d),
                None => st.known,
            };
            match known_get(st.known, callee) {
                Some((Constant::Func(f), li)) => CpState {
                    known,
                    remove: st.remove.push(li),
                    output: st.output.push(TacInst::CallDirect { dst, callee: f }),
                    changed: true,
                },
                _ => CpState { known, output: st.output.push(inst), ..st },
            }
        },
        TacInst::Param(t) => match known_get(st.known, t) {
            Some((Constant::Int(v), li)) => CpState { remove: st.remove.push(li), output: st.output.push(TacInst::ParamInt(v)), changed: true, ..st },
            Some((Constant::Str(v), li)) => CpState { remove: st.remove.push(li), output: st.output.push(TacInst::ParamStr(v)), changed: true, ..st },
            _ => CpState { output: st.output.push(inst), ..st },
        },
        _ => CpState {
            known: match assigned_temp(inst) {
                Some(d) => known_forget(st.known, d),
                None => st.known,
            },
            output: st.output.push(inst),
            ..st
        },
    }
}

/// The state after the first `k` instructions of a body.
pub open spec fn cp_prefix(body: Seq<TacInst>, k: nat) -> CpState
    decreases k,
{
    if k == 0 || k > body.len() {
        CpState { known: Seq::empty(), remove: Seq::empty(), output: Seq::empty(), changed: false }
    } else {
        cp_step(cp_prefix(body, (k - 1) as nat), body[k - 1])
    }
}

/// The first `k` outputs whose index is not to be removed.
pub open spec fn kept_outputs(output: Seq<TacInst>, remove: Seq<int>, k: nat) -> Seq<TacInst>
    decreases k,
{
    if k == 0 || k > output.len() {
        Seq::empty()
    } else if remove.contains(k - 1) {
        kept_outputs(output, remove, (k - 1) as nat)
    } else {
        kept_outputs(output, remove, (k - 1) as nat).push(output[k - 1])
    }
}

/// The body after propagation and whether anything changed.
pub open spec fn propagate(body: Seq<TacInst>) -> (Seq<TacInst>, bool) {
    let st = cp_prefix(body, body.len());
    (kept_outputs(st.output, st.remove, st.output.len()), st.changed)
}

/// The same constant, built anew.
fn copy_constant(c: &Constant) -> (r: Constant)
    ensures
        r == *c,
{
    match c {
        Constant::Int(v) => Constant::Int(*v),
        Constant::Str(s) => Constant::Str(s.clone()),
        Constant::Func(f) => Constant::Func(*f),
    }
}

/// The constant of temporary `t` and its load index.
fn lookup_known(known: &Vec<(Temp, Constant, usize)>, t: Temp) -> (r: Option<(Constant, usize)>)
    ensures
        known_get(known_view(known@), t) == match r {
            Some((c, i)) => Some((c, i as int)),
            None => None::<(Constant, int)>,
        },
{
    let mut j: usize = known.len();
    assert(known_view(known@).take(j as int) =~= known_view(known@));
    while j > 0
        invariant
            j <= known@.len(),
            known_get(known_view(known@), t) == known_get(known_view(known@).take(j as int), t),
        decreases j,
    {
        assert(known_view(known@).take(j as int).drop_last() =~= known_view(known@).take(j - 1));
        if known[j - 1].0 == t {
            return Some((copy_constant(&known[j - 1].1), known[j - 1].2));
        }
        j -= 1;
    }
    None
}

/// The mathematical form of the known constants.
pub open spec fn known_view(v: Seq<(Temp, Constant, usize)>) -> Seq<(Temp, Constant, int)> {
    v.map_values(|e: (Temp, Constant, usize)| (e.0, e.1, e.2 as int))
}

/// The known constants without those of `t`.
fn forget(known: &Vec<(Temp, Constant, usize)>, t: Temp) -> (r: Vec<(Temp, Constant, usize)>)
    ensures
        known_view(r@) == known_forget(known_view(known@), t),
{
    let ghost kv = known_view(known@);
    let mut out: Vec<(Temp, Constant, usize)> = Vec::new();
    let mut j: usize = 0;
    while j < known.len()
        invariant
            kv == known_view(known@),
            j <= known@.len(),
            known_view(out@) == known_forget(kv.take(j as int), t),
        decreases known@.len() - j,
    {
        assert(kv.take(j + 1).drop_last() =~= kv.take(j as int));
        if known[j].0 != t {
            let ghost o0 = known_view(out@);
            out.push((known[j].0, copy_constant(&known[j].1), known[j].2));
            assert(known_view(out@) =~= o0.push(kv[j as int]));
        }
        j += 1;
    }
    assert(kv.take(j as int) =~= kv);
    out
}


/// The temporary an instruction writes, among those this pass tracks.
fn assigned_temps(inst: &TacInst) -> (r: Option<Temp>)
    ensures
        r == assigned_temp(*inst),
{
    match inst {
        TacInst::ConstInt { dst, .. } | TacInst::ConstStr { dst, .. } | TacInst::Copy { dst, .. }
        | TacInst::LoadVar { dst, .. } | TacInst::Load { dst, .. } | TacInst::AddrOf { dst, .. }
        | TacInst::LoadFunc { dst, .. } | TacInst::BinOp { dst, .. } | TacInst::UnOp { dst, .. }
        | TacInst::AsmOut { dst, .. } => Some(*dst),
        TacInst::Call { dst: Some(dst), .. } | TacInst::CallDirect { dst: Some(dst), .. } => Some(*dst),
        _ => None,
    }
}

/// Whether index `i` is in the list.
fn contains_index(remove: &Vec<usize>, i: usize) -> (r: bool)
    ensures
        r == remove@.map_values(|x: usize| x as int).contains(i as int),
{
    let ghost rv = remove@.map_values(|x: usize| x as int);
    let mut j: usize = 0;
    while j < remove.len()
        invariant
            rv == remove@.map_values(|x: usize| x as int),
            j <= remove@.len(),
            forall|k: int| 0 <= k < j ==> rv[k] != i as int,
        decreases remove@.len() - j,
    {
        if remove[j] == i {
            assert(rv[j as int] == i as int);
            return true;
        }
        j += 1;
    }
    false
}

/// Propagates known constants through one body; whether anything changed.
fn optimize_body(body: Vec<TacInst>) -> (r: (Vec<TacInst>, bool))
    ensures
        (r.0@, r.1) == propagate(body@),
{
    let ghost b0 = body@;
    let mut rest = body;
    let mut rev: Vec<TacInst> = Vec::new();
    assert(rest@ + rev@.reverse() =~= b0);
    while rest.len() > 0
        invariant
            rest@ + rev@.reverse() == b0,
        decreases rest@.len(),
    {
        let ghost r0 = rest@;
        let ghost v0 = rev@;
        let inst = rest.pop().unwrap();
        rev.push(inst);
        assert(rest@ + rev@.reverse() =~= r0.drop_last() + (v0.push(r0.last())).reverse());
        assert(r0.drop_last() + (v0.push(r0.last())).reverse() =~= r0 + v0.reverse());
    }
    assert(rev@.reverse() =~= b0);
    let mut known: Vec<(Temp, Constant, usize)> = Vec::new();
    let mut remove: Vec<usize> = Vec::new();
    let mut output: Vec<TacInst> = Vec::new();
    let mut changed = false;
    let ghost mut done: nat = 0;
    proof {
        assert(known_view(known@) =~= Seq::<(Temp, Constant, int)>::empty());
        assert(remove@.map_values(|x: usize| x as int) =~= Seq::<int>::empty());
    }
    loop
        invariant
            rev@.reverse() == b0.skip(done as int),
            rev@.len() + done == b0.len(),
            cp_prefix(b0, done) == (CpState {
                known: known_view(known@),
                remove: remove@.map_values(|x: usize| x as int),
                output: output@,
                changed,
            }),
        ensures
            done == b0.len(),
            cp_prefix(b0, done) == (CpState {
                known: known_view(known@),
                remove: remove@.map_values(|x: usize| x as int),
                output: output@,
                changed,
            }),
        decreases rev@.len(),
    {
        let ghost v0 = rev@;
        let ghost st = cp_prefix(b0, done);
        let ghost rm0 = remove@.map_values(|x: usize| x as int);
        match rev.pop() {
            None => {
                break;
            }
            Some(inst) => {
                assert(v0.reverse()[0] == v0.last());
                assert(inst == b0[done as int]);
                assert(rev@.reverse() =~= b0.skip(done as int + 1)) by {
                    assert(rev@ =~= v0.drop_last());
                    assert(v0.drop_last().reverse() =~= v0.reverse().drop_first());
                }
                let idx = output.len();
                match inst {
                    TacInst::ConstInt { dst, val } => {
                        known.push((dst, Constant::Int(val), idx));
                        output.push(TacInst::ConstInt { dst, val });
                    }
                    TacInst::ConstStr { dst, val } => {
                        known.push((dst, Constant::Str(val.clone()), idx));
                        output.push(TacInst::ConstStr { dst, val });
                    }
                    TacInst::LoadFunc { dst, func } => {
                        known.push((dst, Constant::Func(func), idx));
                        output.push(TacInst::LoadFunc { dst, func });
                    }
                    TacInst::Call { dst, callee } => {
                        match lookup_known(&known, callee) {
                            Some((Constant::Func(func), load_index)) => {
                                output.push(TacInst::CallDirect { dst, callee: func });
                                remove.push(load_index);
                                changed = true;
                            }
                            _ => {
                                output.push(TacInst::Call { dst, callee });
                            }
                        }
                        if let Some(d) = dst {
                            known = forget(&known, d);
                        }
                    }
                    TacInst::Param(temp) => {
                        match lookup_known(&known, temp) {
                            Some((Constant::Int(value), load_index)) => {
                                output.push(TacInst::ParamInt(value));
                                remove.push(load_index);
                                changed = true;
                            }
                            Some((Constant::Str(value), load_index)) => {
                                output.push(TacInst::ParamStr(value));
                                remove.push(load_index);
                                changed = true;
                            }
                            _ => {
                                output.push(TacInst::Param(temp));
                            }
                        }
                    }
                    other => {
                        if let Some(d) = assigned_temps(&other) {
                            known = forget(&known, d);
                        }
                        output.push(other);
                    }
                }
                proof {
                    assert(known_view(known@) =~= cp_step(st, b0[done as int]).known);
                    assert(remove@.map_values(|x: usize| x as int) =~= cp_step(st, b0[done as int]).remove);
                    done = done + 1;
                }
            }
        }
    }
    let ghost fin = cp_prefix(b0, b0.len());
    let mut kept: Vec<TacInst> = Vec::new();
    let mut outs = output;
    let mut rev2: Vec<TacInst> = Vec::new();
    let ghost o0 = outs@;
    let total = outs.len();
    assert(outs@ + rev2@.reverse() =~= o0);
    while outs.len() > 0
        invariant
            outs@ + rev2@.reverse() == o0,
        decreases outs@.len(),
    {
        let ghost r0 = outs@;
        let ghost v0 = rev2@;
        let inst = outs.pop().unwrap();
        rev2.push(inst);
        assert(outs@ + rev2@.reverse() =~= r0.drop_last() + (v0.push(r0.last())).reverse());
        assert(r0.drop_last() + (v0.push(r0.last())).reverse() =~= r0 + v0.reverse());
    }
    assert(rev2@.reverse() =~= o0);
    let mut i: usize = 0;
    loop
        invariant
            o0 == fin.output,
            total == o0.len(),
            fin.remove == remove@.map_values(|x: usize| x as int),
            rev2@.reverse() == o0.skip(i as int),
            rev2@.len() + i == o0.len(),
            kept@ == kept_outputs(o0, fin.remove, i as nat),
        ensures
            i == o0.len(),
            kept@ == kept_outputs(o0, fin.remove, i as nat),
        decreases rev2@.len(),
    {
        let ghost v0 = rev2@;
        match rev2.pop() {
            None => {
                break;
            }
            Some(inst) => {
                assert(v0.reverse()[0] == v0.last());
                assert(inst == o0[i as int]);
                assert(rev2@.reverse() =~= o0.skip(i + 1)) by {
                    assert(rev2@ =~= v0.drop_last());
                    assert(v0.drop_last().reverse() =~= v0.reverse().drop_first());
                }
                if !contains_index(&remove, i) {
                    kept.push(inst);
                }
                i += 1;
            }
        }
    }
    (kept, changed)
}

/// Propagates known constants through every function; whether anything changed.
pub fn optimize(program: &mut TacProgram) -> (changed: bool)
    ensures
        final(program).funcs@.len() == old(program).funcs@.len(),
        forall|k: int| 0 <= k < old(program).funcs@.len() ==> {
            let f = #[trigger] old(program).funcs@[k];
            final(program).funcs@[k] == TacFunction { body: final(program).funcs@[k].body, ..f }
                && final(program).funcs@[k].body@ == propagate(f.body@).0
        },
        changed == exists|k: int| 0 <= k < old(program).funcs@.len()
            && (#[trigger] propagate(old(program).funcs@[k].body@)).1,
{
    let ghost fs0 = program.funcs@;
    let mut rev = take_funcs_reversed(program);
    let mut changed = false;
    let mut out: Vec<TacFunction> = Vec::new();
    loop
        invariant
            rev@.reverse() == fs0.skip(out@.len() as int),
            rev@.len() + out@.len() == fs0.len(),
            forall|k: int| 0 <= k < out@.len() ==> {
                let f = #[trigger] fs0[k];
                out@[k] == TacFunction { body: out@[k].body, ..f } && out@[k].body@ == propagate(f.body@).0
            },
            changed == exists|k: int| 0 <= k < out@.len() && (#[trigger] propagate(fs0[k].body@)).1,
        ensures
            out@.len() == fs0.len(),
            forall|k: int| 0 <= k < out@.len() ==> {
                let f = #[trigger] fs0[k];
                out@[k] == TacFunction { body: out@[k].body, ..f } && out@[k].body@ == propagate(f.body@).0
            },
            changed == exists|k: int| 0 <= k < out@.len() && (#[trigger] propagate(fs0[k].body@)).1,
        decreases rev@.len(),
    {
        let ghost v0 = rev@;
        let ghost n = out@.len() as int;
        match rev.pop() {
            None => {
                break;
            }
            Some(f) => {
                assert(v0.reverse()[0] == v0.last());
                assert(f == fs0[n]);
                assert(rev@.reverse() =~= fs0.skip(n + 1)) by {
                    assert(rev@ =~= v0.drop_last());
                    assert(v0.drop_last().reverse() =~= v0.reverse().drop_first());
                }
                let TacFunction { id, params, num_temps, locals, body } = f;
                let (new_body, c) = optimize_body(body);
                let ghost ch0 = changed;
                changed = changed || c;
                out.push(TacFunction { id, params, num_temps, locals, body: new_body });
                proof {
                    if c {
                        assert(propagate(fs0[n].body@).1);
                    }
                    if ch0 {
                        let j = choose|j: int| 0 <= j < n && (#[trigger] propagate(fs0[j].body@)).1;
                        assert(propagate(fs0[j].body@).1);
                    }
                }
            }
        }
    }
    program.funcs = out;
    changed
}


/// Propagation keeps one output per instruction, lowers the measure of the
/// outputs by at least one when it changes anything, and otherwise outputs
/// the instructions themselves and removes nothing.
proof fn lemma_cp_prefix_weight(body: Seq<TacInst>, k: nat)
    requires
        k <= body.len(),
    ensures
        cp_prefix(body, k).output.len() == k,
        weight(cp_prefix(body, k).output) + (if cp_prefix(body, k).changed { 1nat } else { 0 }) <= weight(body.take(k as int)),
        !cp_prefix(body, k).changed ==> cp_prefix(body, k).output == body.take(k as int) && cp_prefix(body, k).remove.len() == 0,
    decreases k,
{
    if k == 0 {
        assert(body.take(0) =~= Seq::<TacInst>::empty());
    } else {
        lemma_cp_prefix_weight(body, (k - 1) as nat);
        let st = cp_prefix(body, (k - 1) as nat);
        let st2 = cp_prefix(body, k);
        let inst = body[k - 1];
        lemma_weight_take(body, k - 1);
        lemma_weight_push(st.output, st2.output.last());
        assert(st2.output == st.output.push(st2.output.last()));
        if !st2.changed {
            assert(body.take(k as int) =~= body.take(k - 1).push(inst));
        }
    }
}

/// Keeping only some outputs never lengthens them nor raises their measure,
/// and keeps them all when none is to be removed.
proof fn lemma_kept_outputs_weight(output: Seq<TacInst>, remove: Seq<int>, k: nat)
    requires
        k <= output.len(),
    ensures
        weight(kept_outputs(output, remove, k)) <= weight(output.take(k as int)),
        kept_outputs(output, remove, k).len() <= k,
        remove.len() == 0 ==> kept_outputs(output, remove, k) == output.take(k as int),
    decreases k,
{
    if k == 0 {
        assert(output.take(0) =~= Seq::<TacInst>::empty());
    } else {
        lemma_kept_outputs_weight(output, remove, (k - 1) as nat);
        lemma_weight_take(output, k - 1);
        let kept = kept_outputs(output, remove, (k - 1) as nat);
        lemma_weight_push(kept, output[k - 1]);
        if remove.len() == 0 {
            assert(!remove.contains(k - 1));
            assert(output.take(k as int) =~= output.take(k - 1).push(output[k - 1]));
        }
    }
}

/// Propagation never lengthens a body and lowers its measure whenever it
/// changes anything; when it changes nothing the body stays as it was.
pub proof fn lemma_propagate_weight(body: Seq<TacInst>)
    ensures
        weight(propagate(body).0) + (if propagate(body).1 { 1nat } else { 0 }) <= weight(body),
        propagate(body).0.len() <= body.len(),
        !propagate(body).1 ==> propagate(body).0 == body,
{
    lemma_cp_prefix_weight(body, body.len());
    let st = cp_prefix(body, body.len());
    lemma_kept_outputs_weight(st.output, st.remove, st.output.len());
    assert(body.take(body.len() as int) =~= body);
    assert(st.output.take(st.output.len() as int) =~= st.output);
}

} // verus!
