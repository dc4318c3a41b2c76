//! The types of the Bob language.
use vstd::prelude::*;
use crate::text::string_of_chars;
use super::archive::literalpool::push_chars;

verus! {

broadcast use vstd::std_specs::vec::group_vec_axioms;

/// A type: an integer, a pointer, a function, or the unit type.
#[derive(Debug, PartialEq, Eq)]
pub enum Ty {
    Int,
    Ptr(Box<Ty>),
    Func(Vec<Ty>, Box<Ty>),
    Unit,
}

/// The mathematical form of a [`Ty`].
pub enum TyModel {
    Int,
    Ptr(Box<TyModel>),
    Func(Seq<TyModel>, Box<TyModel>),
    Unit,
}

/// The mathematical form of a type: the same tree, with sequences for lists.
pub open spec fn ty_model(t: Ty) -> TyModel
    decreases t, 1nat,
{
    match t {
        Ty::Int => TyModel::Int,
        Ty::Ptr(inner) => TyModel::Ptr(Box::new(ty_model(*inner))),
        Ty::Func(params, ret) => TyModel::Func(tys_model(params), Box::new(ty_model(*ret))),
        Ty::Unit => TyModel::Unit,
    }
}

/// The mathematical forms of a list of types.
pub open spec fn tys_model(v: Vec<Ty>) -> Seq<TyModel>
    decreases v, 0nat,
{
    Seq::new(v@.len(), |i: int| if 0 <= i < v@.len() { ty_model(v@[i]) } else { TyModel::Unit })
}

/// Whether two types are the same type, node for node.
pub fn same_ty(a: &Ty, b: &Ty) -> (r: bool)
    ensures
        r == (ty_model(*a) == ty_model(*b)),
    decreases a,
{
    match (a, b) {
        (Ty::Int, Ty::Int) => true,
        (Ty::Unit, Ty::Unit) => true,
        (Ty::Ptr(x), Ty::Ptr(y)) => same_ty(x, y),
        (Ty::Func(ps, r1), Ty::Func(qs, r2)) => {
            let ghost mp = tys_model(*ps);
            let ghost mq = tys_model(*qs);
            if ps.len() != qs.len() {
                assert(mp.len() != mq.len());
                return false;
            }
            let mut i: usize = 0;
            while i < ps.len()
                invariant
                    i <= ps@.len(),
                    ps@.len() == qs@.len(),
                    mp == tys_model(*ps),
                    mq == tys_model(*qs),
                    *a == Ty::Func(*ps, *r1),
                    *b == Ty::Func(*qs, *r2),
                    forall|j: int| 0 <= j < i ==> mp[j] == mq[j],
                decreases ps@.len() - i,
            {
                proof {
                    assert(decreases_to!(*a => *ps));
                    assert(decreases_to!(*ps => ps@));
                    assert(decreases_to!(ps@ => ps@[i as int]));
                    assert(decreases_to!(*a => ps@[i as int]));
                }
                if !same_ty(&ps[i], &qs[i]) {
                    assert(mp[i as int] != mq[i as int]);
                    return false;
                }
                i += 1;
            }
            assert(mp =~= mq);
            same_ty(r1, r2)
        }
        _ => false,
    }
}

/// A copy of a type, node for node.
pub fn copy_ty(t: &Ty) -> (r: Ty)
    ensures
        ty_model(r) == ty_model(*t),
    decreases t,
{
        match t {
            Ty::Int => Ty::Int,
            Ty::Unit => Ty::Unit,
            Ty::Ptr(inner) => Ty::Ptr(Box::new(copy_ty(inner))),
            Ty::Func(params, ret) => {
                assert(decreases_to!(*t => *params));
                let mut ps: Vec<Ty> = Vec::new();
                let mut i: usize = 0;
                while i < params.len()
                    invariant
                        i <= params@.len(),
                        ps@.len() == i,
                        forall|j: int| 0 <= j < i ==> #[trigger] ty_model(ps@[j]) == ty_model(params@[j]),
                        *t == Ty::Func(*params, *ret),
                        decreases_to!(*t => *params),
                    decreases params@.len() - i,
                {
                    proof {
                        assert(decreases_to!(*params => params@));
                        assert(decreases_to!(params@ => params@[i as int]));
                        assert(decreases_to!(*t => params@[i as int]));
                    }
                    ps.push(copy_ty(&params[i]));
                    i += 1;
                }
                assert(tys_model(ps) =~= tys_model(*params)) by {
                    assert forall|k: int| 0 <= k < ps@.len() implies tys_model(ps)[k] == tys_model(*params)[k] by {
                        assert(ty_model(ps@[k]) == ty_model(params@[k]));
                    }
                }
                Ty::Func(ps, Box::new(copy_ty(ret)))
            }
        }
    }


/// How a type is written: `int`, `unit`, `*T`, `func(T, U): R`.
pub open spec fn ty_text(t: TyModel) -> Seq<char>
    decreases t, 1nat,
{
    match t {
        TyModel::Int => "int"@,
        TyModel::Unit => "unit"@,
        TyModel::Ptr(inner) => seq!['*'] + ty_text(*inner),
        TyModel::Func(params, ret) => "func"@ + seq!['\x28'] + tys_text(params) + seq!['\x29'] + ": "@ + ty_text(*ret),
    }
}

/// Types written one after the other, separated by a comma and a space.
pub open spec fn tys_text(ts: Seq<TyModel>) -> Seq<char>
    decreases ts, 0nat,
{
    if ts.len() == 0 {
        Seq::empty()
    } else if ts.len() == 1 {
        ty_text(ts[0])
    } else {
        ty_text(ts[0]) + ", "@ + tys_text(ts.subrange(1, ts.len() as int))
    }
}

impl Ty {
    /// How the type is written.
    pub fn to_text(&self) -> (s: String)
        ensures
            s@ == ty_text(ty_model(*self)),
    {
        let mut buf: Vec<char> = Vec::new();
        push_ty_text(&mut buf, self);
        string_of_chars(buf.as_slice())
    }
}

/// Appends how a type is written.
fn push_ty_text(buf: &mut Vec<char>, t: &Ty)
    ensures
        final(buf)@ == old(buf)@ + ty_text(ty_model(*t)),
    decreases t,
{
    match t {
        Ty::Int => push_chars(buf, "int"),
        Ty::Unit => push_chars(buf, "unit"),
        Ty::Ptr(inner) => {
            buf.push('*');
            push_ty_text(buf, inner);
            proof { assert(final(buf)@ =~= old(buf)@ + ty_text(ty_model(*t))); }
        }
        Ty::Func(params, ret) => {
            let ghost b0 = buf@;
            push_chars(buf, "func");
            buf.push('\x28');
            let ghost b1 = buf@;
            let ghost pm = tys_model(*params);
            let mut i: usize = 0;
            assert(decreases_to!(*t => *params));
            while i < params.len()
                invariant
                    i <= params@.len(),
                    pm == tys_model(*params),
                    *t == Ty::Func(*params, *ret),
                    decreases_to!(*t => *params),
                    buf@ == b1 + tys_text(pm.take(i as int)),
                decreases params@.len() - i,
            {
                proof {
                    assert(decreases_to!(*params => params@));
                    assert(decreases_to!(params@ => params@[i as int]));
                    lemma_tys_text_push(pm.take(i as int), pm[i as int]);
                    assert(pm.take(i + 1) =~= pm.take(i as int).push(pm[i as int]));
                }
                if i > 0 {
                    push_chars(buf, ", ");
                }
                push_ty_text(buf, &params[i]);
                proof {
                    if i > 0 {
                        assert(buf@ =~= b1 + (tys_text(pm.take(i as int)) + ", "@ + ty_text(pm[i as int])));
                    } else {
                        assert(pm.take(1) =~= seq![pm[0]]);
                        assert(buf@ =~= b1 + ty_text(pm[0]));
                    }
                }
                i += 1;
            }
            proof { assert(pm.take(params@.len() as int) =~= pm); }
            buf.push('\x29');
            push_chars(buf, ": ");
            push_ty_text(buf, ret);
            proof { assert(buf@ =~= b0 + ty_text(ty_model(*t))); }
        }
    }
}

/// Writing one more type after some adds a separator, unless there were none.
proof fn lemma_tys_text_push(ts: Seq<TyModel>, t: TyModel)
    ensures
        tys_text(ts.push(t)) == if ts.len() == 0 { ty_text(t) } else { tys_text(ts) + ", "@ + ty_text(t) },
    decreases ts.len(),
{
    if ts.len() == 0 {
        assert(ts.push(t) =~= seq![t]);
    } else if ts.len() == 1 {
        assert(ts.push(t).subrange(1, 2) =~= seq![t]);
        assert(tys_text(seq![t]) == ty_text(t));
    } else {
        let rest = ts.subrange(1, ts.len() as int);
        lemma_tys_text_push(rest, t);
        assert(ts.push(t).subrange(1, ts.len() as int + 1) =~= rest.push(t));
        assert(ts.push(t)[0] == ts[0]);
        assert(ty_text(ts[0]) + ", "@ + (tys_text(rest) + ", "@ + ty_text(t))
            =~= (ty_text(ts[0]) + ", "@ + tys_text(rest)) + ", "@ + ty_text(t));
    }
}

} // verus!
