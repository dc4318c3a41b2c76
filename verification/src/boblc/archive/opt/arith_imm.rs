//! Folding a constant pushed just before `add`, `and` or `not` into the word
//! itself, as its immediate operand.
use vstd::prelude::*;
use crate::boblc::archive::parse::{FunctionDecl, FunctionModel, Program, ProgramModel, Word, WordModel, words_view};

verus! {

/// What the optimizer knows of a stack slot.
pub enum StackVal {
    Int(i64),
    Str(String),
    Unknown,
}

/// The mathematical form of a [`StackVal`].
pub enum ValModel {
    Int(i64),
    Str(Seq<char>),
    Unknown,
}

impl View for StackVal {
    type V = ValModel;

    open spec fn view(&self) -> ValModel {
        match self {
            StackVal::Int(n) => ValModel::Int(*n),
            StackVal::Str(s) => ValModel::Str(s@),
            StackVal::Unknown => ValModel::Unknown,
        }
    }
}

/// What the optimizer knows after some words of a body: the values on the
/// data and return stacks with the index of the word that pushed each, the
/// words kept so far (a removed word is `None`), and whether any changed.
pub struct OptState {
    pub stack: Seq<(ValModel, int)>,
    pub rstack: Seq<(ValModel, int)>,
    pub out: Seq<Option<WordModel>>,
    pub changed: bool,
}

/// The folded form of `add`, `and` or `not` with a known operand.
pub open spec fn folded(w: WordModel, v: ValModel) -> Option<WordModel> {
    match (w, v) {
        (WordModel::Add, ValModel::Int(n)) => Some(WordModel::AddInt(n)),
        (WordModel::Add, ValModel::Str(s)) => Some(WordModel::AddStr(s)),
        (WordModel::And, ValModel::Int(n)) => Some(WordModel::AndInt(n)),
        (WordModel::And, ValModel::Str(s)) => Some(WordModel::AndStr(s)),
        (WordModel::Not, ValModel::Int(n)) => Some(WordModel::NotInt(n)),
        (WordModel::Not, ValModel::Str(s)) => Some(WordModel::NotStr(s)),
        _ => None,
    }
}

/// The state after word `i`, `w`, of a body.
pub open spec fn opt_step(s: OptState, i: int, w: WordModel) -> OptState {
    let out = s.out.push(None);
    let st = s.stack;
    let n = st.len();
    match w {
        WordModel::PushInt(v) => OptState { stack: st.push((ValModel::Int(v), i)), out: out.update(i, Some(w)), ..s },
        WordModel::PushString(v) => OptState { stack: st.push((ValModel::Str(v), i)), out: out.update(i, Some(w)), ..s },
        WordModel::Drop => OptState { stack: if n > 0 { st.drop_last() } else { st }, out: out.update(i, Some(w)), ..s },
        WordModel::Add | WordModel::And | WordModel::Not => if n > 0 && folded(w, st.last().0) is Some && 0 <= st.last().1 < out.len() {
            OptState {
                stack: st.drop_last(),
                out: out.update(i, folded(w, st.last().0)).update(st.last().1, None),
                changed: true,
                ..s
            }
        } else {
            OptState { out: out.update(i, Some(w)), ..s }
        },
        WordModel::Dup => OptState { stack: if n > 0 { st.push(st.last()) } else { st }, out: out.update(i, Some(w)), ..s },
        WordModel::TwoDup => OptState {
            stack: if n >= 2 { st.push(st[n - 2]).push(st[n - 1]) } else { Seq::empty() },
            out: out.update(i, Some(w)),
            ..s
        },
        WordModel::Swap => OptState {
            stack: if n >= 2 { st.subrange(0, n - 2).push(st[n - 1]).push(st[n - 2]) } else { Seq::empty() },
            out: out.update(i, Some(w)),
            ..s
        },
        WordModel::Rot => OptState {
            stack: if n >= 3 { st.subrange(0, n - 3).push(st[n - 2]).push(st[n - 1]).push(st[n - 3]) } else { Seq::empty() },
            out: out.update(i, Some(w)),
            ..s
        },
        WordModel::Dr => OptState {
            stack: if n > 0 { st.drop_last() } else { st },
            rstack: s.rstack.push(if n > 0 { st.last() } else { (ValModel::Unknown, i) }),
            out: out.update(i, Some(w)),
            ..s
        },
        WordModel::Rd => OptState {
            stack: st.push(if s.rstack.len() > 0 { s.rstack.last() } else { (ValModel::Unknown, i) }),
            rstack: if s.rstack.len() > 0 { s.rstack.drop_last() } else { s.rstack },
            out: out.update(i, Some(w)),
            ..s
        },
        _ => OptState { stack: Seq::empty(), out: out.update(i, Some(w)), ..s },
    }
}

/// The state after the first `k` words of a body.
pub open spec fn opt_prefix(body: Seq<WordModel>, k: nat) -> OptState
    decreases k,
{
    if k == 0 || k > body.len() {
        OptState { stack: Seq::empty(), rstack: Seq::empty(), out: Seq::empty(), changed: false }
    } else {
        opt_step(opt_prefix(body, (k - 1) as nat), k - 1, body[k - 1])
    }
}

/// The words that were kept, in order.
pub open spec fn kept(out: Seq<Option<WordModel>>) -> Seq<WordModel>
    decreases out.len(),
{
    if out.len() == 0 {
        Seq::empty()
    } else {
        match out.last() {
            Some(w) => kept(out.drop_last()).push(w),
            None => kept(out.drop_last()),
        }
    }
}

/// A function after folding, and whether folding changed it.
pub open spec fn opt_function(f: FunctionModel) -> (FunctionModel, bool) {
    match f {
        FunctionModel::External { .. } => (f, false),
        FunctionModel::Defined { name, body } => {
            let s = opt_prefix(body, body.len());
            (FunctionModel::Defined { name, body: kept(s.out) }, s.changed)
        },
    }
}

/// The same stack value, built anew.
fn copy_val(v: &(StackVal, usize)) -> (r: (StackVal, usize))
    ensures
        r.0@ == v.0@,
        r.1 == v.1,
{
    let val = match &v.0 {
        StackVal::Int(n) => StackVal::Int(*n),
        StackVal::Str(s) => StackVal::Str(s.clone()),
        StackVal::Unknown => StackVal::Unknown,
    };
    (val, v.1)
}

/// The same word, built anew.
pub fn copy_word(w: &Word) -> (r: Word)
    ensures
        r@ == w@,
{
    match w {
        Word::PushInt(v) => Word::PushInt(*v),
        Word::PushString(s) => Word::PushString(s.clone()),
        Word::Drop => Word::Drop,
        Word::Add => Word::Add,
        Word::AddInt(v) => Word::AddInt(*v),
        Word::AddStr(s) => Word::AddStr(s.clone()),
        Word::And => Word::And,
        Word::AndInt(v) => Word::AndInt(*v),
        Word::AndStr(s) => Word::AndStr(s.clone()),
        Word::Not => Word::Not,
        Word::NotInt(v) => Word::NotInt(*v),
        Word::NotStr(s) => Word::NotStr(s.clone()),
        Word::Dup => Word::Dup,
        Word::TwoDup => Word::TwoDup,
        Word::Swap => Word::Swap,
        Word::Rot => Word::Rot,
        Word::Dr => Word::Dr,
        Word::Rd => Word::Rd,
        Word::While => Word::While,
        Word::If(t) => Word::If(*t),
        Word::Else(t) => Word::Else(*t),
        Word::Do(t) => Word::Do(*t),
        Word::End(t) => Word::End(*t),
        Word::Trap1 => Word::Trap1,
        Word::Trap2 => Word::Trap2,
        Word::Call(s) => Word::Call(s.clone()),
    }
}

/// The mathematical form of a stack.
pub open spec fn stack_view(v: Seq<(StackVal, usize)>) -> Seq<(ValModel, int)> {
    v.map_values(|e: (StackVal, usize)| (e.0@, e.1 as int))
}

/// The mathematical form of the kept words.
pub open spec fn out_view(v: Seq<Option<Word>>) -> Seq<Option<WordModel>> {
    v.map_values(|o: Option<Word>| match o {
        Some(w) => Some(w@),
        None => None,
    })
}


/// Every stack slot was pushed by a word before `i`.
pub open spec fn slots_before(st: Seq<(ValModel, int)>, i: int) -> bool {
    forall|k: int| 0 <= k < st.len() ==> 0 <= (#[trigger] st[k]).1 < i
}

/// The folded word for `add`, `and` or `not` with a known operand.
fn fold_word(w: &Word, v: &StackVal) -> (r: Option<Word>)
    ensures
        match folded(w@, v@) {
            Some(f) => r matches Some(x) && x@ == f,
            None => r is None,
        },
{
    match (w, v) {
        (Word::Add, StackVal::Int(n)) => Some(Word::AddInt(*n)),
        (Word::Add, StackVal::Str(s)) => Some(Word::AddStr(s.clone())),
        (Word::And, StackVal::Int(n)) => Some(Word::AndInt(*n)),
        (Word::And, StackVal::Str(s)) => Some(Word::AndStr(s.clone())),
        (Word::Not, StackVal::Int(n)) => Some(Word::NotInt(*n)),
        (Word::Not, StackVal::Str(s)) => Some(Word::NotStr(s.clone())),
        _ => None,
    }
}

/// Folds constants into `add`, `and` and `not` throughout one body; whether
/// anything changed.
fn optimize_body(body: &Vec<Word>) -> (r: (Vec<Word>, bool))
    ensures
        ({
            let s = opt_prefix(words_view(body@), body@.len());
            words_view(r.0@) == kept(s.out) && r.1 == s.changed
        }),
{
    let ghost wv = words_view(body@);
    let mut stack: Vec<(StackVal, usize)> = Vec::new();
    let mut rstack: Vec<(StackVal, usize)> = Vec::new();
    let mut out: Vec<Option<Word>> = Vec::new();
    let mut changed = false;
    let mut i: usize = 0;
    proof {
        assert(stack_view(stack@) =~= Seq::<(ValModel, int)>::empty());
        assert(stack_view(rstack@) =~= Seq::<(ValModel, int)>::empty());
        assert(out_view(out@) =~= Seq::<Option<WordModel>>::empty());
    }
    while i < body.len()
        invariant
            wv == words_view(body@),
            i <= body@.len(),
            out@.len() == i,
            slots_before(stack_view(stack@), i as int),
            slots_before(stack_view(rstack@), i as int),
            opt_prefix(wv, i as nat) == (OptState {
                stack: stack_view(stack@),
                rstack: stack_view(rstack@),
                out: out_view(out@),
                changed,
            }),
        decreases body@.len() - i,
    {
        let ghost s0 = opt_prefix(wv, i as nat);
        let ghost st = stack_view(stack@);
        let ghost rst = stack_view(rstack@);
        let w = &body[i];
        assert(wv[i as int] == w@);
        out.push(None);
        let ghost o1 = out_view(out@);
        assert(o1 =~= s0.out.push(None));
        let n = stack.len();
        let mut same = true;
        match w {
            Word::PushInt(v) => {
                stack.push((StackVal::Int(*v), i));
                assert(stack_view(stack@) =~= st.push((ValModel::Int(*v), i as int)));
            }
            Word::PushString(v) => {
                stack.push((StackVal::Str(v.clone()), i));
                assert(stack_view(stack@) =~= st.push((ValModel::Str(v@), i as int)));
            }
            Word::Drop => {
                if n > 0 {
                    stack.pop();
                    assert(stack_view(stack@) =~= st.drop_last());
                }
            }
            Word::Add | Word::And | Word::Not => {
                if n > 0 {
                    assert(st.last() == (stack@[n - 1].0@, stack@[n - 1].1 as int));
                    match fold_word(w, &stack[n - 1].0) {
                        Some(f) => {
                            let j = stack[n - 1].1;
                            assert(st[n - 1].1 == j);
                            stack.pop();
                            assert(stack_view(stack@) =~= st.drop_last());
                            same = false;
                            let ghost fv = f@;
                            out.set(i, Some(f));
                            out.set(j, None);
                            assert(out_view(out@) =~= o1.update(i as int, Some(fv)).update(j as int, None));
                        }
                        None => {}
                    }
                }
            }
            Word::Dup => {
                if n > 0 {
                    let top = copy_val(&stack[n - 1]);
                    stack.push(top);
                    assert(stack_view(stack@) =~= st.push(st.last()));
                }
            }
            Word::TwoDup => {
                if n >= 2 {
                    let a = copy_val(&stack[n - 2]);
                    let b = copy_val(&stack[n - 1]);
                    stack.push(a);
                    stack.push(b);
                    assert(stack_view(stack@) =~= st.push(st[n - 2]).push(st[n - 1]));
                } else {
                    stack = Vec::new();
                    assert(stack_view(stack@) =~= Seq::<(ValModel, int)>::empty());
                }
            }
            Word::Swap => {
                if n >= 2 {
                    let b = stack.pop().unwrap();
                    let a = stack.pop().unwrap();
                    stack.push(b);
                    stack.push(a);
                    assert(stack_view(stack@) =~= st.subrange(0, n - 2).push(st[n - 1]).push(st[n - 2]));
                } else {
                    stack = Vec::new();
                    assert(stack_view(stack@) =~= Seq::<(ValModel, int)>::empty());
                }
            }
            Word::Rot => {
                if n >= 3 {
                    let c = stack.pop().unwrap();
                    let b = stack.pop().unwrap();
                    let a = stack.pop().unwrap();
                    stack.push(b);
                    stack.push(c);
                    stack.push(a);
                    assert(stack_view(stack@) =~= st.subrange(0, n - 3).push(st[n - 2]).push(st[n - 1]).push(st[n - 3]));
                } else {
                    stack = Vec::new();
                    assert(stack_view(stack@) =~= Seq::<(ValModel, int)>::empty());
                }
            }
            Word::Dr => {
                if n > 0 {
                    let v = stack.pop().unwrap();
                    rstack.push(v);
                    assert(stack_view(stack@) =~= st.drop_last());
                    assert(stack_view(rstack@) =~= rst.push(st.last()));
                } else {
                    rstack.push((StackVal::Unknown, i));
                    assert(stack_view(rstack@) =~= rst.push((ValModel::Unknown, i as int)));
                }
            }
            Word::Rd => {
                if rstack.len() > 0 {
                    let v = rstack.pop().unwrap();
                    stack.push(v);
                    assert(stack_view(rstack@) =~= rst.drop_last());
                    assert(stack_view(stack@) =~= st.push(rst.last()));
                } else {
                    stack.push((StackVal::Unknown, i));
                    assert(stack_view(stack@) =~= st.push((ValModel::Unknown, i as int)));
                }
            }
            _ => {
                stack = Vec::new();
                assert(stack_view(stack@) =~= Seq::<(ValModel, int)>::empty());
            }
        }
        if same {
            let ghost o2 = out_view(out@);
            out.set(i, Some(copy_word(w)));
            assert(out_view(out@) =~= o2.update(i as int, Some(w@)));
        } else {
            changed = true;
        }
        assert(opt_prefix(wv, (i + 1) as nat) == opt_step(s0, i as int, w@));
        i += 1;
    }
    let ghost fin = out_view(out@);
    let mut kept_words: Vec<Word> = Vec::new();
    let mut k: usize = 0;
    while k < out.len()
        invariant
            fin == out_view(out@),
            k <= out@.len(),
            words_view(kept_words@) == kept(fin.take(k as int)),
        decreases out@.len() - k,
    {
        assert(fin.take(k + 1).drop_last() =~= fin.take(k as int));
        match &out[k] {
            Some(w) => {
                let ghost before = words_view(kept_words@);
                kept_words.push(copy_word(w));
                assert(words_view(kept_words@) =~= before.push(w@));
            }
            None => {}
        }
        k += 1;
    }
    assert(fin.take(k as int) =~= fin);
    (kept_words, changed)
}

/// Folds constants into `add`, `and` and `not` in every defined function;
/// whether anything changed.
pub fn optimize(program: &mut Program) -> (changed: bool)
    ensures
        final(program)@.includes == old(program)@.includes,
        final(program)@.functions.len() == old(program)@.functions.len(),
        forall|k: int| 0 <= k < old(program)@.functions.len() ==>
            #[trigger] final(program)@.functions[k] == opt_function(old(program)@.functions[k]).0,
        changed == exists|k: int| 0 <= k < old(program)@.functions.len() && #[trigger] opt_function(old(program)@.functions[k]).1,
{
    let ghost fs0 = program@.functions;
    let mut changed = false;
    let mut k: usize = 0;
    while k < program.functions.len()
        invariant
            program@.includes == old(program)@.includes,
            fs0 == old(program)@.functions,
            program@.functions.len() == fs0.len(),
            k <= fs0.len(),
            forall|j: int| 0 <= j < k ==> #[trigger] program@.functions[j] == opt_function(fs0[j]).0,
            forall|j: int| k <= j < fs0.len() ==> #[trigger] program@.functions[j] == fs0[j],
            changed == exists|j: int| 0 <= j < k && #[trigger] opt_function(fs0[j]).1,
        decreases fs0.len() - k,
    {
        let ghost before = program@.functions;
        let ghost ch0 = changed;
        assert(program@.functions[k as int] == fs0[k as int]);
        assert(program.functions@[k as int]@ == fs0[k as int]);
        let (replacement, c_k) = match &program.functions[k] {
            FunctionDecl::External { .. } => (None, false),
            FunctionDecl::Defined { name, body } => {
                let (new_body, c) = optimize_body(body);
                (Some(FunctionDecl::Defined { name: name.clone(), body: new_body }), c)
            }
        };
        assert(c_k == opt_function(fs0[k as int]).1);
        changed = changed || c_k;
        proof {
            if c_k {
                assert(opt_function(fs0[k as int]).1);
            }
            if ch0 {
                let j0 = choose|j: int| 0 <= j < k && #[trigger] opt_function(fs0[j]).1;
                assert(opt_function(fs0[j0]).1);
            }
        }
        match replacement {
            Some(f) => {
                let ghost fv = f@;
                program.functions.set(k, f);
                assert(program@.functions =~= before.update(k as int, fv));
            }
            None => {}
        }
        assert(program@.functions[k as int] == opt_function(fs0[k as int]).0);
        k += 1;
    }
    changed
}

} // verus!
