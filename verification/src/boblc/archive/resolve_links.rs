//! Linking the control words of each function: `if`, `else` and `do` learn
//! where to jump, and each loop's `end` learns its `while`.
use vstd::prelude::*;
use super::parse::{FunctionDecl, FunctionModel, Program, ProgramModel, Word, WordModel, words_view};

verus! {

/// The kind of an open control structure.
#[derive(Clone, Copy, PartialEq, Eq, Structural)]
pub enum ControlFlowWord {
    If,
    While,
    Do,
}

/// The body after linking from word `i` on, with `stack` holding the open
/// structures and where they start; and the index where linking fails, if it does.
pub open spec fn link_from(body: Seq<WordModel>, stack: Seq<(ControlFlowWord, int)>, i: int) -> (Seq<WordModel>, Option<int>)
    decreases body.len() - i,
{
    if i < 0 || i >= body.len() {
        (body, if stack.len() == 0 { None } else { Some(body.len() as int) })
    } else {
        match body[i] {
            WordModel::If(_) => link_from(body, stack.push((ControlFlowWord::If, i)), i + 1),
            WordModel::While => link_from(body, stack.push((ControlFlowWord::While, i)), i + 1),
            WordModel::Do(_) => link_from(body, stack.push((ControlFlowWord::Do, i)), i + 1),
            WordModel::Else(_) => if stack.len() > 0 && stack.last().0 == ControlFlowWord::If && 0 <= stack.last().1 < i {
                let if_i = stack.last().1;
                link_from(
                    body.update(if_i, WordModel::If((i + 1) as usize)).update(i, WordModel::Else(0)),
                    stack.drop_last().push((ControlFlowWord::If, i)),
                    i + 1,
                )
            } else {
                (body, Some(i))
            },
            WordModel::End(_) => if stack.len() == 0 || !(0 <= stack.last().1 < i) {
                (body, Some(i))
            } else {
                let (c, j) = stack.last();
                let rest = stack.drop_last();
                match c {
                    ControlFlowWord::If => match body[j] {
                        WordModel::If(_) => link_from(body.update(j, WordModel::If((i + 1) as usize)).update(i, WordModel::End(None)), rest, i + 1),
                        _ => link_from(body.update(j, WordModel::Else((i + 1) as usize)).update(i, WordModel::End(None)), rest, i + 1),
                    },
                    ControlFlowWord::While => (body, Some(i)),
                    ControlFlowWord::Do => if rest.len() > 0 && rest.last().0 == ControlFlowWord::While && 0 <= rest.last().1 {
                        let k = rest.last().1;
                        link_from(body.update(j, WordModel::Do((i + 1) as usize)).update(i, WordModel::End(Some(k as usize))), rest.drop_last(), i + 1)
                    } else {
                        (body, Some(i))
                    },
                }
            },
            _ => link_from(body, stack, i + 1),
        }
    }
}

/// A function after linking, and where linking fails in it, if it does.
pub open spec fn link_function(f: FunctionModel) -> (FunctionModel, Option<(Seq<char>, int)>) {
    match f {
        FunctionModel::External { .. } => (f, None),
        FunctionModel::Defined { name, body } => {
            let (b, err) = link_from(body, Seq::empty(), 0);
            (FunctionModel::Defined { name, body: b }, match err {
                Some(i) => Some((name, i)),
                None => None,
            })
        },
    }
}

/// The functions from `k` on after linking, stopping at the first failure
/// and leaving the functions after it as they were; and that failure.
pub open spec fn link_functions(fs: Seq<FunctionModel>, k: int) -> (Seq<FunctionModel>, Option<(Seq<char>, int)>)
    decreases fs.len() - k,
{
    if k < 0 || k >= fs.len() {
        (Seq::empty(), None)
    } else {
        let (f, err) = link_function(fs[k]);
        match err {
            Some(e) => (seq![f] + fs.subrange(k + 1, fs.len() as int), Some(e)),
            None => {
                let (rest, e2) = link_functions(fs, k + 1);
                (seq![f] + rest, e2)
            },
        }
    }
}

/// Every open structure on the stack starts at a word of its kind, before `i`.
pub open spec fn stack_ok(body: Seq<WordModel>, stack: Seq<(ControlFlowWord, int)>, i: int) -> bool {
    forall|k: int| 0 <= k < stack.len() ==> {
        let (c, j) = #[trigger] stack[k];
        &&& 0 <= j < i
        &&& j < body.len()
        &&& (c == ControlFlowWord::If ==> (body[j] is If || body[j] is Else))
        &&& (c == ControlFlowWord::While ==> body[j] is While)
        &&& (c == ControlFlowWord::Do ==> body[j] is Do)
    }
}

/// Links the control words of one body in place; the index where linking
/// fails, if it does.
fn link_body(body: &mut Vec<Word>) -> (err: Option<usize>)
    ensures
        link_from(words_view(old(body)@), Seq::empty(), 0) == (words_view(final(body)@), match err {
            Some(i) => Some(i as int),
            None => None::<int>,
        }),
{
    let mut stack: Vec<(ControlFlowWord, usize)> = Vec::new();
    let ghost target = link_from(words_view(body@), Seq::empty(), 0);
    let n = body.len();
    let mut i: usize = 0;
    assert(stack@.map_values(|e: (ControlFlowWord, usize)| (e.0, e.1 as int)) =~= Seq::<(ControlFlowWord, int)>::empty());
    while i < n
        invariant
            n == body@.len(),
            i <= n,
            target == link_from(words_view(old(body)@), Seq::empty(), 0),
            target == link_from(words_view(body@), stack@.map_values(|e: (ControlFlowWord, usize)| (e.0, e.1 as int)), i as int),
            stack_ok(words_view(body@), stack@.map_values(|e: (ControlFlowWord, usize)| (e.0, e.1 as int)), i as int),
        decreases n - i,
    {
        let ghost st = stack@.map_values(|e: (ControlFlowWord, usize)| (e.0, e.1 as int));
        let ghost wv = words_view(body@);
        assert(wv[i as int] == body@[i as int]@);
        match &body[i] {
            Word::If(_) => {
                stack.push((ControlFlowWord::If, i));
                assert(stack@.map_values(|e: (ControlFlowWord, usize)| (e.0, e.1 as int)) =~= st.push((ControlFlowWord::If, i as int)));
            }
            Word::While => {
                stack.push((ControlFlowWord::While, i));
                assert(stack@.map_values(|e: (ControlFlowWord, usize)| (e.0, e.1 as int)) =~= st.push((ControlFlowWord::While, i as int)));
            }
            Word::Do(_) => {
                stack.push((ControlFlowWord::Do, i));
                assert(stack@.map_values(|e: (ControlFlowWord, usize)| (e.0, e.1 as int)) =~= st.push((ControlFlowWord::Do, i as int)));
            }
            Word::Else(_) => {
                let popped = stack.pop();
                if popped.is_none() {
                    return Some(i);
                }
                let (c0, if_i) = popped.unwrap();
                assert(st.last() == (c0, if_i as int));
                match c0 {
                    ControlFlowWord::If => {
                        body.set(if_i, Word::If(i + 1));
                        body.set(i, Word::Else(0));
                        stack.push((ControlFlowWord::If, i));
                        assert(words_view(body@) =~= wv.update(if_i as int, WordModel::If((i + 1) as usize)).update(i as int, WordModel::Else(0)));
                        assert(stack@.map_values(|e: (ControlFlowWord, usize)| (e.0, e.1 as int)) =~= st.drop_last().push((ControlFlowWord::If, i as int)));
                    }
                    _ => {
                        return Some(i);
                    }
                }
            }
            Word::End(_) => {
                let popped = stack.pop();
                match popped {
                    None => {
                        return Some(i);
                    }
                    Some((c, j)) => {
                        assert(st.last() == (c, j as int));
                        let ghost rest = st.drop_last();
                        assert(stack@.map_values(|e: (ControlFlowWord, usize)| (e.0, e.1 as int)) =~= rest);
                        match c {
                            ControlFlowWord::If => {
                                let is_if = matches!(body[j], Word::If(_));
                                assert(is_if == (wv[j as int] is If));
                                if is_if {
                                    body.set(j, Word::If(i + 1));
                                    body.set(i, Word::End(None));
                                    assert(words_view(body@) =~= wv.update(j as int, WordModel::If((i + 1) as usize)).update(i as int, WordModel::End(None)));
                                } else {
                                    body.set(j, Word::Else(i + 1));
                                    body.set(i, Word::End(None));
                                    assert(words_view(body@) =~= wv.update(j as int, WordModel::Else((i + 1) as usize)).update(i as int, WordModel::End(None)));
                                }
                            }
                            ControlFlowWord::While => {
                                return Some(i);
                            }
                            ControlFlowWord::Do => {
                                let inner = stack.pop();
                                if inner.is_none() {
                                    return Some(i);
                                }
                                let (c2, k) = inner.unwrap();
                                assert(rest.last() == (c2, k as int));
                                match c2 {
                                    ControlFlowWord::While => {
                                        body.set(j, Word::Do(i + 1));
                                        body.set(i, Word::End(Some(k)));
                                        assert(words_view(body@) =~= wv.update(j as int, WordModel::Do((i + 1) as usize)).update(i as int, WordModel::End(Some(k))));
                                        assert(stack@.map_values(|e: (ControlFlowWord, usize)| (e.0, e.1 as int)) =~= rest.drop_last());
                                    }
                                    _ => {
                                        return Some(i);
                                    }
                                }
                            }
                        }
                    }
                }
            }
            _ => {}
        }
        i += 1;
    }
    if stack.len() > 0 {
        return Some(n);
    }
    None
}

/// Links the control words of every defined function: each `if` learns the
/// word after its `else` or `end`, each `else` the word after its `end`, each
/// `do` the word after its `end`, and each loop's `end` the index of its
/// `while`. An unmatched word is an error naming the function and the index;
/// the functions before it have been linked.
pub fn resolve_links(ast: &mut Program) -> (r: Result<(), (String, usize)>)
    ensures
        final(ast)@.includes == old(ast)@.includes,
        ({
            let (fs, err) = link_functions(old(ast)@.functions, 0);
            &&& final(ast)@.functions == fs
            &&& match r {
                Ok(()) => err is None,
                Err((name, i)) => err == Some((name@, i as int)),
            }
        }),
{
    let ghost old_fs = ast@.functions;
    let mut funcs: Vec<FunctionDecl> = Vec::new();
    std::mem::swap(&mut funcs, &mut ast.functions);
    let mut rev: Vec<FunctionDecl> = Vec::new();
    assert(funcs@.map_values(|f: FunctionDecl| f@) + rev@.map_values(|f: FunctionDecl| f@).reverse() =~= old_fs);
    while funcs.len() > 0
        invariant
            funcs@.map_values(|f: FunctionDecl| f@) + rev@.map_values(|f: FunctionDecl| f@).reverse() == old_fs,
        decreases funcs@.len(),
    {
        let ghost f0 = funcs@.map_values(|f: FunctionDecl| f@);
        let ghost r0 = rev@.map_values(|f: FunctionDecl| f@);
        let f = funcs.pop().unwrap();
        rev.push(f);
        assert(funcs@.map_values(|f: FunctionDecl| f@) + rev@.map_values(|f: FunctionDecl| f@).reverse() =~= f0 + r0.reverse());
    }
    assert(rev@.map_values(|f: FunctionDecl| f@).reverse() =~= old_fs);
    let mut done: Vec<FunctionDecl> = Vec::new();
    loop
        invariant
            ast@.includes == old(ast)@.includes,
            old_fs == old(ast)@.functions,
            done@.len() + rev@.len() == old_fs.len(),
            rev@.map_values(|f: FunctionDecl| f@).reverse() == old_fs.subrange(done@.len() as int, old_fs.len() as int),
            link_functions(old_fs, 0) == ({
                let (rest, e) = link_functions(old_fs, done@.len() as int);
                (done@.map_values(|f: FunctionDecl| f@) + rest, e)
            }),
        decreases rev@.len(),
    {
        let ghost k = done@.len() as int;
        let ghost rv = rev@.map_values(|f: FunctionDecl| f@);
        match rev.pop() {
            None => {
                assert(done@.map_values(|f: FunctionDecl| f@) + Seq::empty() =~= done@.map_values(|f: FunctionDecl| f@));
                ast.functions = done;
                return Ok(());
            }
            Some(f) => {
                assert(rv.last() == f@);
                assert(rv.reverse()[0] == rv.last());
                assert(old_fs.subrange(k, old_fs.len() as int)[0] == old_fs[k]);
                assert(f@ == old_fs[k]);
                assert(rev@.map_values(|f: FunctionDecl| f@).reverse() =~= old_fs.subrange(k + 1, old_fs.len() as int)) by {
                    assert(rev@.map_values(|f: FunctionDecl| f@) =~= rv.drop_last());
                    assert(rv.drop_last().reverse() =~= rv.reverse().drop_first());
                }
                let ghost (lf, lerr) = link_function(f@);
                match f {
                    FunctionDecl::External { name } => {
                        done.push(FunctionDecl::External { name });
                    }
                    FunctionDecl::Defined { name, mut body } => {
                        let err = link_body(&mut body);
                        match err {
                            Some(i) => {
                                let ename = name.clone();
                                done.push(FunctionDecl::Defined { name, body });
                                let ghost rest_before = rev@.map_values(|f: FunctionDecl| f@).reverse();
                                let ghost d0 = done@.map_values(|f: FunctionDecl| f@);
                                while rev.len() > 0
                                    invariant
                                        done@.map_values(|f: FunctionDecl| f@) + rev@.map_values(|f: FunctionDecl| f@).reverse() == d0 + rest_before,
                                    decreases rev@.len(),
                                {
                                    let g = rev.pop().unwrap();
                                    done.push(g);
                                    assert(done@.map_values(|f: FunctionDecl| f@) + rev@.map_values(|f: FunctionDecl| f@).reverse() =~= d0 + rest_before);
                                }
                                assert(done@.map_values(|f: FunctionDecl| f@) =~= d0 + rest_before);
                                ast.functions = done;
                                return Err((ename, i));
                            }
                            None => {
                                done.push(FunctionDecl::Defined { name, body });
                            }
                        }
                    }
                }
            }
        }
    }
}

} // verus!
