//! Compiling archive programs to bassembly: each word becomes a few
//! instructions on the data stack in `r6` and the return stack in `r4`, with
//! its constants in a literal pool flushed into the code now and then.
use vstd::prelude::*;
use vstd::string::StringExecFns;
use crate::text::{decimal, signed_decimal, u64_decimal, i64_decimal, string_of_chars, chars_of};
use super::literalpool::{
    LiteralPool, PoolModel, interned_string, interned_int, interned_func, pool_size, data_text, cleared,
    push_chars, push_char_vec, strings_size,
};
use super::parse::{FunctionDecl, FunctionModel, Program, ProgramModel, Word, WordModel, words_view};

verus! {

/// A string constant as a word's listing shows it: newlines, tabs,
/// backslashes and quotes escaped, with the backslash of an escaped newline
/// or tab itself escaped.
pub open spec fn listing_escape(s: Seq<char>) -> Seq<char>
    decreases s.len(),
{
    if s.len() == 0 {
        Seq::empty()
    } else {
        let c = s.last();
        listing_escape(s.drop_last()) + if c == '\n' {
            seq!['\\', '\\', 'n']
        } else if c == '\t' {
            seq!['\\', '\\', 't']
        } else if c == '\\' {
            seq!['\\', '\\']
        } else if c == '"' {
            seq!['\\', '"']
        } else {
            seq![c]
        }
    }
}

/// A string constant in quotes, as a listing shows it.
pub open spec fn listing_string(s: Seq<char>) -> Seq<char> {
    seq!['"'] + listing_escape(s) + seq!['"']
}

/// How a word is shown in the listing comment of its code.
pub open spec fn word_listing(w: WordModel) -> Seq<char> {
    match w {
        WordModel::PushInt(v) => signed_decimal(v as int),
        WordModel::PushString(s) => listing_string(s),
        WordModel::Drop => "drop"@,
        WordModel::Add => "add"@,
        WordModel::AddInt(v) => signed_decimal(v as int) + " add"@,
        WordModel::AddStr(s) => listing_string(s) + " add"@,
        WordModel::And => "and"@,
        WordModel::AndInt(v) => signed_decimal(v as int) + " and"@,
        WordModel::AndStr(s) => listing_string(s) + " and"@,
        WordModel::Not => "not"@,
        WordModel::NotInt(v) => signed_decimal(v as int) + " not"@,
        WordModel::NotStr(s) => listing_string(s) + " not"@,
        WordModel::Dup => "dup"@,
        WordModel::TwoDup => "2dup"@,
        WordModel::Swap => "swap"@,
        WordModel::Rot => "rot"@,
        WordModel::Dr => "dr"@,
        WordModel::Rd => "rd"@,
        WordModel::While => "while"@,
        WordModel::If(_) => "if"@,
        WordModel::Else(_) => "else"@,
        WordModel::Do(_) => "do"@,
        WordModel::End(_) => "end"@,
        WordModel::Trap1 => "trap1"@,
        WordModel::Trap2 => "trap2"@,
        WordModel::Call(f) => f,
    }
}

/// The label of word `i` of function `name`.
pub open spec fn word_label(name: Seq<char>, i: nat) -> Seq<char> {
    "__"@ + name + "_w"@ + decimal(i)
}

/// The instructions of a word, the pool after interning its constant, and
/// how many instructions it takes.
pub open spec fn word_code(name: Seq<char>, w: WordModel, pool: PoolModel) -> (Seq<char>, PoolModel, nat) {
    match w {
        WordModel::PushInt(v) => {
            let (p, l) = interned_int(pool, v);
            ("\tld r0, "@ + l + "\n\tstr r0, r6, 0\n\tadd r6, 1\n"@, p, 3)
        },
        WordModel::PushString(s) => {
            let (p, l) = interned_string(pool, s);
            ("\tlea r0, "@ + l + "\n\tstr r0, r6, 0\n\tadd r6, 1\n"@, p, 3)
        },
        WordModel::Drop => ("\tadd r6, -1\n"@, pool, 1),
        WordModel::Add => ("\tldr r0, r6, -1\n\tldr r1, r6, -2\n\tadd r0, r1\n\tstr r0, r6, -2\n\tadd r6, -1\n"@, pool, 5),
        WordModel::AddInt(v) => ("\tldr r0, r6, -1\n\tadd r0, "@ + signed_decimal(v as int) + "\n\tstr r0, r6, -1\n"@, pool, 3),
        WordModel::AddStr(s) => {
            let (p, l) = interned_string(pool, s);
            ("\tldr r0, r6, -1\n\tlea r1, "@ + l + "\n\tadd r0, r1\n\tstr r0, r6, -1\n"@, p, 4)
        },
        WordModel::And => ("\tldr r0, r6, -1\n\tldr r1, r6, -2\n\tand r0, r1\n\tstr r0, r6, -2\n\tadd r6, -1\n"@, pool, 5),
        WordModel::AndInt(v) => ("\tldr r0, r6, -1\n\tand r0, "@ + signed_decimal(v as int) + "\n\tstr r0, r6, -1\n"@, pool, 3),
        WordModel::AndStr(s) => {
            let (p, l) = interned_string(pool, s);
            ("\tldr r0, r6, -1\n\tlea r1, "@ + l + "\n\tand r0, r1\n\tstr r0, r6, -1\n"@, p, 4)
        },
        WordModel::Not => ("\tldr r0, r6, -1\n\tnot r0\n\tstr r0, r6, -1\n"@, pool, 3),
        WordModel::NotInt(v) => ("\tand r0, 0\n\tadd r0, "@ + signed_decimal(v as int) + "\n\tnot r0\n\tstr r0, r6, -1\n"@, pool, 4),
        WordModel::NotStr(s) => {
            let (p, l) = interned_string(pool, s);
            ("\tlea r0, "@ + l + "\n\tnot r0\n\tstr r0, r6, -1\n"@, p, 3)
        },
        WordModel::Dup => ("\tldr r0, r6, -1\n\tstr r0, r6, 0\n\tadd r6, 1\n"@, pool, 3),
        WordModel::TwoDup => ("\tldr r0, r6, -2\n\tstr r0, r6, 0\n\tldr r0, r6, -1\n\tstr r0, r6, 1\n\tadd r6, 2\n"@, pool, 5),
        WordModel::Swap => ("\tldr r0, r6, -1\n\tldr r1, r6, -2\n\tstr r0, r6, -2\n\tstr r1, r6, -1\n"@, pool, 4),
        WordModel::Rot => ("\tldr r0, r6, -1\n\tldr r1, r6, -2\n\tldr r2, r6, -3\n\tstr r1, r6, -3\n\tstr r0, r6, -2\n\tstr r2, r6, -1\n"@, pool, 6),
        WordModel::Dr => ("\tadd r6, -1\n\tldr r0, r6, 0\n\tstr r0, r4, 0\n\tadd r4, 1\n"@, pool, 4),
        WordModel::Rd => ("\tadd r4, -1\n\tldr r0, r4, 0\n\tstr r0, r6, 0\n\tadd r6, 1\n"@, pool, 4),
        WordModel::While => (Seq::empty(), pool, 0),
        WordModel::If(skip) => ("\tadd r6, -1\n\tldr r0, r6, 0\n\tbrz "@ + word_label(name, skip as nat) + "\n"@, pool, 3),
        WordModel::Do(skip) => ("\tadd r6, -1\n\tldr r0, r6, 0\n\tbrz "@ + word_label(name, skip as nat) + "\n"@, pool, 3),
        WordModel::Else(skip) => ("\tbr "@ + word_label(name, skip as nat) + "\n"@, pool, 1),
        WordModel::End(Some(back)) => ("\tbr "@ + word_label(name, back as nat) + "\n"@, pool, 1),
        WordModel::End(None) => (Seq::empty(), pool, 0),
        WordModel::Trap1 => ("\tadd r6, -1\n\tldr r0, r6, 0\n\ttrap 1\n"@, pool, 3),
        WordModel::Trap2 => ("\tadd r6, -1\n\tldr r0, r6, 0\n\ttrap 2\n"@, pool, 3),
        WordModel::Call(f) => {
            let (p, l) = interned_func(pool, f);
            ("\tld r0, "@ + l + "\n\tjsr r0\n"@, p, 2)
        },
    }
}

/// The text so far, the pool, and the instructions since the pool was last
/// flushed.
pub struct GenState {
    pub text: Seq<char>,
    pub pool: PoolModel,
    pub insts: nat,
}

/// The state after word `i` of function `name`: its label and listing, its
/// code, and a flush of the pool when the code since the last flush and the
/// pool together reach 200 words.
pub open spec fn gen_step(name: Seq<char>, i: nat, w: WordModel, st: GenState) -> GenState {
    let head = word_label(name, i) + ":                 ;;; "@ + word_listing(w) + " ;;;\n"@;
    let (code, p, n) = word_code(name, w, st.pool);
    let insts = st.insts + n;
    if insts + pool_size(p) >= 200 {
        GenState {
            text: st.text + head + code + "br "@ + word_label(name, i + 1) + "\n"@ + data_text(p),
            pool: cleared(p),
            insts: 1,
        }
    } else {
        GenState { text: st.text + head + code, pool: p, insts }
    }
}

/// The state after the first `k` words of a body.
pub open spec fn gen_words(name: Seq<char>, body: Seq<WordModel>, k: nat, st: GenState) -> GenState
    decreases k,
{
    if k == 0 || k > body.len() {
        st
    } else {
        gen_step(name, (k - 1) as nat, body[k - 1], gen_words(name, body, (k - 1) as nat, st))
    }
}

/// The code of a function and the pool after it: a global label, the
/// prologue, the words, a branch to the epilogue past the pool's data, and
/// the epilogue. An external function has no code.
pub open spec fn gen_function(f: FunctionModel, pool: PoolModel) -> (Seq<char>, PoolModel) {
    match f {
        FunctionModel::External { .. } => (Seq::empty(), pool),
        FunctionModel::Defined { name, body } => {
            let pre = ".global "@ + name + "\n"@ + name + ":\n"@ + "\tstr r7, r4, 0\n\tadd r4, 1\n"@;
            let st = gen_words(name, body, body.len(), GenState { text: pre, pool, insts: 2 });
            let end = word_label(name, body.len());
            (
                st.text + "br "@ + end + "\n"@ + data_text(st.pool) + end + ":\n"@ + "\tadd r4, -1\n\tldr r7, r4, 0\n\tret\n"@,
                cleared(st.pool),
            )
        },
    }
}

/// The code of the first `k` functions and the pool after them.
pub open spec fn gen_functions(fs: Seq<FunctionModel>, k: nat) -> (Seq<char>, PoolModel)
    decreases k,
{
    if k == 0 || k > fs.len() {
        (Seq::empty(), PoolModel { next_id: 0, strings: Seq::empty(), ints: Seq::empty(), funcs: Seq::empty() })
    } else {
        let (text, pool) = gen_functions(fs, (k - 1) as nat);
        let (t, p) = gen_function(fs[k - 1], pool);
        (text + t, p)
    }
}


/// The words of the literal pool that a word can add: its string's UTF-8
/// bytes and a terminator, or one for an integer or a function address.
pub open spec fn word_cost(w: WordModel) -> nat {
    match w {
        WordModel::PushString(s) | WordModel::AddStr(s) | WordModel::AndStr(s) | WordModel::NotStr(s) =>
            vstd::utf8::encode_utf8(s).len() + 1,
        WordModel::PushInt(_) | WordModel::Call(_) => 1,
        _ => 0,
    }
}

/// The pool words that the first `k` words of a body can add.
pub open spec fn body_cost(body: Seq<WordModel>, k: nat) -> nat
    decreases k,
{
    if k == 0 || k > body.len() {
        0
    } else {
        body_cost(body, (k - 1) as nat) + word_cost(body[k - 1])
    }
}

/// The words of the first `k` functions.
pub open spec fn words_before(fs: Seq<FunctionModel>, k: nat) -> nat
    decreases k,
{
    if k == 0 || k > fs.len() {
        0
    } else {
        words_before(fs, (k - 1) as nat) + match fs[k - 1] {
            FunctionModel::Defined { body, .. } => body.len(),
            FunctionModel::External { .. } => 0,
        }
    }
}

/// Whether a program's counts fit the machine: its labels can be numbered,
/// and no function's constants come near the size of memory.
pub open spec fn codegen_fits(fs: Seq<FunctionModel>) -> bool {
    &&& words_before(fs, fs.len()) < usize::MAX
    &&& forall|k: int| 0 <= k < fs.len() ==> (#[trigger] fs[k] matches FunctionModel::Defined { body, .. }
        ==> body_cost(body, body.len()) <= usize::MAX - 300)
}

/// A word's code takes at most six instructions, adds at most its cost to
/// the pool, and takes at most one label number.
proof fn lemma_word_code_bounds(name: Seq<char>, w: WordModel, p: PoolModel)
    ensures
        word_code(name, w, p).2 <= 6,
        pool_size(word_code(name, w, p).1) <= pool_size(p) + word_cost(w),
        word_code(name, w, p).1.next_id <= p.next_id + 1,
{
    let q = word_code(name, w, p).1;
    match w {
        WordModel::PushString(s) | WordModel::AddStr(s) | WordModel::AndStr(s) | WordModel::NotStr(s) => {
            if q.strings.len() > p.strings.len() {
                assert(q.strings.drop_last() =~= p.strings);
            }
        },
        _ => {},
    }
}

/// Appends the listing form of a string constant.
fn push_listing_string(out: &mut Vec<char>, s: &str)
    ensures
        final(out)@ == old(out)@ + listing_string(s@),
{
    let cs = chars_of(s);
    let ghost b0 = old(out)@;
    out.push('"');
    let mut k: usize = 0;
    while k < cs.len()
        invariant
            cs@ == s@,
            k <= cs@.len(),
            out@ == b0 + seq!['"'] + listing_escape(cs@.take(k as int)),
        decreases cs@.len() - k,
    {
        assert(cs@.take(k + 1).drop_last() =~= cs@.take(k as int));
        let c = cs[k];
        if c == '\n' {
            out.push('\\');
            out.push('\\');
            out.push('n');
        } else if c == '\t' {
            out.push('\\');
            out.push('\\');
            out.push('t');
        } else if c == '\\' {
            out.push('\\');
            out.push('\\');
        } else if c == '"' {
            out.push('\\');
            out.push('"');
        } else {
            out.push(c);
        }
        assert(out@ =~= b0 + seq!['"'] + listing_escape(cs@.take(k + 1)));
        k += 1;
    }
    assert(cs@.take(cs@.len() as int) =~= cs@);
    out.push('"');
    assert(out@ =~= b0 + listing_string(s@));
}

/// Appends the decimal numeral of a signed number.
fn push_i64(out: &mut Vec<char>, v: i64)
    ensures
        final(out)@ == old(out)@ + signed_decimal(v as int),
{
    let d = i64_decimal(v);
    push_char_vec(out, &d);
}

/// Appends the decimal numeral of an index.
fn push_usize(out: &mut Vec<char>, v: usize)
    ensures
        final(out)@ == old(out)@ + decimal(v as nat),
{
    let d = u64_decimal(v as u64);
    push_char_vec(out, &d);
}

/// Appends the label of word `i` of function `name`.
fn push_word_label(out: &mut Vec<char>, name: &str, i: usize)
    ensures
        final(out)@ == old(out)@ + word_label(name@, i as nat),
{
    push_chars(out, "__");
    push_chars(out, name);
    push_chars(out, "_w");
    push_usize(out, i);
    assert(out@ =~= old(out)@ + word_label(name@, i as nat));
}

/// Appends how a word is shown in its listing comment.
fn push_listing(out: &mut Vec<char>, w: &Word)
    ensures
        final(out)@ == old(out)@ + word_listing(w@),
{
    let ghost b0 = old(out)@;
    match w {
        Word::PushInt(v) => push_i64(out, *v),
        Word::PushString(s) => push_listing_string(out, s.as_str()),
        Word::Drop => push_chars(out, "drop"),
        Word::Add => push_chars(out, "add"),
        Word::AddInt(v) => {
            push_i64(out, *v);
            push_chars(out, " add");
        }
        Word::AddStr(s) => {
            push_listing_string(out, s.as_str());
            push_chars(out, " add");
        }
        Word::And => push_chars(out, "and"),
        Word::AndInt(v) => {
            push_i64(out, *v);
            push_chars(out, " and");
        }
        Word::AndStr(s) => {
            push_listing_string(out, s.as_str());
            push_chars(out, " and");
        }
        Word::Not => push_chars(out, "not"),
        Word::NotInt(v) => {
            push_i64(out, *v);
            push_chars(out, " not");
        }
        Word::NotStr(s) => {
            push_listing_string(out, s.as_str());
            push_chars(out, " not");
        }
        Word::Dup => push_chars(out, "dup"),
        Word::TwoDup => push_chars(out, "2dup"),
        Word::Swap => push_chars(out, "swap"),
        Word::Rot => push_chars(out, "rot"),
        Word::Dr => push_chars(out, "dr"),
        Word::Rd => push_chars(out, "rd"),
        Word::While => push_chars(out, "while"),
        Word::If(_) => push_chars(out, "if"),
        Word::Else(_) => push_chars(out, "else"),
        Word::Do(_) => push_chars(out, "do"),
        Word::End(_) => push_chars(out, "end"),
        Word::Trap1 => push_chars(out, "trap1"),
        Word::Trap2 => push_chars(out, "trap2"),
        Word::Call(f) => push_chars(out, f.as_str()),
    }
    assert(out@ =~= b0 + word_listing(w@));
}


/// Appends the code of one word, interning its constant; the instructions it takes.
fn push_word_code(out: &mut Vec<char>, pool: &mut LiteralPool, name: &str, w: &Word) -> (n: usize)
    requires
        old(pool)@.next_id < usize::MAX,
    ensures
        ({
            let (code, p, k) = word_code(name@, w@, old(pool)@);
            final(out)@ == old(out)@ + code && final(pool)@ == p && n == k
        }),
{
    let ghost b0 = old(out)@;
    let ghost p0 = old(pool)@;
    let n: usize = match w {
        Word::PushInt(v) => {
            let label = pool.intern_int(*v);
            push_chars(out, "\tld r0, ");
            push_chars(out, label.as_str());
            push_chars(out, "\n\tstr r0, r6, 0\n\tadd r6, 1\n");
            3
        }
        Word::PushString(s) => {
            let label = pool.intern_string(s.as_str());
            push_chars(out, "\tlea r0, ");
            push_chars(out, label.as_str());
            push_chars(out, "\n\tstr r0, r6, 0\n\tadd r6, 1\n");
            3
        }
        Word::Drop => {
            push_chars(out, "\tadd r6, -1\n");
            1
        }
        Word::Add => {
            push_chars(out, "\tldr r0, r6, -1\n\tldr r1, r6, -2\n\tadd r0, r1\n\tstr r0, r6, -2\n\tadd r6, -1\n");
            5
        }
        Word::AddInt(v) => {
            push_chars(out, "\tldr r0, r6, -1\n\tadd r0, ");
            push_i64(out, *v);
            push_chars(out, "\n\tstr r0, r6, -1\n");
            3
        }
        Word::AddStr(s) => {
            let label = pool.intern_string(s.as_str());
            push_chars(out, "\tldr r0, r6, -1\n\tlea r1, ");
            push_chars(out, label.as_str());
            push_chars(out, "\n\tadd r0, r1\n\tstr r0, r6, -1\n");
            4
        }
        Word::And => {
            push_chars(out, "\tldr r0, r6, -1\n\tldr r1, r6, -2\n\tand r0, r1\n\tstr r0, r6, -2\n\tadd r6, -1\n");
            5
        }
        Word::AndInt(v) => {
            push_chars(out, "\tldr r0, r6, -1\n\tand r0, ");
            push_i64(out, *v);
            push_chars(out, "\n\tstr r0, r6, -1\n");
            3
        }
        Word::AndStr(s) => {
            let label = pool.intern_string(s.as_str());
            push_chars(out, "\tldr r0, r6, -1\n\tlea r1, ");
            push_chars(out, label.as_str());
            push_chars(out, "\n\tand r0, r1\n\tstr r0, r6, -1\n");
            4
        }
        Word::Not => {
            push_chars(out, "\tldr r0, r6, -1\n\tnot r0\n\tstr r0, r6, -1\n");
            3
        }
        Word::NotInt(v) => {
            push_chars(out, "\tand r0, 0\n\tadd r0, ");
            push_i64(out, *v);
            push_chars(out, "\n\tnot r0\n\tstr r0, r6, -1\n");
            4
        }
        Word::NotStr(s) => {
            let label = pool.intern_string(s.as_str());
            push_chars(out, "\tlea r0, ");
            push_chars(out, label.as_str());
            push_chars(out, "\n\tnot r0\n\tstr r0, r6, -1\n");
            3
        }
        Word::Dup => {
            push_chars(out, "\tldr r0, r6, -1\n\tstr r0, r6, 0\n\tadd r6, 1\n");
            3
        }
        Word::TwoDup => {
            push_chars(out, "\tldr r0, r6, -2\n\tstr r0, r6, 0\n\tldr r0, r6, -1\n\tstr r0, r6, 1\n\tadd r6, 2\n");
            5
        }
        Word::Swap => {
            push_chars(out, "\tldr r0, r6, -1\n\tldr r1, r6, -2\n\tstr r0, r6, -2\n\tstr r1, r6, -1\n");
            4
        }
        Word::Rot => {
            push_chars(out, "\tldr r0, r6, -1\n\tldr r1, r6, -2\n\tldr r2, r6, -3\n\tstr r1, r6, -3\n\tstr r0, r6, -2\n\tstr r2, r6, -1\n");
            6
        }
        Word::Dr => {
            push_chars(out, "\tadd r6, -1\n\tldr r0, r6, 0\n\tstr r0, r4, 0\n\tadd r4, 1\n");
            4
        }
        Word::Rd => {
            push_chars(out, "\tadd r4, -1\n\tldr r0, r4, 0\n\tstr r0, r6, 0\n\tadd r6, 1\n");
            4
        }
        Word::While => 0,
        Word::If(skip) | Word::Do(skip) => {
            push_chars(out, "\tadd r6, -1\n\tldr r0, r6, 0\n\tbrz ");
            push_word_label(out, name, *skip);
            push_chars(out, "\n");
            3
        }
        Word::Else(skip) => {
            push_chars(out, "\tbr ");
            push_word_label(out, name, *skip);
            push_chars(out, "\n");
            1
        }
        Word::End(Some(back)) => {
            push_chars(out, "\tbr ");
            push_word_label(out, name, *back);
            push_chars(out, "\n");
            1
        }
        Word::End(None) => 0,
        Word::Trap1 => {
            push_chars(out, "\tadd r6, -1\n\tldr r0, r6, 0\n\ttrap 1\n");
            3
        }
        Word::Trap2 => {
            push_chars(out, "\tadd r6, -1\n\tldr r0, r6, 0\n\ttrap 2\n");
            3
        }
        Word::Call(f) => {
            let label = pool.intern_func(f.as_str());
            push_chars(out, "\tld r0, ");
            push_chars(out, label.as_str());
            push_chars(out, "\n\tjsr r0\n");
            2
        }
    };
    assert(out@ =~= b0 + word_code(name@, w@, p0).0);
    n
}

/// Appends the data section of the pool and empties it.
fn flush_pool(out: &mut Vec<char>, pool: &mut LiteralPool)
    ensures
        final(out)@ == old(out)@ + data_text(old(pool)@),
        final(pool)@ == cleared(old(pool)@),
{
    let mut data = String::new();
    pool.emit_data_section(&mut data);
    push_chars(out, data.as_str());
    pool.clear();
}


/// Appends one word of a function: its label and listing, its code, and a
/// flush of the pool when the code since the last flush and the pool
/// together reach 200 words; the new instruction count.
fn push_word_step(out: &mut Vec<char>, pool: &mut LiteralPool, insts: usize, name: &str, i: usize, w: &Word) -> (n: usize)
    requires
        insts < 200,
        i < usize::MAX,
        old(pool)@.next_id < usize::MAX,
        pool_size(old(pool)@) + word_cost(w@) <= usize::MAX - 300,
    ensures
        ({
            let st = gen_step(name@, i as nat, w@, GenState { text: old(out)@, pool: old(pool)@, insts: insts as nat });
            final(out)@ == st.text && final(pool)@ == st.pool && n == st.insts
        }),
        n < 200,
        pool_size(final(pool)@) <= pool_size(old(pool)@) + word_cost(w@),
        final(pool)@.next_id <= old(pool)@.next_id + 1,
{
    proof {
        lemma_word_code_bounds(name@, w@, old(pool)@);
    }
    let ghost b0 = old(out)@;
    push_word_label(out, name, i);
    push_chars(out, ":                 ;;; ");
    push_listing(out, w);
    push_chars(out, " ;;;\n");
    let n = push_word_code(out, pool, name, w);
    let total = insts + n;
    let size = pool.size();
    if total + size >= 200 {
        push_chars(out, "br ");
        push_word_label(out, name, i + 1);
        push_chars(out, "\n");
        flush_pool(out, pool);
        1
    } else {
        total
    }
}

/// Appends the code of a defined function.
fn push_function(out: &mut Vec<char>, pool: &mut LiteralPool, name: &str, body: &Vec<Word>)
    requires
        pool_size(old(pool)@) == 0,
        old(pool)@.next_id + body@.len() < usize::MAX,
        body_cost(words_view(body@), body@.len()) <= usize::MAX - 300,
    ensures
        ({
            let (text, p) = gen_function(FunctionModel::Defined { name: name@, body: words_view(body@) }, old(pool)@);
            final(out)@ == old(out)@ + text && final(pool)@ == p
        }),
        pool_size(final(pool)@) == 0,
        final(pool)@.next_id <= old(pool)@.next_id + body@.len(),
{
    let ghost wv = words_view(body@);
    let ghost b0 = old(out)@;
    let ghost p0 = old(pool)@;
    push_chars(out, ".global ");
    push_chars(out, name);
    push_chars(out, "\n");
    push_chars(out, name);
    push_chars(out, ":\n");
    push_chars(out, "\tstr r7, r4, 0\n\tadd r4, 1\n");
    let ghost pre = ".global "@ + name@ + "\n"@ + name@ + ":\n"@ + "\tstr r7, r4, 0\n\tadd r4, 1\n"@;
    assert(out@ =~= b0 + pre);
    let ghost st0 = GenState { text: pre, pool: p0, insts: 2 };
    let mut insts: usize = 2;
    let mut i: usize = 0;
    while i < body.len()
        invariant
            wv == words_view(body@),
            i <= body@.len(),
            p0.next_id + body@.len() < usize::MAX,
            body_cost(wv, body@.len()) <= usize::MAX - 300,
            insts < 200,
            pool_size(pool@) <= body_cost(wv, i as nat),
            pool@.next_id <= p0.next_id + i,
            ({
                let st = gen_words(name@, wv, i as nat, st0);
                out@ == b0 + st.text && pool@ == st.pool && insts == st.insts
            }),
        decreases body@.len() - i,
    {
        let ghost st = gen_words(name@, wv, i as nat, st0);
        let w = &body[i];
        assert(wv[i as int] == w@);
        proof {
            lemma_body_cost_grows(wv, (i + 1) as nat, body@.len() as nat);
        }
        let ghost o1 = out@;
        insts = push_word_step(out, pool, insts, name, i, w);
        assert(out@ =~= b0 + gen_step(name@, i as nat, w@, st).text);
        i += 1;
    }
    push_chars(out, "br ");
    push_word_label(out, name, body.len());
    push_chars(out, "\n");
    flush_pool(out, pool);
    push_word_label(out, name, body.len());
    push_chars(out, ":\n");
    push_chars(out, "\tadd r4, -1\n\tldr r7, r4, 0\n\tret\n");
    assert(out@ =~= b0 + gen_function(FunctionModel::Defined { name: name@, body: wv }, p0).0);
}

/// Pool costs only grow along a body.
proof fn lemma_body_cost_grows(body: Seq<WordModel>, j: nat, k: nat)
    requires
        j <= k <= body.len(),
    ensures
        body_cost(body, j) <= body_cost(body, k),
    decreases k - j,
{
    if j < k {
        lemma_body_cost_grows(body, j, (k - 1) as nat);
    }
}

/// Compiles an archive program to bassembly text: for each defined function a
/// global label, a prologue that saves the return address, each word's code
/// under its own label with a listing comment, the literal pool's data
/// (flushed in between where the code grows long), and an epilogue that returns.
pub fn generate_bassembly(program: Program) -> (r: String)
    requires
        codegen_fits(program@.functions),
    ensures
        r@ == gen_functions(program@.functions, program@.functions.len()).0,
{
    let ghost fs = program@.functions;
    let mut out: Vec<char> = Vec::new();
    let mut pool = LiteralPool::new();
    let mut k: usize = 0;
    while k < program.functions.len()
        invariant
            fs == program@.functions,
            codegen_fits(fs),
            k <= fs.len(),
            pool_size(pool@) == 0,
            pool@.next_id <= words_before(fs, k as nat),
            (out@, pool@) == gen_functions(fs, k as nat),
        decreases fs.len() - k,
    {
        proof { lemma_words_before_grows(fs, (k + 1) as nat, fs.len() as nat); }
        assert(program.functions@[k as int]@ == fs[k as int]);
        match &program.functions[k] {
            FunctionDecl::External { .. } => {},
            FunctionDecl::Defined { name, body } => {
                push_function(&mut out, &mut pool, name.as_str(), body);
            }
        }
        k += 1;
    }
    string_of_chars(out.as_slice())
}

/// The word counts of the functions only grow.
proof fn lemma_words_before_grows(fs: Seq<FunctionModel>, j: nat, k: nat)
    requires
        j <= k <= fs.len(),
    ensures
        words_before(fs, j) <= words_before(fs, k),
    decreases k - j,
{
    if j < k {
        lemma_words_before_grows(fs, j, (k - 1) as nat);
    }
}

} // verus!
