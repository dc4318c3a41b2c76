//! Splitting archive source into words: whitespace separates them, `//` starts
//! a comment, and a string literal is one word, quotes included.
use vstd::prelude::*;
use crate::basm::lexer::{comment_end, escaped, lemma_scan_string, lemma_scans, scan_string};
use crate::text::{chars_of, is_whitespace, string_of_chars, unicode_whitespace};
use super::parse::no_lone_quote;
use super::literalpool::push_chars;
use crate::text::{decimal, push_decimal};

verus! {

/// Why archive source does not split into words.
#[derive(Debug)]
pub enum LexError {
    UnterminatedString { line: usize },
}

/// A word of archive source and the line it is on.
#[derive(Debug, Clone)]
pub struct Token {
    pub val: String,
    pub line: usize,
}

/// The word being gathered, as a token of its own if it is not empty.
pub open spec fn flushed(cur: Seq<char>, line: usize) -> Seq<(Seq<char>, usize)> {
    if cur.len() == 0 { Seq::empty() } else { seq![(cur, line)] }
}

/// The words of `cs` from index `i` on, where `cur` has been gathered so far
/// on line `line`; or the line of an unterminated string.
pub open spec fn words_from(cs: Seq<char>, i: int, cur: Seq<char>, line: usize) -> Result<Seq<(Seq<char>, usize)>, usize>
    decreases cs.len() - i,
{
    if i < 0 || i >= cs.len() {
        Ok(flushed(cur, line))
    } else {
        let c = cs[i];
        if c == '\n' {
            match words_from(cs, i + 1, Seq::empty(), (line + 1) as usize) {
                Ok(rest) => Ok(flushed(cur, line) + rest),
                Err(l) => Err(l),
            }
        } else if unicode_whitespace(c) {
            match words_from(cs, i + 1, Seq::empty(), line) {
                Ok(rest) => Ok(flushed(cur, line) + rest),
                Err(l) => Err(l),
            }
        } else if c == '/' && i + 1 < cs.len() && cs[i + 1] == '/' {
            proof {
                lemma_scans(cs, i + 1);
            }
            match words_from(cs, comment_end(cs, i + 1), Seq::empty(), line) {
                Ok(rest) => Ok(flushed(cur, line) + rest),
                Err(l) => Err(l),
            }
        } else if c == '"' {
            proof {
                lemma_scan_string(cs, i + 1);
            }
            match scan_string(cs, i + 1) {
                None => Err(line),
                Some((s, j)) => match words_from(cs, j, Seq::empty(), line) {
                    Ok(rest) => Ok(flushed(cur, line) + seq![(seq!['"'] + s + seq!['"'], line)] + rest),
                    Err(l) => Err(l),
                },
            }
        } else {
            words_from(cs, i + 1, cur.push(c), line)
        }
    }
}

/// No word is a lone quote: a plain word holds no quote, and a string word
/// has one at each end.
proof fn lemma_no_lone_quote(cs: Seq<char>, i: int, cur: Seq<char>, line: usize)
    requires
        !cur.contains('"'),
    ensures
        words_from(cs, i, cur, line) matches Ok(ws) ==> forall|k: int| 0 <= k < ws.len() ==> #[trigger] ws[k].0 != seq!['"'],
    decreases cs.len() - i,
{
    let q = seq!['"'];
    assert(cur != q) by {
        if cur == q {
            assert(cur[0] == '"');
        }
    }
    if 0 <= i < cs.len() {
        let c = cs[i];
        let e = Seq::<char>::empty();
        assert(!e.contains('"'));
        if c == '\n' {
            lemma_no_lone_quote(cs, i + 1, e, (line + 1) as usize);
        } else if unicode_whitespace(c) {
            lemma_no_lone_quote(cs, i + 1, e, line);
        } else if c == '/' && i + 1 < cs.len() && cs[i + 1] == '/' {
            lemma_scans(cs, i + 1);
            lemma_no_lone_quote(cs, comment_end(cs, i + 1), e, line);
        } else if c == '"' {
            lemma_scan_string(cs, i + 1);
            if let Some((st, j)) = scan_string(cs, i + 1) {
                lemma_no_lone_quote(cs, j, e, line);
                assert((seq!['"'] + st + seq!['"']).len() >= 2);
            }
        } else {
            assert(!cur.push(c).contains('"')) by {
                if cur.push(c).contains('"') {
                    let k = choose|k: int| 0 <= k < cur.push(c).len() && cur.push(c)[k] == '"';
                    if k < cur.len() {
                        assert(cur[k] == '"');
                    }
                }
            }
            lemma_no_lone_quote(cs, i + 1, cur.push(c), line);
        }
    }
}

/// There are no more words than characters left, counting those gathered.
pub(crate) proof fn lemma_words_count(cs: Seq<char>, i: int, cur: Seq<char>, line: usize)
    requires
        0 <= i <= cs.len(),
    ensures
        words_from(cs, i, cur, line) matches Ok(ws) ==> ws.len() <= cs.len() - i + cur.len(),
    decreases cs.len() - i,
{
    let e = Seq::<char>::empty();
    if i < cs.len() {
        let c = cs[i];
        if c == '\n' {
            lemma_words_count(cs, i + 1, e, (line + 1) as usize);
        } else if unicode_whitespace(c) {
            lemma_words_count(cs, i + 1, e, line);
        } else if c == '/' && i + 1 < cs.len() && cs[i + 1] == '/' {
            lemma_scans(cs, i + 1);
            lemma_words_count(cs, comment_end(cs, i + 1), e, line);
        } else if c == '"' {
            lemma_scan_string(cs, i + 1);
            if let Some((st, j)) = scan_string(cs, i + 1) {
                lemma_words_count(cs, j, e, line);
            }
        } else {
            lemma_words_count(cs, i + 1, cur.push(c), line);
        }
    }
}

/// The words and lines of lexed tokens.
pub open spec fn token_words(ts: Seq<Token>) -> Seq<(Seq<char>, usize)> {
    ts.map_values(|t: Token| (t.val@, t.line))
}

/// Ends the word being gathered: it becomes a token if it is not empty.
fn flush(current: &mut Vec<char>, tokens: &mut Vec<Token>, line: usize)
    ensures
        final(current)@ == Seq::<char>::empty(),
        token_words(final(tokens)@) == token_words(old(tokens)@) + flushed(old(current)@, line),
{
    if current.len() > 0 {
        let val = string_of_chars(current.as_slice());
        let ghost before = tokens@;
        tokens.push(Token { val, line });
        assert(token_words(tokens@) =~= token_words(before) + flushed(old(current)@, line));
    } else {
        assert(token_words(tokens@) =~= token_words(tokens@) + flushed(old(current)@, line));
    }
    *current = Vec::new();
}

/// The end of a comment starting at `i`.
fn skip_comment(cs: &Vec<char>, i: usize) -> (e: usize)
    requires
        i <= cs@.len(),
    ensures
        e == comment_end(cs@, i as int),
{
    let mut k = i;
    while k < cs.len() && cs[k] != '\n'
        invariant
            i <= k <= cs@.len(),
            comment_end(cs@, i as int) == comment_end(cs@, k as int),
        decreases cs@.len() - k,
    {
        k += 1;
    }
    k
}

/// A string literal whose opening quote ends before `i`, quotes included,
/// and the index after it.
fn quoted(cs: &Vec<char>, i: usize) -> (r: Option<(Vec<char>, usize)>)
    requires
        i <= cs@.len(),
    ensures
        match scan_string(cs@, i as int) {
            Some((s, j)) => r matches Some((v, e)) && v@ == seq!['"'] + s + seq!['"'] && e == j,
            None => r is None,
        },
{
    let mut acc: Vec<char> = vec!['"'];
    let mut k = i;
    loop
        invariant
            i <= k,
            acc@.len() >= 1,
            acc@[0] == '"',
            scan_string(cs@, i as int) == match scan_string(cs@, k as int) {
                Some((s, j)) => Some((acc@.drop_first() + s, j)),
                None => None::<(Seq<char>, int)>,
            },
        decreases cs@.len() - k,
    {
        if k >= cs.len() || cs[k] == '\n' {
            return None;
        }
        let c = cs[k];
        if c == '"' {
            let ghost body = acc@.drop_first();
            acc.push('"');
            assert(acc@ =~= seq!['"'] + body + seq!['"']);
            assert(body + Seq::<char>::empty() =~= body);
            return Some((acc, k + 1));
        }
        let ghost before = acc@;
        if c == '\\' {
            if k + 1 >= cs.len() {
                return None;
            }
            let d = cs[k + 1];
            let e = if d == 'n' { '\n' } else if d == 't' { '\t' } else { d };
            acc.push(e);
            proof {
                assert(e == escaped(d));
                if let Some((s, j)) = scan_string(cs@, k + 2) {
                    assert(before.drop_first() + (seq![e] + s) =~= acc@.drop_first() + s);
                }
            }
            k += 2;
        } else {
            acc.push(c);
            proof {
                if let Some((s, j)) = scan_string(cs@, k + 1) {
                    assert(before.drop_first() + (seq![c] + s) =~= acc@.drop_first() + s);
                }
            }
            k += 1;
        }
    }
}

/// Splits archive source into words, each with its line. Whitespace ends a
/// word, `//` comments run to the end of the line, and a string literal is
/// one word with its quotes and its escapes decoded.
pub fn lex(src: &str) -> (r: Result<Vec<Token>, LexError>)
    requires
        src@.len() < usize::MAX,
    ensures
        words_from(src@, 0, Seq::empty(), 1) == match r {
            Ok(ts) => Ok::<Seq<(Seq<char>, usize)>, usize>(token_words(ts@)),
            Err(LexError::UnterminatedString { line }) => Err(line),
        },
        r matches Ok(ts) ==> no_lone_quote(ts@),
{
    proof { lemma_no_lone_quote(src@, 0, Seq::empty(), 1); }
    let r = lex_words(src);
    proof {
        if r is Ok {
            let ts = r->Ok_0;
            assert forall|k: int| 0 <= k < ts@.len() implies #[trigger] ts@[k].val@ != seq!['"'] by {
                let ws = words_from(src@, 0, Seq::empty(), 1)->Ok_0;
                assert(ws == token_words(ts@));
                assert(ws[k].0 != seq!['"']);
                assert(token_words(ts@)[k].0 == ts@[k].val@);
            }
        }
    }
    r
}

/// Splits archive source into words, each with its line.
fn lex_words(src: &str) -> (r: Result<Vec<Token>, LexError>)
    requires
        src@.len() < usize::MAX,
    ensures
        words_from(src@, 0, Seq::empty(), 1) == match r {
            Ok(ts) => Ok::<Seq<(Seq<char>, usize)>, usize>(token_words(ts@)),
            Err(LexError::UnterminatedString { line }) => Err(line),
        },
{
    let cs = chars_of(src);
    let n = cs.len();
    let mut tokens: Vec<Token> = Vec::new();
    let mut current: Vec<char> = Vec::new();
    let mut line: usize = 1;
    let mut i: usize = 0;
    while i < n
        invariant
            cs@ == src@,
            n == cs@.len(),
            n < usize::MAX,
            i <= n,
            1 <= line <= i + 1,
            words_from(cs@, 0, Seq::empty(), 1) == match words_from(cs@, i as int, current@, line) {
                Ok(rest) => Ok::<Seq<(Seq<char>, usize)>, usize>(token_words(tokens@) + rest),
                Err(l) => Err(l),
            },
        decreases n - i,
    {
        let ghost t0 = token_words(tokens@);
        let ghost c0 = current@;
        let ghost i0 = i as int;
        let ghost l0 = line;
        proof {
            lemma_scans(cs@, i + 1);
            lemma_scan_string(cs@, i + 1);
        }
        let c = cs[i];
        if c == '\n' {
            flush(&mut current, &mut tokens, line);
            line = line + 1;
            i = i + 1;
            proof {
                if let Ok(rest) = words_from(cs@, i as int, Seq::empty(), line) {
                    assert(t0 + (flushed(c0, l0) + rest) =~= token_words(tokens@) + rest);
                }
            }
        } else if is_whitespace(c) {
            flush(&mut current, &mut tokens, line);
            i = i + 1;
            proof {
                if let Ok(rest) = words_from(cs@, i as int, Seq::empty(), line) {
                    assert(t0 + (flushed(c0, l0) + rest) =~= token_words(tokens@) + rest);
                }
            }
        } else if c == '/' && i + 1 < n && cs[i + 1] == '/' {
            flush(&mut current, &mut tokens, line);
            i = skip_comment(&cs, i + 1);
            proof {
                if let Ok(rest) = words_from(cs@, i as int, Seq::empty(), line) {
                    assert(t0 + (flushed(c0, l0) + rest) =~= token_words(tokens@) + rest);
                }
            }
        } else if c == '"' {
            flush(&mut current, &mut tokens, line);
            match quoted(&cs, i + 1) {
                None => return Err(LexError::UnterminatedString { line }),
                Some((s, j)) => {
                    let val = string_of_chars(s.as_slice());
                    let ghost t1 = token_words(tokens@);
                    tokens.push(Token { val, line });
                    assert(token_words(tokens@) =~= t1.push((s@, line)));
                    i = j;
                    proof {
                        if let Ok(rest) = words_from(cs@, i as int, Seq::empty(), line) {
                            assert(t0 + (flushed(c0, l0) + seq![(s@, l0)] + rest) =~= token_words(tokens@) + rest);
                        }
                    }
                }
            }
        } else {
            current.push(c);
            i = i + 1;
        }
    }
    flush(&mut current, &mut tokens, line);
    Ok(tokens)
}


/// The text of a lexing error, naming its line.
pub open spec fn lex_error_text(e: LexError) -> Seq<char> {
    match e {
        LexError::UnterminatedString { line } => "line "@ + decimal(line as nat) + ": unterminated string literal"@,
    }
}

impl LexError {
    /// The text of the error, naming its line.
    pub fn message(&self) -> (s: String)
        ensures
            s@ == lex_error_text(*self),
    {
        let mut buf: Vec<char> = Vec::new();
        match self {
            LexError::UnterminatedString { line } => {
                push_chars(&mut buf, "line ");
                push_decimal(&mut buf, *line as u64);
                push_chars(&mut buf, ": unterminated string literal");
            },
        }
        let s = string_of_chars(buf.as_slice());
        assert(s@ =~= lex_error_text(*self));
        s
    }
}

} // verus!
