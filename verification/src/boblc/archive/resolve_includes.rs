//! Splicing included archive files into a program: whether an include is new,
//! already spliced, or part of a cycle, and reading an included file.
use vstd::prelude::*;
use super::lex::{lemma_words_count, lex, token_words, words_from, LexError, Token};
use super::parse::{parse, program_spec, ParseError, Program, ProgramModel};
use crate::text::{str_eq, string_of_chars};
use super::lex::lex_error_text;
use super::parse::parse_error_text;
use super::literalpool::push_chars;

verus! {

/// Why the includes of a program could not be spliced in. Paths are the
/// canonical paths of the files, as text.
#[derive(Debug)]
pub enum IncludeError {
    Io { path: String, message: String },
    Lex { path: String, error: LexError },
    Parse { path: String, error: ParseError },
    CircularInclude { path: String },
}

/// What to do with an include, by its canonical path.
#[derive(Debug, Clone, Copy, PartialEq, Eq, Structural)]
pub enum IncludeStep {
    /// It was spliced in already: nothing to do.
    Skip,
    /// It is being spliced in: the includes form a cycle.
    Circular,
    /// It is new: read it and splice it in.
    Enter,
}

/// Some paths, as text.
pub open spec fn paths_view(v: Seq<String>) -> Seq<Seq<char>> {
    v.map_values(|s: String| s@)
}

/// Some paths without any that equals `p`.
pub open spec fn without(paths: Seq<Seq<char>>, p: Seq<char>) -> Seq<Seq<char>>
    decreases paths.len(),
{
    if paths.len() == 0 {
        paths
    } else if paths.last() == p {
        without(paths.drop_last(), p)
    } else {
        without(paths.drop_last(), p).push(paths.last())
    }
}

/// Whether `p` is one of `v`.
pub(crate) fn contains_path(v: &Vec<String>, p: &str) -> (r: bool)
    ensures
        r == paths_view(v@).contains(p@),
{
    let mut k: usize = 0;
    while k < v.len()
        invariant
            k <= v@.len(),
            forall|m: int| 0 <= m < k ==> v@[m]@ != p@,
        decreases v@.len() - k,
    {
        if str_eq(v[k].as_str(), p) {
            assert(paths_view(v@)[k as int] == p@);
            return true;
        }
        k += 1;
    }
    proof {
        if paths_view(v@).contains(p@) {
            let m = choose|m: int| 0 <= m < paths_view(v@).len() && paths_view(v@)[m] == p@;
            assert(v@[m]@ == p@);
        }
    }
    false
}

/// `v` without the paths equal to `p`.
pub(crate) fn remove_path(v: Vec<String>, p: &str) -> (r: Vec<String>)
    ensures
        paths_view(r@) == without(paths_view(v@), p@),
{
    let mut out: Vec<String> = Vec::new();
    let mut rest = v;
    let ghost all = paths_view(rest@);
    let mut k: usize = 0;
    let n = rest.len();
    assert(all.take(0) =~= Seq::<Seq<char>>::empty());
    while k < n
        invariant
            n == all.len(),
            k <= n,
            paths_view(rest@) == all,
            paths_view(out@) == without(all.take(k as int), p@),
        decreases n - k,
    {
        let item = rest[k].clone();
        proof {
            assert(all.take(k + 1).drop_last() =~= all.take(k as int));
            assert(all.take(k + 1).last() == all[k as int]);
        }
        if !str_eq(item.as_str(), p) {
            let ghost before = out@;
            out.push(item);
            assert(paths_view(out@) =~= paths_view(before).push(all[k as int]));
        }
        k += 1;
    }
    assert(all.take(n as int) =~= all);
    out
}

/// The files being spliced in, innermost last, and those spliced in already.
pub struct IncludeTracker {
    in_progress: Vec<String>,
    done: Vec<String>,
}

impl IncludeTracker {
    /// The canonical paths of the files being spliced in.
    pub closed spec fn in_progress(&self) -> Seq<Seq<char>> {
        paths_view(self.in_progress@)
    }

    /// The canonical paths of the files spliced in already.
    pub closed spec fn done(&self) -> Seq<Seq<char>> {
        paths_view(self.done@)
    }

    /// A tracker before any include.
    pub fn new() -> (t: Self)
        ensures
            t.in_progress() == Seq::<Seq<char>>::empty(),
            t.done() == Seq::<Seq<char>>::empty(),
    {
        let t = IncludeTracker { in_progress: Vec::new(), done: Vec::new() };
        assert(t.in_progress() =~= Seq::<Seq<char>>::empty());
        assert(t.done() =~= Seq::<Seq<char>>::empty());
        t
    }

    /// What to do with the include at `canonical`: skip a file spliced in
    /// already; refuse one being spliced in; else enter it.
    pub fn check(&self, canonical: &str) -> (s: IncludeStep)
        ensures
            s == (if self.done().contains(canonical@) {
                IncludeStep::Skip
            } else if self.in_progress().contains(canonical@) {
                IncludeStep::Circular
            } else {
                IncludeStep::Enter
            }),
    {
        if contains_path(&self.done, canonical) {
            IncludeStep::Skip
        } else if contains_path(&self.in_progress, canonical) {
            IncludeStep::Circular
        } else {
            IncludeStep::Enter
        }
    }

    /// Starts splicing in the file at `canonical`.
    pub fn enter(&mut self, canonical: String)
        ensures
            final(self).in_progress() == old(self).in_progress().push(canonical@),
            final(self).done() == old(self).done(),
    {
        let ghost before = self.in_progress@;
        self.in_progress.push(canonical);
        assert(paths_view(self.in_progress@) =~= paths_view(before).push(canonical@));
    }

    /// Finishes splicing in the file at `canonical`: it is no longer in
    /// progress, and it is done.
    pub fn leave(&mut self, canonical: &str)
        ensures
            final(self).in_progress() == without(old(self).in_progress(), canonical@),
            final(self).done() == old(self).done().push(canonical@),
    {
        let mut ip: Vec<String> = Vec::new();
        std::mem::swap(&mut ip, &mut self.in_progress);
        self.in_progress = remove_path(ip, canonical);
        let ghost before = self.done@;
        self.done.push(canonical.to_owned());
        assert(paths_view(self.done@) =~= paths_view(before).push(canonical@));
    }
}

/// The source of an included file, split into words and parsed; an error
/// names the file by `path`.
pub fn parse_included(path: &str, src: &str) -> (r: Result<Program, IncludeError>)
    requires
        src@.len() < usize::MAX,
    ensures
        words_from(src@, 0, Seq::empty(), 1) is Err <==> r matches Err(IncludeError::Lex { .. }),
        r matches Err(IncludeError::Lex { path: p, error: LexError::UnterminatedString { line: l } }) ==>
            p@ == path@ && words_from(src@, 0, Seq::empty(), 1) == Err::<Seq<(Seq<char>, usize)>, usize>(l),
        r matches Ok(prog) ==> exists|ts: Seq<Token>|
            words_from(src@, 0, Seq::empty(), 1) == Ok::<Seq<(Seq<char>, usize)>, usize>(token_words(ts))
            && program_spec(ts, 0, ProgramModel { includes: Seq::empty(), functions: Seq::empty() }) == Ok::<ProgramModel, super::parse::ParseErrorModel>(prog@),
        r matches Err(IncludeError::Parse { path: p, error: e }) ==> p@ == path@ && exists|ts: Seq<Token>|
            words_from(src@, 0, Seq::empty(), 1) == Ok::<Seq<(Seq<char>, usize)>, usize>(token_words(ts))
            && program_spec(ts, 0, ProgramModel { includes: Seq::empty(), functions: Seq::empty() }) == Err::<ProgramModel, super::parse::ParseErrorModel>(e@),
        !(r matches Err(IncludeError::Io { .. })),
        !(r matches Err(IncludeError::CircularInclude { .. })),
{
    let tokens = match lex(src) {
        Ok(ts) => ts,
        Err(error) => return Err(IncludeError::Lex { path: path.to_owned(), error }),
    };
    proof {
        lemma_words_count(src@, 0, Seq::empty(), 1);
        assert(token_words(tokens@).len() == tokens@.len());
    }
    match parse(tokens.as_slice()) {
        Ok(prog) => Ok(prog),
        Err(error) => Err(IncludeError::Parse { path: path.to_owned(), error }),
    }
}


/// The text of an include error, naming the file.
pub open spec fn include_error_text(e: IncludeError) -> Seq<char> {
    match e {
        IncludeError::Io { path, message } => "couldn't read "@ + path@ + ": "@ + message@,
        IncludeError::Lex { path, error } => path@ + ": "@ + lex_error_text(error),
        IncludeError::Parse { path, error } => path@ + ": "@ + parse_error_text(error@),
        IncludeError::CircularInclude { path } => "circular include detected at "@ + path@,
    }
}

impl IncludeError {
    /// The text of the error, naming the file.
    pub fn message(&self) -> (s: String)
        ensures
            s@ == include_error_text(*self),
    {
        let mut buf: Vec<char> = Vec::new();
        match self {
            IncludeError::Io { path, message } => {
                push_chars(&mut buf, "couldn't read ");
                push_chars(&mut buf, path.as_str());
                push_chars(&mut buf, ": ");
                push_chars(&mut buf, message.as_str());
            },
            IncludeError::Lex { path, error } => {
                push_chars(&mut buf, path.as_str());
                push_chars(&mut buf, ": ");
                let m = error.message();
                push_chars(&mut buf, m.as_str());
            },
            IncludeError::Parse { path, error } => {
                push_chars(&mut buf, path.as_str());
                push_chars(&mut buf, ": ");
                let m = error.message();
                push_chars(&mut buf, m.as_str());
            },
            IncludeError::CircularInclude { path } => {
                push_chars(&mut buf, "circular include detected at ");
                push_chars(&mut buf, path.as_str());
            },
        }
        let s = string_of_chars(buf.as_slice());
        assert(s@ =~= include_error_text(*self));
        s
    }
}

} // verus!
