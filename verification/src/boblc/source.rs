//! Positions in source text: spans of byte offsets and values tagged with them.
use vstd::prelude::*;
use crate::text::{chars_of, string_of_chars};

verus! {

/// A range of byte offsets, `lo` included and `hi` excluded.
#[derive(Debug, Clone, Copy, PartialEq, Eq, Hash, Structural)]
pub struct Span {
    pub lo: usize,
    pub hi: usize,
}

impl Span {
    /// The span from `lo` to `hi`.
    pub fn new(lo: usize, hi: usize) -> (s: Self)
        ensures
            s == (Span { lo, hi }),
    {
        Span { lo, hi }
    }

    /// The same span starting at `lo`.
    pub fn with_lo(self, lo: usize) -> (s: Self)
        ensures
            s == (Span { lo, hi: self.hi }),
    {
        Span { lo, hi: self.hi }
    }

    /// The same span ending at `hi`.
    pub fn with_hi(self, hi: usize) -> (s: Self)
        ensures
            s == (Span { lo: self.lo, hi }),
    {
        Span { lo: self.lo, hi }
    }

    /// The empty span at the start of this one.
    pub fn shrink_to_lo(self) -> (s: Self)
        ensures
            s == (Span { lo: self.lo, hi: self.lo }),
    {
        self.with_hi(self.lo)
    }

    /// The empty span at the end of this one.
    pub fn shrink_to_hi(self) -> (s: Self)
        ensures
            s == (Span { lo: self.hi, hi: self.hi }),
    {
        self.with_lo(self.hi)
    }
}

/// A value together with the span of source it came from.
#[derive(Debug, Clone, Copy, PartialEq, Eq)]
pub struct Spanned<T> {
    pub inner: T,
    pub span: Span,
}

impl<T> Spanned<T> {
    /// `inner` at `span`.
    pub fn new(inner: T, span: Span) -> (s: Self)
        ensures
            s.inner == inner,
            s.span == span,
    {
        Spanned { inner, span }
    }

    /// The value that `f` makes of the inner value, at the same span.
    pub fn map<U, F: FnOnce(T) -> U>(self, f: F) -> (s: Spanned<U>)
        requires
            f.requires((self.inner,)),
        ensures
            f.ensures((self.inner,), s.inner),
            s.span == self.span,
    {
        let span = self.span;
        Spanned { inner: f(self.inner), span }
    }
}

/// A line and column, both counted from 1.
#[derive(Debug, Clone, Copy)]
pub struct Position {
    pub line: usize,
    pub col: usize,
}


/// The number of bytes UTF-8 takes for a character.
pub open spec fn utf8_width(c: char) -> nat {
    if (c as u32) < 0x80 {
        1
    } else if (c as u32) < 0x800 {
        2
    } else if (c as u32) < 0x10000 {
        3
    } else {
        4
    }
}

/// `char::len_utf8`: the number of bytes UTF-8 takes for a character.
pub fn len_utf8(c: char) -> (n: usize)
    ensures
        n == utf8_width(c),
{
    let v = c as u32;
    if v < 0x80 {
        1
    } else if v < 0x800 {
        2
    } else if v < 0x10000 {
        3
    } else {
        4
    }
}

/// The number of bytes UTF-8 takes for some characters.
pub open spec fn byte_len(s: Seq<char>) -> nat
    decreases s.len(),
{
    if s.len() == 0 {
        0
    } else {
        byte_len(s.drop_last()) + utf8_width(s.last())
    }
}

/// The byte offsets where the lines of some text start: 0, and after each
/// newline.
pub open spec fn line_starts_spec(s: Seq<char>) -> Seq<nat>
    decreases s.len(),
{
    if s.len() == 0 {
        seq![0nat]
    } else if s.last() == '\n' {
        line_starts_spec(s.drop_last()).push(byte_len(s))
    } else {
        line_starts_spec(s.drop_last())
    }
}

/// The lines of some text, without their newlines: one more than there are
/// newlines.
pub open spec fn split_lines(s: Seq<char>) -> Seq<Seq<char>>
    decreases s.len(),
{
    if s.len() == 0 {
        seq![Seq::<char>::empty()]
    } else if s.last() == '\n' {
        split_lines(s.drop_last()).push(Seq::empty())
    } else {
        let ls = split_lines(s.drop_last());
        ls.update(ls.len() - 1, ls.last().push(s.last()))
    }
}

/// The number of newlines in some text.
pub open spec fn newlines(s: Seq<char>) -> nat
    decreases s.len(),
{
    if s.len() == 0 {
        0
    } else {
        newlines(s.drop_last()) + (if s.last() == '\n' { 1nat } else { 0 })
    }
}

/// The characters after the last newline of some text.
pub open spec fn last_line_len(s: Seq<char>) -> nat
    decreases s.len(),
{
    if s.len() == 0 || s.last() == '\n' {
        0
    } else {
        last_line_len(s.drop_last()) + 1
    }
}

/// A source file: its name, its text, and where its lines start.
#[derive(Debug)]
pub struct SourceFile {
    pub name: String,
    pub content: String,
    line_starts: Vec<usize>,
    chars: Vec<char>,
}

pub proof fn lemma_byte_len_take(s: Seq<char>, i: int)
    requires
        0 <= i < s.len(),
    ensures
        byte_len(s.take(i + 1)) == byte_len(s.take(i)) + utf8_width(s[i]),
{
    assert(s.take(i + 1).drop_last() =~= s.take(i));
}

/// Longer prefixes take more bytes.
pub proof fn lemma_byte_len_mono(s: Seq<char>, i: int, j: int)
    requires
        0 <= i <= j <= s.len(),
    ensures
        byte_len(s.take(i)) + (j - i) <= byte_len(s.take(j)),
    decreases j - i,
{
    if i < j {
        lemma_byte_len_mono(s, i, j - 1);
        lemma_byte_len_take(s, j - 1);
    }
}

/// A byte offset names at most one character boundary.
pub proof fn lemma_byte_len_injective(s: Seq<char>, i: int, k: int)
    requires
        0 <= i <= s.len(),
        0 <= k <= s.len(),
        byte_len(s.take(i)) == byte_len(s.take(k)),
    ensures
        i == k,
{
    if i < k {
        lemma_byte_len_mono(s, i, k);
    } else if k < i {
        lemma_byte_len_mono(s, k, i);
    }
}

impl SourceFile {
    /// Whether the line starts and characters agree with the text.
    pub closed spec fn wf(&self) -> bool {
        &&& self.chars@ == self.content@
        &&& self.line_starts@.len() == line_starts_spec(self.content@).len()
        &&& forall|k: int| 0 <= k < self.line_starts@.len() ==> self.line_starts@[k] as nat == #[trigger] line_starts_spec(self.content@)[k]
    }

    /// The byte offsets where its lines start.
    pub closed spec fn line_starts_view(&self) -> Seq<usize> {
        self.line_starts@
    }

    /// Its name.
    pub closed spec fn file_name(&self) -> String {
        self.name
    }

    /// Its text.
    pub closed spec fn text(&self) -> Seq<char> {
        self.content@
    }

    /// Its name.
    pub(crate) fn name_str(&self) -> (r: &str)
        ensures
            r@ == self.file_name()@,
    {
        self.name.as_str()
    }

    /// Its text.
    pub fn text_str(&self) -> (r: &str)
        ensures
            r@ == self.text(),
    {
        self.content.as_str()
    }

    /// A source file named `name` holding `content`.
    pub fn new(name: String, content: String) -> (f: Self)
        requires
            byte_len(content@) < usize::MAX,
        ensures
            f.wf(),
            f.file_name() == name,
            f.text() == content@,
    {
        let chars = chars_of(content.as_str());
        let mut line_starts: Vec<usize> = Vec::new();
        line_starts.push(0);
        let mut i: usize = 0;
        let mut b: usize = 0;
        proof { assert(chars@.take(0) =~= Seq::<char>::empty()); }
        while i < chars.len()
            invariant
                chars@ == content@,
                byte_len(content@) < usize::MAX,
                i <= chars@.len(),
                b as nat == byte_len(chars@.take(i as int)),
                line_starts@.len() == line_starts_spec(chars@.take(i as int)).len(),
                forall|k: int| 0 <= k < line_starts@.len() ==>
                    line_starts@[k] as nat == #[trigger] line_starts_spec(chars@.take(i as int))[k],
            decreases chars@.len() - i,
        {
            let c = chars[i];
            proof {
                lemma_byte_len_take(chars@, i as int);
                lemma_byte_len_mono(chars@, i + 1, chars@.len() as int);
                assert(chars@.take(chars@.len() as int) =~= chars@);
                assert(chars@.take(i + 1).drop_last() =~= chars@.take(i as int));
            }
            b = b + len_utf8(c);
            if c == '\n' {
                line_starts.push(b);
            }
            i += 1;
        }
        proof { assert(chars@.take(chars@.len() as int) =~= chars@); }
        SourceFile { name, content, line_starts, chars }
    }

    /// The line and column, both from 1, of the character at byte `offset`.
    pub fn offset_to_position(&self, offset: usize) -> (p: Position)
        requires
            self.wf(),
            offset < usize::MAX,
            exists|i: int| 0 <= i <= self.text().len() && byte_len(self.text().take(i)) == offset,
        ensures
            forall|i: int| 0 <= i <= self.text().len() && byte_len(self.text().take(i)) == offset ==>
                p.line == newlines(self.text().take(i)) + 1 && p.col == last_line_len(self.text().take(i)) + 1,
    {
        let ghost s = self.content@;
        let ghost j = choose|i: int| 0 <= i <= s.len() && byte_len(s.take(i)) == offset;
        let mut i: usize = 0;
        let mut b: usize = 0;
        let mut line: usize = 1;
        let mut col: usize = 1;
        proof { assert(s.take(0) =~= Seq::<char>::empty()); }
        while b < offset
            invariant
                self.wf(),
                s == self.content@,
                0 <= j <= s.len(),
                byte_len(s.take(j)) == offset,
                offset < usize::MAX,
                i <= j,
                b as nat == byte_len(s.take(i as int)),
                line as nat == newlines(s.take(i as int)) + 1,
                col as nat == last_line_len(s.take(i as int)) + 1,
            decreases j - i,
        {
            proof {
                if i == j {
                    assert(false);
                }
                lemma_byte_len_take(s, i as int);
                lemma_byte_len_mono(s, i + 1, j);
                lemma_byte_len_mono(s, 0, i as int);
                assert(s.take(0) =~= Seq::<char>::empty());
                lemma_newlines_bound(s.take(i as int));
                assert(s.take(i + 1).drop_last() =~= s.take(i as int));
            }
            let c = self.chars[i];
            b = b + len_utf8(c);
            if c == '\n' {
                line = line + 1;
                col = 1;
            } else {
                col = col + 1;
            }
            i += 1;
        }
        proof {
            if i < j {
                lemma_byte_len_mono(s, i as int + 1, j);
                lemma_byte_len_take(s, i as int);
            }
            assert forall|k: int| 0 <= k <= s.len() && byte_len(s.take(k)) == offset implies k == i by {
                if k < i {
                    lemma_byte_len_mono(s, k, i as int);
                    lemma_byte_len_take(s, k);
                    lemma_byte_len_mono(s, k + 1, i as int);
                } else if k > i {
                    lemma_byte_len_take(s, i as int);
                    lemma_byte_len_mono(s, i + 1, k);
                }
            }
        }
        Position { line, col }
    }

    /// The number of characters before byte `offset`.
    pub(crate) fn char_index(&self, offset: usize) -> (i: usize)
        requires
            self.wf(),
            exists|i: int| 0 <= i <= self.text().len() && byte_len(self.text().take(i)) == offset,
        ensures
            i <= self.text().len(),
            byte_len(self.text().take(i as int)) == offset,
    {
        let ghost s = self.content@;
        let ghost j = choose|i: int| 0 <= i <= s.len() && byte_len(s.take(i)) == offset;
        let mut i: usize = 0;
        let mut b: usize = 0;
        proof { assert(s.take(0) =~= Seq::<char>::empty()); }
        while b < offset
            invariant
                self.wf(),
                s == self.content@,
                0 <= j <= s.len(),
                byte_len(s.take(j)) == offset,
                i <= j,
                b as nat == byte_len(s.take(i as int)),
            decreases j - i,
        {
            proof {
                if i == j {
                    assert(false);
                }
                lemma_byte_len_take(s, i as int);
                lemma_byte_len_mono(s, i + 1, j);
                lemma_byte_len_mono(s, 0, i as int);
                assert(s.take(0) =~= Seq::<char>::empty());
            }
            b = b + len_utf8(self.chars[i]);
            i += 1;
        }
        proof {
            if i < j {
                lemma_byte_len_mono(s, i as int, j);
            }
        }
        i
    }

    /// The text of line `line`, counted from 1, without its newline.
    pub fn line_text(&self, line: usize) -> (t: String)
        requires
            self.wf(),
            1 <= line <= newlines(self.text()) + 1,
        ensures
            t@ == split_lines(self.text())[line - 1],
    {
        let ghost s = self.content@;
        proof { lemma_line_counts(s); }
        let mut i: usize = 0;
        let mut seen: usize = 0;
        let mut cur: Vec<char> = Vec::new();
        proof { assert(s.take(0) =~= Seq::<char>::empty()); }
        while i < self.chars.len()
            invariant
                self.wf(),
                s == self.content@,
                1 <= line <= newlines(s) + 1,
                i <= s.len(),
                seen as nat == newlines(s.take(i as int)),
                seen < line,
                seen + 1 == line ==> cur@ == split_lines(s.take(i as int)).last(),
            decreases s.len() - i,
        {
            let c = self.chars[i];
            proof {
                assert(s.take(i + 1).drop_last() =~= s.take(i as int));
                lemma_split_lines_len(s.take(i as int));
                lemma_newlines_prefix(s, i + 1, s.len() as int);
                assert(s.take(s.len() as int) =~= s);
            }
            if c == '\n' {
                if seen + 1 == line {
                    proof {
                        lemma_split_lines_keep(s, i as int, s.len() as int, line - 1);
                        assert(s.take(s.len() as int) =~= s);
                    }
                    return string_of_chars(cur.as_slice());
                }
                seen = seen + 1;
                cur = Vec::new();
            } else if seen + 1 == line {
                cur.push(c);
            }
            i += 1;
        }
        proof {
            assert(s.take(s.len() as int) =~= s);
            lemma_split_lines_len(s);
        }
        string_of_chars(cur.as_slice())
    }
}


/// A text has no more newlines, nor characters on its last line, than characters.
pub(crate) proof fn lemma_newlines_bound(s: Seq<char>)
    ensures
        newlines(s) <= s.len(),
        last_line_len(s) <= s.len(),
    decreases s.len(),
{
    if s.len() > 0 {
        lemma_newlines_bound(s.drop_last());
    }
}

/// A prefix has no more newlines than the whole.
pub(crate) proof fn lemma_newlines_prefix(s: Seq<char>, i: int, j: int)
    requires
        0 <= i <= j <= s.len(),
    ensures
        newlines(s.take(i)) <= newlines(s.take(j)),
    decreases j - i,
{
    if i < j {
        lemma_newlines_prefix(s, i, j - 1);
        assert(s.take(j).drop_last() =~= s.take(j - 1));
    }
}

/// There is one line more than there are newlines, and one line start per line.
proof fn lemma_split_lines_len(s: Seq<char>)
    ensures
        split_lines(s).len() == newlines(s) + 1,
        line_starts_spec(s).len() == newlines(s) + 1,
    decreases s.len(),
{
    if s.len() > 0 {
        lemma_split_lines_len(s.drop_last());
    }
}

pub(crate) proof fn lemma_line_counts(s: Seq<char>)
    ensures
        split_lines(s).len() == newlines(s) + 1,
        line_starts_spec(s).len() == newlines(s) + 1,
{
    lemma_split_lines_len(s);
}

/// No line is longer than the whole text.
pub proof fn lemma_split_lines_short(s: Seq<char>, k: int)
    requires
        0 <= k < split_lines(s).len(),
    ensures
        split_lines(s)[k].len() <= s.len(),
    decreases s.len(),
{
    if s.len() > 0 {
        lemma_split_lines_len(s.drop_last());
        if s.last() == '\n' {
            if k < split_lines(s.drop_last()).len() {
                lemma_split_lines_short(s.drop_last(), k);
            }
        } else {
            lemma_split_lines_short(s.drop_last(), k);
        }
    }
}

/// A line that a newline has ended stays as it is in longer prefixes.
proof fn lemma_split_lines_keep(s: Seq<char>, i: int, j: int, k: int)
    requires
        0 <= i < j <= s.len(),
        s[i] == '\n',
        0 <= k <= newlines(s.take(i)),
    ensures
        split_lines(s.take(j))[k] == split_lines(s.take(i))[k],
    decreases j - i,
{
    lemma_split_lines_len(s.take(i));
    if j == i + 1 {
        assert(s.take(j).drop_last() =~= s.take(i));
    } else {
        lemma_split_lines_keep(s, i, j - 1, k);
        assert(s.take(j).drop_last() =~= s.take(j - 1));
        lemma_split_lines_len(s.take(j - 1));
        lemma_newlines_prefix(s, i + 1, j - 1);
        assert(s.take(i + 1).drop_last() =~= s.take(i));
    }
}

} // verus!
