//! Diagnostics: an error or warning about a source file, with labelled spans
//! and help texts.
use std::rc::Rc;
use colored::Colorize;
use vstd::prelude::*;
use super::source::{
    byte_len, last_line_len, lemma_byte_len_injective, lemma_byte_len_mono, lemma_line_counts,
    lemma_newlines_prefix, lemma_split_lines_short, newlines, split_lines, SourceFile, Span,
};
use super::archive::literalpool::{push_char_vec, push_chars};
use crate::text::{chars_of, decimal, string_of_chars, u64_decimal};

verus! {

/// How serious a diagnostic is.
#[derive(Debug, Clone, Copy, PartialEq, Eq, Structural)]
pub enum Severity {
    Error,
    Warning,
}

/// A span of the source that a diagnostic points at, with an optional
/// message; the important label is the one the diagnostic is about.
#[derive(Debug)]
pub struct Label {
    pub message: Option<String>,
    pub span: Span,
    pub important: bool,
}

/// A help text attached to a diagnostic.
#[derive(Debug)]
pub enum Help {
    Text(String),
}

/// A diagnostic about a source file.
#[derive(Debug)]
pub struct Diag {
    pub source_file: Rc<SourceFile>,
    pub severity: Severity,
    pub message: String,
    pub labels: Vec<Label>,
    pub helps: Vec<Help>,
}

impl Diag {
    /// An error about `source_file` with `message` and nothing attached.
    pub fn new(source_file: &Rc<SourceFile>, message: String) -> (d: Self)
        ensures
            d.source_file == *source_file,
            d.severity == Severity::Error,
            d.message == message,
            d.labels@.len() == 0,
            d.helps@.len() == 0,
    {
        Diag { source_file: Rc::clone(source_file), severity: Severity::Error, message, labels: Vec::new(), helps: Vec::new() }
    }

    /// A warning about `source_file` with `message` and nothing attached.
    pub fn warning(source_file: &Rc<SourceFile>, message: String) -> (d: Self)
        ensures
            d.source_file == *source_file,
            d.severity == Severity::Warning,
            d.message == message,
            d.labels@.len() == 0,
            d.helps@.len() == 0,
    {
        Diag { source_file: Rc::clone(source_file), severity: Severity::Warning, message, labels: Vec::new(), helps: Vec::new() }
    }

    /// The same diagnostic with a label without message at `span`.
    pub fn with_label(self, span: Span, important: bool) -> (d: Self)
        ensures
            d.labels@ == self.labels@.push(Label { message: None, span, important }),
            d.source_file == self.source_file,
            d.severity == self.severity,
            d.message == self.message,
            d.helps@ == self.helps@,
    {
        let mut d = self;
        d.labels.push(Label { message: None, span, important });
        d
    }

    /// The same diagnostic with a label with `message` at `span`.
    pub fn with_message_label(self, message: String, span: Span, important: bool) -> (d: Self)
        ensures
            d.labels@ == self.labels@.push(Label { message: Some(message), span, important }),
            d.source_file == self.source_file,
            d.severity == self.severity,
            d.message == self.message,
            d.helps@ == self.helps@,
    {
        let mut d = self;
        d.labels.push(Label { message: Some(message), span, important });
        d
    }

    /// The same diagnostic with a help text.
    pub fn with_text_help(self, message: String) -> (d: Self)
        ensures
            d.helps@ == self.helps@.push(Help::Text(message)),
            d.source_file == self.source_file,
            d.severity == self.severity,
            d.message == self.message,
            d.labels@ == self.labels@,
    {
        let mut d = self;
        d.helps.push(Help::Text(message));
        d
    }
}


/// The mathematical form of a label.
pub struct LabelModel {
    pub message: Option<Seq<char>>,
    pub span: Span,
    pub important: bool,
}

/// The mathematical form of a diagnostic, without its file.
pub struct DiagModel {
    pub severity: Severity,
    pub message: Seq<char>,
    pub labels: Seq<LabelModel>,
    pub helps: Seq<Seq<char>>,
}

/// The mathematical form of a label.
pub open spec fn label_view(l: Label) -> LabelModel {
    LabelModel {
        message: match l.message {
            Some(m) => Some(m@),
            None => None,
        },
        span: l.span,
        important: l.important,
    }
}

/// The text of a help.
pub open spec fn help_view(h: Help) -> Seq<char> {
    match h {
        Help::Text(t) => t@,
    }
}

/// The mathematical form of a diagnostic.
pub open spec fn diag_view(d: Diag) -> DiagModel {
    DiagModel {
        severity: d.severity,
        message: d.message@,
        labels: d.labels@.map_values(|l: Label| label_view(l)),
        helps: d.helps@.map_values(|h: Help| help_view(h)),
    }
}

/// The mathematical forms of diagnostics.
pub open spec fn diags_view(ds: Seq<Diag>) -> Seq<DiagModel> {
    ds.map_values(|d: Diag| diag_view(d))
}

/// An error with one important label without message.
pub open spec fn error_at(message: Seq<char>, span: Span) -> DiagModel {
    DiagModel {
        severity: Severity::Error,
        message,
        labels: seq![LabelModel { message: None, span, important: true }],
        helps: Seq::empty(),
    }
}

/// An error with one important label with a message.
pub open spec fn error_labelled(message: Seq<char>, label: Seq<char>, span: Span) -> DiagModel {
    DiagModel {
        severity: Severity::Error,
        message,
        labels: seq![LabelModel { message: Some(label), span, important: true }],
        helps: Seq::empty(),
    }
}

/// The diagnostics that source files share: each file's context, and the
/// diagnostics emitted so far, in order.
pub struct CompilerCtx {
    pub source: Rc<SourceFile>,
    pub diags: Vec<Diag>,
}

impl CompilerCtx {
    /// Records a diagnostic after those emitted so far.
    pub fn emit_diag(&mut self, diag: Diag)
        ensures
            final(self).diags@ == old(self).diags@.push(diag),
            final(self).source == old(self).source,
    {
        self.diags.push(diag);
    }

    /// A context for another source file, whose diagnostics start empty;
    /// they join this one's when the caller appends them.
    pub fn other_ctx(&self, source: SourceFile) -> (c: Self)
        ensures
            *c.source == source,
            c.diags@.len() == 0,
    {
        CompilerCtx { source: Rc::new(source), diags: Vec::new() }
    }
}

} // verus!

verus! {

/// How a piece of a rendered diagnostic is coloured.
#[derive(Debug, Clone, Copy, PartialEq, Eq, Structural)]
pub enum Paint {
    Plain,
    Red,
    Blue,
    RedUnderline,
    YellowUnderline,
    GreenUnderline,
}

/// A terminal escape sequence with the given parameters.
pub open spec fn escape_code(params: Seq<char>) -> Seq<char> {
    seq!['\x1b', '\x5b'] + params + seq!['m']
}

/// The escape parameters of a paint: underline is 4, and the foreground
/// colours red, green, yellow and blue are 31 to 34.
pub open spec fn paint_params(p: Paint) -> Seq<char> {
    match p {
        Paint::Plain => Seq::empty(),
        Paint::Red => seq!['3', '1'],
        Paint::Blue => seq!['3', '4'],
        Paint::RedUnderline => seq!['4', ';', '3', '1'],
        Paint::YellowUnderline => seq!['4', ';', '3', '3'],
        Paint::GreenUnderline => seq!['4', ';', '3', '2'],
    }
}

/// `text` with `style` put back after each reset code in it, so that text
/// coloured already keeps the outer colour after its own reset.
pub open spec fn restyle_resets(text: Seq<char>, style: Seq<char>) -> Seq<char>
    decreases text.len(),
{
    let reset = escape_code(seq!['0']);
    if text.len() == 0 {
        text
    } else if text.len() >= reset.len() && text.take(reset.len() as int) == reset {
        reset + style + restyle_resets(text.skip(reset.len() as int), style)
    } else {
        seq![text[0]] + restyle_resets(text.skip(1), style)
    }
}

/// Whether `shown` is what colouring `text` with `p` may give: the text
/// itself where colours are off (as plain text always is); where they are on,
/// the text between the paint's escape code and the reset code, with the
/// paint's code put back after each reset code inside the text.
pub open spec fn painted(p: Paint, text: Seq<char>, shown: Seq<char>) -> bool {
    let style = escape_code(paint_params(p));
    ||| shown == text
    ||| p != Paint::Plain && shown == style + restyle_resets(text, style) + escape_code(seq!['0'])
}

/// `Colorize::red` on `text`, shown through `ColoredString`'s `Display`.
/// Whether colours are on is read from the environment and the terminal.
#[verifier::external_body]
fn red(text: &str) -> (r: String)
    ensures
        painted(Paint::Red, text@, r@),
{
    text.red().to_string()
}

/// `Colorize::blue` on `text`, shown through `ColoredString`'s `Display`.
/// Whether colours are on is read from the environment and the terminal.
#[verifier::external_body]
fn blue(text: &str) -> (r: String)
    ensures
        painted(Paint::Blue, text@, r@),
{
    text.blue().to_string()
}

/// `Colorize::red` then `Colorize::underline` on `text`, shown through
/// `ColoredString`'s `Display`. Whether colours are on is read from the
/// environment and the terminal.
#[verifier::external_body]
fn red_underlined(text: &str) -> (r: String)
    ensures
        painted(Paint::RedUnderline, text@, r@),
{
    text.red().underline().to_string()
}

/// `Colorize::yellow` then `Colorize::underline` on `text`, shown through
/// `ColoredString`'s `Display`. Whether colours are on is read from the
/// environment and the terminal.
#[verifier::external_body]
fn yellow_underlined(text: &str) -> (r: String)
    ensures
        painted(Paint::YellowUnderline, text@, r@),
{
    text.yellow().underline().to_string()
}

/// `Colorize::green` then `Colorize::underline` on `text`, shown through
/// `ColoredString`'s `Display`. Whether colours are on is read from the
/// environment and the terminal.
#[verifier::external_body]
fn green_underlined(text: &str) -> (r: String)
    ensures
        painted(Paint::GreenUnderline, text@, r@),
{
    text.green().underline().to_string()
}

/// `text` coloured with `p`.
pub fn paint(p: Paint, text: &str) -> (r: String)
    ensures
        painted(p, text@, r@),
{
    match p {
        Paint::Plain => text.to_owned(),
        Paint::Red => red(text),
        Paint::Blue => blue(text),
        Paint::RedUnderline => red_underlined(text),
        Paint::YellowUnderline => yellow_underlined(text),
        Paint::GreenUnderline => green_underlined(text),
    }
}

/// How far a tab stop lies: tabs are four columns wide.
pub const TAB_WIDTH: usize = 4;

/// `n` spaces.
pub open spec fn spaces(n: nat) -> Seq<char> {
    Seq::new(n, |_i: int| ' ')
}

/// The columns from `w` to the next tab stop.
pub open spec fn tab_advance(w: nat) -> nat {
    (TAB_WIDTH - w % (TAB_WIDTH as nat)) as nat
}

/// The columns some text takes on a terminal, a tab reaching the next stop.
pub open spec fn visual_width(s: Seq<char>) -> nat
    decreases s.len(),
{
    if s.len() == 0 {
        0
    } else {
        let w = visual_width(s.drop_last());
        if s.last() == '\t' {
            w + tab_advance(w)
        } else {
            w + 1
        }
    }
}

/// Some text with each tab replaced by the spaces up to the next stop.
pub open spec fn expanded(s: Seq<char>) -> Seq<char>
    decreases s.len(),
{
    if s.len() == 0 {
        Seq::empty()
    } else if s.last() == '\t' {
        expanded(s.drop_last()) + spaces(tab_advance(visual_width(s.drop_last())))
    } else {
        expanded(s.drop_last()).push(s.last())
    }
}

/// A text takes at most four columns per character.
proof fn lemma_visual_width_bound(s: Seq<char>)
    ensures
        visual_width(s) <= 4 * s.len(),
    decreases s.len(),
{
    if s.len() > 0 {
        lemma_visual_width_bound(s.drop_last());
    }
}

/// Appends `n` spaces.
fn push_spaces(buf: &mut Vec<char>, n: usize)
    ensures
        final(buf)@ == old(buf)@ + spaces(n as nat),
{
    let ghost b0 = buf@;
    let mut k: usize = 0;
    while k < n
        invariant
            k <= n,
            buf@ == b0 + spaces(k as nat),
        decreases n - k,
    {
        buf.push(' ');
        assert(buf@ =~= b0 + spaces((k + 1) as nat));
        k += 1;
    }
}

/// `s` with each tab replaced by the spaces up to the next stop.
pub fn expand_tabs(s: &str) -> (r: String)
    requires
        4 * s@.len() <= usize::MAX,
    ensures
        r@ == expanded(s@),
{
    let cs = chars_of(s);
    let mut out: Vec<char> = Vec::new();
    let mut col: usize = 0;
    let mut i: usize = 0;
    proof { assert(cs@.take(0) =~= Seq::<char>::empty()); }
    while i < cs.len()
        invariant
            cs@ == s@,
            4 * s@.len() <= usize::MAX,
            i <= cs@.len(),
            col as nat == visual_width(cs@.take(i as int)),
            out@ == expanded(cs@.take(i as int)),
        decreases cs@.len() - i,
    {
        let c = cs[i];
        proof {
            assert(cs@.take(i + 1).drop_last() =~= cs@.take(i as int));
            lemma_visual_width_bound(cs@.take(i + 1));
        }
        if c == '\t' {
            let spaces = TAB_WIDTH - (col % TAB_WIDTH);
            push_spaces(&mut out, spaces);
            col += spaces;
        } else {
            out.push(c);
            col += 1;
        }
        i += 1;
    }
    proof { assert(cs@.take(cs@.len() as int) =~= cs@); }
    string_of_chars(out.as_slice())
}

/// The terminal column, from 0, where character `char_col` (from 1) of a line
/// stands, counting as far as the line goes.
pub fn visual_column(line_text: &str, char_col: usize) -> (v: usize)
    requires
        char_col >= 1,
        4 * line_text@.len() <= usize::MAX,
    ensures
        v == visual_width(line_text@.take(if char_col - 1 <= line_text@.len() { char_col - 1 } else { line_text@.len() as int })),
{
    let cs = chars_of(line_text);
    let n: usize = if char_col - 1 <= cs.len() { char_col - 1 } else { cs.len() };
    let mut visual: usize = 0;
    let mut i: usize = 0;
    proof { assert(cs@.take(0) =~= Seq::<char>::empty()); }
    while i < n
        invariant
            cs@ == line_text@,
            4 * line_text@.len() <= usize::MAX,
            n <= cs@.len(),
            i <= n,
            visual as nat == visual_width(cs@.take(i as int)),
        decreases n - i,
    {
        proof {
            assert(cs@.take(i + 1).drop_last() =~= cs@.take(i as int));
            lemma_visual_width_bound(cs@.take(i + 1));
        }
        if cs[i] == '\t' {
            visual += TAB_WIDTH - (visual % TAB_WIDTH);
        } else {
            visual += 1;
        }
        i += 1;
    }
    visual
}


/// Whether byte `off` of `text` falls between two characters (or at an end).
pub open spec fn is_boundary(text: Seq<char>, off: nat) -> bool {
    exists|i: int| 0 <= i <= text.len() && byte_len(text.take(i)) == off
}

/// The number of characters of `text` before byte `off`.
pub open spec fn char_index_at(text: Seq<char>, off: nat) -> int {
    choose|i: int| 0 <= i <= text.len() && byte_len(text.take(i)) == off
}

/// The line, from 1, of byte `off` of `text`.
pub open spec fn line_at(text: Seq<char>, off: nat) -> nat {
    newlines(text.take(char_index_at(text, off))) + 1
}

/// The column, from 1 and in characters, of byte `off` of `text`.
pub open spec fn col_at(text: Seq<char>, off: nat) -> nat {
    last_line_len(text.take(char_index_at(text, off))) + 1
}

/// Whether a span can be shown: it runs forward between character boundaries.
pub open spec fn span_fits(text: Seq<char>, sp: Span) -> bool {
    &&& sp.lo <= sp.hi
    &&& sp.lo < usize::MAX
    &&& is_boundary(text, sp.lo as nat)
    &&& is_boundary(text, sp.hi as nat)
}

/// The first important label.
pub open spec fn first_important(ls: Seq<LabelModel>) -> Option<LabelModel>
    decreases ls.len(),
{
    if ls.len() == 0 {
        None
    } else if ls[0].important {
        Some(ls[0])
    } else {
        first_important(ls.drop_first())
    }
}

/// The label a diagnostic is placed at: the first important one, else the first.
pub open spec fn primary_label(ls: Seq<LabelModel>) -> Option<LabelModel> {
    match first_important(ls) {
        Some(l) => Some(l),
        None => if ls.len() > 0 { Some(ls[0]) } else { None },
    }
}

/// The word naming a severity, with its paint.
pub open spec fn severity_word(s: Severity) -> (Paint, Seq<char>) {
    match s {
        Severity::Error => (Paint::RedUnderline, seq!['E', 'r', 'r', 'o', 'r']),
        Severity::Warning => (Paint::YellowUnderline, seq!['W', 'a', 'r', 'n', 'i', 'n', 'g']),
    }
}

/// The first line: the file, the place of the primary label if there is one,
/// the severity and the message.
pub open spec fn header_segments(name: Seq<char>, text: Seq<char>, d: DiagModel) -> Seq<(Paint, Seq<char>)> {
    let place = match primary_label(d.labels) {
        Some(l) => seq!['\x5b'] + name + seq![':'] + decimal(line_at(text, l.span.lo as nat)) + seq![':']
            + decimal(col_at(text, l.span.lo as nat)) + seq!['\x5d', ' '],
        None => seq!['\x5b'] + name + seq!['\x5d', ' '],
    };
    seq![(Paint::Plain, place), severity_word(d.severity), (Paint::Plain, seq![':', ' '] + d.message + seq!['\n'])]
}

/// The width of the gutter beside a line: its number's, and at least 4.
pub open spec fn gutter_width(line: nat) -> nat {
    if decimal(line).len() > 4 { decimal(line).len() } else { 4 }
}

/// A gutter without a line number.
pub open spec fn blank_gutter(w: nat) -> Seq<char> {
    spaces(w) + seq![' ', '\x7c']
}

/// A gutter with a line number, aligned right.
pub open spec fn line_gutter(line: nat, w: nat) -> Seq<char> {
    spaces((w - decimal(line).len()) as nat) + decimal(line) + seq![' ', '\x7c']
}

/// How many columns a label underlines: the characters it spans, at least one,
/// and no more than remain on its line (at least one).
pub open spec fn underline_len(span_chars: int, line_len: nat, col: nat) -> nat {
    let spanned: int = if span_chars > 1 { span_chars } else { 1 };
    let remaining: int = if line_len >= col - 1 { line_len - (col - 1) } else { 0 };
    let room: int = if remaining > 1 { remaining } else { 1 };
    (if spanned < room { spanned } else { room }) as nat
}

/// The lines showing a label: its source line with its number, then a marker
/// under the span and the label's message; before the first label, an empty
/// gutter line.
pub open spec fn label_segments(text: Seq<char>, l: LabelModel, first: bool) -> Seq<(Paint, Seq<char>)> {
    let i = char_index_at(text, l.span.lo as nat);
    let j = char_index_at(text, l.span.hi as nat);
    let line = newlines(text.take(i)) + 1;
    let col = last_line_len(text.take(i)) + 1;
    let lt = split_lines(text)[line - 1];
    let w = gutter_width(line);
    let paint = if l.important { Paint::Red } else { Paint::Blue };
    let mark = if l.important { '^' } else { '-' };
    let marker = Seq::new(underline_len(j - i, lt.len(), col), |_k: int| mark);
    let msg = match l.message {
        Some(m) => m,
        None => Seq::empty(),
    };
    let before: int = if col - 1 <= lt.len() { col - 1 } else { lt.len() as int };
    (if first { seq![(Paint::Blue, blank_gutter(w)), (Paint::Plain, seq!['\n'])] } else { Seq::empty() }) + seq![
        (Paint::Blue, line_gutter(line, w)),
        (Paint::Plain, seq![' '] + expanded(lt) + seq!['\n']),
        (Paint::Blue, blank_gutter(w)),
        (Paint::Plain, seq![' '] + spaces(visual_width(lt.take(before)))),
        (paint, marker),
        (Paint::Plain, seq![' ']),
        (paint, msg),
        (Paint::Plain, seq!['\n']),
    ]
}

/// The lines showing each label in turn.
pub open spec fn labels_segments(text: Seq<char>, ls: Seq<LabelModel>) -> Seq<(Paint, Seq<char>)>
    decreases ls.len(),
{
    if ls.len() == 0 {
        Seq::empty()
    } else {
        labels_segments(text, ls.drop_last()) + label_segments(text, ls.last(), ls.len() == 1)
    }
}

/// The lines showing each help text in turn.
pub open spec fn helps_segments(hs: Seq<Seq<char>>) -> Seq<(Paint, Seq<char>)>
    decreases hs.len(),
{
    if hs.len() == 0 {
        Seq::empty()
    } else {
        helps_segments(hs.drop_last()) + seq![
            (Paint::GreenUnderline, seq!['H', 'e', 'l', 'p', ':']),
            (Paint::Plain, seq![' '] + hs.last() + seq!['\n']),
        ]
    }
}

/// A rendered diagnostic, piece by piece: the header, the labels, the helps.
pub open spec fn rendered_segments(name: Seq<char>, text: Seq<char>, d: DiagModel) -> Seq<(Paint, Seq<char>)> {
    header_segments(name, text, d) + labels_segments(text, d.labels) + helps_segments(d.helps)
}

/// The pieces as paints and texts.
pub open spec fn segments_view(v: Seq<(Paint, String)>) -> Seq<(Paint, Seq<char>)> {
    v.map_values(|x: (Paint, String)| (x.0, x.1@))
}

/// Whether `shown` holds what painting each piece may give, in order.
pub open spec fn painted_all(segs: Seq<(Paint, Seq<char>)>, shown: Seq<Seq<char>>) -> bool {
    &&& shown.len() == segs.len()
    &&& forall|k: int| 0 <= k < segs.len() ==> painted(segs[k].0, segs[k].1, #[trigger] shown[k])
}


/// Appends a piece to the pieces of a rendering.
fn push_segment(segs: &mut Vec<(Paint, String)>, p: Paint, text: &Vec<char>)
    ensures
        segments_view(final(segs)@) == segments_view(old(segs)@).push((p, text@)),
{
    let t = string_of_chars(text.as_slice());
    segs.push((p, t));
    assert(segments_view(segs@) =~= segments_view(old(segs)@).push((p, text@)));
}

impl Diag {
    /// Whether the diagnostic can be rendered: its file is consistent, each
    /// label's span runs forward between characters, and tabs can be expanded
    /// within a `usize`.
    pub open spec fn renderable(&self) -> bool {
        &&& self.source_file.wf()
        &&& 4 * self.source_file.text().len() <= usize::MAX
        &&& forall|k: int| 0 <= k < self.labels@.len() ==> span_fits(self.source_file.text(), #[trigger] self.labels@[k].span)
    }

    /// The index of the label the diagnostic is placed at.
    fn primary_index(&self) -> (r: Option<usize>)
        ensures
            match primary_label(diag_view(*self).labels) {
                Some(l) => r matches Some(k) && k < self.labels@.len() && label_view(self.labels@[k as int]) == l,
                None => r is None,
            },
    {
        let ghost ls = diag_view(*self).labels;
        assert(ls.skip(0) =~= ls);
        let mut k: usize = 0;
        while k < self.labels.len()
            invariant
                ls == diag_view(*self).labels,
                ls.len() == self.labels@.len(),
                k <= self.labels@.len(),
                first_important(ls) == first_important(ls.skip(k as int)),
            decreases self.labels@.len() - k,
        {
            proof {
                assert(ls.skip(k as int).drop_first() =~= ls.skip(k + 1));
                assert(ls.skip(k as int)[0] == ls[k as int]);
                assert(ls[k as int] == label_view(self.labels@[k as int]));
            }
            if self.labels[k].important {
                return Some(k);
            }
            k += 1;
        }
        proof { assert(ls.skip(k as int) =~= Seq::<LabelModel>::empty()); }
        if self.labels.len() > 0 {
            proof { assert(ls[0] == label_view(self.labels@[0])); }
            Some(0)
        } else {
            None
        }
    }

    /// Appends the pieces of the first line.
    fn push_header(&self, segs: &mut Vec<(Paint, String)>)
        requires
            self.renderable(),
        ensures
            segments_view(final(segs)@) == segments_view(old(segs)@)
                + header_segments(self.source_file.file_name()@, self.source_file.text(), diag_view(*self)),
    {
        let ghost text = self.source_file.text();
        let mut place: Vec<char> = vec!['\x5b'];
        push_chars(&mut place, self.source_file.name_str());
        match self.primary_index() {
            Some(k) => {
                let lo = self.labels[k].span.lo;
                proof {
                    assert(span_fits(text, self.labels@[k as int].span));
                    let ci = char_index_at(text, lo as nat);
                    assert(0 <= ci <= text.len() && byte_len(text.take(ci)) == lo);
                }
                let pos = self.source_file.offset_to_position(lo);
                place.push(':');
                let line = u64_decimal(pos.line as u64);
                push_char_vec(&mut place, &line);
                place.push(':');
                let col = u64_decimal(pos.col as u64);
                push_char_vec(&mut place, &col);
                place.push('\x5d');
                place.push(' ');
                proof {
                    assert(pos.line == line_at(text, lo as nat));
                    assert(pos.col == col_at(text, lo as nat));
                    assert(place@ =~= seq!['\x5b'] + self.source_file.file_name()@ + seq![':'] + decimal(line_at(text, lo as nat))
                        + seq![':'] + decimal(col_at(text, lo as nat)) + seq!['\x5d', ' ']);
                }
            }
            None => {
                place.push('\x5d');
                place.push(' ');
                assert(place@ =~= seq!['\x5b'] + self.source_file.file_name()@ + seq!['\x5d', ' ']);
            }
        }
        assert(place@ == header_segments(self.source_file.file_name()@, text, diag_view(*self))[0].1);
        push_segment(segs, Paint::Plain, &place);
        match self.severity {
            Severity::Error => push_segment(segs, Paint::RedUnderline, &vec!['E', 'r', 'r', 'o', 'r']),
            Severity::Warning => push_segment(segs, Paint::YellowUnderline, &vec!['W', 'a', 'r', 'n', 'i', 'n', 'g']),
        }
        let mut tail: Vec<char> = vec![':', ' '];
        push_chars(&mut tail, self.message.as_str());
        tail.push('\n');
        assert(tail@ =~= seq![':', ' '] + self.message@ + seq!['\n']);
        push_segment(segs, Paint::Plain, &tail);
        proof {
            let h = header_segments(self.source_file.file_name()@, text, diag_view(*self));
            assert(segments_view(segs@) =~= segments_view(old(segs)@) + h);
        }
    }
}


/// The text of one character.
fn single(c: char) -> (v: Vec<char>)
    ensures
        v@ == seq![c],
{
    let mut v: Vec<char> = Vec::new();
    v.push(c);
    assert(v@ =~= seq![c]);
    v
}

/// Appends `n` copies of `c`.
fn push_repeat(buf: &mut Vec<char>, c: char, n: usize)
    ensures
        final(buf)@ == old(buf)@ + Seq::new(n as nat, |_k: int| c),
{
    let ghost b0 = buf@;
    let mut k: usize = 0;
    while k < n
        invariant
            k <= n,
            buf@ == b0 + Seq::new(k as nat, |_k: int| c),
        decreases n - k,
    {
        buf.push(c);
        assert(buf@ =~= b0 + Seq::new((k + 1) as nat, |_k: int| c));
        k += 1;
    }
}

/// A gutter of `w` spaces, or of a right-aligned number in `w` columns.
fn gutter(digits: &Vec<char>, w: usize) -> (g: Vec<char>)
    requires
        digits@.len() <= w,
    ensures
        g@ == spaces((w - digits@.len()) as nat) + digits@ + seq![' ', '\x7c'],
{
    let mut g: Vec<char> = Vec::new();
    push_spaces(&mut g, w - digits.len());
    push_char_vec(&mut g, digits);
    g.push(' ');
    g.push('\x7c');
    g
}

impl Diag {
    /// Appends the pieces showing label `k`.
    #[verifier::rlimit(40)]
    fn push_label(&self, k: usize, segs: &mut Vec<(Paint, String)>)
        requires
            self.renderable(),
            k < self.labels@.len(),
        ensures
            segments_view(final(segs)@) == segments_view(old(segs)@)
                + label_segments(self.source_file.text(), label_view(self.labels@[k as int]), k == 0),
    {
        let ghost text = self.source_file.text();
        let l = &self.labels[k];
        let lo = l.span.lo;
        let hi = l.span.hi;
        proof {
            assert(span_fits(text, self.labels@[k as int].span));
            let ci = char_index_at(text, lo as nat);
            assert(0 <= ci <= text.len() && byte_len(text.take(ci)) == lo);
            let cj = char_index_at(text, hi as nat);
            assert(0 <= cj <= text.len() && byte_len(text.take(cj)) == hi);
        }
        let pos = self.source_file.offset_to_position(lo);
        let i = self.source_file.char_index(lo);
        let j = self.source_file.char_index(hi);
        proof {
            lemma_byte_len_injective(text, i as int, char_index_at(text, lo as nat));
            lemma_byte_len_injective(text, j as int, char_index_at(text, hi as nat));
            if j < i {
                lemma_byte_len_mono(text, j as int, i as int);
            }
            lemma_newlines_prefix(text, i as int, text.len() as int);
            assert(text.take(text.len() as int) =~= text);
            lemma_line_counts(text);
        }
        let line_text = self.source_file.line_text(pos.line);
        proof { lemma_split_lines_short(text, pos.line - 1); }
        let lt = chars_of(line_text.as_str());
        let digits = u64_decimal(pos.line as u64);
        let w: usize = if digits.len() > 4 { digits.len() } else { 4 };
        let ghost ex = label_segments(text, label_view(self.labels@[k as int]), k == 0);
        let ghost s0 = segments_view(segs@);
        let blank = gutter(&Vec::new(), w);
        assert(blank@ =~= blank_gutter(w as nat));
        if k == 0 {
            push_segment(segs, Paint::Blue, &blank);
            push_segment(segs, Paint::Plain, &single('\n'));
        }
        let ghost s1 = segments_view(segs@);
        let numbered = gutter(&digits, w);
        push_segment(segs, Paint::Blue, &numbered);
        let mut body: Vec<char> = single(' ');
        let ex_line = expand_tabs(line_text.as_str());
        push_chars(&mut body, ex_line.as_str());
        body.push('\n');
        push_segment(segs, Paint::Plain, &body);
        push_segment(segs, Paint::Blue, &blank);
        let vc = visual_column(line_text.as_str(), pos.col);
        let mut pad: Vec<char> = single(' ');
        push_spaces(&mut pad, vc);
        push_segment(segs, Paint::Plain, &pad);
        let span_chars = j - i;
        let lt_len = lt.len();
        let remaining = if lt_len >= pos.col - 1 { lt_len - (pos.col - 1) } else { 0 };
        let spanned = if span_chars > 1 { span_chars } else { 1 };
        let room = if remaining > 1 { remaining } else { 1 };
        let ul = if spanned < room { spanned } else { room };
        let paint = if l.important { Paint::Red } else { Paint::Blue };
        let mark = if l.important { '^' } else { '-' };
        let mut marker: Vec<char> = Vec::new();
        push_repeat(&mut marker, mark, ul);
        push_segment(segs, paint, &marker);
        push_segment(segs, Paint::Plain, &single(' '));
        let mut msg: Vec<char> = Vec::new();
        match &l.message {
            Some(m) => push_chars(&mut msg, m.as_str()),
            None => {},
        }
        push_segment(segs, paint, &msg);
        push_segment(segs, Paint::Plain, &single('\n'));
        proof {
            let lm = label_view(self.labels@[k as int]);
            assert(lm.span == l.span);
            assert(pos.line == newlines(text.take(i as int)) + 1);
            assert(pos.col == last_line_len(text.take(i as int)) + 1);
            assert(lt@ == split_lines(text)[pos.line - 1]);
            assert(numbered@ =~= line_gutter(pos.line as nat, w as nat));
            assert(marker@ =~= Seq::new(underline_len(j - i, lt@.len(), pos.col as nat), |_k: int| mark));
            assert(msg@ =~= match lm.message { Some(m) => m, None => Seq::<char>::empty() });
            assert(s1 =~= s0 + (if k == 0 { seq![(Paint::Blue, blank_gutter(w as nat)), (Paint::Plain, seq!['\n'])] } else { Seq::empty() }));
            assert(char_index_at(text, lm.span.lo as nat) == i);
            assert(char_index_at(text, lm.span.hi as nat) == j);
            assert(body@ =~= seq![' '] + expanded(lt@) + seq!['\n']);
            let before: int = if pos.col - 1 <= lt@.len() { pos.col - 1 } else { lt@.len() as int };
            assert(pad@ =~= seq![' '] + spaces(visual_width(lt@.take(before))));
            let tail = seq![
                (Paint::Blue, line_gutter(pos.line as nat, w as nat)),
                (Paint::Plain, seq![' '] + expanded(lt@) + seq!['\n']),
                (Paint::Blue, blank_gutter(w as nat)),
                (Paint::Plain, seq![' '] + spaces(visual_width(lt@.take(before)))),
                (paint, marker@),
                (Paint::Plain, seq![' ']),
                (paint, msg@),
                (Paint::Plain, seq!['\n']),
            ];
            assert(segments_view(segs@) =~= s1 + tail);
            assert(ex =~= (if k == 0 { seq![(Paint::Blue, blank_gutter(w as nat)), (Paint::Plain, seq!['\n'])] } else { Seq::empty() }) + tail);
            assert(segments_view(segs@) =~= s0 + ex);
        }
    }
}


impl Diag {
    /// The pieces of the rendered diagnostic, each with its paint: the first
    /// line, the lines of each label, then the help texts.
    pub fn segments(&self) -> (v: Vec<(Paint, String)>)
        requires
            self.renderable(),
        ensures
            segments_view(v@) == rendered_segments(self.source_file.file_name()@, self.source_file.text(), diag_view(*self)),
    {
        let ghost text = self.source_file.text();
        let ghost d = diag_view(*self);
        let mut segs: Vec<(Paint, String)> = Vec::new();
        assert(segments_view(segs@) =~= Seq::<(Paint, Seq<char>)>::empty());
        self.push_header(&mut segs);
        let ghost h = segments_view(segs@);
        let mut k: usize = 0;
        assert(d.labels.take(0) =~= Seq::<LabelModel>::empty());
        while k < self.labels.len()
            invariant
                self.renderable(),
                d == diag_view(*self),
                text == self.source_file.text(),
                k <= self.labels@.len(),
                segments_view(segs@) == h + labels_segments(text, d.labels.take(k as int)),
            decreases self.labels@.len() - k,
        {
            self.push_label(k, &mut segs);
            proof {
                let t = d.labels.take(k + 1);
                assert(t.drop_last() =~= d.labels.take(k as int));
                assert(t.last() == label_view(self.labels@[k as int]));
                assert(segments_view(segs@) =~= h + labels_segments(text, t));
            }
            k += 1;
        }
        assert(d.labels.take(k as int) =~= d.labels);
        let ghost hl = segments_view(segs@);
        let mut m: usize = 0;
        assert(d.helps.take(0) =~= Seq::<Seq<char>>::empty());
        while m < self.helps.len()
            invariant
                d == diag_view(*self),
                m <= self.helps@.len(),
                segments_view(segs@) == hl + helps_segments(d.helps.take(m as int)),
            decreases self.helps@.len() - m,
        {
            match &self.helps[m] {
                Help::Text(t) => {
                    let word: Vec<char> = vec!['H', 'e', 'l', 'p', ':'];
                    push_segment(&mut segs, Paint::GreenUnderline, &word);
                    let mut tx = single(' ');
                    push_chars(&mut tx, t.as_str());
                    tx.push('\n');
                    push_segment(&mut segs, Paint::Plain, &tx);
                    proof {
                        let hs = d.helps.take(m + 1);
                        assert(hs.drop_last() =~= d.helps.take(m as int));
                        assert(hs.last() == t@);
                        assert(word@ =~= seq!['H', 'e', 'l', 'p', ':']);
                        assert(tx@ =~= seq![' '] + t@ + seq!['\n']);
                        assert(segments_view(segs@) =~= hl + helps_segments(hs));
                    }
                },
            }
            m += 1;
        }
        assert(d.helps.take(m as int) =~= d.helps);
        assert(segments_view(segs@) =~= rendered_segments(self.source_file.file_name()@, text, d));
        segs
    }

    /// Writes the diagnostic after what `out` holds: its pieces in order,
    /// each coloured as its paint says where colours are on.
    pub fn render(&self, out: &mut String)
        requires
            self.renderable(),
        ensures
            exists|shown: Seq<Seq<char>>|
                painted_all(rendered_segments(self.source_file.file_name()@, self.source_file.text(), diag_view(*self)), shown)
                && final(out)@ == old(out)@ + shown.flatten(),
    {
        let segs = self.segments();
        let ghost sv = segments_view(segs@);
        let ghost o0 = out@;
        let ghost mut shown: Seq<Seq<char>> = Seq::empty();
        let mut k: usize = 0;
        while k < segs.len()
            invariant
                sv == segments_view(segs@),
                k <= segs@.len(),
                painted_all(sv.take(k as int), shown),
                out@ == o0 + shown.flatten(),
            decreases segs@.len() - k,
        {
            let r = paint(segs[k].0, segs[k].1.as_str());
            out.append(r.as_str());
            proof {
                assert(sv[k as int] == (segs@[k as int].0, segs@[k as int].1@));
                shown.lemma_flatten_push(r@);
                shown = shown.push(r@);
                assert forall|q: int| 0 <= q < k + 1 implies painted(sv.take(k + 1)[q].0, sv.take(k + 1)[q].1, #[trigger] shown[q]) by {
                    if q < k {
                        assert(sv.take(k as int)[q] == sv.take(k + 1)[q]);
                    }
                }
            }
            k += 1;
        }
        assert(sv.take(k as int) =~= sv);
    }
}

} // verus!
