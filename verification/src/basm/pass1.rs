//! The first pass: the offset of every line and the symbol of every label.
use vstd::prelude::*;
use crate::bobj::bobject::{Binding, Symbol, SymbolModel};
use crate::text::{decimal, push_decimal, str_eq, string_of_chars};
use crate::boblc::archive::literalpool::push_chars;
use super::parser::{ContentModel, LineContent, SourceLine, SourceLineModel, content_words};

verus! {

/// Why a program cannot be laid out.
#[derive(Debug)]
pub enum SymbolError {
    DuplicateLabel { name: String, first_line: usize, dup_line: usize },
    UndefinedGlobal { name: String, line: usize },
    ProgramTooLarge { words: usize },
    LabelOutOfRange { name: String, line: usize },
}

pub enum SymbolErrorModel {
    DuplicateLabel { name: Seq<char>, first_line: usize, dup_line: usize },
    UndefinedGlobal { name: Seq<char>, line: usize },
    ProgramTooLarge { words: nat },
    LabelOutOfRange { name: Seq<char>, line: usize },
}

impl View for SymbolError {
    type V = SymbolErrorModel;

    open spec fn view(&self) -> SymbolErrorModel {
        match self {
            SymbolError::DuplicateLabel { name, first_line, dup_line } => SymbolErrorModel::DuplicateLabel {
                name: name@,
                first_line: *first_line,
                dup_line: *dup_line,
            },
            SymbolError::UndefinedGlobal { name, line } => SymbolErrorModel::UndefinedGlobal { name: name@, line: *line },
            SymbolError::ProgramTooLarge { words } => SymbolErrorModel::ProgramTooLarge { words: *words as nat },
            SymbolError::LabelOutOfRange { name, line } => SymbolErrorModel::LabelOutOfRange { name: name@, line: *line },
        }
    }
}

/// The symbols of a program and the word offset of each of its lines.
#[derive(Debug)]
pub struct LayoutResult {
    pub symbols: Vec<Symbol>,
    pub offsets: Vec<usize>,
}

/// The words of a line.
pub open spec fn line_size(l: SourceLineModel) -> nat {
    match l.content {
        Some(c) => content_words(c),
        None => 0,
    }
}

/// The word offset at which line `i` starts: the words of the lines before it.
pub open spec fn offset_before(lines: Seq<SourceLineModel>, i: nat) -> nat
    decreases i,
{
    if i == 0 {
        0
    } else {
        offset_before(lines, (i - 1) as nat) + line_size(lines[i - 1])
    }
}

/// A label as the first pass records it.
pub struct LabelDef {
    pub name: Seq<char>,
    pub offset: u16,
    pub line: usize,
}

/// The index of the definition of `name` in `defs`, if any.
pub open spec fn def_index(defs: Seq<LabelDef>, name: Seq<char>) -> Option<int>
    decreases defs.len(),
{
    if defs.len() == 0 {
        None
    } else {
        match def_index(defs.drop_last(), name) {
            Some(i) => Some(i),
            None => if defs.last().name == name { Some(defs.len() - 1) } else { None },
        }
    }
}

/// The labels of the first `k` lines, or the first duplicate or out-of-range
/// label among them.
pub open spec fn scan_labels(lines: Seq<SourceLineModel>, k: nat) -> Result<Seq<LabelDef>, SymbolErrorModel>
    decreases k,
{
    if k == 0 {
        Ok(Seq::empty())
    } else {
        match scan_labels(lines, (k - 1) as nat) {
            Err(e) => Err(e),
            Ok(defs) => match lines[k - 1].label {
                None => Ok(defs),
                Some(name) => match def_index(defs, name) {
                    Some(j) => Err(SymbolErrorModel::DuplicateLabel {
                        name,
                        first_line: defs[j].line,
                        dup_line: lines[k - 1].line,
                    }),
                    None => if offset_before(lines, (k - 1) as nat) > 0xFFFF {
                        Err(SymbolErrorModel::LabelOutOfRange { name, line: lines[k - 1].line })
                    } else {
                        Ok(defs.push(LabelDef { name, offset: offset_before(lines, (k - 1) as nat) as u16, line: lines[k - 1].line }))
                    },
                },
            },
        }
    }
}

/// The symbols after the `.global` directives of the first `k` lines have made
/// their labels global, or the first directive naming an undefined label.
pub open spec fn apply_globals(lines: Seq<SourceLineModel>, defs: Seq<LabelDef>, k: nat) -> Result<Seq<SymbolModel>, SymbolErrorModel>
    decreases k,
{
    if k == 0 {
        Ok(defs.map_values(|d: LabelDef| SymbolModel { name: d.name, offset: d.offset, binding: Binding::Local }))
    } else {
        match apply_globals(lines, defs, (k - 1) as nat) {
            Err(e) => Err(e),
            Ok(syms) => match lines[k - 1].content {
                Some(ContentModel::GlobalDirective(name)) => match def_index(defs, name) {
                    Some(j) => Ok(syms.update(j, SymbolModel { binding: Binding::Global, ..syms[j] })),
                    None => Err(SymbolErrorModel::UndefinedGlobal { name, line: lines[k - 1].line }),
                },
                _ => Ok(syms),
            },
        }
    }
}

/// The symbols of a program: every label, at the offset of its line, global
/// where a `.global` names it; or the first problem found.
pub open spec fn layout_spec(lines: Seq<SourceLineModel>) -> Result<Seq<SymbolModel>, SymbolErrorModel> {
    match scan_labels(lines, lines.len()) {
        Err(e) => Err(e),
        Ok(defs) => if offset_before(lines, lines.len()) > 0x10000 {
            Err(SymbolErrorModel::ProgramTooLarge { words: offset_before(lines, lines.len()) })
        } else {
            apply_globals(lines, defs, lines.len())
        },
    }
}

/// The mathematical form of a slice of source lines.
pub open spec fn lines_view(lines: Seq<SourceLine>) -> Seq<SourceLineModel> {
    lines.map_values(|l: SourceLine| l@)
}

/// `def_index` finds the first definition of a name, and only that.
proof fn lemma_def_index(defs: Seq<LabelDef>, name: Seq<char>)
    ensures
        match def_index(defs, name) {
            Some(j) => 0 <= j < defs.len() && defs[j].name == name
                && forall|k: int| 0 <= k < j ==> #[trigger] defs[k].name != name,
            None => forall|k: int| 0 <= k < defs.len() ==> #[trigger] defs[k].name != name,
        },
    decreases defs.len(),
{
    if defs.len() > 0 {
        lemma_def_index(defs.drop_last(), name);
        assert forall|k: int| 0 <= k < defs.len() - 1 implies #[trigger] defs[k] == defs.drop_last()[k] by {}
    }
}

/// Line offsets only grow.
proof fn lemma_offset_monotone(lines: Seq<SourceLineModel>, i: nat, j: nat)
    requires
        i <= j,
    ensures
        offset_before(lines, i) <= offset_before(lines, j),
    decreases j - i,
{
    if i < j {
        lemma_offset_monotone(lines, i, (j - 1) as nat);
    }
}

/// Once the scan of labels has failed, later lines do not change its error.
proof fn lemma_scan_err_sticks(lines: Seq<SourceLineModel>, k: nat, n: nat)
    requires
        k <= n,
        scan_labels(lines, k) is Err,
    ensures
        scan_labels(lines, n) == scan_labels(lines, k),
    decreases n - k,
{
    if k < n {
        lemma_scan_err_sticks(lines, k, (n - 1) as nat);
    }
}

/// Once a `.global` has failed, later lines do not change its error.
proof fn lemma_globals_err_sticks(lines: Seq<SourceLineModel>, defs: Seq<LabelDef>, k: nat, n: nat)
    requires
        k <= n,
        apply_globals(lines, defs, k) is Err,
    ensures
        apply_globals(lines, defs, n) == apply_globals(lines, defs, k),
    decreases n - k,
{
    if k < n {
        lemma_globals_err_sticks(lines, defs, k, (n - 1) as nat);
    }
}

/// The index of the first symbol named `name`.
fn find_label(symbols: &Vec<Symbol>, name: &str) -> (r: Option<usize>)
    ensures
        match r {
            Some(j) => j < symbols@.len() && symbols@[j as int].name@ == name@
                && forall|k: int| 0 <= k < j ==> #[trigger] symbols@[k].name@ != name@,
            None => forall|k: int| 0 <= k < symbols@.len() ==> #[trigger] symbols@[k].name@ != name@,
        },
{
    let mut i: usize = 0;
    while i < symbols.len()
        invariant
            i <= symbols@.len(),
            forall|k: int| 0 <= k < i ==> #[trigger] symbols@[k].name@ != name@,
        decreases symbols@.len() - i,
    {
        if str_eq(symbols[i].name.as_str(), name) {
            return Some(i);
        }
        i += 1;
    }
    None
}

/// Lays out a program: the word offset of each line, and a symbol for each
/// label at the offset of its line, made global by a `.global` directive.
/// Fails on a label defined twice, a label past the last address, a program
/// over 65536 words, or a `.global` naming no label.
pub fn build_symbols(lines: &[SourceLine]) -> (r: Result<LayoutResult, SymbolError>)
    requires
        offset_before(lines_view(lines@), lines@.len()) <= usize::MAX,
    ensures
        match r {
            Ok(res) => layout_spec(lines_view(lines@)) == Ok::<Seq<SymbolModel>, SymbolErrorModel>(res.symbols@.map_values(|s: Symbol| s@))
                && res.offsets@.len() == lines@.len()
                && forall|i: int| 0 <= i < lines@.len() ==> #[trigger] res.offsets@[i] == offset_before(lines_view(lines@), i as nat),
            Err(e) => layout_spec(lines_view(lines@)) == Err::<Seq<SymbolModel>, SymbolErrorModel>(e@),
        },
{
    let ghost lv = lines_view(lines@);
    let mut symbols: Vec<Symbol> = Vec::new();
    let mut def_lines: Vec<usize> = Vec::new();
    let mut offsets: Vec<usize> = Vec::new();
    let mut offset: usize = 0;
    let ghost mut defs: Seq<LabelDef> = Seq::empty();
    let mut i: usize = 0;
    while i < lines.len()
        invariant
            lv == lines_view(lines@),
            offset_before(lv, lines@.len()) <= usize::MAX,
            i <= lines@.len(),
            offset == offset_before(lv, i as nat),
            offsets@.len() == i,
            forall|j: int| 0 <= j < i ==> #[trigger] offsets@[j] == offset_before(lv, j as nat),
            scan_labels(lv, i as nat) == Ok::<Seq<LabelDef>, SymbolErrorModel>(defs),
            symbols@.len() == defs.len(),
            def_lines@.len() == defs.len(),
            forall|j: int| 0 <= j < defs.len() ==> #[trigger] symbols@[j]@ == (SymbolModel {
                name: defs[j].name, offset: defs[j].offset, binding: Binding::Local }),
            forall|j: int| 0 <= j < defs.len() ==> #[trigger] def_lines@[j] == defs[j].line,
        decreases lines@.len() - i,
    {
        let line = &lines[i];
        assert(lv[i as int] == line@);
        offsets.push(offset);
        if let Some(name) = &line.label {
            let found = find_label(&symbols, name.as_str());
            proof {
                lemma_def_index(defs, name@);
                assert forall|k: int| 0 <= k < defs.len() implies #[trigger] defs[k].name == symbols@[k].name@ by {
                    assert(symbols@[k]@.name == defs[k].name);
                }
            }
            match found {
                Some(j) => {
                    proof {
                        let dj = def_index(defs, name@);
                        if dj is Some {
                            let jj = dj->0;
                            if jj < j { assert(symbols@[jj].name@ == name@); }
                            if j < jj { assert(defs[j as int].name == name@); }
                        } else {
                            assert(defs[j as int].name == name@);
                        }
                    }
                    proof { lemma_scan_err_sticks(lv, (i + 1) as nat, lv.len()); }
                    return Err(SymbolError::DuplicateLabel {
                        name: name.clone(),
                        first_line: def_lines[j],
                        dup_line: line.line,
                    });
                }
                None => {
                    proof {
                        if def_index(defs, name@) is Some {
                            let jj = def_index(defs, name@)->0;
                            assert(symbols@[jj].name@ != name@);
                        }
                    }
                    if offset > 0xFFFF {
                        proof { lemma_scan_err_sticks(lv, (i + 1) as nat, lv.len()); }
                        return Err(SymbolError::LabelOutOfRange { name: name.clone(), line: line.line });
                    }
                    let ghost d = LabelDef { name: name@, offset: offset as u16, line: line.line };
                    symbols.push(Symbol { name: name.clone(), offset: offset as u16, binding: Binding::Local });
                    def_lines.push(line.line);
                    proof {
                        defs = defs.push(d);
                    }
                }
            }
        }
        proof {
            lemma_offset_monotone(lv, (i + 1) as nat, lines@.len());
        }
        if let Some(content) = &line.content {
            offset = offset + content.word_count();
        }
        i += 1;
    }
    assert(lv.len() == lines@.len());
    if offset > 0x10000 {
        return Err(SymbolError::ProgramTooLarge { words: offset });
    }
    let ghost syms0: Seq<SymbolModel> = symbols@.map_values(|s: Symbol| s@);
    assert(syms0 =~= defs.map_values(|d: LabelDef| SymbolModel { name: d.name, offset: d.offset, binding: Binding::Local }));
    assert forall|j: int| 0 <= j < defs.len() implies #[trigger] symbols@[j].name@ == defs[j].name by {
        assert(symbols@[j]@.name == defs[j].name);
    }
    let mut k: usize = 0;
    while k < lines.len()
        invariant
            lv == lines_view(lines@),
            lv.len() == lines@.len(),
            scan_labels(lv, lv.len()) == Ok::<Seq<LabelDef>, SymbolErrorModel>(defs),
            offset_before(lv, lv.len()) <= 0x10000,
            k <= lines@.len(),
            symbols@.len() == defs.len(),
            forall|j: int| 0 <= j < defs.len() ==> #[trigger] symbols@[j].name@ == defs[j].name,
            apply_globals(lv, defs, k as nat) == Ok::<Seq<SymbolModel>, SymbolErrorModel>(symbols@.map_values(|s: Symbol| s@)),
        decreases lines@.len() - k,
    {
        let line = &lines[k];
        assert(lv[k as int] == line@);
        if let Some(LineContent::GlobalDirective(name)) = &line.content {
            let found = find_label(&symbols, name.as_str());
            proof {
                lemma_def_index(defs, name@);
            }
            match found {
                Some(idx) => {
                    proof {
                        let dj = def_index(defs, name@);
                        if dj is Some {
                            let jj = dj->0;
                            if jj < idx { assert(symbols@[jj].name@ == name@); }
                            if idx < jj { assert(defs[idx as int].name == name@); }
                        } else {
                            assert(defs[idx as int].name == name@);
                        }
                    }
                    let ghost before = symbols@.map_values(|s: Symbol| s@);
                    let updated = Symbol { name: symbols[idx].name.clone(), offset: symbols[idx].offset, binding: Binding::Global };
                    symbols.set(idx, updated);
                    assert(symbols@.map_values(|s: Symbol| s@) =~= before.update(idx as int, SymbolModel { binding: Binding::Global, ..before[idx as int] }));
                }
                None => {
                    proof {
                        if def_index(defs, name@) is Some {
                            let jj = def_index(defs, name@)->0;
                            assert(symbols@[jj].name@ != name@);
                        }
                    }
                    proof { lemma_globals_err_sticks(lv, defs, (k + 1) as nat, lv.len()); }
                    return Err(SymbolError::UndefinedGlobal { name: name.clone(), line: line.line });
                }
            }
        }
        k += 1;
    }
    Ok(LayoutResult { symbols, offsets })
}


/// The text of a layout error.
pub open spec fn symbol_error_text(e: SymbolErrorModel) -> Seq<char> {
    match e {
        SymbolErrorModel::DuplicateLabel { name, first_line, dup_line } =>
            "line "@ + decimal(dup_line as nat) + ": label "@ + seq!['\x27'] + name + seq!['\x27']
                + " already defined on line "@ + decimal(first_line as nat),
        SymbolErrorModel::UndefinedGlobal { name, line } =>
            "line "@ + decimal(line as nat) + ": .global "@ + seq!['\x27'] + name + seq!['\x27']
                + " refers to a label that is never defined"@,
        SymbolErrorModel::ProgramTooLarge { words } =>
            "program is "@ + decimal(words) + " words, but the maximum is 65536"@,
        SymbolErrorModel::LabelOutOfRange { name, line } =>
            "line "@ + decimal(line as nat) + ": label "@ + seq!['\x27'] + name + seq!['\x27']
                + " sits at word 65536, one past the last valid address"@,
    }
}

impl SymbolError {
    /// The text of the error.
    pub fn message(&self) -> (s: String)
        ensures
            s@ == symbol_error_text(self@),
    {
        let mut buf: Vec<char> = Vec::new();
        match self {
            SymbolError::DuplicateLabel { name, first_line, dup_line } => {
                push_chars(&mut buf, "line ");
                push_decimal(&mut buf, *dup_line as u64);
                push_chars(&mut buf, ": label ");
                buf.push('\x27');
                push_chars(&mut buf, name.as_str());
                buf.push('\x27');
                push_chars(&mut buf, " already defined on line ");
                push_decimal(&mut buf, *first_line as u64);
            },
            SymbolError::UndefinedGlobal { name, line } => {
                push_chars(&mut buf, "line ");
                push_decimal(&mut buf, *line as u64);
                push_chars(&mut buf, ": .global ");
                buf.push('\x27');
                push_chars(&mut buf, name.as_str());
                buf.push('\x27');
                push_chars(&mut buf, " refers to a label that is never defined");
            },
            SymbolError::ProgramTooLarge { words } => {
                push_chars(&mut buf, "program is ");
                push_decimal(&mut buf, *words as u64);
                push_chars(&mut buf, " words, but the maximum is 65536");
            },
            SymbolError::LabelOutOfRange { name, line } => {
                push_chars(&mut buf, "line ");
                push_decimal(&mut buf, *line as u64);
                push_chars(&mut buf, ": label ");
                buf.push('\x27');
                push_chars(&mut buf, name.as_str());
                buf.push('\x27');
                push_chars(&mut buf, " sits at word 65536, one past the last valid address");
            },
        }
        let s = string_of_chars(buf.as_slice());
        assert(s@ =~= symbol_error_text(self@));
        s
    }
}

} // verus!
