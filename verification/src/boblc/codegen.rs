//! Generating bassembly from three-address code. Each function keeps its
//! frame in `r5`: the parameters, the other locals, then the temporaries;
//! constants go to a literal pool that is flushed into the code in chunks.
use vstd::prelude::*;
use vstd::string::StringExecFns;
use super::op::{BinaryOp, UnaryOp};
use super::rast::{FuncId, VarId};
use super::tac::{Label, TacAsmOperand, TacFunction, TacInst, TacProgram, TacRegister, Temp};
use crate::text::{chars_of, decimal, str_eq, string_of_chars, u64_decimal};
use super::archive::literalpool::{push_char_vec, push_chars};

verus! {

/// The runtime routine that computes a binary operator, if it is not inlined.
pub open spec fn runtime_symbol_spec(op: BinaryOp) -> Option<Seq<char>> {
    match op {
        BinaryOp::Add | BinaryOp::Sub | BinaryOp::BitAnd => None,
        BinaryOp::Mul => Some("__rt_mul"@),
        BinaryOp::Div => Some("__rt_div"@),
        BinaryOp::Mod => Some("__rt_mod"@),
        BinaryOp::BitOr => Some("__rt_bitor"@),
        BinaryOp::BitXor => Some("__rt_bitxor"@),
        BinaryOp::LogAnd => Some("__rt_logand"@),
        BinaryOp::LogOr => Some("__rt_logor"@),
        BinaryOp::Eq => Some("__rt_eq"@),
        BinaryOp::Ne => Some("__rt_ne"@),
        BinaryOp::Lt => Some("__rt_lt"@),
        BinaryOp::Le => Some("__rt_le"@),
        BinaryOp::Gt => Some("__rt_gt"@),
        BinaryOp::Ge => Some("__rt_ge"@),
    }
}

/// The runtime routine that computes a binary operator, if it is not inlined.
fn runtime_symbol(op: BinaryOp) -> (r: Option<&'static str>)
    ensures
        match r {
            Some(s) => runtime_symbol_spec(op) == Some(s@),
            None => runtime_symbol_spec(op) is None,
        },
{
    match op {
        BinaryOp::Add | BinaryOp::Sub | BinaryOp::BitAnd => None,
        BinaryOp::Mul => Some("__rt_mul"),
        BinaryOp::Div => Some("__rt_div"),
        BinaryOp::Mod => Some("__rt_mod"),
        BinaryOp::BitOr => Some("__rt_bitor"),
        BinaryOp::BitXor => Some("__rt_bitxor"),
        BinaryOp::LogAnd => Some("__rt_logand"),
        BinaryOp::LogOr => Some("__rt_logor"),
        BinaryOp::Eq => Some("__rt_eq"),
        BinaryOp::Ne => Some("__rt_ne"),
        BinaryOp::Lt => Some("__rt_lt"),
        BinaryOp::Le => Some("__rt_le"),
        BinaryOp::Gt => Some("__rt_gt"),
        BinaryOp::Ge => Some("__rt_ge"),
    }
}

/// The name of a register.
pub open spec fn reg_name_spec(r: TacRegister) -> Seq<char> {
    match r {
        TacRegister::R0 => "r0"@,
        TacRegister::R1 => "r1"@,
        TacRegister::R2 => "r2"@,
        TacRegister::R3 => "r3"@,
        TacRegister::R4 => "r4"@,
        TacRegister::R5 => "r5"@,
        TacRegister::R6 => "r6"@,
        TacRegister::R7 => "r7"@,
    }
}

/// The name of a register.
fn reg_name(r: TacRegister) -> (s: &'static str)
    ensures
        s@ == reg_name_spec(r),
{
    match r {
        TacRegister::R0 => "r0",
        TacRegister::R1 => "r1",
        TacRegister::R2 => "r2",
        TacRegister::R3 => "r3",
        TacRegister::R4 => "r4",
        TacRegister::R5 => "r5",
        TacRegister::R6 => "r6",
        TacRegister::R7 => "r7",
    }
}

/// The literal pool of the current chunk: label numbering and the (label,
/// constant) entries in the order they were interned.
pub struct PoolModel {
    pub next_id: nat,
    pub strings: Seq<(Seq<char>, Seq<char>)>,
    pub ints: Seq<(Seq<char>, u16)>,
    pub funcs: Seq<(Seq<char>, Seq<char>)>,
}

/// The label of the first entry holding `v`.
pub open spec fn label_of_value<V>(entries: Seq<(Seq<char>, V)>, v: V) -> Option<Seq<char>>
    decreases entries.len(),
{
    if entries.len() == 0 {
        None
    } else if entries[0].1 == v {
        Some(entries[0].0)
    } else {
        label_of_value(entries.drop_first(), v)
    }
}

/// The pool and label after interning a string.
pub open spec fn pool_string(p: PoolModel, s: Seq<char>) -> (PoolModel, Seq<char>) {
    match label_of_value(p.strings, s) {
        Some(l) => (p, l),
        None => {
            let l = "__lstr"@ + decimal(p.next_id);
            (PoolModel { next_id: p.next_id + 1, strings: p.strings.push((l, s)), ..p }, l)
        },
    }
}

/// The pool and label after interning an integer.
pub open spec fn pool_int(p: PoolModel, v: u16) -> (PoolModel, Seq<char>) {
    match label_of_value(p.ints, v) {
        Some(l) => (p, l),
        None => {
            let l = "__lint"@ + decimal(p.next_id);
            (PoolModel { next_id: p.next_id + 1, ints: p.ints.push((l, v)), ..p }, l)
        },
    }
}

/// The pool and label after interning the address of a function.
pub open spec fn pool_func(p: PoolModel, f: Seq<char>) -> (PoolModel, Seq<char>) {
    match label_of_value(p.funcs, f) {
        Some(l) => (p, l),
        None => {
            let l = "__lfn"@ + decimal(p.next_id);
            (PoolModel { next_id: p.next_id + 1, funcs: p.funcs.push((l, f)), ..p }, l)
        },
    }
}

/// The characters of the strings in a pool, each with a terminator.
pub open spec fn strings_chars(e: Seq<(Seq<char>, Seq<char>)>) -> nat
    decreases e.len(),
{
    if e.len() == 0 { 0 } else { strings_chars(e.drop_last()) + e.last().1.len() + 1 }
}

/// The words a pool's data takes.
pub open spec fn pool_words(p: PoolModel) -> nat {
    strings_chars(p.strings) + p.ints.len() + p.funcs.len()
}

/// A string as a `.string` directive writes it: backslashes, quotes and
/// newlines escaped.
pub open spec fn escape_string(s: Seq<char>) -> Seq<char>
    decreases s.len(),
{
    if s.len() == 0 {
        Seq::empty()
    } else {
        escape_string(s.drop_last()) + if s.last() == '\\' {
            seq!['\\', '\\']
        } else if s.last() == '"' {
            seq!['\\', '"']
        } else if s.last() == '\n' {
            seq!['\\', 'n']
        } else {
            seq![s.last()]
        }
    }
}

/// The data lines of the strings.
pub open spec fn strings_data(e: Seq<(Seq<char>, Seq<char>)>) -> Seq<char>
    decreases e.len(),
{
    if e.len() == 0 {
        Seq::empty()
    } else {
        strings_data(e.drop_last()) + e.last().0 + ": .string \""@ + escape_string(e.last().1) + "\"\n"@
    }
}

/// The data lines of the integers.
pub open spec fn ints_data(e: Seq<(Seq<char>, u16)>) -> Seq<char>
    decreases e.len(),
{
    if e.len() == 0 {
        Seq::empty()
    } else {
        ints_data(e.drop_last()) + e.last().0 + ": .fill "@ + decimal(e.last().1 as nat) + "\n"@
    }
}

/// The data lines of the function addresses.
pub open spec fn funcs_data(e: Seq<(Seq<char>, Seq<char>)>) -> Seq<char>
    decreases e.len(),
{
    if e.len() == 0 {
        Seq::empty()
    } else {
        funcs_data(e.drop_last()) + e.last().0 + ": .fill "@ + e.last().1 + "\n"@
    }
}

/// The data section of a pool.
pub open spec fn pool_data(p: PoolModel) -> Seq<char> {
    strings_data(p.strings) + ints_data(p.ints) + funcs_data(p.funcs)
}

/// The state of code generation: the text so far, the instructions and pool
/// of the current chunk, the chunks finished, and the frame offsets of the
/// variables of the current function.
pub struct CgState {
    pub out: Seq<char>,
    pub words: nat,
    pub pool: PoolModel,
    pub chunks: nat,
    pub frame: Seq<(VarId, u16)>,
}

/// The state after one instruction line.
pub open spec fn emit(st: CgState, line: Seq<char>) -> CgState {
    CgState { out: st.out + seq!['\t'] + line + seq!['\n'], words: st.words + 1, ..st }
}

/// The state after a chunk ends: a branch over the pool, the pool's data,
/// the label after it, and an empty pool.
pub open spec fn finish_chunk_spec(st: CgState) -> CgState {
    let after = "__after_pool"@ + decimal(st.chunks);
    let s1 = emit(st, "br "@ + after);
    CgState {
        out: s1.out + pool_data(st.pool) + after + ":\n"@,
        words: 0,
        pool: PoolModel { next_id: st.pool.next_id, strings: Seq::empty(), ints: Seq::empty(), funcs: Seq::empty() },
        chunks: st.chunks + 1,
        ..s1
    }
}

/// The state before an instruction: the chunk ends first when its code and
/// pool together reach 200 words.
pub open spec fn maybe_finish_spec(st: CgState) -> CgState {
    if st.words + pool_words(st.pool) >= 200 { finish_chunk_spec(st) } else { st }
}


/// The label of function `id`: the first entry for it.
pub open spec fn func_label_spec(labels: Seq<(FuncId, Seq<char>)>, id: FuncId) -> Option<Seq<char>>
    decreases labels.len(),
{
    if labels.len() == 0 {
        None
    } else if labels[0].0 == id {
        Some(labels[0].1)
    } else {
        func_label_spec(labels.drop_first(), id)
    }
}

/// The frame offset of a temporary: after the function's locals.
pub open spec fn temp_off(func: TacFunction, t: Temp) -> u16 {
    (((func.locals@.len() as u32) as int + t.0 as int) % 0x10000) as u16
}

/// The frame offset of a variable and the frame after it: its offset, or the
/// next free one.
pub open spec fn var_offset_spec(frame: Seq<(VarId, u16)>, v: VarId) -> (Seq<(VarId, u16)>, u16) {
    match frame_find(frame, v) {
        Some(k) => (frame, frame[k].1),
        None => (frame.push((v, (frame.len() % 0x10000) as u16)), (frame.len() % 0x10000) as u16),
    }
}

/// The index of the first entry for `v`.
pub open spec fn frame_find(frame: Seq<(VarId, u16)>, v: VarId) -> Option<int>
    decreases frame.len(),
{
    if frame.len() == 0 {
        None
    } else {
        match frame_find(frame.drop_last(), v) {
            Some(k) => Some(k),
            None => if frame.last().0 == v { Some(frame.len() - 1) } else { None },
        }
    }
}

/// The frame with `v` at `offset`: its entry updated, or a new one.
pub open spec fn frame_insert(frame: Seq<(VarId, u16)>, v: VarId, offset: u16) -> Seq<(VarId, u16)> {
    match frame_find(frame, v) {
        Some(k) => frame.update(k, (v, offset)),
        None => frame.push((v, offset)),
    }
}

/// The frame of a function's parameters: each at its position, a repeated
/// parameter at its last.
pub open spec fn params_frame(params: Seq<VarId>, k: nat) -> Seq<(VarId, u16)>
    decreases k,
{
    if k == 0 || k > params.len() {
        Seq::empty()
    } else {
        frame_insert(params_frame(params, (k - 1) as nat), params[k - 1], ((k - 1) % 0x10000) as u16)
    }
}

/// The literal pool of a chunk.
struct LiteralPool {
    next_id: u32,
    strings: Vec<(String, String)>,
    ints: Vec<(String, u16)>,
    funcs: Vec<(String, String)>,
}

/// The mathematical form of the string entries of a pool.
pub open spec fn pairs_view(v: Seq<(String, String)>) -> Seq<(Seq<char>, Seq<char>)> {
    v.map_values(|e: (String, String)| (e.0@, e.1@))
}

/// The mathematical form of the integer entries of a pool.
pub open spec fn int_pairs_view(v: Seq<(String, u16)>) -> Seq<(Seq<char>, u16)> {
    v.map_values(|e: (String, u16)| (e.0@, e.1))
}

impl View for LiteralPool {
    type V = PoolModel;

    closed spec fn view(&self) -> PoolModel {
        PoolModel {
            next_id: self.next_id as nat,
            strings: pairs_view(self.strings@),
            ints: int_pairs_view(self.ints@),
            funcs: pairs_view(self.funcs@),
        }
    }
}

/// A label: the prefix followed by the decimal numeral of `id`.
fn numbered(prefix: &str, id: u64) -> (r: String)
    ensures
        r@ == prefix@ + decimal(id as nat),
{
    let mut cs = chars_of(prefix);
    let digits = u64_decimal(id);
    push_char_vec(&mut cs, &digits);
    string_of_chars(cs.as_slice())
}

/// The label of the first entry whose text is `s`.
fn find_label(entries: &Vec<(String, String)>, s: &str) -> (r: Option<String>)
    ensures
        match label_of_value(pairs_view(entries@), s@) {
            Some(l) => r matches Some(x) && x@ == l,
            None => r is None,
        },
{
    let mut j: usize = 0;
    assert(pairs_view(entries@).skip(0) =~= pairs_view(entries@));
    while j < entries.len()
        invariant
            j <= entries@.len(),
            label_of_value(pairs_view(entries@), s@) == label_of_value(pairs_view(entries@).skip(j as int), s@),
        decreases entries@.len() - j,
    {
        assert(pairs_view(entries@).skip(j as int).drop_first() =~= pairs_view(entries@).skip(j + 1));
        assert(pairs_view(entries@).skip(j as int)[0] == (entries@[j as int].0@, entries@[j as int].1@));
        if str_eq(entries[j].1.as_str(), s) {
            return Some(entries[j].0.clone());
        }
        j += 1;
    }
    None
}

impl LiteralPool {
    fn new() -> (p: Self)
        ensures
            p@ == (PoolModel { next_id: 0, strings: Seq::empty(), ints: Seq::empty(), funcs: Seq::empty() }),
    {
        let p = LiteralPool { next_id: 0, strings: Vec::new(), ints: Vec::new(), funcs: Vec::new() };
        assert(p@.strings =~= Seq::empty());
        assert(p@.ints =~= Seq::empty());
        assert(p@.funcs =~= Seq::empty());
        p
    }

    fn intern_string(&mut self, s: &str) -> (label: String)
        requires
            old(self)@.next_id < u32::MAX,
        ensures
            (final(self)@, label@) == pool_string(old(self)@, s@),
    {
        if let Some(l) = find_label(&self.strings, s) {
            return l;
        }
        let label = numbered("__lstr", self.next_id as u64);
        self.next_id = self.next_id + 1;
        let ghost before = pairs_view(self.strings@);
        self.strings.push((label.clone(), s.to_owned()));
        assert(pairs_view(self.strings@) =~= before.push((label@, s@)));
        label
    }

    fn intern_int(&mut self, v: u16) -> (label: String)
        requires
            old(self)@.next_id < u32::MAX,
        ensures
            (final(self)@, label@) == pool_int(old(self)@, v),
    {
        let mut j: usize = 0;
        assert(int_pairs_view(self.ints@).skip(0) =~= int_pairs_view(self.ints@));
        while j < self.ints.len()
            invariant
                j <= self.ints@.len(),
                label_of_value(int_pairs_view(self.ints@), v) == label_of_value(int_pairs_view(self.ints@).skip(j as int), v),
            decreases self.ints@.len() - j,
        {
            assert(int_pairs_view(self.ints@).skip(j as int).drop_first() =~= int_pairs_view(self.ints@).skip(j + 1));
            assert(int_pairs_view(self.ints@).skip(j as int)[0] == (self.ints@[j as int].0@, self.ints@[j as int].1));
            if self.ints[j].1 == v {
                return self.ints[j].0.clone();
            }
            j += 1;
        }
        let label = numbered("__lint", self.next_id as u64);
        self.next_id = self.next_id + 1;
        let ghost before = int_pairs_view(self.ints@);
        self.ints.push((label.clone(), v));
        assert(int_pairs_view(self.ints@) =~= before.push((label@, v)));
        label
    }

    fn intern_func(&mut self, f: String) -> (label: String)
        requires
            old(self)@.next_id < u32::MAX,
        ensures
            (final(self)@, label@) == pool_func(old(self)@, f@),
    {
        if let Some(l) = find_label(&self.funcs, f.as_str()) {
            return l;
        }
        let label = numbered("__lfn", self.next_id as u64);
        self.next_id = self.next_id + 1;
        let ghost before = pairs_view(self.funcs@);
        let ghost fv = f@;
        self.funcs.push((label.clone(), f));
        assert(pairs_view(self.funcs@) =~= before.push((label@, fv)));
        label
    }
}


/// Appends `s` with backslashes, quotes and newlines escaped.
fn push_escaped_string(buf: &mut Vec<char>, s: &str)
    ensures
        final(buf)@ == old(buf)@ + escape_string(s@),
{
    let cs = chars_of(s);
    let ghost b0 = old(buf)@;
    let mut k: usize = 0;
    while k < cs.len()
        invariant
            cs@ == s@,
            k <= cs@.len(),
            buf@ == b0 + escape_string(cs@.take(k as int)),
        decreases cs@.len() - k,
    {
        assert(cs@.take(k + 1).drop_last() =~= cs@.take(k as int));
        let c = cs[k];
        if c == '\\' {
            buf.push('\\');
            buf.push('\\');
        } else if c == '"' {
            buf.push('\\');
            buf.push('"');
        } else if c == '\n' {
            buf.push('\\');
            buf.push('n');
        } else {
            buf.push(c);
        }
        assert(buf@ =~= b0 + escape_string(cs@.take(k + 1)));
        k += 1;
    }
    assert(cs@.take(cs@.len() as int) =~= cs@);
}

impl LiteralPool {
    fn emit(&self, out: &mut Vec<char>)
        ensures
            final(out)@ == old(out)@ + pool_data(self@),
    {
        let ghost b0 = old(out)@;
        let ghost ts = pairs_view(self.strings@);
        let mut j: usize = 0;
        while j < self.strings.len()
            invariant
                ts == pairs_view(self.strings@),
                j <= self.strings@.len(),
                out@ == b0 + strings_data(ts.take(j as int)),
            decreases self.strings@.len() - j,
        {
            assert(ts.take(j + 1).drop_last() =~= ts.take(j as int));
            push_chars(out, self.strings[j].0.as_str());
            push_chars(out, ": .string \"");
            push_escaped_string(out, self.strings[j].1.as_str());
            push_chars(out, "\"\n");
            assert(out@ =~= b0 + strings_data(ts.take(j + 1)));
            j += 1;
        }
        assert(ts.take(j as int) =~= ts);
        let ghost b1 = out@;
        let ghost ti = int_pairs_view(self.ints@);
        let mut j: usize = 0;
        while j < self.ints.len()
            invariant
                ti == int_pairs_view(self.ints@),
                j <= self.ints@.len(),
                out@ == b1 + ints_data(ti.take(j as int)),
            decreases self.ints@.len() - j,
        {
            assert(ti.take(j + 1).drop_last() =~= ti.take(j as int));
            push_chars(out, self.ints[j].0.as_str());
            push_chars(out, ": .fill ");
            let d = u64_decimal(self.ints[j].1 as u64);
            push_char_vec(out, &d);
            push_chars(out, "\n");
            assert(out@ =~= b1 + ints_data(ti.take(j + 1)));
            j += 1;
        }
        assert(ti.take(j as int) =~= ti);
        let ghost b2 = out@;
        let ghost tf = pairs_view(self.funcs@);
        let mut j: usize = 0;
        while j < self.funcs.len()
            invariant
                tf == pairs_view(self.funcs@),
                j <= self.funcs@.len(),
                out@ == b2 + funcs_data(tf.take(j as int)),
            decreases self.funcs@.len() - j,
        {
            assert(tf.take(j + 1).drop_last() =~= tf.take(j as int));
            push_chars(out, self.funcs[j].0.as_str());
            push_chars(out, ": .fill ");
            push_chars(out, self.funcs[j].1.as_str());
            push_chars(out, "\n");
            assert(out@ =~= b2 + funcs_data(tf.take(j + 1)));
            j += 1;
        }
        assert(tf.take(j as int) =~= tf);
        assert(out@ =~= b0 + pool_data(self@));
    }

    fn size(&self) -> (n: usize)
        requires
            pool_words(self@) <= usize::MAX,
        ensures
            n == pool_words(self@),
    {
        let ghost t = pairs_view(self.strings@);
        let mut total: usize = 0;
        let mut j: usize = 0;
        while j < self.strings.len()
            invariant
                t == pairs_view(self.strings@),
                j <= self.strings@.len(),
                pool_words(self@) <= usize::MAX,
                total == strings_chars(t.take(j as int)),
            decreases self.strings@.len() - j,
        {
            proof {
                assert(t.take(j + 1).drop_last() =~= t.take(j as int));
                lemma_strings_chars_prefix(t, j + 1);
            }
            let n = chars_of(self.strings[j].1.as_str()).len();
            total = total + n + 1;
            j += 1;
        }
        assert(t.take(j as int) =~= t);
        total + self.ints.len() + self.funcs.len()
    }

    fn clear(&mut self)
        ensures
            final(self)@ == (PoolModel { next_id: old(self)@.next_id, strings: Seq::empty(), ints: Seq::empty(), funcs: Seq::empty() }),
    {
        self.strings = Vec::new();
        self.ints = Vec::new();
        self.funcs = Vec::new();
        assert(self@.strings =~= Seq::empty());
        assert(self@.ints =~= Seq::empty());
        assert(self@.funcs =~= Seq::empty());
    }
}

proof fn lemma_strings_chars_prefix(t: Seq<(Seq<char>, Seq<char>)>, k: int)
    requires
        0 <= k <= t.len(),
    ensures
        strings_chars(t.take(k)) <= strings_chars(t),
    decreases t.len(),
{
    if t.len() > 0 {
        if k == t.len() {
            assert(t.take(k) =~= t);
        } else {
            assert(t.drop_last().take(k) =~= t.take(k));
            lemma_strings_chars_prefix(t.drop_last(), k);
        }
    }
}


/// The line that loads a temporary into a register.
pub open spec fn load_temp_spec(st: CgState, func: TacFunction, reg: Seq<char>, t: Temp) -> CgState {
    emit(st, "ldr "@ + reg + ", r5, "@ + decimal(temp_off(func, t) as nat))
}

/// The line that stores a register into a temporary.
pub open spec fn store_temp_spec(st: CgState, func: TacFunction, reg: Seq<char>, t: Temp) -> CgState {
    emit(st, "str "@ + reg + ", r5, "@ + decimal(temp_off(func, t) as nat))
}

/// The words of a function's frame: its locals and temporaries.
pub open spec fn frame_size_spec(func: TacFunction) -> int {
    (func.locals@.len() as u32) as int + func.num_temps as int
}

/// The epilogue: the result into `r0`, the frame released, the saved frame
/// pointer and return address restored, and a return.
pub open spec fn epilogue_spec(st: CgState, func: TacFunction, ret: Option<Temp>) -> CgState {
    let s1 = match ret {
        Some(t) => emit(st, "ldr r0, r5, "@ + decimal(temp_off(func, t) as nat)),
        None => st,
    };
    let size = frame_size_spec(func);
    let s2 = if size > 0 { emit(s1, "add r6, -"@ + decimal(size as nat)) } else { s1 };
    emit(emit(emit(emit(s2, "add r4, -2"@), "ldr r7, r4, 1"@), "ldr r5, r4, 0"@), "ret"@)
}

/// A binary operation: inline for `+`, `-` and `&`, else a call of its
/// runtime routine with both operands on the stack.
pub open spec fn binop_spec(st: CgState, func: TacFunction, dst: Temp, op: BinaryOp, lhs: Temp, rhs: Temp) -> CgState {
    match runtime_symbol_spec(op) {
        Some(sym) => {
            let (p, l) = pool_func(st.pool, sym);
            let s0 = CgState { pool: p, ..st };
            let s1 = emit(emit(load_temp_spec(s0, func, "r0"@, lhs), "str r0, r6, 0"@), "add r6, 1"@);
            let s2 = emit(emit(load_temp_spec(s1, func, "r0"@, rhs), "str r0, r6, 0"@), "add r6, 1"@);
            store_temp_spec(emit(emit(s2, "ld r0, "@ + l), "jsr r0"@), func, "r0"@, dst)
        },
        None => {
            let s1 = load_temp_spec(load_temp_spec(st, func, "r0"@, lhs), func, "r1"@, rhs);
            let s2 = match op {
                BinaryOp::Add => emit(s1, "add r0, r1"@),
                BinaryOp::BitAnd => emit(s1, "and r0, r1"@),
                _ => emit(emit(emit(s1, "not r1"@), "add r1, 1"@), "add r0, r1"@),
            };
            store_temp_spec(s2, func, "r0"@, dst)
        },
    }
}

/// A unary operation: inline for `~` and `-`, a runtime call for `!`.
pub open spec fn unop_spec(st: CgState, func: TacFunction, dst: Temp, op: UnaryOp, src: Temp) -> CgState {
    let s1 = load_temp_spec(st, func, "r0"@, src);
    let s2 = match op {
        UnaryOp::BitNot => emit(s1, "not r0"@),
        UnaryOp::Neg => emit(emit(s1, "not r0"@), "add r0, 1"@),
        UnaryOp::LogNot => {
            let s3 = emit(emit(s1, "str r0, r6, 0"@), "add r6, 1"@);
            let (p, l) = pool_func(s3.pool, "__rt_lognot"@);
            emit(emit(CgState { pool: p, ..s3 }, "ld r0, "@ + l), "jsr r0"@)
        },
    };
    store_temp_spec(s2, func, "r0"@, dst)
}

/// The text of an operand of a raw instruction.
pub open spec fn asm_operand_text(a: TacAsmOperand) -> Seq<char> {
    match a {
        TacAsmOperand::Reg(r) => reg_name_spec(r),
        TacAsmOperand::Imm(n) => decimal(n as nat),
    }
}

/// The operands of a raw instruction, separated by spaces.
pub open spec fn join_operands(args: Seq<TacAsmOperand>) -> Seq<char>
    decreases args.len(),
{
    if args.len() == 0 {
        Seq::empty()
    } else if args.len() == 1 {
        asm_operand_text(args[0])
    } else {
        join_operands(args.drop_last()) + seq![' '] + asm_operand_text(args.last())
    }
}

/// The label of a jump target within function `func`.
pub open spec fn local_label(func: TacFunction, id: u32) -> Seq<char> {
    "__"@ + decimal(func.id.0 as nat) + "L"@ + decimal(id as nat)
}

/// The state after one instruction of `func`, with `labels` naming the functions.
pub open spec fn inst_spec(st0: CgState, labels: Seq<(FuncId, Seq<char>)>, func: TacFunction, inst: TacInst) -> CgState {
    inst_body(maybe_finish_spec(st0), labels, func, inst)
}

/// The code of one instruction of `func`, once the chunk has room.
pub open spec fn inst_body(st: CgState, labels: Seq<(FuncId, Seq<char>)>, func: TacFunction, inst: TacInst) -> CgState {
    match inst {
        TacInst::ConstInt { dst, val } => {
            let (p, l) = pool_int(st.pool, val);
            store_temp_spec(emit(CgState { pool: p, ..st }, "ld r0, "@ + l), func, "r0"@, dst)
        },
        TacInst::ConstStr { dst, val } => {
            let (p, l) = pool_string(st.pool, val@);
            store_temp_spec(emit(CgState { pool: p, ..st }, "lea r0, "@ + l), func, "r0"@, dst)
        },
        TacInst::Copy { dst, src } => store_temp_spec(load_temp_spec(st, func, "r0"@, src), func, "r0"@, dst),
        TacInst::LoadVar { dst, var } => {
            let (fr, off) = var_offset_spec(st.frame, var);
            store_temp_spec(emit(CgState { frame: fr, ..st }, "ldr r0, r5, "@ + decimal(off as nat)), func, "r0"@, dst)
        },
        TacInst::StoreVar { var, src } => {
            let s1 = load_temp_spec(st, func, "r0"@, src);
            let (fr, off) = var_offset_spec(s1.frame, var);
            emit(CgState { frame: fr, ..s1 }, "str r0, r5, "@ + decimal(off as nat))
        },
        TacInst::Load { dst, addr } =>
            store_temp_spec(emit(load_temp_spec(st, func, "r0"@, addr), "ldr r0, r0, 0"@), func, "r0"@, dst),
        TacInst::Store { addr, src } =>
            emit(load_temp_spec(load_temp_spec(st, func, "r0"@, addr), func, "r1"@, src), "str r1, r0, 0"@),
        TacInst::AddrOf { dst, var } => {
            let (fr, off) = var_offset_spec(st.frame, var);
            store_temp_spec(emit(CgState { frame: fr, ..st }, "add r0, r5, "@ + decimal(off as nat)), func, "r0"@, dst)
        },
        TacInst::LoadFunc { dst, func: target } => {
            let (p, l) = pool_func(st.pool, func_label_spec(labels, target).unwrap());
            store_temp_spec(emit(CgState { pool: p, ..st }, "ld r0, "@ + l), func, "r0"@, dst)
        },
        TacInst::BinOp { dst, op, lhs, rhs } => binop_spec(st, func, dst, op, lhs, rhs),
        TacInst::UnOp { dst, op, src } => unop_spec(st, func, dst, op, src),
        TacInst::Param(t) => emit(emit(load_temp_spec(st, func, "r0"@, t), "str r0, r6, 0"@), "add r6, 1"@),
        TacInst::ParamInt(v) => {
            let (p, l) = pool_int(st.pool, v);
            emit(emit(emit(CgState { pool: p, ..st }, "ld r0, "@ + l), "str r0, r6, 0"@), "add r6, 1"@)
        },
        TacInst::ParamStr(v) => {
            let (p, l) = pool_string(st.pool, v@);
            emit(emit(emit(CgState { pool: p, ..st }, "lea r0, "@ + l), "str r0, r6, 0"@), "add r6, 1"@)
        },
        TacInst::Call { dst, callee } => {
            let s1 = emit(load_temp_spec(st, func, "r0"@, callee), "jsr r0"@);
            match dst {
                Some(d) => store_temp_spec(s1, func, "r0"@, d),
                None => s1,
            }
        },
        TacInst::CallDirect { dst, callee } => {
            let (p, l) = pool_func(st.pool, func_label_spec(labels, callee).unwrap());
            let s1 = emit(emit(CgState { pool: p, ..st }, "ld r0, "@ + l), "jsr r0"@);
            match dst {
                Some(d) => store_temp_spec(s1, func, "r0"@, d),
                None => s1,
            }
        },
        TacInst::Label(Label(id)) => CgState { out: st.out + local_label(func, id) + ":\n"@, ..st },
        TacInst::Jump(Label(id)) => emit(st, "br "@ + local_label(func, id)),
        TacInst::JumpIfZero { cond, target: Label(id) } =>
            emit(load_temp_spec(st, func, "r0"@, cond), "brz "@ + local_label(func, id)),
        TacInst::Return(val) => epilogue_spec(st, func, val),
        TacInst::AsmIn { dst, src } => load_temp_spec(st, func, reg_name_spec(dst), src),
        TacInst::AsmOut { dst, src } => store_temp_spec(st, func, reg_name_spec(src), dst),
        TacInst::AsmRaw { mnemonic, args } => emit(st, mnemonic@ + seq![' '] + join_operands(args@)),
        TacInst::Dummy => st,
    }
}


/// The code and pool of the current chunk.
struct Chunk {
    words: usize,
    pool: LiteralPool,
}

/// The frame offsets of the variables of the current function.
struct FrameLayout {
    var_offsets: Vec<(VarId, u16)>,
}

/// A generator of bassembly for a program in three-address code.
pub struct Codegen {
    func_labels: Vec<(FuncId, String)>,
    current_chunk: Chunk,
    chunk_count: usize,
    frame_layout: FrameLayout,
    out: Vec<char>,
}

impl View for Codegen {
    type V = CgState;

    closed spec fn view(&self) -> CgState {
        CgState {
            out: self.out@,
            words: self.current_chunk.words as nat,
            pool: self.current_chunk.pool@,
            chunks: self.chunk_count as nat,
            frame: self.frame_layout.var_offsets@,
        }
    }
}

/// The labels of functions as text.
pub open spec fn labels_view(v: Seq<(FuncId, String)>) -> Seq<(FuncId, Seq<char>)> {
    v.map_values(|e: (FuncId, String)| (e.0, e.1@))
}

/// The pool words an instruction can add.
pub open spec fn inst_cost(inst: TacInst) -> nat {
    match inst {
        TacInst::ConstStr { val, .. } => val@.len() + 1,
        TacInst::ParamStr(val) => val@.len() + 1,
        TacInst::ConstInt { .. } | TacInst::ParamInt(_) | TacInst::LoadFunc { .. } | TacInst::CallDirect { .. }
        | TacInst::BinOp { .. } | TacInst::UnOp { .. } => 1,
        _ => 0,
    }
}

/// Whether a temporary's frame offset can be computed in 32 bits.
pub open spec fn temp_fits(func: TacFunction, t: Temp) -> bool {
    (func.locals@.len() as u32) as int + t.0 as int <= u32::MAX
}

/// Whether every temporary of an instruction fits, and every function it
/// names has a label.
pub open spec fn inst_fits(labels: Seq<(FuncId, Seq<char>)>, func: TacFunction, inst: TacInst) -> bool {
    match inst {
        TacInst::ConstInt { dst, .. } | TacInst::ConstStr { dst, .. } | TacInst::LoadVar { dst, .. }
        | TacInst::AddrOf { dst, .. } | TacInst::AsmOut { dst, .. } => temp_fits(func, dst),
        TacInst::LoadFunc { dst, func: f } => temp_fits(func, dst) && func_label_spec(labels, f) is Some,
        TacInst::Copy { dst, src } | TacInst::UnOp { dst, src, .. } => temp_fits(func, dst) && temp_fits(func, src),
        TacInst::StoreVar { src, .. } | TacInst::AsmIn { src, .. } => temp_fits(func, src),
        TacInst::Load { dst, addr } => temp_fits(func, dst) && temp_fits(func, addr),
        TacInst::Store { addr, src } => temp_fits(func, addr) && temp_fits(func, src),
        TacInst::BinOp { dst, lhs, rhs, .. } => temp_fits(func, dst) && temp_fits(func, lhs) && temp_fits(func, rhs),
        TacInst::Param(t) | TacInst::JumpIfZero { cond: t, .. } | TacInst::Return(Some(t)) => temp_fits(func, t),
        TacInst::Call { dst, callee } => temp_fits(func, callee) && (dst matches Some(d) ==> temp_fits(func, d)),
        TacInst::CallDirect { dst, callee } => func_label_spec(labels, callee) is Some && (dst matches Some(d) ==> temp_fits(func, d)),
        _ => true,
    }
}

/// Room for one more instruction: counters far from their limits.
pub open spec fn room(st: CgState, cost: nat) -> bool {
    &&& st.words <= 250
    &&& st.pool.next_id + 2 < u32::MAX
    &&& st.chunks + 2 < usize::MAX
    &&& st.frame.len() + 2 < usize::MAX
    &&& pool_words(st.pool) + cost + 1000 <= usize::MAX
}

impl Codegen {
    /// The labels the generator names functions by.
    pub closed spec fn labels(&self) -> Seq<(FuncId, Seq<char>)> {
        labels_view(self.func_labels@)
    }

    /// A generator naming each function by its entry in `func_labels`.
    pub fn new(func_labels: Vec<(FuncId, String)>) -> (g: Self)
        ensures
            g.labels() == labels_view(func_labels@),
            g@ == (CgState {
                out: Seq::empty(),
                words: 0,
                pool: PoolModel { next_id: 0, strings: Seq::empty(), ints: Seq::empty(), funcs: Seq::empty() },
                chunks: 0,
                frame: Seq::empty(),
            }),
    {
        let g = Codegen {
            func_labels,
            current_chunk: Chunk { words: 0, pool: LiteralPool::new() },
            chunk_count: 0,
            frame_layout: FrameLayout { var_offsets: Vec::new() },
            out: Vec::new(),
        };
        assert(g@.frame =~= Seq::empty());
        assert(g@.out =~= Seq::empty());
        g
    }

    /// The label of function `id`.
    fn label_for(&self, id: FuncId) -> (l: String)
        requires
            func_label_spec(self.labels(), id) is Some,
        ensures
            l@ == func_label_spec(self.labels(), id).unwrap(),
    {
        let ghost lv = labels_view(self.func_labels@);
        let mut j: usize = 0;
        assert(lv.skip(0) =~= lv);
        while j < self.func_labels.len()
            invariant
                lv == labels_view(self.func_labels@),
                j <= self.func_labels@.len(),
                func_label_spec(lv, id) == func_label_spec(lv.skip(j as int), id),
            decreases self.func_labels@.len() - j,
        {
            assert(lv.skip(j as int).drop_first() =~= lv.skip(j + 1));
            assert(lv.skip(j as int)[0] == (self.func_labels@[j as int].0, self.func_labels@[j as int].1@));
            if self.func_labels[j].0 == id {
                return self.func_labels[j].1.clone();
            }
            j += 1;
        }
        assert(lv.skip(j as int) =~= Seq::<(FuncId, Seq<char>)>::empty());
        String::new()
    }

    /// Appends an instruction line.
    fn emit_inst(&mut self, line: &str)
        requires
            old(self)@.words < usize::MAX,
        ensures
            final(self)@ == emit(old(self)@, line@),
            final(self).labels() == old(self).labels(),
    {
        self.out.push('\t');
        push_chars(&mut self.out, line);
        self.out.push('\n');
        self.current_chunk.words = self.current_chunk.words + 1;
        assert(self@.out =~= old(self)@.out + seq!['\t'] + line@ + seq!['\n']);
    }

    /// Appends an instruction line made of a prefix and a decimal number.
    fn emit_num(&mut self, prefix: &str, n: u64)
        requires
            old(self)@.words < usize::MAX,
        ensures
            final(self)@ == emit(old(self)@, prefix@ + decimal(n as nat)),
            final(self).labels() == old(self).labels(),
    {
        let mut cs = chars_of(prefix);
        let d = u64_decimal(n);
        push_char_vec(&mut cs, &d);
        let line = string_of_chars(cs.as_slice());
        self.emit_inst(line.as_str());
    }

    /// Loads a temporary into a register.
    fn load_temp(&mut self, func: &TacFunction, dst_reg: &str, t: Temp)
        requires
            old(self)@.words < usize::MAX,
            temp_fits(*func, t),
        ensures
            final(self)@ == load_temp_spec(old(self)@, *func, dst_reg@, t),
            final(self).labels() == old(self).labels(),
    {
        let off = temp_offset(func, t);
        let mut cs = chars_of("ldr ");
        push_chars(&mut cs, dst_reg);
        push_chars(&mut cs, ", r5, ");
        let d = u64_decimal(off as u64);
        push_char_vec(&mut cs, &d);
        let line = string_of_chars(cs.as_slice());
        self.emit_inst(line.as_str());
        assert(line@ =~= "ldr "@ + dst_reg@ + ", r5, "@ + decimal(temp_off(*func, t) as nat));
    }

    /// Stores a register into a temporary.
    fn store_temp(&mut self, func: &TacFunction, src_reg: &str, t: Temp)
        requires
            old(self)@.words < usize::MAX,
            temp_fits(*func, t),
        ensures
            final(self)@ == store_temp_spec(old(self)@, *func, src_reg@, t),
            final(self).labels() == old(self).labels(),
    {
        let off = temp_offset(func, t);
        let mut cs = chars_of("str ");
        push_chars(&mut cs, src_reg);
        push_chars(&mut cs, ", r5, ");
        let d = u64_decimal(off as u64);
        push_char_vec(&mut cs, &d);
        let line = string_of_chars(cs.as_slice());
        self.emit_inst(line.as_str());
        assert(line@ =~= "str "@ + src_reg@ + ", r5, "@ + decimal(temp_off(*func, t) as nat));
    }
}

/// The frame offset of a temporary.
fn temp_offset(func: &TacFunction, t: Temp) -> (off: u16)
    requires
        temp_fits(*func, t),
    ensures
        off == temp_off(*func, t),
{
    let sum: u32 = func.locals.len() as u32 + t.0;
    (sum % 0x10000) as u16
}


impl Codegen {
    /// Ends the chunk: a branch over the pool, the pool's data, and the label after it.
    fn finish_chunk(&mut self)
        requires
            old(self)@.words < usize::MAX,
            old(self)@.chunks < usize::MAX,
        ensures
            final(self)@ == finish_chunk_spec(old(self)@),
            final(self).labels() == old(self).labels(),
    {
        let pool_id = self.chunk_count;
        let mut cs = chars_of("__after_pool");
        let d = u64_decimal(pool_id as u64);
        push_char_vec(&mut cs, &d);
        let after_pool = string_of_chars(cs.as_slice());
        let mut line = chars_of("br ");
        push_chars(&mut line, after_pool.as_str());
        let line_text = string_of_chars(line.as_slice());
        self.emit_inst(line_text.as_str());
        assert(line_text@ =~= "br "@ + ("__after_pool"@ + decimal(pool_id as nat)));
        self.current_chunk.pool.emit(&mut self.out);
        push_chars(&mut self.out, after_pool.as_str());
        push_chars(&mut self.out, ":\n");
        self.current_chunk.words = 0;
        self.current_chunk.pool.clear();
        self.chunk_count = self.chunk_count + 1;
        assert(self@.out =~= finish_chunk_spec(old(self)@).out);
    }

    /// Ends the chunk if its code and pool together reach 200 words.
    fn maybe_finish_chunk(&mut self)
        requires
            room(old(self)@, 0),
        ensures
            final(self)@ == maybe_finish_spec(old(self)@),
            final(self).labels() == old(self).labels(),
            final(self)@.words + pool_words(final(self)@.pool) < 200,
    {
        let size = self.current_chunk.pool.size();
        if self.current_chunk.words + size >= 200 {
            self.finish_chunk();
            assert(pool_words(self@.pool) == 0) by {
                assert(self@.pool.strings.len() == 0);
            }
        }
    }

    /// The frame offset of a variable, given the next free one if it has none.
    fn var_offset(&mut self, v: VarId) -> (off: u16)
        requires
            old(self)@.frame.len() + 1 < usize::MAX,
        ensures
            (final(self)@.frame, off) == var_offset_spec(old(self)@.frame, v),
            final(self)@ == (CgState { frame: final(self)@.frame, ..old(self)@ }),
            final(self).labels() == old(self).labels(),
    {
        let next_offset = (self.frame_layout.var_offsets.len() % 0x10000) as u16;
        let ghost fr = self.frame_layout.var_offsets@;
        let mut j: usize = 0;
        while j < self.frame_layout.var_offsets.len()
            invariant
                fr == self.frame_layout.var_offsets@,
                j <= fr.len(),
                forall|k: int| 0 <= k < j ==> fr[k].0 != v,
            decreases fr.len() - j,
        {
            if self.frame_layout.var_offsets[j].0 == v {
                proof { lemma_frame_find_first(fr, v, j as int); }
                return self.frame_layout.var_offsets[j].1;
            }
            j += 1;
        }
        proof { lemma_frame_find_none(fr, v); }
        self.frame_layout.var_offsets.push((v, next_offset));
        next_offset
    }
}

/// `frame_find` finds the first entry for a variable.
proof fn lemma_frame_find_first(frame: Seq<(VarId, u16)>, v: VarId, j: int)
    requires
        0 <= j < frame.len(),
        frame[j].0 == v,
        forall|k: int| 0 <= k < j ==> frame[k].0 != v,
    ensures
        frame_find(frame, v) == Some(j),
    decreases frame.len(),
{
    if j < frame.len() - 1 {
        lemma_frame_find_first(frame.drop_last(), v, j);
    } else {
        lemma_frame_find_none(frame.drop_last(), v);
    }
}

/// `frame_find` finds nothing for a variable without an entry.
proof fn lemma_frame_find_none(frame: Seq<(VarId, u16)>, v: VarId)
    requires
        forall|k: int| 0 <= k < frame.len() ==> frame[k].0 != v,
    ensures
        frame_find(frame, v) is None,
    decreases frame.len(),
{
    if frame.len() > 0 {
        lemma_frame_find_none(frame.drop_last(), v);
    }
}


/// The words of a function's frame.
fn frame_size(func: &TacFunction) -> (n: u32)
    requires
        frame_size_spec(*func) <= u32::MAX,
    ensures
        n == frame_size_spec(*func),
{
    func.locals.len() as u32 + func.num_temps
}

impl Codegen {
    /// Appends the epilogue of `func`, returning `ret` if given.
    fn gen_epilogue(&mut self, func: &TacFunction, ret: Option<Temp>)
        requires
            old(self)@.words <= 300,
            frame_size_spec(*func) <= u32::MAX,
            ret matches Some(t) ==> temp_fits(*func, t),
        ensures
            final(self)@ == epilogue_spec(old(self)@, *func, ret),
            final(self).labels() == old(self).labels(),
    {
        if let Some(t) = ret {
            let off = temp_offset(func, t);
            self.emit_num("ldr r0, r5, ", off as u64);
        }
        let size = frame_size(func);
        if size > 0 {
            self.emit_num("add r6, -", size as u64);
        }
        self.emit_inst("add r4, -2");
        self.emit_inst("ldr r7, r4, 1");
        self.emit_inst("ldr r5, r4, 0");
        self.emit_inst("ret");
    }

    /// Appends a binary operation.
    fn gen_binop(&mut self, func: &TacFunction, dst: Temp, op: BinaryOp, lhs: Temp, rhs: Temp)
        requires
            old(self)@.words <= 300,
            old(self)@.pool.next_id < u32::MAX,
            temp_fits(*func, dst),
            temp_fits(*func, lhs),
            temp_fits(*func, rhs),
        ensures
            final(self)@ == binop_spec(old(self)@, *func, dst, op, lhs, rhs),
            final(self).labels() == old(self).labels(),
    {
        if let Some(sym) = runtime_symbol(op) {
            let ptr_label = self.current_chunk.pool.intern_func(sym.to_owned());
            self.load_temp(func, "r0", lhs);
            self.emit_inst("str r0, r6, 0");
            self.emit_inst("add r6, 1");
            self.load_temp(func, "r0", rhs);
            self.emit_inst("str r0, r6, 0");
            self.emit_inst("add r6, 1");
            let mut cs = chars_of("ld r0, ");
            push_chars(&mut cs, ptr_label.as_str());
            let line = string_of_chars(cs.as_slice());
            self.emit_inst(line.as_str());
            self.emit_inst("jsr r0");
            self.store_temp(func, "r0", dst);
            return;
        }
        self.load_temp(func, "r0", lhs);
        self.load_temp(func, "r1", rhs);
        match op {
            BinaryOp::Add => {
                self.emit_inst("add r0, r1");
            }
            BinaryOp::BitAnd => {
                self.emit_inst("and r0, r1");
            }
            _ => {
                self.emit_inst("not r1");
                self.emit_inst("add r1, 1");
                self.emit_inst("add r0, r1");
            }
        }
        self.store_temp(func, "r0", dst);
    }

    /// Appends a unary operation.
    fn gen_unop(&mut self, func: &TacFunction, dst: Temp, op: UnaryOp, src: Temp)
        requires
            old(self)@.words <= 300,
            old(self)@.pool.next_id < u32::MAX,
            temp_fits(*func, dst),
            temp_fits(*func, src),
        ensures
            final(self)@ == unop_spec(old(self)@, *func, dst, op, src),
            final(self).labels() == old(self).labels(),
    {
        self.load_temp(func, "r0", src);
        match op {
            UnaryOp::BitNot => {
                self.emit_inst("not r0");
            }
            UnaryOp::Neg => {
                self.emit_inst("not r0");
                self.emit_inst("add r0, 1");
            }
            UnaryOp::LogNot => {
                self.emit_inst("str r0, r6, 0");
                self.emit_inst("add r6, 1");
                let label = self.current_chunk.pool.intern_func("__rt_lognot".to_owned());
                let mut cs = chars_of("ld r0, ");
                push_chars(&mut cs, label.as_str());
                let line = string_of_chars(cs.as_slice());
                self.emit_inst(line.as_str());
                self.emit_inst("jsr r0");
            }
        }
        self.store_temp(func, "r0", dst);
    }
}


/// Interning adds at most the constant's words to the pool and takes at most
/// one label number.
proof fn lemma_intern_bounds(p: PoolModel, s: Seq<char>, v: u16, f: Seq<char>)
    ensures
        pool_words(pool_string(p, s).0) <= pool_words(p) + s.len() + 1,
        pool_string(p, s).0.next_id <= p.next_id + 1,
        pool_words(pool_int(p, v).0) <= pool_words(p) + 1,
        pool_int(p, v).0.next_id <= p.next_id + 1,
        pool_words(pool_func(p, f).0) <= pool_words(p) + 1,
        pool_func(p, f).0.next_id <= p.next_id + 1,
{
    let q = pool_string(p, s).0;
    if q.strings.len() > p.strings.len() {
        assert(q.strings.drop_last() =~= p.strings);
    }
}

/// What one instruction's code may change: a few lines, at most its cost in
/// pool words, one label number and one frame entry.
pub open spec fn step_bounds(st: CgState, st2: CgState, cost: nat) -> bool {
    &&& st2.words <= st.words + 10
    &&& pool_words(st2.pool) <= pool_words(st.pool) + cost
    &&& st2.pool.next_id <= st.pool.next_id + 1
    &&& st2.chunks == st.chunks
    &&& st2.frame.len() <= st.frame.len() + 1
}

/// Room for the code of one instruction in a chunk that has not reached its limit.
pub open spec fn body_room(st: CgState, cost: nat) -> bool {
    &&& st.words < 200
    &&& st.pool.next_id + 2 < u32::MAX
    &&& st.frame.len() + 2 < usize::MAX
    &&& pool_words(st.pool) + cost + 1000 <= usize::MAX
}

impl Codegen {
    /// Appends the code of one instruction of `func`, ending the chunk first
    /// if it is full.
    fn gen_inst(&mut self, func: &TacFunction, inst: &TacInst)
        requires
            room(old(self)@, inst_cost(*inst)),
            inst_fits(old(self).labels(), *func, *inst),
            frame_size_spec(*func) <= u32::MAX,
        ensures
            final(self)@ == inst_spec(old(self)@, old(self).labels(), *func, *inst),
            final(self).labels() == old(self).labels(),
            final(self)@.words <= 250,
            pool_words(final(self)@.pool) <= pool_words(old(self)@.pool) + inst_cost(*inst),
            final(self)@.pool.next_id <= old(self)@.pool.next_id + 1,
            final(self)@.chunks <= old(self)@.chunks + 1,
            final(self)@.frame.len() <= old(self)@.frame.len() + 1,
    {
        self.maybe_finish_chunk();
        match inst {
            TacInst::ConstInt { .. } | TacInst::ConstStr { .. } | TacInst::ParamInt(_) | TacInst::ParamStr(_) => {
                self.gen_constant(func, inst);
            }
            TacInst::LoadFunc { .. } | TacInst::CallDirect { .. } => {
                self.gen_func_ref(func, inst);
            }
            TacInst::LoadVar { .. } | TacInst::StoreVar { .. } | TacInst::AddrOf { .. } => {
                self.gen_var_access(func, inst);
            }
            _ => {
                self.gen_plain(func, inst);
            }
        }
    }

    /// Appends a line made of a prefix and a label.
    fn emit_labelled(&mut self, prefix: &str, label: &str)
        requires
            old(self)@.words < usize::MAX,
        ensures
            final(self)@ == emit(old(self)@, prefix@ + label@),
            final(self).labels() == old(self).labels(),
    {
        let mut cs = chars_of(prefix);
        push_chars(&mut cs, label);
        let line = string_of_chars(cs.as_slice());
        self.emit_inst(line.as_str());
    }

    /// Appends the code of an instruction that loads or pushes a constant
    /// from the pool.
    fn gen_constant(&mut self, func: &TacFunction, inst: &TacInst)
        requires
            inst matches TacInst::ConstInt { .. } || inst matches TacInst::ConstStr { .. }
                || inst matches TacInst::ParamInt(_) || inst matches TacInst::ParamStr(_),
            body_room(old(self)@, inst_cost(*inst)),
            inst_fits(old(self).labels(), *func, *inst),
        ensures
            final(self)@ == inst_body(old(self)@, old(self).labels(), *func, *inst),
            final(self).labels() == old(self).labels(),
            step_bounds(old(self)@, final(self)@, inst_cost(*inst)),
    {
        let ghost st = self@;
        match inst {
            TacInst::ConstInt { dst, val } => {
                proof { lemma_intern_bounds(st.pool, Seq::empty(), *val, Seq::empty()); }
                let label = self.current_chunk.pool.intern_int(*val);
                self.emit_labelled("ld r0, ", label.as_str());
                self.store_temp(func, "r0", *dst);
            }
            TacInst::ConstStr { dst, val } => {
                proof { lemma_intern_bounds(st.pool, val@, 0, Seq::empty()); }
                let label = self.current_chunk.pool.intern_string(val.as_str());
                self.emit_labelled("lea r0, ", label.as_str());
                self.store_temp(func, "r0", *dst);
            }
            TacInst::ParamInt(v) => {
                proof { lemma_intern_bounds(st.pool, Seq::empty(), *v, Seq::empty()); }
                let label = self.current_chunk.pool.intern_int(*v);
                self.emit_labelled("ld r0, ", label.as_str());
                self.emit_inst("str r0, r6, 0");
                self.emit_inst("add r6, 1");
            }
            TacInst::ParamStr(v) => {
                proof { lemma_intern_bounds(st.pool, v@, 0, Seq::empty()); }
                let label = self.current_chunk.pool.intern_string(v.as_str());
                self.emit_labelled("lea r0, ", label.as_str());
                self.emit_inst("str r0, r6, 0");
                self.emit_inst("add r6, 1");
            }
            _ => {}
        }
    }

    /// Appends the code of an instruction that loads a function's address
    /// from the pool, to keep it or to call it.
    fn gen_func_ref(&mut self, func: &TacFunction, inst: &TacInst)
        requires
            inst matches TacInst::LoadFunc { .. } || inst matches TacInst::CallDirect { .. },
            body_room(old(self)@, inst_cost(*inst)),
            inst_fits(old(self).labels(), *func, *inst),
        ensures
            final(self)@ == inst_body(old(self)@, old(self).labels(), *func, *inst),
            final(self).labels() == old(self).labels(),
            step_bounds(old(self)@, final(self)@, inst_cost(*inst)),
    {
        let ghost st = self@;
        match inst {
            TacInst::LoadFunc { dst, func: target } => {
                let name = self.label_for(*target);
                proof { lemma_intern_bounds(st.pool, Seq::empty(), 0, name@); }
                let ptr_label = self.current_chunk.pool.intern_func(name);
                self.emit_labelled("ld r0, ", ptr_label.as_str());
                self.store_temp(func, "r0", *dst);
            }
            TacInst::CallDirect { dst, callee } => {
                let name = self.label_for(*callee);
                proof { lemma_intern_bounds(st.pool, Seq::empty(), 0, name@); }
                let ptr_label = self.current_chunk.pool.intern_func(name);
                self.emit_labelled("ld r0, ", ptr_label.as_str());
                self.emit_inst("jsr r0");
                if let Some(d) = dst {
                    self.store_temp(func, "r0", *d);
                }
            }
            _ => {}
        }
    }

    /// Appends the code of an instruction that reads, writes or takes the
    /// address of a variable in the frame.
    fn gen_var_access(&mut self, func: &TacFunction, inst: &TacInst)
        requires
            inst matches TacInst::LoadVar { .. } || inst matches TacInst::StoreVar { .. }
                || inst matches TacInst::AddrOf { .. },
            body_room(old(self)@, inst_cost(*inst)),
            inst_fits(old(self).labels(), *func, *inst),
        ensures
            final(self)@ == inst_body(old(self)@, old(self).labels(), *func, *inst),
            final(self).labels() == old(self).labels(),
            step_bounds(old(self)@, final(self)@, inst_cost(*inst)),
    {
        match inst {
            TacInst::LoadVar { dst, var } => {
                let off = self.var_offset(*var);
                self.emit_num("ldr r0, r5, ", off as u64);
                self.store_temp(func, "r0", *dst);
            }
            TacInst::StoreVar { var, src } => {
                self.load_temp(func, "r0", *src);
                let off = self.var_offset(*var);
                self.emit_num("str r0, r5, ", off as u64);
            }
            TacInst::AddrOf { dst, var } => {
                let off = self.var_offset(*var);
                self.emit_num("add r0, r5, ", off as u64);
                self.store_temp(func, "r0", *dst);
            }
            _ => {}
        }
    }

    /// Appends the code of an instruction that neither touches the pool for
    /// a constant nor the frame for a variable.
    fn gen_plain(&mut self, func: &TacFunction, inst: &TacInst)
        requires
            !(inst matches TacInst::ConstInt { .. } || inst matches TacInst::ConstStr { .. }
                || inst matches TacInst::ParamInt(_) || inst matches TacInst::ParamStr(_)
                || inst matches TacInst::LoadFunc { .. } || inst matches TacInst::CallDirect { .. }
                || inst matches TacInst::LoadVar { .. } || inst matches TacInst::StoreVar { .. }
                || inst matches TacInst::AddrOf { .. }),
            body_room(old(self)@, inst_cost(*inst)),
            inst_fits(old(self).labels(), *func, *inst),
            frame_size_spec(*func) <= u32::MAX,
        ensures
            final(self)@ == inst_body(old(self)@, old(self).labels(), *func, *inst),
            final(self).labels() == old(self).labels(),
            step_bounds(old(self)@, final(self)@, inst_cost(*inst)),
    {
        match inst {
            TacInst::Copy { .. } | TacInst::Load { .. } | TacInst::Store { .. } | TacInst::Param(_)
            | TacInst::Call { .. } | TacInst::AsmIn { .. } | TacInst::AsmOut { .. } => {
                self.gen_temp_move(func, inst);
            }
            _ => {
                self.gen_control(func, inst);
            }
        }
    }

    /// Appends the code of an instruction that moves values between
    /// temporaries, registers, memory and the stack.
    fn gen_temp_move(&mut self, func: &TacFunction, inst: &TacInst)
        requires
            inst matches TacInst::Copy { .. } || inst matches TacInst::Load { .. }
                || inst matches TacInst::Store { .. } || inst matches TacInst::Param(_)
                || inst matches TacInst::Call { .. } || inst matches TacInst::AsmIn { .. }
                || inst matches TacInst::AsmOut { .. },
            body_room(old(self)@, inst_cost(*inst)),
            inst_fits(old(self).labels(), *func, *inst),
        ensures
            final(self)@ == inst_body(old(self)@, old(self).labels(), *func, *inst),
            final(self).labels() == old(self).labels(),
            step_bounds(old(self)@, final(self)@, inst_cost(*inst)),
    {
        match inst {
            TacInst::Copy { dst, src } => {
                self.load_temp(func, "r0", *src);
                self.store_temp(func, "r0", *dst);
            }
            TacInst::Load { dst, addr } => {
                self.load_temp(func, "r0", *addr);
                self.emit_inst("ldr r0, r0, 0");
                self.store_temp(func, "r0", *dst);
            }
            TacInst::Store { addr, src } => {
                self.load_temp(func, "r0", *addr);
                self.load_temp(func, "r1", *src);
                self.emit_inst("str r1, r0, 0");
            }
            TacInst::Param(t) => {
                self.load_temp(func, "r0", *t);
                self.emit_inst("str r0, r6, 0");
                self.emit_inst("add r6, 1");
            }
            TacInst::Call { dst, callee } => {
                self.load_temp(func, "r0", *callee);
                self.emit_inst("jsr r0");
                if let Some(d) = dst {
                    self.store_temp(func, "r0", *d);
                }
            }
            TacInst::AsmIn { dst, src } => {
                self.load_temp(func, reg_name(*dst), *src);
            }
            TacInst::AsmOut { dst, src } => {
                self.store_temp(func, reg_name(*src), *dst);
            }
            _ => {}
        }
    }

    /// Appends the code of an operation, a label, a jump, a return or a raw
    /// instruction.
    fn gen_control(&mut self, func: &TacFunction, inst: &TacInst)
        requires
            inst matches TacInst::BinOp { .. } || inst matches TacInst::UnOp { .. }
                || inst matches TacInst::Label(_) || inst matches TacInst::Jump(_)
                || inst matches TacInst::JumpIfZero { .. } || inst matches TacInst::Return(_)
                || inst matches TacInst::AsmRaw { .. } || inst matches TacInst::Dummy,
            body_room(old(self)@, inst_cost(*inst)),
            inst_fits(old(self).labels(), *func, *inst),
            frame_size_spec(*func) <= u32::MAX,
        ensures
            final(self)@ == inst_body(old(self)@, old(self).labels(), *func, *inst),
            final(self).labels() == old(self).labels(),
            step_bounds(old(self)@, final(self)@, inst_cost(*inst)),
    {
        let ghost st = self@;
        match inst {
            TacInst::BinOp { dst, op, lhs, rhs } => {
                proof {
                    if let Some(sym) = runtime_symbol_spec(*op) {
                        lemma_intern_bounds(st.pool, Seq::empty(), 0, sym);
                    }
                }
                self.gen_binop(func, *dst, *op, *lhs, *rhs);
            }
            TacInst::UnOp { dst, op, src } => {
                proof { lemma_intern_bounds(emit(emit(load_temp_spec(st, *func, "r0"@, *src), "str r0, r6, 0"@), "add r6, 1"@).pool, Seq::empty(), 0, "__rt_lognot"@); }
                self.gen_unop(func, *dst, *op, *src);
            }
            TacInst::Label(Label(id)) => {
                self.push_local_label(func, *id);
                push_chars(&mut self.out, ":\n");
                assert(self@.out =~= st.out + local_label(*func, *id) + ":\n"@);
            }
            TacInst::Jump(Label(id)) => {
                let text = local_label_text(func, *id);
                self.emit_labelled("br ", text.as_str());
            }
            TacInst::JumpIfZero { cond, target: Label(id) } => {
                self.load_temp(func, "r0", *cond);
                let text = local_label_text(func, *id);
                self.emit_labelled("brz ", text.as_str());
            }
            TacInst::Return(val) => self.gen_epilogue(func, *val),
            TacInst::AsmRaw { mnemonic, args } => {
                let mut cs = chars_of(mnemonic.as_str());
                cs.push(' ');
                push_operands(&mut cs, args);
                let line = string_of_chars(cs.as_slice());
                assert(line@ =~= mnemonic@ + seq![' '] + join_operands(args@));
                self.emit_inst(line.as_str());
            }
            _ => {}
        }
    }

    /// Appends the label of a jump target of `func`.
    fn push_local_label(&mut self, func: &TacFunction, id: u32)
        ensures
            final(self)@ == (CgState { out: old(self)@.out + local_label(*func, id), ..old(self)@ }),
            final(self).labels() == old(self).labels(),
    {
        let text = local_label_text(func, id);
        push_chars(&mut self.out, text.as_str());
    }
}

/// The state after the first `k` instructions of `func`'s body.
pub open spec fn body_spec(st: CgState, labels: Seq<(FuncId, Seq<char>)>, func: TacFunction, k: nat) -> CgState
    decreases k,
{
    if k == 0 || k > func.body@.len() {
        st
    } else {
        inst_spec(body_spec(st, labels, func, (k - 1) as nat), labels, func, func.body@[k - 1])
    }
}

/// The pool words the instructions of a body can add, all together.
pub open spec fn body_cost(body: Seq<TacInst>) -> nat
    decreases body.len(),
{
    if body.len() == 0 {
        0
    } else {
        body_cost(body.drop_last()) + inst_cost(body.last())
    }
}

/// The words a function's frame grows by beyond its parameters.
pub open spec fn extra_words(func: TacFunction) -> int {
    func.locals@.len() - func.params@.len() + func.num_temps
}

/// The state after function `func`: its label, the prologue that saves the
/// frame pointer and return address and makes room for locals and
/// temporaries, its body, the epilogue, and the end of the chunk.
#[verifier::opaque]
pub open spec fn func_spec(st: CgState, labels: Seq<(FuncId, Seq<char>)>, func: TacFunction) -> CgState {
    let label = func_label_spec(labels, func.id).unwrap();
    let s0 = CgState {
        out: st.out + ".global "@ + label + "\n"@ + label + ":\n"@,
        frame: params_frame(func.params@, func.params@.len()),
        ..st
    };
    let s1 = emit(emit(emit(emit(s0, "str r5, r4, 0"@), "str r7, r4, 1"@), "add r4, 2"@),
        "add r5, r6, -"@ + decimal(func.params@.len()));
    let extra = extra_words(func);
    let s2 = if extra > 0 { emit(s1, "add r6, "@ + decimal(extra as nat)) } else { s1 };
    finish_chunk_spec(epilogue_spec(body_spec(s2, labels, func, func.body@.len()), func, None))
}

/// The state after the first `k` functions of a program.
pub open spec fn program_spec(st: CgState, labels: Seq<(FuncId, Seq<char>)>, funcs: Seq<TacFunction>, k: nat) -> CgState
    decreases k,
{
    if k == 0 || k > funcs.len() {
        st
    } else {
        func_spec(program_spec(st, labels, funcs, (k - 1) as nat), labels, funcs[k - 1])
    }
}

/// The generator's state before the first function.
pub open spec fn initial_state() -> CgState {
    CgState {
        out: Seq::empty(),
        words: 0,
        pool: PoolModel { next_id: 0, strings: Seq::empty(), ints: Seq::empty(), funcs: Seq::empty() },
        chunks: 0,
        frame: Seq::empty(),
    }
}

/// Whether a function can be generated: its label is known, it has no more
/// parameters than locals, its frame size fits in 32 bits, and every
/// instruction fits.
pub open spec fn func_fits(labels: Seq<(FuncId, Seq<char>)>, func: TacFunction) -> bool {
    &&& func_label_spec(labels, func.id) is Some
    &&& func.params@.len() <= func.locals@.len()
    &&& func.locals@.len() + func.num_temps <= u32::MAX
    &&& func.params@.len() + func.body@.len() + 8 < usize::MAX
    &&& body_cost(func.body@) + 2000 <= usize::MAX
    &&& forall|k: int| 0 <= k < func.body@.len() ==> inst_fits(labels, func, #[trigger] func.body@[k])
}

/// The instructions of the first `k` functions.
pub open spec fn insts_before(funcs: Seq<TacFunction>, k: nat) -> nat
    decreases k,
{
    if k == 0 || k > funcs.len() {
        0
    } else {
        insts_before(funcs, (k - 1) as nat) + funcs[k - 1].body@.len()
    }
}

/// Whether a program can be generated: every function fits, and the label
/// numbers and chunk count of all its instructions fit.
pub open spec fn program_fits(labels: Seq<(FuncId, Seq<char>)>, funcs: Seq<TacFunction>) -> bool {
    &&& forall|k: int| 0 <= k < funcs.len() ==> func_fits(labels, #[trigger] funcs[k])
    &&& insts_before(funcs, funcs.len()) + funcs.len() + 8 < u32::MAX
}

/// The frame after the first `k` parameters are placed.
proof fn lemma_params_frame_len(params: Seq<VarId>, k: nat)
    requires
        k <= params.len(),
    ensures
        params_frame(params, k).len() <= k,
    decreases k,
{
    if k > 0 {
        lemma_params_frame_len(params, (k - 1) as nat);
        lemma_frame_find_range(params_frame(params, (k - 1) as nat), params[k - 1]);
    }
}

/// What `frame_find` finds is an entry for the variable.
proof fn lemma_frame_find_range(frame: Seq<(VarId, u16)>, v: VarId)
    ensures
        frame_find(frame, v) matches Some(k) ==> 0 <= k < frame.len() && frame[k].0 == v,
    decreases frame.len(),
{
    if frame.len() > 0 {
        lemma_frame_find_range(frame.drop_last(), v);
    }
}

proof fn lemma_body_cost_prefix(body: Seq<TacInst>, k: int)
    requires
        0 <= k < body.len(),
    ensures
        body_cost(body.take(k + 1)) == body_cost(body.take(k)) + inst_cost(body[k]),
        body_cost(body.take(k + 1)) <= body_cost(body),
    decreases body.len(),
{
    assert(body.take(k + 1).drop_last() =~= body.take(k));
    if k + 1 < body.len() {
        lemma_body_cost_prefix(body.drop_last(), k);
        assert(body.drop_last().take(k + 1) =~= body.take(k + 1));
        assert(body.drop_last().take(k) =~= body.take(k));
    } else {
        assert(body.take(k + 1) =~= body);
    }
}

impl Codegen {
    /// Places a variable at an offset of the frame.
    fn frame_place(&mut self, v: VarId, offset: u16)
        requires
            old(self)@.frame.len() + 1 < usize::MAX,
        ensures
            final(self)@ == (CgState { frame: frame_insert(old(self)@.frame, v, offset), ..old(self)@ }),
            final(self).labels() == old(self).labels(),
    {
        let ghost fr = self.frame_layout.var_offsets@;
        let mut j: usize = 0;
        while j < self.frame_layout.var_offsets.len()
            invariant
                *self == *old(self),
                fr == self.frame_layout.var_offsets@,
                j <= fr.len(),
                forall|k: int| 0 <= k < j ==> fr[k].0 != v,
            decreases fr.len() - j,
        {
            if self.frame_layout.var_offsets[j].0 == v {
                proof { lemma_frame_find_first(fr, v, j as int); }
                self.frame_layout.var_offsets.set(j, (v, offset));
                return;
            }
            j += 1;
        }
        proof { lemma_frame_find_none(fr, v); }
        self.frame_layout.var_offsets.push((v, offset));
    }

    /// Starts the frame of a function with its parameters, each at its position.
    fn place_params(&mut self, params: &Vec<VarId>)
        requires
            params@.len() + 2 < usize::MAX,
        ensures
            final(self)@ == (CgState { frame: params_frame(params@, params@.len()), ..old(self)@ }),
            final(self).labels() == old(self).labels(),
    {
        self.frame_layout.var_offsets = Vec::new();
        let mut k: usize = 0;
        while k < params.len()
            invariant
                k <= params@.len(),
                params@.len() + 2 < usize::MAX,
                self@ == (CgState { frame: params_frame(params@, k as nat), ..old(self)@ }),
                self.labels() == old(self).labels(),
            decreases params@.len() - k,
        {
            proof { lemma_params_frame_len(params@, k as nat); }
            let offset = (k % 0x10000) as u16;
            self.frame_place(params[k], offset);
            k += 1;
        }
    }

    /// Appends the code of a function: its label, prologue, body and
    /// epilogue, and ends the chunk.
    fn gen_function(&mut self, func: &TacFunction)
        requires
            func_fits(old(self).labels(), *func),
            old(self)@.words == 0,
            pool_words(old(self)@.pool) == 0,
            old(self)@.pool.next_id + func.body@.len() + 8 < u32::MAX,
            old(self)@.chunks + func.body@.len() + 8 < usize::MAX,
        ensures
            final(self)@ == func_spec(old(self)@, old(self).labels(), *func),
            final(self).labels() == old(self).labels(),
            final(self)@.words == 0,
            pool_words(final(self)@.pool) == 0,
            final(self)@.pool.next_id <= old(self)@.pool.next_id + func.body@.len(),
            final(self)@.chunks <= old(self)@.chunks + func.body@.len() + 1,
    {
        let ghost st = self@;
        let ghost labels = self.labels();
        let label = self.label_for(func.id);
        let extra: u32 = func.locals.len() as u32 - func.params.len() as u32 + func.num_temps;
        self.place_params(&func.params);
        push_chars(&mut self.out, ".global ");
        push_chars(&mut self.out, label.as_str());
        push_chars(&mut self.out, "\n");
        push_chars(&mut self.out, label.as_str());
        push_chars(&mut self.out, ":\n");
        assert(self@.out =~= st.out + ".global "@ + label@ + "\n"@ + label@ + ":\n"@);
        self.emit_inst("str r5, r4, 0");
        self.emit_inst("str r7, r4, 1");
        self.emit_inst("add r4, 2");
        self.emit_num("add r5, r6, -", func.params.len() as u64);
        if extra > 0 {
            self.emit_num("add r6, ", extra as u64);
        }
        let ghost s2 = self@;
        proof { lemma_params_frame_len(func.params@, func.params@.len()); }
        let mut k: usize = 0;
        while k < func.body.len()
            invariant
                k <= func.body@.len(),
                func_fits(labels, *func),
                labels == self.labels(),
                self@ == body_spec(s2, labels, *func, k as nat),
                self@.words <= 250,
                pool_words(self@.pool) <= body_cost(func.body@.take(k as int)),
                self@.pool.next_id <= st.pool.next_id + k,
                self@.chunks <= st.chunks + k,
                self@.frame.len() <= func.params@.len() + k,
                st.pool.next_id + func.body@.len() + 8 < u32::MAX,
                st.chunks + func.body@.len() + 8 < usize::MAX,
            decreases func.body@.len() - k,
        {
            proof {
                lemma_body_cost_prefix(func.body@, k as int);
                assert(inst_fits(labels, *func, func.body@[k as int]));
            }
            self.gen_inst(func, &func.body[k]);
            k += 1;
        }
        self.gen_epilogue(func, None);
        self.finish_chunk();
        proof { reveal(func_spec); }
        assert(pool_words(self@.pool) == 0) by {
            assert(self@.pool.strings.len() == 0);
        }
    }

    /// The bassembly text of a program: each function in order.
    pub fn generate(self, program: &TacProgram) -> (r: String)
        requires
            program_fits(self.labels(), program.funcs@),
            self@ == initial_state(),
        ensures
            r@ == program_spec(initial_state(), self.labels(), program.funcs@, program.funcs@.len()).out,
    {
        let mut g = self;
        let ghost labels = g.labels();
        let ghost funcs = program.funcs@;
        let mut k: usize = 0;
        while k < program.funcs.len()
            invariant
                k <= funcs.len(),
                funcs == program.funcs@,
                program_fits(labels, funcs),
                labels == g.labels(),
                g@ == program_spec(initial_state(), labels, funcs, k as nat),
                g@.words == 0,
                pool_words(g@.pool) == 0,
                g@.pool.next_id <= insts_before(funcs, k as nat),
                g@.chunks <= insts_before(funcs, k as nat) + k,
                insts_before(funcs, k as nat) <= insts_before(funcs, funcs.len()),
            decreases funcs.len() - k,
        {
            proof {
                assert(func_fits(labels, funcs[k as int]));
                lemma_insts_before_mono(funcs, (k + 1) as nat, funcs.len());
            }
            g.gen_function(&program.funcs[k]);
            k += 1;
        }
        let out = string_of_chars(g.out.as_slice());
        out
    }
}

/// Fewer functions hold no more instructions.
proof fn lemma_insts_before_mono(funcs: Seq<TacFunction>, j: nat, k: nat)
    requires
        j <= k <= funcs.len(),
    ensures
        insts_before(funcs, j) <= insts_before(funcs, k),
    decreases k,
{
    if j < k {
        lemma_insts_before_mono(funcs, j, (k - 1) as nat);
    }
}

/// The label of a jump target of `func`.
fn local_label_text(func: &TacFunction, id: u32) -> (r: String)
    ensures
        r@ == local_label(*func, id),
{
    let mut cs = chars_of("__");
    let a = u64_decimal(func.id.0 as u64);
    push_char_vec(&mut cs, &a);
    push_chars(&mut cs, "L");
    let b = u64_decimal(id as u64);
    push_char_vec(&mut cs, &b);
    string_of_chars(cs.as_slice())
}

/// Appends the operands of a raw instruction, separated by spaces.
fn push_operands(buf: &mut Vec<char>, args: &Vec<TacAsmOperand>)
    ensures
        final(buf)@ == old(buf)@ + join_operands(args@),
{
    let ghost b0 = old(buf)@;
    let mut k: usize = 0;
    while k < args.len()
        invariant
            k <= args@.len(),
            buf@ == b0 + join_operands(args@.take(k as int)),
        decreases args@.len() - k,
    {
        assert(args@.take(k + 1).drop_last() =~= args@.take(k as int));
        if k > 0 {
            buf.push(' ');
        }
        match args[k] {
            TacAsmOperand::Reg(r) => push_chars(buf, reg_name(r)),
            TacAsmOperand::Imm(n) => {
                let d = u64_decimal(n as u64);
                push_char_vec(buf, &d);
            }
        }
        assert(buf@ =~= b0 + join_operands(args@.take(k + 1)));
        k += 1;
    }
    assert(args@.take(args@.len() as int) =~= args@);
}

/// The value of `a op b` on two words read as signed numbers: the arithmetic
/// result, the bitwise result, or 1 for true and 0 for false.
pub open spec fn binary_value(op: BinaryOp, a: i16, b: i16) -> int {
    match op {
        BinaryOp::Add => a + b,
        BinaryOp::Sub => a - b,
        BinaryOp::Mul => a * b,
        BinaryOp::Div => (a as int) / (b as int),
        BinaryOp::Mod => (a as int) % (b as int),
        BinaryOp::LogAnd => if a != 0 && b != 0 { 1 } else { 0 },
        BinaryOp::LogOr => if a != 0 || b != 0 { 1 } else { 0 },
        BinaryOp::BitAnd => (a & b) as int,
        BinaryOp::BitOr => (a | b) as int,
        BinaryOp::BitXor => (a ^ b) as int,
        BinaryOp::Eq => if a == b { 1 } else { 0 },
        BinaryOp::Ne => if a != b { 1 } else { 0 },
        BinaryOp::Lt => if a < b { 1 } else { 0 },
        BinaryOp::Le => if a <= b { 1 } else { 0 },
        BinaryOp::Gt => if a > b { 1 } else { 0 },
        BinaryOp::Ge => if a >= b { 1 } else { 0 },
    }
}

/// What each routine of the Bob runtime leaves for the operands `a` (pushed
/// first) and `b`, by its name: `mul`, `div` and `mod` their product,
/// quotient and remainder; `bitor` and `bitxor` the bitwise or and
/// exclusive or; `logand` and `logor` 1 where both, or either, are not zero;
/// `eq`, `ne`, `lt`, `le`, `gt` and `ge` 1 where `a` is equal to, not equal
/// to, less than, at most, greater than or at least `b`; else 0.
pub open spec fn runtime_routine_value(name: Seq<char>, a: i16, b: i16) -> Option<int> {
    if name == "__rt_mul"@ {
        Some(a * b)
    } else if name == "__rt_div"@ {
        Some((a as int) / (b as int))
    } else if name == "__rt_mod"@ {
        Some((a as int) % (b as int))
    } else if name == "__rt_bitor"@ {
        Some((a | b) as int)
    } else if name == "__rt_bitxor"@ {
        Some((a ^ b) as int)
    } else if name == "__rt_logand"@ {
        Some(if a == 0 || b == 0 { 0 } else { 1 })
    } else if name == "__rt_logor"@ {
        Some(if a == 0 && b == 0 { 0 } else { 1 })
    } else if name == "__rt_eq"@ {
        Some(if a == b { 1 } else { 0 })
    } else if name == "__rt_ne"@ {
        Some(if a == b { 0 } else { 1 })
    } else if name == "__rt_lt"@ {
        Some(if b > a { 1 } else { 0 })
    } else if name == "__rt_le"@ {
        Some(if b >= a { 1 } else { 0 })
    } else if name == "__rt_gt"@ {
        Some(if b < a { 1 } else { 0 })
    } else if name == "__rt_ge"@ {
        Some(if b <= a { 1 } else { 0 })
    } else {
        None
    }
}

/// The runtime routines' names, told apart by their length and by the two
/// characters after `__rt_`.
proof fn lemma_routine_name_chars()
    ensures
        "__rt_mul"@.len() == 8 && "__rt_mul"@[5] == 'm' && "__rt_mul"@[6] == 'u',
        "__rt_div"@.len() == 8 && "__rt_div"@[5] == 'd' && "__rt_div"@[6] == 'i',
        "__rt_mod"@.len() == 8 && "__rt_mod"@[5] == 'm' && "__rt_mod"@[6] == 'o',
        "__rt_bitor"@.len() == 10 && "__rt_bitor"@[5] == 'b' && "__rt_bitor"@[6] == 'i',
        "__rt_bitxor"@.len() == 11 && "__rt_bitxor"@[5] == 'b' && "__rt_bitxor"@[6] == 'i',
        "__rt_logand"@.len() == 11 && "__rt_logand"@[5] == 'l' && "__rt_logand"@[6] == 'o',
        "__rt_logor"@.len() == 10 && "__rt_logor"@[5] == 'l' && "__rt_logor"@[6] == 'o',
        "__rt_eq"@.len() == 7 && "__rt_eq"@[5] == 'e' && "__rt_eq"@[6] == 'q',
        "__rt_ne"@.len() == 7 && "__rt_ne"@[5] == 'n' && "__rt_ne"@[6] == 'e',
        "__rt_lt"@.len() == 7 && "__rt_lt"@[5] == 'l' && "__rt_lt"@[6] == 't',
        "__rt_le"@.len() == 7 && "__rt_le"@[5] == 'l' && "__rt_le"@[6] == 'e',
        "__rt_gt"@.len() == 7 && "__rt_gt"@[5] == 'g' && "__rt_gt"@[6] == 't',
        "__rt_ge"@.len() == 7 && "__rt_ge"@[5] == 'g' && "__rt_ge"@[6] == 'e',
{
    reveal_strlit("__rt_mul");
    reveal_strlit("__rt_div");
    reveal_strlit("__rt_mod");
    reveal_strlit("__rt_bitor");
    reveal_strlit("__rt_bitxor");
    reveal_strlit("__rt_logand");
    reveal_strlit("__rt_logor");
    reveal_strlit("__rt_eq");
    reveal_strlit("__rt_ne");
    reveal_strlit("__rt_lt");
    reveal_strlit("__rt_le");
    reveal_strlit("__rt_gt");
    reveal_strlit("__rt_ge");
}

/// Every binary operator that is not computed inline is computed by a runtime
/// routine that gives that operator's value, whatever the operands; so no
/// two operators of different meaning share a routine. Only `+`, `-` and `&`
/// are computed inline.
pub proof fn lemma_runtime_routine_computes(op: BinaryOp, a: i16, b: i16)
    ensures
        runtime_symbol_spec(op) is None <==> (op is Add || op is Sub || op is BitAnd),
        runtime_symbol_spec(op) matches Some(name) ==> runtime_routine_value(name, a, b) == Some(binary_value(op, a, b)),
{
    lemma_routine_name_chars();
    match op {
        BinaryOp::Add | BinaryOp::Sub | BinaryOp::BitAnd => {},
        _ => {
            let name = runtime_symbol_spec(op)->0;
            assert(runtime_routine_value(name, a, b) == Some(binary_value(op, a, b)));
        },
    }
}

/// No two operators call the same runtime routine.
pub proof fn lemma_runtime_routines_distinct(op1: BinaryOp, op2: BinaryOp)
    requires
        runtime_symbol_spec(op1) is Some,
        runtime_symbol_spec(op1) == runtime_symbol_spec(op2),
    ensures
        op1 == op2,
{
    lemma_routine_name_chars();
    let n1 = runtime_symbol_spec(op1)->0;
    assert(n1.len() == runtime_symbol_spec(op2)->0.len());
    assert(n1[5] == runtime_symbol_spec(op2)->0[5]);
    assert(n1[6] == runtime_symbol_spec(op2)->0[6]);
}

} // verus!
