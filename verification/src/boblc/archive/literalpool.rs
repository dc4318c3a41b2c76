//! The constants that compiled code refers to by label: strings, integers and
//! function addresses, each stored once.
use vstd::prelude::*;
use vstd::string::StringExecFns;
use crate::text::{chars_of, decimal, digit_char, i64_decimal, signed_decimal, str_eq, string_of_chars, u64_decimal};

verus! {

/// The label of an entry in a table, if its key is there: the first such entry.
pub open spec fn lookup<K>(entries: Seq<(K, Seq<char>)>, key: K) -> Option<Seq<char>>
    decreases entries.len(),
{
    if entries.len() == 0 {
        None
    } else if entries[0].0 == key {
        Some(entries[0].1)
    } else {
        lookup(entries.drop_first(), key)
    }
}

/// The mathematical form of a [`LiteralPool`]: the next label number and the
/// three tables of (constant, label), in the order they were interned.
pub struct PoolModel {
    pub next_id: nat,
    pub strings: Seq<(Seq<char>, Seq<char>)>,
    pub ints: Seq<(i64, Seq<char>)>,
    pub funcs: Seq<(Seq<char>, Seq<char>)>,
}

/// Interned constants and the labels they are stored under.
pub struct LiteralPool {
    next_id: usize,
    strings: Vec<(String, String)>,
    ints: Vec<(i64, String)>,
    funcs: Vec<(String, String)>,
}

/// The mathematical form of a table keyed by strings.
pub open spec fn text_table(v: Seq<(String, String)>) -> Seq<(Seq<char>, Seq<char>)> {
    v.map_values(|e: (String, String)| (e.0@, e.1@))
}

/// The mathematical form of a table keyed by integers.
pub open spec fn int_table(v: Seq<(i64, String)>) -> Seq<(i64, Seq<char>)> {
    v.map_values(|e: (i64, String)| (e.0, e.1@))
}

impl View for LiteralPool {
    type V = PoolModel;

    closed spec fn view(&self) -> PoolModel {
        PoolModel {
            next_id: self.next_id as nat,
            strings: text_table(self.strings@),
            ints: int_table(self.ints@),
            funcs: text_table(self.funcs@),
        }
    }
}

/// A fresh label: the prefix and the next number.
pub open spec fn fresh_label(prefix: Seq<char>, id: nat) -> Seq<char> {
    prefix + decimal(id)
}

/// A string constant as a `.string` directive writes it: backslashes and
/// quotes escaped.
pub open spec fn escape_text(s: Seq<char>) -> Seq<char>
    decreases s.len(),
{
    if s.len() == 0 {
        Seq::empty()
    } else {
        escape_text(s.drop_last()) + if s.last() == '\\' {
            seq!['\\', '\\']
        } else if s.last() == '"' {
            seq!['\\', '"']
        } else {
            seq![s.last()]
        }
    }
}

/// The data lines of the string constants.
pub open spec fn strings_text(e: Seq<(Seq<char>, Seq<char>)>) -> Seq<char>
    decreases e.len(),
{
    if e.len() == 0 {
        Seq::empty()
    } else {
        strings_text(e.drop_last()) + e.last().1 + ": .string \""@ + escape_text(e.last().0) + "\"\n"@
    }
}

/// The data lines of the integer constants.
pub open spec fn ints_text(e: Seq<(i64, Seq<char>)>) -> Seq<char>
    decreases e.len(),
{
    if e.len() == 0 {
        Seq::empty()
    } else {
        ints_text(e.drop_last()) + e.last().1 + ": .fill "@ + signed_decimal(e.last().0 as int) + "\n"@
    }
}

/// The data lines of the function addresses.
pub open spec fn funcs_text(e: Seq<(Seq<char>, Seq<char>)>) -> Seq<char>
    decreases e.len(),
{
    if e.len() == 0 {
        Seq::empty()
    } else {
        funcs_text(e.drop_last()) + e.last().1 + ": .fill "@ + e.last().0 + "\n"@
    }
}

/// The bytes that the string constants take in UTF-8, each with a terminating zero word.
pub open spec fn strings_size(e: Seq<(Seq<char>, Seq<char>)>) -> nat
    decreases e.len(),
{
    if e.len() == 0 {
        0
    } else {
        strings_size(e.drop_last()) + vstd::utf8::encode_utf8(e.last().0).len() + 1
    }
}

/// The pool and label after interning string `s`: the label it has, or a new
/// `__lstr` label numbered by the pool.
pub open spec fn interned_string(p: PoolModel, s: Seq<char>) -> (PoolModel, Seq<char>) {
    match lookup(p.strings, s) {
        Some(l) => (p, l),
        None => {
            let l = fresh_label("__lstr"@, p.next_id);
            (PoolModel { next_id: p.next_id + 1, strings: p.strings.push((s, l)), ..p }, l)
        },
    }
}

/// The pool and label after interning integer `n`.
pub open spec fn interned_int(p: PoolModel, n: i64) -> (PoolModel, Seq<char>) {
    match lookup(p.ints, n) {
        Some(l) => (p, l),
        None => {
            let l = fresh_label("__lint"@, p.next_id);
            (PoolModel { next_id: p.next_id + 1, ints: p.ints.push((n, l)), ..p }, l)
        },
    }
}

/// The pool and label after interning the address of function `f`.
pub open spec fn interned_func(p: PoolModel, f: Seq<char>) -> (PoolModel, Seq<char>) {
    match lookup(p.funcs, f) {
        Some(l) => (p, l),
        None => {
            let l = fresh_label("__lfunc"@, p.next_id);
            (PoolModel { next_id: p.next_id + 1, funcs: p.funcs.push((f, l)), ..p }, l)
        },
    }
}

/// The words the data section of a pool takes.
pub open spec fn pool_size(p: PoolModel) -> nat {
    strings_size(p.strings) + p.ints.len() + p.funcs.len()
}

/// The data section of a pool.
pub open spec fn data_text(p: PoolModel) -> Seq<char> {
    strings_text(p.strings) + ints_text(p.ints) + funcs_text(p.funcs)
}

/// The pool with its constants forgotten and its label numbering kept.
pub open spec fn cleared(p: PoolModel) -> PoolModel {
    PoolModel { next_id: p.next_id, strings: Seq::empty(), ints: Seq::empty(), funcs: Seq::empty() }
}

/// The label stored for `key` in a table keyed by strings.
fn find_text(entries: &Vec<(String, String)>, key: &str) -> (r: Option<String>)
    ensures
        match lookup(text_table(entries@), key@) {
            Some(l) => r matches Some(s) && s@ == l,
            None => r is None,
        },
{
    let mut j: usize = 0;
    assert(text_table(entries@).skip(0) =~= text_table(entries@));
    while j < entries.len()
        invariant
            j <= entries@.len(),
            lookup(text_table(entries@), key@) == lookup(text_table(entries@).skip(j as int), key@),
        decreases entries@.len() - j,
    {
        assert(text_table(entries@).skip(j as int).drop_first() =~= text_table(entries@).skip(j + 1));
        assert(text_table(entries@).skip(j as int)[0] == (entries@[j as int].0@, entries@[j as int].1@));
        if str_eq(entries[j].0.as_str(), key) {
            return Some(entries[j].1.clone());
        }
        j += 1;
    }
    None
}

/// The label stored for `key` in a table keyed by integers.
fn find_int(entries: &Vec<(i64, String)>, key: i64) -> (r: Option<String>)
    ensures
        match lookup(int_table(entries@), key) {
            Some(l) => r matches Some(s) && s@ == l,
            None => r is None,
        },
{
    let mut j: usize = 0;
    assert(int_table(entries@).skip(0) =~= int_table(entries@));
    while j < entries.len()
        invariant
            j <= entries@.len(),
            lookup(int_table(entries@), key) == lookup(int_table(entries@).skip(j as int), key),
        decreases entries@.len() - j,
    {
        assert(int_table(entries@).skip(j as int).drop_first() =~= int_table(entries@).skip(j + 1));
        assert(int_table(entries@).skip(j as int)[0] == (entries@[j as int].0, entries@[j as int].1@));
        if entries[j].0 == key {
            return Some(entries[j].1.clone());
        }
        j += 1;
    }
    None
}

/// A label: the prefix followed by the decimal numeral of `id`.
fn make_label(prefix: &str, id: usize) -> (r: String)
    ensures
        r@ == fresh_label(prefix@, id as nat),
{
    let mut cs = chars_of(prefix);
    let digits = u64_decimal(id as u64);
    let ghost p = cs@;
    let mut k: usize = 0;
    while k < digits.len()
        invariant
            k <= digits@.len(),
            cs@ == p + digits@.take(k as int),
        decreases digits@.len() - k,
    {
        cs.push(digits[k]);
        assert(cs@ =~= p + digits@.take(k + 1));
        k += 1;
    }
    assert(digits@.take(digits@.len() as int) =~= digits@);
    string_of_chars(cs.as_slice())
}

impl LiteralPool {
    /// The well-formedness of a pool: every entry took a label number, so
    /// the entries are no more than the numbers handed out.
    #[verifier::type_invariant]
    spec fn inv(&self) -> bool {
        self.strings@.len() + self.ints@.len() + self.funcs@.len() <= self.next_id
    }

    /// An empty pool whose labels start at number 0.
    pub fn new() -> (p: Self)
        ensures
            p@ == (PoolModel { next_id: 0, strings: Seq::empty(), ints: Seq::empty(), funcs: Seq::empty() }),
    {
        let p = LiteralPool { next_id: 0, strings: Vec::new(), ints: Vec::new(), funcs: Vec::new() };
        assert(p@.strings =~= Seq::empty());
        assert(p@.ints =~= Seq::empty());
        assert(p@.funcs =~= Seq::empty());
        p
    }

    /// The label of string constant `s`: the one it already has, or a new
    /// `__lstr` label under which it is stored from now on.
    pub fn intern_string(&mut self, s: &str) -> (label: String)
        requires
            lookup(old(self)@.strings, s@) is None ==> old(self)@.next_id < usize::MAX,
        ensures
            (final(self)@, label@) == interned_string(old(self)@, s@),
    {
        proof { use_type_invariant(&*self); }
        if let Some(label) = find_text(&self.strings, s) {
            return label;
        }
        let label = make_label("__lstr", self.next_id);
        self.next_id = self.next_id + 1;
        let ghost before = self.strings@;
        let mut table = Vec::new();
        std::mem::swap(&mut table, &mut self.strings);
        table.push((s.to_owned(), label.clone()));
        self.strings = table;
        assert(text_table(self.strings@) =~= text_table(before).push((s@, label@)));
        label
    }

    /// The label of integer constant `n`: the one it already has, or a new
    /// `__lint` label.
    pub fn intern_int(&mut self, n: i64) -> (label: String)
        requires
            lookup(old(self)@.ints, n) is None ==> old(self)@.next_id < usize::MAX,
        ensures
            (final(self)@, label@) == interned_int(old(self)@, n),
    {
        proof { use_type_invariant(&*self); }
        if let Some(label) = find_int(&self.ints, n) {
            return label;
        }
        let label = make_label("__lint", self.next_id);
        self.next_id = self.next_id + 1;
        let ghost before = self.ints@;
        let mut table = Vec::new();
        std::mem::swap(&mut table, &mut self.ints);
        table.push((n, label.clone()));
        self.ints = table;
        assert(int_table(self.ints@) =~= int_table(before).push((n, label@)));
        label
    }

    /// The label of the address of function `f`: the one it already has, or
    /// a new `__lfunc` label.
    pub fn intern_func(&mut self, f: &str) -> (label: String)
        requires
            lookup(old(self)@.funcs, f@) is None ==> old(self)@.next_id < usize::MAX,
        ensures
            (final(self)@, label@) == interned_func(old(self)@, f@),
    {
        proof { use_type_invariant(&*self); }
        if let Some(label) = find_text(&self.funcs, f) {
            return label;
        }
        let label = make_label("__lfunc", self.next_id);
        self.next_id = self.next_id + 1;
        let ghost before = self.funcs@;
        let mut table = Vec::new();
        std::mem::swap(&mut table, &mut self.funcs);
        table.push((f.to_owned(), label.clone()));
        self.funcs = table;
        assert(text_table(self.funcs@) =~= text_table(before).push((f@, label@)));
        label
    }

    /// Forgets every constant but keeps counting labels, so that later labels
    /// do not collide with earlier ones.
    pub fn clear(&mut self)
        ensures
            final(self)@ == cleared(old(self)@),
    {
        proof { use_type_invariant(&*self); }
        self.strings = Vec::new();
        self.ints = Vec::new();
        self.funcs = Vec::new();
        assert(self@.strings =~= Seq::empty());
        assert(self@.ints =~= Seq::empty());
        assert(self@.funcs =~= Seq::empty());
    }

    /// The number of constants in the pool.
    pub fn len(&self) -> (n: usize)
        ensures
            n == self@.strings.len() + self@.ints.len() + self@.funcs.len(),
    {
        proof { use_type_invariant(self); }
        self.strings.len() + self.ints.len() + self.funcs.len()
    }

    /// Whether the pool holds no constant.
    pub fn is_empty(&self) -> (b: bool)
        ensures
            b == (self@.strings.len() + self@.ints.len() + self@.funcs.len() == 0),
    {
        self.len() == 0
    }

    /// The words the data section takes: each string's UTF-8 bytes and a
    /// terminator, and one word per integer and function address.
    pub fn size(&self) -> (n: usize)
        requires
            pool_size(self@) <= usize::MAX,
        ensures
            n == pool_size(self@),
    {
        let ghost t = text_table(self.strings@);
        let mut total: usize = 0;
        let mut j: usize = 0;
        while j < self.strings.len()
            invariant
                t == text_table(self.strings@),
                j <= self.strings@.len(),
                strings_size(t) + self.ints@.len() + self.funcs@.len() <= usize::MAX,
                total == strings_size(t.take(j as int)),
            decreases self.strings@.len() - j,
        {
            proof {
                assert(t.take(j + 1).drop_last() =~= t.take(j as int));
                lemma_strings_size_prefix(t, j + 1);
            }
            let bytes = self.strings[j].0.as_str().len();
            total = total + bytes + 1;
            j += 1;
        }
        assert(t.take(j as int) =~= t);
        total + self.ints.len() + self.funcs.len()
    }

    /// Appends the data section: each string as a `.string` directive, each
    /// integer and function address as a `.fill`, under its label.
    pub fn emit_data_section(&self, out: &mut String)
        ensures
            final(out)@ == old(out)@ + data_text(self@),
    {
        let mut buf: Vec<char> = Vec::new();
        let ghost ts = text_table(self.strings@);
        let mut j: usize = 0;
        while j < self.strings.len()
            invariant
                ts == text_table(self.strings@),
                j <= self.strings@.len(),
                buf@ == strings_text(ts.take(j as int)),
            decreases self.strings@.len() - j,
        {
            assert(ts.take(j + 1).drop_last() =~= ts.take(j as int));
            let ghost b0 = buf@;
            push_chars(&mut buf, self.strings[j].1.as_str());
            push_chars(&mut buf, ": .string \"");
            push_escaped(&mut buf, self.strings[j].0.as_str());
            push_chars(&mut buf, "\"\n");
            assert(buf@ =~= strings_text(ts.take(j + 1)));
            j += 1;
        }
        assert(ts.take(j as int) =~= ts);
        let ghost ti = int_table(self.ints@);
        let ghost base1 = buf@;
        let mut j: usize = 0;
        while j < self.ints.len()
            invariant
                ti == int_table(self.ints@),
                j <= self.ints@.len(),
                buf@ == base1 + ints_text(ti.take(j as int)),
            decreases self.ints@.len() - j,
        {
            assert(ti.take(j + 1).drop_last() =~= ti.take(j as int));
            push_chars(&mut buf, self.ints[j].1.as_str());
            push_chars(&mut buf, ": .fill ");
            let digits = i64_decimal(self.ints[j].0);
            push_char_vec(&mut buf, &digits);
            push_chars(&mut buf, "\n");
            assert(buf@ =~= base1 + ints_text(ti.take(j + 1)));
            j += 1;
        }
        assert(ti.take(j as int) =~= ti);
        let ghost tf = text_table(self.funcs@);
        let ghost base2 = buf@;
        let mut j: usize = 0;
        while j < self.funcs.len()
            invariant
                tf == text_table(self.funcs@),
                j <= self.funcs@.len(),
                buf@ == base2 + funcs_text(tf.take(j as int)),
            decreases self.funcs@.len() - j,
        {
            assert(tf.take(j + 1).drop_last() =~= tf.take(j as int));
            push_chars(&mut buf, self.funcs[j].1.as_str());
            push_chars(&mut buf, ": .fill ");
            push_chars(&mut buf, self.funcs[j].0.as_str());
            push_chars(&mut buf, "\n");
            assert(buf@ =~= base2 + funcs_text(tf.take(j + 1)));
            j += 1;
        }
        assert(tf.take(j as int) =~= tf);
        let text = string_of_chars(buf.as_slice());
        out.append(text.as_str());
        assert(final(out)@ =~= old(out)@ + strings_text(self@.strings) + ints_text(self@.ints) + funcs_text(self@.funcs));
    }
}

proof fn lemma_strings_size_prefix(t: Seq<(Seq<char>, Seq<char>)>, k: int)
    requires
        0 <= k <= t.len(),
    ensures
        strings_size(t.take(k)) <= strings_size(t),
    decreases t.len(),
{
    if t.len() > 0 {
        if k == t.len() {
            assert(t.take(k) =~= t);
        } else {
            assert(t.drop_last().take(k) =~= t.take(k));
            lemma_strings_size_prefix(t.drop_last(), k);
        }
    }
}

/// Appends the characters of `s`.
pub(crate) fn push_chars(buf: &mut Vec<char>, s: &str)
    ensures
        final(buf)@ == old(buf)@ + s@,
{
    let cs = chars_of(s);
    push_char_vec(buf, &cs);
}

/// Appends the characters of `cs`.
pub(crate) fn push_char_vec(buf: &mut Vec<char>, cs: &Vec<char>)
    ensures
        final(buf)@ == old(buf)@ + cs@,
{
    let ghost b0 = buf@;
    let mut k: usize = 0;
    while k < cs.len()
        invariant
            k <= cs@.len(),
            buf@ == b0 + cs@.take(k as int),
        decreases cs@.len() - k,
    {
        buf.push(cs[k]);
        assert(buf@ =~= b0 + cs@.take(k + 1));
        k += 1;
    }
    assert(cs@.take(cs@.len() as int) =~= cs@);
}

/// Appends `s` with its backslashes and quotes escaped.
fn push_escaped(buf: &mut Vec<char>, s: &str)
    ensures
        final(buf)@ == old(buf)@ + escape_text(s@),
{
    let cs = chars_of(s);
    let ghost b0 = buf@;
    let mut k: usize = 0;
    while k < cs.len()
        invariant
            cs@ == s@,
            k <= cs@.len(),
            buf@ == b0 + escape_text(cs@.take(k as int)),
        decreases cs@.len() - k,
    {
        assert(cs@.take(k + 1).drop_last() =~= cs@.take(k as int));
        let c = cs[k];
        if c == '\\' {
            buf.push('\\');
            buf.push('\\');
        } else if c == '"' {
            buf.push('\\');
            buf.push('"');
        } else {
            buf.push(c);
        }
        assert(buf@ =~= b0 + escape_text(cs@.take(k + 1)));
        k += 1;
    }
    assert(cs@.take(cs@.len() as int) =~= cs@);
}

/// A numeral is never empty, and has more than one digit from ten on.
proof fn lemma_decimal_len(n: nat)
    ensures
        decimal(n).len() >= 1,
        n >= 10 ==> decimal(n).len() >= 2,
    decreases n,
{
    if n >= 10 {
        lemma_decimal_len(n / 10);
    }
}

/// Distinct numbers have distinct numerals.
proof fn lemma_decimal_injective(a: nat, b: nat)
    requires
        decimal(a) == decimal(b),
    ensures
        a == b,
    decreases a,
{
    lemma_decimal_len(a);
    lemma_decimal_len(b);
    if a < 10 && b < 10 {
        assert(decimal(a) == seq![digit_char(a)]);
        assert(decimal(b) == seq![digit_char(b)]);
        assert(seq![digit_char(a)][0] == digit_char(a));
        assert(seq![digit_char(b)][0] == digit_char(b));
        assert(decimal(a)[0] == decimal(b)[0]);
        assert(digit_char(a) == digit_char(b));
        assert((digit_char(a) as u32) == a + 0x30);
        assert((digit_char(b) as u32) == b + 0x30);
    } else if a >= 10 && b >= 10 {
        lemma_decimal_len(a / 10);
        lemma_decimal_len(b / 10);
        assert(decimal(a).drop_last() =~= decimal(a / 10));
        assert(decimal(b).drop_last() =~= decimal(b / 10));
        lemma_decimal_injective(a / 10, b / 10);
        assert(decimal(a) == decimal(a / 10).push(digit_char(a % 10)));
        assert(decimal(b) == decimal(b / 10).push(digit_char(b % 10)));
        assert(decimal(a / 10).push(digit_char(a % 10)).last() == digit_char(a % 10));
        assert(decimal(b / 10).push(digit_char(b % 10)).last() == digit_char(b % 10));
        assert(decimal(a).last() == decimal(b).last());
        assert(digit_char(a % 10) == digit_char(b % 10));
        assert((digit_char(a % 10) as u32) == a % 10 + 0x30);
        assert((digit_char(b % 10) as u32) == b % 10 + 0x30);
    } else {
        assert(decimal(a).len() != decimal(b).len());
    }
}

/// Whether `p` is the prefix of one of the pool's kinds of label.
pub open spec fn label_prefix(p: Seq<char>) -> bool {
    p == "__lstr"@ || p == "__lint"@ || p == "__lfunc"@
}

/// Labels of different kinds or numbers differ. As the pool numbers each
/// fresh label with its next number and never lowers that number, clearing
/// included, a label it hands out fresh is none it handed out before.
pub proof fn lemma_fresh_labels_differ(p1: Seq<char>, a: nat, p2: Seq<char>, b: nat)
    requires
        label_prefix(p1),
        label_prefix(p2),
        p1 != p2 || a != b,
    ensures
        fresh_label(p1, a) != fresh_label(p2, b),
{
    reveal_strlit("__lstr");
    reveal_strlit("__lint");
    reveal_strlit("__lfunc");
    lemma_decimal_len(a);
    lemma_decimal_len(b);
    if p1 == p2 {
        if fresh_label(p1, a) == fresh_label(p2, b) {
            assert(fresh_label(p1, a).subrange(p1.len() as int, fresh_label(p1, a).len() as int) =~= decimal(a));
            assert(fresh_label(p2, b).subrange(p2.len() as int, fresh_label(p2, b).len() as int) =~= decimal(b));
            lemma_decimal_injective(a, b);
        }
    } else {
        assert(fresh_label(p1, a)[3] == p1[3]);
        assert(fresh_label(p2, b)[3] == p2[3]);
        assert(p1[3] != p2[3]);
    }
}

/// Whether `l` is a label of kind `prefix` numbered below `bound`.
pub open spec fn numbered_below(l: Seq<char>, prefix: Seq<char>, bound: nat) -> bool {
    exists|n: nat| n < bound && l == fresh_label(prefix, n)
}

/// Whether every label of the pool is of its table's kind and numbered below
/// the pool's next number.
pub open spec fn labels_numbered(p: PoolModel) -> bool {
    &&& forall|i: int| 0 <= i < p.strings.len() ==> numbered_below(#[trigger] p.strings[i].1, "__lstr"@, p.next_id)
    &&& forall|i: int| 0 <= i < p.ints.len() ==> numbered_below(#[trigger] p.ints[i].1, "__lint"@, p.next_id)
    &&& forall|i: int| 0 <= i < p.funcs.len() ==> numbered_below(#[trigger] p.funcs[i].1, "__lfunc"@, p.next_id)
}

/// The label `lookup` finds is the label of one of the entries.
proof fn lemma_lookup_in<K>(e: Seq<(K, Seq<char>)>, key: K)
    ensures
        lookup(e, key) matches Some(l) ==> exists|i: int| 0 <= i < e.len() && (#[trigger] e[i]).1 == l,
    decreases e.len(),
{
    if e.len() > 0 && e[0].0 != key {
        lemma_lookup_in(e.drop_first(), key);
        if lookup(e, key) is Some {
            let i = choose|i: int| 0 <= i < e.drop_first().len() && (#[trigger] e.drop_first()[i]).1 == lookup(e, key)->0;
            assert(e[i + 1] == e.drop_first()[i]);
        }
    } else if e.len() > 0 {
        assert(e[0].1 == lookup(e, key)->0);
    }
}

/// A label numbered below `bound` is none numbered from `bound` on, of any kind.
pub proof fn lemma_numbered_below_fresh(l: Seq<char>, p1: Seq<char>, bound: nat, p2: Seq<char>, m: nat)
    requires
        label_prefix(p1),
        label_prefix(p2),
        numbered_below(l, p1, bound),
        bound <= m,
    ensures
        l != fresh_label(p2, m),
{
    let n = choose|n: nat| n < bound && l == fresh_label(p1, n);
    lemma_fresh_labels_differ(p1, n, p2, m);
}

/// The labels a pool hands out: an empty pool has none; interning keeps every
/// label of the pool numbered below its next number, never lowers that
/// number, and hands out a label numbered below the number after the call,
/// a fresh one with the number before it; clearing keeps the number. With
/// `lemma_numbered_below_fresh`, a fresh label is none handed out before,
/// clearing or not.
pub proof fn lemma_labels_numbered(p: PoolModel, s: Seq<char>, n: i64, f: Seq<char>)
    requires
        labels_numbered(p),
    ensures
        labels_numbered(PoolModel { next_id: 0, strings: Seq::empty(), ints: Seq::empty(), funcs: Seq::empty() }),
        labels_numbered(interned_string(p, s).0),
        interned_string(p, s).0.next_id >= p.next_id,
        numbered_below(interned_string(p, s).1, "__lstr"@, interned_string(p, s).0.next_id),
        lookup(p.strings, s) is None ==> interned_string(p, s).1 == fresh_label("__lstr"@, p.next_id),
        labels_numbered(interned_int(p, n).0),
        interned_int(p, n).0.next_id >= p.next_id,
        numbered_below(interned_int(p, n).1, "__lint"@, interned_int(p, n).0.next_id),
        lookup(p.ints, n) is None ==> interned_int(p, n).1 == fresh_label("__lint"@, p.next_id),
        labels_numbered(interned_func(p, f).0),
        interned_func(p, f).0.next_id >= p.next_id,
        numbered_below(interned_func(p, f).1, "__lfunc"@, interned_func(p, f).0.next_id),
        lookup(p.funcs, f) is None ==> interned_func(p, f).1 == fresh_label("__lfunc"@, p.next_id),
        labels_numbered(cleared(p)),
        cleared(p).next_id == p.next_id,
{
    lemma_lookup_in(p.strings, s);
    lemma_lookup_in(p.ints, n);
    lemma_lookup_in(p.funcs, f);
    let b = p.next_id;
    // every label numbered below b is numbered below b + 1
    assert forall|i: int| 0 <= i < p.strings.len() implies numbered_below(#[trigger] p.strings[i].1, "__lstr"@, b + 1) by {
        let k = choose|k: nat| k < b && p.strings[i].1 == fresh_label("__lstr"@, k);
    }
    assert forall|i: int| 0 <= i < p.ints.len() implies numbered_below(#[trigger] p.ints[i].1, "__lint"@, b + 1) by {
        let k = choose|k: nat| k < b && p.ints[i].1 == fresh_label("__lint"@, k);
    }
    assert forall|i: int| 0 <= i < p.funcs.len() implies numbered_below(#[trigger] p.funcs[i].1, "__lfunc"@, b + 1) by {
        let k = choose|k: nat| k < b && p.funcs[i].1 == fresh_label("__lfunc"@, k);
    }
    match lookup(p.strings, s) {
        Some(l) => {
            let i = choose|i: int| 0 <= i < p.strings.len() && (#[trigger] p.strings[i]).1 == l;
            assert(numbered_below(p.strings[i].1, "__lstr"@, b));
        },
        None => {
            let q = interned_string(p, s).0;
            assert(numbered_below(fresh_label("__lstr"@, b), "__lstr"@, b + 1));
            assert forall|i: int| 0 <= i < q.strings.len() implies numbered_below(#[trigger] q.strings[i].1, "__lstr"@, q.next_id) by {
                if i < p.strings.len() {
                    assert(q.strings[i] == p.strings[i]);
                }
            }
        },
    }
    match lookup(p.ints, n) {
        Some(l) => {
            let i = choose|i: int| 0 <= i < p.ints.len() && (#[trigger] p.ints[i]).1 == l;
            assert(numbered_below(p.ints[i].1, "__lint"@, b));
        },
        None => {
            let q = interned_int(p, n).0;
            assert(numbered_below(fresh_label("__lint"@, b), "__lint"@, b + 1));
            assert forall|i: int| 0 <= i < q.ints.len() implies numbered_below(#[trigger] q.ints[i].1, "__lint"@, q.next_id) by {
                if i < p.ints.len() {
                    assert(q.ints[i] == p.ints[i]);
                }
            }
        },
    }
    match lookup(p.funcs, f) {
        Some(l) => {
            let i = choose|i: int| 0 <= i < p.funcs.len() && (#[trigger] p.funcs[i]).1 == l;
            assert(numbered_below(p.funcs[i].1, "__lfunc"@, b));
        },
        None => {
            let q = interned_func(p, f).0;
            assert(numbered_below(fresh_label("__lfunc"@, b), "__lfunc"@, b + 1));
            assert forall|i: int| 0 <= i < q.funcs.len() implies numbered_below(#[trigger] q.funcs[i].1, "__lfunc"@, q.next_id) by {
                if i < p.funcs.len() {
                    assert(q.funcs[i] == p.funcs[i]);
                }
            }
        },
    }
}

/// A call on a literal pool: interning a string, an integer or a function,
/// or clearing.
pub enum PoolCall {
    String(Seq<char>),
    Int(i64),
    Func(Seq<char>),
    Clear,
}

/// The pool after `calls` from `p`, and the labels the interning calls
/// returned, in order.
pub open spec fn pool_after(p: PoolModel, calls: Seq<PoolCall>) -> (PoolModel, Seq<Seq<char>>)
    decreases calls.len(),
{
    if calls.len() == 0 {
        (p, Seq::empty())
    } else {
        let (q, ls) = pool_after(p, calls.drop_last());
        match calls.last() {
            PoolCall::String(s) => (interned_string(q, s).0, ls.push(interned_string(q, s).1)),
            PoolCall::Int(n) => (interned_int(q, n).0, ls.push(interned_int(q, n).1)),
            PoolCall::Func(f) => (interned_func(q, f).0, ls.push(interned_func(q, f).1)),
            PoolCall::Clear => (cleared(q), ls),
        }
    }
}

/// Whether call `c` on pool `q` interns a constant the pool does not hold.
pub open spec fn interns_new(q: PoolModel, c: PoolCall) -> bool {
    match c {
        PoolCall::String(s) => lookup(q.strings, s) is None,
        PoolCall::Int(n) => lookup(q.ints, n) is None,
        PoolCall::Func(f) => lookup(q.funcs, f) is None,
        PoolCall::Clear => false,
    }
}

/// Whether `l` is a pool label of any kind numbered below `bound`.
pub open spec fn any_numbered_below(l: Seq<char>, bound: nat) -> bool {
    ||| numbered_below(l, "__lstr"@, bound)
    ||| numbered_below(l, "__lint"@, bound)
    ||| numbered_below(l, "__lfunc"@, bound)
}

/// A label numbered below a bound is numbered below any larger one.
proof fn lemma_numbered_below_grow(l: Seq<char>, prefix: Seq<char>, a: nat, b: nat)
    requires
        numbered_below(l, prefix, a),
        a <= b,
    ensures
        numbered_below(l, prefix, b),
{
    let n = choose|n: nat| n < a && l == fresh_label(prefix, n);
    assert(n < b && l == fresh_label(prefix, n));
}

/// After any calls, the pool's labels and every label the calls returned
/// are numbered below the pool's next number, which never went down.
proof fn lemma_history_numbered(p: PoolModel, calls: Seq<PoolCall>)
    requires
        labels_numbered(p),
    ensures
        labels_numbered(pool_after(p, calls).0),
        pool_after(p, calls).0.next_id >= p.next_id,
        forall|i: int| 0 <= i < pool_after(p, calls).1.len() ==>
            #[trigger] any_numbered_below(pool_after(p, calls).1[i], pool_after(p, calls).0.next_id),
    decreases calls.len(),
{
    if calls.len() > 0 {
        let (q, ls) = pool_after(p, calls.drop_last());
        lemma_history_numbered(p, calls.drop_last());
        let (q2, ls2) = pool_after(p, calls);
        match calls.last() {
            PoolCall::String(s) => { lemma_labels_numbered(q, s, 0, Seq::empty()); },
            PoolCall::Int(n) => { lemma_labels_numbered(q, Seq::empty(), n, Seq::empty()); },
            PoolCall::Func(f) => { lemma_labels_numbered(q, Seq::empty(), 0, f); },
            PoolCall::Clear => { lemma_labels_numbered(q, Seq::empty(), 0, Seq::empty()); },
        }
        assert(q2.next_id >= q.next_id);
        assert forall|i: int| 0 <= i < ls2.len() implies #[trigger] any_numbered_below(ls2[i], q2.next_id) by {
            if i < ls.len() {
                assert(ls2[i] == ls[i]);
                assert(any_numbered_below(ls[i], q.next_id));
                if numbered_below(ls[i], "__lstr"@, q.next_id) {
                    lemma_numbered_below_grow(ls[i], "__lstr"@, q.next_id, q2.next_id);
                } else if numbered_below(ls[i], "__lint"@, q.next_id) {
                    lemma_numbered_below_grow(ls[i], "__lint"@, q.next_id, q2.next_id);
                } else {
                    lemma_numbered_below_grow(ls[i], "__lfunc"@, q.next_id, q2.next_id);
                }
            }
        }
    }
}

/// A label that a pool hands out for a constant it does not hold, after any
/// calls on it, clearing included, is none of the labels those calls
/// returned.
pub proof fn lemma_new_label_unused(p: PoolModel, calls: Seq<PoolCall>, c: PoolCall)
    requires
        labels_numbered(p),
        interns_new(pool_after(p, calls).0, c),
    ensures
        pool_after(p, calls.push(c)).1.len() == pool_after(p, calls).1.len() + 1,
        forall|i: int| 0 <= i < pool_after(p, calls).1.len() ==>
            #[trigger] pool_after(p, calls).1[i] != pool_after(p, calls.push(c)).1.last(),
{
    let (q, ls) = pool_after(p, calls);
    assert(calls.push(c).drop_last() =~= calls);
    lemma_history_numbered(p, calls);
    let l = pool_after(p, calls.push(c)).1.last();
    let prefix = match c {
        PoolCall::String(_) => "__lstr"@,
        PoolCall::Int(_) => "__lint"@,
        _ => "__lfunc"@,
    };
    assert(l == fresh_label(prefix, q.next_id));
    assert forall|i: int| 0 <= i < ls.len() implies #[trigger] ls[i] != l by {
        assert(any_numbered_below(ls[i], q.next_id));
        if numbered_below(ls[i], "__lstr"@, q.next_id) {
            lemma_numbered_below_fresh(ls[i], "__lstr"@, q.next_id, prefix, q.next_id);
        } else if numbered_below(ls[i], "__lint"@, q.next_id) {
            lemma_numbered_below_fresh(ls[i], "__lint"@, q.next_id, prefix, q.next_id);
        } else {
            lemma_numbered_below_fresh(ls[i], "__lfunc"@, q.next_id, prefix, q.next_id);
        }
    }
}

} // verus!
