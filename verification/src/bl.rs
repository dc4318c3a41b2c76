//! The Bob linker: lays object files out one after another, resolves every
//! relocation to an address and patches it into its word.
use vstd::prelude::*;
use crate::bobj::bobject::{Binding, BobjectFile, Relocation, RelocationKind, Symbol, first_named};
use crate::boblc::archive::literalpool::{push_char_vec, push_chars};
use crate::text::{decimal, i64_decimal, push_decimal, signed_decimal, string_of_chars};

verus! {

/// The words that an object file adds to the image: its 16-bit word count.
pub open spec fn object_words(f: BobjectFile) -> nat {
    (f.words@.len() as u16) as nat
}

/// The address at which object file `k` starts: the words of the files before it.
pub open spec fn base_of(files: Seq<BobjectFile>, k: int) -> nat
    decreases k,
{
    if k <= 0 || k > files.len() {
        0
    } else {
        base_of(files, k - 1) + object_words(files[k - 1])
    }
}

/// Why objects do not link.
#[derive(Debug)]
pub enum LinkError {
    /// The image would be longer than the 65536 words of memory.
    ProgramTooLarge { words: u32 },
    /// Global symbols defined more than once, each repeat named in order.
    DuplicateGlobals(Vec<String>),
    /// Relocations naming symbols that no file defines, in order.
    UndefinedSymbols(Vec<String>),
    /// Relocations whose offset does not fit their field.
    OutOfRange(Vec<RelocationOutOfRange>),
}

/// A PC-relative offset that does not fit in its field of `bits` bits.
#[derive(Debug, Clone, Copy, PartialEq, Eq, Structural)]
pub struct RelocationOutOfRange {
    pub fixup: i16,
    pub bits: u32,
}

/// A relocation with the address it refers to.
#[derive(Debug, Clone, Copy, PartialEq, Eq, Structural)]
pub struct ResolvedRelocation {
    pub object_index: usize,
    pub site: u16,
    pub kind: RelocationKind,
    pub target: u16,
}

/// The base address of each object file, in order; an error when the image
/// would exceed 65536 words.
pub fn compute_base_addresses(bobject_files: &[BobjectFile]) -> (r: Result<Vec<u32>, LinkError>)
    requires
        base_of(bobject_files@, bobject_files@.len() as int) <= u32::MAX,
    ensures
        match r {
            Ok(bases) => base_of(bobject_files@, bobject_files@.len() as int) <= 0x10000
                && bases@.len() == bobject_files@.len()
                && forall|k: int| 0 <= k < bases@.len() ==> #[trigger] bases@[k] == base_of(bobject_files@, k),
            Err(e) => base_of(bobject_files@, bobject_files@.len() as int) > 0x10000
                && e == LinkError::ProgramTooLarge { words: base_of(bobject_files@, bobject_files@.len() as int) as u32 },
        },
{
    let mut curr: u32 = 0;
    let mut bases: Vec<u32> = Vec::new();
    let mut k: usize = 0;
    while k < bobject_files.len()
        invariant
            k <= bobject_files@.len(),
            base_of(bobject_files@, bobject_files@.len() as int) <= u32::MAX,
            curr == base_of(bobject_files@, k as int),
            bases@.len() == k,
            forall|j: int| 0 <= j < k ==> #[trigger] bases@[j] == base_of(bobject_files@, j),
        decreases bobject_files@.len() - k,
    {
        bases.push(curr);
        proof { lemma_base_grows(bobject_files@, k + 1, bobject_files@.len() as int); }
        curr = curr + bobject_files[k].word_count() as u32;
        k += 1;
    }
    if curr > 0x10000 {
        return Err(LinkError::ProgramTooLarge { words: curr });
    }
    Ok(bases)
}

/// Later files start at higher addresses.
pub proof fn lemma_base_grows(files: Seq<BobjectFile>, j: int, k: int)
    requires
        0 <= j <= k <= files.len(),
    ensures
        base_of(files, j) <= base_of(files, k),
    decreases k - j,
{
    if j < k {
        lemma_base_grows(files, j, k - 1);
    }
}

/// The address of the word after a relocation site, wrapping within 16 bits.
pub open spec fn site_after(base: u32, site: u16) -> u16 {
    (((base as u16) as int + site as int + 1) % 0x10000) as u16
}

/// The 16-bit difference from the word after the site to the target.
pub open spec fn pc_offset(target: u16, base: u32, site: u16) -> u16 {
    ((target as int - site_after(base, site) as int) % 0x10000) as u16
}

/// A 16-bit word read as a two's-complement number.
pub open spec fn signed16(v: u16) -> int {
    if v < 0x8000 { v as int } else { v as int - 0x10000 }
}

/// Half the range of a `bits`-bit two's-complement field: two to the `bits - 1`.
pub open spec fn half_range(bits: nat) -> int
    decreases bits,
{
    if bits <= 1 { 1 } else { 2 * half_range((bits - 1) as nat) }
}

/// Wider fields have larger ranges.
pub proof fn lemma_half_range_grows(a: nat, b: nat)
    requires
        1 <= a <= b,
    ensures
        1 <= half_range(a) <= half_range(b),
    decreases b,
{
    if a < b {
        lemma_half_range_grows(a, (b - 1) as nat);
    } else if b > 1 {
        lemma_half_range_grows((b - 1) as nat, (b - 1) as nat);
    }
}

/// The PC-relative fixup of a relocation: the offset from the word after the
/// site to the target, if it fits a signed field of `bits` bits.
pub fn pc_rel_fixup(target: u16, base: u32, site: u16, bits: u32) -> (r: Result<u16, RelocationOutOfRange>)
    requires
        1 <= bits <= 15,
    ensures
        ({
            let off = pc_offset(target, base, site);
            let v = signed16(off);
            if -half_range(bits as nat) <= v <= half_range(bits as nat) - 1 {
                r == Ok::<u16, RelocationOutOfRange>(off)
            } else {
                r == Err::<u16, RelocationOutOfRange>(RelocationOutOfRange { fixup: v as i16, bits })
            }
        }),
{
    let site_addr = (base as u16).wrapping_add(site).wrapping_add(1);
    let off = target.wrapping_sub(site_addr);
    let fixup = off as i16;
    proof {
        assert(site_addr == site_after(base, site)) by (bit_vector)
            requires
                site_addr == (((base as u16) as int + site as int) % 0x10000) as u16 as int + 1 - (if (((base as u16) as int + site as int) % 0x10000) as u16 as int + 1 >= 0x10000 { 0x10000int } else { 0int }),
        ;
    }
    let mut half: i32 = 1;
    let mut b: u32 = 1;
    while b < bits
        invariant
            1 <= b <= bits <= 15,
            half == half_range(b as nat),
            half <= 0x4000,
        decreases bits - b,
    {
        proof {
            reveal_with_fuel(half_range, 15);
            assert(half_range(14) == 0x2000);
            lemma_half_range_grows(b as nat, 14);
        }
        half = half * 2;
        b = b + 1;
    }
    proof {
        lemma_half_range_grows(1, b as nat);
    }
    let lo: i32 = -half;
    let hi: i32 = half - 1;
    assert(fixup as int == signed16(off)) by (bit_vector)
        requires fixup == off as i16;
    if (fixup as i32) < lo || (fixup as i32) > hi {
        return Err(RelocationOutOfRange { fixup, bits });
    }
    assert(fixup as u16 == off) by (bit_vector)
        requires fixup == off as i16;
    Ok(fixup as u16)
}


/// The address of a symbol of a file at `base`: wrapping within 16 bits.
pub open spec fn symbol_address(base: u32, offset: u16) -> u16 {
    ((base as int + offset as int) % 0x10000) as u16
}

/// The global symbols among the first `m` symbols of a file at `base`, with
/// their addresses.
pub open spec fn file_globals(syms: Seq<Symbol>, base: u32, m: int) -> Seq<(Seq<char>, u16)>
    decreases m,
{
    if m <= 0 || m > syms.len() {
        Seq::empty()
    } else if syms[m - 1].binding == Binding::Global {
        file_globals(syms, base, m - 1).push((syms[m - 1].name@, symbol_address(base, syms[m - 1].offset)))
    } else {
        file_globals(syms, base, m - 1)
    }
}

/// The global symbols of the first `k` files, in order, with their addresses.
pub open spec fn all_globals(files: Seq<BobjectFile>, bases: Seq<u32>, k: int) -> Seq<(Seq<char>, u16)>
    decreases k,
{
    if k <= 0 || k > files.len() {
        Seq::empty()
    } else {
        all_globals(files, bases, k - 1) + file_globals(files[k - 1].symbols@, bases[k - 1], files[k - 1].symbols@.len() as int)
    }
}

/// Whether `name` is among the names of the entries.
pub open spec fn has_name(entries: Seq<(Seq<char>, u16)>, name: Seq<char>) -> bool {
    exists|j: int| 0 <= j < entries.len() && (#[trigger] entries[j]).0 == name
}

/// The names that repeat an earlier entry's name, in order.
pub open spec fn repeated_names(entries: Seq<(Seq<char>, u16)>) -> Seq<Seq<char>>
    decreases entries.len(),
{
    if entries.len() == 0 {
        Seq::empty()
    } else if has_name(entries.drop_last(), entries.last().0) {
        repeated_names(entries.drop_last()).push(entries.last().0)
    } else {
        repeated_names(entries.drop_last())
    }
}

/// The mathematical form of a table of global symbols.
pub open spec fn table_view(t: Seq<(String, u16)>) -> Seq<(Seq<char>, u16)> {
    t.map_values(|e: (String, u16)| (e.0@, e.1))
}

/// Whether a table holds `name`, found by a scan.
fn table_has(table: &Vec<(String, u16)>, name: &str) -> (r: bool)
    ensures
        r == has_name(table_view(table@), name@),
{
    let mut j: usize = 0;
    while j < table.len()
        invariant
            j <= table@.len(),
            forall|i: int| 0 <= i < j ==> (#[trigger] table_view(table@)[i]).0 != name@,
        decreases table@.len() - j,
    {
        assert(table_view(table@)[j as int] == (table@[j as int].0@, table@[j as int].1));
        if crate::text::str_eq(table[j].0.as_str(), name) {
            return true;
        }
        j += 1;
    }
    false
}

/// The table of global symbols: every global of every file at its address.
/// A global defined twice is an error naming each repeat.
pub fn build_global_symbol_table(bobject_files: &[BobjectFile], base_addresses: &[u32]) -> (r: Result<Vec<(String, u16)>, LinkError>)
    requires
        base_addresses@.len() == bobject_files@.len(),
    ensures
        ({
            let g = all_globals(bobject_files@, base_addresses@, bobject_files@.len() as int);
            match r {
                Ok(t) => repeated_names(g).len() == 0 && table_view(t@) == g,
                Err(LinkError::DuplicateGlobals(names)) => repeated_names(g).len() > 0
                    && names@.map_values(|n: String| n@) == repeated_names(g),
                Err(_) => false,
            }
        }),
{
    let mut table: Vec<(String, u16)> = Vec::new();
    let mut dups: Vec<String> = Vec::new();
    let mut i: usize = 0;
    assert(table_view(table@) =~= Seq::<(Seq<char>, u16)>::empty());
    assert(dups@.map_values(|n: String| n@) =~= Seq::<Seq<char>>::empty());
    while i < bobject_files.len()
        invariant
            base_addresses@.len() == bobject_files@.len(),
            i <= bobject_files@.len(),
            table_view(table@) == all_globals(bobject_files@, base_addresses@, i as int),
            dups@.map_values(|n: String| n@) == repeated_names(table_view(table@)),
        decreases bobject_files@.len() - i,
    {
        let syms = &bobject_files[i].symbols;
        let base = base_addresses[i];
        let ghost t0 = table_view(table@);
        let mut m: usize = 0;
        assert(t0 + file_globals(syms@, base, 0) =~= t0);
        while m < syms.len()
            invariant
                syms@ == bobject_files@[i as int].symbols@,
                base == base_addresses@[i as int],
                m <= syms@.len(),
                table_view(table@) == t0 + file_globals(syms@, base, m as int),
                dups@.map_values(|n: String| n@) == repeated_names(table_view(table@)),
            decreases syms@.len() - m,
        {
            let sym = &syms[m];
            if sym.binding == Binding::Global {
                let addr = ((base as u64 + sym.offset as u64) % 0x10000) as u16;
                let ghost tv = table_view(table@);
                if table_has(&table, sym.name.as_str()) {
                    let ghost d0 = dups@.map_values(|n: String| n@);
                    dups.push(sym.name.clone());
                    assert(dups@.map_values(|n: String| n@) =~= d0.push(sym.name@));
                }
                table.push((sym.name.clone(), addr));
                assert(table_view(table@) =~= tv.push((sym.name@, addr)));
                assert(table_view(table@).drop_last() =~= tv);
                assert(table_view(table@) =~= t0 + file_globals(syms@, base, m + 1));
            } else {
                assert(file_globals(syms@, base, m + 1) == file_globals(syms@, base, m as int));
            }
            m += 1;
        }
        i += 1;
    }
    if dups.len() > 0 {
        return Err(LinkError::DuplicateGlobals(dups));
    }
    Ok(table)
}


/// The address under `name` in a table: the first entry with that name.
pub open spec fn table_lookup(t: Seq<(Seq<char>, u16)>, name: Seq<char>) -> Option<u16>
    decreases t.len(),
{
    if t.len() == 0 {
        None
    } else if t[0].0 == name {
        Some(t[0].1)
    } else {
        table_lookup(t.drop_first(), name)
    }
}

/// The address a relocation of file `f` at `base` refers to: a symbol of the
/// file itself first, then a global of any file.
pub open spec fn resolve_target(f: BobjectFile, base: u32, table: Seq<(Seq<char>, u16)>, name: Seq<char>) -> Option<u16> {
    match first_named(f.symbols@, name) {
        Some(k) => Some(symbol_address(base, f.symbols@[k].offset)),
        None => table_lookup(table, name),
    }
}

/// The resolved relocations among the first `m` of file `i`.
pub open spec fn file_resolved(f: BobjectFile, i: usize, base: u32, table: Seq<(Seq<char>, u16)>, m: int) -> Seq<ResolvedRelocation>
    decreases m,
{
    if m <= 0 || m > f.relocations@.len() {
        Seq::empty()
    } else {
        let r = f.relocations@[m - 1];
        match resolve_target(f, base, table, r.name@) {
            Some(t) => file_resolved(f, i, base, table, m - 1).push(ResolvedRelocation { object_index: i, site: r.site, kind: r.kind, target: t }),
            None => file_resolved(f, i, base, table, m - 1),
        }
    }
}

/// The names of the unresolvable relocations among the first `m` of a file.
pub open spec fn file_undefined(f: BobjectFile, base: u32, table: Seq<(Seq<char>, u16)>, m: int) -> Seq<Seq<char>>
    decreases m,
{
    if m <= 0 || m > f.relocations@.len() {
        Seq::empty()
    } else {
        let r = f.relocations@[m - 1];
        match resolve_target(f, base, table, r.name@) {
            Some(_) => file_undefined(f, base, table, m - 1),
            None => file_undefined(f, base, table, m - 1).push(r.name@),
        }
    }
}

/// The resolved relocations of the first `k` files, in order.
pub open spec fn all_resolved(files: Seq<BobjectFile>, bases: Seq<u32>, table: Seq<(Seq<char>, u16)>, k: int) -> Seq<ResolvedRelocation>
    decreases k,
{
    if k <= 0 || k > files.len() {
        Seq::empty()
    } else {
        all_resolved(files, bases, table, k - 1)
            + file_resolved(files[k - 1], (k - 1) as usize, bases[k - 1], table, files[k - 1].relocations@.len() as int)
    }
}

/// The names of the unresolvable relocations of the first `k` files, in order.
pub open spec fn all_undefined(files: Seq<BobjectFile>, bases: Seq<u32>, table: Seq<(Seq<char>, u16)>, k: int) -> Seq<Seq<char>>
    decreases k,
{
    if k <= 0 || k > files.len() {
        Seq::empty()
    } else {
        all_undefined(files, bases, table, k - 1)
            + file_undefined(files[k - 1], bases[k - 1], table, files[k - 1].relocations@.len() as int)
    }
}

/// The address under `name` in a table.
fn table_get(table: &Vec<(String, u16)>, name: &str) -> (r: Option<u16>)
    ensures
        r == table_lookup(table_view(table@), name@),
{
    let mut j: usize = 0;
    assert(table_view(table@).skip(0) =~= table_view(table@));
    while j < table.len()
        invariant
            j <= table@.len(),
            table_lookup(table_view(table@), name@) == table_lookup(table_view(table@).skip(j as int), name@),
        decreases table@.len() - j,
    {
        assert(table_view(table@).skip(j as int).drop_first() =~= table_view(table@).skip(j + 1));
        assert(table_view(table@).skip(j as int)[0] == (table@[j as int].0@, table@[j as int].1));
        if crate::text::str_eq(table[j].0.as_str(), name) {
            return Some(table[j].1);
        }
        j += 1;
    }
    None
}

/// Every relocation with its target address: a symbol of its own file first,
/// then a global of any file. Relocations that name no symbol are an error
/// naming each, in order.
pub fn resolve_relocations(bobject_files: &[BobjectFile], base_addresses: &[u32], global_symbol_table: &Vec<(String, u16)>)
    -> (r: Result<Vec<ResolvedRelocation>, LinkError>)
    requires
        base_addresses@.len() == bobject_files@.len(),
    ensures
        ({
            let t = table_view(global_symbol_table@);
            let n = bobject_files@.len() as int;
            match r {
                Ok(rs) => all_undefined(bobject_files@, base_addresses@, t, n).len() == 0
                    && rs@ == all_resolved(bobject_files@, base_addresses@, t, n),
                Err(LinkError::UndefinedSymbols(names)) => all_undefined(bobject_files@, base_addresses@, t, n).len() > 0
                    && names@.map_values(|s: String| s@) == all_undefined(bobject_files@, base_addresses@, t, n),
                Err(_) => false,
            }
        }),
{
    let ghost t = table_view(global_symbol_table@);
    let mut resolved: Vec<ResolvedRelocation> = Vec::new();
    let mut undefined: Vec<String> = Vec::new();
    let mut i: usize = 0;
    assert(undefined@.map_values(|s: String| s@) =~= Seq::<Seq<char>>::empty());
    while i < bobject_files.len()
        invariant
            t == table_view(global_symbol_table@),
            base_addresses@.len() == bobject_files@.len(),
            i <= bobject_files@.len(),
            resolved@ == all_resolved(bobject_files@, base_addresses@, t, i as int),
            undefined@.map_values(|s: String| s@) == all_undefined(bobject_files@, base_addresses@, t, i as int),
        decreases bobject_files@.len() - i,
    {
        let file = &bobject_files[i];
        let base = base_addresses[i];
        let ghost r0 = resolved@;
        let ghost u0 = undefined@.map_values(|s: String| s@);
        let mut m: usize = 0;
        assert(r0 + file_resolved(*file, i, base, t, 0) =~= r0);
        assert(u0 + file_undefined(*file, base, t, 0) =~= u0);
        while m < file.relocations.len()
            invariant
                t == table_view(global_symbol_table@),
                *file == bobject_files@[i as int],
                base == base_addresses@[i as int],
                m <= file.relocations@.len(),
                resolved@ == r0 + file_resolved(*file, i, base, t, m as int),
                undefined@.map_values(|s: String| s@) == u0 + file_undefined(*file, base, t, m as int),
            decreases file.relocations@.len() - m,
        {
            let rel = &file.relocations[m];
            let target = match file.find_symbol(rel.name.as_str()) {
                Some(sym) => Some(((base as u64 + sym.offset as u64) % 0x10000) as u16),
                None => table_get(global_symbol_table, rel.name.as_str()),
            };
            assert(target == resolve_target(*file, base, t, rel.name@));
            match target {
                Some(tg) => {
                    resolved.push(ResolvedRelocation { object_index: i, site: rel.site, kind: rel.kind, target: tg });
                    assert(resolved@ =~= r0 + file_resolved(*file, i, base, t, m + 1));
                }
                None => {
                    let ghost ub = undefined@.map_values(|s: String| s@);
                    undefined.push(rel.name.clone());
                    assert(undefined@.map_values(|s: String| s@) =~= ub.push(rel.name@));
                    assert(undefined@.map_values(|s: String| s@) =~= u0 + file_undefined(*file, base, t, m + 1));
                }
            }
            m += 1;
        }
        i += 1;
    }
    if undefined.len() > 0 {
        return Err(LinkError::UndefinedSymbols(undefined));
    }
    Ok(resolved)
}


/// The PC-relative fixup of `pc_rel_fixup` as a value.
pub open spec fn pc_fixup(target: u16, base: u32, site: u16, bits: u32) -> Result<u16, RelocationOutOfRange> {
    let off = pc_offset(target, base, site);
    let v = signed16(off);
    if -half_range(bits as nat) <= v <= half_range(bits as nat) - 1 {
        Ok(off)
    } else {
        Err(RelocationOutOfRange { fixup: v as i16, bits })
    }
}

/// The value a resolved relocation writes: its target for an absolute
/// relocation, else its PC-relative offset, which must fit 9 or 11 bits.
pub open spec fn fixup_of(bases: Seq<u32>, r: ResolvedRelocation) -> Result<u16, RelocationOutOfRange> {
    match r.kind {
        RelocationKind::Abs16 => Ok(r.target),
        RelocationKind::PcRel9 => pc_fixup(r.target, bases[r.object_index as int], r.site, 9),
        RelocationKind::PcRel11 => pc_fixup(r.target, bases[r.object_index as int], r.site, 11),
    }
}

/// The fixups of the first `k` relocations that fit.
pub open spec fn fixups_ok(bases: Seq<u32>, rs: Seq<ResolvedRelocation>, k: int) -> Seq<u16>
    decreases k,
{
    if k <= 0 || k > rs.len() {
        Seq::empty()
    } else {
        match fixup_of(bases, rs[k - 1]) {
            Ok(v) => fixups_ok(bases, rs, k - 1).push(v),
            Err(_) => fixups_ok(bases, rs, k - 1),
        }
    }
}

/// The fixups of the first `k` relocations that do not fit.
pub open spec fn fixups_bad(bases: Seq<u32>, rs: Seq<ResolvedRelocation>, k: int) -> Seq<RelocationOutOfRange>
    decreases k,
{
    if k <= 0 || k > rs.len() {
        Seq::empty()
    } else {
        match fixup_of(bases, rs[k - 1]) {
            Ok(_) => fixups_bad(bases, rs, k - 1),
            Err(e) => fixups_bad(bases, rs, k - 1).push(e),
        }
    }
}

/// The value to write for each relocation; relocations whose PC-relative
/// offset does not fit its field are an error listing each.
pub fn compute_fixup_values(base_addresses: &[u32], resolved_relocations: &[ResolvedRelocation]) -> (r: Result<Vec<u16>, LinkError>)
    requires
        forall|k: int| 0 <= k < resolved_relocations@.len() ==> (#[trigger] resolved_relocations@[k]).object_index < base_addresses@.len(),
    ensures
        ({
            let n = resolved_relocations@.len() as int;
            match r {
                Ok(v) => fixups_bad(base_addresses@, resolved_relocations@, n).len() == 0
                    && v@ == fixups_ok(base_addresses@, resolved_relocations@, n),
                Err(LinkError::OutOfRange(errs)) => fixups_bad(base_addresses@, resolved_relocations@, n).len() > 0
                    && errs@ == fixups_bad(base_addresses@, resolved_relocations@, n),
                Err(_) => false,
            }
        }),
{
    let mut out: Vec<u16> = Vec::new();
    let mut bad: Vec<RelocationOutOfRange> = Vec::new();
    let mut k: usize = 0;
    while k < resolved_relocations.len()
        invariant
            forall|j: int| 0 <= j < resolved_relocations@.len() ==> (#[trigger] resolved_relocations@[j]).object_index < base_addresses@.len(),
            k <= resolved_relocations@.len(),
            out@ == fixups_ok(base_addresses@, resolved_relocations@, k as int),
            bad@ == fixups_bad(base_addresses@, resolved_relocations@, k as int),
        decreases resolved_relocations@.len() - k,
    {
        let r = resolved_relocations[k];
        assert(r.object_index < base_addresses@.len());
        let result = match r.kind {
            RelocationKind::Abs16 => Ok(r.target),
            RelocationKind::PcRel9 => pc_rel_fixup(r.target, base_addresses[r.object_index], r.site, 9),
            RelocationKind::PcRel11 => pc_rel_fixup(r.target, base_addresses[r.object_index], r.site, 11),
        };
        assert(result == fixup_of(base_addresses@, r));
        match result {
            Ok(v) => out.push(v),
            Err(e) => bad.push(e),
        }
        k += 1;
    }
    if bad.len() > 0 {
        return Err(LinkError::OutOfRange(bad));
    }
    Ok(out)
}

/// A word with a fixup written into it: the whole word for an absolute
/// relocation, else its low 9 or 11 bits.
pub open spec fn patched_word(old: u16, kind: RelocationKind, fix: u16) -> u16 {
    match kind {
        RelocationKind::Abs16 => fix,
        RelocationKind::PcRel9 => (old & 0xFE00) | (fix & 0x01FF),
        RelocationKind::PcRel11 => (old & 0xF800) | (fix & 0x07FF),
    }
}

/// The words of each file after the first `k` relocations are written.
pub open spec fn patched(words: Seq<Seq<u16>>, fixups: Seq<u16>, rs: Seq<ResolvedRelocation>, k: int) -> Seq<Seq<u16>>
    decreases k,
{
    if k <= 0 || k > rs.len() {
        words
    } else {
        let w = patched(words, fixups, rs, k - 1);
        let r = rs[k - 1];
        let o = r.object_index as int;
        let s = r.site as int;
        w.update(o, w[o].update(s, patched_word(w[o][s], r.kind, fixups[k - 1])))
    }
}

/// The mathematical form of the words of each file.
pub open spec fn words_view(words: Seq<Vec<u16>>) -> Seq<Seq<u16>> {
    words.map_values(|v: Vec<u16>| v@)
}

/// Patching changes no file's length.
proof fn lemma_patched_shape(words: Seq<Seq<u16>>, fixups: Seq<u16>, rs: Seq<ResolvedRelocation>, k: int)
    requires
        forall|j: int| 0 <= j < rs.len() ==> (#[trigger] rs[j]).object_index < words.len()
            && rs[j].site < words[rs[j].object_index as int].len(),
    ensures
        patched(words, fixups, rs, k).len() == words.len(),
        forall|o: int| 0 <= o < words.len() ==> #[trigger] patched(words, fixups, rs, k)[o].len() == words[o].len(),
    decreases k,
{
    if 0 < k <= rs.len() {
        lemma_patched_shape(words, fixups, rs, k - 1);
    }
}

/// Writes each relocation's fixup into its word.
pub fn patch(fixup_values: &[u16], words: &mut Vec<Vec<u16>>, resolved_relocations: &[ResolvedRelocation])
    requires
        fixup_values@.len() >= resolved_relocations@.len(),
        forall|j: int| 0 <= j < resolved_relocations@.len() ==> (#[trigger] resolved_relocations@[j]).object_index < old(words)@.len()
            && resolved_relocations@[j].site < old(words)@[resolved_relocations@[j].object_index as int]@.len(),
    ensures
        words_view(final(words)@) == patched(words_view(old(words)@), fixup_values@, resolved_relocations@, resolved_relocations@.len() as int),
{
    let ghost w0 = words_view(words@);
    let mut k: usize = 0;
    while k < resolved_relocations.len()
        invariant
            fixup_values@.len() >= resolved_relocations@.len(),
            w0.len() == old(words)@.len(),
            forall|o: int| 0 <= o < w0.len() ==> #[trigger] w0[o].len() == old(words)@[o]@.len(),
            forall|j: int| 0 <= j < resolved_relocations@.len() ==> (#[trigger] resolved_relocations@[j]).object_index < w0.len()
                && resolved_relocations@[j].site < w0[resolved_relocations@[j].object_index as int].len(),
            k <= resolved_relocations@.len(),
            words_view(words@) == patched(w0, fixup_values@, resolved_relocations@, k as int),
        decreases resolved_relocations@.len() - k,
    {
        proof { lemma_patched_shape(w0, fixup_values@, resolved_relocations@, k as int); }
        let r = resolved_relocations[k];
        let fix = fixup_values[k];
        let o = r.object_index;
        let s = r.site as usize;
        let ghost wv = words_view(words@);
        assert(wv[o as int] == words@[o as int]@);
        let mut inner: Vec<u16> = Vec::new();
        let mut t: usize = 0;
        while t < words[o].len()
            invariant
                o < words@.len(),
                t <= words@[o as int]@.len(),
                inner@ == words@[o as int]@.take(t as int),
            decreases words@[o as int]@.len() - t,
        {
            inner.push(words[o][t]);
            assert(inner@ =~= words@[o as int]@.take(t + 1));
            t += 1;
        }
        assert(inner@ =~= wv[o as int]);
        let existing = inner[s];
        let v = match r.kind {
            RelocationKind::Abs16 => fix,
            RelocationKind::PcRel9 => (existing & 0xFE00) | (fix & 0x01FF),
            RelocationKind::PcRel11 => (existing & 0xF800) | (fix & 0x07FF),
        };
        inner.set(s, v);
        let ghost iv = inner@;
        words.set(o, inner);
        assert(words_view(words@) =~= wv.update(o as int, iv));
        k += 1;
    }
}


/// The mathematical form of a [`LinkError`].
pub enum LinkErrorModel {
    ProgramTooLarge { words: u32 },
    DuplicateGlobals(Seq<Seq<char>>),
    UndefinedSymbols(Seq<Seq<char>>),
    OutOfRange(Seq<RelocationOutOfRange>),
}

impl View for LinkError {
    type V = LinkErrorModel;

    open spec fn view(&self) -> LinkErrorModel {
        match self {
            LinkError::ProgramTooLarge { words } => LinkErrorModel::ProgramTooLarge { words: *words },
            LinkError::DuplicateGlobals(v) => LinkErrorModel::DuplicateGlobals(v@.map_values(|s: String| s@)),
            LinkError::UndefinedSymbols(v) => LinkErrorModel::UndefinedSymbols(v@.map_values(|s: String| s@)),
            LinkError::OutOfRange(v) => LinkErrorModel::OutOfRange(v@),
        }
    }
}

/// The base address of every file.
pub open spec fn base_seq(files: Seq<BobjectFile>) -> Seq<u32> {
    Seq::new(files.len(), |k: int| base_of(files, k) as u32)
}

/// The words of the files one after another.
pub open spec fn flatten(ws: Seq<Seq<u16>>) -> Seq<u16>
    decreases ws.len(),
{
    if ws.len() == 0 {
        Seq::empty()
    } else {
        flatten(ws.drop_last()) + ws.last()
    }
}

/// Every relocation site lies within its file's words.
pub open spec fn sites_in_range(files: Seq<BobjectFile>) -> bool {
    forall|i: int, m: int| 0 <= i < files.len() && 0 <= m < files[i].relocations@.len()
        ==> (#[trigger] files[i].relocations@[m]).site < files[i].words@.len()
}

/// The linked image of the files, or why they do not link: the layout, then
/// the global symbols, then the relocations' targets, then their fixups.
pub open spec fn link_spec(files: Seq<BobjectFile>) -> Result<Seq<u16>, LinkErrorModel> {
    let n = files.len() as int;
    let bases = base_seq(files);
    let g = all_globals(files, bases, n);
    let res = all_resolved(files, bases, g, n);
    if base_of(files, n) > 0x10000 {
        Err(LinkErrorModel::ProgramTooLarge { words: base_of(files, n) as u32 })
    } else if repeated_names(g).len() > 0 {
        Err(LinkErrorModel::DuplicateGlobals(repeated_names(g)))
    } else if all_undefined(files, bases, g, n).len() > 0 {
        Err(LinkErrorModel::UndefinedSymbols(all_undefined(files, bases, g, n)))
    } else if fixups_bad(bases, res, res.len() as int).len() > 0 {
        Err(LinkErrorModel::OutOfRange(fixups_bad(bases, res, res.len() as int)))
    } else {
        Ok(flatten(patched(files.map_values(|f: BobjectFile| f.words@), fixups_ok(bases, res, res.len() as int), res, res.len() as int)))
    }
}

/// The resolved relocations of a file are its own, with their sites.
proof fn lemma_file_resolved(f: BobjectFile, i: usize, base: u32, table: Seq<(Seq<char>, u16)>, m: int)
    requires
        forall|q: int| 0 <= q < f.relocations@.len() ==> (#[trigger] f.relocations@[q]).site < f.words@.len(),
    ensures
        forall|j: int| 0 <= j < file_resolved(f, i, base, table, m).len() ==>
            (#[trigger] file_resolved(f, i, base, table, m)[j]).object_index == i
            && file_resolved(f, i, base, table, m)[j].site < f.words@.len(),
    decreases m,
{
    if 0 < m <= f.relocations@.len() {
        lemma_file_resolved(f, i, base, table, m - 1);
    }
}

/// The resolved relocations of the first `k` files belong to those files,
/// with sites within their words.
proof fn lemma_all_resolved(files: Seq<BobjectFile>, bases: Seq<u32>, table: Seq<(Seq<char>, u16)>, k: int)
    requires
        sites_in_range(files),
        k <= files.len(),
        files.len() <= usize::MAX,
    ensures
        forall|j: int| 0 <= j < all_resolved(files, bases, table, k).len() ==>
            (#[trigger] all_resolved(files, bases, table, k)[j]).object_index < k
            && all_resolved(files, bases, table, k)[j].site < files[all_resolved(files, bases, table, k)[j].object_index as int].words@.len(),
    decreases k,
{
    if 0 < k {
        lemma_all_resolved(files, bases, table, k - 1);
        let f = files[k - 1];
        assert forall|q: int| 0 <= q < f.relocations@.len() implies (#[trigger] f.relocations@[q]).site < f.words@.len() by {
            assert(files[k - 1].relocations@[q] == f.relocations@[q]);
        }
        lemma_file_resolved(f, (k - 1) as usize, bases[k - 1], table, f.relocations@.len() as int);
        let a = all_resolved(files, bases, table, k - 1);
        let b = file_resolved(f, (k - 1) as usize, bases[k - 1], table, f.relocations@.len() as int);
        assert forall|j: int| 0 <= j < (a + b).len() implies (#[trigger] (a + b)[j]).object_index < k
            && (a + b)[j].site < files[(a + b)[j].object_index as int].words@.len() by {
            if j >= a.len() {
                assert((a + b)[j] == b[j - a.len()]);
            } else {
                assert((a + b)[j] == a[j]);
            }
        }
    }
}

/// Links object files into the words of an executable image: lays them out
/// one after another, builds the table of globals, resolves each relocation
/// and writes its fixup into its word.
pub fn link(bobject_files: &[BobjectFile]) -> (r: Result<Vec<u16>, LinkError>)
    requires
        base_of(bobject_files@, bobject_files@.len() as int) <= u32::MAX,
        sites_in_range(bobject_files@),
    ensures
        link_spec(bobject_files@) == match r {
            Ok(img) => Ok::<Seq<u16>, LinkErrorModel>(img@),
            Err(e) => Err(e@),
        },
{
    let ghost n = bobject_files@.len() as int;
    let file_count = bobject_files.len();
    assert(file_count == bobject_files@.len());
    let bases = match compute_base_addresses(bobject_files) {
        Ok(b) => b,
        Err(e) => return Err(e),
    };
    assert(bases@ =~= base_seq(bobject_files@));
    let table = match build_global_symbol_table(bobject_files, bases.as_slice()) {
        Ok(t) => t,
        Err(e) => return Err(e),
    };
    let resolved = match resolve_relocations(bobject_files, bases.as_slice(), &table) {
        Ok(rs) => rs,
        Err(e) => return Err(e),
    };
    proof {
        lemma_all_resolved(bobject_files@, bases@, table_view(table@), n);
    }
    let fixups = match compute_fixup_values(bases.as_slice(), resolved.as_slice()) {
        Ok(f) => f,
        Err(e) => return Err(e),
    };
    proof {
        let rs = resolved@;
        lemma_fixups_len(bases@, rs, rs.len() as int);
    }
    let mut words: Vec<Vec<u16>> = Vec::new();
    let mut i: usize = 0;
    while i < bobject_files.len()
        invariant
            i <= bobject_files@.len(),
            words@.len() == i,
            forall|j: int| 0 <= j < i ==> #[trigger] words@[j]@ == bobject_files@[j].words@,
        decreases bobject_files@.len() - i,
    {
        let src = &bobject_files[i].words;
        let mut copy: Vec<u16> = Vec::new();
        let mut t: usize = 0;
        while t < src.len()
            invariant
                t <= src@.len(),
                copy@ == src@.take(t as int),
            decreases src@.len() - t,
        {
            copy.push(src[t]);
            assert(copy@ =~= src@.take(t + 1));
            t += 1;
        }
        assert(copy@ =~= src@);
        words.push(copy);
        i += 1;
    }
    assert(words_view(words@) =~= bobject_files@.map_values(|f: BobjectFile| f.words@));
    patch(fixups.as_slice(), &mut words, resolved.as_slice());
    let ghost wv = words_view(words@);
    let mut image: Vec<u16> = Vec::new();
    let mut k: usize = 0;
    while k < words.len()
        invariant
            wv == words_view(words@),
            k <= words@.len(),
            image@ == flatten(wv.take(k as int)),
        decreases words@.len() - k,
    {
        assert(wv.take(k + 1).drop_last() =~= wv.take(k as int));
        let w = &words[k];
        let mut t: usize = 0;
        let ghost base_img = image@;
        while t < w.len()
            invariant
                t <= w@.len(),
                image@ == base_img + w@.take(t as int),
            decreases w@.len() - t,
        {
            image.push(w[t]);
            assert(image@ =~= base_img + w@.take(t + 1));
            t += 1;
        }
        assert(w@.take(w@.len() as int) =~= w@);
        assert(wv.take(k + 1).last() == w@);
        k += 1;
    }
    assert(wv.take(k as int) =~= wv);
    Ok(image)
}

/// There is a fixup for every relocation when none is out of range.
proof fn lemma_fixups_len(bases: Seq<u32>, rs: Seq<ResolvedRelocation>, k: int)
    requires
        0 <= k <= rs.len(),
    ensures
        fixups_ok(bases, rs, k).len() + fixups_bad(bases, rs, k).len() == k,
    decreases k,
{
    if k > 0 {
        lemma_fixups_len(bases, rs, k - 1);
    }
}


/// The text of an out-of-range relocation: the offset and its field's width.
pub open spec fn out_of_range_text(r: RelocationOutOfRange) -> Seq<char> {
    "relocation out of range "@ + seq!['\x28'] + signed_decimal(r.fixup as int) + " in "@ + decimal(r.bits as nat)
        + " bits"@ + seq!['\x29']
}

impl RelocationOutOfRange {
    /// The text of the error: the offset and its field's width.
    pub fn message(&self) -> (s: String)
        ensures
            s@ == out_of_range_text(*self),
    {
        let mut buf: Vec<char> = Vec::new();
        push_chars(&mut buf, "relocation out of range ");
        buf.push('\x28');
        let d = i64_decimal(self.fixup as i64);
        push_char_vec(&mut buf, &d);
        push_chars(&mut buf, " in ");
        push_decimal(&mut buf, self.bits as u64);
        push_chars(&mut buf, " bits");
        buf.push('\x29');
        let s = string_of_chars(buf.as_slice());
        assert(s@ =~= out_of_range_text(*self));
        s
    }
}

/// What patching writes into a word: an absolute relocation replaces it with
/// the fixup; a PC-relative one keeps the bits above its 9 or 11 bit field,
/// the opcode and register fields, and puts the fixup's low bits in the field.
pub proof fn lemma_patched_word_fields(old: u16, fix: u16)
    ensures
        patched_word(old, RelocationKind::Abs16, fix) == fix,
        patched_word(old, RelocationKind::PcRel9, fix) & 0xFE00 == old & 0xFE00,
        patched_word(old, RelocationKind::PcRel9, fix) & 0x01FF == fix & 0x01FF,
        patched_word(old, RelocationKind::PcRel11, fix) & 0xF800 == old & 0xF800,
        patched_word(old, RelocationKind::PcRel11, fix) & 0x07FF == fix & 0x07FF,
{
    let a = patched_word(old, RelocationKind::PcRel9, fix);
    let b = patched_word(old, RelocationKind::PcRel11, fix);
    assert(a & 0xFE00 == old & 0xFE00 && a & 0x01FF == fix & 0x01FF) by (bit_vector)
        requires
            a == (old & 0xFE00) | (fix & 0x01FF);
    assert(b & 0xF800 == old & 0xF800 && b & 0x07FF == fix & 0x07FF) by (bit_vector)
        requires
            b == (old & 0xF800) | (fix & 0x07FF);
}

/// A PC-relative fixup that fits the field leads from the word after the
/// site, at the file's place in the image, to the target: added to that
/// address, modulo 2^16, it gives the target; read as a signed number it
/// fits the field's range.
pub proof fn lemma_pc_fixup_reaches(target: u16, base: u32, site: u16, bits: u32)
    ensures
        pc_fixup(target, base, site, bits) matches Ok(v) ==> {
            &&& ((base as u16) as int + site as int + 1 + v as int) % 0x10000 == target as int
            &&& -half_range(bits as nat) <= signed16(v) < half_range(bits as nat)
        },
{
    let sa = site_after(base, site);
    let v = pc_offset(target, base, site);
    let b = (base as u16) as int;
    assert(sa as int == (b + site + 1) % 0x10000);
    assert(v as int == (target as int - sa as int) % 0x10000);
    assert((b + site + 1 + v) % 0x10000 == target as int) by (nonlinear_arith)
        requires
            sa as int == (b + site + 1) % 0x10000,
            v as int == (target as int - sa as int) % 0x10000,
            0 <= target < 0x10000,
            0 <= b,
    {
        assert((b + site + 1) % 0x10000 + (target as int - sa as int) % 0x10000 == (b + site + 1 + v) - 0x10000 * ((b + site + 1) / 0x10000)) by (nonlinear_arith)
            requires
                sa as int == (b + site + 1) % 0x10000,
                v as int == (target as int - sa as int) % 0x10000;
    }
}

/// Patching relocations at distinct places writes each one's fixup into
/// the word at its site, as `patched_word` says, and leaves every other word
/// as it was.
pub proof fn lemma_patched_places(words: Seq<Seq<u16>>, fixups: Seq<u16>, rs: Seq<ResolvedRelocation>, k: int)
    requires
        0 <= k <= rs.len(),
        forall|j: int| 0 <= j < rs.len() ==> (#[trigger] rs[j]).object_index < words.len()
            && rs[j].site < words[rs[j].object_index as int].len(),
        forall|i: int, j: int| 0 <= i < j < rs.len() ==>
            (#[trigger] rs[i]).object_index != (#[trigger] rs[j]).object_index || rs[i].site != rs[j].site,
    ensures
        forall|j: int| 0 <= j < k ==> #[trigger] patched(words, fixups, rs, k)[rs[j].object_index as int][rs[j].site as int]
            == patched_word(words[rs[j].object_index as int][rs[j].site as int], rs[j].kind, fixups[j]),
        forall|o: int, s: int| 0 <= o < words.len() && 0 <= s < words[o].len()
            && (forall|j: int| 0 <= j < k ==> !(#[trigger] rs[j].object_index == o && rs[j].site == s))
            ==> #[trigger] patched(words, fixups, rs, k)[o][s] == words[o][s],
    decreases k,
{
    lemma_patched_shape(words, fixups, rs, k);
    if k > 0 {
        lemma_patched_places(words, fixups, rs, k - 1);
        lemma_patched_shape(words, fixups, rs, k - 1);
        let w = patched(words, fixups, rs, k - 1);
        let r = rs[k - 1];
        assert forall|j: int| 0 <= j < k implies #[trigger] patched(words, fixups, rs, k)[rs[j].object_index as int][rs[j].site as int]
            == patched_word(words[rs[j].object_index as int][rs[j].site as int], rs[j].kind, fixups[j]) by {
            if j < k - 1 {
                assert(rs[j].object_index != r.object_index || rs[j].site != r.site);
                assert(w[r.object_index as int][r.site as int] == words[r.object_index as int][r.site as int]) by {
                    assert forall|i: int| 0 <= i < k - 1 implies !(#[trigger] rs[i].object_index == r.object_index as int && rs[i].site == r.site as int) by {
                        assert(rs[i].object_index != rs[k - 1].object_index || rs[i].site != rs[k - 1].site);
                    }
                }
            } else {
                assert forall|i: int| 0 <= i < k - 1 implies !(#[trigger] rs[i].object_index == r.object_index as int && rs[i].site == r.site as int) by {
                    assert(rs[i].object_index != rs[k - 1].object_index || rs[i].site != rs[k - 1].site);
                }
            }
        }
    }
}

} // verus!
