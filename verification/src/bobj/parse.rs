//! Reading and writing bobject files.
//!
//! Layout: the magic bytes `BOBJ`, a `u16` version (0), a `u32` word count, a
//! `u16` symbol count, a `u16` relocation count, the symbols, the relocations,
//! then the words; all integers little-endian. A symbol is its name, a `u16`
//! offset and a binding byte; a relocation is a `u16` site, a kind byte and its
//! name. A name is a length byte followed by that many bytes of UTF-8.
use vstd::prelude::*;
use vstd::utf8::{decode_utf8, encode_utf8, valid_utf8, encode_utf8_decode_utf8, encode_utf8_valid_utf8, decode_utf8_encode_utf8};
use crate::wire::{lemma_le16_of, lemma_le32_of, lemma_words_of_round_trip, le16, le32, u16_of, u32_of, words_le, words_of, lemma_words_le, lemma_u32_round_trip, lemma_u16_round_trip, lemma_words_round_trip};
use crate::text::{byte_list, decimal, push_byte_list, push_decimal, string_from_utf8, string_of_chars};
use crate::boblc::archive::literalpool::push_chars;
use super::bobject::{Binding, BobjectFile, ObjectModel, Relocation, RelocationKind, RelocationModel, Symbol, SymbolModel};

verus! {

const VERSION: u16 = 0;

/// Why a byte sequence is not a bobject file.
#[derive(Debug)]
pub enum ParseError {
    UnexpectedEof,
    BadMagic([u8; 4]),
    UnsupportedVersion(u16),
    TooManyWords(usize),
    InvalidBinding(u8),
    InvalidRelocKind(u8),
    InvalidUtf8Name,
}

/// The mathematical form of [`ParseError`].
pub enum DecodeError {
    UnexpectedEof,
    BadMagic(Seq<u8>),
    UnsupportedVersion(u16),
    TooManyWords(int),
    InvalidBinding(u8),
    InvalidRelocKind(u8),
    InvalidUtf8Name,
}

impl View for ParseError {
    type V = DecodeError;

    open spec fn view(&self) -> DecodeError {
        match self {
            ParseError::UnexpectedEof => DecodeError::UnexpectedEof,
            ParseError::BadMagic(m) => DecodeError::BadMagic(m@),
            ParseError::UnsupportedVersion(v) => DecodeError::UnsupportedVersion(*v),
            ParseError::TooManyWords(n) => DecodeError::TooManyWords(*n as int),
            ParseError::InvalidBinding(b) => DecodeError::InvalidBinding(*b),
            ParseError::InvalidRelocKind(k) => DecodeError::InvalidRelocKind(*k),
            ParseError::InvalidUtf8Name => DecodeError::InvalidUtf8Name,
        }
    }
}

/// The four magic bytes, "BOBJ".
pub open spec fn magic() -> Seq<u8> {
    seq![0x42u8, 0x4Fu8, 0x42u8, 0x4Au8]
}

pub open spec fn max_words() -> int {
    0x10000
}

// ----- writing -----

/// A name: its UTF-8 length as one byte, then its UTF-8 bytes.
pub open spec fn name_field(n: Seq<char>) -> Seq<u8> {
    seq![encode_utf8(n).len() as u8] + encode_utf8(n)
}

pub open spec fn binding_byte(b: Binding) -> u8 {
    match b {
        Binding::Local => 0,
        Binding::Global => 1,
    }
}

pub open spec fn kind_byte(k: RelocationKind) -> u8 {
    match k {
        RelocationKind::PcRel9 => 0,
        RelocationKind::PcRel11 => 1,
        RelocationKind::Abs16 => 2,
    }
}

pub open spec fn symbol_bytes(s: SymbolModel) -> Seq<u8> {
    name_field(s.name) + le16(s.offset) + seq![binding_byte(s.binding)]
}

pub open spec fn reloc_bytes(r: RelocationModel) -> Seq<u8> {
    le16(r.site) + seq![kind_byte(r.kind)] + name_field(r.name)
}

pub open spec fn symbols_bytes(ss: Seq<SymbolModel>) -> Seq<u8>
    decreases ss.len(),
{
    if ss.len() == 0 {
        Seq::empty()
    } else {
        symbols_bytes(ss.drop_last()) + symbol_bytes(ss.last())
    }
}

pub open spec fn relocs_bytes(rs: Seq<RelocationModel>) -> Seq<u8>
    decreases rs.len(),
{
    if rs.len() == 0 {
        Seq::empty()
    } else {
        relocs_bytes(rs.drop_last()) + reloc_bytes(rs.last())
    }
}

pub open spec fn header(o: ObjectModel) -> Seq<u8> {
    magic() + le16(0) + le32(o.words.len() as u32) + le16(o.symbols.len() as u16) + le16(
        o.relocations.len() as u16,
    )
}

/// The bytes that `to_bytes` writes for `o`.
pub open spec fn encode(o: ObjectModel) -> Seq<u8> {
    header(o) + symbols_bytes(o.symbols) + relocs_bytes(o.relocations) + words_le(o.words)
}

/// Every name fits the one-byte length of the format.
pub open spec fn names_fit(o: ObjectModel) -> bool {
    &&& forall|i: int| 0 <= i < o.symbols.len() ==> encode_utf8(#[trigger] o.symbols[i].name).len() <= 255
    &&& forall|i: int| 0 <= i < o.relocations.len() ==> encode_utf8(#[trigger] o.relocations[i].name).len() <= 255
}

/// An object that the format holds without loss.
pub open spec fn representable(o: ObjectModel) -> bool {
    &&& o.words.len() <= max_words()
    &&& o.symbols.len() <= 0xFFFF
    &&& o.relocations.len() <= 0xFFFF
    &&& names_fit(o)
}

// ----- reading -----

pub open spec fn read_name(b: Seq<u8>, p: int) -> Result<(Seq<char>, int), DecodeError> {
    if p + 1 > b.len() {
        Err(DecodeError::UnexpectedEof)
    } else {
        let n = b[p] as int;
        if p + 1 + n > b.len() {
            Err(DecodeError::UnexpectedEof)
        } else if valid_utf8(b.subrange(p + 1, p + 1 + n)) {
            Ok((decode_utf8(b.subrange(p + 1, p + 1 + n)), p + 1 + n))
        } else {
            Err(DecodeError::InvalidUtf8Name)
        }
    }
}

pub open spec fn read_symbol(b: Seq<u8>, p: int) -> Result<(SymbolModel, int), DecodeError> {
    match read_name(b, p) {
        Err(e) => Err(e),
        Ok((name, q)) => if q + 3 > b.len() {
            Err(DecodeError::UnexpectedEof)
        } else {
            let offset = u16_of(b[q], b[q + 1]);
            if b[q + 2] == 0 {
                Ok((SymbolModel { name, offset, binding: Binding::Local }, q + 3))
            } else if b[q + 2] == 1 {
                Ok((SymbolModel { name, offset, binding: Binding::Global }, q + 3))
            } else {
                Err(DecodeError::InvalidBinding(b[q + 2]))
            }
        },
    }
}

pub open spec fn read_reloc(b: Seq<u8>, p: int) -> Result<(RelocationModel, int), DecodeError> {
    if p + 3 > b.len() {
        Err(DecodeError::UnexpectedEof)
    } else {
        let site = u16_of(b[p], b[p + 1]);
        let k = b[p + 2];
        if k > 2 {
            Err(DecodeError::InvalidRelocKind(k))
        } else {
            let kind = if k == 0 {
                RelocationKind::PcRel9
            } else if k == 1 {
                RelocationKind::PcRel11
            } else {
                RelocationKind::Abs16
            };
            match read_name(b, p + 3) {
                Err(e) => Err(e),
                Ok((name, q)) => Ok((RelocationModel { site, kind, name }, q)),
            }
        }
    }
}

pub open spec fn read_symbols(b: Seq<u8>, p: int, n: nat) -> Result<(Seq<SymbolModel>, int), DecodeError>
    decreases n,
{
    if n == 0 {
        Ok((Seq::empty(), p))
    } else {
        match read_symbols(b, p, (n - 1) as nat) {
            Err(e) => Err(e),
            Ok((ss, q)) => match read_symbol(b, q) {
                Err(e) => Err(e),
                Ok((s, r)) => Ok((ss.push(s), r)),
            },
        }
    }
}

pub open spec fn read_relocs(b: Seq<u8>, p: int, n: nat) -> Result<(Seq<RelocationModel>, int), DecodeError>
    decreases n,
{
    if n == 0 {
        Ok((Seq::empty(), p))
    } else {
        match read_relocs(b, p, (n - 1) as nat) {
            Err(e) => Err(e),
            Ok((rs, q)) => match read_reloc(b, q) {
                Err(e) => Err(e),
                Ok((r, s)) => Ok((rs.push(r), s)),
            },
        }
    }
}

/// What `from_bytes` makes of `b`: the object, or the first problem met while
/// reading it front to back. Bytes after the last word are ignored.
pub open spec fn decode(b: Seq<u8>) -> Result<ObjectModel, DecodeError> {
    if b.len() < 4 {
        Err(DecodeError::UnexpectedEof)
    } else if b.subrange(0, 4) != magic() {
        Err(DecodeError::BadMagic(b.subrange(0, 4)))
    } else if b.len() < 6 {
        Err(DecodeError::UnexpectedEof)
    } else if u16_of(b[4], b[5]) != 0 {
        Err(DecodeError::UnsupportedVersion(u16_of(b[4], b[5])))
    } else if b.len() < 10 {
        Err(DecodeError::UnexpectedEof)
    } else if u32_of(b[6], b[7], b[8], b[9]) > max_words() {
        Err(DecodeError::TooManyWords(u32_of(b[6], b[7], b[8], b[9]) - max_words()))
    } else if b.len() < 14 {
        Err(DecodeError::UnexpectedEof)
    } else {
        let wc = u32_of(b[6], b[7], b[8], b[9]) as int;
        match read_symbols(b, 14, u16_of(b[10], b[11]) as nat) {
            Err(e) => Err(e),
            Ok((ss, p)) => match read_relocs(b, p, u16_of(b[12], b[13]) as nat) {
                Err(e) => Err(e),
                Ok((rs, q)) => if q + 2 * wc > b.len() {
                    Err(DecodeError::UnexpectedEof)
                } else {
                    Ok(ObjectModel { symbols: ss, relocations: rs, words: words_of(b.subrange(q, q + 2 * wc)) })
                },
            },
        }
    }
}

pub open spec fn outcome(r: Result<BobjectFile, ParseError>) -> Result<ObjectModel, DecodeError> {
    match r {
        Ok(f) => Ok(f@),
        Err(e) => Err(e@),
    }
}

proof fn lemma_read_name(b: Seq<u8>, p: int, n: Seq<char>)
    requires
        0 <= p,
        encode_utf8(n).len() <= 255,
        p + name_field(n).len() <= b.len(),
        b.subrange(p, p + name_field(n).len()) == name_field(n),
    ensures
        read_name(b, p) == Ok::<(Seq<char>, int), DecodeError>((n, p + name_field(n).len())),
{
    let e = encode_utf8(n);
    assert(b[p] == name_field(n)[0]);
    assert(b.subrange(p + 1, p + 1 + e.len()) =~= e) by {
        assert forall|k: int| 0 <= k < e.len() implies b.subrange(p + 1, p + 1 + e.len())[k] == e[k] by {
            assert(b[p + 1 + k] == b.subrange(p, p + name_field(n).len())[1 + k]);
        }
    }
    encode_utf8_valid_utf8(n);
    encode_utf8_decode_utf8(n);
}

proof fn lemma_read_symbol(b: Seq<u8>, p: int, s: SymbolModel)
    requires
        0 <= p,
        encode_utf8(s.name).len() <= 255,
        p + symbol_bytes(s).len() <= b.len(),
        b.subrange(p, p + symbol_bytes(s).len()) == symbol_bytes(s),
    ensures
        read_symbol(b, p) == Ok::<(SymbolModel, int), DecodeError>((s, p + symbol_bytes(s).len())),
{
    let nf = name_field(s.name);
    assert(b.subrange(p, p + nf.len()) =~= nf) by {
        assert forall|k: int| 0 <= k < nf.len() implies b.subrange(p, p + nf.len())[k] == nf[k] by {
            assert(b[p + k] == b.subrange(p, p + symbol_bytes(s).len())[k]);
        }
    }
    lemma_read_name(b, p, s.name);
    let q = p + nf.len();
    assert(b[q] == symbol_bytes(s)[nf.len() as int]);
    assert(b[q + 1] == symbol_bytes(s)[nf.len() as int + 1]);
    assert(b[q + 2] == symbol_bytes(s)[nf.len() as int + 2]);
    lemma_u16_round_trip(s.offset);
}

proof fn lemma_read_reloc(b: Seq<u8>, p: int, r: RelocationModel)
    requires
        0 <= p,
        encode_utf8(r.name).len() <= 255,
        p + reloc_bytes(r).len() <= b.len(),
        b.subrange(p, p + reloc_bytes(r).len()) == reloc_bytes(r),
    ensures
        read_reloc(b, p) == Ok::<(RelocationModel, int), DecodeError>((r, p + reloc_bytes(r).len())),
{
    let nf = name_field(r.name);
    assert(b[p] == reloc_bytes(r)[0]);
    assert(b[p + 1] == reloc_bytes(r)[1]);
    assert(b[p + 2] == reloc_bytes(r)[2]);
    assert(b.subrange(p + 3, p + 3 + nf.len()) =~= nf) by {
        assert forall|k: int| 0 <= k < nf.len() implies b.subrange(p + 3, p + 3 + nf.len())[k] == nf[k] by {
            assert(b[p + 3 + k] == b.subrange(p, p + reloc_bytes(r).len())[3 + k]);
        }
    }
    lemma_read_name(b, p + 3, r.name);
    lemma_u16_round_trip(r.site);
}

proof fn lemma_read_symbols(b: Seq<u8>, p: int, ss: Seq<SymbolModel>)
    requires
        0 <= p,
        forall|i: int| 0 <= i < ss.len() ==> encode_utf8(#[trigger] ss[i].name).len() <= 255,
        p + symbols_bytes(ss).len() <= b.len(),
        b.subrange(p, p + symbols_bytes(ss).len()) == symbols_bytes(ss),
    ensures
        read_symbols(b, p, ss.len()) == Ok::<(Seq<SymbolModel>, int), DecodeError>((ss, p + symbols_bytes(ss).len())),
    decreases ss.len(),
{
    if ss.len() > 0 {
        let init = ss.drop_last();
        let lead = symbols_bytes(init);
        let whole = symbols_bytes(ss);
        assert(whole == lead + symbol_bytes(ss.last()));
        assert(b.subrange(p, p + lead.len()) =~= lead) by {
            assert forall|k: int| 0 <= k < lead.len() implies b.subrange(p, p + lead.len())[k] == lead[k] by {
                assert(b[p + k] == b.subrange(p, p + whole.len())[k]);
            }
        }
        assert forall|i: int| 0 <= i < init.len() implies encode_utf8(#[trigger] init[i].name).len() <= 255 by {
            assert(init[i] == ss[i]);
        }
        lemma_read_symbols(b, p, init);
        let q = p + lead.len();
        let sb = symbol_bytes(ss.last());
        assert(b.subrange(q, q + sb.len()) =~= sb) by {
            assert forall|k: int| 0 <= k < sb.len() implies b.subrange(q, q + sb.len())[k] == sb[k] by {
                assert(b[q + k] == b.subrange(p, p + whole.len())[lead.len() + k]);
            }
        }
        assert(encode_utf8(ss[ss.len() - 1].name).len() <= 255);
        lemma_read_symbol(b, q, ss.last());
        assert(init.push(ss.last()) =~= ss);
    } else {
        assert(ss =~= Seq::<SymbolModel>::empty());
    }
}

proof fn lemma_read_relocs(b: Seq<u8>, p: int, rs: Seq<RelocationModel>)
    requires
        0 <= p,
        forall|i: int| 0 <= i < rs.len() ==> encode_utf8(#[trigger] rs[i].name).len() <= 255,
        p + relocs_bytes(rs).len() <= b.len(),
        b.subrange(p, p + relocs_bytes(rs).len()) == relocs_bytes(rs),
    ensures
        read_relocs(b, p, rs.len()) == Ok::<(Seq<RelocationModel>, int), DecodeError>((rs, p + relocs_bytes(rs).len())),
    decreases rs.len(),
{
    if rs.len() > 0 {
        let init = rs.drop_last();
        let lead = relocs_bytes(init);
        let whole = relocs_bytes(rs);
        assert(whole == lead + reloc_bytes(rs.last()));
        assert(b.subrange(p, p + lead.len()) =~= lead) by {
            assert forall|k: int| 0 <= k < lead.len() implies b.subrange(p, p + lead.len())[k] == lead[k] by {
                assert(b[p + k] == b.subrange(p, p + whole.len())[k]);
            }
        }
        assert forall|i: int| 0 <= i < init.len() implies encode_utf8(#[trigger] init[i].name).len() <= 255 by {
            assert(init[i] == rs[i]);
        }
        lemma_read_relocs(b, p, init);
        let q = p + lead.len();
        let rb = reloc_bytes(rs.last());
        assert(b.subrange(q, q + rb.len()) =~= rb) by {
            assert forall|k: int| 0 <= k < rb.len() implies b.subrange(q, q + rb.len())[k] == rb[k] by {
                assert(b[q + k] == b.subrange(p, p + whole.len())[lead.len() + k]);
            }
        }
        assert(encode_utf8(rs[rs.len() - 1].name).len() <= 255);
        lemma_read_reloc(b, q, rs.last());
        assert(init.push(rs.last()) =~= rs);
    } else {
        assert(rs =~= Seq::<RelocationModel>::empty());
    }
}

/// Reading back what `to_bytes` wrote gives the same object, for every object
/// that the format can hold.
pub proof fn lemma_round_trip(o: ObjectModel)
    requires
        representable(o),
    ensures
        decode(encode(o)) == Ok::<ObjectModel, DecodeError>(o),
{
    let b = encode(o);
    let h = header(o);
    let sb = symbols_bytes(o.symbols);
    let rb = relocs_bytes(o.relocations);
    let wb = words_le(o.words);
    lemma_words_le(o.words);
    lemma_u32_round_trip(o.words.len() as u32);
    lemma_u16_round_trip(o.symbols.len() as u16);
    lemma_u16_round_trip(o.relocations.len() as u16);
    assert(h.len() == 14);
    assert(b.subrange(0, 4) =~= magic());
    assert(b[4] == h[4] && b[5] == h[5] && b[6] == h[6] && b[7] == h[7] && b[8] == h[8] && b[9] == h[9]);
    assert(b[10] == h[10] && b[11] == h[11] && b[12] == h[12] && b[13] == h[13]);
    assert(b.subrange(14, 14 + sb.len() as int) =~= sb);
    lemma_read_symbols(b, 14, o.symbols);
    let p: int = 14 + sb.len() as int;
    assert(b.subrange(p, p + rb.len() as int) =~= rb);
    lemma_read_relocs(b, p, o.relocations);
    let q: int = p + rb.len();
    assert(b.subrange(q, q + 2 * o.words.len() as int) =~= wb);
    lemma_words_round_trip(o.words);
}

/// Once reading the symbol after the first `i` fails, reading `n > i` symbols
/// fails the same way.
/// A name read from `p` is written back as the bytes it was read from.
proof fn lemma_name_back(b: Seq<u8>, p: int)
    requires
        0 <= p,
        read_name(b, p) is Ok,
    ensures
        read_name(b, p)->Ok_0.1 <= b.len(),
        name_field(read_name(b, p)->Ok_0.0) == b.subrange(p, read_name(b, p)->Ok_0.1),
{
    let m = b[p] as int;
    let bytes = b.subrange(p + 1, p + 1 + m);
    decode_utf8_encode_utf8(bytes);
    assert(encode_utf8(decode_utf8(bytes)) == bytes);
    assert(name_field(decode_utf8(bytes)) =~= b.subrange(p, p + 1 + m));
}

/// A symbol read from `p` is written back as the bytes it was read from.
proof fn lemma_symbol_back(b: Seq<u8>, p: int)
    requires
        0 <= p,
        read_symbol(b, p) is Ok,
    ensures
        p < read_symbol(b, p)->Ok_0.1 <= b.len(),
        symbol_bytes(read_symbol(b, p)->Ok_0.0) == b.subrange(p, read_symbol(b, p)->Ok_0.1),
{
    lemma_name_back(b, p);
    let (name, q) = read_name(b, p)->Ok_0;
    lemma_le16_of(b[q], b[q + 1]);
    let sy = read_symbol(b, p)->Ok_0.0;
    assert(binding_byte(sy.binding) == b[q + 2]);
    assert(symbol_bytes(sy) =~= b.subrange(p, q + 3));
}

/// A relocation read from `p` is written back as the bytes it was read from.
proof fn lemma_reloc_back(b: Seq<u8>, p: int)
    requires
        0 <= p,
        read_reloc(b, p) is Ok,
    ensures
        p < read_reloc(b, p)->Ok_0.1 <= b.len(),
        reloc_bytes(read_reloc(b, p)->Ok_0.0) == b.subrange(p, read_reloc(b, p)->Ok_0.1),
{
    lemma_name_back(b, p + 3);
    let (name, q) = read_name(b, p + 3)->Ok_0;
    lemma_le16_of(b[p], b[p + 1]);
    let r = read_reloc(b, p)->Ok_0.0;
    assert(kind_byte(r.kind) == b[p + 2]);
    assert(reloc_bytes(r) =~= b.subrange(p, q));
}

/// Symbols read from `p` are written back as the bytes they were read from.
proof fn lemma_symbols_back(b: Seq<u8>, p: int, n: nat)
    requires
        0 <= p <= b.len(),
        read_symbols(b, p, n) is Ok,
    ensures
        p <= read_symbols(b, p, n)->Ok_0.1 <= b.len(),
        read_symbols(b, p, n)->Ok_0.0.len() == n,
        symbols_bytes(read_symbols(b, p, n)->Ok_0.0) == b.subrange(p, read_symbols(b, p, n)->Ok_0.1),
    decreases n,
{
    if n == 0 {
        assert(b.subrange(p, p) =~= Seq::<u8>::empty());
    } else {
        lemma_symbols_back(b, p, (n - 1) as nat);
        let (ss, q) = read_symbols(b, p, (n - 1) as nat)->Ok_0;
        lemma_symbol_back(b, q);
        let (sy, r) = read_symbol(b, q)->Ok_0;
        assert(ss.push(sy).drop_last() =~= ss);
        assert(b.subrange(p, r) =~= b.subrange(p, q) + b.subrange(q, r));
    }
}

/// Relocations read from `p` are written back as the bytes they were read from.
proof fn lemma_relocs_back(b: Seq<u8>, p: int, n: nat)
    requires
        0 <= p <= b.len(),
        read_relocs(b, p, n) is Ok,
    ensures
        p <= read_relocs(b, p, n)->Ok_0.1 <= b.len(),
        read_relocs(b, p, n)->Ok_0.0.len() == n,
        relocs_bytes(read_relocs(b, p, n)->Ok_0.0) == b.subrange(p, read_relocs(b, p, n)->Ok_0.1),
    decreases n,
{
    if n == 0 {
        assert(b.subrange(p, p) =~= Seq::<u8>::empty());
    } else {
        lemma_relocs_back(b, p, (n - 1) as nat);
        let (rs, q) = read_relocs(b, p, (n - 1) as nat)->Ok_0;
        lemma_reloc_back(b, q);
        let (r, t) = read_reloc(b, q)->Ok_0;
        assert(rs.push(r).drop_last() =~= rs);
        assert(b.subrange(p, t) =~= b.subrange(p, q) + b.subrange(q, t));
    }
}

/// What reads back writes back: the bytes of an object read from `b` are the
/// bytes of `b` it was read from, without what follows them.
pub proof fn lemma_read_then_write(b: Seq<u8>)
    requires
        decode(b) is Ok,
    ensures
        encode(decode(b)->Ok_0).len() <= b.len(),
        encode(decode(b)->Ok_0) == b.subrange(0, encode(decode(b)->Ok_0).len() as int),
{
    let wc = u32_of(b[6], b[7], b[8], b[9]) as int;
    let ns = u16_of(b[10], b[11]) as nat;
    let nr = u16_of(b[12], b[13]) as nat;
    lemma_symbols_back(b, 14, ns);
    let (ss, p) = read_symbols(b, 14, ns)->Ok_0;
    lemma_relocs_back(b, p, nr);
    let (rs, q) = read_relocs(b, p, nr)->Ok_0;
    let body = b.subrange(q, q + 2 * wc);
    let o = decode(b)->Ok_0;
    assert(o == ObjectModel { symbols: ss, relocations: rs, words: words_of(body) });
    lemma_words_of_round_trip(body);
    lemma_le16_of(b[4], b[5]);
    lemma_le32_of(b[6], b[7], b[8], b[9]);
    lemma_le16_of(b[10], b[11]);
    lemma_le16_of(b[12], b[13]);
    assert(o.words.len() == wc);
    assert((o.words.len() as u32) == u32_of(b[6], b[7], b[8], b[9]));
    assert((o.symbols.len() as u16) == u16_of(b[10], b[11]));
    assert((o.relocations.len() as u16) == u16_of(b[12], b[13]));
    assert(header(o) =~= b.subrange(0, 14));
    assert(encode(o) =~= b.subrange(0, q + 2 * wc));
}

proof fn lemma_symbols_stop(b: Seq<u8>, p: int, i: nat, n: nat)
    requires
        i < n,
        read_symbols(b, p, i) is Ok,
        read_symbol(b, read_symbols(b, p, i)->Ok_0.1) is Err,
    ensures
        read_symbols(b, p, n) == Err::<(Seq<SymbolModel>, int), DecodeError>(
            read_symbol(b, read_symbols(b, p, i)->Ok_0.1)->Err_0,
        ),
    decreases n - i,
{
    if n > i + 1 {
        lemma_symbols_stop(b, p, i, (n - 1) as nat);
    }
}

proof fn lemma_relocs_stop(b: Seq<u8>, p: int, i: nat, n: nat)
    requires
        i < n,
        read_relocs(b, p, i) is Ok,
        read_reloc(b, read_relocs(b, p, i)->Ok_0.1) is Err,
    ensures
        read_relocs(b, p, n) == Err::<(Seq<RelocationModel>, int), DecodeError>(
            read_reloc(b, read_relocs(b, p, i)->Ok_0.1)->Err_0,
        ),
    decreases n - i,
{
    if n > i + 1 {
        lemma_relocs_stop(b, p, i, (n - 1) as nat);
    }
}

struct Reader<'a> {
    bytes: &'a [u8],
    pos: usize,
}

impl<'a> Reader<'a> {
    fn new(bytes: &'a [u8]) -> (r: Self)
        ensures
            r.bytes@ == bytes@,
            r.pos == 0,
    {
        Reader { bytes, pos: 0 }
    }

    fn take(&mut self, len: usize) -> (r: Result<&'a [u8], ParseError>)
        requires
            old(self).pos <= old(self).bytes@.len(),
        ensures
            final(self).bytes@ == old(self).bytes@,
            final(self).pos <= final(self).bytes@.len(),
            old(self).pos + len <= old(self).bytes@.len() ==> {
                &&& r matches Ok(s)
                &&& s@ == old(self).bytes@.subrange(old(self).pos as int, old(self).pos + len)
                &&& final(self).pos == old(self).pos + len
            },
            old(self).pos + len > old(self).bytes@.len() ==> r matches Err(
                ParseError::UnexpectedEof,
            ),
    {
        let total = self.bytes.len();
        let end = match self.pos.checked_add(len) {
            Some(e) => e,
            None => return Err(ParseError::UnexpectedEof),
        };
        if end > total {
            return Err(ParseError::UnexpectedEof);
        }
        let slice = &self.bytes[self.pos..end];
        self.pos = end;
        Ok(slice)
    }

    fn u8(&mut self) -> (r: Result<u8, ParseError>)
        requires
            old(self).pos <= old(self).bytes@.len(),
        ensures
            final(self).bytes@ == old(self).bytes@,
            final(self).pos <= final(self).bytes@.len(),
            old(self).pos + 1 <= old(self).bytes@.len() ==> {
                &&& r == Ok::<u8, ParseError>(old(self).bytes@[old(self).pos as int])
                &&& final(self).pos == old(self).pos + 1
            },
            old(self).pos + 1 > old(self).bytes@.len() ==> r matches Err(ParseError::UnexpectedEof),
    {
        Ok(self.take(1)?[0])
    }

    fn u16(&mut self) -> (r: Result<u16, ParseError>)
        requires
            old(self).pos <= old(self).bytes@.len(),
        ensures
            final(self).bytes@ == old(self).bytes@,
            final(self).pos <= final(self).bytes@.len(),
            old(self).pos + 2 <= old(self).bytes@.len() ==> {
                &&& r matches Ok(v)
                &&& v == u16_of(old(self).bytes@[old(self).pos as int], old(self).bytes@[old(self).pos + 1])
                &&& final(self).pos == old(self).pos + 2
            },
            old(self).pos + 2 > old(self).bytes@.len() ==> r matches Err(ParseError::UnexpectedEof),
    {
        let b = self.take(2)?;
        Ok(b[0] as u16 + (b[1] as u16) * 256)
    }

    fn u32(&mut self) -> (r: Result<u32, ParseError>)
        requires
            old(self).pos <= old(self).bytes@.len(),
        ensures
            final(self).bytes@ == old(self).bytes@,
            final(self).pos <= final(self).bytes@.len(),
            old(self).pos + 4 <= old(self).bytes@.len() ==> {
                &&& r matches Ok(v)
                &&& v == u32_of(
                    old(self).bytes@[old(self).pos as int],
                    old(self).bytes@[old(self).pos + 1],
                    old(self).bytes@[old(self).pos + 2],
                    old(self).bytes@[old(self).pos + 3],
                )
                &&& final(self).pos == old(self).pos + 4
            },
            old(self).pos + 4 > old(self).bytes@.len() ==> r matches Err(ParseError::UnexpectedEof),
    {
        let b = self.take(4)?;
        Ok(b[0] as u32 + (b[1] as u32) * 256 + (b[2] as u32) * 65536 + (b[3] as u32) * 16777216)
    }

    fn name(&mut self) -> (r: Result<String, ParseError>)
        requires
            old(self).pos <= old(self).bytes@.len(),
        ensures
            final(self).bytes@ == old(self).bytes@,
            final(self).pos <= final(self).bytes@.len(),
            match read_name(old(self).bytes@, old(self).pos as int) {
                Ok((n, q)) => r matches Ok(s) && s@ == n && final(self).pos == q,
                Err(e) => r matches Err(er) && er@ == e,
            },
    {
        let len = self.u8()? as usize;
        let bytes = self.take(len)?;
        match string_from_utf8(bytes) {
            Some(s) => Ok(s),
            None => Err(ParseError::InvalidUtf8Name),
        }
    }

    fn symbol(&mut self) -> (r: Result<Symbol, ParseError>)
        requires
            old(self).pos <= old(self).bytes@.len(),
        ensures
            final(self).bytes@ == old(self).bytes@,
            final(self).pos <= final(self).bytes@.len(),
            match read_symbol(old(self).bytes@, old(self).pos as int) {
                Ok((s, q)) => r matches Ok(sym) && sym@ == s && final(self).pos == q,
                Err(e) => r matches Err(er) && er@ == e,
            },
    {
        let name = self.name()?;
        let offset = self.u16()?;
        let binding = match self.u8()? {
            0 => Binding::Local,
            1 => Binding::Global,
            b => return Err(ParseError::InvalidBinding(b)),
        };
        Ok(Symbol { name, offset, binding })
    }

    fn relocation(&mut self) -> (r: Result<Relocation, ParseError>)
        requires
            old(self).pos <= old(self).bytes@.len(),
        ensures
            final(self).bytes@ == old(self).bytes@,
            final(self).pos <= final(self).bytes@.len(),
            match read_reloc(old(self).bytes@, old(self).pos as int) {
                Ok((rl, q)) => r matches Ok(rel) && rel@ == rl && final(self).pos == q,
                Err(e) => r matches Err(er) && er@ == e,
            },
    {
        let site = self.u16()?;
        let kind = match self.u8()? {
            0 => RelocationKind::PcRel9,
            1 => RelocationKind::PcRel11,
            2 => RelocationKind::Abs16,
            k => return Err(ParseError::InvalidRelocKind(k)),
        };
        let name = self.name()?;
        Ok(Relocation { site, kind, name })
    }
}

impl BobjectFile {
    /// Reads a bobject file; the result is [`decode`] of the bytes.
    #[verifier::loop_isolation(false)]
    pub fn from_bytes(bytes: &[u8]) -> (r: Result<Self, ParseError>)
        ensures
            outcome(r) == decode(bytes@),
    {
        let mut r = Reader::new(bytes);
        let m = r.take(4)?;
        let magic_arr: [u8; 4] = [m[0], m[1], m[2], m[3]];
        assert(magic_arr@ =~= bytes@.subrange(0, 4));
        if !(m[0] == 0x42 && m[1] == 0x4F && m[2] == 0x42 && m[3] == 0x4A) {
            assert(bytes@.subrange(0, 4) != magic()) by {
                assert(bytes@.subrange(0, 4)[0] == m@[0]);
            }
            return Err(ParseError::BadMagic(magic_arr));
        }
        assert(bytes@.subrange(0, 4) =~= magic());
        let version = r.u16()?;
        if version != VERSION {
            return Err(ParseError::UnsupportedVersion(version));
        }
        let word_count = r.u32()?;
        if word_count > 0x10000 {
            return Err(ParseError::TooManyWords(word_count as usize - 0x10000));
        }
        let sym_count = r.u16()?;
        let reloc_count = r.u16()?;

        let mut symbols: Vec<Symbol> = Vec::new();
        assert(symbols@.map_values(|s: Symbol| s@) =~= Seq::<SymbolModel>::empty());
        let mut i: u16 = 0;
        while i < sym_count
            invariant
                r.bytes@ == bytes@,
                r.pos <= bytes@.len(),
                i <= sym_count,
                read_symbols(bytes@, 14, i as nat) == Ok::<(Seq<SymbolModel>, int), DecodeError>(
                    (symbols@.map_values(|s: Symbol| s@), r.pos as int),
                ),
            decreases sym_count - i,
        {
            let ghost before = symbols@;
            proof {
                if read_symbol(bytes@, r.pos as int) is Err {
                    lemma_symbols_stop(bytes@, 14, i as nat, sym_count as nat);
                }
            }
            let sym = r.symbol()?;
            symbols.push(sym);
            assert(symbols@.map_values(|s: Symbol| s@) =~= before.map_values(|s: Symbol| s@).push(sym@));
            i += 1;
        }

        let mut relocations: Vec<Relocation> = Vec::new();
        let ghost sym_end = r.pos as int;
        assert(relocations@.map_values(|x: Relocation| x@) =~= Seq::<RelocationModel>::empty());
        let mut j: u16 = 0;
        while j < reloc_count
            invariant
                r.bytes@ == bytes@,
                r.pos <= bytes@.len(),
                j <= reloc_count,
                read_relocs(bytes@, sym_end, j as nat) == Ok::<(Seq<RelocationModel>, int), DecodeError>(
                    (relocations@.map_values(|x: Relocation| x@), r.pos as int),
                ),
            decreases reloc_count - j,
        {
            let ghost before = relocations@;
            proof {
                if read_reloc(bytes@, r.pos as int) is Err {
                    lemma_relocs_stop(bytes@, sym_end, j as nat, reloc_count as nat);
                }
            }
            let rel = r.relocation()?;
            relocations.push(rel);
            assert(relocations@.map_values(|x: Relocation| x@) =~= before.map_values(|x: Relocation| x@).push(rel@));
            j += 1;
        }

        let ghost word_start = r.pos as int;
        let mut words: Vec<u16> = Vec::new();
        let mut k: u32 = 0;
        while k < word_count
            invariant
                r.bytes@ == bytes@,
                r.pos == word_start + 2 * k,
                r.pos <= bytes@.len(),
                k <= word_count <= 0x10000,
                words@.len() == k,
                forall|x: int| 0 <= x < k ==> #[trigger] words@[x] == u16_of(bytes@[word_start + 2 * x], bytes@[word_start + 2 * x + 1]),
            decreases word_count - k,
        {
            let w = r.u16()?;
            words.push(w);
            k += 1;
        }
        assert(words@ =~= words_of(bytes@.subrange(word_start, word_start + 2 * word_count as int)));
        Ok(BobjectFile { symbols, relocations, words })
    }

    /// Writes the file; the bytes are [`encode`] of the object. Every name must
    /// fit in the format's one-byte length.
    pub fn to_bytes(&self) -> (out: Vec<u8>)
        requires
            names_fit(self@),
        ensures
            out@ == encode(self@),
    {
        let mut out: Vec<u8> = Vec::new();
        out.push(0x42);
        out.push(0x4F);
        out.push(0x42);
        out.push(0x4A);
        push_u16(&mut out, VERSION);
        push_u32(&mut out, self.words.len() as u32);
        push_u16(&mut out, self.symbols.len() as u16);
        push_u16(&mut out, self.relocations.len() as u16);
        assert(out@ =~= header(self@));

        let mut i: usize = 0;
        while i < self.symbols.len()
            invariant
                names_fit(self@),
                i <= self.symbols@.len(),
                out@ =~= header(self@) + symbols_bytes(self@.symbols.take(i as int)),
            decreases self.symbols@.len() - i,
        {
            let sym = &self.symbols[i];
            assert(self@.symbols[i as int] == sym@);
            assert(encode_utf8(self@.symbols[i as int].name).len() <= 255);
            let ghost prev = out@;
            push_name(&mut out, sym.name.as_str());
            push_u16(&mut out, sym.offset);
            out.push(match sym.binding {
                Binding::Local => 0,
                Binding::Global => 1,
            });
            assert(self@.symbols.take(i + 1).drop_last() =~= self@.symbols.take(i as int));
            assert(out@ =~= prev + symbol_bytes(sym@));
            i += 1;
        }
        assert(self@.symbols.take(i as int) =~= self@.symbols);

        let ghost after_syms = out@;
        let mut j: usize = 0;
        while j < self.relocations.len()
            invariant
                names_fit(self@),
                j <= self.relocations@.len(),
                out@ =~= after_syms + relocs_bytes(self@.relocations.take(j as int)),
            decreases self.relocations@.len() - j,
        {
            let rel = &self.relocations[j];
            assert(self@.relocations[j as int] == rel@);
            assert(encode_utf8(self@.relocations[j as int].name).len() <= 255);
            let ghost prev = out@;
            push_u16(&mut out, rel.site);
            out.push(match rel.kind {
                RelocationKind::PcRel9 => 0,
                RelocationKind::PcRel11 => 1,
                RelocationKind::Abs16 => 2,
            });
            push_name(&mut out, rel.name.as_str());
            assert(self@.relocations.take(j + 1).drop_last() =~= self@.relocations.take(j as int));
            assert(out@ =~= prev + reloc_bytes(rel@));
            j += 1;
        }
        assert(self@.relocations.take(j as int) =~= self@.relocations);

        let ghost after_relocs = out@;
        let mut k: usize = 0;
        while k < self.words.len()
            invariant
                k <= self.words@.len(),
                out@ =~= after_relocs + words_le(self.words@.take(k as int)),
            decreases self.words@.len() - k,
        {
            push_u16(&mut out, self.words[k]);
            assert(self.words@.take(k + 1).drop_last() =~= self.words@.take(k as int));
            k += 1;
        }
        assert(self.words@.take(k as int) =~= self.words@);
        out
    }
}

fn push_u16(out: &mut Vec<u8>, v: u16)
    ensures
        final(out)@ == old(out)@ + le16(v),
{
    out.push((v % 256) as u8);
    out.push((v / 256) as u8);
    assert(final(out)@ =~= old(out)@ + le16(v));
}

fn push_u32(out: &mut Vec<u8>, v: u32)
    ensures
        final(out)@ == old(out)@ + le32(v),
{
    out.push((v % 256) as u8);
    out.push(((v / 256) % 256) as u8);
    out.push(((v / 65536) % 256) as u8);
    out.push((v / 16777216) as u8);
    assert(final(out)@ =~= old(out)@ + le32(v));
}

fn push_name(out: &mut Vec<u8>, name: &str)
    requires
        encode_utf8(name@).len() <= 255,
    ensures
        final(out)@ == old(out)@ + name_field(name@),
{
    let bytes = name.as_bytes();
    out.push(bytes.len() as u8);
    let ghost start = out@;
    let mut i: usize = 0;
    while i < bytes.len()
        invariant
            i <= bytes@.len(),
            out@ =~= start + bytes@.take(i as int),
        decreases bytes@.len() - i,
    {
        out.push(bytes[i]);
        assert(bytes@.take(i + 1) =~= bytes@.take(i as int).push(bytes@[i as int]));
        i += 1;
    }
    assert(bytes@.take(i as int) =~= bytes@);
}


/// The text of a decoding error.
pub open spec fn decode_error_text(e: DecodeError) -> Seq<char> {
    match e {
        DecodeError::UnexpectedEof => "unexpected end of file"@,
        DecodeError::BadMagic(got) => "bad magic bytes: expected "@ + byte_list(magic()) + ", got "@ + byte_list(got),
        DecodeError::UnsupportedVersion(v) => "unsupported version: "@ + decimal(v as nat),
        DecodeError::TooManyWords(extra) => "too many words: "@ + decimal(extra as nat) + " extra words"@,
        DecodeError::InvalidBinding(b) => "invalid symbol binding byte: "@ + decimal(b as nat),
        DecodeError::InvalidRelocKind(k) => "invalid relocation kind byte: "@ + decimal(k as nat),
        DecodeError::InvalidUtf8Name => "symbol/relocation name is not valid UTF-8"@,
    }
}

impl ParseError {
    /// The text of the error.
    pub fn message(&self) -> (s: String)
        ensures
            s@ == decode_error_text(self@),
    {
        let mut buf: Vec<char> = Vec::new();
        match self {
            ParseError::UnexpectedEof => push_chars(&mut buf, "unexpected end of file"),
            ParseError::BadMagic(got) => {
                push_chars(&mut buf, "bad magic bytes: expected ");
                let m: Vec<u8> = vec![0x42u8, 0x4F, 0x42, 0x4A];
                assert(m@ =~= magic());
                push_byte_list(&mut buf, m.as_slice());
                push_chars(&mut buf, ", got ");
                push_byte_list(&mut buf, got);
            },
            ParseError::UnsupportedVersion(v) => {
                push_chars(&mut buf, "unsupported version: ");
                push_decimal(&mut buf, *v as u64);
            },
            ParseError::TooManyWords(extra) => {
                push_chars(&mut buf, "too many words: ");
                push_decimal(&mut buf, *extra as u64);
                push_chars(&mut buf, " extra words");
            },
            ParseError::InvalidBinding(b) => {
                push_chars(&mut buf, "invalid symbol binding byte: ");
                push_decimal(&mut buf, *b as u64);
            },
            ParseError::InvalidRelocKind(k) => {
                push_chars(&mut buf, "invalid relocation kind byte: ");
                push_decimal(&mut buf, *k as u64);
            },
            ParseError::InvalidUtf8Name => push_chars(&mut buf, "symbol/relocation name is not valid UTF-8"),
        }
        let s = string_of_chars(buf.as_slice());
        assert(s@ =~= decode_error_text(self@));
        s
    }
}

} // verus!
