//! Text helpers over `str` and `String`, specified by their character sequences.
use vstd::prelude::*;
use vstd::utf8::{decode_utf8, encode_utf8, valid_utf8, encode_utf8_decode_utf8};

verus! {

/// `String::from_utf8`: the string that `bytes` encode, or `None` where they are
/// not UTF-8. Its documentation states that it fails exactly on invalid UTF-8 and
/// otherwise holds the decoded characters.
#[verifier::external_body]
pub(crate) fn string_from_utf8(bytes: &[u8]) -> (r: Option<String>)
    ensures
        r is Some <==> valid_utf8(bytes@),
        r matches Some(s) ==> s@ == decode_utf8(bytes@),
{
    String::from_utf8(bytes.to_vec()).ok()
}

/// `String::from_iter` over characters: a string holding exactly `chars`.
#[verifier::external_body]
pub(crate) fn string_of_chars(chars: &[char]) -> (s: String)
    ensures
        s@ == chars@,
{
    chars.iter().collect()
}

/// What `str::to_lowercase` makes of a string: Unicode's lowercase mapping,
/// applied character by character, which may change the length.
pub uninterp spec fn lowercase(s: Seq<char>) -> Seq<char>;

/// Whether every character of `s` is ASCII.
pub open spec fn all_ascii(s: Seq<char>) -> bool {
    forall|i: int| 0 <= i < s.len() ==> (s[i] as u32) < 128
}

/// ASCII's lowercase of a character: `A` to `Z` become `a` to `z`, the
/// others stay.
pub open spec fn ascii_lower(c: char) -> char {
    if 'A' <= c && c <= 'Z' { ((c as u32) + 32) as char } else { c }
}

/// `str::to_lowercase`: the lowercase form of `s`. Of Unicode's mapping only
/// its ASCII part is stated, which takes `A` to `Z` to `a` to `z`, one for
/// one, and keeps the other ASCII characters; the result is a function of
/// `s` alone.
#[verifier::external_body]
pub(crate) fn to_lowercase(s: &str) -> (r: String)
    ensures
        r@ == lowercase(s@),
        all_ascii(s@) ==> r@ == s@.map_values(|c: char| ascii_lower(c)),
{
    s.to_lowercase()
}

/// Unicode's `White_Space` property, as `char::is_whitespace` reads it:
/// tab to carriage return, space, next line, no-break space, ogham space
/// mark, the spaces from en quad to hair space, line and paragraph
/// separators, narrow no-break space, medium mathematical space and
/// ideographic space.
pub open spec fn unicode_whitespace(c: char) -> bool {
    let v = c as u32;
    (0x09 <= v && v <= 0x0D) || v == 0x20 || v == 0x85 || v == 0xA0 || v == 0x1680
        || (0x2000 <= v && v <= 0x200A) || v == 0x2028 || v == 0x2029 || v == 0x202F
        || v == 0x205F || v == 0x3000
}

/// Whether `c` has the `White_Space` property, as `char::is_whitespace` tells.
pub(crate) fn is_whitespace(c: char) -> (r: bool)
    ensures
        r == unicode_whitespace(c),
{
    let v = c as u32;
    (0x09 <= v && v <= 0x0D) || v == 0x20 || v == 0x85 || v == 0xA0 || v == 0x1680
        || (0x2000 <= v && v <= 0x200A) || v == 0x2028 || v == 0x2029 || v == 0x202F
        || v == 0x205F || v == 0x3000
}

/// Unicode's `Alphabetic` property, as `char::is_alphabetic` reads it.
pub uninterp spec fn unicode_alphabetic(c: char) -> bool;

/// Unicode's alphabetic-or-numeric test, as `char::is_alphanumeric` reads it.
pub uninterp spec fn unicode_alphanumeric(c: char) -> bool;

/// `char::is_alphabetic`: whether `c` has the `Alphabetic` property. Its
/// documentation also says `is_alphanumeric` holds of every alphabetic char;
/// of the ASCII characters, the alphabetic ones are the letters.
#[verifier::external_body]
pub(crate) fn is_alphabetic(c: char) -> (r: bool)
    ensures
        r == unicode_alphabetic(c),
        r ==> unicode_alphanumeric(c),
        (c as u32) < 128 ==> (r <==> (('a' <= c && c <= 'z') || ('A' <= c && c <= 'Z'))),
{
    c.is_alphabetic()
}

/// `char::is_alphanumeric`: whether `c` is alphabetic or numeric. Of the
/// ASCII characters, those are the letters and the digits.
#[verifier::external_body]
pub(crate) fn is_alphanumeric(c: char) -> (r: bool)
    ensures
        r == unicode_alphanumeric(c),
        (c as u32) < 128 ==> (r <==> (('a' <= c && c <= 'z') || ('A' <= c && c <= 'Z') || ('0' <= c && c <= '9'))),
{
    c.is_alphanumeric()
}

/// What `str`'s `Debug` writes for a string: the string between double
/// quotes, with quotes, backslashes and characters that are not printable
/// escaped by Unicode's tables.
pub uninterp spec fn str_debug(s: Seq<char>) -> Seq<char>;

/// `<str as Debug>::fmt`: the string quoted and escaped, as `{:?}` writes it.
/// Nothing is stated of the escaping; the result is a function of `s` alone.
#[verifier::external_body]
pub(crate) fn debug_str(s: &str) -> (r: String)
    ensures
        r@ == str_debug(s@),
{
    format!("{s:?}")
}

/// The characters of `s`, in order.
pub fn chars_of(s: &str) -> (v: Vec<char>)
    ensures
        v@ == s@,
{
    let mut v: Vec<char> = Vec::new();
    for c in it: s.chars()
        invariant
            v@ == it.seq().take(it.index() as int),
            it.seq() == s@,
    {
        v.push(c);
    }
    v
}

/// Whether two strings hold the same characters.
pub fn str_eq(a: &str, b: &str) -> (r: bool)
    ensures
        r == (a@ == b@),
{
    let ab = a.as_bytes();
    let bb = b.as_bytes();
    proof {
        encode_utf8_decode_utf8(a@);
        encode_utf8_decode_utf8(b@);
    }
    if ab.len() != bb.len() {
        return false;
    }
    let mut i: usize = 0;
    while i < ab.len()
        invariant
            ab@ == encode_utf8(a@),
            bb@ == encode_utf8(b@),
            ab@.len() == bb@.len(),
            i <= ab@.len(),
            forall|j: int| 0 <= j < i ==> ab@[j] == bb@[j],
        decreases ab@.len() - i,
    {
        if ab[i] != bb[i] {
            return false;
        }
        i += 1;
    }
    assert(ab@ =~= bb@);
    true
}


/// The value of a digit character in any radix up to 36: `0`-`9`, then the
/// letters in either case; 99 for anything else.
pub open spec fn digit_value(c: char) -> int {
    let u = c as u32;
    if 0x30 <= u <= 0x39 {
        u - 0x30
    } else if 0x61 <= u <= 0x7A {
        u - 0x61 + 10
    } else if 0x41 <= u <= 0x5A {
        u - 0x41 + 10
    } else {
        99
    }
}

/// The value of a run of digits, most significant first.
pub open spec fn digits_value(ds: Seq<char>, radix: int) -> int
    decreases ds.len(),
{
    if ds.len() == 0 {
        0
    } else {
        digits_value(ds.drop_last(), radix) * radix + digit_value(ds.last())
    }
}

/// Whether every character of `ds` is a digit of `radix`.
pub open spec fn all_digits(ds: Seq<char>, radix: int) -> bool {
    forall|k: int| 0 <= k < ds.len() ==> #[trigger] digit_value(ds[k]) < radix
}

/// What `i64::from_str_radix` makes of `s`: an optional `+` or `-`, then one or
/// more digits of `radix`, whose value must fit in an `i64`.
pub open spec fn parse_int_spec(s: Seq<char>, radix: int) -> Option<i64> {
    let neg = s.len() > 0 && s[0] == '-';
    let body = if s.len() > 0 && (s[0] == '-' || s[0] == '+') { s.drop_first() } else { s };
    let v = if neg { -digits_value(body, radix) } else { digits_value(body, radix) };
    if body.len() == 0 || !all_digits(body, radix) || v < i64::MIN || v > i64::MAX {
        None
    } else {
        Some(v as i64)
    }
}

proof fn lemma_digits_value_grows(ds: Seq<char>, radix: int, j: int)
    requires
        2 <= radix,
        all_digits(ds, radix),
        0 <= j <= ds.len(),
    ensures
        0 <= digits_value(ds.take(j), radix) <= digits_value(ds, radix),
    decreases ds.len(),
{
    if ds.len() > 0 {
        let init = ds.drop_last();
        assert forall|k: int| 0 <= k < init.len() implies #[trigger] digit_value(init[k]) < radix by {
            assert(init[k] == ds[k]);
        }
        if j == ds.len() {
            assert(ds.take(j) =~= ds);
            lemma_digits_value_grows(init, radix, init.len() as int);
            assert(init.take(init.len() as int) =~= init);
        } else {
            lemma_digits_value_grows(init, radix, j);
            assert(init.take(j) =~= ds.take(j));
            lemma_digits_value_grows(init, radix, init.len() as int);
            assert(init.take(init.len() as int) =~= init);
        }
        let v = digits_value(init, radix);
        assert(v * radix + digit_value(ds.last()) >= v) by (nonlinear_arith)
            requires v >= 0, radix >= 2, digit_value(ds.last()) >= 0;
    }
}

/// The value of a digit character, or 99.
fn digit_of(c: char) -> (d: u32)
    ensures
        d == digit_value(c),
{
    let u = c as u32;
    if 0x30 <= u && u <= 0x39 {
        u - 0x30
    } else if 0x61 <= u && u <= 0x7A {
        u - 0x61 + 10
    } else if 0x41 <= u && u <= 0x5A {
        u - 0x41 + 10
    } else {
        99
    }
}

/// `i64::from_str_radix` on a string of characters: an optional sign and one
/// or more digits of `radix`, or `None`.
pub fn parse_int(s: &[char], radix: u32) -> (r: Option<i64>)
    requires
        2 <= radix <= 36,
    ensures
        r == parse_int_spec(s@, radix as int),
{
    let neg = s.len() > 0 && s[0] == '-';
    let start: usize = if s.len() > 0 && (s[0] == '-' || s[0] == '+') { 1 } else { 0 };
    let ghost body = if s@.len() > 0 && (s@[0] == '-' || s@[0] == '+') { s@.drop_first() } else { s@ };
    assert(body =~= s@.skip(start as int));
    if start == s.len() {
        return None;
    }
    let limit: i128 = 0x8000_0000_0000_0000;
    let mut acc: i128 = 0;
    let mut k: usize = start;
    while k < s.len()
        invariant
            start <= k <= s@.len(),
            body =~= s@.skip(start as int),
            body == (if s@.len() > 0 && (s@[0] == '-' || s@[0] == '+') { s@.drop_first() } else { s@ }),
            neg == (s@.len() > 0 && s@[0] == '-'),
            2 <= radix <= 36,
            limit == 0x8000_0000_0000_0000,
            0 <= acc <= limit,
            acc == digits_value(body.take(k - start), radix as int),
            forall|j: int| 0 <= j < k - start ==> #[trigger] digit_value(body[j]) < radix,
        decreases s@.len() - k,
    {
        let d = digit_of(s[k]);
        assert(body[k - start] == s@[k as int]);
        if d >= radix {
            assert(digit_value(body[k - start]) >= radix);
            return None;
        }
        assert(body.take(k - start + 1).drop_last() =~= body.take(k - start));
        assert(acc * (radix as i128) + (d as i128) <= 0x8000_0000_0000_0000 * 36 + 36) by (nonlinear_arith)
            requires 0 <= acc <= 0x8000_0000_0000_0000, radix <= 36, d < radix;
        acc = acc * (radix as i128) + (d as i128);
        k += 1;
        if acc > limit {
            proof {
                if all_digits(body, radix as int) {
                    lemma_digits_value_grows(body, radix as int, k - start);
                }
            }
            return None;
        }
    }
    assert(body.take(k - start) =~= body);
    let v: i128 = if neg { -acc } else { acc };
    if v < -0x8000_0000_0000_0000 || v > 0x7FFF_FFFF_FFFF_FFFF {
        return None;
    }
    Some(v as i64)
}


/// The decimal digit character for `d` below ten.
pub open spec fn digit_char(d: nat) -> char {
    ((d + 0x30) as u32) as char
}

/// The decimal numeral of `n`, without leading zeros.
pub open spec fn decimal(n: nat) -> Seq<char>
    decreases n,
{
    if n < 10 {
        seq![digit_char(n)]
    } else {
        decimal(n / 10).push(digit_char(n % 10))
    }
}

/// The decimal numeral of a signed number: a `-` before the numeral of a
/// negative number's magnitude.
pub open spec fn signed_decimal(v: int) -> Seq<char> {
    if v < 0 {
        seq!['-'] + decimal((-v) as nat)
    } else {
        decimal(v as nat)
    }
}

/// The character of a decimal digit.
fn digit_to_char(d: u64) -> (c: char)
    requires
        d < 10,
    ensures
        c == digit_char(d as nat),
{
    match d {
        0 => '0',
        1 => '1',
        2 => '2',
        3 => '3',
        4 => '4',
        5 => '5',
        6 => '6',
        7 => '7',
        8 => '8',
        _ => '9',
    }
}

/// The decimal numeral of `n`, as the `Display` of an unsigned integer writes it.
pub fn u64_decimal(n: u64) -> (r: Vec<char>)
    ensures
        r@ == decimal(n as nat),
{
    let mut rev: Vec<char> = Vec::new();
    let mut m: u64 = n;
    let ghost mut tail: Seq<char> = Seq::empty();
    assert(decimal(n as nat) =~= decimal(m as nat) + tail);
    while m >= 10
        invariant
            decimal(n as nat) == decimal(m as nat) + tail,
            rev@ == tail.reverse(),
        decreases m,
    {
        let c = digit_to_char(m % 10);
        rev.push(c);
        proof {
            let t2 = seq![c] + tail;
            assert(decimal(m as nat) == decimal((m / 10) as nat).push(c));
            assert(decimal(n as nat) =~= decimal((m / 10) as nat) + t2);
            assert(rev@ =~= t2.reverse());
            tail = t2;
        }
        m = m / 10;
    }
    let c = digit_to_char(m);
    rev.push(c);
    proof {
        let t2 = seq![c] + tail;
        assert(decimal(n as nat) =~= t2);
        assert(rev@ =~= t2.reverse());
        tail = t2;
    }
    let mut out: Vec<char> = Vec::new();
    let mut k: usize = rev.len();
    while k > 0
        invariant
            k <= rev@.len(),
            out@ == rev@.subrange(k as int, rev@.len() as int).reverse(),
        decreases k,
    {
        k -= 1;
        out.push(rev[k]);
        assert(out@ =~= rev@.subrange(k as int, rev@.len() as int).reverse());
    }
    assert(rev@.subrange(0, rev@.len() as int) =~= rev@);
    assert(tail.reverse().reverse() =~= tail);
    out
}

/// The decimal numeral of a signed number, as the `Display` of `i64` writes it.
pub fn i64_decimal(v: i64) -> (r: Vec<char>)
    ensures
        r@ == signed_decimal(v as int),
{
    if v < 0 {
        let mag: u64 = if v == i64::MIN { 0x8000_0000_0000_0000 } else { (-v) as u64 };
        let digits = u64_decimal(mag);
        let mut out: Vec<char> = vec!['-'];
        let mut k: usize = 0;
        while k < digits.len()
            invariant
                k <= digits@.len(),
                out@ == seq!['-'] + digits@.take(k as int),
            decreases digits@.len() - k,
        {
            out.push(digits[k]);
            assert(out@ =~= seq!['-'] + digits@.take(k + 1));
            k += 1;
        }
        assert(digits@.take(digits@.len() as int) =~= digits@);
        out
    } else {
        u64_decimal(v as u64)
    }
}


/// Appends the decimal numeral of `n`.
pub fn push_decimal(buf: &mut Vec<char>, n: u64)
    ensures
        final(buf)@ == old(buf)@ + decimal(n as nat),
{
    let d = u64_decimal(n);
    let ghost b0 = buf@;
    let mut k: usize = 0;
    while k < d.len()
        invariant
            k <= d@.len(),
            buf@ == b0 + d@.take(k as int),
        decreases d@.len() - k,
    {
        buf.push(d[k]);
        assert(buf@ =~= b0 + d@.take(k + 1));
        k += 1;
    }
    assert(d@.take(d@.len() as int) =~= d@);
}

/// The decimal numerals of some bytes, separated by commas and spaces.
pub open spec fn byte_items(bs: Seq<u8>) -> Seq<char>
    decreases bs.len(),
{
    if bs.len() == 0 {
        Seq::empty()
    } else if bs.len() == 1 {
        decimal(bs[0] as nat)
    } else {
        byte_items(bs.drop_last()) + seq![',', ' '] + decimal(bs.last() as nat)
    }
}

/// Some bytes as a bracketed list, the way `Debug` shows a byte array.
pub open spec fn byte_list(bs: Seq<u8>) -> Seq<char> {
    seq!['\x5b'] + byte_items(bs) + seq!['\x5d']
}

/// Appends some bytes as a bracketed list.
pub fn push_byte_list(buf: &mut Vec<char>, bs: &[u8])
    ensures
        final(buf)@ == old(buf)@ + byte_list(bs@),
{
    let ghost b0 = buf@;
    buf.push('\x5b');
    let mut k: usize = 0;
    assert(bs@.take(0) =~= Seq::<u8>::empty());
    while k < bs.len()
        invariant
            k <= bs@.len(),
            buf@ == b0 + seq!['\x5b'] + byte_items(bs@.take(k as int)),
        decreases bs@.len() - k,
    {
        let ghost before = buf@;
        if k > 0 {
            buf.push(',');
            buf.push(' ');
        }
        push_decimal(buf, bs[k] as u64);
        proof {
            let t = bs@.take(k + 1);
            assert(t.drop_last() =~= bs@.take(k as int));
            assert(t.last() == bs@[k as int]);
            if k == 0 {
                assert(buf@ =~= b0 + seq!['\x5b'] + byte_items(t));
            } else {
                assert(buf@ =~= b0 + seq!['\x5b'] + byte_items(t));
            }
        }
        k += 1;
    }
    buf.push('\x5d');
    assert(bs@.take(bs@.len() as int) =~= bs@);
    assert(buf@ =~= b0 + byte_list(bs@));
}

} // verus!
