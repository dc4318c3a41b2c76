//! Little-endian byte layout shared by the object and executable formats.
use vstd::prelude::*;

verus! {

/// The two bytes of `v`, least significant first.
pub open spec fn le16(v: u16) -> Seq<u8> {
    seq![(v % 256) as u8, (v / 256) as u8]
}

/// The four bytes of `v`, least significant first.
pub open spec fn le32(v: u32) -> Seq<u8> {
    seq![(v % 256) as u8, ((v / 256) % 256) as u8, ((v / 65536) % 256) as u8, (v / 16777216) as u8]
}

/// The value of the two bytes `lo`, `hi` read least significant first.
pub open spec fn u16_of(lo: u8, hi: u8) -> u16 {
    (lo + 256 * hi) as u16
}

/// The value of four bytes read least significant first.
pub open spec fn u32_of(b0: u8, b1: u8, b2: u8, b3: u8) -> u32 {
    (b0 + 256 * b1 + 65536 * b2 + 16777216 * b3) as u32
}

/// The bytes of a sequence of words, each least significant byte first.
pub open spec fn words_le(ws: Seq<u16>) -> Seq<u8>
    decreases ws.len(),
{
    if ws.len() == 0 {
        Seq::empty()
    } else {
        words_le(ws.drop_last()) + le16(ws.last())
    }
}

/// The words that a byte sequence holds, two bytes each, least significant first;
/// an odd last byte is ignored.
pub open spec fn words_of(bs: Seq<u8>) -> Seq<u16> {
    Seq::new(bs.len() / 2, |i: int| u16_of(bs[2 * i], bs[2 * i + 1]))
}

pub proof fn lemma_u16_round_trip(v: u16)
    ensures
        u16_of(le16(v)[0], le16(v)[1]) == v,
{
}

pub proof fn lemma_u32_round_trip(v: u32)
    ensures
        u32_of(le32(v)[0], le32(v)[1], le32(v)[2], le32(v)[3]) == v,
{
}

pub proof fn lemma_words_le(ws: Seq<u16>)
    ensures
        words_le(ws).len() == 2 * ws.len(),
        forall|i: int|
            0 <= i < ws.len() ==> #[trigger] words_le(ws)[2 * i] == le16(ws[i])[0] && words_le(
                ws,
            )[2 * i + 1] == le16(ws[i])[1],
    decreases ws.len(),
{
    if ws.len() > 0 {
        lemma_words_le(ws.drop_last());
    }
}

/// Reading back the bytes of a sequence of words gives the same words.
pub proof fn lemma_words_round_trip(ws: Seq<u16>)
    ensures
        words_of(words_le(ws)) == ws,
{
    lemma_words_le(ws);
    assert forall|i: int| 0 <= i < ws.len() implies #[trigger] words_of(words_le(ws))[i] == ws[i] by {
        lemma_u16_round_trip(ws[i]);
    }
    assert(words_of(words_le(ws)) =~= ws);
}

/// Writing the value two bytes hold gives the two bytes back.
pub proof fn lemma_le16_of(lo: u8, hi: u8)
    ensures
        le16(u16_of(lo, hi)) == seq![lo, hi],
{
    let v = u16_of(lo, hi);
    assert(v == lo + 256 * hi);
    assert(v % 256 == lo && v / 256 == hi) by (nonlinear_arith)
        requires
            v == lo + 256 * hi,
            lo < 256,
    ;
    assert(le16(v) =~= seq![lo, hi]);
}

/// Writing the value four bytes hold gives the four bytes back.
pub proof fn lemma_le32_of(b0: u8, b1: u8, b2: u8, b3: u8)
    ensures
        le32(u32_of(b0, b1, b2, b3)) == seq![b0, b1, b2, b3],
{
    let v = u32_of(b0, b1, b2, b3);
    assert(v == b0 + 256 * b1 + 65536 * b2 + 16777216 * b3);
    assert(v % 256 == b0 && (v / 256) % 256 == b1 && (v / 65536) % 256 == b2 && v / 16777216 == b3) by (nonlinear_arith)
        requires
            v == b0 + 256 * b1 + 65536 * b2 + 16777216 * b3,
            b0 < 256,
            b1 < 256,
            b2 < 256,
            b3 < 256,
    ;
    assert(le32(v) =~= seq![b0, b1, b2, b3]);
}

/// Writing the words that bytes of even length hold gives the bytes back.
pub proof fn lemma_words_of_round_trip(bs: Seq<u8>)
    requires
        bs.len() % 2 == 0,
    ensures
        words_le(words_of(bs)) == bs,
{
    let ws = words_of(bs);
    lemma_words_le(ws);
    assert forall|j: int| 0 <= j < bs.len() implies #[trigger] words_le(ws)[j] == bs[j] by {
        let i = j / 2;
        assert(0 <= i < ws.len());
        lemma_le16_of(bs[2 * i], bs[2 * i + 1]);
        assert(ws[i] == u16_of(bs[2 * i], bs[2 * i + 1]));
        let pair = seq![bs[2 * i], bs[2 * i + 1]];
        assert(le16(ws[i]) == pair);
        assert(pair[0] == bs[2 * i] && pair[1] == bs[2 * i + 1]);
        assert(words_le(ws)[2 * i] == le16(ws[i])[0]);
        assert(words_le(ws)[2 * i + 1] == le16(ws[i])[1]);
        if j % 2 == 0 {
            assert(j == 2 * i);
        } else {
            assert(j == 2 * i + 1);
        }
    }
    assert(words_le(ws) =~= bs);
}

} // verus!
