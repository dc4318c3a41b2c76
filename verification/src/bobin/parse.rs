//! Reading and writing bobinary files.
//!
//! Layout: the magic bytes `BOBIN`, a little-endian `u16` version (0), a
//! little-endian `u32` word count, then the words, each little-endian.
use vstd::prelude::*;
use crate::wire::{lemma_le16_of, lemma_le32_of, lemma_words_of_round_trip, le16, le32, u16_of, u32_of, words_le, words_of, lemma_words_le, lemma_u32_round_trip, lemma_words_round_trip};
use super::bobinary::BobinaryFile;
use crate::text::{byte_list, decimal, push_byte_list, push_decimal, string_of_chars};
use crate::boblc::archive::literalpool::push_chars;

verus! {

const VERSION: u16 = 0;

/// Why a byte sequence is not a bobinary file.
#[derive(Debug)]
pub enum ParseError {
    UnexpectedEof,
    BadMagic([u8; 5]),
    UnsupportedVersion(u16),
    TooManyWords(usize),
}

/// The mathematical form of [`ParseError`].
pub enum DecodeError {
    UnexpectedEof,
    BadMagic(Seq<u8>),
    UnsupportedVersion(u16),
    TooManyWords(int),
}

impl View for ParseError {
    type V = DecodeError;

    open spec fn view(&self) -> DecodeError {
        match self {
            ParseError::UnexpectedEof => DecodeError::UnexpectedEof,
            ParseError::BadMagic(m) => DecodeError::BadMagic(m@),
            ParseError::UnsupportedVersion(v) => DecodeError::UnsupportedVersion(*v),
            ParseError::TooManyWords(n) => DecodeError::TooManyWords(*n as int),
        }
    }
}

/// The five magic bytes, "BOBIN".
pub open spec fn magic() -> Seq<u8> {
    seq![0x42u8, 0x4Fu8, 0x42u8, 0x49u8, 0x4Eu8]
}

/// The most words a file may hold: the whole address space.
pub open spec fn max_words() -> int {
    0x10000
}

/// The bytes that `to_bytes` writes for an image of `words`.
pub open spec fn encode(words: Seq<u16>) -> Seq<u8> {
    magic() + le16(0) + le32(words.len() as u32) + words_le(words)
}

/// What `from_bytes` makes of `b`: the words of the image, or the first problem
/// met while reading it front to back. Bytes after the last word are ignored.
pub open spec fn decode(b: Seq<u8>) -> Result<Seq<u16>, DecodeError> {
    if b.len() < 5 {
        Err(DecodeError::UnexpectedEof)
    } else if b.subrange(0, 5) != magic() {
        Err(DecodeError::BadMagic(b.subrange(0, 5)))
    } else if b.len() < 7 {
        Err(DecodeError::UnexpectedEof)
    } else if u16_of(b[5], b[6]) != 0 {
        Err(DecodeError::UnsupportedVersion(u16_of(b[5], b[6])))
    } else if b.len() < 11 {
        Err(DecodeError::UnexpectedEof)
    } else {
        let n = u32_of(b[7], b[8], b[9], b[10]) as int;
        if n > max_words() {
            Err(DecodeError::TooManyWords(n - max_words()))
        } else if b.len() < 11 + 2 * n {
            Err(DecodeError::UnexpectedEof)
        } else {
            Ok(words_of(b.subrange(11, 11 + 2 * n)))
        }
    }
}

/// The outcome of `from_bytes`, by its mathematical form.
pub open spec fn outcome(r: Result<BobinaryFile, ParseError>) -> Result<Seq<u16>, DecodeError> {
    match r {
        Ok(f) => Ok(f.words@),
        Err(e) => Err(e@),
    }
}

struct Reader<'a> {
    bytes: &'a [u8],
    pos: usize,
}

impl<'a> Reader<'a> {
    fn new(bytes: &'a [u8]) -> (r: Self)
        ensures
            r.bytes@ == bytes@,
            r.pos == 0,
    {
        Reader { bytes, pos: 0 }
    }

    fn take(&mut self, len: usize) -> (r: Result<&'a [u8], ParseError>)
        requires
            old(self).pos <= old(self).bytes@.len(),
        ensures
            final(self).bytes@ == old(self).bytes@,
            final(self).pos <= final(self).bytes@.len(),
            old(self).pos + len <= old(self).bytes@.len() ==> {
                &&& r matches Ok(s)
                &&& s@ == old(self).bytes@.subrange(old(self).pos as int, old(self).pos + len)
                &&& final(self).pos == old(self).pos + len
            },
            old(self).pos + len > old(self).bytes@.len() ==> r matches Err(
                ParseError::UnexpectedEof,
            ),
    {
        let total = self.bytes.len();
        let end = match self.pos.checked_add(len) {
            Some(e) => e,
            None => return Err(ParseError::UnexpectedEof),
        };
        if end > total {
            return Err(ParseError::UnexpectedEof);
        }
        let slice = &self.bytes[self.pos..end];
        self.pos = end;
        Ok(slice)
    }

    fn u16(&mut self) -> (r: Result<u16, ParseError>)
        requires
            old(self).pos <= old(self).bytes@.len(),
        ensures
            final(self).bytes@ == old(self).bytes@,
            final(self).pos <= final(self).bytes@.len(),
            old(self).pos + 2 <= old(self).bytes@.len() ==> {
                &&& r matches Ok(v)
                &&& v == u16_of(old(self).bytes@[old(self).pos as int], old(self).bytes@[old(self).pos + 1])
                &&& final(self).pos == old(self).pos + 2
            },
            old(self).pos + 2 > old(self).bytes@.len() ==> r matches Err(ParseError::UnexpectedEof),
    {
        let b = self.take(2)?;
        Ok(b[0] as u16 + (b[1] as u16) * 256)
    }

    fn u32(&mut self) -> (r: Result<u32, ParseError>)
        requires
            old(self).pos <= old(self).bytes@.len(),
        ensures
            final(self).bytes@ == old(self).bytes@,
            final(self).pos <= final(self).bytes@.len(),
            old(self).pos + 4 <= old(self).bytes@.len() ==> {
                &&& r matches Ok(v)
                &&& v == u32_of(
                    old(self).bytes@[old(self).pos as int],
                    old(self).bytes@[old(self).pos + 1],
                    old(self).bytes@[old(self).pos + 2],
                    old(self).bytes@[old(self).pos + 3],
                )
                &&& final(self).pos == old(self).pos + 4
            },
            old(self).pos + 4 > old(self).bytes@.len() ==> r matches Err(ParseError::UnexpectedEof),
    {
        let b = self.take(4)?;
        Ok(b[0] as u32 + (b[1] as u32) * 256 + (b[2] as u32) * 65536 + (b[3] as u32) * 16777216)
    }
}

impl BobinaryFile {
    /// Reads a bobinary file; the result is [`decode`] of the bytes.
    pub fn from_bytes(bytes: &[u8]) -> (r: Result<Self, ParseError>)
        ensures
            outcome(r) == decode(bytes@),
    {
        let mut r = Reader::new(bytes);
        let m = r.take(5)?;
        let magic_arr: [u8; 5] = [m[0], m[1], m[2], m[3], m[4]];
        assert(magic_arr@ =~= bytes@.subrange(0, 5));
        if !(m[0] == 0x42 && m[1] == 0x4F && m[2] == 0x42 && m[3] == 0x49 && m[4] == 0x4E) {
            assert(bytes@.subrange(0, 5) != magic()) by {
                assert(bytes@.subrange(0, 5)[0] == m@[0]);
            }
            return Err(ParseError::BadMagic(magic_arr));
        }
        assert(bytes@.subrange(0, 5) =~= magic());
        let version = r.u16()?;
        if version != VERSION {
            return Err(ParseError::UnsupportedVersion(version));
        }
        let word_count = r.u32()?;
        if word_count > 0x10000 {
            return Err(ParseError::TooManyWords(word_count as usize - 0x10000));
        }
        let data = r.take(word_count as usize * 2)?;
        let ghost target = bytes@.subrange(11, 11 + 2 * word_count as int);
        assert(data@ == target);
        let mut words: Vec<u16> = Vec::new();
        let mut i: usize = 0;
        while i < word_count as usize
            invariant
                i <= word_count <= 0x10000,
                data@.len() == 2 * word_count,
                words@ =~= words_of(data@).take(i as int),
            decreases word_count - i,
        {
            let w = data[2 * i] as u16 + (data[2 * i + 1] as u16) * 256;
            words.push(w);
            i += 1;
        }
        assert(words@ =~= words_of(data@));
        Ok(BobinaryFile { words })
    }

    /// Writes the file; the bytes are [`encode`] of the words.
    pub fn to_bytes(&self) -> (out: Vec<u8>)
        ensures
            out@ == encode(self.words@),
    {
        let mut out: Vec<u8> = Vec::new();
        out.push(0x42);
        out.push(0x4F);
        out.push(0x42);
        out.push(0x49);
        out.push(0x4E);
        out.push((VERSION % 256) as u8);
        out.push((VERSION / 256) as u8);
        let n = self.words.len() as u32;
        out.push((n % 256) as u8);
        out.push(((n / 256) % 256) as u8);
        out.push(((n / 65536) % 256) as u8);
        out.push((n / 16777216) as u8);
        let ghost header = out@;
        assert(header =~= magic() + le16(0) + le32(self.words@.len() as u32));
        let mut i: usize = 0;
        while i < self.words.len()
            invariant
                i <= self.words@.len(),
                out@ =~= header + words_le(self.words@.take(i as int)),
            decreases self.words@.len() - i,
        {
            let w = self.words[i];
            out.push((w % 256) as u8);
            out.push((w / 256) as u8);
            assert(self.words@.take(i + 1).drop_last() =~= self.words@.take(i as int));
            i += 1;
        }
        assert(self.words@.take(i as int) =~= self.words@);
        out
    }
}

/// Reading back what `to_bytes` wrote gives the same words, for every image
/// that fits in the address space.
pub proof fn lemma_round_trip(words: Seq<u16>)
    requires
        words.len() <= max_words(),
    ensures
        decode(encode(words)) == Ok::<Seq<u16>, DecodeError>(words),
{
    let b = encode(words);
    lemma_words_le(words);
    lemma_u32_round_trip(words.len() as u32);
    assert(b.subrange(0, 5) =~= magic());
    assert(b.subrange(11, 11 + 2 * words.len() as int) =~= words_le(words));
    lemma_words_round_trip(words);
}


/// What reads back writes back: the bytes of an image read from `b` are the
/// header and the words of `b`, without what follows them.
pub proof fn lemma_read_then_write(b: Seq<u8>)
    requires
        decode(b) is Ok,
    ensures
        encode(decode(b)->Ok_0) == b.subrange(0, 11 + 2 * decode(b)->Ok_0.len() as int),
{
    let n = u32_of(b[7], b[8], b[9], b[10]) as int;
    let body = b.subrange(11, 11 + 2 * n);
    let ws = words_of(body);
    assert(decode(b)->Ok_0 == ws);
    assert(ws.len() == n);
    lemma_words_of_round_trip(body);
    lemma_le16_of(b[5], b[6]);
    lemma_le32_of(b[7], b[8], b[9], b[10]);
    assert(u16_of(b[5], b[6]) == 0);
    assert(le16(0) == seq![b[5], b[6]]);
    assert((ws.len() as u32) == u32_of(b[7], b[8], b[9], b[10]));
    assert(encode(ws) =~= b.subrange(0, 11 + 2 * n));
}

/// The text of a decoding error.
pub open spec fn decode_error_text(e: DecodeError) -> Seq<char> {
    match e {
        DecodeError::UnexpectedEof => "unexpected end of file"@,
        DecodeError::BadMagic(got) => "bad magic bytes: expected "@ + byte_list(magic()) + ", got "@ + byte_list(got),
        DecodeError::UnsupportedVersion(v) => "unsupported version: "@ + decimal(v as nat),
        DecodeError::TooManyWords(extra) => "too many words: "@ + decimal(extra as nat) + " extra words"@,
    }
}

impl ParseError {
    /// The text of the error.
    pub fn message(&self) -> (s: String)
        ensures
            s@ == decode_error_text(self@),
    {
        let mut buf: Vec<char> = Vec::new();
        match self {
            ParseError::UnexpectedEof => push_chars(&mut buf, "unexpected end of file"),
            ParseError::BadMagic(got) => {
                push_chars(&mut buf, "bad magic bytes: expected ");
                let m: Vec<u8> = vec![0x42u8, 0x4F, 0x42, 0x49, 0x4E];
                assert(m@ =~= magic());
                push_byte_list(&mut buf, m.as_slice());
                push_chars(&mut buf, ", got ");
                push_byte_list(&mut buf, got);
            },
            ParseError::UnsupportedVersion(v) => {
                push_chars(&mut buf, "unsupported version: ");
                push_decimal(&mut buf, *v as u64);
            },
            ParseError::TooManyWords(extra) => {
                push_chars(&mut buf, "too many words: ");
                push_decimal(&mut buf, *extra as u64);
                push_chars(&mut buf, " extra words");
            },
        }
        let s = string_of_chars(buf.as_slice());
        assert(s@ =~= decode_error_text(self@));
        s
    }
}

} // verus!
