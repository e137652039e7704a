//! Canonical length-prefixed binary encoding of the scalar values.

use vstd::prelude::*;
use vstd::bytes::*;
use vstd::slice::slice_subrange;
use vstd::string::*;
use vstd::utf8::*;

verus! {

/// Bytes in a serialized `u8`.
pub const U8_SIZE: usize = 1;
/// Bytes in a serialized `u32`, and in every length prefix.
pub const U32_SIZE: usize = 4;
/// Bytes in a serialized `u64`.
pub const U64_SIZE: usize = 8;

/// Why a value could not be encoded or decoded.
#[derive(Debug, PartialEq, Eq, Clone, Copy, Structural)]
pub enum Error {
    /// The input ended before a required field was complete.
    EarlyEndOfStream,
    /// A tag or a field holds a value outside its defined range.
    FormattingError,
    /// Input was left over where none was expected.
    LeftOverBytes,
    /// The value is too large for its length prefix.
    OutOfMemoryError,
}

/// The outcome of decoding at the level of sequences: the value and what follows it.
pub type Parsed<T> = Result<(T, Seq<u8>), Error>;

/// Whether an executable decoding result is the one that the sequence-level decoder gives.
pub open spec fn agrees<T>(r: Result<(T, &[u8]), Error>, p: Parsed<T>) -> bool {
    match (r, p) {
        (Ok((v, rem)), Ok((w, rest))) => v == w && rem@ == rest,
        (Err(e), Err(f)) => e == f,
        _ => false,
    }
}

/// As `agrees`, for a value that is compared by its view.
pub open spec fn agrees_view<T: View>(r: Result<(T, &[u8]), Error>, p: Parsed<T::V>) -> bool {
    match (r, p) {
        (Ok((v, rem)), Ok((w, rest))) => v@ == w && rem@ == rest,
        (Err(e), Err(f)) => e == f,
        _ => false,
    }
}

/// One byte.
pub open spec fn u8_encoding(v: u8) -> Seq<u8> {
    seq![v]
}

/// The first byte, if there is one.
pub open spec fn parse_u8(s: Seq<u8>) -> Parsed<u8> {
    if s.len() < 1 {
        Err(Error::EarlyEndOfStream)
    } else {
        Ok((s[0], s.skip(1)))
    }
}

/// Four bytes, least significant first.
pub open spec fn u32_encoding(v: u32) -> Seq<u8> {
    spec_u32_to_le_bytes(v)
}

/// The number in the first four bytes, if there are four.
pub open spec fn parse_u32(s: Seq<u8>) -> Parsed<u32> {
    if s.len() < 4 {
        Err(Error::EarlyEndOfStream)
    } else {
        Ok((spec_u32_from_le_bytes(s.take(4)), s.skip(4)))
    }
}

/// Eight bytes, least significant first.
pub open spec fn u64_encoding(v: u64) -> Seq<u8> {
    spec_u64_to_le_bytes(v)
}

/// The number in the first eight bytes, if there are eight.
pub open spec fn parse_u64(s: Seq<u8>) -> Parsed<u64> {
    if s.len() < 8 {
        Err(Error::EarlyEndOfStream)
    } else {
        Ok((spec_u64_from_le_bytes(s.take(8)), s.skip(8)))
    }
}

/// A byte string: its length in four bytes, then its bytes.
pub open spec fn bytes_encoding(b: Seq<u8>) -> Seq<u8>
    recommends
        b.len() <= u32::MAX,
{
    u32_encoding(b.len() as u32) + b
}

/// A length, then that many bytes.
pub open spec fn parse_bytes(s: Seq<u8>) -> Parsed<Seq<u8>> {
    match parse_u32(s) {
        Err(e) => Err(e),
        Ok((n, rest)) => if rest.len() < n {
            Err(Error::EarlyEndOfStream)
        } else {
            Ok((rest.take(n as int), rest.skip(n as int)))
        },
    }
}

/// A text: its UTF-8 bytes as a byte string.
pub open spec fn string_encoding(t: Seq<char>) -> Seq<u8>
    recommends
        encode_utf8(t).len() <= u32::MAX,
{
    bytes_encoding(encode_utf8(t))
}

/// A byte string that is valid UTF-8, as the text it holds.
pub open spec fn parse_string(s: Seq<u8>) -> Parsed<Seq<char>> {
    match parse_bytes(s) {
        Err(e) => Err(e),
        Ok((b, rest)) => if valid_utf8(b) {
            Ok((decode_utf8(b), rest))
        } else {
            Err(Error::FormattingError)
        },
    }
}

/// The longest byte string that the length prefix admits.
pub open spec fn fits_length_prefix(len: nat) -> bool {
    len < u32::MAX - U32_SIZE
}

/// Serializes a byte.
pub fn u8_to_bytes(v: u8) -> (r: Vec<u8>)
    ensures
        r@ == u8_encoding(v),
{
    let mut out: Vec<u8> = Vec::new();
    out.push(v);
    assert(out@ =~= u8_encoding(v));
    out
}

/// Reads a byte from the front of `bytes` and hands back what follows it.
pub fn u8_from_bytes(bytes: &[u8]) -> (r: Result<(u8, &[u8]), Error>)
    ensures
        agrees(r, parse_u8(bytes@)),
{
    if bytes.len() < 1 {
        return Err(Error::EarlyEndOfStream);
    }
    let rem = slice_subrange(bytes, 1, bytes.len());
    assert(rem@ =~= bytes@.skip(1));
    Ok((bytes[0], rem))
}

/// Serializes a 32-bit number, least significant byte first.
pub fn u32_to_bytes(v: u32) -> (r: Vec<u8>)
    ensures
        r@ == u32_encoding(v),
        r@.len() == 4,
{
    u32_to_le_bytes(v)
}

/// Reads a 32-bit number from the front of `bytes` and hands back what follows it.
pub fn u32_from_bytes(bytes: &[u8]) -> (r: Result<(u32, &[u8]), Error>)
    ensures
        agrees(r, parse_u32(bytes@)),
{
    if bytes.len() < 4 {
        return Err(Error::EarlyEndOfStream);
    }
    let head = slice_subrange(bytes, 0, 4);
    let rem = slice_subrange(bytes, 4, bytes.len());
    assert(head@ =~= bytes@.take(4));
    assert(rem@ =~= bytes@.skip(4));
    Ok((u32_from_le_bytes(head), rem))
}

/// Serializes a 64-bit number, least significant byte first.
pub fn u64_to_bytes(v: u64) -> (r: Vec<u8>)
    ensures
        r@ == u64_encoding(v),
        r@.len() == 8,
{
    u64_to_le_bytes(v)
}

/// Reads a 64-bit number from the front of `bytes` and hands back what follows it.
pub fn u64_from_bytes(bytes: &[u8]) -> (r: Result<(u64, &[u8]), Error>)
    ensures
        agrees(r, parse_u64(bytes@)),
{
    if bytes.len() < 8 {
        return Err(Error::EarlyEndOfStream);
    }
    let head = slice_subrange(bytes, 0, 8);
    let rem = slice_subrange(bytes, 8, bytes.len());
    assert(head@ =~= bytes@.take(8));
    assert(rem@ =~= bytes@.skip(8));
    Ok((u64_from_le_bytes(head), rem))
}

/// Appends the items of a slice to a vector.
pub fn append_slice(out: &mut Vec<u8>, data: &[u8])
    ensures
        final(out)@ == old(out)@ + data@,
{
    let ghost before = out@;
    let mut i: usize = 0;
    while i < data.len()
        invariant
            i <= data.len(),
            out@ == before + data@.take(i as int),
        decreases data.len() - i,
    {
        out.push(data[i]);
        assert(data@.take(i + 1) =~= data@.take(i as int).push(data@[i as int]));
        assert(out@ =~= before + data@.take(i + 1));
        i = i + 1;
    }
    assert(data@.take(i as int) =~= data@);
}

/// Copies a slice into a vector of its own.
pub fn copy_slice(data: &[u8]) -> (r: Vec<u8>)
    ensures
        r@ == data@,
{
    let mut out: Vec<u8> = Vec::new();
    append_slice(&mut out, data);
    assert(out@ =~= data@);
    out
}

/// Serializes a byte string, unless it is too long for its length prefix.
pub fn bytes_to_bytes(data: &[u8]) -> (r: Result<Vec<u8>, Error>)
    ensures
        fits_length_prefix(data@.len()) <==> r is Ok,
        r is Ok ==> r->Ok_0@ == bytes_encoding(data@),
        r is Err ==> r->Err_0 == Error::OutOfMemoryError,
{
    if data.len() >= u32::MAX as usize - U32_SIZE {
        return Err(Error::OutOfMemoryError);
    }
    let mut out = u32_to_bytes(data.len() as u32);
    append_slice(&mut out, data);
    Ok(out)
}

/// Reads a byte string from the front of `bytes` and hands back what follows it.
pub fn bytes_from_bytes(bytes: &[u8]) -> (r: Result<(Vec<u8>, &[u8]), Error>)
    ensures
        agrees_view(r, parse_bytes(bytes@)),
{
    let (n, rest) = match u32_from_bytes(bytes) {
        Ok(p) => p,
        Err(e) => { return Err(e); },
    };
    if rest.len() < n as usize {
        return Err(Error::EarlyEndOfStream);
    }
    let body = slice_subrange(rest, 0, n as usize);
    let rem = slice_subrange(rest, n as usize, rest.len());
    assert(body@ =~= rest@.take(n as int));
    assert(rem@ =~= rest@.skip(n as int));
    Ok((copy_slice(body), rem))
}

/// std's `String::from_utf8`: the text that the bytes hold, if they are valid UTF-8, and
/// nothing otherwise.
#[verifier::external_body]
fn string_from_utf8(bytes: Vec<u8>) -> (r: Option<String>)
    ensures
        r is Some <==> valid_utf8(bytes@),
        r is Some ==> r->0@ == decode_utf8(bytes@),
{
    String::from_utf8(bytes).ok()
}

/// Serializes a text as its UTF-8 bytes, unless they are too many for the length prefix.
pub fn string_to_bytes(text: &str) -> (r: Result<Vec<u8>, Error>)
    ensures
        fits_length_prefix(encode_utf8(text@).len()) <==> r is Ok,
        r is Ok ==> r->Ok_0@ == string_encoding(text@),
        r is Err ==> r->Err_0 == Error::OutOfMemoryError,
{
    bytes_to_bytes(text.as_bytes())
}

/// Reads a text from the front of `bytes` and hands back what follows it. Bytes that are no
/// UTF-8 are a formatting error.
pub fn string_from_bytes(bytes: &[u8]) -> (r: Result<(String, &[u8]), Error>)
    ensures
        agrees_view(r, parse_string(bytes@)),
{
    let (raw, rest) = match bytes_from_bytes(bytes) {
        Ok(p) => p,
        Err(e) => {
            return Err(e);
        },
    };
    match string_from_utf8(raw) {
        Some(text) => Ok((text, rest)),
        None => Err(Error::FormattingError),
    }
}

/// The value of a decoding that must use up its input: left-over bytes are an error.
pub fn expect_end<T>(decoded: Result<(T, &[u8]), Error>) -> (r: Result<T, Error>)
    ensures
        r == match decoded {
            Ok((v, rest)) => if rest@.len() == 0 {
                Ok::<T, Error>(v)
            } else {
                Err::<T, Error>(Error::LeftOverBytes)
            },
            Err(e) => Err::<T, Error>(e),
        },
{
    match decoded {
        Ok((v, rest)) => if rest.len() == 0 {
            Ok(v)
        } else {
            Err(Error::LeftOverBytes)
        },
        Err(e) => Err(e),
    }
}

/// Decoding the encoding of a byte gives it back, with what followed untouched.
pub proof fn u8_round_trip(v: u8, rest: Seq<u8>)
    ensures
        parse_u8(u8_encoding(v) + rest) == Ok::<(u8, Seq<u8>), Error>((v, rest)),
{
    assert((u8_encoding(v) + rest).skip(1) =~= rest);
}

/// Decoding the encoding of a 32-bit number gives it back, with what followed untouched.
pub proof fn u32_round_trip(v: u32, rest: Seq<u8>)
    ensures
        u32_encoding(v).len() == 4,
        parse_u32(u32_encoding(v) + rest) == Ok::<(u32, Seq<u8>), Error>((v, rest)),
{
    lemma_auto_spec_u32_to_from_le_bytes();
    let s = u32_encoding(v) + rest;
    assert(s.take(4) =~= u32_encoding(v));
    assert(s.skip(4) =~= rest);
}

/// Decoding the encoding of a 64-bit number gives it back, with what followed untouched.
pub proof fn u64_round_trip(v: u64, rest: Seq<u8>)
    ensures
        u64_encoding(v).len() == 8,
        parse_u64(u64_encoding(v) + rest) == Ok::<(u64, Seq<u8>), Error>((v, rest)),
{
    lemma_auto_spec_u64_to_from_le_bytes();
    let s = u64_encoding(v) + rest;
    assert(s.take(8) =~= u64_encoding(v));
    assert(s.skip(8) =~= rest);
}

/// Decoding the encoding of a byte string gives it back, with what followed untouched.
pub proof fn bytes_round_trip(b: Seq<u8>, rest: Seq<u8>)
    requires
        b.len() <= u32::MAX,
    ensures
        parse_bytes(bytes_encoding(b) + rest) == Ok::<(Seq<u8>, Seq<u8>), Error>((b, rest)),
{
    let n = b.len() as u32;
    u32_round_trip(n, b + rest);
    assert(bytes_encoding(b) + rest =~= u32_encoding(n) + (b + rest));
    assert((b + rest).take(n as int) =~= b);
    assert((b + rest).skip(n as int) =~= rest);
}

/// Decoding the encoding of a text gives it back, with what followed untouched.
pub proof fn string_round_trip(t: Seq<char>, rest: Seq<u8>)
    requires
        encode_utf8(t).len() <= u32::MAX,
    ensures
        parse_string(string_encoding(t) + rest) == Ok::<(Seq<char>, Seq<u8>), Error>((t, rest)),
{
    bytes_round_trip(encode_utf8(t), rest);
    encode_utf8_valid_utf8(t);
    encode_utf8_decode_utf8(t);
}

} // verus!
