//! The archived form of text: a header of offset and length that points at
//! the UTF-8 bytes.

use super::adapter::{holds, ArchiveWith};
use super::error::{DecodeError, EncodeError};
use super::layout::{
    get_i32, get_u32, i32_at, i32_le, lemma_i32_le, lemma_u32_le, put_bytes, put_i32, put_u32,
    u32_at, u32_le, MAX_ARCHIVE_LEN,
};
use crate::model::text::{CountryCode, Username};
use vstd::prelude::*;
use vstd::slice::slice_subrange;
use vstd::string::StringSliceAdditionalSpecFns;
use vstd::utf8::{
    decode_utf8, encode_utf8, encode_utf8_decode_utf8, encode_utf8_valid_utf8, valid_utf8,
};

verus! {

broadcast use vstd::slice::group_slice_axioms;

/// Where the bytes of a text went.
#[derive(Debug, Clone, Copy, PartialEq, Eq, Structural)]
pub struct StringResolver {
    /// The position of the first byte of the text.
    pub pos: usize,
}

/// The header of the text `text` for position `pos`: the distance from the
/// header to the bytes of the text, then the number of those bytes.
pub open spec fn text_header(text: Seq<char>, pos: int, resolver: StringResolver) -> Seq<u8> {
    i32_le((resolver.pos - pos) as i32) + u32_le(encode_utf8(text).len() as u32)
}

/// Whether the bytes of `text`, written at the position that `resolver`
/// names, end within the limit.
pub open spec fn text_paired(text: Seq<char>, resolver: StringResolver) -> bool {
    resolver.pos + encode_utf8(text).len() <= MAX_ARCHIVE_LEN
}

/// The text whose header is at position `pos` of `buf`.
///
/// `CorruptLength` where the header or the span it describes does not lie
/// within `buf`, or where the span is not well-formed UTF-8.
pub open spec fn decode_text(buf: Seq<u8>, pos: int) -> Result<Seq<char>, DecodeError> {
    if pos < 0 || pos + 8 > buf.len() {
        Err(DecodeError::CorruptLength)
    } else {
        let at = pos + i32_at(buf, pos);
        let len = u32_at(buf, pos + 4) as int;
        if at < 0 || at + len > buf.len() {
            Err(DecodeError::CorruptLength)
        } else if !valid_utf8(buf.subrange(at, at + len)) {
            Err(DecodeError::CorruptLength)
        } else {
            Ok(decode_utf8(buf.subrange(at, at + len)))
        }
    }
}

/// A text header has eight bytes.
pub proof fn lemma_text_header_len(text: Seq<char>, pos: int, resolver: StringResolver)
    ensures
        text_header(text, pos, resolver).len() == 8,
{
    lemma_i32_le((resolver.pos - pos) as i32);
    lemma_u32_le(encode_utf8(text).len() as u32);
}

/// A buffer that holds the bytes of `text` at `start`, and at `pos` the
/// header that points there, decodes at `pos` to `text`.
pub proof fn lemma_text_round_trip(text: Seq<char>, start: int, pos: int, buf: Seq<u8>)
    requires
        buf.len() <= MAX_ARCHIVE_LEN,
        0 <= start <= usize::MAX,
        holds(buf, start, encode_utf8(text)),
        holds(buf, pos, text_header(text, pos, StringResolver { pos: start as usize })),
    ensures
        decode_text(buf, pos) == Ok::<Seq<char>, DecodeError>(text),
{
    let bytes = encode_utf8(text);
    let offset = (start - pos) as i32;
    let len = bytes.len() as u32;
    let header = text_header(text, pos, StringResolver { pos: start as usize });
    lemma_i32_le(offset);
    lemma_u32_le(len);
    assert(buf.subrange(pos, pos + 4) =~= header.subrange(0, 4));
    assert(header.subrange(0, 4) =~= i32_le(offset));
    assert(buf.subrange(pos + 4, pos + 8) =~= header.subrange(4, 8));
    assert(header.subrange(4, 8) =~= u32_le(len));
    assert(i32_at(buf, pos) == offset);
    assert(u32_at(buf, pos + 4) == len);
    encode_utf8_valid_utf8(text);
    encode_utf8_decode_utf8(text);
}

/// Calls `core::str::from_utf8`. The contract claims what that function
/// documents: it succeeds exactly on well-formed UTF-8, and the text it hands
/// back holds the characters that the bytes encode.
#[verifier::external_body]
fn str_from_utf8<'a>(bytes: &'a [u8]) -> (r: Option<&'a str>)
    ensures
        r is Some <==> valid_utf8(bytes@),
        r matches Some(text) ==> text@ == decode_utf8(bytes@),
{
    core::str::from_utf8(bytes).ok()
}

/// Appends the bytes of `text` to `buf` and returns where they start. Fails,
/// and leaves `buf` as it was, exactly when `buf` would grow beyond
/// [`MAX_ARCHIVE_LEN`].
pub fn serialize_from_str(text: &str, buf: &mut Vec<u8>) -> (r: Result<StringResolver, EncodeError>)
    ensures
        match r {
            Ok(resolver) => {
                &&& final(buf)@ == old(buf)@ + encode_utf8(text@)
                &&& final(buf)@.len() <= MAX_ARCHIVE_LEN
                &&& resolver.pos == old(buf)@.len()
            },
            Err(e) => {
                &&& final(buf)@ == old(buf)@
                &&& old(buf)@.len() + encode_utf8(text@).len() > MAX_ARCHIVE_LEN
            },
        },
{
    let bytes = text.as_bytes();
    let pos: usize = buf.len();
    if pos > MAX_ARCHIVE_LEN || bytes.len() > MAX_ARCHIVE_LEN - pos {
        Err(EncodeError::OutOfSpace)
    } else {
        put_bytes(buf, bytes);
        Ok(StringResolver { pos })
    }
}

/// Appends to `out` the header of `text` for position `pos`.
pub fn resolve_from_str(text: &str, pos: usize, resolver: StringResolver, out: &mut Vec<u8>)
    requires
        text_paired(text@, resolver),
        pos + 8 <= MAX_ARCHIVE_LEN,
    ensures
        final(out)@ == old(out)@ + text_header(text@, pos as int, resolver),
{
    let offset: i64 = resolver.pos as i64 - pos as i64;
    let len: usize = text.as_bytes().len();
    put_i32(out, offset as i32);
    put_u32(out, len as u32);
    assert(out@ =~= old(out)@ + text_header(text@, pos as int, resolver));
}

/// Reads in place the text whose header is at position `pos` of `buf`.
pub fn archived_str<'a>(buf: &'a [u8], pos: usize) -> (r: Result<&'a str, DecodeError>)
    ensures
        match r {
            Ok(text) => decode_text(buf@, pos as int) == Ok::<Seq<char>, DecodeError>(text@),
            Err(e) => decode_text(buf@, pos as int) == Err::<Seq<char>, DecodeError>(e),
        },
{
    if buf.len() < 8 || pos > buf.len() - 8 {
        return Err(DecodeError::CorruptLength);
    }
    let offset: i32 = get_i32(buf, pos);
    let len: u32 = get_u32(buf, pos + 4);
    let at: i128 = pos as i128 + offset as i128;
    if at < 0 || at + len as i128 > buf.len() as i128 {
        return Err(DecodeError::CorruptLength);
    }
    let from: usize = at as usize;
    match str_from_utf8(slice_subrange(buf, from, from + len as usize)) {
        Some(text) => Ok(text),
        None => Err(DecodeError::CorruptLength),
    }
}

/// The adapter for country codes: plain text.
pub struct CountryCodeWrapper;

impl ArchiveWith<CountryCode> for CountryCodeWrapper {
    type Resolver = StringResolver;

    open spec fn valid(value: Seq<char>) -> bool {
        true
    }

    open spec fn size() -> nat {
        8
    }

    open spec fn align() -> nat {
        4
    }

    open spec fn payload(value: Seq<char>, start: int) -> Seq<u8> {
        encode_utf8(value)
    }

    open spec fn resolver(value: Seq<char>, start: int) -> StringResolver {
        StringResolver { pos: start as usize }
    }

    open spec fn paired(value: Seq<char>, resolver: StringResolver) -> bool {
        text_paired(value, resolver)
    }

    open spec fn header(value: Seq<char>, pos: int, resolver: StringResolver) -> Seq<u8> {
        text_header(value, pos, resolver)
    }

    open spec fn decode(buf: Seq<u8>, pos: int) -> Result<Seq<char>, DecodeError> {
        decode_text(buf, pos)
    }

    proof fn lemma_layout() {
    }

    proof fn lemma_header_len(value: Seq<char>, pos: int, resolver: StringResolver) {
        lemma_text_header_len(value, pos, resolver);
    }

    proof fn lemma_paired(value: Seq<char>, start: int) {
    }

    proof fn lemma_round_trip(value: Seq<char>, start: int, pos: int, buf: Seq<u8>) {
        lemma_text_header_len(value, pos, StringResolver { pos: start as usize });
        lemma_text_round_trip(value, start, pos, buf);
    }

    fn header_size() -> (r: Option<usize>) {
        Some(8)
    }

    fn header_align() -> (r: usize) {
        4
    }

    fn serialize_with(field: &CountryCode, buf: &mut Vec<u8>) -> (r: Result<
        StringResolver,
        EncodeError,
    >) {
        serialize_from_str(field.as_str(), buf)
    }

    fn resolve_with(field: &CountryCode, pos: usize, resolver: StringResolver, out: &mut Vec<u8>) {
        resolve_from_str(field.as_str(), pos, resolver, out);
    }

    fn deserialize_with(buf: &[u8], pos: usize) -> (r: Result<CountryCode, DecodeError>) {
        match archived_str(buf, pos) {
            Ok(text) => Ok(CountryCode::from_str(text)),
            Err(e) => Err(e),
        }
    }
}

/// The adapter for user names: plain text.
pub struct UsernameWrapper;

impl ArchiveWith<Username> for UsernameWrapper {
    type Resolver = StringResolver;

    open spec fn valid(value: Seq<char>) -> bool {
        true
    }

    open spec fn size() -> nat {
        8
    }

    open spec fn align() -> nat {
        4
    }

    open spec fn payload(value: Seq<char>, start: int) -> Seq<u8> {
        encode_utf8(value)
    }

    open spec fn resolver(value: Seq<char>, start: int) -> StringResolver {
        StringResolver { pos: start as usize }
    }

    open spec fn paired(value: Seq<char>, resolver: StringResolver) -> bool {
        text_paired(value, resolver)
    }

    open spec fn header(value: Seq<char>, pos: int, resolver: StringResolver) -> Seq<u8> {
        text_header(value, pos, resolver)
    }

    open spec fn decode(buf: Seq<u8>, pos: int) -> Result<Seq<char>, DecodeError> {
        decode_text(buf, pos)
    }

    proof fn lemma_layout() {
    }

    proof fn lemma_header_len(value: Seq<char>, pos: int, resolver: StringResolver) {
        lemma_text_header_len(value, pos, resolver);
    }

    proof fn lemma_paired(value: Seq<char>, start: int) {
    }

    proof fn lemma_round_trip(value: Seq<char>, start: int, pos: int, buf: Seq<u8>) {
        lemma_text_header_len(value, pos, StringResolver { pos: start as usize });
        lemma_text_round_trip(value, start, pos, buf);
    }

    fn header_size() -> (r: Option<usize>) {
        Some(8)
    }

    fn header_align() -> (r: usize) {
        4
    }

    fn serialize_with(field: &Username, buf: &mut Vec<u8>) -> (r: Result<
        StringResolver,
        EncodeError,
    >) {
        serialize_from_str(field.as_str(), buf)
    }

    fn resolve_with(field: &Username, pos: usize, resolver: StringResolver, out: &mut Vec<u8>) {
        resolve_from_str(field.as_str(), pos, resolver, out);
    }

    fn deserialize_with(buf: &[u8], pos: usize) -> (r: Result<Username, DecodeError>) {
        match archived_str(buf, pos) {
            Ok(text) => Ok(Username::from_str(text)),
            Err(e) => Err(e),
        }
    }
}

} // verus!
