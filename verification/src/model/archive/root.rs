//! Whole archives: one value, its payload first and its header at the end.

use super::adapter::{holds, lemma_holds_concat, lemma_holds_part, ArchiveWith};
use super::error::{DecodeError, EncodeError};
use super::layout::{lemma_padding, padding, padding_for, put_zeros, zeros, MAX_ARCHIVE_LEN};
use vstd::prelude::*;

verus! {

broadcast use vstd::slice::group_slice_axioms;

/// The archive of `value`: what serializing into an empty buffer appends,
/// zero bytes up to the alignment of the header, and the header.
pub open spec fn archived<A: ArchiveWith<O>, O: DeepView>(value: O::V) -> Seq<u8> {
    let body = A::payload(value, 0);
    let pad = padding(body.len() as int, A::align() as int);
    body + zeros(pad) + A::header(value, body.len() + pad, A::resolver(value, 0))
}

/// What reading `buf` as an archive gives: the value whose header is the
/// end of `buf`, or `CorruptLength` where `buf` is shorter than a header.
pub open spec fn decode_root<A: ArchiveWith<O>, O: DeepView>(buf: Seq<u8>) -> Result<
    O::V,
    DecodeError,
> {
    if buf.len() < A::size() {
        Err(DecodeError::CorruptLength)
    } else {
        A::decode(buf, buf.len() - A::size())
    }
}

/// The header of an archive starts at a multiple of its alignment.
pub proof fn lemma_archive_aligned<A: ArchiveWith<O>, O: DeepView>(value: O::V)
    ensures
        archived::<A, O>(value).len() >= A::size(),
        (archived::<A, O>(value).len() - A::size()) % (A::align() as int) == 0,
{
    let body = A::payload(value, 0);
    let pad = padding(body.len() as int, A::align() as int);
    A::lemma_layout();
    A::lemma_header_len(value, body.len() + pad, A::resolver(value, 0));
    lemma_padding(body.len() as int, A::align() as int);
}

/// Round trip: reading the archive of a value gives the value back, for
/// every adapter and every value whose archive stays within the limit.
pub proof fn lemma_archive_round_trip<A: ArchiveWith<O>, O: DeepView>(value: O::V)
    requires
        A::valid(value),
        archived::<A, O>(value).len() <= MAX_ARCHIVE_LEN,
    ensures
        decode_root::<A, O>(archived::<A, O>(value)) == Ok::<O::V, DecodeError>(value),
{
    let body = A::payload(value, 0);
    let pad = padding(body.len() as int, A::align() as int);
    let pos = body.len() + pad;
    let header = A::header(value, pos, A::resolver(value, 0));
    let buf = archived::<A, O>(value);
    A::lemma_layout();
    A::lemma_header_len(value, pos, A::resolver(value, 0));
    lemma_padding(body.len() as int, A::align() as int);
    lemma_holds_concat(body + zeros(pad), header);
    lemma_holds_concat(body, zeros(pad));
    lemma_holds_part(buf, 0, body + zeros(pad), 0, body);
    A::lemma_round_trip(value, 0, pos, buf);
}

/// Archives `value` into a buffer of its own. Fails exactly when the archive
/// would be longer than [`MAX_ARCHIVE_LEN`].
pub fn to_bytes<A: ArchiveWith<O>, O: DeepView>(value: &O) -> (r: Result<Vec<u8>, EncodeError>)
    ensures
        match r {
            Ok(bytes) => {
                &&& bytes@ == archived::<A, O>(value.deep_view())
                &&& bytes@.len() <= MAX_ARCHIVE_LEN
                &&& A::valid(value.deep_view())
                &&& decode_root::<A, O>(bytes@) == Ok::<O::V, DecodeError>(value.deep_view())
            },
            Err(e) => archived::<A, O>(value.deep_view()).len() > MAX_ARCHIVE_LEN,
        },
{
    let mut buf: Vec<u8> = Vec::new();
    proof {
        A::lemma_layout();
        A::lemma_header_len(
            value.deep_view(),
            A::payload(value.deep_view(), 0).len() + padding(
                A::payload(value.deep_view(), 0).len() as int,
                A::align() as int,
            ),
            A::resolver(value.deep_view(), 0),
        );
    }
    let resolver = match A::serialize_with(value, &mut buf) {
        Ok(resolver) => resolver,
        Err(e) => {
            return Err(e);
        },
    };
    let pad: usize = padding_for(buf.len(), A::header_align());
    let fits: bool = match A::header_size() {
        None => false,
        Some(size) => size <= MAX_ARCHIVE_LEN && pad + buf.len() <= MAX_ARCHIVE_LEN - size,
    };
    if !fits {
        return Err(EncodeError::OutOfSpace);
    }
    put_zeros(&mut buf, pad);
    let pos: usize = buf.len();
    A::resolve_with(value, pos, resolver, &mut buf);
    proof {
        assert(buf@ =~= archived::<A, O>(value.deep_view()));
        lemma_archive_round_trip::<A, O>(value.deep_view());
    }
    Ok(buf)
}

/// Reads the value that `bytes` is the archive of.
pub fn from_bytes<A: ArchiveWith<O>, O: DeepView>(bytes: &[u8]) -> (r: Result<O, DecodeError>)
    ensures
        match r {
            Ok(value) => decode_root::<A, O>(bytes@) == Ok::<O::V, DecodeError>(
                value.deep_view(),
            ),
            Err(e) => decode_root::<A, O>(bytes@) == Err::<O::V, DecodeError>(e),
        },
{
    let len: usize = bytes.len();
    match A::header_size() {
        None => Err(DecodeError::CorruptLength),
        Some(size) => {
            if len < size {
                Err(DecodeError::CorruptLength)
            } else {
                A::deserialize_with(bytes, len - size)
            }
        },
    }
}

} // verus!
