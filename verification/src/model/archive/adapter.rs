//! The two-phase protocol that every adapter follows.
//!
//! A value is archived in two steps. *Serializing* appends whatever has no
//! fixed size (text, the elements of a sequence) to the buffer and returns a
//! resolver that remembers where it went. *Resolving* then writes the value's
//! fixed-size header, at a position that is known only now, and stores every
//! cross-reference as the distance from the header to its payload. Reading
//! needs the buffer and the header's position, nothing else.

use super::error::{DecodeError, EncodeError};
use super::layout::MAX_ARCHIVE_LEN;
use vstd::prelude::*;

verus! {

/// The greatest alignment that a header can ask for.
pub const MAX_ALIGN: usize = 16;

/// Whether `buf` holds `bytes` from position `at` on.
pub open spec fn holds(buf: Seq<u8>, at: int, bytes: Seq<u8>) -> bool {
    &&& 0 <= at
    &&& at + bytes.len() <= buf.len()
    &&& buf.subrange(at, at + bytes.len()) == bytes
}

/// What holds a sequence holds every part of it.
pub proof fn lemma_holds_part(buf: Seq<u8>, at: int, whole: Seq<u8>, off: int, part: Seq<u8>)
    requires
        holds(buf, at, whole),
        holds(whole, off, part),
    ensures
        holds(buf, at + off, part),
{
    assert(buf.subrange(at + off, at + off + part.len()) =~= buf.subrange(
        at,
        at + whole.len(),
    ).subrange(off, off + part.len()));
}

/// A sequence holds its parts: of `a + b`, `a` at the start and `b` behind it.
pub proof fn lemma_holds_concat(a: Seq<u8>, b: Seq<u8>)
    ensures
        holds(a + b, 0, a),
        holds(a + b, a.len() as int, b),
{
    assert((a + b).subrange(0, a.len() as int) =~= a);
    assert((a + b).subrange(a.len() as int, (a.len() + b.len()) as int) =~= b);
}

/// An adapter: how values of type `O` are archived and read back.
///
/// The `spec` functions say what the bytes are. They speak of a value by its
/// deep view and fix the archived bytes completely, so encoding is
/// deterministic, and [`lemma_round_trip`](ArchiveWith::lemma_round_trip)
/// ties them to what decoding reads.
pub trait ArchiveWith<O: DeepView> {
    /// What serializing leaves for resolving.
    type Resolver;

    /// Whether `value` is one that a source value of type `O` can have.
    spec fn valid(value: O::V) -> bool;

    /// The size of the header in bytes. It does not depend on the value.
    spec fn size() -> nat;

    /// The alignment of the header in bytes.
    spec fn align() -> nat;

    /// The bytes that serializing `value` appends to a buffer of length
    /// `start`.
    spec fn payload(value: O::V, start: int) -> Seq<u8>;

    /// The resolver that serializing `value` into a buffer of length `start`
    /// returns.
    spec fn resolver(value: O::V, start: int) -> Self::Resolver;

    /// Whether `resolver` may be resolved against `value`.
    spec fn paired(value: O::V, resolver: Self::Resolver) -> bool;

    /// The header of `value` for position `pos`.
    spec fn header(value: O::V, pos: int, resolver: Self::Resolver) -> Seq<u8>;

    /// What reading the header at position `pos` of `buf` gives.
    spec fn decode(buf: Seq<u8>, pos: int) -> Result<O::V, DecodeError>;

    /// A header is not empty, and its size is a multiple of its alignment.
    proof fn lemma_layout()
        ensures
            1 <= Self::align() <= MAX_ALIGN,
            1 <= Self::size(),
            Self::size() % Self::align() == 0,
    ;

    /// Every header has the size of its type.
    proof fn lemma_header_len(value: O::V, pos: int, resolver: Self::Resolver)
        ensures
            Self::header(value, pos, resolver).len() == Self::size(),
    ;

    /// The resolver of a value that was serialized within the limit may be
    /// resolved against that value.
    proof fn lemma_paired(value: O::V, start: int)
        requires
            Self::valid(value),
            0 <= start,
            start + Self::payload(value, start).len() <= MAX_ARCHIVE_LEN,
        ensures
            Self::paired(value, Self::resolver(value, start)),
    ;

    /// Reading gives back what was archived: a buffer that holds the payload
    /// of `value` where it was serialized, and at `pos` the header resolved
    /// for `pos`, decodes at `pos` to `value`.
    proof fn lemma_round_trip(value: O::V, start: int, pos: int, buf: Seq<u8>)
        requires
            Self::valid(value),
            buf.len() <= MAX_ARCHIVE_LEN,
            holds(buf, start, Self::payload(value, start)),
            holds(buf, pos, Self::header(value, pos, Self::resolver(value, start))),
        ensures
            Self::decode(buf, pos) == Ok::<O::V, DecodeError>(value),
    ;

    /// The size of the header, or `None` if no `usize` can hold it.
    fn header_size() -> (r: Option<usize>)
        ensures
            r == if Self::size() <= usize::MAX {
                Some(Self::size() as usize)
            } else {
                None
            },
    ;

    /// The alignment of the header.
    fn header_align() -> (r: usize)
        ensures
            r == Self::align(),
    ;

    /// Appends the payload of `field` to `buf` and returns the resolver for
    /// it. Fails, and leaves `buf` as it was, exactly when `buf` would grow
    /// beyond [`MAX_ARCHIVE_LEN`].
    fn serialize_with(field: &O, buf: &mut Vec<u8>) -> (r: Result<Self::Resolver, EncodeError>)
        ensures
            match r {
                Ok(resolver) => {
                    &&& final(buf)@ == old(buf)@ + Self::payload(
                        field.deep_view(),
                        old(buf)@.len() as int,
                    )
                    &&& final(buf)@.len() <= MAX_ARCHIVE_LEN
                    &&& resolver == Self::resolver(field.deep_view(), old(buf)@.len() as int)
                    &&& Self::valid(field.deep_view())
                    &&& Self::paired(field.deep_view(), resolver)
                },
                Err(e) => {
                    &&& final(buf)@ == old(buf)@
                    &&& old(buf)@.len() + Self::payload(
                        field.deep_view(),
                        old(buf)@.len() as int,
                    ).len() > MAX_ARCHIVE_LEN
                },
            },
    ;

    /// Appends to `out` the header of `field` for position `pos`: the place
    /// in the buffer that the first byte appended will have.
    fn resolve_with(field: &O, pos: usize, resolver: Self::Resolver, out: &mut Vec<u8>)
        requires
            Self::paired(field.deep_view(), resolver),
            pos + Self::size() <= MAX_ARCHIVE_LEN,
        ensures
            final(out)@ == old(out)@ + Self::header(field.deep_view(), pos as int, resolver),
    ;

    /// Reads the value whose header is at position `pos` of `buf`.
    fn deserialize_with(buf: &[u8], pos: usize) -> (r: Result<O, DecodeError>)
        ensures
            match r {
                Ok(value) => Self::decode(buf@, pos as int) == Ok::<O::V, DecodeError>(
                    value.deep_view(),
                ),
                Err(e) => Self::decode(buf@, pos as int) == Err::<O::V, DecodeError>(e),
            },
    ;
}

} // verus!
