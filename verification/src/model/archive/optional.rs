//! The archived form of an optional value: a tag byte, and behind it, where
//! the value is present, the header of the value.
//!
//! The two variants share one size, that of the present one. The header of
//! the value lies at the offset that a record would give a field of its
//! alignment behind a one-byte field.

use super::adapter::{holds, lemma_holds_concat, lemma_holds_part, ArchiveWith};
use super::error::{DecodeError, EncodeError};
use super::layout::{align_up, lemma_padding, padding, put_zeros, zeros, MAX_ARCHIVE_LEN};
use super::map::MapWith;
use super::root::{archived, decode_root, lemma_archive_round_trip};
use vstd::pervasive::unreached;
use vstd::prelude::*;

verus! {

broadcast use vstd::slice::group_slice_axioms;

/// The tag of an absent value.
pub const TAG_NONE: u8 = 0;

/// The tag of a present value.
pub const TAG_SOME: u8 = 1;

/// The offset of the header of the value behind the tag.
pub open spec fn payload_offset<A: ArchiveWith<O>, O: DeepView>() -> int {
    align_up(1, A::align() as int)
}

/// The size of an archived optional value.
pub open spec fn option_size<A: ArchiveWith<O>, O: DeepView>() -> nat {
    (payload_offset::<A, O>() + A::size()) as nat
}

/// The header of an optional value for position `pos`. With the resolver
/// `None` it is the tag 0 and zero bytes up to the size; with `Some` it is
/// the tag 1, zero bytes up to the offset of the value, and the header of
/// the value for the position it then has.
pub open spec fn option_header<A: ArchiveWith<O>, O: DeepView>(
    value: Option<O::V>,
    pos: int,
    resolver: Option<A::Resolver>,
) -> Seq<u8> {
    match resolver {
        None => seq![TAG_NONE] + zeros(option_size::<A, O>() - 1),
        Some(inner) => seq![TAG_SOME] + zeros(payload_offset::<A, O>() - 1) + A::header(
            value.unwrap(),
            pos + payload_offset::<A, O>(),
            inner,
        ),
    }
}

/// The optional value whose header is at position `pos` of `buf`.
///
/// `CorruptLength` where the header does not lie within `buf`, `InvalidTag`
/// where the tag is neither 0 nor 1; for the tag 1, whatever reading the
/// value gives.
pub open spec fn decode_option<A: ArchiveWith<O>, O: DeepView>(buf: Seq<u8>, pos: int) -> Result<
    Option<O::V>,
    DecodeError,
> {
    if pos < 0 || pos + option_size::<A, O>() > buf.len() {
        Err(DecodeError::CorruptLength)
    } else if buf[pos] == TAG_NONE {
        Ok(None)
    } else if buf[pos] == TAG_SOME {
        match A::decode(buf, pos + payload_offset::<A, O>()) {
            Ok(value) => Ok(Some(value)),
            Err(e) => Err(e),
        }
    } else {
        Err(DecodeError::InvalidTag)
    }
}

/// The header of the value lies one alignment behind the tag, and the size
/// of the whole is a multiple of that alignment.
pub proof fn lemma_option_layout<A: ArchiveWith<O>, O: DeepView>()
    ensures
        payload_offset::<A, O>() == A::align(),
        option_size::<A, O>() == A::align() + A::size(),
        option_size::<A, O>() % A::align() == 0,
{
    A::lemma_layout();
    lemma_padding(1, A::align() as int);
    let align = A::align() as int;
    if align > 1 {
        assert(1int % align == 1) by (nonlinear_arith)
            requires
                align > 1,
        ;
        assert((align - 1) % align == align - 1) by (nonlinear_arith)
            requires
                align > 1,
        ;
    }
    assert((align + A::size()) % align == 0) by (nonlinear_arith)
        requires
            A::size() % (align as nat) == 0,
            align >= 1,
    ;
}

/// A tag that is neither 0 nor 1 is rejected, whatever follows it.
pub proof fn lemma_invalid_tag<A: ArchiveWith<O>, O: DeepView>(buf: Seq<u8>, pos: int)
    requires
        0 <= pos,
        pos + option_size::<A, O>() <= buf.len(),
        buf[pos] != TAG_NONE,
        buf[pos] != TAG_SOME,
    ensures
        decode_option::<A, O>(buf, pos) == Err::<Option<O::V>, DecodeError>(
            DecodeError::InvalidTag,
        ),
{
}

/// Both variants survive: reading the archive of an absent value gives an
/// absent value, and reading the archive of a present value gives that
/// value, present.
pub proof fn lemma_option_round_trip<A: ArchiveWith<O>, O: DeepView>(value: Option<O::V>)
    requires
        value matches Some(inner) ==> A::valid(inner),
        archived::<MapWith<A>, Option<O>>(value).len() <= MAX_ARCHIVE_LEN,
    ensures
        decode_root::<MapWith<A>, Option<O>>(archived::<MapWith<A>, Option<O>>(value)) == Ok::<
            Option<O::V>,
            DecodeError,
        >(value),
{
    lemma_archive_round_trip::<MapWith<A>, Option<O>>(value);
}

impl<A: ArchiveWith<O>, O: DeepView> ArchiveWith<Option<O>> for MapWith<A> {
    type Resolver = Option<A::Resolver>;

    open spec fn valid(value: Option<O::V>) -> bool {
        match value {
            None => true,
            Some(inner) => A::valid(inner),
        }
    }

    open spec fn size() -> nat {
        option_size::<A, O>()
    }

    open spec fn align() -> nat {
        A::align()
    }

    open spec fn payload(value: Option<O::V>, start: int) -> Seq<u8> {
        match value {
            None => Seq::empty(),
            Some(inner) => A::payload(inner, start),
        }
    }

    open spec fn resolver(value: Option<O::V>, start: int) -> Option<A::Resolver> {
        match value {
            None => None,
            Some(inner) => Some(A::resolver(inner, start)),
        }
    }

    open spec fn paired(value: Option<O::V>, resolver: Option<A::Resolver>) -> bool {
        match resolver {
            None => true,
            Some(inner) => value is Some && A::paired(value.unwrap(), inner),
        }
    }

    open spec fn header(value: Option<O::V>, pos: int, resolver: Option<A::Resolver>) -> Seq<u8> {
        option_header::<A, O>(value, pos, resolver)
    }

    open spec fn decode(buf: Seq<u8>, pos: int) -> Result<Option<O::V>, DecodeError> {
        decode_option::<A, O>(buf, pos)
    }

    proof fn lemma_layout() {
        A::lemma_layout();
        lemma_option_layout::<A, O>();
    }

    proof fn lemma_header_len(value: Option<O::V>, pos: int, resolver: Option<A::Resolver>) {
        A::lemma_layout();
        lemma_option_layout::<A, O>();
        if let Some(inner) = resolver {
            A::lemma_header_len(value.unwrap(), pos + payload_offset::<A, O>(), inner);
        }
    }

    proof fn lemma_paired(value: Option<O::V>, start: int) {
        if let Some(inner) = value {
            A::lemma_paired(inner, start);
        }
    }

    proof fn lemma_round_trip(value: Option<O::V>, start: int, pos: int, buf: Seq<u8>) {
        A::lemma_layout();
        lemma_option_layout::<A, O>();
        let resolver = <Self as ArchiveWith<Option<O>>>::resolver(value, start);
        let header = option_header::<A, O>(value, pos, resolver);
        <Self as ArchiveWith<Option<O>>>::lemma_header_len(value, pos, resolver);
        assert(buf[pos] == buf.subrange(pos, pos + header.len())[0]);
        match value {
            None => {},
            Some(inner) => {
                let offset = payload_offset::<A, O>();
                let lead = seq![TAG_SOME] + zeros(offset - 1);
                let tail = A::header(inner, pos + offset, A::resolver(inner, start));
                lemma_holds_concat(lead, tail);
                lemma_holds_part(buf, pos, header, offset, tail);
                A::lemma_round_trip(inner, start, pos + offset, buf);
            },
        }
    }

    fn header_size() -> (r: Option<usize>) {
        proof {
            A::lemma_layout();
            lemma_option_layout::<A, O>();
        }
        match A::header_size() {
            None => None,
            Some(size) => size.checked_add(A::header_align()),
        }
    }

    fn header_align() -> (r: usize) {
        A::header_align()
    }

    fn serialize_with(field: &Option<O>, buf: &mut Vec<u8>) -> (r: Result<
        Option<A::Resolver>,
        EncodeError,
    >) {
        match field {
            None => {
                if buf.len() > MAX_ARCHIVE_LEN {
                    Err(EncodeError::OutOfSpace)
                } else {
                    assert(buf@ =~= buf@ + Seq::<u8>::empty());
                    Ok(None)
                }
            },
            Some(inner) => match A::serialize_with(inner, buf) {
                Ok(resolver) => Ok(Some(resolver)),
                Err(e) => Err(e),
            },
        }
    }

    fn resolve_with(
        field: &Option<O>,
        pos: usize,
        resolver: Option<A::Resolver>,
        out: &mut Vec<u8>,
    ) {
        proof {
            A::lemma_layout();
            lemma_option_layout::<A, O>();
        }
        let offset: usize = A::header_align();
        match resolver {
            None => {
                let size: usize = match A::header_size() {
                    Some(size) => size,
                    None => unreached(),
                };
                out.push(TAG_NONE);
                put_zeros(out, offset - 1 + size);
                assert(out@ =~= old(out)@ + option_header::<A, O>(
                    field.deep_view(),
                    pos as int,
                    resolver,
                ));
            },
            Some(inner) => {
                let value: &O = match field {
                    Some(value) => value,
                    None => unreached(),
                };
                out.push(TAG_SOME);
                put_zeros(out, offset - 1);
                A::resolve_with(value, pos + offset, inner, out);
                assert(out@ =~= old(out)@ + option_header::<A, O>(
                    field.deep_view(),
                    pos as int,
                    resolver,
                ));
            },
        }
    }

    fn deserialize_with(buf: &[u8], pos: usize) -> (r: Result<Option<O>, DecodeError>) {
        proof {
            A::lemma_layout();
            lemma_option_layout::<A, O>();
        }
        let len: usize = buf.len();
        let size: usize = match <Self as ArchiveWith<Option<O>>>::header_size() {
            Some(size) => size,
            None => {
                return Err(DecodeError::CorruptLength);
            },
        };
        if size > len || pos > len - size {
            return Err(DecodeError::CorruptLength);
        }
        let tag: u8 = buf[pos];
        if tag == TAG_NONE {
            Ok(None)
        } else if tag == TAG_SOME {
            match A::deserialize_with(buf, pos + A::header_align()) {
                Ok(value) => Ok(Some(value)),
                Err(e) => Err(e),
            }
        } else {
            Err(DecodeError::InvalidTag)
        }
    }
}

} // verus!
