//! The archived form of an instant: its nanosecond count as a 128-bit integer.

use super::adapter::ArchiveWith;
use super::error::{DecodeError, EncodeError};
use super::layout::{get_i128, i128_at, i128_le, lemma_i128_le, put_i128, MAX_ARCHIVE_LEN};
use super::root::decode_root;
use crate::model::instant::{is_unix_nanos, Instant, MAX_UNIX_NANOS, MIN_UNIX_NANOS};
use vstd::prelude::*;

verus! {

broadcast use vstd::slice::group_slice_axioms;

/// The instant that a stored nanosecond count stands for, or `OutOfRange`
/// where no [`Instant`] can hold it.
pub open spec fn instant_of(nanos: int) -> Result<int, DecodeError> {
    if is_unix_nanos(nanos) {
        Ok(nanos)
    } else {
        Err(DecodeError::OutOfRange)
    }
}

/// Reading a stored nanosecond count gives that count where an [`Instant`]
/// can hold it, the first and the last such count included, and
/// `OutOfRange` from one nanosecond beyond them on: never another count.
pub proof fn lemma_instant_range(nanos: i128)
    ensures
        decode_root::<DateTimeWrapper, Instant>(i128_le(nanos)) == instant_of(nanos as int),
        MIN_UNIX_NANOS <= nanos <= MAX_UNIX_NANOS ==> instant_of(nanos as int) == Ok::<
            int,
            DecodeError,
        >(nanos as int),
        nanos < MIN_UNIX_NANOS || nanos > MAX_UNIX_NANOS ==> instant_of(nanos as int) == Err::<
            int,
            DecodeError,
        >(DecodeError::OutOfRange),
{
    lemma_i128_le(nanos);
    assert(i128_le(nanos).subrange(0, 16) =~= i128_le(nanos));
}

/// The adapter for instants. An instant has no payload; its header is the
/// signed count of nanoseconds since the epoch.
pub struct DateTimeWrapper;

impl ArchiveWith<Instant> for DateTimeWrapper {
    type Resolver = ();

    open spec fn valid(value: int) -> bool {
        is_unix_nanos(value)
    }

    open spec fn size() -> nat {
        16
    }

    open spec fn align() -> nat {
        16
    }

    open spec fn payload(value: int, start: int) -> Seq<u8> {
        Seq::empty()
    }

    open spec fn resolver(value: int, start: int) -> () {
        ()
    }

    open spec fn paired(value: int, resolver: ()) -> bool {
        true
    }

    open spec fn header(value: int, pos: int, resolver: ()) -> Seq<u8> {
        i128_le(value as i128)
    }

    open spec fn decode(buf: Seq<u8>, pos: int) -> Result<int, DecodeError> {
        if pos < 0 || pos + 16 > buf.len() {
            Err(DecodeError::CorruptLength)
        } else {
            instant_of(i128_at(buf, pos) as int)
        }
    }

    proof fn lemma_layout() {
    }

    proof fn lemma_header_len(value: int, pos: int, resolver: ()) {
        lemma_i128_le(value as i128);
    }

    proof fn lemma_paired(value: int, start: int) {
    }

    proof fn lemma_round_trip(value: int, start: int, pos: int, buf: Seq<u8>) {
        lemma_i128_le(value as i128);
    }

    fn header_size() -> (r: Option<usize>) {
        Some(16)
    }

    fn header_align() -> (r: usize) {
        16
    }

    fn serialize_with(field: &Instant, buf: &mut Vec<u8>) -> (r: Result<(), EncodeError>) {
        proof {
            use_type_invariant(field);
        }
        if buf.len() > MAX_ARCHIVE_LEN {
            Err(EncodeError::OutOfSpace)
        } else {
            assert(buf@ =~= buf@ + Seq::<u8>::empty());
            Ok(())
        }
    }

    fn resolve_with(field: &Instant, pos: usize, resolver: (), out: &mut Vec<u8>) {
        put_i128(out, field.unix_timestamp_nanos());
    }

    fn deserialize_with(buf: &[u8], pos: usize) -> (r: Result<Instant, DecodeError>) {
        if buf.len() < 16 || pos > buf.len() - 16 {
            Err(DecodeError::CorruptLength)
        } else {
            match Instant::from_unix_timestamp_nanos(get_i128(buf, pos)) {
                Some(instant) => Ok(instant),
                None => Err(DecodeError::OutOfRange),
            }
        }
    }
}

} // verus!
