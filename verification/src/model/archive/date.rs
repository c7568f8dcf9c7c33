//! The archived form of a calendar date: one packed 32-bit integer.

use super::adapter::ArchiveWith;
use super::error::{DecodeError, EncodeError};
use super::layout::{get_i32, i32_at, i32_le, lemma_i32_le, put_i32, MAX_ARCHIVE_LEN};
use crate::model::date::{is_leap_year, is_ordinal_date, CalendarDate};
use vstd::prelude::*;

verus! {

broadcast use vstd::slice::group_slice_axioms;

/// The packed integer of day `ordinal` of `year`: the year above the low nine
/// bits, the day of the year in them.
pub open spec fn pack_date(year: int, ordinal: int) -> int {
    year * 512 + ordinal
}

/// The year that a packed integer holds: everything above the low nine bits,
/// with its sign.
pub open spec fn packed_year(packed: int) -> int {
    packed / 512
}

/// The day of the year that a packed integer holds: its low nine bits.
pub open spec fn packed_ordinal(packed: int) -> int {
    packed % 512
}

/// The date that a packed integer holds, or `OutOfRange` where it holds no
/// day of a year that a [`CalendarDate`] can lie in.
pub open spec fn unpack_date(packed: int) -> Result<(int, int), DecodeError> {
    if is_ordinal_date(packed_year(packed), packed_ordinal(packed)) {
        Ok((packed_year(packed), packed_ordinal(packed)))
    } else {
        Err(DecodeError::OutOfRange)
    }
}

/// Unpacking a packed pair gives the pair back, whenever the day of the year
/// fits nine bits.
pub proof fn lemma_pack_unpack(year: int, ordinal: int)
    requires
        0 <= ordinal < 512,
    ensures
        packed_year(pack_date(year, ordinal)) == year,
        packed_ordinal(pack_date(year, ordinal)) == ordinal,
{
    assert((year * 512 + ordinal) / 512 == year && (year * 512 + ordinal) % 512 == ordinal)
        by (nonlinear_arith)
        requires
            0 <= ordinal < 512,
    ;
}

/// Packing a date and unpacking it again gives the date back.
pub proof fn lemma_date_round_trip(year: int, ordinal: int)
    requires
        is_ordinal_date(year, ordinal),
    ensures
        unpack_date(pack_date(year, ordinal)) == Ok::<(int, int), DecodeError>((year, ordinal)),
{
    lemma_pack_unpack(year, ordinal);
}

/// A packed integer whose low nine bits hold 0, or more than 366, is
/// rejected, whatever year it holds; so is day 366 of a year that is no
/// leap year.
pub proof fn lemma_unpack_rejects(year: int, ordinal: int)
    requires
        0 <= ordinal < 512,
        ordinal == 0 || ordinal > 366 || (ordinal == 366 && !is_leap_year(year)),
    ensures
        unpack_date(pack_date(year, ordinal)) == Err::<(int, int), DecodeError>(
            DecodeError::OutOfRange,
        ),
{
    lemma_pack_unpack(year, ordinal);
}

/// A calendar date as it lies in a buffer.
#[derive(Debug, Clone, Copy, PartialEq, Eq)]
pub struct ArchivedDateUtc {
    value: i32,
}

impl View for ArchivedDateUtc {
    type V = int;

    /// The packed integer.
    closed spec fn view(&self) -> int {
        self.value as int
    }
}

impl ArchivedDateUtc {
    /// The archived form with the packed integer `value`.
    pub fn new(value: i32) -> (r: Self)
        ensures
            r@ == value,
    {
        ArchivedDateUtc { value }
    }

    /// The packed integer.
    pub fn value(&self) -> (r: i32)
        ensures
            r == self@,
    {
        self.value
    }

    /// Packs `date`.
    pub fn pack(date: &CalendarDate) -> (r: Self)
        ensures
            r@ == pack_date(date.deep_view().0, date.deep_view().1),
            is_ordinal_date(date.deep_view().0, date.deep_view().1),
    {
        let year: i32 = date.year();
        let ordinal: i32 = date.ordinal() as i32;
        assert((year << 9) | ordinal == year * 512 + ordinal) by (bit_vector)
            requires
                -9999 <= year <= 9999,
                0 <= ordinal < 512,
        ;
        ArchivedDateUtc { value: (year << 9) | ordinal }
    }

    /// The date that was packed, or `OutOfRange` where the packed integer
    /// holds no day of a year that a [`CalendarDate`] can lie in.
    pub fn unpack(&self) -> (r: Result<CalendarDate, DecodeError>)
        ensures
            match r {
                Ok(date) => unpack_date(self@) == Ok::<(int, int), DecodeError>(date.deep_view()),
                Err(e) => unpack_date(self@) == Err::<(int, int), DecodeError>(e),
            },
    {
        let packed: i32 = self.value;
        let year: i32 = packed >> 9;
        let low: i32 = packed & 0x1FF;
        assert(0 <= packed & 0x1FF < 512) by (bit_vector);
        assert(packed == (packed >> 9) * 512 + (packed & 0x1FF)) by (bit_vector);
        assert(year == packed as int / 512 && low == packed as int % 512) by (nonlinear_arith)
            requires
                packed == year * 512 + low,
                0 <= low < 512,
        ;
        match CalendarDate::from_ordinal_date(year, low as u16) {
            Some(date) => Ok(date),
            None => Err(DecodeError::OutOfRange),
        }
    }
}

/// The adapter for calendar dates. A date has no payload; its header is the
/// packed integer.
pub struct DateWrapper;

impl ArchiveWith<CalendarDate> for DateWrapper {
    type Resolver = ();

    open spec fn valid(value: (int, int)) -> bool {
        is_ordinal_date(value.0, value.1)
    }

    open spec fn size() -> nat {
        4
    }

    open spec fn align() -> nat {
        4
    }

    open spec fn payload(value: (int, int), start: int) -> Seq<u8> {
        Seq::empty()
    }

    open spec fn resolver(value: (int, int), start: int) -> () {
        ()
    }

    open spec fn paired(value: (int, int), resolver: ()) -> bool {
        true
    }

    open spec fn header(value: (int, int), pos: int, resolver: ()) -> Seq<u8> {
        i32_le(pack_date(value.0, value.1) as i32)
    }

    open spec fn decode(buf: Seq<u8>, pos: int) -> Result<(int, int), DecodeError> {
        if pos < 0 || pos + 4 > buf.len() {
            Err(DecodeError::CorruptLength)
        } else {
            unpack_date(i32_at(buf, pos) as int)
        }
    }

    proof fn lemma_layout() {
    }

    proof fn lemma_header_len(value: (int, int), pos: int, resolver: ()) {
        lemma_i32_le(pack_date(value.0, value.1) as i32);
    }

    proof fn lemma_paired(value: (int, int), start: int) {
    }

    proof fn lemma_round_trip(value: (int, int), start: int, pos: int, buf: Seq<u8>) {
        lemma_i32_le(pack_date(value.0, value.1) as i32);
        lemma_pack_unpack(value.0, value.1);
    }

    fn header_size() -> (r: Option<usize>) {
        Some(4)
    }

    fn header_align() -> (r: usize) {
        4
    }

    fn serialize_with(field: &CalendarDate, buf: &mut Vec<u8>) -> (r: Result<(), EncodeError>) {
        proof {
            use_type_invariant(field);
        }
        if buf.len() > MAX_ARCHIVE_LEN {
            Err(EncodeError::OutOfSpace)
        } else {
            assert(buf@ =~= buf@ + Seq::<u8>::empty());
            Ok(())
        }
    }

    fn resolve_with(field: &CalendarDate, pos: usize, resolver: (), out: &mut Vec<u8>) {
        let archived = ArchivedDateUtc::pack(field);
        put_i32(out, archived.value());
    }

    fn deserialize_with(buf: &[u8], pos: usize) -> (r: Result<CalendarDate, DecodeError>) {
        if buf.len() < 4 || pos > buf.len() - 4 {
            Err(DecodeError::CorruptLength)
        } else {
            ArchivedDateUtc::new(get_i32(buf, pos)).unpack()
        }
    }
}

} // verus!
