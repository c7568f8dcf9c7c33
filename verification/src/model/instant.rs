//! Points in time, counted in nanoseconds since the Unix epoch.

use vstd::prelude::*;

verus! {

/// The first nanosecond an [`Instant`] can be: midnight UTC of the first day
/// of the year -9999.
pub const MIN_UNIX_NANOS: i128 = -377_705_116_800_000_000_000;

/// The last nanosecond an [`Instant`] can be: the end of the last day of the
/// year 9999, UTC.
pub const MAX_UNIX_NANOS: i128 = 253_402_300_799_999_999_999;

/// Whether an [`Instant`] can lie `nanos` nanoseconds from the epoch.
pub open spec fn is_unix_nanos(nanos: int) -> bool {
    MIN_UNIX_NANOS <= nanos <= MAX_UNIX_NANOS
}

/// Calls `time::OffsetDateTime::from_unix_timestamp_nanos` and hands back the
/// nanosecond count of the moment it made. The contract claims what the
/// source of that function shows, with the features that `time` has by
/// default: it succeeds exactly from the first nanosecond of the year -9999
/// to the last of the year 9999, and the moment it makes lies as many
/// nanoseconds from the epoch as it was given.
#[verifier::external_body]
fn checked_unix_nanos(nanos: i128) -> (r: Option<i128>)
    ensures
        r == if is_unix_nanos(nanos as int) {
            Some(nanos)
        } else {
            None
        },
{
    match time::OffsetDateTime::from_unix_timestamp_nanos(nanos) {
        Ok(moment) => Some(moment.unix_timestamp_nanos()),
        Err(_) => None,
    }
}

/// An absolute point in time with nanosecond resolution.
#[derive(Debug, Clone, Copy, PartialEq, Eq)]
pub struct Instant {
    nanos: i128,
}

impl DeepView for Instant {
    type V = int;

    /// The nanoseconds since the epoch.
    closed spec fn deep_view(&self) -> int {
        self.nanos as int
    }
}

impl Instant {
    /// What holds of every instant: it lies within the range.
    #[verifier::type_invariant]
    pub open spec fn well_formed(self) -> bool {
        is_unix_nanos(self.deep_view())
    }

    /// The instant `nanos` nanoseconds from the epoch, if it can be held.
    pub fn from_unix_timestamp_nanos(nanos: i128) -> (r: Option<Self>)
        ensures
            r is Some <==> is_unix_nanos(nanos as int),
            r matches Some(instant) ==> instant.deep_view() == nanos,
    {
        match checked_unix_nanos(nanos) {
            Some(n) => Some(Instant { nanos: n }),
            None => None,
        }
    }

    /// The nanoseconds from the epoch to this instant.
    pub fn unix_timestamp_nanos(&self) -> (r: i128)
        ensures
            r == self.deep_view(),
            is_unix_nanos(self.deep_view()),
    {
        proof {
            use_type_invariant(self);
        }
        self.nanos
    }
}

} // verus!
