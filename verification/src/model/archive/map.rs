//! The adapter that lifts an element adapter to sequences and to optional
//! values.

use super::instant::DateTimeWrapper;
use super::text::UsernameWrapper;
use core::marker::PhantomData;
use vstd::prelude::*;

verus! {

/// Archives a `Vec<O>` or an `Option<O>` with the adapter `A` for `O`.
///
/// The two uses are the impls of
/// [`ArchiveWith`](super::adapter::ArchiveWith) in
/// [`sequence`](super::sequence) and [`optional`](super::optional). They
/// nest: `MapWith<MapWith<A>>` archives a `Vec<Vec<O>>`, an `Option<Vec<O>>`
/// and so on.
pub struct MapWith<A> {
    phantom: PhantomData<A>,
}

/// Archives a sequence of user names, or an optional user name.
pub type UsernameMap = MapWith<UsernameWrapper>;

/// Archives a sequence of sequences of user names, and the like.
pub type UsernameMapMap = MapWith<MapWith<UsernameWrapper>>;

/// Archives a sequence of instants, or an optional instant.
pub type DateTimeMap = MapWith<DateTimeWrapper>;

} // verus!
