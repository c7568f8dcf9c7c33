//! What the requests need to know of beatmaps.

use vstd::prelude::*;

verus! {

/// The ranking status of a beatmapset.
#[derive(Debug, Clone, Copy, PartialEq, Eq, Structural)]
pub enum RankStatus {
    Graveyard,
    WIP,
    Pending,
    Ranked,
    Approved,
    Qualified,
    Loved,
}

} // verus!
