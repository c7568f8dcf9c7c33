//! The game modes of osu!.

use vstd::prelude::*;

verus! {

/// One of the four game modes.
#[derive(Debug, Clone, Copy, PartialEq, Eq, Structural)]
pub enum GameMode {
    /// osu!standard
    STD,
    /// osu!taiko
    TKO,
    /// osu!catch
    CTB,
    /// osu!mania
    MNA,
}

/// The name by which the API knows `mode`.
pub open spec fn mode_name(mode: GameMode) -> Seq<char> {
    match mode {
        GameMode::STD => "osu"@,
        GameMode::TKO => "taiko"@,
        GameMode::CTB => "fruits"@,
        GameMode::MNA => "mania"@,
    }
}

impl GameMode {
    /// The name by which the API knows the mode.
    pub fn as_str(&self) -> (r: &'static str)
        ensures
            r@ == mode_name(*self),
    {
        match self {
            GameMode::STD => "osu",
            GameMode::TKO => "taiko",
            GameMode::CTB => "fruits",
            GameMode::MNA => "mania",
        }
    }

    /// The name by which the API knows the mode, as an owned string.
    pub fn to_string(&self) -> (r: String)
        ensures
            r@ == mode_name(*self),
    {
        self.as_str().to_owned()
    }
}

} // verus!
