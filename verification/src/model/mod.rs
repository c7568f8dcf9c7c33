//! Domain values and their archived forms.

pub mod archive;
pub mod beatmap;
pub mod date;
pub mod game_mode;
pub mod instant;
pub mod text;

pub use self::game_mode::GameMode;
