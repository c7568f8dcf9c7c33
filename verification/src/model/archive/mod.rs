//! Adapters that archive domain values into a byte buffer read in place.

pub mod adapter;
pub mod date;
pub mod error;
pub mod instant;
pub mod layout;
pub mod map;
pub mod optional;
pub mod root;
pub mod sequence;
pub mod text;
