//! Requests to the API, assembled from plain values.
//!
//! A builder collects the parameters of one request. Its `start` turns them
//! into a [`Request`]: the route and the query to send.

pub mod query;
pub mod route;
pub mod user;

pub use self::query::Query;
pub use self::route::{Request, Route};
pub use self::user::{
    GetRecentEvents, GetUser, GetUserBeatmapsets, GetUserKudosu, GetUserMostPlayed, GetUserScores,
    GetUsers, UserId,
};
