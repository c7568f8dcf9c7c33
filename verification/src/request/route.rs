//! The endpoints that requests go to.

use super::query::Query;
use super::user::{UserId, UserIdView};
use crate::model::game_mode::GameMode;
use vstd::prelude::*;

verus! {

/// Which scores of a user a request asks for.
#[derive(Debug, Clone, Copy, PartialEq, Eq, Structural)]
pub enum ScoreType {
    Best,
    First,
    Recent,
}

/// The name by which the API knows `score_type`.
pub open spec fn score_type_name(score_type: ScoreType) -> Seq<char> {
    match score_type {
        ScoreType::Best => "best"@,
        ScoreType::First => "firsts"@,
        ScoreType::Recent => "recent"@,
    }
}

impl ScoreType {
    /// The name by which the API knows the score type.
    pub fn as_str(&self) -> (r: &'static str)
        ensures
            r@ == score_type_name(*self),
    {
        match self {
            ScoreType::Best => "best",
            ScoreType::First => "firsts",
            ScoreType::Recent => "recent",
        }
    }
}

/// An endpoint of the API with the values that its path is made of.
#[derive(Debug, PartialEq, Eq)]
#[allow(inconsistent_fields)]
pub enum Route {
    GetRecentEvents { user_id: u32 },
    GetUser { user_id: UserId, mode: Option<GameMode> },
    GetUserBeatmapsets { user_id: u32, map_type: &'static str },
    GetUserKudosu { user_id: u32 },
    GetUserScores { user_id: u32, score_type: ScoreType },
    GetUsers,
}

/// A [`Route`] with its strings taken as sequences of characters.
#[allow(inconsistent_fields)]
pub enum RouteView {
    GetRecentEvents { user_id: u32 },
    GetUser { user_id: UserIdView, mode: Option<GameMode> },
    GetUserBeatmapsets { user_id: u32, map_type: Seq<char> },
    GetUserKudosu { user_id: u32 },
    GetUserScores { user_id: u32, score_type: ScoreType },
    GetUsers,
}

impl View for Route {
    type V = RouteView;

    open spec fn view(&self) -> RouteView {
        match self {
            Route::GetRecentEvents { user_id } => RouteView::GetRecentEvents { user_id: *user_id },
            Route::GetUser { user_id, mode } => RouteView::GetUser {
                user_id: user_id@,
                mode: *mode,
            },
            Route::GetUserBeatmapsets { user_id, map_type } => RouteView::GetUserBeatmapsets {
                user_id: *user_id,
                map_type: map_type@,
            },
            Route::GetUserKudosu { user_id } => RouteView::GetUserKudosu { user_id: *user_id },
            Route::GetUserScores { user_id, score_type } => RouteView::GetUserScores {
                user_id: *user_id,
                score_type: *score_type,
            },
            Route::GetUsers => RouteView::GetUsers,
        }
    }
}

/// A request: where it goes and the parameters it carries.
#[derive(Debug, PartialEq, Eq)]
pub struct Request {
    pub query: Query,
    pub route: Route,
}

/// A [`Request`] with its strings taken as sequences of characters.
pub struct RequestView {
    pub query: Seq<(Seq<char>, Seq<char>)>,
    pub route: RouteView,
}

impl View for Request {
    type V = RequestView;

    open spec fn view(&self) -> RequestView {
        RequestView { query: self.query@, route: self.route@ }
    }
}

impl Request {
    /// The request to `route` without parameters.
    pub fn from_route(route: Route) -> (r: Self)
        ensures
            r@ == (RequestView { query: Seq::empty(), route: route@ }),
    {
        Request { query: Query::new(), route }
    }

    /// The request to `route` with the parameters `query`.
    pub fn from_parts(query: Query, route: Route) -> (r: Self)
        ensures
            r@ == (RequestView { query: query@, route: route@ }),
    {
        Request { query, route }
    }
}

} // verus!
