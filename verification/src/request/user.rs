//! The requests for users and what belongs to them.

use super::query::{decimal, decimal_string, Query};
use super::route::{Request, RequestView, Route, RouteView, ScoreType};
use crate::model::beatmap::RankStatus;
use crate::model::game_mode::{mode_name, GameMode};
use vstd::pervasive::unreached;
use vstd::prelude::*;

verus! {

/// Either a user id or a user name.
#[derive(Debug, Clone, PartialEq, Eq)]
pub enum UserId {
    Id(u32),
    Name(String),
}

/// A [`UserId`] with the name taken as a sequence of characters.
pub enum UserIdView {
    Id(u32),
    Name(Seq<char>),
}

impl View for UserId {
    type V = UserIdView;

    open spec fn view(&self) -> UserIdView {
        match self {
            UserId::Id(id) => UserIdView::Id(*id),
            UserId::Name(name) => UserIdView::Name(name@),
        }
    }
}

/// How `user_id` is written in a path: the id in decimal, or the name as it
/// is.
pub open spec fn user_id_text(user_id: UserIdView) -> Seq<char> {
    match user_id {
        UserIdView::Id(id) => decimal(id as nat),
        UserIdView::Name(name) => name,
    }
}

impl From<u32> for UserId {
    fn from(id: u32) -> (r: Self)
        ensures
            r@ == UserIdView::Id(id),
    {
        UserId::Id(id)
    }
}

impl vstd::std_specs::convert::FromSpecImpl<u32> for UserId {
    open spec fn obeys_from_spec() -> bool {
        true
    }

    open spec fn from_spec(id: u32) -> Self {
        UserId::Id(id)
    }
}

impl From<String> for UserId {
    fn from(name: String) -> (r: Self)
        ensures
            r@ == UserIdView::Name(name@),
    {
        UserId::Name(name)
    }
}

impl vstd::std_specs::convert::FromSpecImpl<String> for UserId {
    open spec fn obeys_from_spec() -> bool {
        true
    }

    open spec fn from_spec(name: String) -> Self {
        UserId::Name(name)
    }
}

impl From<&str> for UserId {
    fn from(name: &str) -> (r: Self)
        ensures
            r@ == UserIdView::Name(name@),
    {
        UserId::Name(name.to_owned())
    }
}

/// The string that conversion makes is a new one, so the result is stated
/// by its view, on `from` itself.
impl vstd::std_specs::convert::FromSpecImpl<&str> for UserId {
    open spec fn obeys_from_spec() -> bool {
        false
    }

    open spec fn from_spec(name: &str) -> Self {
        arbitrary()
    }
}

impl From<&String> for UserId {
    fn from(name: &String) -> (r: Self)
        ensures
            r@ == UserIdView::Name(name@),
    {
        UserId::Name(name.clone())
    }
}

/// The string that conversion makes is a new one, so the result is stated
/// by its view, on `from` itself.
impl vstd::std_specs::convert::FromSpecImpl<&String> for UserId {
    open spec fn obeys_from_spec() -> bool {
        false
    }

    open spec fn from_spec(name: &String) -> Self {
        arbitrary()
    }
}

impl UserId {

    /// How the id is written in a path.
    pub fn to_string(&self) -> (r: String)
        ensures
            r@ == user_id_text(self@),
    {
        match self {
            UserId::Id(id) => decimal_string(*id as u64),
            UserId::Name(name) => name.clone(),
        }
    }
}

/// The parameters `limit` and `offset` as far as they are set, in this
/// order, each in decimal.
pub open spec fn paging_pairs(limit: Option<usize>, offset: Option<usize>) -> Seq<
    (Seq<char>, Seq<char>),
> {
    let first = match limit {
        Some(limit) => seq![("limit"@, decimal(limit as nat))],
        None => Seq::empty(),
    };
    let second = match offset {
        Some(offset) => seq![("offset"@, decimal(offset as nat))],
        None => Seq::empty(),
    };
    first + second
}

/// The query with the parameters `limit` and `offset` as far as they are set.
fn paging_query(limit: Option<usize>, offset: Option<usize>) -> (r: Query)
    ensures
        r@ == paging_pairs(limit, offset),
{
    let mut query = Query::new();
    if let Some(limit) = limit {
        query.push("limit", decimal_string(limit as u64));
    }
    if let Some(offset) = offset {
        query.push("offset", decimal_string(offset as u64));
    }
    assert(query@ =~= paging_pairs(limit, offset));
    query
}

/// Gets a user by id or by name.
#[must_use]
pub struct GetUser {
    user_id: Option<UserId>,
    mode: Option<GameMode>,
}

/// What a [`GetUser`] holds. The user is there until the request was
/// started.
pub struct GetUserView {
    pub user_id: Option<UserIdView>,
    pub mode: Option<GameMode>,
}

impl View for GetUser {
    type V = GetUserView;

    closed spec fn view(&self) -> GetUserView {
        GetUserView {
            user_id: match self.user_id {
                Some(user_id) => Some(user_id@),
                None => None,
            },
            mode: self.mode,
        }
    }
}

impl GetUser {
    /// The request for the user `user_id`.
    pub fn new(user_id: UserId) -> (r: Self)
        ensures
            r@ == (GetUserView { user_id: Some(user_id@), mode: None }),
    {
        GetUser { user_id: Some(user_id), mode: None }
    }

    /// Asks for the user's statistics in the mode `mode`.
    pub fn mode(self, mode: GameMode) -> (r: Self)
        ensures
            r@ == (GetUserView { mode: Some(mode), ..self@ }),
    {
        let mut this = self;
        this.mode = Some(mode);
        this
    }

    /// Whether the request was started already.
    pub fn is_started(&self) -> (r: bool)
        ensures
            r == (self@.user_id is None),
    {
        self.user_id.is_none()
    }

    /// The request to send: no parameters, sent to the user in the chosen
    /// mode. It takes the user out of the builder, so a builder starts once.
    pub fn start(&mut self) -> (r: Request)
        requires
            old(self)@.user_id is Some,
        ensures
            r@ == (RequestView {
                query: Seq::empty(),
                route: RouteView::GetUser {
                    user_id: old(self)@.user_id.unwrap(),
                    mode: old(self)@.mode,
                },
            }),
            final(self)@ == (GetUserView { user_id: None, mode: old(self)@.mode }),
    {
        let user_id = match self.user_id.take() {
            Some(user_id) => user_id,
            None => unreached(),
        };
        Request::from_route(Route::GetUser { user_id, mode: self.mode })
    }
}

/// The greatest number of users that one request can ask for.
pub const MAX_USERS: usize = 50;

/// The parameters that ask for the users `user_ids`: one `id[]` for each of
/// the first 50, in their order.
pub open spec fn users_pairs(user_ids: Seq<u32>) -> Seq<(Seq<char>, Seq<char>)> {
    Seq::new(
        if user_ids.len() <= MAX_USERS {
            user_ids.len()
        } else {
            MAX_USERS as nat
        },
        |i: int| ("id[]"@, decimal(user_ids[i] as nat)),
    )
}

/// Gets several users by their ids.
#[must_use]
pub struct GetUsers {
    query: Option<Query>,
}

impl View for GetUsers {
    type V = Option<Seq<(Seq<char>, Seq<char>)>>;

    /// The parameters, until the request was started.
    closed spec fn view(&self) -> Option<Seq<(Seq<char>, Seq<char>)>> {
        match self.query {
            Some(query) => Some(query@),
            None => None,
        }
    }
}

impl GetUsers {
    /// The request for the users `user_ids`. Of more than 50 ids, only the
    /// first 50 are asked for.
    pub fn new(user_ids: &[u32]) -> (r: Self)
        ensures
            r@ == Some(users_pairs(user_ids@)),
    {
        let mut query = Query::new();
        let count: usize = if user_ids.len() <= MAX_USERS {
            user_ids.len()
        } else {
            MAX_USERS
        };
        let mut i: usize = 0;
        while i < count
            invariant
                i <= count <= user_ids@.len(),
                query@.len() == i,
                forall|j: int|
                    0 <= j < i ==> #[trigger] query@[j] == ("id[]"@, decimal(user_ids@[j] as nat)),
            decreases count - i,
        {
            query.push("id[]", decimal_string(user_ids[i] as u64));
            i += 1;
        }
        assert(query@ =~= users_pairs(user_ids@));
        GetUsers { query: Some(query) }
    }

    /// Whether the request was started already.
    pub fn is_started(&self) -> (r: bool)
        ensures
            r == (self@ is None),
    {
        self.query.is_none()
    }

    /// The request to send: the parameters, sent to the users. It takes the
    /// parameters out of the builder, so a builder starts once.
    pub fn start(&mut self) -> (r: Request)
        requires
            old(self)@ is Some,
        ensures
            r@ == (RequestView { query: old(self)@.unwrap(), route: RouteView::GetUsers }),
            final(self)@ is None,
    {
        let query = match self.query.take() {
            Some(query) => query,
            None => unreached(),
        };
        Request::from_parts(query, Route::GetUsers)
    }
}

/// The name by which the API knows the beatmapsets of the status `status`.
pub open spec fn map_type_name(status: RankStatus) -> Seq<char> {
    match status {
        RankStatus::Approved | RankStatus::Ranked => "ranked_and_approved"@,
        RankStatus::Graveyard => "graveyard"@,
        RankStatus::Pending | RankStatus::WIP | RankStatus::Qualified => "unranked"@,
        RankStatus::Loved => "loved"@,
    }
}

/// Gets the beatmapsets of a user, by the user's id.
///
/// Unless a map type is chosen, by
/// [`map_type`](GetUserBeatmapsets::map_type) or by one of
/// [`loved`](GetUserBeatmapsets::loved),
/// [`favourite`](GetUserBeatmapsets::favourite),
/// [`graveyard`](GetUserBeatmapsets::graveyard),
/// [`ranked_and_approved`](GetUserBeatmapsets::ranked_and_approved) and
/// [`unranked`](GetUserBeatmapsets::unranked), the ranked and approved ones
/// are asked for.
#[must_use]
pub struct GetUserBeatmapsets {
    user_id: u32,
    map_type: &'static str,
    limit: Option<usize>,
    offset: Option<usize>,
}

/// What a [`GetUserBeatmapsets`] holds.
pub struct GetUserBeatmapsetsView {
    pub user_id: u32,
    pub map_type: Seq<char>,
    pub limit: Option<usize>,
    pub offset: Option<usize>,
}

impl View for GetUserBeatmapsets {
    type V = GetUserBeatmapsetsView;

    closed spec fn view(&self) -> GetUserBeatmapsetsView {
        GetUserBeatmapsetsView {
            user_id: self.user_id,
            map_type: self.map_type@,
            limit: self.limit,
            offset: self.offset,
        }
    }
}

/// The request that a [`GetUserBeatmapsets`] stands for: the limit and the
/// offset, as far as they are set, sent to the beatmapsets of the user that
/// are of the chosen type.
pub open spec fn user_beatmapsets_request(builder: GetUserBeatmapsetsView) -> RequestView {
    RequestView {
        query: paging_pairs(builder.limit, builder.offset),
        route: RouteView::GetUserBeatmapsets {
            user_id: builder.user_id,
            map_type: builder.map_type,
        },
    }
}

impl GetUserBeatmapsets {
    /// The request for the ranked and approved beatmapsets of the user
    /// `user_id`.
    pub fn new(user_id: u32) -> (r: Self)
        ensures
            r@ == (GetUserBeatmapsetsView {
                user_id,
                map_type: "ranked_and_approved"@,
                limit: None,
                offset: None,
            }),
    {
        GetUserBeatmapsets { user_id, map_type: "ranked_and_approved", limit: None, offset: None }
    }

    /// Asks for at most `limit` beatmapsets.
    pub fn limit(self, limit: usize) -> (r: Self)
        ensures
            r@ == (GetUserBeatmapsetsView { limit: Some(limit), ..self@ }),
    {
        let mut this = self;
        this.limit = Some(limit);
        this
    }

    /// Skips the first `offset` beatmapsets.
    pub fn offset(self, offset: usize) -> (r: Self)
        ensures
            r@ == (GetUserBeatmapsetsView { offset: Some(offset), ..self@ }),
    {
        let mut this = self;
        this.offset = Some(offset);
        this
    }

    /// Asks for the beatmapsets of the type that `map_type` falls under.
    pub fn map_type(self, map_type: RankStatus) -> (r: Self)
        ensures
            r@ == (GetUserBeatmapsetsView { map_type: map_type_name(map_type), ..self@ }),
    {
        let mut this = self;
        this.map_type = match map_type {
            RankStatus::Approved | RankStatus::Ranked => "ranked_and_approved",
            RankStatus::Graveyard => "graveyard",
            RankStatus::Pending | RankStatus::WIP | RankStatus::Qualified => "unranked",
            RankStatus::Loved => "loved",
        };
        this
    }

    /// Asks for the loved beatmapsets.
    pub fn loved(self) -> (r: Self)
        ensures
            r@ == (GetUserBeatmapsetsView { map_type: "loved"@, ..self@ }),
    {
        let mut this = self;
        this.map_type = "loved";
        this
    }

    /// Asks for the beatmapsets that the user marked as favourites.
    pub fn favourite(self) -> (r: Self)
        ensures
            r@ == (GetUserBeatmapsetsView { map_type: "favourite"@, ..self@ }),
    {
        let mut this = self;
        this.map_type = "favourite";
        this
    }

    /// Asks for the beatmapsets in the graveyard.
    pub fn graveyard(self) -> (r: Self)
        ensures
            r@ == (GetUserBeatmapsetsView { map_type: "graveyard"@, ..self@ }),
    {
        let mut this = self;
        this.map_type = "graveyard";
        this
    }

    /// Asks for the ranked and approved beatmapsets.
    pub fn ranked_and_approved(self) -> (r: Self)
        ensures
            r@ == (GetUserBeatmapsetsView { map_type: "ranked_and_approved"@, ..self@ }),
    {
        let mut this = self;
        this.map_type = "ranked_and_approved";
        this
    }

    /// Asks for the beatmapsets that are pending, in progress or qualified.
    pub fn unranked(self) -> (r: Self)
        ensures
            r@ == (GetUserBeatmapsetsView { map_type: "unranked"@, ..self@ }),
    {
        let mut this = self;
        this.map_type = "unranked";
        this
    }

    /// The request to send. The builder stays as it is.
    pub fn start(&mut self) -> (r: Request)
        ensures
            r@ == user_beatmapsets_request(old(self)@),
            final(self)@ == old(self)@,
    {
        let query = paging_query(self.limit, self.offset);
        Request::from_parts(
            query,
            Route::GetUserBeatmapsets { user_id: self.user_id, map_type: self.map_type },
        )
    }
}

/// Gets the kudosu history of a user, by the user's id.
#[must_use]
pub struct GetUserKudosu {
    user_id: u32,
    limit: Option<usize>,
    offset: Option<usize>,
}

/// What a [`GetUserKudosu`] holds.
pub struct GetUserKudosuView {
    pub user_id: u32,
    pub limit: Option<usize>,
    pub offset: Option<usize>,
}

impl View for GetUserKudosu {
    type V = GetUserKudosuView;

    closed spec fn view(&self) -> GetUserKudosuView {
        GetUserKudosuView { user_id: self.user_id, limit: self.limit, offset: self.offset }
    }
}

/// The request that a [`GetUserKudosu`] stands for: the limit and the
/// offset, as far as they are set, sent to the kudosu history of the user.
pub open spec fn kudosu_request(builder: GetUserKudosuView) -> RequestView {
    RequestView {
        query: paging_pairs(builder.limit, builder.offset),
        route: RouteView::GetUserKudosu { user_id: builder.user_id },
    }
}

impl GetUserKudosu {
    /// The request for the kudosu history of the user `user_id`.
    pub fn new(user_id: u32) -> (r: Self)
        ensures
            r@ == (GetUserKudosuView { user_id, limit: None, offset: None }),
    {
        GetUserKudosu { user_id, limit: None, offset: None }
    }

    /// Asks for at most `limit` entries.
    pub fn limit(self, limit: usize) -> (r: Self)
        ensures
            r@ == (GetUserKudosuView { limit: Some(limit), ..self@ }),
    {
        let mut this = self;
        this.limit = Some(limit);
        this
    }

    /// Skips the first `offset` entries.
    pub fn offset(self, offset: usize) -> (r: Self)
        ensures
            r@ == (GetUserKudosuView { offset: Some(offset), ..self@ }),
    {
        let mut this = self;
        this.offset = Some(offset);
        this
    }

    /// The request to send. The builder stays as it is.
    pub fn start(&mut self) -> (r: Request)
        ensures
            r@ == kudosu_request(old(self)@),
            final(self)@ == old(self)@,
    {
        let query = paging_query(self.limit, self.offset);
        Request::from_parts(query, Route::GetUserKudosu { user_id: self.user_id })
    }
}

/// Gets the beatmaps that a user has played most, by the user's id.
#[must_use]
pub struct GetUserMostPlayed {
    user_id: u32,
    limit: Option<usize>,
    offset: Option<usize>,
}

/// What a [`GetUserMostPlayed`] holds.
pub struct GetUserMostPlayedView {
    pub user_id: u32,
    pub limit: Option<usize>,
    pub offset: Option<usize>,
}

impl View for GetUserMostPlayed {
    type V = GetUserMostPlayedView;

    closed spec fn view(&self) -> GetUserMostPlayedView {
        GetUserMostPlayedView { user_id: self.user_id, limit: self.limit, offset: self.offset }
    }
}

/// The request that a [`GetUserMostPlayed`] stands for: the limit and the
/// offset, as far as they are set, sent to the most played beatmaps among
/// the beatmapsets of the user.
pub open spec fn most_played_request(builder: GetUserMostPlayedView) -> RequestView {
    RequestView {
        query: paging_pairs(builder.limit, builder.offset),
        route: RouteView::GetUserBeatmapsets {
            user_id: builder.user_id,
            map_type: "most_played"@,
        },
    }
}

impl GetUserMostPlayed {
    /// The request for the most played beatmaps of the user `user_id`.
    pub fn new(user_id: u32) -> (r: Self)
        ensures
            r@ == (GetUserMostPlayedView { user_id, limit: None, offset: None }),
    {
        GetUserMostPlayed { user_id, limit: None, offset: None }
    }

    /// Asks for at most `limit` beatmaps. The API provides at most 51 results
    /// per request.
    pub fn limit(self, limit: usize) -> (r: Self)
        ensures
            r@ == (GetUserMostPlayedView { limit: Some(limit), ..self@ }),
    {
        let mut this = self;
        this.limit = Some(limit);
        this
    }

    /// Skips the first `offset` entries.
    pub fn offset(self, offset: usize) -> (r: Self)
        ensures
            r@ == (GetUserMostPlayedView { offset: Some(offset), ..self@ }),
    {
        let mut this = self;
        this.offset = Some(offset);
        this
    }

    /// The request to send. The builder stays as it is.
    pub fn start(&mut self) -> (r: Request)
        ensures
            r@ == most_played_request(old(self)@),
            final(self)@ == old(self)@,
    {
        let query = paging_query(self.limit, self.offset);
        Request::from_parts(
            query,
            Route::GetUserBeatmapsets { user_id: self.user_id, map_type: "most_played" },
        )
    }
}

/// Gets the recent events of a user, by the user's id.
#[must_use]
pub struct GetRecentEvents {
    user_id: u32,
    limit: Option<usize>,
    offset: Option<usize>,
}

/// What a [`GetRecentEvents`] holds.
pub struct GetRecentEventsView {
    pub user_id: u32,
    pub limit: Option<usize>,
    pub offset: Option<usize>,
}

impl View for GetRecentEvents {
    type V = GetRecentEventsView;

    closed spec fn view(&self) -> GetRecentEventsView {
        GetRecentEventsView { user_id: self.user_id, limit: self.limit, offset: self.offset }
    }
}

/// The request that a [`GetRecentEvents`] stands for: the limit and the
/// offset, as far as they are set, sent to the recent events of the user.
pub open spec fn recent_events_request(builder: GetRecentEventsView) -> RequestView {
    RequestView {
        query: paging_pairs(builder.limit, builder.offset),
        route: RouteView::GetRecentEvents { user_id: builder.user_id },
    }
}

impl GetRecentEvents {
    /// The request for the recent events of the user `user_id`.
    pub fn new(user_id: u32) -> (r: Self)
        ensures
            r@ == (GetRecentEventsView { user_id, limit: None, offset: None }),
    {
        GetRecentEvents { user_id, limit: None, offset: None }
    }

    /// Asks for at most `limit` events.
    pub fn limit(self, limit: usize) -> (r: Self)
        ensures
            r@ == (GetRecentEventsView { limit: Some(limit), ..self@ }),
    {
        let mut this = self;
        this.limit = Some(limit);
        this
    }

    /// Skips the first `offset` entries.
    pub fn offset(self, offset: usize) -> (r: Self)
        ensures
            r@ == (GetRecentEventsView { offset: Some(offset), ..self@ }),
    {
        let mut this = self;
        this.offset = Some(offset);
        this
    }

    /// The request to send. The builder stays as it is.
    pub fn start(&mut self) -> (r: Request)
        ensures
            r@ == recent_events_request(old(self)@),
            final(self)@ == old(self)@,
    {
        let query = paging_query(self.limit, self.offset);
        Request::from_parts(query, Route::GetRecentEvents { user_id: self.user_id })
    }
}

/// Gets the scores of a user by the user's id.
///
/// Unless [`firsts`](GetUserScores::firsts) or
/// [`recent`](GetUserScores::recent) is called, the best scores are asked
/// for.
#[must_use]
pub struct GetUserScores {
    user_id: u32,
    score_type: ScoreType,
    limit: Option<usize>,
    offset: Option<usize>,
    include_fails: Option<bool>,
    mode: Option<GameMode>,
}

/// What a [`GetUserScores`] holds.
pub struct GetUserScoresView {
    pub user_id: u32,
    pub score_type: ScoreType,
    pub limit: Option<usize>,
    pub offset: Option<usize>,
    pub include_fails: Option<bool>,
    pub mode: Option<GameMode>,
}

impl View for GetUserScores {
    type V = GetUserScoresView;

    closed spec fn view(&self) -> GetUserScoresView {
        GetUserScoresView {
            user_id: self.user_id,
            score_type: self.score_type,
            limit: self.limit,
            offset: self.offset,
            include_fails: self.include_fails,
            mode: self.mode,
        }
    }
}

/// The request that a [`GetUserScores`] stands for: the limit, the offset,
/// the mode and whether fails are included, as far as they are set and in
/// this order, sent to the scores of the user.
pub open spec fn user_scores_request(builder: GetUserScoresView) -> RequestView {
    let mode = match builder.mode {
        Some(mode) => seq![("mode"@, mode_name(mode))],
        None => Seq::empty(),
    };
    let include_fails = match builder.include_fails {
        Some(include_fails) => seq![
            ("include_fails"@, decimal(if include_fails { 1nat } else { 0nat })),
        ],
        None => Seq::empty(),
    };
    RequestView {
        query: paging_pairs(builder.limit, builder.offset) + mode + include_fails,
        route: RouteView::GetUserScores {
            user_id: builder.user_id,
            score_type: builder.score_type,
        },
    }
}

impl GetUserScores {
    /// The request for the best scores of the user `user_id`.
    pub fn new(user_id: u32) -> (r: Self)
        ensures
            r@ == (GetUserScoresView {
                user_id,
                score_type: ScoreType::Best,
                limit: None,
                offset: None,
                include_fails: None,
                mode: None,
            }),
    {
        GetUserScores {
            user_id,
            score_type: ScoreType::Best,
            limit: None,
            offset: None,
            include_fails: None,
            mode: None,
        }
    }

    /// Asks for at most `limit` scores. The API provides at most 51 results
    /// per request.
    pub fn limit(self, limit: usize) -> (r: Self)
        ensures
            r@ == (GetUserScoresView { limit: Some(limit), ..self@ }),
    {
        let mut this = self;
        this.limit = Some(limit);
        this
    }

    /// Skips the first `offset` scores.
    pub fn offset(self, offset: usize) -> (r: Self)
        ensures
            r@ == (GetUserScoresView { offset: Some(offset), ..self@ }),
    {
        let mut this = self;
        this.offset = Some(offset);
        this
    }

    /// Asks for scores in the mode `mode`.
    pub fn mode(self, mode: GameMode) -> (r: Self)
        ensures
            r@ == (GetUserScoresView { mode: Some(mode), ..self@ }),
    {
        let mut this = self;
        this.mode = Some(mode);
        this
    }

    /// Says whether failed scores are asked for too.
    pub fn include_fails(self, include_fails: bool) -> (r: Self)
        ensures
            r@ == (GetUserScoresView { include_fails: Some(include_fails), ..self@ }),
    {
        let mut this = self;
        this.include_fails = Some(include_fails);
        this
    }

    /// Asks for the top scores of the user.
    pub fn best(self) -> (r: Self)
        ensures
            r@ == (GetUserScoresView { score_type: ScoreType::Best, ..self@ }),
    {
        let mut this = self;
        this.score_type = ScoreType::Best;
        this
    }

    /// Asks for the global first places of the user.
    pub fn firsts(self) -> (r: Self)
        ensures
            r@ == (GetUserScoresView { score_type: ScoreType::First, ..self@ }),
    {
        let mut this = self;
        this.score_type = ScoreType::First;
        this
    }

    /// Asks for the recent scores of the user.
    pub fn recent(self) -> (r: Self)
        ensures
            r@ == (GetUserScoresView { score_type: ScoreType::Recent, ..self@ }),
    {
        let mut this = self;
        this.score_type = ScoreType::Recent;
        this
    }

    /// The request to send. The builder stays as it is.
    pub fn start(&mut self) -> (r: Request)
        ensures
            r@ == user_scores_request(old(self)@),
            final(self)@ == old(self)@,
    {
        let mut query = paging_query(self.limit, self.offset);
        if let Some(mode) = self.mode {
            query.push("mode", mode.to_string());
        }
        if let Some(include_fails) = self.include_fails {
            let flag: u64 = if include_fails {
                1
            } else {
                0
            };
            query.push("include_fails", decimal_string(flag));
        }
        assert(query@ =~= user_scores_request(self@).query);
        Request::from_parts(
            query,
            Route::GetUserScores { user_id: self.user_id, score_type: self.score_type },
        )
    }
}

} // verus!
