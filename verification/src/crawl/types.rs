//! Data structures of the crawl: rooms as discovery reports them, timeline
//! events as the walk reads them, and what one walk collects.

use crate::crawl::counts::{read_count, CountMap, TextSet};
use vstd::prelude::*;

verus! {

/// The text of an optional string.
pub open spec fn text_of(value: Option<String>) -> Option<Seq<char>> {
    match value {
        Some(s) => Some(s@),
        None => None,
    }
}

/// A copy of an optional string.
pub fn copy_text(value: &Option<String>) -> (same: Option<String>)
    ensures
        text_of(same) == text_of(*value),
{
    match value {
        Some(s) => Some(s.clone()),
        None => None,
    }
}

/// Whether the account is in the room, and how.
#[derive(Clone, Copy, Debug, PartialEq, Eq, Structural)]
pub enum RoomJoinState {
    Joined,
    Left,
    Invited,
    JoinedSpace,
}

/// A room as discovery reports it, with the latest event known for it: the
/// freshness hint of the crawl decision.
#[derive(Clone, Debug)]
pub struct RoomInfo {
    pub room_id: String,
    pub last_event_id: Option<String>,
    pub last_event_ts: Option<i64>,
    pub join_state: RoomJoinState,
}

/// A room of discovery as a value of specifications.
pub struct RoomInfoView {
    pub room_id: Seq<char>,
    pub last_event_id: Option<Seq<char>>,
    pub last_event_ts: Option<i64>,
    pub join_state: RoomJoinState,
}

impl View for RoomInfo {
    type V = RoomInfoView;

    open spec fn view(&self) -> RoomInfoView {
        RoomInfoView {
            room_id: self.room_id@,
            last_event_id: text_of(self.last_event_id),
            last_event_ts: self.last_event_ts,
            join_state: self.join_state,
        }
    }
}

impl RoomInfo {
    /// A joined room as discovery reports it. `last_event` is the latest
    /// event in memory, none where the room's cache could not be read.
    pub fn joined(room_id: &str, last_event: Option<(String, i64)>) -> (room: RoomInfo)
        ensures
            room@ == (RoomInfoView {
                room_id: room_id@,
                last_event_id: match last_event {
                    Some(e) => Some(e.0@),
                    None => None,
                },
                last_event_ts: match last_event {
                    Some(e) => Some(e.1),
                    None => None,
                },
                join_state: RoomJoinState::Joined,
            }),
    {
        match last_event {
            Some(event) => RoomInfo {
                room_id: room_id.to_owned(),
                last_event_id: Some(event.0),
                last_event_ts: Some(event.1),
                join_state: RoomJoinState::Joined,
            },
            None => RoomInfo {
                room_id: room_id.to_owned(),
                last_event_id: None,
                last_event_ts: None,
                join_state: RoomJoinState::Joined,
            },
        }
    }

    /// A room with the same content.
    pub fn copy(&self) -> (same: RoomInfo)
        ensures
            same@ == self@,
    {
        RoomInfo {
            room_id: self.room_id.clone(),
            last_event_id: copy_text(&self.last_event_id),
            last_event_ts: self.last_event_ts,
            join_state: self.join_state,
        }
    }
}

/// The rooms of a vector, as values of specifications.
pub open spec fn rooms_view(rooms: Seq<RoomInfo>) -> Seq<RoomInfoView> {
    Seq::new(rooms.len(), |i: int| rooms[i]@)
}

/// What one walk through a room leaves for the metadata store.
#[derive(Debug)]
pub struct RoomCrawlStats {
    pub room_id: String,
    pub oldest_event_id: Option<String>,
    pub oldest_ts: Option<i64>,
    pub newest_event_id: Option<String>,
    pub newest_ts: Option<i64>,
    pub fully_crawled: bool,
    pub room_name: String,
    pub total_events: usize,
    pub user_events: usize,
}

impl RoomCrawlStats {
    /// An oldest timestamp comes with a newest one that is no earlier.
    pub open spec fn covers_ordered(&self) -> bool {
        self.oldest_ts is Some ==> self.newest_ts is Some && self.oldest_ts->0
            <= self.newest_ts->0
    }
}

/// What a timeline event is, as far as the statistics care.
#[derive(Clone, Debug)]
pub enum EventKind {
    /// A message in clear text.
    Message,
    /// A message that is still encrypted.
    Encrypted,
    /// A reaction with `emoji` to the event `target_event_id`.
    Reaction { emoji: String, target_event_id: String },
    /// The state event that created the room.
    StateCreate,
    /// Anything else, also what could not be decoded.
    Other,
}

/// One event of a room's timeline.
#[derive(Clone, Debug)]
pub struct TimelineEvent {
    pub event_id: Option<String>,
    /// Milliseconds since 1970-01-01 00:00:00 UTC.
    pub timestamp: Option<i64>,
    pub sender: String,
    pub kind: EventKind,
}

/// One answer of backward pagination.
#[derive(Clone, Debug)]
pub struct BatchOutcome {
    pub events: Vec<TimelineEvent>,
    /// The walk has reached the creation of the room.
    pub reached_start: bool,
}

/// The kind of an event, as a value of specifications.
pub enum KindView {
    Message,
    Encrypted,
    Reaction { emoji: Seq<char>, target_event_id: Seq<char> },
    StateCreate,
    Other,
}

/// An event, as a value of specifications.
pub struct EventView {
    pub event_id: Option<Seq<char>>,
    pub timestamp: Option<i64>,
    pub sender: Seq<char>,
    pub kind: KindView,
}

impl View for EventKind {
    type V = KindView;

    open spec fn view(&self) -> KindView {
        match *self {
            EventKind::Message => KindView::Message,
            EventKind::Encrypted => KindView::Encrypted,
            EventKind::Reaction { emoji, target_event_id } => KindView::Reaction {
                emoji: emoji@,
                target_event_id: target_event_id@,
            },
            EventKind::StateCreate => KindView::StateCreate,
            EventKind::Other => KindView::Other,
        }
    }
}

impl View for TimelineEvent {
    type V = EventView;

    open spec fn view(&self) -> EventView {
        EventView {
            event_id: text_of(self.event_id),
            timestamp: self.timestamp,
            sender: self.sender@,
            kind: self.kind@,
        }
    }
}

/// What one walk through a room collects for the statistics: coverage,
/// counts, the buckets of the account's own messages by local time, and the
/// reactions to them.
#[derive(Debug)]
pub struct DetailedPaginationStats {
    pub fully_crawled: bool,
    pub oldest_event_id: Option<String>,
    pub oldest_ts: Option<i64>,
    pub newest_event_id: Option<String>,
    pub newest_ts: Option<i64>,
    pub total_events: usize,
    pub user_events: usize,
    pub by_year: CountMap,
    pub by_month: CountMap,
    pub by_week: CountMap,
    pub by_weekday: CountMap,
    pub by_day: CountMap,
    pub by_hour: CountMap,
    /// The ids of the account's own messages, which reactions are held to.
    pub user_message_ids: TextSet,
    pub reactions_by_emoji: CountMap,
    /// Reactions by the id of the message they answer.
    pub reactions_by_message: CountMap,
    pub room_created_by_user: bool,
    /// The local dates, `YYYY-MM-DD`, on which the account wrote.
    pub active_dates: TextSet,
}

/// `DetailedPaginationStats` as a value of specifications.
pub struct StatsView {
    pub fully_crawled: bool,
    pub oldest_event_id: Option<Seq<char>>,
    pub oldest_ts: Option<i64>,
    pub newest_event_id: Option<Seq<char>>,
    pub newest_ts: Option<i64>,
    pub total_events: int,
    pub user_events: int,
    pub by_year: Map<Seq<char>, int>,
    pub by_month: Map<Seq<char>, int>,
    pub by_week: Map<Seq<char>, int>,
    pub by_weekday: Map<Seq<char>, int>,
    pub by_day: Map<Seq<char>, int>,
    pub by_hour: Map<Seq<char>, int>,
    pub user_message_ids: Set<Seq<char>>,
    pub reactions_by_emoji: Map<Seq<char>, int>,
    pub reactions_by_message: Map<Seq<char>, int>,
    pub room_created_by_user: bool,
    pub active_dates: Set<Seq<char>>,
}

impl View for DetailedPaginationStats {
    type V = StatsView;

    open spec fn view(&self) -> StatsView {
        StatsView {
            fully_crawled: self.fully_crawled,
            oldest_event_id: text_of(self.oldest_event_id),
            oldest_ts: self.oldest_ts,
            newest_event_id: text_of(self.newest_event_id),
            newest_ts: self.newest_ts,
            total_events: self.total_events as int,
            user_events: self.user_events as int,
            by_year: self.by_year@,
            by_month: self.by_month@,
            by_week: self.by_week@,
            by_weekday: self.by_weekday@,
            by_day: self.by_day@,
            by_hour: self.by_hour@,
            user_message_ids: self.user_message_ids@,
            reactions_by_emoji: self.reactions_by_emoji@,
            reactions_by_message: self.reactions_by_message@,
            room_created_by_user: self.room_created_by_user,
            active_dates: self.active_dates@,
        }
    }
}

/// Every count of `counts` is at most `limit`.
pub open spec fn counts_at_most(counts: Map<Seq<char>, int>, limit: int) -> bool {
    forall|k: Seq<char>| read_count(counts, k) <= limit
}

impl StatsView {
    /// No counter exceeds `limit`.
    pub open spec fn at_most(self, limit: int) -> bool {
        &&& self.total_events <= limit
        &&& self.user_events <= limit
        &&& counts_at_most(self.by_year, limit)
        &&& counts_at_most(self.by_month, limit)
        &&& counts_at_most(self.by_week, limit)
        &&& counts_at_most(self.by_weekday, limit)
        &&& counts_at_most(self.by_day, limit)
        &&& counts_at_most(self.by_hour, limit)
        &&& counts_at_most(self.reactions_by_emoji, limit)
        &&& counts_at_most(self.reactions_by_message, limit)
    }

    /// Once an event has been seen, the oldest and the newest event are
    /// known, and the oldest is no newer than the newest.
    pub open spec fn extrema_ordered(self) -> bool {
        self.oldest_ts is Some ==> self.newest_ts is Some && self.oldest_ts->0
            <= self.newest_ts->0
    }
}

impl DetailedPaginationStats {
    /// Every map and set is in order.
    pub open spec fn wf(&self) -> bool {
        &&& self.by_year.wf()
        &&& self.by_month.wf()
        &&& self.by_week.wf()
        &&& self.by_weekday.wf()
        &&& self.by_day.wf()
        &&& self.by_hour.wf()
        &&& self.user_message_ids.wf()
        &&& self.reactions_by_emoji.wf()
        &&& self.reactions_by_message.wf()
        &&& self.active_dates.wf()
    }

    /// The statistics of a walk that has seen no event yet.
    pub open spec fn initial(newest_event_id: Option<Seq<char>>, newest_ts: Option<i64>) -> StatsView {
        StatsView {
            fully_crawled: false,
            oldest_event_id: None,
            oldest_ts: None,
            newest_event_id: newest_event_id,
            newest_ts: newest_ts,
            total_events: 0,
            user_events: 0,
            by_year: Map::empty(),
            by_month: Map::empty(),
            by_week: Map::empty(),
            by_weekday: Map::empty(),
            by_day: Map::empty(),
            by_hour: Map::empty(),
            user_message_ids: Set::empty(),
            reactions_by_emoji: Map::empty(),
            reactions_by_message: Map::empty(),
            room_created_by_user: false,
            active_dates: Set::empty(),
        }
    }

    /// The statistics of a walk that has seen nothing yet but the newest
    /// event that was in memory before it began, if there was one.
    pub fn new(newest_event_id_initial: Option<String>, newest_ts_initial: Option<i64>) -> (stats:
        DetailedPaginationStats)
        ensures
            stats.wf(),
            stats@ == Self::initial(text_of(newest_event_id_initial), newest_ts_initial),
    {
        let stats = DetailedPaginationStats {
            fully_crawled: false,
            oldest_event_id: None,
            oldest_ts: None,
            newest_event_id: newest_event_id_initial,
            newest_ts: newest_ts_initial,
            total_events: 0,
            user_events: 0,
            by_year: CountMap::new(),
            by_month: CountMap::new(),
            by_week: CountMap::new(),
            by_weekday: CountMap::new(),
            by_day: CountMap::new(),
            by_hour: CountMap::new(),
            user_message_ids: TextSet::new(),
            reactions_by_emoji: CountMap::new(),
            reactions_by_message: CountMap::new(),
            room_created_by_user: false,
            active_dates: TextSet::new(),
        };
        assert(stats.by_year@ =~= Map::empty());
        assert(stats.by_month@ =~= Map::empty());
        assert(stats.by_week@ =~= Map::empty());
        assert(stats.by_weekday@ =~= Map::empty());
        assert(stats.by_day@ =~= Map::empty());
        assert(stats.by_hour@ =~= Map::empty());
        assert(stats.reactions_by_emoji@ =~= Map::empty());
        assert(stats.reactions_by_message@ =~= Map::empty());
        stats
    }
}

} // verus!
