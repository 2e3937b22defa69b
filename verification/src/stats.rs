//! The statistics document of an account.

use crate::crawl::counts::CountMap;
use vstd::prelude::*;

verus! {

/// The kind of time span that a window covers.
#[derive(Clone, Copy, Debug, PartialEq, Eq, Structural)]
pub enum ScopeKind {
    Year,
    Month,
    Week,
    Day,
    Life,
}

/// The window that the document is about.
#[derive(Debug)]
pub struct Scope {
    pub kind: ScopeKind,
    pub key: String,
    pub label: Option<String>,
}

/// The statistics document.
#[derive(Debug)]
pub struct Stats {
    pub schema_version: i32,
    pub scope: Scope,
    /// The local date on which the document was made, `YYYY-MM-DD`.
    pub generated_at: String,
    pub account: Account,
    pub coverage: Coverage,
    pub summary: Summary,
    pub activity: Option<Activity>,
    pub rooms: Option<Rooms>,
    pub reactions: Option<Reactions>,
    pub created_rooms: Option<CreatedRooms>,
}

#[derive(Debug)]
pub struct Account {
    pub user_id: String,
    pub display_name: Option<String>,
    pub avatar_url: Option<String>,
    pub rooms_total: i32,
}

/// The days that the document covers, `YYYY-MM-DD`, and on how many of
/// them the account wrote.
#[derive(Debug)]
pub struct Coverage {
    pub from: String,
    pub to: String,
    pub days_active: Option<i32>,
}

#[derive(Debug)]
pub struct Summary {
    pub messages_sent: i32,
    pub active_rooms: i32,
    pub dm_rooms: Option<i32>,
    pub public_rooms: Option<i32>,
    pub private_rooms: Option<i32>,
    pub peaks: Option<Peaks>,
}

/// The fullest bucket of each family.
#[derive(Debug)]
pub struct Peaks {
    pub year: Option<PeakYear>,
    pub month: Option<PeakMonth>,
    pub week: Option<PeakWeek>,
    pub day: Option<PeakDay>,
    pub hour: Option<PeakHour>,
}

#[derive(Debug)]
pub struct PeakYear {
    pub year: String,
    pub messages: i32,
}

#[derive(Debug)]
pub struct PeakMonth {
    pub month: String,
    pub messages: i32,
}

#[derive(Debug)]
pub struct PeakWeek {
    pub week: String,
    pub messages: i32,
}

#[derive(Debug)]
pub struct PeakDay {
    pub day: String,
    pub messages: i32,
}

#[derive(Debug)]
pub struct PeakHour {
    pub hour: String,
    pub messages: i32,
    pub date: Option<String>,
}

#[derive(Clone, Copy, Debug, PartialEq, Eq, Structural)]
pub struct MessagesByRoomType {
    pub dm: Option<i32>,
    pub public: Option<i32>,
    pub private: Option<i32>,
}

/// The buckets of the account's messages by local time.
#[derive(Debug)]
pub struct Activity {
    pub by_year: Option<CountMap>,
    pub by_month: Option<CountMap>,
    pub by_week: Option<CountMap>,
    pub by_weekday: Option<CountMap>,
    pub by_day: Option<CountMap>,
    pub by_hour: Option<CountMap>,
}

#[derive(Debug)]
pub struct Rooms {
    pub total: i32,
    pub top: Option<Vec<RoomEntry>>,
    pub messages_by_room_type: Option<MessagesByRoomType>,
}

/// One of the rooms in which the account wrote most. Its share of all
/// messages is `messages` out of `of_total`.
#[derive(Debug)]
pub struct RoomEntry {
    pub name: Option<String>,
    pub messages: i32,
    /// The messages of the account in all rooms, where that is more than 0.
    pub of_total: Option<i32>,
    pub permalink: String,
}

#[derive(Debug)]
pub struct Reactions {
    pub total: Option<i32>,
    pub top_emojis: Option<Vec<EmojiEntry>>,
    pub top_messages: Option<Vec<MessageReactionEntry>>,
}

#[derive(Debug)]
pub struct EmojiEntry {
    pub emoji: String,
    pub count: i32,
}

#[derive(Debug)]
pub struct MessageReactionEntry {
    pub permalink: String,
    pub reaction_count: i32,
}

#[derive(Clone, Copy, Debug, PartialEq, Eq, Structural)]
pub struct CreatedRooms {
    pub total: i32,
    pub dm_rooms: Option<i32>,
    pub public_rooms: Option<i32>,
    pub private_rooms: Option<i32>,
}

/// Why no document could be made.
#[derive(Clone, Copy, Debug, PartialEq, Eq, Structural)]
pub enum StatsError {
    /// A number of the document does not fit in 32 bits.
    CountOverflow,
}

impl View for EmojiEntry {
    type V = (Seq<char>, int);

    open spec fn view(&self) -> (Seq<char>, int) {
        (self.emoji@, self.count as int)
    }
}

impl View for MessageReactionEntry {
    type V = (Seq<char>, int);

    open spec fn view(&self) -> (Seq<char>, int) {
        (self.permalink@, self.reaction_count as int)
    }
}

/// `n` where it is more than 0.
pub open spec fn positive(n: int) -> Option<i32> {
    if n > 0 {
        Some(n as i32)
    } else {
        None
    }
}

/// `n` where it is more than 0.
pub fn if_positive(n: i32) -> (out: Option<i32>)
    ensures
        out == positive(n as int),
{
    if n > 0 {
        Some(n)
    } else {
        None
    }
}

} // verus!
