//! The backward walk through one room: how each event folds into the room's
//! statistics, and when the walk stops.

use crate::calendar::{
    date_text, has_local, lemma_iso_week_range, local_stamp, push_date, LocalStamp,
};
use crate::crawl::accounting::{accounted, lemma_accounted_at_first, lemma_accounted_step};
use crate::crawl::counts::read_count;
use crate::crawl::types::{
    copy_text, counts_at_most, text_of, BatchOutcome, DetailedPaginationStats, EventKind,
    EventView, KindView, RoomCrawlStats, StatsView, TimelineEvent,
};
use crate::text::{
    decimal, push_decimal, push_signed_decimal, push_two_digits, signed_decimal, str_eq,
    string_of, two_digits,
};
use vstd::prelude::*;

verus! {

/// Events asked for in one step of backward pagination.
pub const PAGINATION_BATCH_SIZE: usize = 100;

/// The key of the year bucket: the local year in decimal.
pub open spec fn year_key(stamp: LocalStamp) -> Seq<char> {
    signed_decimal(stamp.date.year as int)
}

/// The key of the month bucket: the local month in two digits.
pub open spec fn month_key(stamp: LocalStamp) -> Seq<char> {
    two_digits(stamp.date.month as nat)
}

/// The key of the week bucket: ISO year, `-W`, and the ISO week in two digits.
pub open spec fn week_key(stamp: LocalStamp) -> Seq<char> {
    signed_decimal(stamp.iso_year as int) + seq!['-', 'W'] + two_digits(stamp.iso_week as nat)
}

/// The key of the weekday bucket: 1 for Monday to 7 for Sunday.
pub open spec fn weekday_key(stamp: LocalStamp) -> Seq<char> {
    decimal(stamp.weekday as nat)
}

/// The key of the day bucket: the local date as `YYYY-MM-DD`.
pub open spec fn day_key(stamp: LocalStamp) -> Seq<char> {
    date_text(stamp.date)
}

/// The key of the hour bucket: the local hour in two digits.
pub open spec fn hour_key(stamp: LocalStamp) -> Seq<char> {
    two_digits(stamp.hour as nat)
}

/// `counts` with the count of `key` one higher.
pub open spec fn bumped(counts: Map<Seq<char>, int>, key: Seq<char>) -> Map<Seq<char>, int> {
    counts.insert(key, read_count(counts, key) + 1)
}

/// Whether `ts` lies in the window, whose ends both belong to it; no start
/// means no lower bound.
pub open spec fn in_window(ts: i64, window_start: Option<i64>, window_end: i64) -> bool {
    (window_start matches Some(start) ==> start <= ts) && ts <= window_end
}

/// The coverage after an event at `ts`: strictly older replaces the oldest,
/// strictly newer the newest, and a tie keeps what was there.
pub open spec fn with_extrema(stats: StatsView, event_id: Option<Seq<char>>, ts: i64) -> StatsView {
    let older = stats.oldest_ts is None || ts < stats.oldest_ts->0;
    let newer = stats.newest_ts is None || ts > stats.newest_ts->0;
    StatsView {
        oldest_ts: if older { Some(ts) } else { stats.oldest_ts },
        oldest_event_id: if older { event_id } else { stats.oldest_event_id },
        newest_ts: if newer { Some(ts) } else { stats.newest_ts },
        newest_event_id: if newer { event_id } else { stats.newest_event_id },
        ..stats
    }
}

/// The statistics after one more message of the account's owner, written at
/// the local time `stamp`.
pub open spec fn with_user_message(
    stats: StatsView,
    stamp: LocalStamp,
    event_id: Option<Seq<char>>,
) -> StatsView {
    StatsView {
        user_events: stats.user_events + 1,
        by_year: bumped(stats.by_year, year_key(stamp)),
        by_month: bumped(stats.by_month, month_key(stamp)),
        by_week: bumped(stats.by_week, week_key(stamp)),
        by_weekday: bumped(stats.by_weekday, weekday_key(stamp)),
        by_day: bumped(stats.by_day, day_key(stamp)),
        by_hour: bumped(stats.by_hour, hour_key(stamp)),
        active_dates: stats.active_dates.insert(day_key(stamp)),
        user_message_ids: match event_id {
            Some(id) => stats.user_message_ids.insert(id),
            None => stats.user_message_ids,
        },
        ..stats
    }
}

/// The statistics after a reaction: counted when it answers one of the
/// owner's messages seen so far, ignored otherwise.
pub open spec fn with_reaction(stats: StatsView, emoji: Seq<char>, target: Seq<char>) -> StatsView {
    if stats.user_message_ids.contains(target) {
        StatsView {
            reactions_by_emoji: bumped(stats.reactions_by_emoji, emoji),
            reactions_by_message: bumped(stats.reactions_by_message, target),
            ..stats
        }
    } else {
        stats
    }
}

/// The statistics after one event. `local` is the event's time in the local
/// zone, where the zone's rules give one.
pub open spec fn folded(
    stats: StatsView,
    event: EventView,
    local: Option<LocalStamp>,
    window_start: Option<i64>,
    window_end: i64,
    user_id: Seq<char>,
) -> StatsView {
    match event.timestamp {
        None => stats,
        Some(ts) => {
            let seen = with_extrema(stats, event.event_id, ts);
            if !in_window(ts, window_start, window_end) {
                seen
            } else {
                let counted = StatsView { total_events: seen.total_events + 1, ..seen };
                match local {
                    None => counted,
                    Some(stamp) => match event.kind {
                        KindView::Message | KindView::Encrypted => if event.sender == user_id {
                            with_user_message(counted, stamp, event.event_id)
                        } else {
                            counted
                        },
                        KindView::Reaction { emoji, target_event_id } => with_reaction(
                            counted,
                            emoji,
                            target_event_id,
                        ),
                        KindView::StateCreate => if event.sender == user_id {
                            StatsView { room_created_by_user: true, ..counted }
                        } else {
                            counted
                        },
                        KindView::Other => counted,
                    },
                }
            }
        },
    }
}

/// One more count keeps every count within one more than the old limit.
pub proof fn lemma_bumped_at_most(counts: Map<Seq<char>, int>, key: Seq<char>, limit: int)
    requires
        counts_at_most(counts, limit),
    ensures
        counts_at_most(bumped(counts, key), limit + 1),
{
    assert forall|k: Seq<char>| read_count(bumped(counts, key), k) <= limit + 1 by {
        assert(read_count(counts, k) <= limit);
        assert(read_count(counts, key) <= limit);
    }
}

/// One event raises no counter by more than one.
pub proof fn lemma_folded_at_most(
    stats: StatsView,
    event: EventView,
    local: Option<LocalStamp>,
    window_start: Option<i64>,
    window_end: i64,
    user_id: Seq<char>,
    limit: int,
)
    requires
        stats.at_most(limit),
    ensures
        folded(stats, event, local, window_start, window_end, user_id).at_most(limit + 1),
{
    let after = folded(stats, event, local, window_start, window_end, user_id);
    assert forall|counts: Map<Seq<char>, int>| counts_at_most(counts, limit) implies #[trigger]
        counts_at_most(counts, limit + 1) by {
        assert forall|k: Seq<char>| read_count(counts, k) <= limit + 1 by {
            assert(read_count(counts, k) <= limit);
        }
    }
    if local is Some {
        let stamp = local->0;
        lemma_bumped_at_most(stats.by_year, year_key(stamp), limit);
        lemma_bumped_at_most(stats.by_month, month_key(stamp), limit);
        lemma_bumped_at_most(stats.by_week, week_key(stamp), limit);
        lemma_bumped_at_most(stats.by_weekday, weekday_key(stamp), limit);
        lemma_bumped_at_most(stats.by_day, day_key(stamp), limit);
        lemma_bumped_at_most(stats.by_hour, hour_key(stamp), limit);
    }
    match event.kind {
        KindView::Reaction { emoji, target_event_id } => {
            lemma_bumped_at_most(stats.reactions_by_emoji, emoji, limit);
            lemma_bumped_at_most(stats.reactions_by_message, target_event_id, limit);
        },
        _ => {},
    }
}

/// The key of the year bucket.
fn year_key_of(stamp: &LocalStamp) -> (key: String)
    ensures
        key@ == year_key(*stamp),
{
    let mut out: Vec<char> = Vec::new();
    push_signed_decimal(&mut out, stamp.date.year as i64);
    assert(out@ =~= year_key(*stamp));
    string_of(&out)
}

/// The key of the month bucket.
fn month_key_of(stamp: &LocalStamp) -> (key: String)
    requires
        stamp.valid(),
    ensures
        key@ == month_key(*stamp),
{
    let mut out: Vec<char> = Vec::new();
    push_two_digits(&mut out, stamp.date.month);
    assert(out@ =~= month_key(*stamp));
    string_of(&out)
}

/// The key of the week bucket.
fn week_key_of(stamp: &LocalStamp) -> (key: String)
    requires
        stamp.valid(),
    ensures
        key@ == week_key(*stamp),
{
    proof {
        lemma_iso_week_range(stamp.date);
    }
    let mut out: Vec<char> = Vec::new();
    push_signed_decimal(&mut out, stamp.iso_year as i64);
    out.push('-');
    out.push('W');
    push_two_digits(&mut out, stamp.iso_week);
    assert(out@ =~= week_key(*stamp));
    string_of(&out)
}

/// The key of the weekday bucket.
fn weekday_key_of(stamp: &LocalStamp) -> (key: String)
    ensures
        key@ == weekday_key(*stamp),
{
    let mut out: Vec<char> = Vec::new();
    push_decimal(&mut out, stamp.weekday as u64);
    assert(out@ =~= weekday_key(*stamp));
    string_of(&out)
}

/// The key of the day bucket.
fn day_key_of(stamp: &LocalStamp) -> (key: String)
    requires
        stamp.valid(),
    ensures
        key@ == day_key(*stamp),
{
    let mut out: Vec<char> = Vec::new();
    push_date(&mut out, stamp.date);
    assert(out@ =~= day_key(*stamp));
    string_of(&out)
}

/// The key of the hour bucket.
fn hour_key_of(stamp: &LocalStamp) -> (key: String)
    requires
        stamp.valid(),
    ensures
        key@ == hour_key(*stamp),
{
    let mut out: Vec<char> = Vec::new();
    push_two_digits(&mut out, stamp.hour);
    assert(out@ =~= hour_key(*stamp));
    string_of(&out)
}

/// Whether `ts` lies in the window.
pub fn is_in_window(ts: i64, window_start: Option<i64>, window_end: i64) -> (inside: bool)
    ensures
        inside == in_window(ts, window_start, window_end),
{
    let after_start = match window_start {
        Some(start) => start <= ts,
        None => true,
    };
    after_start && ts <= window_end
}

/// Folds one event, whose local time is `local`, into the statistics.
pub fn fold_event_at(
    stats: &mut DetailedPaginationStats,
    event: &TimelineEvent,
    local: Option<LocalStamp>,
    window_start: Option<i64>,
    window_end: i64,
    user_id: &str,
)
    requires
        old(stats).wf(),
        old(stats)@.at_most(i32::MAX - 1),
        local matches Some(stamp) ==> stamp.valid(),
    ensures
        final(stats).wf(),
        final(stats)@ == folded(old(stats)@, event@, local, window_start, window_end, user_id@),
{
    let ts = match event.timestamp {
        Some(ts) => ts,
        None => {
            return ;
        },
    };
    let older = match stats.oldest_ts {
        Some(old_ts) => ts < old_ts,
        None => true,
    };
    if older {
        stats.oldest_ts = Some(ts);
        stats.oldest_event_id = copy_text(&event.event_id);
    }
    let newer = match stats.newest_ts {
        Some(new_ts) => ts > new_ts,
        None => true,
    };
    if newer {
        stats.newest_ts = Some(ts);
        stats.newest_event_id = copy_text(&event.event_id);
    }
    assert(stats@ == with_extrema(old(stats)@, event@.event_id, ts));
    if !is_in_window(ts, window_start, window_end) {
        return ;
    }
    stats.total_events = stats.total_events + 1;
    let stamp = match local {
        Some(stamp) => stamp,
        None => {
            return ;
        },
    };
    let own = str_eq(event.sender.as_str(), user_id);
    match &event.kind {
        EventKind::Message | EventKind::Encrypted => {
            if own {
                stats.user_events = stats.user_events + 1;
                let year = year_key_of(&stamp);
                let month = month_key_of(&stamp);
                let week = week_key_of(&stamp);
                let weekday = weekday_key_of(&stamp);
                let day = day_key_of(&stamp);
                let hour = hour_key_of(&stamp);
                stats.by_year.add(year.as_str(), 1);
                stats.by_month.add(month.as_str(), 1);
                stats.by_week.add(week.as_str(), 1);
                stats.by_weekday.add(weekday.as_str(), 1);
                stats.by_day.add(day.as_str(), 1);
                stats.by_hour.add(hour.as_str(), 1);
                stats.active_dates.insert(day.as_str());
                match &event.event_id {
                    Some(id) => {
                        stats.user_message_ids.insert(id.as_str());
                    },
                    None => {},
                }
            }
        },
        EventKind::Reaction { emoji, target_event_id } => {
            if stats.user_message_ids.contains(target_event_id.as_str()) {
                stats.reactions_by_emoji.add(emoji.as_str(), 1);
                stats.reactions_by_message.add(target_event_id.as_str(), 1);
            }
        },
        EventKind::StateCreate => {
            if own {
                stats.room_created_by_user = true;
            }
        },
        EventKind::Other => {},
    }
}

/// Folds one event into the statistics, reading its local time from the
/// machine's time zone where the event lies in the window. Returns the local
/// time it used.
pub fn fold_event(
    stats: &mut DetailedPaginationStats,
    event: &TimelineEvent,
    window_start: Option<i64>,
    window_end: i64,
    user_id: &str,
) -> (local: Option<LocalStamp>)
    requires
        old(stats).wf(),
        old(stats)@.at_most(i32::MAX - 1),
    ensures
        final(stats).wf(),
        local is Some <==> has_local(event.timestamp),
        local matches Some(stamp) ==> stamp.valid(),
        final(stats)@ == folded(old(stats)@, event@, local, window_start, window_end, user_id@),
{
    let local = local_of(event);
    fold_event_at(stats, event, local, window_start, window_end, user_id);
    local
}

/// The local time of an event: what the zone's rules give for an event
/// with a timestamp in the years 1 to 9999, none for any other.
pub fn local_of(event: &TimelineEvent) -> (local: Option<LocalStamp>)
    ensures
        local is Some <==> has_local(event.timestamp),
        local matches Some(stamp) ==> stamp.valid(),
{
    match event.timestamp {
        Some(ts) => local_stamp(ts),
        None => None,
    }
}

/// Every local time of the sequence is a valid reading.
pub open spec fn stamps_valid(locals: Seq<Option<LocalStamp>>) -> bool {
    forall|i: int| 0 <= i < locals.len() ==> ((#[trigger] locals[i]) matches Some(stamp)
        ==> stamp.valid())
}

/// Whether `locals` holds a local time for each of `events` that has a
/// timestamp in the years 1 to 9999, and for no other.
pub open spec fn stamps_owed(events: Seq<EventView>, locals: Seq<Option<LocalStamp>>) -> bool {
    &&& locals.len() == events.len()
    &&& forall|i: int|
        0 <= i < locals.len() ==> ((#[trigger] locals[i]) is Some <==> has_local(
            events[i].timestamp,
        ))
}

/// The local times of the events, in their order.
pub fn local_stamps(events: &Vec<TimelineEvent>) -> (locals: Vec<Option<LocalStamp>>)
    ensures
        locals@.len() == events@.len(),
        stamps_valid(locals@),
        stamps_owed(views_of(events@), locals@),
{
    let mut locals: Vec<Option<LocalStamp>> = Vec::new();
    let mut i: usize = 0;
    while i < events.len()
        invariant
            i <= events.len(),
            locals@.len() == i,
            stamps_valid(locals@),
            forall|j: int|
                0 <= j < i ==> ((#[trigger] locals@[j]) is Some <==> has_local(
                    events@[j].timestamp,
                )),
        decreases events.len() - i,
    {
        let local = local_of(&events[i]);
        locals.push(local);
        i = i + 1;
    }
    locals
}

/// The statistics after folding `events` in their order, the event at `i`
/// having the local time `locals[i]`.
pub open spec fn folded_all(
    stats: StatsView,
    events: Seq<EventView>,
    locals: Seq<Option<LocalStamp>>,
    window_start: Option<i64>,
    window_end: i64,
    user_id: Seq<char>,
) -> StatsView
    decreases events.len(),
{
    if events.len() == 0 {
        stats
    } else {
        folded(
            folded_all(
                stats,
                events.drop_last(),
                locals.drop_last(),
                window_start,
                window_end,
                user_id,
            ),
            events.last(),
            locals.last(),
            window_start,
            window_end,
            user_id,
        )
    }
}

/// The number of events that carry a timestamp.
pub open spec fn timed_events(events: Seq<EventView>) -> int
    decreases events.len(),
{
    if events.len() == 0 {
        0
    } else {
        timed_events(events.drop_last()) + if events.last().timestamp is Some {
            1int
        } else {
            0int
        }
    }
}

/// Whether some event is as old as the start of the window, or older.
pub open spec fn reaches_window_start(events: Seq<EventView>, window_start: Option<i64>) -> bool {
    window_start matches Some(start) && exists|i: int|
        0 <= i < events.len() && ((#[trigger] events[i]).timestamp matches Some(ts) && ts
            <= start)
}

/// The statistics once pagination has said whether it reached the room's
/// start: fully crawled from then on.
pub open spec fn at_start(stats: StatsView, reached_start: bool) -> StatsView {
    StatsView { fully_crawled: stats.fully_crawled || reached_start, ..stats }
}

/// The events of a vector, as values of specifications.
pub open spec fn views_of(events: Seq<TimelineEvent>) -> Seq<EventView> {
    Seq::new(events.len(), |i: int| events[i]@)
}

/// One event changes the coverage so that the oldest stays no newer than the
/// newest.
pub proof fn lemma_folded_extrema(
    stats: StatsView,
    event: EventView,
    local: Option<LocalStamp>,
    window_start: Option<i64>,
    window_end: i64,
    user_id: Seq<char>,
)
    requires
        stats.extrema_ordered(),
    ensures
        folded(stats, event, local, window_start, window_end, user_id).extrema_ordered(),
        folded(stats, event, local, window_start, window_end, user_id).fully_crawled
            == stats.fully_crawled,
{
}

/// A message of the account's owner that lies in the window counts exactly
/// once: one more user event, one more in exactly one bucket of each family,
/// its date among the active dates and its id among the owner's messages.
pub proof fn lemma_user_message_counts_once(
    stats: StatsView,
    event: EventView,
    stamp: LocalStamp,
    window_start: Option<i64>,
    window_end: i64,
    user_id: Seq<char>,
)
    requires
        event.timestamp matches Some(ts) && in_window(ts, window_start, window_end),
        event.kind is Message || event.kind is Encrypted,
        event.sender == user_id,
    ensures
        ({
            let after = folded(stats, event, Some(stamp), window_start, window_end, user_id);
            &&& after.total_events == stats.total_events + 1
            &&& after.user_events == stats.user_events + 1
            &&& counted_once(stats.by_year, after.by_year, year_key(stamp))
            &&& counted_once(stats.by_month, after.by_month, month_key(stamp))
            &&& counted_once(stats.by_week, after.by_week, week_key(stamp))
            &&& counted_once(stats.by_weekday, after.by_weekday, weekday_key(stamp))
            &&& counted_once(stats.by_day, after.by_day, day_key(stamp))
            &&& counted_once(stats.by_hour, after.by_hour, hour_key(stamp))
            &&& after.active_dates == stats.active_dates.insert(day_key(stamp))
            &&& (event.event_id matches Some(id) ==> after.user_message_ids
                == stats.user_message_ids.insert(id))
            &&& (event.event_id is None ==> after.user_message_ids == stats.user_message_ids)
            &&& after.reactions_by_emoji == stats.reactions_by_emoji
            &&& after.reactions_by_message == stats.reactions_by_message
        }),
{
}

/// The count of `key` is one higher in `after` than in `before`, and every
/// other count is the same.
pub open spec fn counted_once(
    before: Map<Seq<char>, int>,
    after: Map<Seq<char>, int>,
    key: Seq<char>,
) -> bool {
    forall|k: Seq<char>|
        #[trigger] read_count(after, k) == read_count(before, k) + if k == key {
            1int
        } else {
            0int
        }
}

/// An event that is no message of the owner inside the window, or whose
/// local time is unknown, leaves user events, buckets, active dates and the
/// owner's message ids as they were.
pub proof fn lemma_other_events_count_nothing(
    stats: StatsView,
    event: EventView,
    local: Option<LocalStamp>,
    window_start: Option<i64>,
    window_end: i64,
    user_id: Seq<char>,
)
    requires
        !(event.timestamp matches Some(ts) && in_window(ts, window_start, window_end))
            || local is None || !(event.kind is Message || event.kind is Encrypted)
            || event.sender != user_id,
    ensures
        ({
            let after = folded(stats, event, local, window_start, window_end, user_id);
            &&& after.user_events == stats.user_events
            &&& after.by_year == stats.by_year
            &&& after.by_month == stats.by_month
            &&& after.by_week == stats.by_week
            &&& after.by_weekday == stats.by_weekday
            &&& after.by_day == stats.by_day
            &&& after.by_hour == stats.by_hour
            &&& after.active_dates == stats.active_dates
            &&& after.user_message_ids == stats.user_message_ids
        }),
{
}

/// A reaction inside the window counts, once for its emoji and once for the
/// message it answers, if and only if that message is one of the owner's
/// messages seen before in this room.
pub proof fn lemma_reaction_counts_iff_target_known(
    stats: StatsView,
    event: EventView,
    stamp: LocalStamp,
    window_start: Option<i64>,
    window_end: i64,
    user_id: Seq<char>,
)
    requires
        event.timestamp matches Some(ts) && in_window(ts, window_start, window_end),
        event.kind is Reaction,
    ensures
        ({
            let after = folded(stats, event, Some(stamp), window_start, window_end, user_id);
            let emoji = event.kind->emoji;
            let target = event.kind->target_event_id;
            if stats.user_message_ids.contains(target) {
                &&& counted_once(stats.reactions_by_emoji, after.reactions_by_emoji, emoji)
                &&& counted_once(stats.reactions_by_message, after.reactions_by_message, target)
            } else {
                &&& after.reactions_by_emoji == stats.reactions_by_emoji
                &&& after.reactions_by_message == stats.reactions_by_message
            }
        }),
{
}

/// Only a reaction changes the reaction counts.
pub proof fn lemma_only_reactions_count_as_reactions(
    stats: StatsView,
    event: EventView,
    local: Option<LocalStamp>,
    window_start: Option<i64>,
    window_end: i64,
    user_id: Seq<char>,
)
    requires
        !(event.kind is Reaction),
    ensures
        folded(stats, event, local, window_start, window_end, user_id).reactions_by_emoji
            == stats.reactions_by_emoji,
        folded(stats, event, local, window_start, window_end, user_id).reactions_by_message
            == stats.reactions_by_message,
{
}

/// What the walk does after a batch.
#[derive(Clone, Copy, Debug, PartialEq, Eq, Structural)]
pub struct BatchVerdict {
    /// The batch held events: progress is to be reported.
    pub report_progress: bool,
    /// Another batch is to be asked for.
    pub keep_going: bool,
}

/// The state of the backward walk through one room.
#[derive(Debug)]
pub struct RoomWalk {
    pub stats: DetailedPaginationStats,
    /// Events with a timestamp seen so far, inside the window or not.
    pub progress_events: usize,
    /// An event as old as the window's start has been seen.
    pub stop_at_window: bool,
}

impl RoomWalk {
    /// The statistics are in order, no counter exceeds the number of events
    /// seen, the oldest event is no newer than the newest, and the counts
    /// add up: each family of buckets to the user events, the reactions by
    /// emoji to the reactions by message, which all answer messages of the
    /// owner.
    pub open spec fn wf(&self) -> bool {
        &&& self.stats.wf()
        &&& self.stats@.at_most(self.progress_events as int)
        &&& self.stats@.extrema_ordered()
        &&& accounted(self.stats@)
    }

    /// A walk that has seen nothing yet but the newest event that was in
    /// memory before it began, if there was one.
    pub fn start(newest_event_id_initial: Option<String>, newest_ts_initial: Option<i64>) -> (walk:
        RoomWalk)
        ensures
            walk.wf(),
            walk.progress_events == 0,
            !walk.stop_at_window,
            walk.stats@ == DetailedPaginationStats::initial(
                text_of(newest_event_id_initial),
                newest_ts_initial,
            ),
    {
        let stats = DetailedPaginationStats::new(newest_event_id_initial, newest_ts_initial);
        proof {
            lemma_accounted_at_first(text_of(newest_event_id_initial), newest_ts_initial);
        }
        RoomWalk { stats, progress_events: 0, stop_at_window: false }
    }

    /// Folds the events that were in the local cache before pagination
    /// began. They count as progress and move the coverage, but none of them
    /// stops the walk.
    pub fn absorb_cached_at(
        &mut self,
        events: &Vec<TimelineEvent>,
        locals: &Vec<Option<LocalStamp>>,
        window_start: Option<i64>,
        window_end: i64,
        user_id: &str,
    )
        requires
            old(self).wf(),
            old(self).progress_events + events@.len() < i32::MAX,
            locals@.len() == events@.len(),
            stamps_valid(locals@),
        ensures
            final(self).wf(),
            final(self).stats@ == folded_all(
                old(self).stats@,
                views_of(events@),
                locals@,
                window_start,
                window_end,
                user_id@,
            ),
            final(self).progress_events == old(self).progress_events + timed_events(
                views_of(events@),
            ),
            final(self).stop_at_window == old(self).stop_at_window,
    {
        self.fold_events(events, locals, window_start, window_end, user_id);
    }

    /// Folds the events that were in the local cache before pagination
    /// began, each with the local time that the machine's zone gives it.
    pub fn absorb_cached(
        &mut self,
        events: &Vec<TimelineEvent>,
        window_start: Option<i64>,
        window_end: i64,
        user_id: &str,
    )
        requires
            old(self).wf(),
            old(self).progress_events + events@.len() < i32::MAX,
        ensures
            final(self).wf(),
            exists|locals: Seq<Option<LocalStamp>>|
                stamps_owed(views_of(events@), locals) && stamps_valid(locals) && final(self).stats@
                    == #[trigger] folded_all(
                    old(self).stats@,
                    views_of(events@),
                    locals,
                    window_start,
                    window_end,
                    user_id@,
                ),
            final(self).progress_events == old(self).progress_events + timed_events(
                views_of(events@),
            ),
            final(self).stop_at_window == old(self).stop_at_window,
    {
        let locals = local_stamps(events);
        self.absorb_cached_at(events, &locals, window_start, window_end, user_id);
    }

    /// Folds one answer of backward pagination. Reaching the room's start
    /// marks the room fully crawled; its events are still folded. An event
    /// as old as the window's start, or older, stops the walk after this
    /// batch, and so does an empty batch.
    pub fn absorb_batch_at(
        &mut self,
        batch: &BatchOutcome,
        locals: &Vec<Option<LocalStamp>>,
        window_start: Option<i64>,
        window_end: i64,
        user_id: &str,
    ) -> (verdict: BatchVerdict)
        requires
            old(self).wf(),
            old(self).progress_events + batch.events@.len() < i32::MAX,
            locals@.len() == batch.events@.len(),
            stamps_valid(locals@),
        ensures
            final(self).wf(),
            final(self).stats@ == folded_all(
                at_start(old(self).stats@, batch.reached_start),
                views_of(batch.events@),
                locals@,
                window_start,
                window_end,
                user_id@,
            ),
            final(self).progress_events == old(self).progress_events + timed_events(
                views_of(batch.events@),
            ),
            final(self).stop_at_window == (old(self).stop_at_window || reaches_window_start(
                views_of(batch.events@),
                window_start,
            )),
            verdict.report_progress == (batch.events@.len() > 0),
            verdict.keep_going == (batch.events@.len() > 0 && !final(self).stop_at_window
                && !final(self).stats.fully_crawled),
            final(self).stats.fully_crawled == (old(self).stats.fully_crawled
                || batch.reached_start),
    {
        if batch.reached_start {
            self.stats.fully_crawled = true;
        }
        let reached = self.fold_events(&batch.events, locals, window_start, window_end, user_id);
        if reached {
            self.stop_at_window = true;
        }
        let some = batch.events.len() > 0;
        BatchVerdict {
            report_progress: some,
            keep_going: some && !self.stop_at_window && !self.stats.fully_crawled,
        }
    }

    /// Folds one answer of backward pagination, each event with the local
    /// time that the machine's zone gives it.
    pub fn absorb_batch(
        &mut self,
        batch: &BatchOutcome,
        window_start: Option<i64>,
        window_end: i64,
        user_id: &str,
    ) -> (verdict: BatchVerdict)
        requires
            old(self).wf(),
            old(self).progress_events + batch.events@.len() < i32::MAX,
        ensures
            final(self).wf(),
            exists|locals: Seq<Option<LocalStamp>>|
                stamps_owed(views_of(batch.events@), locals) && stamps_valid(locals)
                    && final(self).stats@
                    == #[trigger] folded_all(
                    at_start(old(self).stats@, batch.reached_start),
                    views_of(batch.events@),
                    locals,
                    window_start,
                    window_end,
                    user_id@,
                ),
            final(self).progress_events == old(self).progress_events + timed_events(
                views_of(batch.events@),
            ),
            final(self).stop_at_window == (old(self).stop_at_window || reaches_window_start(
                views_of(batch.events@),
                window_start,
            )),
            verdict.report_progress == (batch.events@.len() > 0),
            verdict.keep_going == (batch.events@.len() > 0 && !final(self).stop_at_window
                && !final(self).stats.fully_crawled),
            final(self).stats.fully_crawled == (old(self).stats.fully_crawled
                || batch.reached_start),
    {
        let locals = local_stamps(&batch.events);
        self.absorb_batch_at(batch, &locals, window_start, window_end, user_id)
    }

    /// Folds `events` in their order and says whether one of them is as old
    /// as the window's start, or older.
    fn fold_events(
        &mut self,
        events: &Vec<TimelineEvent>,
        locals: &Vec<Option<LocalStamp>>,
        window_start: Option<i64>,
        window_end: i64,
        user_id: &str,
    ) -> (reached: bool)
        requires
            old(self).stats.wf(),
            old(self).stats@.at_most(old(self).progress_events as int),
            old(self).stats@.extrema_ordered(),
            accounted(old(self).stats@),
            old(self).progress_events + events@.len() < i32::MAX,
            locals@.len() == events@.len(),
            stamps_valid(locals@),
        ensures
            final(self).wf(),
            final(self).stats@ == folded_all(
                old(self).stats@,
                views_of(events@),
                locals@,
                window_start,
                window_end,
                user_id@,
            ),
            final(self).progress_events == old(self).progress_events + timed_events(
                views_of(events@),
            ),
            final(self).stop_at_window == old(self).stop_at_window,
            final(self).stats.fully_crawled == old(self).stats.fully_crawled,
            reached == reaches_window_start(views_of(events@), window_start),
    {
        let mut reached = false;
        let mut i: usize = 0;
        let ghost all = views_of(events@);
        assert(all.subrange(0, 0) =~= Seq::<EventView>::empty());
        while i < events.len()
            invariant
                i <= events.len(),
                all == views_of(events@),
                locals@.len() == events@.len(),
                stamps_valid(locals@),
                self.wf(),
                old(self).progress_events + events@.len() < i32::MAX,
                self.progress_events == old(self).progress_events + timed_events(
                    all.subrange(0, i as int),
                ),
                self.progress_events <= old(self).progress_events + i,
                self.stats@ == folded_all(
                    old(self).stats@,
                    all.subrange(0, i as int),
                    locals@.subrange(0, i as int),
                    window_start,
                    window_end,
                    user_id@,
                ),
                self.stop_at_window == old(self).stop_at_window,
                self.stats.fully_crawled == old(self).stats.fully_crawled,
                reached == reaches_window_start(all.subrange(0, i as int), window_start),
            decreases events.len() - i,
        {
            let event = &events[i];
            let local = locals[i];
            let ghost before = self.stats@;
            proof {
                let next = all.subrange(0, i + 1);
                assert(next.drop_last() =~= all.subrange(0, i as int));
                assert(next.last() == event@);
                assert(locals@.subrange(0, i + 1).drop_last() =~= locals@.subrange(0, i as int));
                assert(locals@.subrange(0, i + 1).last() == local);
                lemma_folded_at_most(
                    before,
                    event@,
                    local,
                    window_start,
                    window_end,
                    user_id@,
                    self.progress_events as int,
                );
                lemma_folded_extrema(before, event@, local, window_start, window_end, user_id@);
                lemma_accounted_step(before, event@, local, window_start, window_end, user_id@);
                let prefix = all.subrange(0, i as int);
                if reaches_window_start(prefix, window_start) {
                    let j = choose|j: int|
                        0 <= j < prefix.len() && ((#[trigger] prefix[j]).timestamp matches Some(
                            ts,
                        ) && ts <= window_start->0);
                    assert(next[j] == prefix[j]);
                }
                if reaches_window_start(next, window_start) && !reaches_window_start(
                    prefix,
                    window_start,
                ) {
                    let j = choose|j: int|
                        0 <= j < next.len() && ((#[trigger] next[j]).timestamp matches Some(ts)
                            && ts <= window_start->0);
                    if j < i {
                        assert(prefix[j] == next[j]);
                    }
                }
            }
            fold_event_at(&mut self.stats, event, local, window_start, window_end, user_id);
            match event.timestamp {
                Some(ts) => {
                    self.progress_events = self.progress_events + 1;
                    match window_start {
                        Some(start) => {
                            if ts <= start {
                                reached = true;
                                assert(all.subrange(0, i + 1)[i as int] == event@);
                            }
                        },
                        None => {},
                    }
                },
                None => {
                    assert(self.stats@ == before);
                },
            }
            i = i + 1;
        }
        assert(all.subrange(0, i as int) =~= all);
        assert(locals@.subrange(0, i as int) =~= locals@);
        reached
    }

    /// Ends the walk: what it leaves for the metadata store, and what it
    /// collected for the statistics.
    pub fn finish(self, room_id: &str, room_name: &str) -> (out: (
        RoomCrawlStats,
        DetailedPaginationStats,
    ))
        requires
            self.wf(),
        ensures
            out.1 == self.stats,
            out.0.room_id@ == room_id@,
            out.0.room_name@ == room_name@,
            text_of(out.0.oldest_event_id) == self.stats@.oldest_event_id,
            out.0.oldest_ts == self.stats.oldest_ts,
            text_of(out.0.newest_event_id) == self.stats@.newest_event_id,
            out.0.newest_ts == self.stats.newest_ts,
            out.0.fully_crawled == self.stats.fully_crawled,
            out.0.total_events == self.stats.total_events,
            out.0.user_events == self.stats.user_events,
            out.0.covers_ordered(),
    {
        let crawl = RoomCrawlStats {
            room_id: room_id.to_owned(),
            oldest_event_id: copy_text(&self.stats.oldest_event_id),
            oldest_ts: self.stats.oldest_ts,
            newest_event_id: copy_text(&self.stats.newest_event_id),
            newest_ts: self.stats.newest_ts,
            fully_crawled: self.stats.fully_crawled,
            room_name: room_name.to_owned(),
            total_events: self.stats.total_events,
            user_events: self.stats.user_events,
        };
        (crawl, self.stats)
    }
}

} // verus!
