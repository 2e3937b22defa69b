//! What a run of events adds up to. Folding events one by one says what
//! each event does; the laws here say what the statistics hold after any
//! number of them: as many user events as messages of the owner that were
//! counted, as much in each family of buckets, their dates and their ids,
//! and reactions only to messages that are known.

use crate::calendar::LocalStamp;
use crate::crawl::pagination::{
    at_start, bumped, day_key, folded, folded_all, hour_key, in_window, month_key, week_key, weekday_key,
    year_key,
};
use crate::crawl::types::{DetailedPaginationStats, EventView, StatsView};
use vstd::prelude::*;

verus! {

/// The sum of the counts of a map with finitely many keys.
pub open spec fn sum_of(counts: Map<Seq<char>, int>) -> int
    decreases counts.dom().len(),
    when counts.dom().finite()
{
    if counts.dom().len() == 0 {
        0
    } else {
        let key = counts.dom().choose();
        counts[key] + sum_of(counts.remove(key))
    }
}

/// The sum is the count of any one key and the sum of the others.
pub proof fn lemma_sum_without(counts: Map<Seq<char>, int>, key: Seq<char>)
    requires
        counts.dom().finite(),
        counts.dom().contains(key),
    ensures
        sum_of(counts) == counts[key] + sum_of(counts.remove(key)),
    decreases counts.dom().len(),
{
    let first = counts.dom().choose();
    if first != key {
        lemma_sum_without(counts.remove(first), key);
        lemma_sum_without(counts.remove(key), first);
        assert(counts.remove(first).remove(key) =~= counts.remove(key).remove(first));
    }
}

/// One more for a key is one more in the sum.
pub proof fn lemma_sum_bumped(counts: Map<Seq<char>, int>, key: Seq<char>)
    requires
        counts.dom().finite(),
    ensures
        bumped(counts, key).dom().finite(),
        sum_of(bumped(counts, key)) == sum_of(counts) + 1,
{
    let more = bumped(counts, key);
    lemma_sum_without(more, key);
    assert(more.remove(key) =~= counts.remove(key));
    if counts.dom().contains(key) {
        lemma_sum_without(counts, key);
    } else {
        assert(counts.remove(key) =~= counts);
    }
}

/// Whether an event is counted as a message of the owner: it lies in the
/// window, has a local time, is a message, readable or encrypted, and the
/// owner sent it.
pub open spec fn is_counted_message(
    event: EventView,
    local: Option<LocalStamp>,
    window_start: Option<i64>,
    window_end: i64,
    user_id: Seq<char>,
) -> bool {
    &&& event.timestamp matches Some(ts) && in_window(ts, window_start, window_end)
    &&& local is Some
    &&& (event.kind is Message || event.kind is Encrypted)
    &&& event.sender == user_id
}

/// Whether the event at place `i` is counted as a message of the owner.
pub open spec fn counted_at(
    events: Seq<EventView>,
    locals: Seq<Option<LocalStamp>>,
    window_start: Option<i64>,
    window_end: i64,
    user_id: Seq<char>,
    i: int,
) -> bool {
    0 <= i < events.len() && is_counted_message(
        events[i],
        locals[i],
        window_start,
        window_end,
        user_id,
    )
}

/// The number of events that are counted as messages of the owner.
pub open spec fn counted_messages(
    events: Seq<EventView>,
    locals: Seq<Option<LocalStamp>>,
    window_start: Option<i64>,
    window_end: i64,
    user_id: Seq<char>,
) -> int
    decreases events.len(),
{
    if events.len() == 0 {
        0
    } else {
        counted_messages(
            events.drop_last(),
            locals.drop_last(),
            window_start,
            window_end,
            user_id,
        ) + if is_counted_message(
            events.last(),
            locals.last(),
            window_start,
            window_end,
            user_id,
        ) {
            1int
        } else {
            0int
        }
    }
}

/// The local dates of the events that are counted as messages of the owner.
pub open spec fn counted_dates(
    events: Seq<EventView>,
    locals: Seq<Option<LocalStamp>>,
    window_start: Option<i64>,
    window_end: i64,
    user_id: Seq<char>,
) -> Set<Seq<char>> {
    Set::new(
        |date: Seq<char>|
            exists|i: int|
                #[trigger] counted_at(events, locals, window_start, window_end, user_id, i)
                    && day_key(locals[i]->0) == date,
    )
}

/// The ids of the events that are counted as messages of the owner, as far
/// as they have one.
pub open spec fn counted_ids(
    events: Seq<EventView>,
    locals: Seq<Option<LocalStamp>>,
    window_start: Option<i64>,
    window_end: i64,
    user_id: Seq<char>,
) -> Set<Seq<char>> {
    Set::new(
        |id: Seq<char>|
            exists|i: int|
                #[trigger] counted_at(events, locals, window_start, window_end, user_id, i)
                    && events[i].event_id == Some(id),
    )
}

/// The six families of buckets have finitely many keys each.
pub open spec fn buckets_finite(stats: StatsView) -> bool {
    &&& stats.by_year.dom().finite()
    &&& stats.by_month.dom().finite()
    &&& stats.by_week.dom().finite()
    &&& stats.by_weekday.dom().finite()
    &&& stats.by_day.dom().finite()
    &&& stats.by_hour.dom().finite()
}

/// `after` has `more` user events more than `before`, and as many more in
/// the sum of each family of buckets.
pub open spec fn counts_more(before: StatsView, after: StatsView, more: int) -> bool {
    &&& after.user_events == before.user_events + more
    &&& sum_of(after.by_year) == sum_of(before.by_year) + more
    &&& sum_of(after.by_month) == sum_of(before.by_month) + more
    &&& sum_of(after.by_week) == sum_of(before.by_week) + more
    &&& sum_of(after.by_weekday) == sum_of(before.by_weekday) + more
    &&& sum_of(after.by_day) == sum_of(before.by_day) + more
    &&& sum_of(after.by_hour) == sum_of(before.by_hour) + more
}

/// One event adds one to the user events and to the sum of each family of
/// buckets where it is counted as a message of the owner, and nothing
/// where it is not.
pub proof fn lemma_folded_counts(
    stats: StatsView,
    event: EventView,
    local: Option<LocalStamp>,
    window_start: Option<i64>,
    window_end: i64,
    user_id: Seq<char>,
)
    requires
        buckets_finite(stats),
    ensures
        buckets_finite(folded(stats, event, local, window_start, window_end, user_id)),
        counts_more(
            stats,
            folded(stats, event, local, window_start, window_end, user_id),
            if is_counted_message(event, local, window_start, window_end, user_id) {
                1int
            } else {
                0int
            },
        ),
{
    if is_counted_message(event, local, window_start, window_end, user_id) {
        let stamp = local->0;
        lemma_sum_bumped(stats.by_year, year_key(stamp));
        lemma_sum_bumped(stats.by_month, month_key(stamp));
        lemma_sum_bumped(stats.by_week, week_key(stamp));
        lemma_sum_bumped(stats.by_weekday, weekday_key(stamp));
        lemma_sum_bumped(stats.by_day, day_key(stamp));
        lemma_sum_bumped(stats.by_hour, hour_key(stamp));
    }
}

/// Every event in the window that is a message of the owner counts exactly
/// once, and nothing else counts: after any run of events the user events
/// and the sum of each family of buckets have grown by the number of such
/// messages, the active dates by their local dates, and the owner's
/// message ids by their ids.
pub proof fn lemma_messages_counted(
    stats: StatsView,
    events: Seq<EventView>,
    locals: Seq<Option<LocalStamp>>,
    window_start: Option<i64>,
    window_end: i64,
    user_id: Seq<char>,
)
    requires
        locals.len() == events.len(),
        buckets_finite(stats),
    ensures
        ({
            let after = folded_all(stats, events, locals, window_start, window_end, user_id);
            &&& buckets_finite(after)
            &&& counts_more(
                stats,
                after,
                counted_messages(events, locals, window_start, window_end, user_id),
            )
            &&& after.active_dates == stats.active_dates.union(
                counted_dates(events, locals, window_start, window_end, user_id),
            )
            &&& after.user_message_ids == stats.user_message_ids.union(
                counted_ids(events, locals, window_start, window_end, user_id),
            )
        }),
    decreases events.len(),
{
    let after = folded_all(stats, events, locals, window_start, window_end, user_id);
    let dates = counted_dates(events, locals, window_start, window_end, user_id);
    let ids = counted_ids(events, locals, window_start, window_end, user_id);
    if events.len() == 0 {
        assert(after.active_dates =~= stats.active_dates.union(dates));
        assert(after.user_message_ids =~= stats.user_message_ids.union(ids));
    } else {
        let rest = events.drop_last();
        let rest_locals = locals.drop_last();
        let last = events.len() - 1;
        let before = folded_all(stats, rest, rest_locals, window_start, window_end, user_id);
        lemma_messages_counted(stats, rest, rest_locals, window_start, window_end, user_id);
        lemma_folded_counts(before, events.last(), locals.last(), window_start, window_end, user_id);
        let rest_dates = counted_dates(rest, rest_locals, window_start, window_end, user_id);
        let rest_ids = counted_ids(rest, rest_locals, window_start, window_end, user_id);
        let counted = is_counted_message(
            events.last(),
            locals.last(),
            window_start,
            window_end,
            user_id,
        );
        assert forall|i: int|
            counted_at(rest, rest_locals, window_start, window_end, user_id, i) <==> i != last
                && #[trigger] counted_at(events, locals, window_start, window_end, user_id, i) by {
            if 0 <= i < last {
                assert(rest[i] == events[i]);
                assert(rest_locals[i] == locals[i]);
            }
        }
        assert(counted_at(events, locals, window_start, window_end, user_id, last) == counted);
        assert forall|date: Seq<char>| #[trigger]
            dates.contains(date) <==> rest_dates.contains(date) || (counted && day_key(
                locals.last()->0,
            ) == date) by {
            if rest_dates.contains(date) {
                let i = choose|i: int|
                    #[trigger] counted_at(rest, rest_locals, window_start, window_end, user_id, i)
                        && day_key(rest_locals[i]->0) == date;
                assert(counted_at(events, locals, window_start, window_end, user_id, i));
                assert(rest_locals[i] == locals[i]);
            }
            if dates.contains(date) {
                let i = choose|i: int|
                    #[trigger] counted_at(events, locals, window_start, window_end, user_id, i)
                        && day_key(locals[i]->0) == date;
                if i != last {
                    assert(counted_at(rest, rest_locals, window_start, window_end, user_id, i));
                    assert(rest_locals[i] == locals[i]);
                }
            }
        }
        assert forall|id: Seq<char>| #[trigger]
            ids.contains(id) <==> rest_ids.contains(id) || (counted && events.last().event_id
                == Some(id)) by {
            if rest_ids.contains(id) {
                let i = choose|i: int|
                    #[trigger] counted_at(rest, rest_locals, window_start, window_end, user_id, i)
                        && rest[i].event_id == Some(id);
                assert(counted_at(events, locals, window_start, window_end, user_id, i));
                assert(rest[i] == events[i]);
            }
            if ids.contains(id) {
                let i = choose|i: int|
                    #[trigger] counted_at(events, locals, window_start, window_end, user_id, i)
                        && events[i].event_id == Some(id);
                if i != last {
                    assert(counted_at(rest, rest_locals, window_start, window_end, user_id, i));
                    assert(rest[i] == events[i]);
                }
            }
        }
        assert(after.active_dates =~= stats.active_dates.union(dates));
        assert(after.user_message_ids =~= stats.user_message_ids.union(ids));
    }
}

/// Every message that has reactions counted is one of the owner's messages.
pub open spec fn reactions_answer_known(stats: StatsView) -> bool {
    forall|id: Seq<char>| #[trigger]
        stats.reactions_by_message.dom().contains(id) ==> stats.user_message_ids.contains(id)
}

/// The reactions counted by emoji are as many as those counted by message.
pub open spec fn reactions_balanced(stats: StatsView) -> bool {
    &&& stats.reactions_by_emoji.dom().finite()
    &&& stats.reactions_by_message.dom().finite()
    &&& sum_of(stats.reactions_by_emoji) == sum_of(stats.reactions_by_message)
}

/// One event keeps the reactions in balance and among the known messages.
pub proof fn lemma_folded_reactions(
    stats: StatsView,
    event: EventView,
    local: Option<LocalStamp>,
    window_start: Option<i64>,
    window_end: i64,
    user_id: Seq<char>,
)
    requires
        reactions_balanced(stats),
        reactions_answer_known(stats),
    ensures
        reactions_balanced(folded(stats, event, local, window_start, window_end, user_id)),
        reactions_answer_known(folded(stats, event, local, window_start, window_end, user_id)),
{
    let after = folded(stats, event, local, window_start, window_end, user_id);
    if after.reactions_by_message != stats.reactions_by_message {
        let emoji = event.kind->emoji;
        let target = event.kind->target_event_id;
        lemma_sum_bumped(stats.reactions_by_emoji, emoji);
        lemma_sum_bumped(stats.reactions_by_message, target);
    }
}

/// A reaction is counted only for a message of the owner that was seen in
/// the same room, and each one counted is counted once by its emoji and
/// once by its message: after any run of events every message with
/// reactions is among the owner's messages, and the counts by emoji sum to
/// what the counts by message sum to.
pub proof fn lemma_reactions_counted(
    stats: StatsView,
    events: Seq<EventView>,
    locals: Seq<Option<LocalStamp>>,
    window_start: Option<i64>,
    window_end: i64,
    user_id: Seq<char>,
)
    requires
        reactions_balanced(stats),
        reactions_answer_known(stats),
    ensures
        reactions_balanced(folded_all(stats, events, locals, window_start, window_end, user_id)),
        reactions_answer_known(
            folded_all(stats, events, locals, window_start, window_end, user_id),
        ),
    decreases events.len(),
{
    if events.len() > 0 {
        lemma_reactions_counted(
            stats,
            events.drop_last(),
            locals.drop_last(),
            window_start,
            window_end,
            user_id,
        );
        lemma_folded_reactions(
            folded_all(
                stats,
                events.drop_last(),
                locals.drop_last(),
                window_start,
                window_end,
                user_id,
            ),
            events.last(),
            locals.last(),
            window_start,
            window_end,
            user_id,
        );
    }
}

/// The books of a walk are in order: the sum of each family of buckets is
/// the number of user events, the reactions counted by emoji are as many
/// as those counted by message, and every message with reactions is one of
/// the owner's messages.
pub open spec fn accounted(stats: StatsView) -> bool {
    &&& buckets_finite(stats)
    &&& sum_of(stats.by_year) == stats.user_events
    &&& sum_of(stats.by_month) == stats.user_events
    &&& sum_of(stats.by_week) == stats.user_events
    &&& sum_of(stats.by_weekday) == stats.user_events
    &&& sum_of(stats.by_day) == stats.user_events
    &&& sum_of(stats.by_hour) == stats.user_events
    &&& reactions_balanced(stats)
    &&& reactions_answer_known(stats)
}

/// A walk that has seen no event has its books in order.
pub proof fn lemma_accounted_at_first(newest_event_id: Option<Seq<char>>, newest_ts: Option<i64>)
    ensures
        accounted(DetailedPaginationStats::initial(newest_event_id, newest_ts)),
{
    assert(Map::<Seq<char>, int>::empty().dom() =~= Set::<Seq<char>>::empty());
}

/// One event keeps the books in order, whatever it is.
pub proof fn lemma_accounted_step(
    stats: StatsView,
    event: EventView,
    local: Option<LocalStamp>,
    window_start: Option<i64>,
    window_end: i64,
    user_id: Seq<char>,
)
    requires
        accounted(stats),
    ensures
        accounted(folded(stats, event, local, window_start, window_end, user_id)),
{
    lemma_folded_counts(stats, event, local, window_start, window_end, user_id);
    lemma_folded_reactions(stats, event, local, window_start, window_end, user_id);
}

/// Folding events keeps the books in order, whatever the events are.
pub proof fn lemma_accounted_kept(
    stats: StatsView,
    events: Seq<EventView>,
    locals: Seq<Option<LocalStamp>>,
    window_start: Option<i64>,
    window_end: i64,
    user_id: Seq<char>,
)
    requires
        accounted(stats),
        locals.len() == events.len(),
    ensures
        accounted(folded_all(stats, events, locals, window_start, window_end, user_id)),
{
    lemma_messages_counted(stats, events, locals, window_start, window_end, user_id);
    lemma_reactions_counted(stats, events, locals, window_start, window_end, user_id);
}

/// A walk that began with no event seen has, after any run of events, as
/// many user events as messages of the owner were counted, that number as
/// the sum of each family of buckets, their local dates for its active
/// dates and their ids for the owner's message ids.
pub proof fn lemma_walk_counts(
    newest_event_id: Option<Seq<char>>,
    newest_ts: Option<i64>,
    events: Seq<EventView>,
    locals: Seq<Option<LocalStamp>>,
    window_start: Option<i64>,
    window_end: i64,
    user_id: Seq<char>,
)
    requires
        locals.len() == events.len(),
    ensures
        ({
            let after = folded_all(
                DetailedPaginationStats::initial(newest_event_id, newest_ts),
                events,
                locals,
                window_start,
                window_end,
                user_id,
            );
            let messages = counted_messages(events, locals, window_start, window_end, user_id);
            &&& after.user_events == messages
            &&& sum_of(after.by_year) == messages
            &&& sum_of(after.by_month) == messages
            &&& sum_of(after.by_week) == messages
            &&& sum_of(after.by_weekday) == messages
            &&& sum_of(after.by_day) == messages
            &&& sum_of(after.by_hour) == messages
            &&& after.active_dates == counted_dates(
                events,
                locals,
                window_start,
                window_end,
                user_id,
            )
            &&& after.user_message_ids == counted_ids(
                events,
                locals,
                window_start,
                window_end,
                user_id,
            )
        }),
{
    let first = DetailedPaginationStats::initial(newest_event_id, newest_ts);
    let after = folded_all(first, events, locals, window_start, window_end, user_id);
    lemma_accounted_at_first(newest_event_id, newest_ts);
    lemma_messages_counted(first, events, locals, window_start, window_end, user_id);
    assert(after.active_dates =~= counted_dates(
        events,
        locals,
        window_start,
        window_end,
        user_id,
    ));
    assert(after.user_message_ids =~= counted_ids(
        events,
        locals,
        window_start,
        window_end,
        user_id,
    ));
}

/// Folding one run of events and then another is folding the two runs as
/// one: what a walk holds after several batches is what it would hold
/// after one batch with all their events.
pub proof fn lemma_folded_all_joined(
    stats: StatsView,
    first: Seq<EventView>,
    first_locals: Seq<Option<LocalStamp>>,
    second: Seq<EventView>,
    second_locals: Seq<Option<LocalStamp>>,
    window_start: Option<i64>,
    window_end: i64,
    user_id: Seq<char>,
)
    requires
        first_locals.len() == first.len(),
        second_locals.len() == second.len(),
    ensures
        folded_all(
            folded_all(stats, first, first_locals, window_start, window_end, user_id),
            second,
            second_locals,
            window_start,
            window_end,
            user_id,
        ) == folded_all(
            stats,
            first + second,
            first_locals + second_locals,
            window_start,
            window_end,
            user_id,
        ),
    decreases second.len(),
{
    if second.len() == 0 {
        assert(first + second =~= first);
        assert(first_locals + second_locals =~= first_locals);
    } else {
        lemma_folded_all_joined(
            stats,
            first,
            first_locals,
            second.drop_last(),
            second_locals.drop_last(),
            window_start,
            window_end,
            user_id,
        );
        assert((first + second).drop_last() =~= first + second.drop_last());
        assert((first_locals + second_locals).drop_last() =~= first_locals
            + second_locals.drop_last());
        assert((first + second).last() == second.last());
        assert((first_locals + second_locals).last() == second_locals.last());
    }
}

/// Whether the room's start was reached before or after a run of events
/// makes no difference to what the events count as.
pub proof fn lemma_start_commutes(
    stats: StatsView,
    reached_start: bool,
    events: Seq<EventView>,
    locals: Seq<Option<LocalStamp>>,
    window_start: Option<i64>,
    window_end: i64,
    user_id: Seq<char>,
)
    ensures
        folded_all(
            at_start(stats, reached_start),
            events,
            locals,
            window_start,
            window_end,
            user_id,
        ) == at_start(
            folded_all(stats, events, locals, window_start, window_end, user_id),
            reached_start,
        ),
    decreases events.len(),
{
    if events.len() > 0 {
        lemma_start_commutes(
            stats,
            reached_start,
            events.drop_last(),
            locals.drop_last(),
            window_start,
            window_end,
            user_id,
        );
    }
}

} // verus!
