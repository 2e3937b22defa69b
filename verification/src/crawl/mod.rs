//! The crawl engine: which rooms to paginate, the backward walk through one
//! room, and what each walk leaves in the metadata store.

pub mod accounting;
pub mod counts;
pub mod decision;
pub mod discovery;
pub mod pagination;
pub mod progress;
pub mod types;

use crate::crawl::decision::{decides_crawl, hint_in, row_in, selected_ids, virgin_row};
use crate::crawl::types::{copy_text, text_of, DetailedPaginationStats, RoomCrawlStats};
use crate::crawl_db::{
    merged_coverage, with_counts, with_status, written, Coverage, CrawlDb, CrawlStatus, RowView,
    StatusView, Write,
};
use crate::stats_builder::RoomStatsInput;
use vstd::prelude::*;

verus! {

/// Rooms that are crawled at the same time.
pub const MAX_CONCURRENCY: usize = 8;

/// What kind of room a room is.
#[derive(Clone, Copy, Debug, PartialEq, Eq, Structural)]
pub enum RoomType {
    Dm,
    Public,
    Private,
}

/// The kind of a room: a direct-message room where the flag says so, else
/// public where anyone may join, else private. A room whose flag could not
/// be read counts as private.
pub fn classify_room_type(is_direct: Option<bool>, join_rule_is_public: bool) -> (kind: RoomType)
    ensures
        kind == match is_direct {
            Some(true) => RoomType::Dm,
            Some(false) => if join_rule_is_public {
                RoomType::Public
            } else {
                RoomType::Private
            },
            None => RoomType::Private,
        },
{
    match is_direct {
        Some(true) => RoomType::Dm,
        Some(false) => if join_rule_is_public {
            RoomType::Public
        } else {
            RoomType::Private
        },
        None => RoomType::Private,
    }
}

/// What the walk through one room brings back.
#[derive(Debug)]
pub enum RoomOutcome {
    Crawled { stats: RoomCrawlStats, detailed: DetailedPaginationStats, room_type: RoomType },
    Failed { room_id: String, message: String },
}

impl RoomOutcome {
    /// The room that the outcome is about.
    pub open spec fn room_id(self) -> Seq<char> {
        match self {
            RoomOutcome::Crawled { stats, .. } => stats.room_id@,
            RoomOutcome::Failed { room_id, .. } => room_id@,
        }
    }

    /// What a walk comes to when its row could not be written, for the
    /// reason `message`: a successful walk has failed for that reason, a
    /// failed one stays what it is.
    pub fn unwritten(self, message: String) -> (outcome: RoomOutcome)
        ensures
            outcome == match self {
                RoomOutcome::Crawled { stats, .. } => (RoomOutcome::Failed {
                    room_id: stats.room_id,
                    message,
                }),
                RoomOutcome::Failed { .. } => self,
            },
    {
        match self {
            RoomOutcome::Crawled { stats, .. } => RoomOutcome::Failed {
                room_id: stats.room_id,
                message,
            },
            RoomOutcome::Failed { room_id, message } => RoomOutcome::Failed { room_id, message },
        }
    }
}

/// How the crawl of an account is going.
#[derive(Debug)]
pub struct CrawlTally {
    pub success_count: usize,
    pub error_count: usize,
    /// What the rooms crawled so far contribute to the statistics.
    pub room_stats_inputs: Vec<RoomStatsInput>,
}

/// The coverage that a walk reports.
pub open spec fn coverage_of(stats: RoomCrawlStats) -> Coverage {
    Coverage {
        oldest_event_id: text_of(stats.oldest_event_id),
        oldest_event_ts: stats.oldest_ts,
        newest_event_id: text_of(stats.newest_event_id),
        newest_event_ts: stats.newest_ts,
        fully_crawled: stats.fully_crawled,
    }
}

/// The row of a room after a successful walk has been committed: coverage
/// merged, counts raised, status success.
pub open spec fn committed(
    stored: Option<RowView>,
    room_id: Seq<char>,
    given: Coverage,
    total: int,
    user: int,
) -> RowView {
    with_status(
        Some(with_counts(Some(merged_coverage(stored, room_id, given)), room_id, total, user)),
        room_id,
        StatusView::Success,
    )
}

impl CrawlTally {
    /// A crawl in which no room has ended yet.
    pub fn new() -> (tally: CrawlTally)
        ensures
            tally.success_count == 0,
            tally.error_count == 0,
            tally.room_stats_inputs@.len() == 0,
    {
        CrawlTally { success_count: 0, error_count: 0, room_stats_inputs: Vec::new() }
    }
}

/// Marks a room whose walk begins as in progress.
pub fn begin_room(db: &mut CrawlDb, room_id: &str)
    requires
        old(db).wf(),
    ensures
        final(db).wf(),
        final(db)@ == old(db)@.insert(
            room_id@,
            with_status(old(db).row(room_id@), room_id@, StatusView::InProgress),
        ),
{
    db.set_crawl_status(room_id, CrawlStatus::InProgress);
}

/// Marks a room as failed with `message` and counts the error.
pub fn fail_room(db: &mut CrawlDb, tally: &mut CrawlTally, room_id: &str, message: String)
    requires
        old(db).wf(),
        old(tally).error_count < usize::MAX,
    ensures
        final(db).wf(),
        final(db)@ == old(db)@.insert(
            room_id@,
            with_status(old(db).row(room_id@), room_id@, StatusView::Error(message@)),
        ),
        final(tally).error_count == old(tally).error_count + 1,
        final(tally).success_count == old(tally).success_count,
        final(tally).room_stats_inputs == old(tally).room_stats_inputs,
{
    db.set_crawl_status(room_id, CrawlStatus::Error(message));
    tally.error_count = tally.error_count + 1;
}

/// The row of a room after the outcome of a walk has been stored: after a
/// successful walk the committed row, after a failed one the row with the
/// error for its status and nothing else changed.
pub open spec fn row_after(stored: Option<RowView>, outcome: RoomOutcome) -> RowView {
    match outcome {
        RoomOutcome::Crawled { stats, .. } => committed(
            stored,
            stats.room_id@,
            coverage_of(stats),
            stats.total_events as int,
            stats.user_events as int,
        ),
        RoomOutcome::Failed { room_id, message } => with_status(
            stored,
            room_id@,
            StatusView::Error(message@),
        ),
    }
}

/// Stores the outcome of a walk: the row of its room becomes
/// `row_after`, and no other row changes. The tally is left to
/// `tally_room`, so that a caller can count the walk once the row is safe.
pub fn store_room(db: &mut CrawlDb, outcome: &RoomOutcome)
    requires
        old(db).wf(),
    ensures
        final(db).wf(),
        final(db)@ == old(db)@.insert(
            outcome.room_id(),
            row_after(old(db).row(outcome.room_id()), *outcome),
        ),
{
    match outcome {
        RoomOutcome::Crawled { stats, .. } => {
            let ghost before = db@;
            let ghost stored = db.row(stats.room_id@);
            let room_id = stats.room_id.as_str();
            db.update_room_metadata(
                room_id,
                copy_text(&stats.oldest_event_id),
                stats.oldest_ts,
                copy_text(&stats.newest_event_id),
                stats.newest_ts,
                stats.fully_crawled,
            );
            db.update_max_event_counts(room_id, stats.total_events, stats.user_events);
            db.set_crawl_status(room_id, CrawlStatus::Success);
            assert(db@ =~= before.insert(room_id@, row_after(stored, *outcome)));
        },
        RoomOutcome::Failed { room_id, message } => {
            db.set_crawl_status(room_id.as_str(), CrawlStatus::Error(message.clone()));
        },
    }
}

/// Counts the outcome of a walk: a successful walk as a success, with its
/// statistics collected behind those of the walks before it; a failed one
/// as an error.
pub fn tally_room(tally: &mut CrawlTally, outcome: RoomOutcome)
    requires
        old(tally).success_count < usize::MAX,
        old(tally).error_count < usize::MAX,
    ensures
        match outcome {
            RoomOutcome::Crawled { stats, detailed, room_type } => {
                &&& final(tally).success_count == old(tally).success_count + 1
                &&& final(tally).error_count == old(tally).error_count
                &&& final(tally).room_stats_inputs@.len() == old(tally).room_stats_inputs@.len()
                    + 1
                &&& final(tally).room_stats_inputs@.drop_last() == old(tally).room_stats_inputs@
                &&& final(tally).room_stats_inputs@.last().room_id@ == stats.room_id@
                &&& final(tally).room_stats_inputs@.last().room_name matches Some(name) && name@
                    == stats.room_name@
                &&& final(tally).room_stats_inputs@.last().room_type == room_type
                &&& final(tally).room_stats_inputs@.last().stats == detailed
            },
            RoomOutcome::Failed { .. } => {
                &&& final(tally).error_count == old(tally).error_count + 1
                &&& final(tally).success_count == old(tally).success_count
                &&& final(tally).room_stats_inputs == old(tally).room_stats_inputs
            },
        },
{
    match outcome {
        RoomOutcome::Crawled { stats, detailed, room_type } => {
            tally.success_count = tally.success_count + 1;
            tally.room_stats_inputs.push(
                RoomStatsInput {
                    room_id: stats.room_id,
                    room_name: Some(stats.room_name),
                    room_type,
                    stats: detailed,
                },
            );
            assert(tally.room_stats_inputs@.drop_last() =~= old(tally).room_stats_inputs@);
        },
        RoomOutcome::Failed { .. } => {
            tally.error_count = tally.error_count + 1;
        },
    }
}

/// Commits what the walk through one room brought back. A successful walk
/// has its coverage merged into the room's row, its counts recorded, the
/// status set to success, and its statistics collected; a failed one leaves
/// the coverage alone and sets the status to the error.
pub fn commit_room(db: &mut CrawlDb, tally: &mut CrawlTally, outcome: RoomOutcome)
    requires
        old(db).wf(),
        old(tally).success_count < usize::MAX,
        old(tally).error_count < usize::MAX,
    ensures
        final(db).wf(),
        match outcome {
            RoomOutcome::Crawled { stats, detailed, room_type } => {
                &&& final(db)@ == old(db)@.insert(
                    stats.room_id@,
                    committed(
                        old(db).row(stats.room_id@),
                        stats.room_id@,
                        coverage_of(stats),
                        stats.total_events as int,
                        stats.user_events as int,
                    ),
                )
                &&& final(tally).success_count == old(tally).success_count + 1
                &&& final(tally).error_count == old(tally).error_count
                &&& final(tally).room_stats_inputs@.len() == old(tally).room_stats_inputs@.len()
                    + 1
                &&& final(tally).room_stats_inputs@.drop_last() == old(tally).room_stats_inputs@
                &&& final(tally).room_stats_inputs@.last().room_id@ == stats.room_id@
                &&& final(tally).room_stats_inputs@.last().room_name matches Some(name) && name@
                    == stats.room_name@
                &&& final(tally).room_stats_inputs@.last().room_type == room_type
                &&& final(tally).room_stats_inputs@.last().stats == detailed
            },
            RoomOutcome::Failed { room_id, message } => {
                &&& final(db)@ == old(db)@.insert(
                    room_id@,
                    with_status(old(db).row(room_id@), room_id@, StatusView::Error(message@)),
                )
                &&& final(tally).error_count == old(tally).error_count + 1
                &&& final(tally).success_count == old(tally).success_count
                &&& final(tally).room_stats_inputs == old(tally).room_stats_inputs
            },
        },
{
    store_room(db, &outcome);
    tally_room(tally, outcome);
}

/// Committing a walk is three writes to the row of the room: its coverage,
/// its counts, and the status success. What holds of every write holds of
/// every commit.
pub proof fn lemma_commit_is_three_writes(
    stored: Option<RowView>,
    room_id: Seq<char>,
    given: Coverage,
    total: int,
    user: int,
)
    ensures
        committed(stored, room_id, given, total, user) == written(
            Some(
                written(
                    Some(written(stored, room_id, Write::Coverage(given))),
                    room_id,
                    Write::Counts { total, user },
                ),
            ),
            room_id,
            Write::Status(StatusView::Success),
        ),
{
}

/// Committing a walk keeps the oldest timestamp of the room no later than
/// the newest: every finished walk reports its coverage in that order.
pub proof fn lemma_commit_keeps_order(
    stored: Option<RowView>,
    room_id: Seq<char>,
    given: Coverage,
    total: int,
    user: int,
)
    requires
        stored matches Some(row) ==> row.ordered(),
        given.ordered(),
    ensures
        committed(stored, room_id, given, total, user).ordered(),
{
}

/// Whether a walk that reports `given` has done what the window asked of
/// it, with nothing new upstream since discovery: it reached the room's
/// creation or an event as old as the start of the window, and the newest
/// event it knows is the latest that discovery saw, the store knowing none
/// newer, or is as new as the end of the window.
pub open spec fn walk_covers(
    stored: Option<RowView>,
    given: Coverage,
    window_start: Option<i64>,
    window_end: i64,
    hint: Option<(Seq<char>, i64)>,
) -> bool {
    &&& given.fully_crawled || (window_start matches Some(start) && (
    given.oldest_event_ts matches Some(oldest) && oldest <= start))
    &&& {
        ||| (given.newest_event_ts matches Some(newest) && newest >= window_end)
        ||| (hint matches Some(h) && given.newest_event_id == Some(h.0) && given.newest_event_ts
            == Some(h.1) && (stored matches Some(row) ==> (
        row.newest_event_ts matches Some(known) ==> known <= h.1)))
    }
}

/// A room whose walk covered the window is not selected again.
pub proof fn lemma_crawled_room_is_skipped(
    stored: Option<RowView>,
    room_id: Seq<char>,
    given: Coverage,
    total: int,
    user: int,
    window_start: Option<i64>,
    window_end: i64,
    hint: Option<(Seq<char>, i64)>,
)
    requires
        walk_covers(stored, given, window_start, window_end, hint),
    ensures
        !decides_crawl(
            Some(committed(stored, room_id, given, total, user)),
            window_start,
            window_end,
            hint,
        ),
{
}

/// A room that was skipped without a row, and recorded, is skipped again.
pub proof fn lemma_recorded_room_is_skipped(
    room_id: Seq<char>,
    window_start: Option<i64>,
    window_end: i64,
    hint: (Seq<char>, i64),
)
    requires
        !decides_crawl(None, window_start, window_end, Some(hint)),
    ensures
        !decides_crawl(Some(virgin_row(room_id, hint)), window_start, window_end, Some(hint)),
{
}

/// Whether the store `after` is what a run over `room_ids` leaves of the
/// store `before` when nothing changes upstream and every walk covers the
/// window: a selected room has its walk committed, a room skipped with a
/// row keeps it, a room skipped without one gets its virgin row.
pub open spec fn run_leaves(
    room_ids: Seq<Seq<char>>,
    before: Map<Seq<char>, RowView>,
    after: Map<Seq<char>, RowView>,
    window_start: Option<i64>,
    window_end: i64,
    hints: Map<Seq<char>, (Seq<char>, i64)>,
) -> bool {
    forall|i: int|
        0 <= i < room_ids.len() ==> {
            let id = #[trigger] room_ids[i];
            let hint = hint_in(hints, id);
            if decides_crawl(row_in(before, id), window_start, window_end, hint) {
                exists|given: Coverage, total: int, user: int|
                    walk_covers(row_in(before, id), given, window_start, window_end, hint)
                        && row_in(after, id) == Some(
                        #[trigger] committed(row_in(before, id), id, given, total, user),
                    )
            } else if before.dom().contains(id) {
                row_in(after, id) == row_in(before, id)
            } else {
                row_in(after, id) == Some(virgin_row(id, hints[id]))
            }
        }
}

/// Selection is idempotent: after such a run, the same window with the same
/// hints selects no room.
pub proof fn lemma_second_run_selects_nothing(
    room_ids: Seq<Seq<char>>,
    before: Map<Seq<char>, RowView>,
    after: Map<Seq<char>, RowView>,
    window_start: Option<i64>,
    window_end: i64,
    hints: Map<Seq<char>, (Seq<char>, i64)>,
)
    requires
        run_leaves(room_ids, before, after, window_start, window_end, hints),
    ensures
        selected_ids(room_ids, after, window_start, window_end, hints) == Seq::<
            Seq<char>,
        >::empty(),
    decreases room_ids.len(),
{
    if room_ids.len() > 0 {
        let rest = room_ids.drop_last();
        assert forall|i: int| 0 <= i < rest.len() implies rest[i] == room_ids[i] by {}
        assert(run_leaves(rest, before, after, window_start, window_end, hints)) by {
            assert forall|i: int| 0 <= i < rest.len() implies {
                let id = #[trigger] rest[i];
                let hint = hint_in(hints, id);
                if decides_crawl(row_in(before, id), window_start, window_end, hint) {
                    exists|given: Coverage, total: int, user: int|
                        walk_covers(row_in(before, id), given, window_start, window_end, hint)
                            && row_in(after, id) == Some(
                            #[trigger] committed(row_in(before, id), id, given, total, user),
                        )
                } else if before.dom().contains(id) {
                    row_in(after, id) == row_in(before, id)
                } else {
                    row_in(after, id) == Some(virgin_row(id, hints[id]))
                }
            } by {
                assert(rest[i] == room_ids[i]);
            }
        }
        lemma_second_run_selects_nothing(rest, before, after, window_start, window_end, hints);
        let id = room_ids[room_ids.len() - 1];
        let hint = hint_in(hints, id);
        if decides_crawl(row_in(before, id), window_start, window_end, hint) {
            let (given, total, user) = choose|given: Coverage, total: int, user: int|
                walk_covers(row_in(before, id), given, window_start, window_end, hint) && row_in(
                    after,
                    id,
                ) == Some(#[trigger] committed(row_in(before, id), id, given, total, user));
            lemma_crawled_room_is_skipped(
                row_in(before, id),
                id,
                given,
                total,
                user,
                window_start,
                window_end,
                hint,
            );
        } else if !before.dom().contains(id) {
            lemma_recorded_room_is_skipped(id, window_start, window_end, hints[id]);
        }
    }
}

} // verus!
