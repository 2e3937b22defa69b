//! The metadata store of the crawl: one row per room with the coverage
//! reached so far, whether the walk has reached the room's creation, the
//! largest counts observed, and how the last crawl ended.

use crate::crawl::types::{copy_text, text_of};
use crate::text::{
    chars_less, chars_of, lemma_lex_irreflexive, lemma_lex_total, lemma_lex_transitive, lex_less,
    str_eq,
};
use vstd::prelude::*;

verus! {

/// The time span that the rows of the store cover together.
#[derive(Clone, Copy, Debug, PartialEq, Eq)]
pub struct TimeWindow {
    /// None when every room is fully crawled, else the newest of the oldest
    /// timestamps of the rooms that are not.
    pub window_start: Option<i64>,
    /// The newest timestamp of all rooms.
    pub window_end: Option<i64>,
    /// The oldest timestamp of all rooms.
    pub account_creation_ts: Option<i64>,
}

/// How the last crawl of a room ended.
#[derive(Clone, Debug, PartialEq, Eq)]
pub enum CrawlStatus {
    /// The room was seen and skipped: nothing of it lies in a window asked
    /// for so far.
    Virgin,
    Success,
    /// A crawl has begun and not ended.
    InProgress,
    Error(String),
}

/// A crawl status as a value of specifications.
pub enum StatusView {
    Virgin,
    Success,
    InProgress,
    Error(Seq<char>),
}

impl View for CrawlStatus {
    type V = StatusView;

    open spec fn view(&self) -> StatusView {
        match *self {
            CrawlStatus::Virgin => StatusView::Virgin,
            CrawlStatus::Success => StatusView::Success,
            CrawlStatus::InProgress => StatusView::InProgress,
            CrawlStatus::Error(message) => StatusView::Error(message@),
        }
    }
}

/// The status of an optional crawl status.
pub open spec fn status_of(status: Option<CrawlStatus>) -> Option<StatusView> {
    match status {
        Some(s) => Some(s@),
        None => None,
    }
}

/// The status that is stored under `name`, with `error` as the message of
/// an error.
pub open spec fn stored_status(name: Option<Seq<char>>, error: Option<Seq<char>>) -> Option<
    StatusView,
> {
    match name {
        None => None,
        Some(n) => if n == "virgin"@ {
            Some(StatusView::Virgin)
        } else if n == "success"@ {
            Some(StatusView::Success)
        } else if n == "in_progress"@ {
            Some(StatusView::InProgress)
        } else if n == "error"@ {
            match error {
                Some(message) => Some(StatusView::Error(message)),
                None => None,
            }
        } else {
            None
        },
    }
}

/// A status is read back as it was stored: under its name, with its
/// message.
pub proof fn lemma_status_round_trip(status: StatusView)
    ensures
        stored_status(
            Some(
                match status {
                    StatusView::Virgin => "virgin"@,
                    StatusView::Success => "success"@,
                    StatusView::InProgress => "in_progress"@,
                    StatusView::Error(_) => "error"@,
                },
            ),
            match status {
                StatusView::Error(message) => Some(message),
                _ => None,
            },
        ) == Some(status),
{
    reveal_strlit("virgin");
    reveal_strlit("success");
    reveal_strlit("in_progress");
    reveal_strlit("error");
    assert("virgin"@.len() == 6);
    assert("success"@.len() == 7);
    assert("in_progress"@.len() == 11);
    assert("error"@.len() == 5);
}

impl CrawlStatus {
    /// The name under which the status is stored.
    pub fn as_str(&self) -> (name: &'static str)
        ensures
            name@ == match self@ {
                StatusView::Virgin => "virgin"@,
                StatusView::Success => "success"@,
                StatusView::InProgress => "in_progress"@,
                StatusView::Error(_) => "error"@,
            },
    {
        match self {
            CrawlStatus::Virgin => "virgin",
            CrawlStatus::Success => "success",
            CrawlStatus::InProgress => "in_progress",
            CrawlStatus::Error(_) => "error",
        }
    }

    /// The message of an error status.
    pub fn error_message(&self) -> (message: Option<&str>)
        ensures
            match self@ {
                StatusView::Error(text) => message matches Some(m) && m@ == text,
                _ => message is None,
            },
    {
        match self {
            CrawlStatus::Error(message) => Some(message.as_str()),
            _ => None,
        }
    }

    /// The status that is stored under `name`, with `error` as the message
    /// of an error; none for no name, an unknown name, or an error without
    /// message.
    pub fn from_stored(name: Option<&str>, error: Option<String>) -> (status: Option<CrawlStatus>)
        ensures
            status_of(status) == stored_status(
                match name {
                    Some(n) => Some(n@),
                    None => None,
                },
                text_of(error),
            ),
    {
        let name = match name {
            Some(name) => name,
            None => {
                return None;
            },
        };
        if str_eq(name, "virgin") {
            Some(CrawlStatus::Virgin)
        } else if str_eq(name, "success") {
            Some(CrawlStatus::Success)
        } else if str_eq(name, "in_progress") {
            Some(CrawlStatus::InProgress)
        } else if str_eq(name, "error") {
            match error {
                Some(message) => Some(CrawlStatus::Error(message)),
                None => None,
            }
        } else {
            None
        }
    }

    /// A status with the same content.
    pub fn copy(&self) -> (same: CrawlStatus)
        ensures
            same@ == self@,
    {
        match self {
            CrawlStatus::Virgin => CrawlStatus::Virgin,
            CrawlStatus::Success => CrawlStatus::Success,
            CrawlStatus::InProgress => CrawlStatus::InProgress,
            CrawlStatus::Error(message) => CrawlStatus::Error(message.clone()),
        }
    }
}

/// The row of one room.
#[derive(Debug)]
pub struct RoomCrawlMetadata {
    pub room_id: String,
    pub oldest_event_id: Option<String>,
    /// Milliseconds since 1970-01-01 00:00:00 UTC.
    pub oldest_event_ts: Option<i64>,
    pub newest_event_id: Option<String>,
    pub newest_event_ts: Option<i64>,
    /// Backward pagination has reached the creation of the room.
    pub fully_crawled: bool,
    /// The largest number of events that one crawl has fetched.
    pub total_events_fetched: usize,
    /// The largest number of the owner's events that one crawl has fetched.
    pub user_events_fetched: usize,
    pub last_crawl_status: Option<CrawlStatus>,
}

/// A row as a value of specifications.
pub struct RowView {
    pub room_id: Seq<char>,
    pub oldest_event_id: Option<Seq<char>>,
    pub oldest_event_ts: Option<i64>,
    pub newest_event_id: Option<Seq<char>>,
    pub newest_event_ts: Option<i64>,
    pub fully_crawled: bool,
    pub total_events_fetched: int,
    pub user_events_fetched: int,
    pub last_crawl_status: Option<StatusView>,
}

impl View for RoomCrawlMetadata {
    type V = RowView;

    open spec fn view(&self) -> RowView {
        RowView {
            room_id: self.room_id@,
            oldest_event_id: text_of(self.oldest_event_id),
            oldest_event_ts: self.oldest_event_ts,
            newest_event_id: text_of(self.newest_event_id),
            newest_event_ts: self.newest_event_ts,
            fully_crawled: self.fully_crawled,
            total_events_fetched: self.total_events_fetched as int,
            user_events_fetched: self.user_events_fetched as int,
            last_crawl_status: status_of(self.last_crawl_status),
        }
    }
}

impl RowView {
    /// An oldest timestamp comes with a newest one that is no earlier.
    pub open spec fn ordered(self) -> bool {
        self.oldest_event_ts is Some ==> self.newest_event_ts is Some && self.oldest_event_ts->0
            <= self.newest_event_ts->0
    }

    /// The rank of the row when rooms are listed: skipped rooms first, then
    /// rooms crawled to their creation, rooms crawled in part, crawls in
    /// progress, failed crawls, and last the rooms without a status.
    pub open spec fn priority(self) -> int {
        match self.last_crawl_status {
            Some(StatusView::Virgin) => 1,
            Some(StatusView::Success) => if self.fully_crawled {
                2
            } else {
                3
            },
            Some(StatusView::InProgress) => 4,
            Some(StatusView::Error(_)) => 5,
            None => 6,
        }
    }
}

/// The row that a room has before anything is known of it.
pub open spec fn blank_row(room_id: Seq<char>) -> RowView {
    RowView {
        room_id,
        oldest_event_id: None,
        oldest_event_ts: None,
        newest_event_id: None,
        newest_event_ts: None,
        fully_crawled: false,
        total_events_fetched: 0,
        user_events_fetched: 0,
        last_crawl_status: None,
    }
}

/// The smaller of two timestamps, as far as they are known; an unknown
/// `given` keeps `stored`.
pub open spec fn merged_oldest(stored: Option<i64>, given: Option<i64>) -> Option<i64> {
    match given {
        None => stored,
        Some(g) => match stored {
            None => Some(g),
            Some(s) => Some(if g < s { g } else { s }),
        },
    }
}

/// The larger of two timestamps, as far as they are known; an unknown
/// `given` keeps `stored`.
pub open spec fn merged_newest(stored: Option<i64>, given: Option<i64>) -> Option<i64> {
    match given {
        None => stored,
        Some(g) => match stored {
            None => Some(g),
            Some(s) => Some(if g > s { g } else { s }),
        },
    }
}

/// The id that stands beside a merged timestamp: the given one replaces the
/// stored one only when it comes with a timestamp.
pub open spec fn merged_id(
    stored: Option<Seq<char>>,
    given: Option<Seq<char>>,
    given_ts: Option<i64>,
) -> Option<Seq<char>> {
    if given_ts is Some && given is Some {
        given
    } else {
        stored
    }
}

/// The coverage that a crawl reports for a room.
pub struct Coverage {
    pub oldest_event_id: Option<Seq<char>>,
    pub oldest_event_ts: Option<i64>,
    pub newest_event_id: Option<Seq<char>>,
    pub newest_event_ts: Option<i64>,
    pub fully_crawled: bool,
}

impl Coverage {
    /// An oldest timestamp comes with a newest one that is no earlier.
    pub open spec fn ordered(self) -> bool {
        self.oldest_event_ts is Some ==> self.newest_event_ts is Some && self.oldest_event_ts->0
            <= self.newest_event_ts->0
    }
}

/// The row after a crawl has reported `given`. A room without a row gets
/// the report as it is; else the older of the oldest and the newer of the
/// newest timestamps stay, and a room once crawled to its creation stays so.
pub open spec fn merged_coverage(stored: Option<RowView>, room_id: Seq<char>, given: Coverage) -> RowView {
    match stored {
        None => RowView {
            oldest_event_id: given.oldest_event_id,
            oldest_event_ts: given.oldest_event_ts,
            newest_event_id: given.newest_event_id,
            newest_event_ts: given.newest_event_ts,
            fully_crawled: given.fully_crawled,
            ..blank_row(room_id)
        },
        Some(row) => RowView {
            oldest_event_id: merged_id(
                row.oldest_event_id,
                given.oldest_event_id,
                given.oldest_event_ts,
            ),
            oldest_event_ts: merged_oldest(row.oldest_event_ts, given.oldest_event_ts),
            newest_event_id: merged_id(
                row.newest_event_id,
                given.newest_event_id,
                given.newest_event_ts,
            ),
            newest_event_ts: merged_newest(row.newest_event_ts, given.newest_event_ts),
            fully_crawled: row.fully_crawled || given.fully_crawled,
            ..row
        },
    }
}

/// The row after its status has been set; nothing else changes.
pub open spec fn with_status(stored: Option<RowView>, room_id: Seq<char>, status: StatusView) -> RowView {
    match stored {
        None => RowView { last_crawl_status: Some(status), ..blank_row(room_id) },
        Some(row) => RowView { last_crawl_status: Some(status), ..row },
    }
}

/// The row after a crawl has fetched `total` events, `user` of them the
/// owner's: each counter keeps the larger of the stored and the new count.
pub open spec fn with_counts(stored: Option<RowView>, room_id: Seq<char>, total: int, user: int) -> RowView {
    match stored {
        None => RowView {
            total_events_fetched: total,
            user_events_fetched: user,
            ..blank_row(room_id)
        },
        Some(row) => RowView {
            total_events_fetched: if total > row.total_events_fetched {
                total
            } else {
                row.total_events_fetched
            },
            user_events_fetched: if user > row.user_events_fetched {
                user
            } else {
                row.user_events_fetched
            },
            ..row
        },
    }
}

/// One write to the row of a room.
pub enum Write {
    Coverage(Coverage),
    Status(StatusView),
    Counts { total: int, user: int },
}

/// The row after a write.
pub open spec fn written(stored: Option<RowView>, room_id: Seq<char>, write: Write) -> RowView {
    match write {
        Write::Coverage(given) => merged_coverage(stored, room_id, given),
        Write::Status(status) => with_status(stored, room_id, status),
        Write::Counts { total, user } => with_counts(stored, room_id, total, user),
    }
}

/// No write moves the oldest timestamp of a row later or its newest
/// timestamp earlier, and none forgets a timestamp.
pub proof fn lemma_extrema_monotone(row: RowView, write: Write)
    ensures
        row.oldest_event_ts matches Some(before) ==> (written(
            Some(row),
            row.room_id,
            write,
        ).oldest_event_ts matches Some(after) && after <= before),
        row.newest_event_ts matches Some(before) ==> (written(
            Some(row),
            row.room_id,
            write,
        ).newest_event_ts matches Some(after) && after >= before),
{
}

/// A room once crawled to its creation stays so under every write.
pub proof fn lemma_fully_crawled_sticks(row: RowView, write: Write)
    requires
        row.fully_crawled,
    ensures
        written(Some(row), row.room_id, write).fully_crawled,
{
}

/// No write lowers a counter.
pub proof fn lemma_counters_monotone(row: RowView, write: Write)
    ensures
        written(Some(row), row.room_id, write).total_events_fetched >= row.total_events_fetched,
        written(Some(row), row.room_id, write).user_events_fetched >= row.user_events_fetched,
{
}

/// A row whose oldest timestamp is no later than its newest keeps that
/// order when a crawl reports a coverage that is ordered itself, as every
/// finished walk does; the other writes keep it in any case. So whenever a
/// row holds both timestamps, the oldest is no later than the newest.
pub proof fn lemma_order_kept(stored: Option<RowView>, room_id: Seq<char>, write: Write)
    requires
        stored matches Some(row) ==> row.ordered(),
        write matches Write::Coverage(given) ==> given.ordered(),
    ensures
        written(stored, room_id, write).ordered(),
{
}

impl RoomCrawlMetadata {
    /// A row with the same content.
    pub fn copy(&self) -> (same: RoomCrawlMetadata)
        ensures
            same@ == self@,
    {
        RoomCrawlMetadata {
            room_id: self.room_id.clone(),
            oldest_event_id: copy_text(&self.oldest_event_id),
            oldest_event_ts: self.oldest_event_ts,
            newest_event_id: copy_text(&self.newest_event_id),
            newest_event_ts: self.newest_event_ts,
            fully_crawled: self.fully_crawled,
            total_events_fetched: self.total_events_fetched,
            user_events_fetched: self.user_events_fetched,
            last_crawl_status: match &self.last_crawl_status {
                Some(status) => Some(status.copy()),
                None => None,
            },
        }
    }

    /// The rank of the row when rooms are listed.
    pub fn priority(&self) -> (rank: u8)
        ensures
            rank == self@.priority(),
            1 <= rank <= 6,
    {
        match &self.last_crawl_status {
            Some(CrawlStatus::Virgin) => 1,
            Some(CrawlStatus::Success) => if self.fully_crawled {
                2
            } else {
                3
            },
            Some(CrawlStatus::InProgress) => 4,
            Some(CrawlStatus::Error(_)) => 5,
            None => 6,
        }
    }
}

/// Whether `end` is the newest timestamp of all rows: none where no row
/// has one.
pub open spec fn is_window_end(rows: Map<Seq<char>, RowView>, end: Option<i64>) -> bool {
    match end {
        None => forall|k: Seq<char>|
            rows.dom().contains(k) ==> (#[trigger] rows[k]).newest_event_ts is None,
        Some(m) => {
            &&& exists|k: Seq<char>|
                rows.dom().contains(k) && (#[trigger] rows[k]).newest_event_ts == Some(m)
            &&& forall|k: Seq<char>|
                rows.dom().contains(k) ==> ((#[trigger] rows[k]).newest_event_ts matches Some(t)
                    ==> t <= m)
        },
    }
}

/// Whether `creation` is the oldest timestamp of all rows: none where no
/// row has one.
pub open spec fn is_account_creation(rows: Map<Seq<char>, RowView>, creation: Option<i64>) -> bool {
    match creation {
        None => forall|k: Seq<char>|
            rows.dom().contains(k) ==> (#[trigger] rows[k]).oldest_event_ts is None,
        Some(m) => {
            &&& exists|k: Seq<char>|
                rows.dom().contains(k) && (#[trigger] rows[k]).oldest_event_ts == Some(m)
            &&& forall|k: Seq<char>|
                rows.dom().contains(k) ==> ((#[trigger] rows[k]).oldest_event_ts matches Some(t)
                    ==> m <= t)
        },
    }
}

/// Whether `start` is the newest of the oldest timestamps of the rooms
/// that are not fully crawled: none where no such room has one.
pub open spec fn is_window_start(rows: Map<Seq<char>, RowView>, start: Option<i64>) -> bool {
    match start {
        None => forall|k: Seq<char>|
            rows.dom().contains(k) ==> (#[trigger] rows[k]).fully_crawled
                || rows[k].oldest_event_ts is None,
        Some(m) => {
            &&& exists|k: Seq<char>|
                rows.dom().contains(k) && !(#[trigger] rows[k]).fully_crawled
                    && rows[k].oldest_event_ts == Some(m)
            &&& forall|k: Seq<char>|
                rows.dom().contains(k) && !(#[trigger] rows[k]).fully_crawled ==> (
                rows[k].oldest_event_ts matches Some(t) ==> t <= m)
        },
    }
}

/// Whether row `a` is listed before row `b`: by rank, then by room id.
pub open spec fn listed_before(a: RowView, b: RowView) -> bool {
    a.priority() < b.priority() || (a.priority() == b.priority() && lex_less(
        a.room_id,
        b.room_id,
    ))
}

/// The metadata store: at most one row per room, found by the room's id.
#[derive(Debug)]
pub struct CrawlDb {
    /// The rows, in the order of their room ids.
    rows: Vec<RoomCrawlMetadata>,
}

impl View for CrawlDb {
    type V = Map<Seq<char>, RowView>;

    closed spec fn view(&self) -> Map<Seq<char>, RowView> {
        Map::new(
            |k: Seq<char>| self.ids().contains(k),
            |k: Seq<char>| self.rows@[self.place(k)]@,
        )
    }
}

impl CrawlDb {
    /// The room ids of the rows, in the order of the rows.
    closed spec fn ids(&self) -> Seq<Seq<char>> {
        Seq::new(self.rows@.len(), |i: int| self.rows@[i].room_id@)
    }

    /// The place of the row of a room that has one.
    closed spec fn place(&self, room_id: Seq<char>) -> int {
        choose|i: int| 0 <= i < self.ids().len() && self.ids()[i] == room_id
    }

    /// The rows stand in the strict order of their room ids, so no room has
    /// two rows.
    pub closed spec fn wf(&self) -> bool {
        forall|i: int, j: int|
            0 <= i < j < self.ids().len() ==> lex_less(
                #[trigger] self.ids()[i],
                #[trigger] self.ids()[j],
            )
    }

    /// The row of a room, if the store has one.
    pub open spec fn row(&self, room_id: Seq<char>) -> Option<RowView> {
        if self@.dom().contains(room_id) {
            Some(self@[room_id])
        } else {
            None
        }
    }

    /// The row at `i` is the row of its room.
    proof fn lemma_place(&self, i: int)
        requires
            self.wf(),
            0 <= i < self.rows@.len(),
        ensures
            self@.dom().contains(self.rows@[i].room_id@),
            self.place(self.rows@[i].room_id@) == i,
            self@[self.rows@[i].room_id@] == self.rows@[i]@,
    {
        let k = self.ids()[i];
        assert(self.ids().contains(k));
        let j = self.place(k);
        lemma_lex_irreflexive(k);
        if j < i {
            assert(lex_less(self.ids()[j], self.ids()[i]));
        } else if i < j {
            assert(lex_less(self.ids()[i], self.ids()[j]));
        }
    }

    /// A room that has a row has it at its place.
    proof fn lemma_found(&self, room_id: Seq<char>)
        requires
            self.wf(),
            self@.dom().contains(room_id),
        ensures
            0 <= self.place(room_id) < self.rows@.len(),
            self.rows@[self.place(room_id)].room_id@ == room_id,
            self@[room_id] == self.rows@[self.place(room_id)]@,
    {
        let i = choose|i: int| 0 <= i < self.ids().len() && self.ids()[i] == room_id;
        assert(self.ids()[i] == room_id);
    }

    /// The store has as many rooms as rows.
    proof fn lemma_count(&self)
        requires
            self.wf(),
        ensures
            self@.dom().finite(),
            self@.dom().len() == self.rows@.len(),
    {
        let ids = self.ids();
        assert forall|i: int, j: int| 0 <= i < ids.len() && 0 <= j < ids.len() && i != j implies ids[i]
            != ids[j] by {
            lemma_lex_irreflexive(ids[i]);
            if i < j {
                assert(lex_less(ids[i], ids[j]));
            } else {
                assert(lex_less(ids[j], ids[i]));
            }
        }
        assert(ids.no_duplicates());
        ids.unique_seq_to_set();
        assert(ids.to_set() =~= self@.dom());
    }

    /// The rooms of a store are finitely many, and each row names the room
    /// it is stored under.
    pub proof fn lemma_rows(&self)
        requires
            self.wf(),
        ensures
            self@.dom().finite(),
            forall|k: Seq<char>| self@.dom().contains(k) ==> (#[trigger] self@[k]).room_id == k,
    {
        self.lemma_count();
        assert forall|k: Seq<char>| self@.dom().contains(k) implies (#[trigger] self@[k]).room_id
            == k by {
            self.lemma_found(k);
        }
    }

    /// A store without rows.
    pub fn new() -> (db: CrawlDb)
        ensures
            db.wf(),
            db@ == Map::<Seq<char>, RowView>::empty(),
    {
        let db = CrawlDb { rows: Vec::new() };
        assert(db@ =~= Map::<Seq<char>, RowView>::empty());
        db
    }

    /// A store with the same rows.
    pub fn copy(&self) -> (same: CrawlDb)
        requires
            self.wf(),
        ensures
            same.wf(),
            same@ == self@,
    {
        let mut rows: Vec<RoomCrawlMetadata> = Vec::new();
        let mut i: usize = 0;
        while i < self.rows.len()
            invariant
                i <= self.rows@.len(),
                rows@.len() == i,
                forall|j: int| 0 <= j < i ==> (#[trigger] rows@[j])@ == self.rows@[j]@,
            decreases self.rows@.len() - i,
        {
            rows.push(self.rows[i].copy());
            i = i + 1;
        }
        let same = CrawlDb { rows };
        assert(same.ids() =~= self.ids()) by {
            assert forall|i: int| 0 <= i < same.ids().len() implies same.ids()[i] == self.ids()[i] by {
                assert(same.rows@[i]@.room_id == self.rows@[i]@.room_id);
            }
        }
        assert(same@ =~= self@) by {
            assert forall|k: Seq<char>| same@.dom().contains(k) implies same@[k] == self@[k] by {
                same.lemma_found(k);
            }
        }
        same
    }

    /// The place where the row of a room stands or would have to stand, and
    /// whether it stands there.
    fn find(&self, room_id: &str) -> (at: (usize, bool))
        requires
            self.wf(),
        ensures
            at.0 <= self.rows@.len(),
            forall|j: int| 0 <= j < at.0 ==> lex_less(#[trigger] self.ids()[j], room_id@),
            at.1 ==> at.0 < self.rows@.len() && self.rows@[at.0 as int].room_id@ == room_id@
                && self.rows@[at.0 as int]@ == self@[room_id@],
            !at.1 ==> at.0 == self.rows@.len() || lex_less(room_id@, self.ids()[at.0 as int]),
            at.1 == self@.dom().contains(room_id@),
    {
        let key = chars_of(room_id);
        let mut i: usize = 0;
        while i < self.rows.len()
            invariant
                self.wf(),
                key@ == room_id@,
                i <= self.rows@.len(),
                forall|j: int| 0 <= j < i ==> lex_less(#[trigger] self.ids()[j], key@),
            decreases self.rows.len() - i,
        {
            let here = chars_of(self.rows[i].room_id.as_str());
            assert(here@ == self.ids()[i as int]);
            if !chars_less(&here, &key) {
                let found = !chars_less(&key, &here);
                proof {
                    lemma_lex_total(here@, key@);
                    self.lemma_absent(key@, i as int);
                    if found {
                        self.lemma_place(i as int);
                    }
                }
                return (i, found);
            }
            i = i + 1;
        }
        proof {
            self.lemma_absent(key@, i as int);
        }
        (i, false)
    }

    /// The place of a room's row.
    fn found(&self, room_id: &str) -> (at: Option<usize>)
        requires
            self.wf(),
        ensures
            at is Some <==> self@.dom().contains(room_id@),
            at matches Some(i) ==> i < self.rows@.len() && self.rows@[i as int]@
                == self@[room_id@],
    {
        let (at, present) = self.find(room_id);
        if present {
            Some(at)
        } else {
            None
        }
    }

    /// A room whose row would have to stand at `at`, and does not, has none.
    proof fn lemma_absent(&self, room_id: Seq<char>, at: int)
        requires
            self.wf(),
            0 <= at <= self.ids().len(),
            forall|j: int| 0 <= j < at ==> lex_less(#[trigger] self.ids()[j], room_id),
            at == self.ids().len() || !lex_less(self.ids()[at], room_id),
        ensures
            self@.dom().contains(room_id) <==> (at < self.ids().len() && self.ids()[at] == room_id),
    {
        if self.ids().contains(room_id) {
            let j = choose|j: int| 0 <= j < self.ids().len() && self.ids()[j] == room_id;
            lemma_lex_irreflexive(room_id);
            if j > at {
                assert(lex_less(self.ids()[at], self.ids()[j]));
            } else if j < at {
                assert(lex_less(self.ids()[j], room_id));
            }
        }
        if at < self.ids().len() && self.ids()[at] == room_id {
            assert(self.ids().contains(room_id));
        }
    }

    /// Stores `row` as the row of its room.
    fn put(&mut self, room_id: &str, row: RoomCrawlMetadata)
        requires
            old(self).wf(),
            row.room_id@ == room_id@,
        ensures
            final(self).wf(),
            final(self)@ == old(self)@.insert(room_id@, row@),
    {
        let (at, present) = self.find(room_id);
        let ghost before = self.ids();
        if present {
            self.rows[at] = row;
            assert(self.ids() =~= before);
            assert(self@ =~= old(self)@.insert(room_id@, row@)) by {
                assert forall|k: Seq<char>| self@.dom().contains(k) implies self@[k] == old(
                    self,
                )@.insert(room_id@, row@)[k] by {
                    if k == room_id@ {
                        self.lemma_place(at as int);
                    } else {
                        assert(old(self).ids().contains(k));
                        self.lemma_found(k);
                        old(self).lemma_found(k);
                        assert(self.place(k) == old(self).place(k));
                        assert(self.rows@[self.place(k)] == old(self).rows@[self.place(k)]);
                    }
                }
            }
        } else {
            self.rows.insert(at, row);
            assert(self.ids() =~= before.insert(at as int, room_id@));
            assert(self.wf()) by {
                assert forall|i: int, j: int| 0 <= i < j < self.ids().len() implies lex_less(
                    #[trigger] self.ids()[i],
                    #[trigger] self.ids()[j],
                ) by {
                    let x = if i < at { i } else { i - 1 };
                    let y = if j < at { j } else { j - 1 };
                    if i == at {
                        if y > at {
                            assert(lex_less(before[at as int], before[y]));
                            lemma_lex_transitive(room_id@, before[at as int], before[y]);
                        }
                    } else if j == at {
                        assert(lex_less(before[x], room_id@));
                    } else {
                        assert(lex_less(before[x], before[y]));
                    }
                }
            }
            assert(self@ =~= old(self)@.insert(room_id@, row@)) by {
                assert(self.ids()[at as int] == room_id@);
                assert forall|k: Seq<char>| #[trigger]
                    self@.dom().contains(k) <==> (old(self)@.dom().contains(k) || k == room_id@) by {
                    if self.ids().contains(k) {
                        let i = choose|i: int| 0 <= i < self.ids().len() && self.ids()[i] == k;
                        if i != at {
                            let x = if i < at { i } else { i - 1 };
                            assert(before[x] == k);
                        }
                    }
                    if before.contains(k) {
                        let x = choose|x: int| 0 <= x < before.len() && before[x] == k;
                        let i = if x < at { x } else { x + 1 };
                        assert(self.ids()[i] == k);
                    }
                }
                assert forall|k: Seq<char>| self@.dom().contains(k) implies self@[k] == old(
                    self,
                )@.insert(room_id@, row@)[k] by {
                    if k == room_id@ {
                        self.lemma_place(at as int);
                    } else {
                        old(self).lemma_found(k);
                        let x = old(self).place(k);
                        let i = if x < at { x } else { x + 1 };
                        assert(self.rows@[i] == old(self).rows@[x]);
                        self.lemma_place(i);
                    }
                }
            }
        }
    }

    /// The row of a room, if the store has one.
    pub fn get_room_metadata(&self, room_id: &str) -> (row: Option<RoomCrawlMetadata>)
        requires
            self.wf(),
        ensures
            row is Some <==> self@.dom().contains(room_id@),
            row matches Some(r) ==> r@ == self@[room_id@] && r.room_id@ == room_id@,
    {
        let (at, present) = self.find(room_id);
        if present {
            Some(self.rows[at].copy())
        } else {
            None
        }
    }

    /// Merges the coverage that a crawl reports into the row of the room.
    pub fn update_room_metadata(
        &mut self,
        room_id: &str,
        oldest_event_id: Option<String>,
        oldest_event_ts: Option<i64>,
        newest_event_id: Option<String>,
        newest_event_ts: Option<i64>,
        fully_crawled: bool,
    )
        requires
            old(self).wf(),
        ensures
            final(self).wf(),
            final(self)@ == old(self)@.insert(
                room_id@,
                merged_coverage(
                    old(self).row(room_id@),
                    room_id@,
                    (Coverage {
                        oldest_event_id: text_of(oldest_event_id),
                        oldest_event_ts,
                        newest_event_id: text_of(newest_event_id),
                        newest_event_ts,
                        fully_crawled,
                    }),
                ),
            ),
    {
        let row = match self.found(room_id) {
            None => RoomCrawlMetadata {
                room_id: room_id.to_owned(),
                oldest_event_id,
                oldest_event_ts,
                newest_event_id,
                newest_event_ts,
                fully_crawled,
                total_events_fetched: 0,
                user_events_fetched: 0,
                last_crawl_status: None,
            },
            Some(at) => {
                proof {
                    self.lemma_rows();
                }
                let stored = self.rows[at].copy();
                RoomCrawlMetadata {
                    oldest_event_id: if oldest_event_ts.is_some() && oldest_event_id.is_some() {
                        oldest_event_id
                    } else {
                        stored.oldest_event_id
                    },
                    oldest_event_ts: match oldest_event_ts {
                        None => stored.oldest_event_ts,
                        Some(given) => match stored.oldest_event_ts {
                            None => Some(given),
                            Some(s) => Some(if given < s { given } else { s }),
                        },
                    },
                    newest_event_id: if newest_event_ts.is_some() && newest_event_id.is_some() {
                        newest_event_id
                    } else {
                        stored.newest_event_id
                    },
                    newest_event_ts: match newest_event_ts {
                        None => stored.newest_event_ts,
                        Some(given) => match stored.newest_event_ts {
                            None => Some(given),
                            Some(s) => Some(if given > s { given } else { s }),
                        },
                    },
                    fully_crawled: stored.fully_crawled || fully_crawled,
                    room_id: stored.room_id,
                    total_events_fetched: stored.total_events_fetched,
                    user_events_fetched: stored.user_events_fetched,
                    last_crawl_status: stored.last_crawl_status,
                }
            },
        };
        self.put(room_id, row);
    }

    /// Sets how the last crawl of the room ended; nothing else of the row
    /// changes.
    pub fn set_crawl_status(&mut self, room_id: &str, status: CrawlStatus)
        requires
            old(self).wf(),
        ensures
            final(self).wf(),
            final(self)@ == old(self)@.insert(
                room_id@,
                with_status(old(self).row(room_id@), room_id@, status@),
            ),
    {
        let row = match self.found(room_id) {
            None => RoomCrawlMetadata {
                room_id: room_id.to_owned(),
                oldest_event_id: None,
                oldest_event_ts: None,
                newest_event_id: None,
                newest_event_ts: None,
                fully_crawled: false,
                total_events_fetched: 0,
                user_events_fetched: 0,
                last_crawl_status: Some(status),
            },
            Some(at) => {
                proof {
                    self.lemma_rows();
                }
                let stored = self.rows[at].copy();
                RoomCrawlMetadata { last_crawl_status: Some(status), ..stored }
            },
        };
        self.put(room_id, row);
    }

    /// Records the counts of one crawl: each counter keeps the larger of
    /// the stored and the new count.
    pub fn update_max_event_counts(&mut self, room_id: &str, total_events: usize, user_events: usize)
        requires
            old(self).wf(),
        ensures
            final(self).wf(),
            final(self)@ == old(self)@.insert(
                room_id@,
                with_counts(
                    old(self).row(room_id@),
                    room_id@,
                    total_events as int,
                    user_events as int,
                ),
            ),
    {
        let row = match self.found(room_id) {
            None => RoomCrawlMetadata {
                room_id: room_id.to_owned(),
                oldest_event_id: None,
                oldest_event_ts: None,
                newest_event_id: None,
                newest_event_ts: None,
                fully_crawled: false,
                total_events_fetched: total_events,
                user_events_fetched: user_events,
                last_crawl_status: None,
            },
            Some(at) => {
                proof {
                    self.lemma_rows();
                }
                let stored = self.rows[at].copy();
                RoomCrawlMetadata {
                    total_events_fetched: if total_events > stored.total_events_fetched {
                        total_events
                    } else {
                        stored.total_events_fetched
                    },
                    user_events_fetched: if user_events > stored.user_events_fetched {
                        user_events
                    } else {
                        stored.user_events_fetched
                    },
                    ..stored
                }
            },
        };
        self.put(room_id, row);
    }

    /// The number of rooms with a row.
    pub fn room_count(&self) -> (count: usize)
        requires
            self.wf(),
        ensures
            count == self@.dom().len(),
    {
        proof {
            self.lemma_count();
        }
        self.rows.len()
    }
}

impl CrawlDb {
    /// The rows in the order in which they are stored.
    closed spec fn stored(&self) -> Seq<RowView> {
        Seq::new(self.rows@.len(), |i: int| self.rows@[i]@)
    }

    /// Each stored row is the row of its room, and each room's row is stored.
    proof fn lemma_stored(&self)
        requires
            self.wf(),
        ensures
            self.stored().len() == self.rows@.len(),
            forall|i: int|
                0 <= i < self.stored().len() ==> self@.dom().contains(
                    (#[trigger] self.stored()[i]).room_id,
                ) && self@[self.stored()[i].room_id] == self.stored()[i],
            forall|k: Seq<char>|
                self@.dom().contains(k) ==> 0 <= self.place(k) < self.stored().len()
                    && #[trigger] self@[k] == self.stored()[self.place(k)],
            forall|i: int, j: int|
                0 <= i < j < self.stored().len() ==> (#[trigger] self.stored()[i]).room_id != (
                #[trigger] self.stored()[j]).room_id,
    {
        assert forall|i: int| 0 <= i < self.stored().len() implies self@.dom().contains(
            (#[trigger] self.stored()[i]).room_id,
        ) && self@[self.stored()[i].room_id] == self.stored()[i] by {
            assert(self.rows@[i].room_id@ == self.stored()[i].room_id);
            self.lemma_place(i);
        }
        assert forall|k: Seq<char>| self@.dom().contains(k) implies 0 <= self.place(k)
            < self.stored().len() && #[trigger] self@[k] == self.stored()[self.place(k)] by {
            self.lemma_found(k);
        }
        assert forall|i: int, j: int| 0 <= i < j < self.stored().len() implies (
        #[trigger] self.stored()[i]).room_id != (#[trigger] self.stored()[j]).room_id by {
            self.lemma_place(i);
            self.lemma_place(j);
        }
    }

    /// The rooms among the first `n` stored rows that are fully crawled.
    closed spec fn crawled_among(&self, n: int) -> Set<Seq<char>> {
        Set::new(
            |k: Seq<char>|
                exists|j: int|
                    0 <= j < n && (#[trigger] self.stored()[j]).room_id == k
                        && self.stored()[j].fully_crawled,
        )
    }

    /// The number of rooms that have been crawled back to their creation.
    pub fn fully_crawled_room_count(&self) -> (count: usize)
        requires
            self.wf(),
        ensures
            count == self@.dom().filter(|k: Seq<char>| self@[k].fully_crawled).len(),
    {
        proof {
            self.lemma_stored();
            assert(self.crawled_among(0) =~= Set::<Seq<char>>::empty());
        }
        let mut count: usize = 0;
        let mut i: usize = 0;
        while i < self.rows.len()
            invariant
                self.wf(),
                i <= self.rows@.len(),
                self.stored().len() == self.rows@.len(),
                count <= i,
                self.crawled_among(i as int).finite(),
                self.crawled_among(i as int).len() == count,
            decreases self.rows.len() - i,
        {
            let ghost id = self.stored()[i as int].room_id;
            proof {
                self.lemma_stored();
                assert(self.rows@[i as int]@ == self.stored()[i as int]);
            }
            if self.rows[i].fully_crawled {
                proof {
                    if self.crawled_among(i as int).contains(id) {
                        let j = choose|j: int|
                            0 <= j < i && (#[trigger] self.stored()[j]).room_id == id
                                && self.stored()[j].fully_crawled;
                        assert(self.stored()[j].room_id != self.stored()[i as int].room_id);
                    }
                    assert(self.crawled_among(i + 1) =~= self.crawled_among(i as int).insert(id));
                }
                count = count + 1;
            } else {
                proof {
                    assert(self.crawled_among(i + 1) =~= self.crawled_among(i as int));
                }
            }
            i = i + 1;
        }
        proof {
            self.lemma_stored();
            let all = self@.dom().filter(|k: Seq<char>| self@[k].fully_crawled);
            assert forall|k: Seq<char>| all.contains(k) implies self.crawled_among(
                i as int,
            ).contains(k) by {
                let j = self.place(k);
                assert(self.stored()[j] == self@[k]);
                assert(self.stored()[j].room_id == k);
            }
            assert(self.crawled_among(i as int) =~= all);
        }
        count
    }

    /// The time span that the rows cover together: nothing for a store
    /// without rows.
    pub fn get_time_window(&self) -> (window: Option<TimeWindow>)
        requires
            self.wf(),
        ensures
            window is None <==> self@.dom().len() == 0,
            window matches Some(w) ==> is_window_start(self@, w.window_start) && is_window_end(
                self@,
                w.window_end,
            ) && is_account_creation(self@, w.account_creation_ts),
    {
        proof {
            self.lemma_stored();
            self.lemma_count();
        }
        if self.rows.len() == 0 {
            return None;
        }
        let mut start: Option<i64> = None;
        let mut end: Option<i64> = None;
        let mut creation: Option<i64> = None;
        let mut i: usize = 0;
        let ghost rows = self.stored();
        while i < self.rows.len()
            invariant
                self.wf(),
                rows == self.stored(),
                rows.len() == self.rows@.len(),
                i <= rows.len(),
                match start {
                    None => forall|j: int|
                        0 <= j < i ==> (#[trigger] rows[j]).fully_crawled
                            || rows[j].oldest_event_ts is None,
                    Some(m) => {
                        &&& exists|j: int|
                            0 <= j < i && !(#[trigger] rows[j]).fully_crawled
                                && rows[j].oldest_event_ts == Some(m)
                        &&& forall|j: int|
                            0 <= j < i && !(#[trigger] rows[j]).fully_crawled ==> (
                            rows[j].oldest_event_ts matches Some(t) ==> t <= m)
                    },
                },
                match end {
                    None => forall|j: int| 0 <= j < i ==> (#[trigger] rows[j]).newest_event_ts is None,
                    Some(m) => {
                        &&& exists|j: int| 0 <= j < i && (#[trigger] rows[j]).newest_event_ts == Some(m)
                        &&& forall|j: int|
                            0 <= j < i ==> ((#[trigger] rows[j]).newest_event_ts matches Some(t)
                                ==> t <= m)
                    },
                },
                match creation {
                    None => forall|j: int| 0 <= j < i ==> (#[trigger] rows[j]).oldest_event_ts is None,
                    Some(m) => {
                        &&& exists|j: int| 0 <= j < i && (#[trigger] rows[j]).oldest_event_ts == Some(m)
                        &&& forall|j: int|
                            0 <= j < i ==> ((#[trigger] rows[j]).oldest_event_ts matches Some(t)
                                ==> m <= t)
                    },
                },
            decreases self.rows.len() - i,
        {
            let row = &self.rows[i];
            assert(row@ == rows[i as int]);
            match row.oldest_event_ts {
                Some(t) => {
                    if !row.fully_crawled {
                        start = match start {
                            Some(m) if m >= t => Some(m),
                            _ => Some(t),
                        };
                    }
                    creation = match creation {
                        Some(m) if m <= t => Some(m),
                        _ => Some(t),
                    };
                },
                None => {},
            }
            match row.newest_event_ts {
                Some(t) => {
                    end = match end {
                        Some(m) if m >= t => Some(m),
                        _ => Some(t),
                    };
                },
                None => {},
            }
            i = i + 1;
        }
        proof {
            self.lemma_stored();
            if start is Some {
                let j = choose|j: int|
                    0 <= j < i && !(#[trigger] rows[j]).fully_crawled && rows[j].oldest_event_ts
                        == start;
                assert(self@.dom().contains(rows[j].room_id) && self@[rows[j].room_id] == rows[j]);
            }
            if end is Some {
                let j = choose|j: int| 0 <= j < i && (#[trigger] rows[j]).newest_event_ts == end;
                assert(self@.dom().contains(rows[j].room_id) && self@[rows[j].room_id] == rows[j]);
            }
            if creation is Some {
                let j = choose|j: int| 0 <= j < i && (#[trigger] rows[j]).oldest_event_ts == creation;
                assert(self@.dom().contains(rows[j].room_id) && self@[rows[j].room_id] == rows[j]);
            }
            assert forall|k: Seq<char>| self@.dom().contains(k) implies exists|j: int|
                0 <= j < i && #[trigger] rows[j] == self@[k] by {
                assert(rows[self.place(k)] == self@[k]);
            }
            assert(is_window_start(self@, start));
            assert(is_window_end(self@, end));
            assert(is_account_creation(self@, creation));
        }
        Some(TimeWindow { window_start: start, window_end: end, account_creation_ts: creation })
    }
}

/// A store whose rows reach from `oldest` to `newest`, and in which every
/// room that is not fully crawled knows its oldest event, has the window
/// (none, `newest`, `oldest`) if and only if every room is fully crawled.
pub proof fn lemma_window_of_crawled_store(
    rows: Map<Seq<char>, RowView>,
    window: TimeWindow,
    oldest: i64,
    newest: i64,
)
    requires
        is_window_start(rows, window.window_start),
        is_window_end(rows, window.window_end),
        is_account_creation(rows, window.account_creation_ts),
        is_account_creation(rows, Some(oldest)),
        is_window_end(rows, Some(newest)),
        forall|k: Seq<char>|
            rows.dom().contains(k) && !(#[trigger] rows[k]).fully_crawled
                ==> rows[k].oldest_event_ts is Some,
    ensures
        window.window_end == Some(newest),
        window.account_creation_ts == Some(oldest),
        window.window_start is None <==> (forall|k: Seq<char>|
            rows.dom().contains(k) ==> (#[trigger] rows[k]).fully_crawled),
{
    let a = choose|k: Seq<char>|
        rows.dom().contains(k) && (#[trigger] rows[k]).oldest_event_ts == Some(oldest);
    let b = choose|k: Seq<char>|
        rows.dom().contains(k) && (#[trigger] rows[k]).newest_event_ts == Some(newest);
    assert(rows[a].oldest_event_ts is Some);
    assert(rows[b].newest_event_ts is Some);
    if window.window_end is Some {
        let m = window.window_end->0;
        let c = choose|k: Seq<char>|
            rows.dom().contains(k) && (#[trigger] rows[k]).newest_event_ts == Some(m);
        assert(rows[c].newest_event_ts == Some(m));
    }
    if window.account_creation_ts is Some {
        let m = window.account_creation_ts->0;
        let c = choose|k: Seq<char>|
            rows.dom().contains(k) && (#[trigger] rows[k]).oldest_event_ts == Some(m);
        assert(rows[c].oldest_event_ts == Some(m));
    }
    if window.window_start is Some {
        let m = window.window_start->0;
        let c = choose|k: Seq<char>|
            rows.dom().contains(k) && !(#[trigger] rows[k]).fully_crawled
                && rows[k].oldest_event_ts == Some(m);
        assert(!rows[c].fully_crawled);
    }
}

impl CrawlDb {
    /// All rows, listed by rank and, within one rank, by room id.
    pub fn get_all_rooms_sorted(&self) -> (rooms: Vec<RoomCrawlMetadata>)
        requires
            self.wf(),
        ensures
            rooms@.len() == self@.dom().len(),
            forall|i: int|
                0 <= i < rooms@.len() ==> self@.dom().contains((#[trigger] rooms@[i]).room_id@)
                    && self@[rooms@[i].room_id@] == rooms@[i]@,
            forall|k: Seq<char>|
                self@.dom().contains(k) ==> exists|i: int|
                    0 <= i < rooms@.len() && (#[trigger] rooms@[i]).room_id@ == k,
            forall|i: int, j: int|
                0 <= i < j < rooms@.len() ==> listed_before(
                    (#[trigger] rooms@[i])@,
                    (#[trigger] rooms@[j])@,
                ),
    {
        let mut rooms: Vec<RoomCrawlMetadata> = Vec::new();
        let n = self.rows.len();
        let ghost entries = self.ids();
        proof {
            self.lemma_stored();
            self.lemma_rows();
        }
        let mut rank: u8 = 1;
        while rank <= 6
            invariant
                self.wf(),
                1 <= rank <= 7,
                n == entries.len(),
                entries == self.ids(),
                forall|i: int|
                    0 <= i < rooms@.len() ==> self@.dom().contains(
                        (#[trigger] rooms@[i]).room_id@,
                    ) && self@[rooms@[i].room_id@] == rooms@[i]@ && rooms@[i]@.priority() < rank,
                forall|p: int|
                    0 <= p < n && self@[(#[trigger] entries[p])].priority() < rank ==> exists|
                        i: int,
                    |
                        0 <= i < rooms@.len() && (#[trigger] rooms@[i]).room_id@ == entries[p],
                forall|i: int, j: int|
                    0 <= i < j < rooms@.len() ==> listed_before(
                        (#[trigger] rooms@[i])@,
                        (#[trigger] rooms@[j])@,
                    ),
            decreases 7 - rank,
        {
            let mut p: usize = 0;
            while p < n
                invariant
                    self.wf(),
                    1 <= rank <= 6,
                    p <= n,
                    n == entries.len(),
                    entries == self.ids(),
                    forall|i: int|
                        0 <= i < rooms@.len() ==> self@.dom().contains(
                            (#[trigger] rooms@[i]).room_id@,
                        ) && self@[rooms@[i].room_id@] == rooms@[i]@ && (rooms@[i]@.priority()
                            < rank || (rooms@[i]@.priority() == rank && exists|q: int|
                            0 <= q < p && (#[trigger] entries[q]) == rooms@[i].room_id@)),
                    forall|q: int|
                        0 <= q < n && (self@[(#[trigger] entries[q])].priority() < rank || (q < p
                            && self@[entries[q]].priority() == rank)) ==> exists|i: int|
                            0 <= i < rooms@.len() && (#[trigger] rooms@[i]).room_id@
                                == entries[q],
                    forall|i: int, j: int|
                        0 <= i < j < rooms@.len() ==> listed_before(
                            (#[trigger] rooms@[i])@,
                            (#[trigger] rooms@[j])@,
                        ),
                decreases n - p,
            {
                proof {
                    self.lemma_place(p as int);
                }
                let row = &self.rows[p];
                assert(row@ == self@[entries[p as int]]);
                if row.priority() == rank {
                    let ghost before = rooms@;
                    rooms.push(row.copy());
                    proof {
                        let last = before.len() as int;
                        assert forall|i: int, j: int| 0 <= i < j < rooms@.len() implies listed_before(
                            (#[trigger] rooms@[i])@,
                            (#[trigger] rooms@[j])@,
                        ) by {
                            if j == last {
                                assert(rooms@[i] == before[i]);
                                if before[i]@.priority() == rank {
                                    let q = choose|q: int|
                                        0 <= q < p && (#[trigger] entries[q])
                                            == before[i].room_id@;
                                    assert(lex_less(entries[q], entries[p as int]));
                                }
                            } else {
                                assert(rooms@[i] == before[i] && rooms@[j] == before[j]);
                            }
                        }
                        assert forall|i: int| 0 <= i < rooms@.len() implies self@.dom().contains(
                            (#[trigger] rooms@[i]).room_id@,
                        ) && self@[rooms@[i].room_id@] == rooms@[i]@ && (rooms@[i]@.priority()
                            < rank || (rooms@[i]@.priority() == rank && exists|q: int|
                            0 <= q < p + 1 && (#[trigger] entries[q]) == rooms@[i].room_id@)) by {
                            if i < last {
                                assert(rooms@[i] == before[i]);
                                if before[i]@.priority() == rank {
                                    let q = choose|q: int|
                                        0 <= q < p && (#[trigger] entries[q])
                                            == before[i].room_id@;
                                    assert(0 <= q < p + 1 && entries[q] == rooms@[i].room_id@);
                                }
                            } else {
                                assert(entries[p as int] == rooms@[i].room_id@);
                            }
                        }
                        assert forall|q: int|
                            0 <= q < n && (self@[(#[trigger] entries[q])].priority() < rank || (q
                                < p + 1 && self@[entries[q]].priority() == rank)) implies exists|
                            i: int,
                        |
                            0 <= i < rooms@.len() && (#[trigger] rooms@[i]).room_id@
                                == entries[q] by {
                            if q == p {
                                assert(rooms@[last].room_id@ == entries[q]);
                            } else {
                                let i = choose|i: int|
                                    0 <= i < before.len() && (#[trigger] before[i]).room_id@
                                        == entries[q];
                                assert(rooms@[i] == before[i]);
                            }
                        }
                    }
                } else {
                    proof {
                        assert forall|i: int| 0 <= i < rooms@.len() implies (rooms@[i]@.priority()
                            < rank || (rooms@[i]@.priority() == rank && exists|q: int|
                            0 <= q < p + 1 && (#[trigger] entries[q]) == (
                            #[trigger] rooms@[i]).room_id@)) by {
                            if rooms@[i]@.priority() == rank {
                                let q = choose|q: int|
                                    0 <= q < p && (#[trigger] entries[q]) == rooms@[i].room_id@;
                                assert(0 <= q < p + 1 && entries[q] == rooms@[i].room_id@);
                            }
                        }
                    }
                }
                p = p + 1;
            }
            rank = rank + 1;
        }
        proof {
            assert forall|k: Seq<char>| self@.dom().contains(k) implies exists|i: int|
                0 <= i < rooms@.len() && (#[trigger] rooms@[i]).room_id@ == k by {
                self.lemma_found(k);
                let q = self.place(k);
                assert(entries[q] == k);
                assert(self@[entries[q]].priority() < 7);
            }
            self.lemma_listing_complete(rooms@);
        }
        rooms
    }

    /// A listing without repetition that names every room has as many rows
    /// as the store has rooms.
    proof fn lemma_listing_complete(&self, rooms: Seq<RoomCrawlMetadata>)
        requires
            self.wf(),
            forall|i: int|
                0 <= i < rooms.len() ==> self@.dom().contains((#[trigger] rooms[i]).room_id@)
                    && self@[rooms[i].room_id@] == rooms[i]@,
            forall|k: Seq<char>|
                self@.dom().contains(k) ==> exists|i: int|
                    0 <= i < rooms.len() && (#[trigger] rooms[i]).room_id@ == k,
            forall|i: int, j: int|
                0 <= i < j < rooms.len() ==> listed_before(
                    (#[trigger] rooms[i])@,
                    (#[trigger] rooms[j])@,
                ),
        ensures
            rooms.len() == self@.dom().len(),
    {
        let ids = Seq::new(rooms.len(), |i: int| rooms[i].room_id@);
        assert forall|i: int, j: int| 0 <= i < ids.len() && 0 <= j < ids.len() && i != j implies ids[i]
            != ids[j] by {
            lemma_lex_irreflexive(ids[i]);
            assert(self@[rooms[i].room_id@] == rooms[i]@);
            assert(self@[rooms[j].room_id@] == rooms[j]@);
            if i < j {
                assert(listed_before(rooms[i]@, rooms[j]@));
            } else {
                assert(listed_before(rooms[j]@, rooms[i]@));
            }
        }
        assert(ids.no_duplicates());
        ids.unique_seq_to_set();
        assert(ids.to_set() =~= self@.dom()) by {
            assert forall|k: Seq<char>| ids.to_set().contains(k) <==> self@.dom().contains(k) by {
                if ids.to_set().contains(k) {
                    let i = choose|i: int| 0 <= i < ids.len() && ids[i] == k;
                    assert(self@.dom().contains(rooms[i].room_id@));
                }
                if self@.dom().contains(k) {
                    let i = choose|i: int| 0 <= i < rooms.len() && (#[trigger] rooms[i]).room_id@ == k;
                    assert(ids[i] == k);
                }
            }
        }
    }
}

} // verus!
