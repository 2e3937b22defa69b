//! The crawl decision: which rooms need pagination for a window, given what
//! the store knows of them and what discovery has just seen.

use crate::crawl::counts::TextSet;
use crate::crawl::types::{rooms_view, RoomInfo, RoomInfoView, RoomJoinState};
use crate::crawl_db::{
    merged_coverage, with_status, Coverage, CrawlDb, CrawlStatus, RoomCrawlMetadata, RowView,
    StatusView,
};
use crate::text::str_eq;
use vstd::prelude::*;

verus! {

/// The latest event that discovery has seen in each room: its id and its
/// timestamp. A later entry for a room replaces an earlier one.
#[derive(Debug)]
pub struct LatestEvents {
    entries: Vec<(String, (String, i64))>,
}

/// The hints of a sequence of entries, a later entry replacing an earlier.
pub open spec fn hints_of(entries: Seq<(Seq<char>, (Seq<char>, i64))>) -> Map<
    Seq<char>,
    (Seq<char>, i64),
>
    decreases entries.len(),
{
    if entries.len() == 0 {
        Map::empty()
    } else {
        hints_of(entries.drop_last()).insert(entries.last().0, entries.last().1)
    }
}

impl View for LatestEvents {
    type V = Map<Seq<char>, (Seq<char>, i64)>;

    closed spec fn view(&self) -> Map<Seq<char>, (Seq<char>, i64)> {
        hints_of(self.model())
    }
}

impl LatestEvents {
    /// The entries as values of specifications.
    closed spec fn model(&self) -> Seq<(Seq<char>, (Seq<char>, i64))> {
        Seq::new(
            self.entries@.len(),
            |i: int| (self.entries@[i].0@, (self.entries@[i].1.0@, self.entries@[i].1.1)),
        )
    }

    /// No hints.
    pub fn new() -> (hints: LatestEvents)
        ensures
            hints@ == Map::<Seq<char>, (Seq<char>, i64)>::empty(),
    {
        let hints = LatestEvents { entries: Vec::new() };
        assert(hints.model() =~= Seq::empty());
        hints
    }

    /// Makes the event `event_id` at `event_ts` the latest of `room_id`.
    pub fn insert(&mut self, room_id: &str, event_id: &str, event_ts: i64)
        ensures
            final(self)@ == old(self)@.insert(room_id@, (event_id@, event_ts)),
    {
        self.entries.push((room_id.to_owned(), (event_id.to_owned(), event_ts)));
        assert(self.model().drop_last() =~= old(self).model());
        assert(self.model().last() == (room_id@, (event_id@, event_ts)));
    }

    /// The latest event of a room, if discovery has seen one.
    pub fn get(&self, room_id: &str) -> (hint: Option<&(String, i64)>)
        ensures
            hint is Some <==> self@.dom().contains(room_id@),
            hint matches Some(h) ==> (h.0@, h.1) == self@[room_id@],
    {
        let mut i: usize = self.entries.len();
        let ghost all = self.model();
        assert(all.subrange(0, i as int) =~= all);
        while i > 0
            invariant
                i <= self.entries@.len(),
                all == self.model(),
                self@.dom().contains(room_id@) == hints_of(all.subrange(0, i as int)).dom().contains(
                    room_id@,
                ),
                self@.dom().contains(room_id@) ==> self@[room_id@] == hints_of(
                    all.subrange(0, i as int),
                )[room_id@],
            decreases i,
        {
            i = i - 1;
            proof {
                let prefix = all.subrange(0, i + 1);
                assert(prefix.drop_last() =~= all.subrange(0, i as int));
                assert(prefix.last() == all[i as int]);
            }
            if str_eq(self.entries[i].0.as_str(), room_id) {
                return Some(&self.entries[i].1);
            }
        }
        None
    }
}

/// The hint as a value of specifications.
pub open spec fn hint_of(latest_event: Option<&(String, i64)>) -> Option<(Seq<char>, i64)> {
    match latest_event {
        Some(h) => Some((h.0@, h.1)),
        None => None,
    }
}

/// The hint of a room in a map of hints.
pub open spec fn hint_in(hints: Map<Seq<char>, (Seq<char>, i64)>, room_id: Seq<char>) -> Option<
    (Seq<char>, i64),
> {
    if hints.dom().contains(room_id) {
        Some(hints[room_id])
    } else {
        None
    }
}

/// Whether the walk must still go further back in a known room: not when
/// it has reached the room's creation, nor when it has reached the start of
/// the window.
pub open spec fn old_end_needs_crawl(row: RowView, window_start: Option<i64>) -> bool {
    !row.fully_crawled && match window_start {
        None => true,
        Some(start) => match row.oldest_event_ts {
            None => true,
            Some(oldest) => oldest > start,
        },
    }
}

/// Whether a known room may hold events newer than the store knows: not
/// when the newest event stored is, by id and timestamp, the latest that
/// discovery has seen, nor when it is as new as the end of the window.
pub open spec fn new_end_needs_crawl(
    row: RowView,
    window_end: i64,
    hint: Option<(Seq<char>, i64)>,
) -> bool {
    let stale = match row.newest_event_ts {
        None => true,
        Some(newest) => newest < window_end,
    };
    let same = match hint {
        None => false,
        Some(h) => row.newest_event_id == Some(h.0) && row.newest_event_ts == Some(h.1),
    };
    stale && !same
}

/// Whether a room is to be crawled for the window. A room without a row is
/// crawled unless discovery has seen its latest event before the start of
/// the window; a room with a row is crawled when either end needs it.
pub open spec fn decides_crawl(
    row: Option<RowView>,
    window_start: Option<i64>,
    window_end: i64,
    hint: Option<(Seq<char>, i64)>,
) -> bool {
    match row {
        None => match hint {
            None => true,
            Some(h) => match window_start {
                None => true,
                Some(start) => h.1 >= start,
            },
        },
        Some(row) => old_end_needs_crawl(row, window_start) || new_end_needs_crawl(
            row,
            window_end,
            hint,
        ),
    }
}

/// Whether a room with the row `row`, or none, is to be crawled.
pub fn evaluate(
    row: Option<&RoomCrawlMetadata>,
    window_start_ts: Option<i64>,
    window_end_ts: i64,
    latest_event: Option<&(String, i64)>,
) -> (crawl: bool)
    ensures
        crawl == decides_crawl(
            match row {
                Some(r) => Some(r@),
                None => None,
            },
            window_start_ts,
            window_end_ts,
            hint_of(latest_event),
        ),
{
    let meta = match row {
        Some(meta) => meta,
        None => {
            return match latest_event {
                None => true,
                Some(latest) => match window_start_ts {
                    None => true,
                    Some(start) => latest.1 >= start,
                },
            };
        },
    };
    let old_end = !meta.fully_crawled && match window_start_ts {
        None => true,
        Some(start) => match meta.oldest_event_ts {
            None => true,
            Some(oldest) => oldest > start,
        },
    };
    let stale = match meta.newest_event_ts {
        None => true,
        Some(newest) => newest < window_end_ts,
    };
    let same = match latest_event {
        None => false,
        Some(latest) => {
            let same_id = match &meta.newest_event_id {
                Some(id) => str_eq(id.as_str(), latest.0.as_str()),
                None => false,
            };
            let same_ts = match meta.newest_event_ts {
                Some(ts) => ts == latest.1,
                None => false,
            };
            same_id && same_ts
        },
    };
    old_end || (stale && !same)
}

/// Whether the room `room_id` is to be crawled for the window, given what
/// the store holds of it and the latest event that discovery has seen.
pub fn should_crawl_room(
    db: &CrawlDb,
    room_id: &str,
    window_start_ts: Option<i64>,
    window_end_ts: i64,
    latest_event: Option<&(String, i64)>,
) -> (crawl: bool)
    requires
        db.wf(),
    ensures
        crawl == decides_crawl(
            db.row(room_id@),
            window_start_ts,
            window_end_ts,
            hint_of(latest_event),
        ),
{
    let metadata = db.get_room_metadata(room_id);
    evaluate(metadata.as_ref(), window_start_ts, window_end_ts, latest_event)
}

/// The row of a room in a store given as a map.
pub open spec fn row_in(rows: Map<Seq<char>, RowView>, room_id: Seq<char>) -> Option<RowView> {
    if rows.dom().contains(room_id) {
        Some(rows[room_id])
    } else {
        None
    }
}

/// The rooms of `room_ids` that are to be crawled, in their order.
pub open spec fn selected_ids(
    room_ids: Seq<Seq<char>>,
    rows: Map<Seq<char>, RowView>,
    window_start: Option<i64>,
    window_end: i64,
    hints: Map<Seq<char>, (Seq<char>, i64)>,
) -> Seq<Seq<char>>
    decreases room_ids.len(),
{
    if room_ids.len() == 0 {
        Seq::empty()
    } else {
        let before = selected_ids(room_ids.drop_last(), rows, window_start, window_end, hints);
        let id = room_ids.last();
        if decides_crawl(row_in(rows, id), window_start, window_end, hint_in(hints, id)) {
            before.push(id)
        } else {
            before
        }
    }
}

/// The texts of a vector of strings.
pub open spec fn texts_of(strings: Seq<String>) -> Seq<Seq<char>> {
    Seq::new(strings.len(), |i: int| strings[i]@)
}

/// The joined rooms that need pagination for the window, in their order.
pub fn select_room_ids_to_crawl(
    joined_room_ids: &Vec<String>,
    db: &CrawlDb,
    window_start_ts: Option<i64>,
    window_end_ts: Option<i64>,
    latest_events: &LatestEvents,
) -> (selected: Vec<String>)
    requires
        db.wf(),
        window_end_ts is Some,
    ensures
        texts_of(selected@) == selected_ids(
            texts_of(joined_room_ids@),
            db@,
            window_start_ts,
            window_end_ts->0,
            latest_events@,
        ),
{
    let window_end = window_end_ts.unwrap();
    let mut selected: Vec<String> = Vec::new();
    let mut i: usize = 0;
    let ghost ids = texts_of(joined_room_ids@);
    assert(ids.subrange(0, 0) =~= Seq::<Seq<char>>::empty());
    assert(texts_of(selected@) =~= Seq::<Seq<char>>::empty());
    while i < joined_room_ids.len()
        invariant
            db.wf(),
            i <= joined_room_ids.len(),
            ids == texts_of(joined_room_ids@),
            texts_of(selected@) == selected_ids(
                ids.subrange(0, i as int),
                db@,
                window_start_ts,
                window_end,
                latest_events@,
            ),
        decreases joined_room_ids.len() - i,
    {
        let room_id = &joined_room_ids[i];
        proof {
            let prefix = ids.subrange(0, i + 1);
            assert(prefix.drop_last() =~= ids.subrange(0, i as int));
            assert(prefix.last() == room_id@);
        }
        let ghost before = texts_of(selected@);
        let hint = latest_events.get(room_id.as_str());
        if should_crawl_room(db, room_id.as_str(), window_start_ts, window_end, hint) {
            selected.push(room_id.clone());
            assert(texts_of(selected@) =~= before.push(room_id@));
        }
        i = i + 1;
    }
    assert(ids.subrange(0, i as int) =~= ids);
    selected
}

/// The row that keeps a skipped room from being looked at again: the
/// latest event that discovery saw as both ends of the coverage, nothing
/// crawled, status virgin.
pub open spec fn virgin_row(room_id: Seq<char>, hint: (Seq<char>, i64)) -> RowView {
    with_status(
        Some(
            merged_coverage(
                None,
                room_id,
                Coverage {
                    oldest_event_id: Some(hint.0),
                    oldest_event_ts: Some(hint.1),
                    newest_event_id: Some(hint.0),
                    newest_event_ts: Some(hint.1),
                    fully_crawled: false,
                },
            ),
        ),
        room_id,
        StatusView::Virgin,
    )
}

/// The store after the skipped rooms of `room_ids` have been recorded: each
/// room that has no row, is not to be crawled and has a hint gets its
/// virgin row.
pub open spec fn recorded(
    rows: Map<Seq<char>, RowView>,
    room_ids: Seq<Seq<char>>,
    to_crawl: Set<Seq<char>>,
    hints: Map<Seq<char>, (Seq<char>, i64)>,
) -> Map<Seq<char>, RowView>
    decreases room_ids.len(),
{
    if room_ids.len() == 0 {
        rows
    } else {
        let before = recorded(rows, room_ids.drop_last(), to_crawl, hints);
        let id = room_ids.last();
        if !before.dom().contains(id) && !to_crawl.contains(id) && hints.dom().contains(id) {
            before.insert(id, virgin_row(id, hints[id]))
        } else {
            before
        }
    }
}

/// Recording skipped rooms adds rows and changes none.
pub proof fn lemma_recorded_grows(
    rows: Map<Seq<char>, RowView>,
    room_ids: Seq<Seq<char>>,
    to_crawl: Set<Seq<char>>,
    hints: Map<Seq<char>, (Seq<char>, i64)>,
)
    requires
        rows.dom().finite(),
    ensures
        recorded(rows, room_ids, to_crawl, hints).dom().finite(),
        recorded(rows, room_ids, to_crawl, hints).dom().len() <= rows.dom().len() + room_ids.len(),
        forall|k: Seq<char>|
            #![trigger rows.dom().contains(k)]
            rows.dom().contains(k) ==> recorded(rows, room_ids, to_crawl, hints).dom().contains(k)
                && recorded(rows, room_ids, to_crawl, hints)[k] == rows[k],
    decreases room_ids.len(),
{
    if room_ids.len() > 0 {
        lemma_recorded_grows(rows, room_ids.drop_last(), to_crawl, hints);
        let before = recorded(rows, room_ids.drop_last(), to_crawl, hints);
        let after = recorded(rows, room_ids, to_crawl, hints);
        assert forall|k: Seq<char>|
            #![trigger rows.dom().contains(k)]
            rows.dom().contains(k) implies after.dom().contains(k) && after[k] == rows[k] by {
            assert(before.dom().contains(k) && before[k] == rows[k]);
        }
    }
}

/// Recording leaves every room of `room_ids` that is not to be crawled
/// with the row it had, or, where it had none and has a hint, with its
/// virgin row.
pub proof fn lemma_recorded_rows(
    rows: Map<Seq<char>, RowView>,
    room_ids: Seq<Seq<char>>,
    to_crawl: Set<Seq<char>>,
    hints: Map<Seq<char>, (Seq<char>, i64)>,
    id: Seq<char>,
)
    requires
        !to_crawl.contains(id),
    ensures
        row_in(recorded(rows, room_ids, to_crawl, hints), id) == if rows.dom().contains(id) {
            Some(rows[id])
        } else if room_ids.contains(id) && hints.dom().contains(id) {
            Some(virgin_row(id, hints[id]))
        } else {
            None
        },
    decreases room_ids.len(),
{
    if room_ids.len() > 0 {
        let rest = room_ids.drop_last();
        let last = room_ids.last();
        lemma_recorded_rows(rows, rest, to_crawl, hints, id);
        if rest.contains(id) {
            let j = choose|j: int| 0 <= j < rest.len() && rest[j] == id;
            assert(room_ids[j] == id);
        }
        if room_ids.contains(id) && last != id {
            let j = choose|j: int| 0 <= j < room_ids.len() && room_ids[j] == id;
            assert(rest[j] == id);
        }
        if last == id {
            assert(room_ids[room_ids.len() - 1] == id);
        }
    }
}

/// Where every room of `room_ids` has a row, is to be crawled or has no
/// hint, recording changes nothing: a second recording after a first one,
/// and a recording in a run that finds all its rooms in the store, leave
/// the store as it is.
pub proof fn lemma_recorded_nothing_new(
    rows: Map<Seq<char>, RowView>,
    room_ids: Seq<Seq<char>>,
    to_crawl: Set<Seq<char>>,
    hints: Map<Seq<char>, (Seq<char>, i64)>,
)
    requires
        forall|i: int|
            0 <= i < room_ids.len() ==> rows.dom().contains(#[trigger] room_ids[i])
                || to_crawl.contains(room_ids[i]) || !hints.dom().contains(room_ids[i]),
    ensures
        recorded(rows, room_ids, to_crawl, hints) == rows,
    decreases room_ids.len(),
{
    if room_ids.len() > 0 {
        let rest = room_ids.drop_last();
        assert forall|i: int| 0 <= i < rest.len() implies rows.dom().contains(#[trigger] rest[i])
            || to_crawl.contains(rest[i]) || !hints.dom().contains(rest[i]) by {
            assert(rest[i] == room_ids[i]);
        }
        lemma_recorded_nothing_new(rows, rest, to_crawl, hints);
        assert(room_ids.last() == room_ids[room_ids.len() - 1]);
    }
}

/// Recording twice is recording once.
pub proof fn lemma_recorded_twice(
    rows: Map<Seq<char>, RowView>,
    room_ids: Seq<Seq<char>>,
    to_crawl: Set<Seq<char>>,
    hints: Map<Seq<char>, (Seq<char>, i64)>,
)
    ensures
        recorded(recorded(rows, room_ids, to_crawl, hints), room_ids, to_crawl, hints) == recorded(
            rows,
            room_ids,
            to_crawl,
            hints,
        ),
{
    let once = recorded(rows, room_ids, to_crawl, hints);
    assert forall|i: int| 0 <= i < room_ids.len() implies once.dom().contains(
        #[trigger] room_ids[i],
    ) || to_crawl.contains(room_ids[i]) || !hints.dom().contains(room_ids[i]) by {
        let id = room_ids[i];
        if !to_crawl.contains(id) {
            lemma_recorded_rows(rows, room_ids, to_crawl, hints, id);
        }
    }
    lemma_recorded_nothing_new(once, room_ids, to_crawl, hints);
}

/// Gives every joined room that was skipped without ever having been
/// crawled its virgin row, so that the next run finds it in the store.
pub fn record_skipped_virgin_rooms_ids(
    db: &mut CrawlDb,
    joined_room_ids: &Vec<String>,
    rooms_to_crawl_ids: &TextSet,
    latest_events: &LatestEvents,
)
    requires
        old(db).wf(),
        rooms_to_crawl_ids.wf(),
    ensures
        final(db).wf(),
        final(db)@ == recorded(
            old(db)@,
            texts_of(joined_room_ids@),
            rooms_to_crawl_ids@,
            latest_events@,
        ),
{
    let mut i: usize = 0;
    let ghost ids = texts_of(joined_room_ids@);
    assert(ids.subrange(0, 0) =~= Seq::<Seq<char>>::empty());
    while i < joined_room_ids.len()
        invariant
            db.wf(),
            rooms_to_crawl_ids.wf(),
            i <= joined_room_ids.len(),
            ids == texts_of(joined_room_ids@),
                db@ == recorded(
                old(db)@,
                ids.subrange(0, i as int),
                rooms_to_crawl_ids@,
                latest_events@,
            ),
        decreases joined_room_ids.len() - i,
    {
        let room_id = joined_room_ids[i].as_str();
        proof {
            let prefix = ids.subrange(0, i + 1);
            assert(prefix.drop_last() =~= ids.subrange(0, i as int));
            assert(prefix.last() == room_id@);
        }
        let known = db.get_room_metadata(room_id).is_some();
        if !known && !rooms_to_crawl_ids.contains(room_id) {
            match latest_events.get(room_id) {
                Some(latest) => {
                    let ghost before = db@;
                    db.update_room_metadata(
                        room_id,
                        Some(latest.0.clone()),
                        Some(latest.1),
                        Some(latest.0.clone()),
                        Some(latest.1),
                        false,
                    );
                    db.set_crawl_status(room_id, CrawlStatus::Virgin);
                    assert(db@ =~= before.insert(
                        room_id@,
                        virgin_row(room_id@, latest_events@[room_id@]),
                    ));
                },
                None => {},
            }
        }
        i = i + 1;
    }
    assert(ids.subrange(0, i as int) =~= ids);
}

/// The ids of the joined rooms among `rooms`, in their order.
pub open spec fn joined_ids(rooms: Seq<RoomInfoView>) -> Seq<Seq<char>>
    decreases rooms.len(),
{
    if rooms.len() == 0 {
        Seq::empty()
    } else if rooms.last().join_state == RoomJoinState::Joined {
        joined_ids(rooms.drop_last()).push(rooms.last().room_id)
    } else {
        joined_ids(rooms.drop_last())
    }
}

/// The hints that discovery gives: for each room with a latest event, its
/// id and timestamp.
pub open spec fn hints_from(rooms: Seq<RoomInfoView>) -> Map<Seq<char>, (Seq<char>, i64)>
    decreases rooms.len(),
{
    if rooms.len() == 0 {
        Map::empty()
    } else {
        let before = hints_from(rooms.drop_last());
        let room = rooms.last();
        if room.last_event_id is Some && room.last_event_ts is Some {
            before.insert(room.room_id, (room.last_event_id->0, room.last_event_ts->0))
        } else {
            before
        }
    }
}

/// The ids of all rooms, in their order.
pub open spec fn ids_of(rooms: Seq<RoomInfoView>) -> Seq<Seq<char>> {
    Seq::new(rooms.len(), |i: int| rooms[i].room_id)
}

/// The ids of the joined rooms among `rooms`, in their order.
pub fn joined_room_ids(rooms: &Vec<RoomInfo>) -> (ids: Vec<String>)
    ensures
        texts_of(ids@) == joined_ids(rooms_view(rooms@)),
{
    let mut ids: Vec<String> = Vec::new();
    let mut i: usize = 0;
    let ghost all = rooms_view(rooms@);
    assert(all.take(0) =~= Seq::<RoomInfoView>::empty());
    assert(texts_of(ids@) =~= Seq::<Seq<char>>::empty());
    while i < rooms.len()
        invariant
            i <= rooms@.len(),
            all == rooms_view(rooms@),
            texts_of(ids@) == joined_ids(all.take(i as int)),
        decreases rooms@.len() - i,
    {
        proof {
            assert(all.take(i + 1).drop_last() =~= all.take(i as int));
            assert(all.take(i + 1).last() == rooms@[i as int]@);
        }
        let ghost before = texts_of(ids@);
        match rooms[i].join_state {
            RoomJoinState::Joined => {
                ids.push(rooms[i].room_id.clone());
                assert(texts_of(ids@) =~= before.push(rooms@[i as int].room_id@));
            },
            _ => {},
        }
        i = i + 1;
    }
    assert(all.take(i as int) =~= all);
    ids
}

/// The hints that discovery gives.
pub fn latest_events_of(rooms: &Vec<RoomInfo>) -> (hints: LatestEvents)
    ensures
        hints@ == hints_from(rooms_view(rooms@)),
{
    let mut hints = LatestEvents::new();
    let mut i: usize = 0;
    let ghost all = rooms_view(rooms@);
    assert(all.take(0) =~= Seq::<RoomInfoView>::empty());
    while i < rooms.len()
        invariant
            i <= rooms@.len(),
            all == rooms_view(rooms@),
            hints@ == hints_from(all.take(i as int)),
        decreases rooms@.len() - i,
    {
        proof {
            assert(all.take(i + 1).drop_last() =~= all.take(i as int));
            assert(all.take(i + 1).last() == rooms@[i as int]@);
        }
        match (&rooms[i].last_event_id, rooms[i].last_event_ts) {
            (Some(id), Some(ts)) => {
                hints.insert(rooms[i].room_id.as_str(), id.as_str(), ts);
            },
            _ => {},
        }
        i = i + 1;
    }
    assert(all.take(i as int) =~= all);
    hints
}

/// The rooms of `rooms` that are to be crawled, in their order.
pub open spec fn selected_rooms(
    rooms: Seq<RoomInfoView>,
    rows: Map<Seq<char>, RowView>,
    window_start: Option<i64>,
    window_end: i64,
    hints: Map<Seq<char>, (Seq<char>, i64)>,
) -> Seq<RoomInfoView>
    decreases rooms.len(),
{
    if rooms.len() == 0 {
        Seq::empty()
    } else {
        let before = selected_rooms(rooms.drop_last(), rows, window_start, window_end, hints);
        let room = rooms.last();
        if decides_crawl(
            row_in(rows, room.room_id),
            window_start,
            window_end,
            hint_in(hints, room.room_id),
        ) {
            before.push(room)
        } else {
            before
        }
    }
}

/// The joined rooms that need pagination for the window, in their order.
pub fn select_rooms_to_crawl(
    joined_rooms: &Vec<RoomInfo>,
    db: &CrawlDb,
    window_start_ts: Option<i64>,
    window_end_ts: Option<i64>,
    latest_events: &LatestEvents,
) -> (selected: Vec<RoomInfo>)
    requires
        db.wf(),
        window_end_ts is Some,
    ensures
        rooms_view(selected@) == selected_rooms(
            rooms_view(joined_rooms@),
            db@,
            window_start_ts,
            window_end_ts->0,
            latest_events@,
        ),
{
    let window_end = window_end_ts.unwrap();
    let mut selected: Vec<RoomInfo> = Vec::new();
    let mut i: usize = 0;
    let ghost all = rooms_view(joined_rooms@);
    assert(all.take(0) =~= Seq::<RoomInfoView>::empty());
    assert(rooms_view(selected@) =~= Seq::<RoomInfoView>::empty());
    while i < joined_rooms.len()
        invariant
            db.wf(),
            i <= joined_rooms@.len(),
            all == rooms_view(joined_rooms@),
            rooms_view(selected@) == selected_rooms(
                all.take(i as int),
                db@,
                window_start_ts,
                window_end,
                latest_events@,
            ),
        decreases joined_rooms@.len() - i,
    {
        let room = &joined_rooms[i];
        proof {
            assert(all.take(i + 1).drop_last() =~= all.take(i as int));
            assert(all.take(i + 1).last() == room@);
        }
        let ghost before = rooms_view(selected@);
        let hint = latest_events.get(room.room_id.as_str());
        if should_crawl_room(db, room.room_id.as_str(), window_start_ts, window_end, hint) {
            selected.push(room.copy());
            assert(rooms_view(selected@) =~= before.push(room@));
        }
        i = i + 1;
    }
    assert(all.take(i as int) =~= all);
    selected
}

/// The ids of `rooms`, as a vector and as a set.
fn room_ids(rooms: &Vec<RoomInfo>) -> (out: (Vec<String>, TextSet))
    ensures
        texts_of(out.0@) == ids_of(rooms_view(rooms@)),
        out.1.wf(),
        out.1@ == ids_of(rooms_view(rooms@)).to_set(),
{
    let mut ids: Vec<String> = Vec::new();
    let mut set = TextSet::new();
    let mut i: usize = 0;
    let ghost all = ids_of(rooms_view(rooms@));
    while i < rooms.len()
        invariant
            i <= rooms@.len(),
            all == ids_of(rooms_view(rooms@)),
            texts_of(ids@) == all.take(i as int),
            set.wf(),
            set@ == all.take(i as int).to_set(),
        decreases rooms@.len() - i,
    {
        let ghost before = texts_of(ids@);
        ids.push(rooms[i].room_id.clone());
        set.insert(rooms[i].room_id.as_str());
        proof {
            assert(all[i as int] == rooms@[i as int].room_id@);
            assert(texts_of(ids@) =~= before.push(rooms@[i as int].room_id@));
            assert(all.take(i + 1) =~= all.take(i as int).push(all[i as int]));
            let less = all.take(i as int);
            let more = all.take(i + 1);
            assert forall|k: Seq<char>| more.to_set().contains(k) <==> less.to_set().insert(
                all[i as int],
            ).contains(k) by {
                if more.contains(k) {
                    let j = choose|j: int| 0 <= j < more.len() && #[trigger] more[j] == k;
                    if j < i {
                        assert(less[j] == k);
                    }
                }
                if less.contains(k) {
                    let j = choose|j: int| 0 <= j < less.len() && #[trigger] less[j] == k;
                    assert(more[j] == k);
                }
                if k == all[i as int] {
                    assert(more[i as int] == k);
                }
            }
            assert(more.to_set() =~= less.to_set().insert(all[i as int]));
        }
        i = i + 1;
    }
    assert(all.take(i as int) =~= all);
    (ids, set)
}

/// Gives every joined room that is not to be crawled, has no row and has a
/// hint its virgin row.
pub fn record_skipped_virgin_rooms(
    db: &mut CrawlDb,
    joined_rooms: &Vec<RoomInfo>,
    rooms_to_crawl: &Vec<RoomInfo>,
    latest_events: &LatestEvents,
)
    requires
        old(db).wf(),
    ensures
        final(db).wf(),
        final(db)@ == recorded(
            old(db)@,
            ids_of(rooms_view(joined_rooms@)),
            ids_of(rooms_view(rooms_to_crawl@)).to_set(),
            latest_events@,
        ),
{
    let (joined_ids, _) = room_ids(joined_rooms);
    let (_, crawl_ids) = room_ids(rooms_to_crawl);
    record_skipped_virgin_rooms_ids(db, &joined_ids, &crawl_ids, latest_events);
}

} // verus!
