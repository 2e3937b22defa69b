//! Collapses what the walks collected, room by room, into the statistics
//! document of the account.

use crate::calendar::{
    date_text, has_local, local_stamp, push_date, today_local, CivilDate, LocalStamp,
};
use crate::crawl::counts::{counts_fit, lemma_count_at, merged, read_count, CountMap, TextSet};
use crate::crawl::types::{copy_text, text_of, DetailedPaginationStats, StatsView};
use crate::crawl::RoomType;
use crate::stats::{
    if_positive, positive, Account, Activity, Coverage, CreatedRooms, EmojiEntry,
    MessageReactionEntry, MessagesByRoomType, PeakDay, PeakHour, PeakMonth, PeakWeek, PeakYear,
    Peaks, Reactions, RoomEntry, Rooms, Scope, Stats, StatsError, Summary,
};
use crate::text::{lemma_lex_irreflexive, lemma_lex_total, lex_less, push_str, string_of};
use crate::window::{ScopeView, WindowScope};
use vstd::prelude::*;

verus! {

/// What one crawled room contributes to the statistics.
#[derive(Debug)]
pub struct RoomStatsInput {
    pub room_id: String,
    pub room_name: Option<String>,
    pub room_type: RoomType,
    pub stats: DetailedPaginationStats,
}

/// Whether the count at `i` ranks before the count at `j`: the larger count
/// first, and of two equal counts the one that stands first.
pub open spec fn outranks(counts: Seq<i32>, i: int, j: int) -> bool {
    counts[i] > counts[j] || (counts[i] == counts[j] && i < j)
}

/// Whether `picks` are the places of the `cap` counts that rank first, in
/// the order of their rank; all places where there are no more than `cap`.
pub open spec fn is_ranking(counts: Seq<i32>, cap: int, picks: Seq<usize>) -> bool {
    &&& picks.len() == if counts.len() < cap {
        counts.len() as int
    } else {
        cap
    }
    &&& forall|k: int| 0 <= k < picks.len() ==> 0 <= #[trigger] picks[k] < counts.len()
    &&& forall|a: int, b: int|
        0 <= a < b < picks.len() ==> outranks(counts, #[trigger] picks[a] as int, #[trigger] picks[b] as int)
    &&& forall|i: int, k: int|
        #![trigger outranks(counts, picks[k] as int, i)]
        0 <= i < counts.len() && 0 <= k < picks.len() ==> picked(picks, i) || outranks(
            counts,
            picks[k] as int,
            i,
        )
}

/// Whether the place `i` is one of `picks`.
pub open spec fn picked(picks: Seq<usize>, i: int) -> bool {
    exists|k: int| 0 <= k < picks.len() && #[trigger] picks[k] == i
}

/// The number of places marked in `taken`.
pub open spec fn marked(taken: Seq<bool>) -> int
    decreases taken.len(),
{
    if taken.len() == 0 {
        0
    } else {
        marked(taken.drop_last()) + if taken.last() {
            1int
        } else {
            0int
        }
    }
}

/// Where fewer places are marked than there are places, one is not marked.
proof fn lemma_marked_bounds(taken: Seq<bool>)
    ensures
        0 <= marked(taken) <= taken.len(),
        marked(taken) < taken.len() ==> exists|i: int| 0 <= i < taken.len() && !#[trigger] taken[i],
    decreases taken.len(),
{
    if taken.len() > 0 {
        lemma_marked_bounds(taken.drop_last());
        if marked(taken) < taken.len() {
            if !taken.last() {
                assert(!taken[taken.len() - 1]);
            } else {
                let i = choose|i: int| 0 <= i < taken.len() - 1 && !#[trigger] taken.drop_last()[i];
                assert(!taken[i]);
            }
        }
    }
}

/// Marking one more place raises the number of marked places by one.
proof fn lemma_marked_update(taken: Seq<bool>, at: int)
    requires
        0 <= at < taken.len(),
        !taken[at],
    ensures
        marked(taken.update(at, true)) == marked(taken) + 1,
    decreases taken.len(),
{
    let after = taken.update(at, true);
    if at == taken.len() - 1 {
        assert(after.drop_last() =~= taken.drop_last());
    } else {
        assert(after.drop_last() =~= taken.drop_last().update(at, true));
        lemma_marked_update(taken.drop_last(), at);
    }
}

/// The places of the `cap` counts that rank first, in the order of their
/// rank.
pub fn top_indices(counts: &Vec<i32>, cap: usize) -> (picks: Vec<usize>)
    ensures
        is_ranking(counts@, cap as int, picks@),
{
    let n = counts.len();
    let rounds = if n < cap {
        n
    } else {
        cap
    };
    let mut taken: Vec<bool> = Vec::new();
    let mut i: usize = 0;
    while i < n
        invariant
            i <= n,
            taken@.len() == i,
            forall|j: int| 0 <= j < i ==> !#[trigger] taken@[j],
            marked(taken@) == 0,
        decreases n - i,
    {
        let ghost before = taken@;
        taken.push(false);
        assert(taken@.drop_last() =~= before);
        i = i + 1;
    }
    let mut picks: Vec<usize> = Vec::new();
    while picks.len() < rounds
        invariant
            n == counts@.len(),
            rounds <= n,
            rounds <= cap,
            taken@.len() == n,
            picks@.len() <= rounds,
            marked(taken@) == picks@.len(),
            forall|k: int| 0 <= k < picks@.len() ==> 0 <= #[trigger] picks@[k] < n && taken@[picks@[k] as int],
            forall|i: int| 0 <= i < n && #[trigger] taken@[i] ==> picked(picks@, i),
            forall|a: int, b: int|
                0 <= a < b < picks@.len() ==> outranks(
                    counts@,
                    #[trigger] picks@[a] as int,
                    #[trigger] picks@[b] as int,
                ),
            forall|i: int, k: int|
                #![trigger outranks(counts@, picks@[k] as int, i)]
                0 <= i < n && 0 <= k < picks@.len() && !taken@[i] ==> outranks(
                    counts@,
                    picks@[k] as int,
                    i,
                ),
        decreases rounds - picks@.len(),
    {
        proof {
            lemma_marked_bounds(taken@);
        }
        let mut best: usize = 0;
        let mut found = false;
        let mut j: usize = 0;
        while j < n
            invariant
                n == counts@.len(),
                taken@.len() == n,
                j <= n,
                found ==> best < j && !taken@[best as int],
                found ==> forall|i: int|
                    0 <= i < j && !#[trigger] taken@[i] && i != best ==> outranks(
                        counts@,
                        best as int,
                        i,
                    ),
                !found ==> forall|i: int| 0 <= i < j ==> #[trigger] taken@[i],
            decreases n - j,
        {
            if !taken[j] {
                if !found || counts[j] > counts[best] {
                    best = j;
                    found = true;
                }
            }
            j = j + 1;
        }
        assert(found);
        let ghost before = picks@;
        let ghost marks = taken@;
        proof {
            lemma_marked_update(taken@, best as int);
        }
        taken[best] = true;
        picks.push(best);
        proof {
            assert forall|i: int| 0 <= i < n && #[trigger] taken@[i] implies picked(picks@, i) by {
                if i == best {
                    assert(picks@[before.len() as int] == i);
                } else {
                    assert(marks[i]);
                    let k = choose|k: int| 0 <= k < before.len() && #[trigger] before[k] == i;
                    assert(picks@[k] == i);
                }
            }
            assert forall|k: int| 0 <= k < picks@.len() implies 0 <= #[trigger] picks@[k] < n
                && taken@[picks@[k] as int] by {
                if k < before.len() {
                    assert(picks@[k] == before[k]);
                }
            }
            assert forall|a: int, b: int| 0 <= a < b < picks@.len() implies outranks(
                counts@,
                #[trigger] picks@[a] as int,
                #[trigger] picks@[b] as int,
            ) by {
                assert(picks@[a] == before[a]);
                if b < before.len() {
                    assert(picks@[b] == before[b]);
                }
            }
            assert forall|i: int, k: int|
                #![trigger outranks(counts@, picks@[k] as int, i)]
                0 <= i < n && 0 <= k < picks@.len() && !taken@[i] implies outranks(
                counts@,
                picks@[k] as int,
                i,
            ) by {
                if k < before.len() {
                    assert(picks@[k] == before[k]);
                }
            }
        }
    }
    proof {
        assert forall|i: int, k: int|
            #![trigger outranks(counts@, picks@[k] as int, i)]
            0 <= i < n && 0 <= k < picks@.len() implies picked(picks@, i) || outranks(
            counts@,
            picks@[k] as int,
            i,
        ) by {
            if taken@[i] {
            } else {
            }
        }
    }
    picks
}

/// Two rankings of the same counts with the same cap are the same.
pub proof fn lemma_ranking_unique(counts: Seq<i32>, cap: int, a: Seq<usize>, b: Seq<usize>)
    requires
        is_ranking(counts, cap, a),
        is_ranking(counts, cap, b),
    ensures
        a == b,
{
    assert forall|k: int| 0 <= k < a.len() implies a[k] == b[k] by {
        lemma_ranking_prefix(counts, cap, a, b, k);
    }
    assert(a =~= b);
}

/// Two rankings of the same counts name the same place at `k`.
proof fn lemma_ranking_prefix(counts: Seq<i32>, cap: int, a: Seq<usize>, b: Seq<usize>, k: int)
    requires
        is_ranking(counts, cap, a),
        is_ranking(counts, cap, b),
        0 <= k < a.len(),
    ensures
        a[k] == b[k],
    decreases k,
{
    if k > 0 {
        lemma_ranking_prefix(counts, cap, a, b, k - 1);
    }
    assert forall|j: int| 0 <= j < k implies a[j] == b[j] by {
        lemma_ranking_prefix(counts, cap, a, b, j);
    }
    let x = a[k] as int;
    let y = b[k] as int;
    if x != y {
        // each of the two either stands in the other ranking, later, or is
        // outranked by all of it
        if picked(b, x) {
            let j = choose|j: int| 0 <= j < b.len() && #[trigger] b[j] == x;
            if j < k {
                assert(a[j] == b[j]);
                assert(outranks(counts, a[j] as int, a[k] as int));
            } else {
                assert(outranks(counts, b[k] as int, b[j] as int));
            }
        } else {
            assert(outranks(counts, b[k] as int, x));
        }
        assert(outranks(counts, y, x));
        if picked(a, y) {
            let j = choose|j: int| 0 <= j < a.len() && #[trigger] a[j] == y;
            if j < k {
                assert(a[j] == b[j]);
                assert(outranks(counts, b[j] as int, b[k] as int));
            } else {
                assert(outranks(counts, a[k] as int, a[j] as int));
            }
        } else {
            assert(outranks(counts, a[k] as int, y));
        }
        assert(outranks(counts, x, y));
    }
}

/// The buckets of all rooms together, family by family.
#[derive(Debug)]
pub struct TemporalAggregates {
    pub by_year: CountMap,
    pub by_month: CountMap,
    pub by_week: CountMap,
    pub by_weekday: CountMap,
    pub by_day: CountMap,
    pub by_hour: CountMap,
}

impl TemporalAggregates {
    /// Every map is in order.
    pub open spec fn wf(&self) -> bool {
        &&& self.by_year.wf()
        &&& self.by_month.wf()
        &&& self.by_week.wf()
        &&& self.by_weekday.wf()
        &&& self.by_day.wf()
        &&& self.by_hour.wf()
    }

    /// Whether the buckets of `other` can be added without a count that
    /// does not fit in an `i32`.
    pub open spec fn takes(&self, other: StatsView) -> bool {
        &&& counts_fit(merged(self.by_year@, other.by_year))
        &&& counts_fit(merged(self.by_month@, other.by_month))
        &&& counts_fit(merged(self.by_week@, other.by_week))
        &&& counts_fit(merged(self.by_weekday@, other.by_weekday))
        &&& counts_fit(merged(self.by_day@, other.by_day))
        &&& counts_fit(merged(self.by_hour@, other.by_hour))
    }

    /// No buckets.
    pub fn new() -> (empty: TemporalAggregates)
        ensures
            empty.wf(),
            empty.by_year@ == Map::<Seq<char>, int>::empty(),
            empty.by_month@ == Map::<Seq<char>, int>::empty(),
            empty.by_week@ == Map::<Seq<char>, int>::empty(),
            empty.by_weekday@ == Map::<Seq<char>, int>::empty(),
            empty.by_day@ == Map::<Seq<char>, int>::empty(),
            empty.by_hour@ == Map::<Seq<char>, int>::empty(),
    {
        let empty = TemporalAggregates {
            by_year: CountMap::new(),
            by_month: CountMap::new(),
            by_week: CountMap::new(),
            by_weekday: CountMap::new(),
            by_day: CountMap::new(),
            by_hour: CountMap::new(),
        };
        assert(empty.by_year@ =~= Map::<Seq<char>, int>::empty());
        assert(empty.by_month@ =~= Map::<Seq<char>, int>::empty());
        assert(empty.by_week@ =~= Map::<Seq<char>, int>::empty());
        assert(empty.by_weekday@ =~= Map::<Seq<char>, int>::empty());
        assert(empty.by_day@ =~= Map::<Seq<char>, int>::empty());
        assert(empty.by_hour@ =~= Map::<Seq<char>, int>::empty());
        empty
    }

    /// Adds the buckets of one room, key by key.
    pub fn aggregate_from(&mut self, other: &DetailedPaginationStats) -> (done: Result<
        (),
        StatsError,
    >)
        requires
            old(self).wf(),
            other.wf(),
        ensures
            final(self).wf(),
            done is Ok <==> old(self).takes(other@),
            done is Ok ==> {
                &&& final(self).by_year@ == merged(old(self).by_year@, other.by_year@)
                &&& final(self).by_month@ == merged(old(self).by_month@, other.by_month@)
                &&& final(self).by_week@ == merged(old(self).by_week@, other.by_week@)
                &&& final(self).by_weekday@ == merged(old(self).by_weekday@, other.by_weekday@)
                &&& final(self).by_day@ == merged(old(self).by_day@, other.by_day@)
                &&& final(self).by_hour@ == merged(old(self).by_hour@, other.by_hour@)
            },
    {
        if self.by_year.merge_from(&other.by_year).is_err() {
            return Err(StatsError::CountOverflow);
        }
        if self.by_month.merge_from(&other.by_month).is_err() {
            return Err(StatsError::CountOverflow);
        }
        if self.by_week.merge_from(&other.by_week).is_err() {
            return Err(StatsError::CountOverflow);
        }
        if self.by_weekday.merge_from(&other.by_weekday).is_err() {
            return Err(StatsError::CountOverflow);
        }
        if self.by_day.merge_from(&other.by_day).is_err() {
            return Err(StatsError::CountOverflow);
        }
        if self.by_hour.merge_from(&other.by_hour).is_err() {
            return Err(StatsError::CountOverflow);
        }
        Ok(())
    }
}

/// The reactions of all rooms together.
#[derive(Debug)]
pub struct ReactionAggregates {
    pub by_emoji: CountMap,
    pub by_message: CountMap,
}

impl ReactionAggregates {
    /// Both maps are in order.
    pub open spec fn wf(&self) -> bool {
        self.by_emoji.wf() && self.by_message.wf()
    }

    /// Whether the reactions of `other` can be added without a count that
    /// does not fit in an `i32`.
    pub open spec fn takes(&self, other: StatsView) -> bool {
        &&& counts_fit(merged(self.by_emoji@, other.reactions_by_emoji))
        &&& counts_fit(merged(self.by_message@, other.reactions_by_message))
    }

    /// No reactions.
    pub fn new() -> (empty: ReactionAggregates)
        ensures
            empty.wf(),
            empty.by_emoji@ == Map::<Seq<char>, int>::empty(),
            empty.by_message@ == Map::<Seq<char>, int>::empty(),
    {
        let empty = ReactionAggregates { by_emoji: CountMap::new(), by_message: CountMap::new() };
        assert(empty.by_emoji@ =~= Map::<Seq<char>, int>::empty());
        assert(empty.by_message@ =~= Map::<Seq<char>, int>::empty());
        empty
    }

    /// Adds the reactions of one room, key by key.
    pub fn aggregate_from(&mut self, other: &DetailedPaginationStats) -> (done: Result<
        (),
        StatsError,
    >)
        requires
            old(self).wf(),
            other.wf(),
        ensures
            final(self).wf(),
            done is Ok <==> old(self).takes(other@),
            done is Ok ==> {
                &&& final(self).by_emoji@ == merged(old(self).by_emoji@, other.reactions_by_emoji@)
                &&& final(self).by_message@ == merged(
                    old(self).by_message@,
                    other.reactions_by_message@,
                )
            },
    {
        if self.by_emoji.merge_from(&other.reactions_by_emoji).is_err() {
            return Err(StatsError::CountOverflow);
        }
        if self.by_message.merge_from(&other.reactions_by_message).is_err() {
            return Err(StatsError::CountOverflow);
        }
        Ok(())
    }
}

/// Rooms and messages by kind of room.
#[derive(Clone, Copy, Debug, PartialEq, Eq, Structural)]
pub struct RoomTypeMetrics {
    pub dm_count: i32,
    pub public_count: i32,
    pub private_count: i32,
    pub dm_messages: i32,
    pub public_messages: i32,
    pub private_messages: i32,
}

impl RoomTypeMetrics {
    /// No number is negative.
    pub open spec fn wf(&self) -> bool {
        &&& 0 <= self.dm_count
        &&& 0 <= self.public_count
        &&& 0 <= self.private_count
        &&& 0 <= self.dm_messages
        &&& 0 <= self.public_messages
        &&& 0 <= self.private_messages
    }

    /// No rooms.
    pub fn new() -> (empty: RoomTypeMetrics)
        ensures
            empty == (RoomTypeMetrics {
                dm_count: 0,
                public_count: 0,
                private_count: 0,
                dm_messages: 0,
                public_messages: 0,
                private_messages: 0,
            }),
    {
        RoomTypeMetrics {
            dm_count: 0,
            public_count: 0,
            private_count: 0,
            dm_messages: 0,
            public_messages: 0,
            private_messages: 0,
        }
    }

    /// The rooms of kind `kind`.
    pub open spec fn rooms_of(self, kind: RoomType) -> int {
        match kind {
            RoomType::Dm => self.dm_count as int,
            RoomType::Public => self.public_count as int,
            RoomType::Private => self.private_count as int,
        }
    }

    /// The messages in rooms of kind `kind`.
    pub open spec fn messages_in(self, kind: RoomType) -> int {
        match kind {
            RoomType::Dm => self.dm_messages as int,
            RoomType::Public => self.public_messages as int,
            RoomType::Private => self.private_messages as int,
        }
    }

    /// The numbers with one more room of kind `kind` and its messages.
    pub open spec fn with_room(self, kind: RoomType, messages: i32) -> RoomTypeMetrics {
        match kind {
            RoomType::Dm => RoomTypeMetrics {
                dm_count: (self.dm_count + 1) as i32,
                dm_messages: (self.dm_messages + messages) as i32,
                ..self
            },
            RoomType::Public => RoomTypeMetrics {
                public_count: (self.public_count + 1) as i32,
                public_messages: (self.public_messages + messages) as i32,
                ..self
            },
            RoomType::Private => RoomTypeMetrics {
                private_count: (self.private_count + 1) as i32,
                private_messages: (self.private_messages + messages) as i32,
                ..self
            },
        }
    }

    /// Counts one room of kind `room_type` with `message_count` messages.
    /// Fails, and changes nothing, when a number would not fit in an `i32`.
    pub fn record(&mut self, room_type: RoomType, message_count: i32) -> (done: Result<
        (),
        StatsError,
    >)
        requires
            old(self).wf(),
            0 <= message_count,
        ensures
            final(self).wf(),
            done is Ok <==> old(self).rooms_of(room_type) < i32::MAX && old(self).messages_in(
                room_type,
            ) + message_count <= i32::MAX,
            done is Ok ==> *final(self) == old(self).with_room(room_type, message_count),
            done is Err ==> *final(self) == *old(self),
    {
        match room_type {
            RoomType::Dm => {
                if self.dm_count == i32::MAX || self.dm_messages > i32::MAX - message_count {
                    return Err(StatsError::CountOverflow);
                }
                self.dm_count = self.dm_count + 1;
                self.dm_messages = self.dm_messages + message_count;
            },
            RoomType::Public => {
                if self.public_count == i32::MAX || self.public_messages > i32::MAX
                    - message_count {
                    return Err(StatsError::CountOverflow);
                }
                self.public_count = self.public_count + 1;
                self.public_messages = self.public_messages + message_count;
            },
            RoomType::Private => {
                if self.private_count == i32::MAX || self.private_messages > i32::MAX
                    - message_count {
                    return Err(StatsError::CountOverflow);
                }
                self.private_count = self.private_count + 1;
                self.private_messages = self.private_messages + message_count;
            },
        }
        Ok(())
    }

    /// The messages in rooms of all kinds, where that number fits in an
    /// `i32`.
    pub fn total_messages(&self) -> (total: Result<i32, StatsError>)
        requires
            self.wf(),
        ensures
            total is Ok <==> self.dm_messages + self.public_messages + self.private_messages
                <= i32::MAX,
            total matches Ok(t) ==> t == self.dm_messages + self.public_messages
                + self.private_messages,
    {
        let sum: i64 = self.dm_messages as i64 + self.public_messages as i64
            + self.private_messages as i64;
        if sum > i32::MAX as i64 {
            Err(StatsError::CountOverflow)
        } else {
            Ok(sum as i32)
        }
    }
}

/// The rooms that the account created, by kind of room.
#[derive(Clone, Copy, Debug, PartialEq, Eq, Structural)]
pub struct CreatedRoomMetrics {
    pub total: i32,
    pub dm: i32,
    pub public: i32,
    pub private: i32,
}

impl CreatedRoomMetrics {
    /// No number is negative, and none exceeds the total.
    pub open spec fn wf(&self) -> bool {
        &&& 0 <= self.dm <= self.total
        &&& 0 <= self.public <= self.total
        &&& 0 <= self.private <= self.total
    }

    /// No rooms.
    pub fn new() -> (empty: CreatedRoomMetrics)
        ensures
            empty == (CreatedRoomMetrics { total: 0, dm: 0, public: 0, private: 0 }),
    {
        CreatedRoomMetrics { total: 0, dm: 0, public: 0, private: 0 }
    }

    /// Counts one created room of kind `room_type`. Fails, and changes
    /// nothing, when the total would not fit in an `i32`.
    pub fn record(&mut self, room_type: RoomType) -> (done: Result<(), StatsError>)
        requires
            old(self).wf(),
        ensures
            final(self).wf(),
            done is Ok <==> old(self).total < i32::MAX,
            done is Ok ==> *final(self) == (CreatedRoomMetrics {
                total: (old(self).total + 1) as i32,
                dm: if room_type == RoomType::Dm {
                    (old(self).dm + 1) as i32
                } else {
                    old(self).dm
                },
                public: if room_type == RoomType::Public {
                    (old(self).public + 1) as i32
                } else {
                    old(self).public
                },
                private: if room_type == RoomType::Private {
                    (old(self).private + 1) as i32
                } else {
                    old(self).private
                },
            }),
            done is Err ==> *final(self) == *old(self),
    {
        if self.total == i32::MAX {
            return Err(StatsError::CountOverflow);
        }
        self.total = self.total + 1;
        match room_type {
            RoomType::Dm => {
                self.dm = self.dm + 1;
            },
            RoomType::Public => {
                self.public = self.public + 1;
            },
            RoomType::Private => {
                self.private = self.private + 1;
            },
        }
        Ok(())
    }
}

/// The time span that the rooms cover together, and the dates on which
/// the account wrote in any of them.
#[derive(Debug)]
pub struct CoverageBounds {
    pub oldest_ts: Option<i64>,
    pub newest_ts: Option<i64>,
    pub active_dates: TextSet,
}

/// The earlier of two timestamps, as far as they are known.
pub open spec fn earliest(a: Option<i64>, b: Option<i64>) -> Option<i64> {
    match (a, b) {
        (Some(x), Some(y)) => Some(if y < x { y } else { x }),
        (Some(x), None) => Some(x),
        (None, other) => other,
    }
}

/// The later of two timestamps, as far as they are known.
pub open spec fn latest(a: Option<i64>, b: Option<i64>) -> Option<i64> {
    match (a, b) {
        (Some(x), Some(y)) => Some(if y > x { y } else { x }),
        (Some(x), None) => Some(x),
        (None, other) => other,
    }
}

impl CoverageBounds {
    /// The set of dates is in order.
    pub open spec fn wf(&self) -> bool {
        self.active_dates.wf()
    }

    /// No coverage.
    pub fn new() -> (empty: CoverageBounds)
        ensures
            empty.wf(),
            empty.oldest_ts is None,
            empty.newest_ts is None,
            empty.active_dates@ == Set::<Seq<char>>::empty(),
    {
        CoverageBounds { oldest_ts: None, newest_ts: None, active_dates: TextSet::new() }
    }

    /// Widens the span by the coverage of one room and adds its active
    /// dates.
    pub fn update_from(&mut self, other: &DetailedPaginationStats)
        requires
            old(self).wf(),
            other.wf(),
        ensures
            final(self).wf(),
            final(self).oldest_ts == earliest(old(self).oldest_ts, other.oldest_ts),
            final(self).newest_ts == latest(old(self).newest_ts, other.newest_ts),
            final(self).active_dates@ == old(self).active_dates@.union(other.active_dates@),
    {
        match other.oldest_ts {
            Some(ts) => {
                self.oldest_ts = match self.oldest_ts {
                    Some(have) => Some(if ts < have { ts } else { have }),
                    None => Some(ts),
                };
            },
            None => {},
        }
        match other.newest_ts {
            Some(ts) => {
                self.newest_ts = match self.newest_ts {
                    Some(have) => Some(if ts > have { ts } else { have }),
                    None => Some(ts),
                };
            },
            None => {},
        }
        self.active_dates.union_from(&other.active_dates);
    }
}

/// Whether entry `a` ranks before entry `b`: the larger count first, and
/// of two equal counts the one whose key comes first.
pub open spec fn ranks_first(a: (Seq<char>, int), b: (Seq<char>, int)) -> bool {
    a.1 > b.1 || (a.1 == b.1 && lex_less(a.0, b.0))
}

/// Whether `top` lists the `cap` entries of `counts` that rank first, in
/// the order of their rank; all entries where there are no more than `cap`.
pub open spec fn is_top_of(
    counts: Map<Seq<char>, int>,
    cap: int,
    top: Seq<(Seq<char>, int)>,
) -> bool {
    &&& top.len() <= cap
    &&& forall|i: int|
        0 <= i < top.len() ==> counts.dom().contains((#[trigger] top[i]).0) && counts[top[i].0]
            == top[i].1
    &&& forall|i: int, j: int|
        0 <= i < j < top.len() ==> ranks_first(#[trigger] top[i], #[trigger] top[j])
    &&& forall|k: Seq<char>|
        counts.dom().contains(k) ==> listed(top, k) || (top.len() == cap && forall|i: int|
            0 <= i < top.len() ==> ranks_first(#[trigger] top[i], (k, counts[k])))
}

/// Whether `key` is the key of one of `top`.
pub open spec fn listed(top: Seq<(Seq<char>, int)>, key: Seq<char>) -> bool {
    exists|i: int| 0 <= i < top.len() && (#[trigger] top[i]).0 == key
}

/// The keys and counts of a vector of pairs.
pub open spec fn pairs_of(pairs: Seq<(String, i32)>) -> Seq<(Seq<char>, int)> {
    Seq::new(pairs.len(), |i: int| (pairs[i].0@, pairs[i].1 as int))
}

/// The `cap` entries of `map` that rank first, in the order of their rank.
pub fn top_entries(map: &CountMap, cap: usize) -> (top: Vec<(String, i32)>)
    requires
        map.wf(),
    ensures
        is_top_of(map@, cap as int, pairs_of(top@)),
{
    let counts = map.counts();
    let picks = top_indices(&counts, cap);
    let ghost entries = map.entries();
    let mut top: Vec<(String, i32)> = Vec::new();
    let mut k: usize = 0;
    while k < picks.len()
        invariant
            map.wf(),
            entries == map.entries(),
            counts@.len() == entries.len(),
            forall|i: int| 0 <= i < counts@.len() ==> #[trigger] counts@[i] == entries[i].1,
            is_ranking(counts@, cap as int, picks@),
            k <= picks@.len(),
            top@.len() == k,
            forall|j: int| 0 <= j < k ==> (#[trigger] pairs_of(top@)[j]) == entries[picks@[j] as int],
        decreases picks@.len() - k,
    {
        let at = picks[k];
        let ghost before = pairs_of(top@);
        top.push((map.key_at(at).clone(), map.count_at(at)));
        assert forall|j: int| 0 <= j < k + 1 implies (#[trigger] pairs_of(top@)[j])
            == entries[picks@[j] as int] by {
            if j < k {
                assert(pairs_of(top@)[j] == before[j]);
            }
        }
        k = k + 1;
    }
    proof {
        let listing = pairs_of(top@);
        assert forall|i: int| 0 <= i < listing.len() implies map@.dom().contains(
            (#[trigger] listing[i]).0,
        ) && map@[listing[i].0] == listing[i].1 by {
            lemma_count_at(entries, picks@[i] as int);
        }
        assert forall|i: int, j: int| 0 <= i < j < listing.len() implies ranks_first(
            #[trigger] listing[i],
            #[trigger] listing[j],
        ) by {
            let a = picks@[i] as int;
            let b = picks@[j] as int;
            assert(outranks(counts@, a, b));
            assert(listing[i] == entries[a] && listing[j] == entries[b]);
            if a < b {
                assert(lex_less(entries[a].0, entries[b].0));
            }
        }
        assert forall|key: Seq<char>| map@.dom().contains(key) implies listed(listing, key) || (
        listing.len() == cap && forall|i: int|
            0 <= i < listing.len() ==> ranks_first(#[trigger] listing[i], (key, map@[key]))) by {
            let at = choose|at: int| 0 <= at < entries.len() && (#[trigger] entries[at]).0 == key;
            lemma_count_at(entries, at);
            if picked(picks@, at) {
                let j = choose|j: int| 0 <= j < picks@.len() && #[trigger] picks@[j] == at;
                assert(listing[j] == entries[at]);
            } else {
                if picks@.len() < cap {
                    // every place is picked where there are no more than `cap`
                    lemma_all_picked(counts@, cap as int, picks@, at);
                }
                assert forall|i: int| 0 <= i < listing.len() implies ranks_first(
                    #[trigger] listing[i],
                    (key, map@[key]),
                ) by {
                    let a = picks@[i] as int;
                    assert(outranks(counts@, picks@[i] as int, at));
                    assert(listing[i] == entries[a]);
                    if a < at {
                        assert(lex_less(entries[a].0, entries[at].0));
                    }
                }
            }
        }
    }
    top
}

/// A ranking that is shorter than its cap names every place.
pub proof fn lemma_all_picked(counts: Seq<i32>, cap: int, picks: Seq<usize>, at: int)
    requires
        is_ranking(counts, cap, picks),
        picks.len() < cap,
        0 <= at < counts.len(),
    ensures
        picked(picks, at),
{
    // the places picked are distinct, since each outranks the later ones
    let shown = Seq::new(picks.len(), |k: int| picks[k] as int);
    assert forall|a: int, b: int| 0 <= a < shown.len() && 0 <= b < shown.len() && a != b implies shown[a]
        != shown[b] by {
        if a < b {
            assert(outranks(counts, picks[a] as int, picks[b] as int));
        } else {
            assert(outranks(counts, picks[b] as int, picks[a] as int));
        }
    }
    shown.unique_seq_to_set();
    vstd::seq_lib::seq_to_set_is_finite(shown);
    let places = vstd::set_lib::set_int_range(0, counts.len() as int);
    vstd::set_lib::lemma_int_range(0, counts.len() as int);
    assert(shown.to_set().subset_of(places)) by {
        assert forall|i: int| shown.to_set().contains(i) implies places.contains(i) by {
            let k = choose|k: int| 0 <= k < shown.len() && shown[k] == i;
            assert(0 <= picks[k] < counts.len());
        }
    }
    vstd::set_lib::lemma_subset_equality(shown.to_set(), places);
    assert(places.contains(at));
    assert(shown.to_set().contains(at));
    let k = choose|k: int| 0 <= k < shown.len() && shown[k] == at;
    assert(picks[k] == at);
}

/// Whether `peak` is the fullest bucket of `counts`, the first in key order
/// of several that are equally full; none for no buckets at all.
pub open spec fn is_peak(counts: Map<Seq<char>, int>, peak: Option<(Seq<char>, int)>) -> bool {
    match peak {
        None => forall|k: Seq<char>| !counts.dom().contains(k),
        Some(p) => {
            &&& counts.dom().contains(p.0)
            &&& counts[p.0] == p.1
            &&& forall|k: Seq<char>|
                counts.dom().contains(k) ==> k == p.0 || ranks_first(p, (k, #[trigger] counts[k]))
        },
    }
}

/// The fullest bucket of `map`.
pub fn peak_of(map: &CountMap) -> (peak: Option<(String, i32)>)
    requires
        map.wf(),
    ensures
        is_peak(
            map@,
            match peak {
                Some(p) => Some((p.0@, p.1 as int)),
                None => None,
            },
        ),
{
    let mut top = top_entries(map, 1);
    let ghost listing = pairs_of(top@);
    match top.pop() {
        Some(first) => {
            proof {
                assert(listing[0] == (first.0@, first.1 as int));
                assert forall|k: Seq<char>| map@.dom().contains(k) implies k == first.0@
                    || ranks_first((first.0@, first.1 as int), (k, #[trigger] map@[k])) by {
                    if listed(listing, k) {
                        let i = choose|i: int| 0 <= i < listing.len() && (#[trigger] listing[i]).0 == k;
                        assert(i == 0);
                    } else {
                        assert(ranks_first(listing[0], (k, map@[k])));
                    }
                }
            }
            Some(first)
        },
        None => {
            proof {
                assert forall|k: Seq<char>| !map@.dom().contains(k) by {
                    if map@.dom().contains(k) {
                        assert(!listed(listing, k));
                    }
                }
            }
            None
        },
    }
}

/// The peak of the years, as a value of specifications.
pub open spec fn year_peak(peak: Option<PeakYear>) -> Option<(Seq<char>, int)> {
    match peak {
        Some(p) => Some((p.year@, p.messages as int)),
        None => None,
    }
}

/// The peak of the months, as a value of specifications.
pub open spec fn month_peak(peak: Option<PeakMonth>) -> Option<(Seq<char>, int)> {
    match peak {
        Some(p) => Some((p.month@, p.messages as int)),
        None => None,
    }
}

/// The peak of the weeks, as a value of specifications.
pub open spec fn week_peak(peak: Option<PeakWeek>) -> Option<(Seq<char>, int)> {
    match peak {
        Some(p) => Some((p.week@, p.messages as int)),
        None => None,
    }
}

/// The peak of the days, as a value of specifications.
pub open spec fn day_peak(peak: Option<PeakDay>) -> Option<(Seq<char>, int)> {
    match peak {
        Some(p) => Some((p.day@, p.messages as int)),
        None => None,
    }
}

/// The peak of the hours, as a value of specifications.
pub open spec fn hour_peak(peak: Option<PeakHour>) -> Option<(Seq<char>, int)> {
    match peak {
        Some(p) => Some((p.hour@, p.messages as int)),
        None => None,
    }
}

/// Whether `peaks` names the fullest bucket of each of the five families;
/// none at all where no family has a bucket.
pub open spec fn are_peaks(
    by_year: Map<Seq<char>, int>,
    by_month: Map<Seq<char>, int>,
    by_week: Map<Seq<char>, int>,
    by_day: Map<Seq<char>, int>,
    by_hour: Map<Seq<char>, int>,
    peaks: Option<Peaks>,
) -> bool {
    match peaks {
        None => is_peak(by_year, None) && is_peak(by_month, None) && is_peak(by_week, None)
            && is_peak(by_day, None) && is_peak(by_hour, None),
        Some(p) => {
            &&& is_peak(by_year, year_peak(p.year))
            &&& is_peak(by_month, month_peak(p.month))
            &&& is_peak(by_week, week_peak(p.week))
            &&& is_peak(by_day, day_peak(p.day))
            &&& is_peak(by_hour, hour_peak(p.hour))
            &&& (p.hour matches Some(h) ==> h.date is None)
            &&& (p.year is Some || p.month is Some || p.week is Some || p.day is Some
                || p.hour is Some)
        },
    }
}

/// The fullest bucket of each family: the one with the largest count, and
/// of several with that count the one whose key comes first.
pub fn compute_peaks(
    by_year: &CountMap,
    by_month: &CountMap,
    by_week: &CountMap,
    by_day: &CountMap,
    by_hour: &CountMap,
) -> (peaks: Option<Peaks>)
    requires
        by_year.wf(),
        by_month.wf(),
        by_week.wf(),
        by_day.wf(),
        by_hour.wf(),
    ensures
        are_peaks(by_year@, by_month@, by_week@, by_day@, by_hour@, peaks),
{
    let year = match peak_of(by_year) {
        Some(p) => Some(PeakYear { year: p.0, messages: p.1 }),
        None => None,
    };
    let month = match peak_of(by_month) {
        Some(p) => Some(PeakMonth { month: p.0, messages: p.1 }),
        None => None,
    };
    let week = match peak_of(by_week) {
        Some(p) => Some(PeakWeek { week: p.0, messages: p.1 }),
        None => None,
    };
    let day = match peak_of(by_day) {
        Some(p) => Some(PeakDay { day: p.0, messages: p.1 }),
        None => None,
    };
    let hour = match peak_of(by_hour) {
        Some(p) => Some(PeakHour { hour: p.0, messages: p.1, date: None }),
        None => None,
    };
    if year.is_none() && month.is_none() && week.is_none() && day.is_none() && hour.is_none() {
        return None;
    }
    Some(Peaks { year, month, week, day, hour })
}

/// The link to a room or an event.
pub open spec fn permalink(id: Seq<char>) -> Seq<char> {
    "https://matrix.to/#/"@ + id
}

/// The link to a room or an event.
pub fn permalink_of(id: &str) -> (link: String)
    ensures
        link@ == permalink(id@),
{
    let mut out: Vec<char> = Vec::new();
    push_str(&mut out, "https://matrix.to/#/");
    push_str(&mut out, id);
    assert(out@ =~= permalink(id@));
    string_of(&out)
}

/// The entries of a vector of emoji entries.
pub open spec fn emoji_views(entries: Seq<EmojiEntry>) -> Seq<(Seq<char>, int)> {
    Seq::new(entries.len(), |i: int| entries[i]@)
}

/// The entries of a vector of message entries.
pub open spec fn message_views(entries: Seq<MessageReactionEntry>) -> Seq<(Seq<char>, int)> {
    Seq::new(entries.len(), |i: int| entries[i]@)
}

/// The five emojis with the most reactions, most first; emojis with the
/// same count in the order of their text.
pub fn rank_top_emojis(emojis: &CountMap) -> (top: Vec<EmojiEntry>)
    requires
        emojis.wf(),
    ensures
        is_top_of(emojis@, 5, emoji_views(top@)),
{
    let ranked = top_entries(emojis, 5);
    let mut top: Vec<EmojiEntry> = Vec::new();
    let mut i: usize = 0;
    while i < ranked.len()
        invariant
            i <= ranked@.len(),
            top@.len() == i,
            forall|j: int| 0 <= j < i ==> (#[trigger] top@[j])@ == pairs_of(ranked@)[j],
        decreases ranked@.len() - i,
    {
        top.push(EmojiEntry { emoji: ranked[i].0.clone(), count: ranked[i].1 });
        i = i + 1;
    }
    assert(emoji_views(top@) =~= pairs_of(ranked@));
    top
}

/// The five messages with the most reactions, most first, each as a link.
/// `ranked` names the messages behind the links.
pub open spec fn are_top_messages(
    messages: Map<Seq<char>, int>,
    top: Seq<(Seq<char>, int)>,
    ranked: Seq<(Seq<char>, int)>,
) -> bool {
    &&& is_top_of(messages, 5, ranked)
    &&& top.len() == ranked.len()
    &&& forall|i: int|
        0 <= i < top.len() ==> #[trigger] top[i] == (permalink(ranked[i].0), ranked[i].1)
}

/// The five messages with the most reactions, most first, each as a link;
/// messages with the same count in the order of their ids.
pub fn rank_top_messages(messages: &CountMap) -> (top: Vec<MessageReactionEntry>)
    requires
        messages.wf(),
    ensures
        exists|ranked: Seq<(Seq<char>, int)>|
            #[trigger] are_top_messages(messages@, message_views(top@), ranked),
{
    let ranked = top_entries(messages, 5);
    let mut top: Vec<MessageReactionEntry> = Vec::new();
    let mut i: usize = 0;
    while i < ranked.len()
        invariant
            i <= ranked@.len(),
            top@.len() == i,
            forall|j: int|
                0 <= j < i ==> (#[trigger] top@[j])@ == (
                    permalink(pairs_of(ranked@)[j].0),
                    pairs_of(ranked@)[j].1,
                ),
        decreases ranked@.len() - i,
    {
        top.push(
            MessageReactionEntry {
                permalink: permalink_of(ranked[i].0.as_str()),
                reaction_count: ranked[i].1,
            },
        );
        i = i + 1;
    }
    assert(are_top_messages(messages@, message_views(top@), pairs_of(ranked@)));
    top
}

/// A room in which the account wrote, with the number of its messages.
#[derive(Debug)]
pub struct RoomRow {
    pub room_id: String,
    pub room_name: Option<String>,
    pub room_type: RoomType,
    pub messages: i32,
}

/// A row as a value of specifications.
pub struct RowModel {
    pub room_id: Seq<char>,
    pub room_name: Option<Seq<char>>,
    pub room_type: RoomType,
    pub messages: int,
}

impl View for RoomRow {
    type V = RowModel;

    open spec fn view(&self) -> RowModel {
        RowModel {
            room_id: self.room_id@,
            room_name: text_of(self.room_name),
            room_type: self.room_type,
            messages: self.messages as int,
        }
    }
}

/// The rows of a vector, as values of specifications.
pub open spec fn rows_of(rows: Seq<RoomRow>) -> Seq<RowModel> {
    Seq::new(rows.len(), |i: int| rows[i]@)
}

/// The messages of each row.
pub open spec fn messages_of(rows: Seq<RowModel>) -> Seq<i32> {
    Seq::new(rows.len(), |i: int| rows[i].messages as i32)
}

/// Whether `entry` shows the row `row` among `messages_sent` messages.
pub open spec fn shows(entry: RoomEntry, row: RowModel, messages_sent: i32) -> bool {
    &&& text_of(entry.name) == row.room_name
    &&& entry.messages == row.messages
    &&& entry.of_total == positive(messages_sent as int)
    &&& entry.permalink@ == permalink(row.room_id)
}

/// Whether `top` shows the five rows with the most messages, most first,
/// rows with as many messages in the order in which they stand.
pub open spec fn are_top_rooms(
    rows: Seq<RowModel>,
    messages_sent: i32,
    top: Seq<RoomEntry>,
    picks: Seq<usize>,
) -> bool {
    &&& is_ranking(messages_of(rows), 5, picks)
    &&& top.len() == picks.len()
    &&& forall|k: int|
        0 <= k < top.len() ==> shows(#[trigger] top[k], rows[picks[k] as int], messages_sent)
}

/// The five rooms with the most messages, most first.
pub fn rank_top_rooms(room_message_counts: &Vec<RoomRow>, messages_sent: i32) -> (top: Vec<
    RoomEntry,
>)
    ensures
        exists|picks: Seq<usize>|
            #[trigger] are_top_rooms(rows_of(room_message_counts@), messages_sent, top@, picks),
{
    let mut counts: Vec<i32> = Vec::new();
    let mut i: usize = 0;
    while i < room_message_counts.len()
        invariant
            i <= room_message_counts@.len(),
            counts@.len() == i,
            forall|j: int| 0 <= j < i ==> #[trigger] counts@[j] == room_message_counts@[j].messages,
        decreases room_message_counts@.len() - i,
    {
        counts.push(room_message_counts[i].messages);
        i = i + 1;
    }
    assert(counts@ =~= messages_of(rows_of(room_message_counts@)));
    let picks = top_indices(&counts, 5);
    let mut top: Vec<RoomEntry> = Vec::new();
    let mut k: usize = 0;
    while k < picks.len()
        invariant
            k <= picks@.len(),
            top@.len() == k,
            is_ranking(messages_of(rows_of(room_message_counts@)), 5, picks@),
            forall|j: int|
                0 <= j < k ==> shows(
                    #[trigger] top@[j],
                    room_message_counts@[picks@[j] as int]@,
                    messages_sent,
                ),
        decreases picks@.len() - k,
    {
        let row = &room_message_counts[picks[k]];
        top.push(
            RoomEntry {
                name: copy_text(&row.room_name),
                messages: row.messages,
                of_total: if_positive(messages_sent),
                permalink: permalink_of(row.room_id.as_str()),
            },
        );
        k = k + 1;
    }
    assert(are_top_rooms(rows_of(room_message_counts@), messages_sent, top@, picks@));
    top
}

/// `map` where it has keys.
pub open spec fn kept(map: CountMap) -> Option<CountMap> {
    if map.entries().len() > 0 {
        Some(map)
    } else {
        None
    }
}

/// `map` where it has keys.
pub fn if_any(map: CountMap) -> (out: Option<CountMap>)
    ensures
        out == kept(map),
{
    if !map.is_empty() {
        Some(map)
    } else {
        None
    }
}

/// The activity of the document: the buckets of each family that has any;
/// nothing where the account sent no message.
pub fn build_activity_section(temporal: TemporalAggregates, messages_sent: i32) -> (activity:
    Option<Activity>)
    ensures
        activity is None <==> messages_sent == 0,
        activity matches Some(a) ==> {
            &&& a.by_year == kept(temporal.by_year)
            &&& a.by_month == kept(temporal.by_month)
            &&& a.by_week == kept(temporal.by_week)
            &&& a.by_weekday == kept(temporal.by_weekday)
            &&& a.by_day == kept(temporal.by_day)
            &&& a.by_hour == kept(temporal.by_hour)
        },
{
    if messages_sent == 0 {
        return None;
    }
    Some(
        Activity {
            by_year: if_any(temporal.by_year),
            by_month: if_any(temporal.by_month),
            by_week: if_any(temporal.by_week),
            by_weekday: if_any(temporal.by_weekday),
            by_day: if_any(temporal.by_day),
            by_hour: if_any(temporal.by_hour),
        },
    )
}

/// The rooms of the document: how many the account wrote in, those it
/// wrote in most, and its messages by kind of room; nothing where it wrote
/// in none.
pub fn build_rooms_section(
    top_rooms: Vec<RoomEntry>,
    room_types: &RoomTypeMetrics,
    active_rooms_count: i32,
) -> (rooms: Option<Rooms>)
    ensures
        rooms is None <==> active_rooms_count == 0,
        rooms matches Some(r) ==> {
            &&& r.total == active_rooms_count
            &&& r.top == if top_rooms@.len() > 0 {
                Some(top_rooms)
            } else {
                None::<Vec<RoomEntry>>
            }
            &&& r.messages_by_room_type == Some(
                MessagesByRoomType {
                    dm: positive(room_types.dm_messages as int),
                    public: positive(room_types.public_messages as int),
                    private: positive(room_types.private_messages as int),
                },
            )
        },
{
    if active_rooms_count == 0 {
        return None;
    }
    Some(
        Rooms {
            total: active_rooms_count,
            top: if top_rooms.len() > 0 {
                Some(top_rooms)
            } else {
                None
            },
            messages_by_room_type: Some(
                MessagesByRoomType {
                    dm: if_positive(room_types.dm_messages),
                    public: if_positive(room_types.public_messages),
                    private: if_positive(room_types.private_messages),
                },
            ),
        },
    )
}

/// The reactions of the document; nothing where there were none.
pub fn build_reactions_section(
    top_emojis: Vec<EmojiEntry>,
    top_messages: Vec<MessageReactionEntry>,
    total_reactions: i32,
) -> (reactions: Option<Reactions>)
    ensures
        reactions is None <==> total_reactions == 0,
        reactions matches Some(r) ==> {
            &&& r.total == Some(total_reactions)
            &&& r.top_emojis == if top_emojis@.len() > 0 {
                Some(top_emojis)
            } else {
                None::<Vec<EmojiEntry>>
            }
            &&& r.top_messages == if top_messages@.len() > 0 {
                Some(top_messages)
            } else {
                None::<Vec<MessageReactionEntry>>
            }
        },
{
    if total_reactions == 0 {
        return None;
    }
    Some(
        Reactions {
            total: Some(total_reactions),
            top_emojis: if top_emojis.len() > 0 {
                Some(top_emojis)
            } else {
                None
            },
            top_messages: if top_messages.len() > 0 {
                Some(top_messages)
            } else {
                None
            },
        },
    )
}

/// The rooms that the account created; nothing where it created none.
pub fn build_created_rooms_section(created_rooms: &CreatedRoomMetrics) -> (section: Option<
    CreatedRooms,
>)
    ensures
        section == if created_rooms.total == 0 {
            None::<CreatedRooms>
        } else {
            Some(
                CreatedRooms {
                    total: created_rooms.total,
                    dm_rooms: positive(created_rooms.dm as int),
                    public_rooms: positive(created_rooms.public as int),
                    private_rooms: positive(created_rooms.private as int),
                },
            )
        },
{
    if created_rooms.total == 0 {
        return None;
    }
    Some(
        CreatedRooms {
            total: created_rooms.total,
            dm_rooms: if_positive(created_rooms.dm),
            public_rooms: if_positive(created_rooms.public),
            private_rooms: if_positive(created_rooms.private),
        },
    )
}

/// The first and the last day of the coverage as the document shows them:
/// the local dates of the oldest and the newest event where the rooms gave
/// both, each replaced by the window's day where the zone gives no local
/// time; else the days of the window.
pub open spec fn coverage_days(
    oldest_ts: Option<i64>,
    newest_ts: Option<i64>,
    window_from: CivilDate,
    window_to: CivilDate,
    oldest_local: Option<LocalStamp>,
    newest_local: Option<LocalStamp>,
) -> (Seq<char>, Seq<char>) {
    if oldest_ts is Some && newest_ts is Some {
        (
            match oldest_local {
                Some(stamp) => date_text(stamp.date),
                None => date_text(window_from),
            },
            match newest_local {
                Some(stamp) => date_text(stamp.date),
                None => date_text(window_to),
            },
        )
    } else {
        (date_text(window_from), date_text(window_to))
    }
}

/// The date as text.
fn date_string(date: CivilDate) -> (text: String)
    requires
        date.valid(),
    ensures
        text@ == date_text(date),
{
    let mut out: Vec<char> = Vec::new();
    push_date(&mut out, date);
    assert(out@ =~= date_text(date));
    string_of(&out)
}

/// The coverage of the document: its first and last day, and the number of
/// days on which the account wrote, none where it wrote on none. The local
/// times of the oldest and the newest event are given.
pub fn compute_coverage_bounds_at(
    coverage: &CoverageBounds,
    window_scope: &WindowScope,
    oldest_local: Option<LocalStamp>,
    newest_local: Option<LocalStamp>,
) -> (bounds: Result<(String, String, Option<i32>), StatsError>)
    requires
        coverage.wf(),
        window_scope.wf(),
        oldest_local matches Some(stamp) ==> stamp.valid(),
        newest_local matches Some(stamp) ==> stamp.valid(),
    ensures
        bounds is Ok <==> coverage.active_dates@.len() <= i32::MAX,
        bounds matches Ok(b) ==> {
            &&& (b.0@, b.1@) == coverage_days(
                coverage.oldest_ts,
                coverage.newest_ts,
                window_scope.from,
                window_scope.to,
                oldest_local,
                newest_local,
            )
            &&& b.2 == positive(coverage.active_dates@.len() as int)
        },
{
    let days = coverage.active_dates.len();
    if days > i32::MAX as usize {
        return Err(StatsError::CountOverflow);
    }
    let both = coverage.oldest_ts.is_some() && coverage.newest_ts.is_some();
    let from = match oldest_local {
        Some(stamp) if both => date_string(stamp.date),
        _ => date_string(window_scope.from),
    };
    let to = match newest_local {
        Some(stamp) if both => date_string(stamp.date),
        _ => date_string(window_scope.to),
    };
    Ok((from, to, if_positive(days as i32)))
}

/// What all rooms add up to, as a value of specifications.
pub struct Totals {
    pub by_year: Map<Seq<char>, int>,
    pub by_month: Map<Seq<char>, int>,
    pub by_week: Map<Seq<char>, int>,
    pub by_weekday: Map<Seq<char>, int>,
    pub by_day: Map<Seq<char>, int>,
    pub by_hour: Map<Seq<char>, int>,
    pub by_emoji: Map<Seq<char>, int>,
    pub by_message: Map<Seq<char>, int>,
    pub dm_count: int,
    pub public_count: int,
    pub private_count: int,
    pub dm_messages: int,
    pub public_messages: int,
    pub private_messages: int,
    pub created_total: int,
    pub created_dm: int,
    pub created_public: int,
    pub created_private: int,
    pub oldest_ts: Option<i64>,
    pub newest_ts: Option<i64>,
    pub active_dates: Set<Seq<char>>,
    /// The rooms in which the account wrote, in their order.
    pub rows: Seq<RowModel>,
    pub active_rooms: int,
}

/// One more where `kind` is `of`, else none.
pub open spec fn one_if(kind: RoomType, of: RoomType) -> int {
    if kind == of {
        1
    } else {
        0
    }
}

/// The totals of no rooms.
pub open spec fn no_totals() -> Totals {
    Totals {
        by_year: Map::empty(),
        by_month: Map::empty(),
        by_week: Map::empty(),
        by_weekday: Map::empty(),
        by_day: Map::empty(),
        by_hour: Map::empty(),
        by_emoji: Map::empty(),
        by_message: Map::empty(),
        dm_count: 0,
        public_count: 0,
        private_count: 0,
        dm_messages: 0,
        public_messages: 0,
        private_messages: 0,
        created_total: 0,
        created_dm: 0,
        created_public: 0,
        created_private: 0,
        oldest_ts: None,
        newest_ts: None,
        active_dates: Set::empty(),
        rows: Seq::empty(),
        active_rooms: 0,
    }
}

/// The totals with one more room. A room in which the account wrote
/// nothing adds nothing.
pub open spec fn with_room(
    totals: Totals,
    room_id: Seq<char>,
    room_name: Option<Seq<char>>,
    kind: RoomType,
    stats: StatsView,
) -> Totals {
    if stats.user_events == 0 {
        totals
    } else {
        let created = if stats.room_created_by_user {
            1int
        } else {
            0int
        };
        Totals {
            by_year: merged(totals.by_year, stats.by_year),
            by_month: merged(totals.by_month, stats.by_month),
            by_week: merged(totals.by_week, stats.by_week),
            by_weekday: merged(totals.by_weekday, stats.by_weekday),
            by_day: merged(totals.by_day, stats.by_day),
            by_hour: merged(totals.by_hour, stats.by_hour),
            by_emoji: merged(totals.by_emoji, stats.reactions_by_emoji),
            by_message: merged(totals.by_message, stats.reactions_by_message),
            dm_count: totals.dm_count + one_if(kind, RoomType::Dm),
            public_count: totals.public_count + one_if(kind, RoomType::Public),
            private_count: totals.private_count + one_if(kind, RoomType::Private),
            dm_messages: totals.dm_messages + one_if(kind, RoomType::Dm) * stats.user_events,
            public_messages: totals.public_messages + one_if(kind, RoomType::Public)
                * stats.user_events,
            private_messages: totals.private_messages + one_if(kind, RoomType::Private)
                * stats.user_events,
            created_total: totals.created_total + created,
            created_dm: totals.created_dm + created * one_if(kind, RoomType::Dm),
            created_public: totals.created_public + created * one_if(kind, RoomType::Public),
            created_private: totals.created_private + created * one_if(kind, RoomType::Private),
            oldest_ts: earliest(totals.oldest_ts, stats.oldest_ts),
            newest_ts: latest(totals.newest_ts, stats.newest_ts),
            active_dates: totals.active_dates.union(stats.active_dates),
            rows: totals.rows.push(
                RowModel { room_id, room_name, room_type: kind, messages: stats.user_events },
            ),
            active_rooms: totals.active_rooms + 1,
        }
    }
}

/// The totals with the room of `input`.
pub open spec fn with_input(totals: Totals, input: RoomStatsInput) -> Totals {
    with_room(totals, input.room_id@, text_of(input.room_name), input.room_type, input.stats@)
}

/// What the rooms add up to.
pub open spec fn totals_of(rooms: Seq<RoomStatsInput>) -> Totals
    decreases rooms.len(),
{
    if rooms.len() == 0 {
        no_totals()
    } else {
        with_input(totals_of(rooms.drop_last()), rooms.last())
    }
}

/// `n` is at least 0 and fits in an `i32`.
pub open spec fn fits(n: int) -> bool {
    0 <= n <= i32::MAX
}

impl Totals {
    /// Every number is at least 0 and fits in an `i32`.
    pub open spec fn fits(self) -> bool {
        &&& counts_fit(self.by_year)
        &&& counts_fit(self.by_month)
        &&& counts_fit(self.by_week)
        &&& counts_fit(self.by_weekday)
        &&& counts_fit(self.by_day)
        &&& counts_fit(self.by_hour)
        &&& counts_fit(self.by_emoji)
        &&& counts_fit(self.by_message)
        &&& fits(self.dm_count)
        &&& fits(self.public_count)
        &&& fits(self.private_count)
        &&& fits(self.dm_messages)
        &&& fits(self.public_messages)
        &&& fits(self.private_messages)
        &&& fits(self.created_total)
        &&& fits(self.created_dm)
        &&& fits(self.created_public)
        &&& fits(self.created_private)
        &&& fits(self.active_rooms)
        &&& forall|i: int| 0 <= i < self.rows.len() ==> fits((#[trigger] self.rows[i]).messages)
    }

    /// No number is negative.
    pub open spec fn nonneg(self) -> bool {
        &&& counts_nonneg(self.by_year)
        &&& counts_nonneg(self.by_month)
        &&& counts_nonneg(self.by_week)
        &&& counts_nonneg(self.by_weekday)
        &&& counts_nonneg(self.by_day)
        &&& counts_nonneg(self.by_hour)
        &&& counts_nonneg(self.by_emoji)
        &&& counts_nonneg(self.by_message)
        &&& 0 <= self.dm_count
        &&& 0 <= self.public_count
        &&& 0 <= self.private_count
        &&& 0 <= self.dm_messages
        &&& 0 <= self.public_messages
        &&& 0 <= self.private_messages
        &&& 0 <= self.created_dm <= self.created_total
        &&& 0 <= self.created_public <= self.created_total
        &&& 0 <= self.created_private <= self.created_total
        &&& 0 <= self.active_rooms
        &&& forall|i: int| 0 <= i < self.rows.len() ==> 0 <= (#[trigger] self.rows[i]).messages
    }
}

/// No count is negative.
pub open spec fn counts_nonneg(counts: Map<Seq<char>, int>) -> bool {
    forall|k: Seq<char>| 0 <= #[trigger] read_count(counts, k)
}

/// Every count of the statistics of a room is at least 0.
pub open spec fn stats_nonneg(stats: StatsView) -> bool {
    &&& counts_nonneg(stats.by_year)
    &&& counts_nonneg(stats.by_month)
    &&& counts_nonneg(stats.by_week)
    &&& counts_nonneg(stats.by_weekday)
    &&& counts_nonneg(stats.by_day)
    &&& counts_nonneg(stats.by_hour)
    &&& counts_nonneg(stats.reactions_by_emoji)
    &&& counts_nonneg(stats.reactions_by_message)
    &&& 0 <= stats.user_events
}

/// Totals that fit with one more room fit without it.
pub proof fn lemma_fits_without(
    totals: Totals,
    room_id: Seq<char>,
    room_name: Option<Seq<char>>,
    kind: RoomType,
    stats: StatsView,
)
    requires
        totals.nonneg(),
        stats_nonneg(stats),
        with_room(totals, room_id, room_name, kind, stats).fits(),
    ensures
        totals.fits(),
        with_room(totals, room_id, room_name, kind, stats).nonneg(),
{
    let more = with_room(totals, room_id, room_name, kind, stats);
    if stats.user_events != 0 {
        lemma_merged_fits(totals.by_year, stats.by_year);
        lemma_merged_fits(totals.by_month, stats.by_month);
        lemma_merged_fits(totals.by_week, stats.by_week);
        lemma_merged_fits(totals.by_weekday, stats.by_weekday);
        lemma_merged_fits(totals.by_day, stats.by_day);
        lemma_merged_fits(totals.by_hour, stats.by_hour);
        lemma_merged_fits(totals.by_emoji, stats.reactions_by_emoji);
        lemma_merged_fits(totals.by_message, stats.reactions_by_message);
        assert forall|i: int| 0 <= i < totals.rows.len() implies fits(
            (#[trigger] totals.rows[i]).messages,
        ) by {
            assert(more.rows[i] == totals.rows[i]);
        }
        assert forall|i: int| 0 <= i < more.rows.len() implies 0 <= (#[trigger] more.rows[i]).messages by {
            if i < totals.rows.len() {
                assert(more.rows[i] == totals.rows[i]);
            }
        }
    }
}

/// Sums of counts that are not negative are not negative, and where the
/// sums fit, the counts of the first map fit.
proof fn lemma_merged_fits(a: Map<Seq<char>, int>, b: Map<Seq<char>, int>)
    requires
        counts_nonneg(a),
        counts_nonneg(b),
    ensures
        counts_nonneg(merged(a, b)),
        counts_fit(merged(a, b)) ==> counts_fit(a),
{
    assert forall|k: Seq<char>| 0 <= #[trigger] read_count(merged(a, b), k) by {
        assert(0 <= read_count(a, k) && 0 <= read_count(b, k));
    }
    if counts_fit(merged(a, b)) {
        assert forall|k: Seq<char>| 0 <= #[trigger] read_count(a, k) <= i32::MAX by {
            assert(0 <= read_count(b, k));
            assert(read_count(merged(a, b), k) <= i32::MAX);
        }
    }
}

/// What the rooms taken in so far add up to.
#[derive(Debug)]
pub struct Aggregates {
    pub temporal: TemporalAggregates,
    pub reactions: ReactionAggregates,
    pub room_types: RoomTypeMetrics,
    pub created_rooms: CreatedRoomMetrics,
    pub coverage: CoverageBounds,
    /// The rooms in which the account wrote, in their order.
    pub room_message_counts: Vec<RoomRow>,
    pub active_rooms_count: i32,
}

impl View for Aggregates {
    type V = Totals;

    open spec fn view(&self) -> Totals {
        Totals {
            by_year: self.temporal.by_year@,
            by_month: self.temporal.by_month@,
            by_week: self.temporal.by_week@,
            by_weekday: self.temporal.by_weekday@,
            by_day: self.temporal.by_day@,
            by_hour: self.temporal.by_hour@,
            by_emoji: self.reactions.by_emoji@,
            by_message: self.reactions.by_message@,
            dm_count: self.room_types.dm_count as int,
            public_count: self.room_types.public_count as int,
            private_count: self.room_types.private_count as int,
            dm_messages: self.room_types.dm_messages as int,
            public_messages: self.room_types.public_messages as int,
            private_messages: self.room_types.private_messages as int,
            created_total: self.created_rooms.total as int,
            created_dm: self.created_rooms.dm as int,
            created_public: self.created_rooms.public as int,
            created_private: self.created_rooms.private as int,
            oldest_ts: self.coverage.oldest_ts,
            newest_ts: self.coverage.newest_ts,
            active_dates: self.coverage.active_dates@,
            rows: rows_of(self.room_message_counts@),
            active_rooms: self.active_rooms_count as int,
        }
    }
}

impl Aggregates {
    /// Every part is in order and every number is at least 0.
    pub open spec fn wf(&self) -> bool {
        &&& self.temporal.wf()
        &&& self.reactions.wf()
        &&& self.room_types.wf()
        &&& self.created_rooms.wf()
        &&& self.coverage.wf()
        &&& self@.fits()
    }

    /// The totals of no rooms.
    pub fn new() -> (empty: Aggregates)
        ensures
            empty.wf(),
            empty@ == no_totals(),
    {
        let empty = Aggregates {
            temporal: TemporalAggregates::new(),
            reactions: ReactionAggregates::new(),
            room_types: RoomTypeMetrics::new(),
            created_rooms: CreatedRoomMetrics::new(),
            coverage: CoverageBounds::new(),
            room_message_counts: Vec::new(),
            active_rooms_count: 0,
        };
        assert(rows_of(empty.room_message_counts@) =~= Seq::<RowModel>::empty());
        empty
    }

    /// Takes in one room. Fails when a number of the totals would not fit
    /// in an `i32`; the totals are then of no use.
    pub fn absorb(&mut self, room: &RoomStatsInput) -> (done: Result<(), StatsError>)
        requires
            old(self).wf(),
            room.stats.wf(),
        ensures
            done is Ok <==> with_input(old(self)@, *room).fits(),
            done is Ok ==> final(self).wf() && final(self)@ == with_input(old(self)@, *room),
    {
        let events = room.stats.user_events;
        if events == 0 {
            return Ok(());
        }
        let ghost more = with_input(self@, *room);
        let ghost rows = rows_of(self.room_message_counts@);
        assert(more.rows.last().messages == events);
        if events > i32::MAX as usize {
            return Err(StatsError::CountOverflow);
        }
        let user_messages = events as i32;
        if self.active_rooms_count == i32::MAX {
            return Err(StatsError::CountOverflow);
        }
        self.active_rooms_count = self.active_rooms_count + 1;
        if self.temporal.aggregate_from(&room.stats).is_err() {
            return Err(StatsError::CountOverflow);
        }
        if self.reactions.aggregate_from(&room.stats).is_err() {
            return Err(StatsError::CountOverflow);
        }
        if self.room_types.record(room.room_type, user_messages).is_err() {
            return Err(StatsError::CountOverflow);
        }
        if room.stats.room_created_by_user {
            if self.created_rooms.record(room.room_type).is_err() {
                return Err(StatsError::CountOverflow);
            }
        }
        self.coverage.update_from(&room.stats);
        self.room_message_counts.push(
            RoomRow {
                room_id: room.room_id.clone(),
                room_name: copy_text(&room.room_name),
                room_type: room.room_type,
                messages: user_messages,
            },
        );
        proof {
            assert(rows_of(self.room_message_counts@) =~= more.rows);
            assert forall|i: int| 0 <= i < more.rows.len() implies fits(
                (#[trigger] more.rows[i]).messages,
            ) by {
                if i < rows.len() {
                    assert(more.rows[i] == rows[i]);
                }
            }
        }
        Ok(())
    }
}

/// The statistics of every room are in order.
pub open spec fn inputs_wf(rooms: Seq<RoomStatsInput>) -> bool {
    forall|i: int| 0 <= i < rooms.len() ==> (#[trigger] rooms[i]).stats.wf()
}

/// The counts of statistics in order are at least 0.
pub proof fn lemma_stats_nonneg(stats: DetailedPaginationStats)
    requires
        stats.wf(),
    ensures
        stats_nonneg(stats@),
{
    stats.by_year.lemma_fit();
    stats.by_month.lemma_fit();
    stats.by_week.lemma_fit();
    stats.by_weekday.lemma_fit();
    stats.by_day.lemma_fit();
    stats.by_hour.lemma_fit();
    stats.reactions_by_emoji.lemma_fit();
    stats.reactions_by_message.lemma_fit();
}

/// No total is negative.
pub proof fn lemma_totals_nonneg(rooms: Seq<RoomStatsInput>)
    requires
        inputs_wf(rooms),
    ensures
        totals_of(rooms).nonneg(),
    decreases rooms.len(),
{
    if rooms.len() > 0 {
        let rest = rooms.drop_last();
        assert forall|i: int| 0 <= i < rest.len() implies (#[trigger] rest[i]).stats.wf() by {
            assert(rest[i] == rooms[i]);
        }
        lemma_totals_nonneg(rest);
        let room = rooms.last();
        lemma_stats_nonneg(room.stats);
        let before = totals_of(rest);
        let after = totals_of(rooms);
        if room.stats@.user_events != 0 {
            lemma_merged_fits(before.by_year, room.stats@.by_year);
            lemma_merged_fits(before.by_month, room.stats@.by_month);
            lemma_merged_fits(before.by_week, room.stats@.by_week);
            lemma_merged_fits(before.by_weekday, room.stats@.by_weekday);
            lemma_merged_fits(before.by_day, room.stats@.by_day);
            lemma_merged_fits(before.by_hour, room.stats@.by_hour);
            lemma_merged_fits(before.by_emoji, room.stats@.reactions_by_emoji);
            lemma_merged_fits(before.by_message, room.stats@.reactions_by_message);
            assert forall|i: int| 0 <= i < after.rows.len() implies 0 <= (
            #[trigger] after.rows[i]).messages by {
                if i < before.rows.len() {
                    assert(after.rows[i] == before.rows[i]);
                }
            }
        }
    }
}

/// Where the totals of all rooms fit, the totals of the first `n` fit.
pub proof fn lemma_totals_fit_before(rooms: Seq<RoomStatsInput>, n: int)
    requires
        inputs_wf(rooms),
        0 <= n <= rooms.len(),
        totals_of(rooms).fits(),
    ensures
        totals_of(rooms.take(n)).fits(),
    decreases rooms.len() - n,
{
    if n == rooms.len() {
        assert(rooms.take(n) =~= rooms);
    } else {
        lemma_totals_fit_before(rooms, n + 1);
        let more = rooms.take(n + 1);
        assert(more.drop_last() =~= rooms.take(n));
        assert(more.last() == rooms[n]);
        assert forall|i: int| 0 <= i < rooms.take(n).len() implies (
        #[trigger] rooms.take(n)[i]).stats.wf() by {
            assert(rooms.take(n)[i] == rooms[i]);
        }
        lemma_totals_nonneg(rooms.take(n));
        lemma_stats_nonneg(rooms[n].stats);
        lemma_fits_without(
            totals_of(rooms.take(n)),
            rooms[n].room_id@,
            text_of(rooms[n].room_name),
            rooms[n].room_type,
            rooms[n].stats@,
        );
    }
}

/// What the rooms add up to. Fails when a number of the totals does not
/// fit in an `i32`.
pub fn aggregate(room_inputs: &Vec<RoomStatsInput>) -> (done: Result<Aggregates, StatsError>)
    requires
        inputs_wf(room_inputs@),
    ensures
        done is Ok <==> totals_of(room_inputs@).fits(),
        done matches Ok(totals) ==> totals.wf() && totals@ == totals_of(room_inputs@),
{
    let mut totals = Aggregates::new();
    let mut i: usize = 0;
    assert(room_inputs@.take(0) =~= Seq::<RoomStatsInput>::empty());
    while i < room_inputs.len()
        invariant
            inputs_wf(room_inputs@),
            i <= room_inputs@.len(),
            totals.wf(),
            totals@ == totals_of(room_inputs@.take(i as int)),
        decreases room_inputs@.len() - i,
    {
        proof {
            let more = room_inputs@.take(i + 1);
            assert(more.drop_last() =~= room_inputs@.take(i as int));
            assert(more.last() == room_inputs@[i as int]);
        }
        if totals.absorb(&room_inputs[i]).is_err() {
            proof {
                if totals_of(room_inputs@).fits() {
                    lemma_totals_fit_before(room_inputs@, i + 1);
                }
            }
            return Err(StatsError::CountOverflow);
        }
        i = i + 1;
    }
    assert(room_inputs@.take(i as int) =~= room_inputs@);
    Ok(totals)
}

/// The sum of the counts of a ranking.
pub open spec fn sum_counts(top: Seq<(Seq<char>, int)>) -> int
    decreases top.len(),
{
    if top.len() == 0 {
        0
    } else {
        sum_counts(top.drop_last()) + top.last().1
    }
}

/// Of two entries with different keys one ranks before the other, and
/// never both.
pub proof fn lemma_ranks_total(a: (Seq<char>, int), b: (Seq<char>, int))
    ensures
        a.0 != b.0 ==> ranks_first(a, b) || ranks_first(b, a),
        !(ranks_first(a, b) && ranks_first(b, a)),
        !ranks_first(a, a),
{
    lemma_lex_total(a.0, b.0);
    lemma_lex_irreflexive(a.0);
}

/// The entries of a map that rank first are one sequence only.
pub proof fn lemma_top_unique(
    counts: Map<Seq<char>, int>,
    cap: int,
    a: Seq<(Seq<char>, int)>,
    b: Seq<(Seq<char>, int)>,
)
    requires
        is_top_of(counts, cap, a),
        is_top_of(counts, cap, b),
    ensures
        a == b,
{
    if a.len() <= b.len() {
        lemma_top_prefix(counts, cap, a, b, a.len() as int);
        lemma_top_length(counts, cap, a, b);
    } else {
        lemma_top_prefix(counts, cap, b, a, b.len() as int);
        lemma_top_length(counts, cap, b, a);
    }
    assert(a =~= b);
}

/// Two listings of the entries that rank first agree at every place that
/// both have.
proof fn lemma_top_prefix(
    counts: Map<Seq<char>, int>,
    cap: int,
    a: Seq<(Seq<char>, int)>,
    b: Seq<(Seq<char>, int)>,
    n: int,
)
    requires
        is_top_of(counts, cap, a),
        is_top_of(counts, cap, b),
        0 <= n <= a.len() <= b.len(),
    ensures
        forall|i: int| 0 <= i < n ==> a[i] == b[i],
    decreases n,
{
    if n > 0 {
        lemma_top_prefix(counts, cap, a, b, n - 1);
        let k = n - 1;
        let x = a[k];
        let y = b[k];
        lemma_ranks_total(x, y);
        if x.0 != y.0 {
            assert(counts.dom().contains(x.0) && counts[x.0] == x.1);
            assert(counts.dom().contains(y.0) && counts[y.0] == y.1);
            // `y` ranks before `x`
            if listed(b, x.0) {
                let j = choose|j: int| 0 <= j < b.len() && (#[trigger] b[j]).0 == x.0;
                assert(b[j] == x);
                if j < k {
                    assert(a[j] == b[j]);
                    assert(ranks_first(a[j], a[k]));
                    lemma_ranks_total(x, x);
                } else {
                    assert(ranks_first(b[k], b[j]));
                }
            } else {
                assert(ranks_first(b[k], (x.0, counts[x.0])));
            }
            // and `x` ranks before `y`
            if listed(a, y.0) {
                let j = choose|j: int| 0 <= j < a.len() && (#[trigger] a[j]).0 == y.0;
                assert(a[j] == y);
                if j < k {
                    assert(a[j] == b[j]);
                    assert(ranks_first(b[j], b[k]));
                    lemma_ranks_total(y, y);
                } else {
                    assert(ranks_first(a[k], a[j]));
                }
            } else {
                assert(ranks_first(a[k], (y.0, counts[y.0])));
            }
        }
    }
}

/// Two listings of the entries that rank first are equally long.
proof fn lemma_top_length(
    counts: Map<Seq<char>, int>,
    cap: int,
    a: Seq<(Seq<char>, int)>,
    b: Seq<(Seq<char>, int)>,
)
    requires
        is_top_of(counts, cap, a),
        is_top_of(counts, cap, b),
        a.len() <= b.len(),
        forall|i: int| 0 <= i < a.len() ==> a[i] == b[i],
    ensures
        a.len() == b.len(),
{
    if a.len() < b.len() {
        let extra = b[a.len() as int];
        assert(counts.dom().contains(extra.0));
        assert(listed(a, extra.0));
        let j = choose|j: int| 0 <= j < a.len() && (#[trigger] a[j]).0 == extra.0;
        assert(a[j] == b[j]);
        assert(ranks_first(b[j], b[a.len() as int]));
        assert(counts[b[j].0] == b[j].1);
        lemma_ranks_total(extra, extra);
    }
}

/// The messages of the account in rooms of all kinds.
pub open spec fn messages_sent(totals: Totals) -> int {
    totals.dm_messages + totals.public_messages + totals.private_messages
}

/// Whether every number of the document for `totals` fits in an `i32`.
pub open spec fn document_fits(totals: Totals, total_rooms: int) -> bool {
    &&& messages_sent(totals) <= i32::MAX
    &&& total_rooms <= i32::MAX
    &&& totals.active_dates.len() <= i32::MAX
    &&& forall|top: Seq<(Seq<char>, int)>|
        #[trigger] is_top_of(totals.by_emoji, 5, top) ==> sum_counts(top) <= i32::MAX
}

/// The counts of an optional map.
pub open spec fn shown(map: Option<CountMap>) -> Option<Map<Seq<char>, int>> {
    match map {
        Some(m) => Some(m@),
        None => None,
    }
}

/// `counts` where it has keys.
pub open spec fn present(counts: Map<Seq<char>, int>) -> Option<Map<Seq<char>, int>> {
    if counts.dom().len() > 0 {
        Some(counts)
    } else {
        None
    }
}

/// Whether `activity` shows the buckets of `totals`: each family that has
/// buckets, and nothing at all where the account sent no message.
pub open spec fn describes_activity(activity: Option<Activity>, totals: Totals) -> bool {
    match activity {
        None => messages_sent(totals) == 0,
        Some(a) => {
            &&& messages_sent(totals) != 0
            &&& shown(a.by_year) == present(totals.by_year)
            &&& shown(a.by_month) == present(totals.by_month)
            &&& shown(a.by_week) == present(totals.by_week)
            &&& shown(a.by_weekday) == present(totals.by_weekday)
            &&& shown(a.by_day) == present(totals.by_day)
            &&& shown(a.by_hour) == present(totals.by_hour)
        },
    }
}

/// The entries of an optional vector of rooms.
pub open spec fn listed_rooms(top: Option<Vec<RoomEntry>>) -> Seq<RoomEntry> {
    match top {
        Some(v) => v@,
        None => Seq::empty(),
    }
}

/// Whether `rooms` shows the rooms of `totals`: how many the account wrote
/// in, its messages by kind of room, and the five it wrote in most.
pub open spec fn describes_rooms(rooms: Option<Rooms>, totals: Totals, picks: Seq<usize>) -> bool {
    match rooms {
        None => totals.active_rooms == 0,
        Some(r) => {
            &&& totals.active_rooms != 0
            &&& r.total == totals.active_rooms
            &&& r.messages_by_room_type == Some(
                MessagesByRoomType {
                    dm: positive(totals.dm_messages),
                    public: positive(totals.public_messages),
                    private: positive(totals.private_messages),
                },
            )
            &&& (r.top matches Some(v) ==> v@.len() > 0)
            &&& are_top_rooms(totals.rows, messages_sent(totals) as i32, listed_rooms(r.top), picks)
        },
    }
}

/// The entries of an optional vector of emojis.
pub open spec fn listed_emojis(top: Option<Vec<EmojiEntry>>) -> Seq<(Seq<char>, int)> {
    match top {
        Some(v) => emoji_views(v@),
        None => Seq::empty(),
    }
}

/// The entries of an optional vector of messages.
pub open spec fn listed_messages(top: Option<Vec<MessageReactionEntry>>) -> Seq<(Seq<char>, int)> {
    match top {
        Some(v) => message_views(v@),
        None => Seq::empty(),
    }
}

/// Whether `reactions` shows the reactions of `totals`: the five emojis
/// and the five messages with the most reactions, and as the total the
/// reactions with those emojis; nothing where that total is 0.
pub open spec fn describes_reactions(
    reactions: Option<Reactions>,
    totals: Totals,
    emojis: Seq<(Seq<char>, int)>,
    messages: Seq<(Seq<char>, int)>,
    ranked: Seq<(Seq<char>, int)>,
) -> bool {
    &&& is_top_of(totals.by_emoji, 5, emojis)
    &&& are_top_messages(totals.by_message, messages, ranked)
    &&& match reactions {
        None => sum_counts(emojis) == 0,
        Some(r) => {
            &&& sum_counts(emojis) != 0
            &&& r.total == Some(sum_counts(emojis) as i32)
            &&& listed_emojis(r.top_emojis) == emojis
            &&& (r.top_emojis matches Some(v) ==> v@.len() > 0)
            &&& listed_messages(r.top_messages) == messages
            &&& (r.top_messages matches Some(v) ==> v@.len() > 0)
        },
    }
}

/// Whether `doc` is the document for `totals`, made on `generated_on` for
/// the account and the window given. `oldest_local` and `newest_local` are
/// the local times of the oldest and the newest event.
pub open spec fn describes(
    doc: Stats,
    totals: Totals,
    account_id: Seq<char>,
    display_name: Option<Seq<char>>,
    avatar_url: Option<Seq<char>>,
    scope: ScopeView,
    total_rooms: int,
    generated_on: CivilDate,
    oldest_local: Option<LocalStamp>,
    newest_local: Option<LocalStamp>,
) -> bool {
    &&& doc.schema_version == 1
    &&& doc.scope.kind == scope.scope_type
    &&& doc.scope.key@ == scope.key
    &&& doc.scope.label is None
    &&& doc.generated_at@ == date_text(generated_on)
    &&& doc.account.user_id@ == account_id
    &&& text_of(doc.account.display_name) == display_name
    &&& text_of(doc.account.avatar_url) == avatar_url
    &&& doc.account.rooms_total == total_rooms
    &&& (doc.coverage.from@, doc.coverage.to@) == coverage_days(
        totals.oldest_ts,
        totals.newest_ts,
        scope.from,
        scope.to,
        oldest_local,
        newest_local,
    )
    &&& doc.coverage.days_active == positive(totals.active_dates.len() as int)
    &&& doc.summary.messages_sent == messages_sent(totals)
    &&& doc.summary.active_rooms == totals.active_rooms
    &&& doc.summary.dm_rooms == positive(totals.dm_count)
    &&& doc.summary.public_rooms == positive(totals.public_count)
    &&& doc.summary.private_rooms == positive(totals.private_count)
    &&& are_peaks(
        totals.by_year,
        totals.by_month,
        totals.by_week,
        totals.by_day,
        totals.by_hour,
        doc.summary.peaks,
    )
    &&& describes_activity(doc.activity, totals)
    &&& exists|picks: Seq<usize>| #[trigger] describes_rooms(doc.rooms, totals, picks)
    &&& exists|
        emojis: Seq<(Seq<char>, int)>,
        messages: Seq<(Seq<char>, int)>,
        ranked: Seq<(Seq<char>, int)>,
    | #[trigger] describes_reactions(doc.reactions, totals, emojis, messages, ranked)
    &&& doc.created_rooms == if totals.created_total == 0 {
        None::<CreatedRooms>
    } else {
        Some(
            CreatedRooms {
                total: totals.created_total as i32,
                dm_rooms: positive(totals.created_dm),
                public_rooms: positive(totals.created_public),
                private_rooms: positive(totals.created_private),
            },
        )
    }
}

/// The sum of the counts of at most five entries.
fn sum_of(top: &Vec<EmojiEntry>) -> (total: i64)
    requires
        top@.len() <= 5,
    ensures
        total == sum_counts(emoji_views(top@)),
{
    let mut total: i64 = 0;
    let mut i: usize = 0;
    let ghost all = emoji_views(top@);
    assert(all.take(0) =~= Seq::<(Seq<char>, int)>::empty());
    while i < top.len()
        invariant
            i <= top@.len() <= 5,
            all == emoji_views(top@),
            total == sum_counts(all.take(i as int)),
            -(i as int) * 0x8000_0000 <= total <= i * 0x8000_0000,
        decreases top@.len() - i,
    {
        proof {
            assert(all.take(i + 1).drop_last() =~= all.take(i as int));
            assert(all.take(i + 1).last() == top@[i as int]@);
        }
        total = total + top[i].count as i64;
        i = i + 1;
    }
    assert(all.take(i as int) =~= all);
    total
}

/// The document for the totals of the rooms, made on `generated_on`.
/// Fails when a number of the document does not fit in an `i32`.
pub fn assemble(
    totals: Aggregates,
    account_id: &str,
    account_display_name: Option<String>,
    account_avatar_url: Option<String>,
    window_scope: &WindowScope,
    total_rooms: usize,
    generated_on: CivilDate,
    oldest_local: Option<LocalStamp>,
    newest_local: Option<LocalStamp>,
) -> (built: Result<Stats, StatsError>)
    requires
        totals.wf(),
        window_scope.wf(),
        generated_on.valid(),
        oldest_local matches Some(stamp) ==> stamp.valid(),
        newest_local matches Some(stamp) ==> stamp.valid(),
    ensures
        built is Ok <==> document_fits(totals@, total_rooms as int),
        built matches Ok(doc) ==> describes(
            doc,
            totals@,
            account_id@,
            text_of(account_display_name),
            text_of(account_avatar_url),
            window_scope@,
            total_rooms as int,
            generated_on,
            oldest_local,
            newest_local,
        ),
{
    let ghost model = totals@;
    let top_emojis = rank_top_emojis(&totals.reactions.by_emoji);
    let reactions_sum = sum_of(&top_emojis);
    proof {
        assert forall|top: Seq<(Seq<char>, int)>| #[trigger]
            is_top_of(model.by_emoji, 5, top) implies top == emoji_views(top_emojis@) by {
            lemma_top_unique(model.by_emoji, 5, top, emoji_views(top_emojis@));
        }
    }
    let messages_sent = match totals.room_types.total_messages() {
        Ok(n) => n,
        Err(e) => {
            return Err(e);
        },
    };
    if total_rooms > i32::MAX as usize {
        return Err(StatsError::CountOverflow);
    }
    if reactions_sum > i32::MAX as i64 {
        return Err(StatsError::CountOverflow);
    }
    let (coverage_from, coverage_to, days_active) = match compute_coverage_bounds_at(
        &totals.coverage,
        window_scope,
        oldest_local,
        newest_local,
    ) {
        Ok(bounds) => bounds,
        Err(e) => {
            return Err(e);
        },
    };
    proof {
        totals.reactions.by_emoji.lemma_fit();
        lemma_sum_nonneg(emoji_views(top_emojis@), model.by_emoji);
    }
    let total_reactions = reactions_sum as i32;
    let peaks = compute_peaks(
        &totals.temporal.by_year,
        &totals.temporal.by_month,
        &totals.temporal.by_week,
        &totals.temporal.by_day,
        &totals.temporal.by_hour,
    );
    let top_rooms = rank_top_rooms(&totals.room_message_counts, messages_sent);
    let top_messages = rank_top_messages(&totals.reactions.by_message);
    let ghost picks = choose|picks: Seq<usize>| #[trigger]
        are_top_rooms(model.rows, messages_sent, top_rooms@, picks);
    let ghost emojis = emoji_views(top_emojis@);
    let ghost messages = message_views(top_messages@);
    let ghost ranked = choose|ranked: Seq<(Seq<char>, int)>| #[trigger]
        are_top_messages(model.by_message, messages, ranked);
    let rooms = build_rooms_section(top_rooms, &totals.room_types, totals.active_rooms_count);
    let reactions = build_reactions_section(top_emojis, top_messages, total_reactions);
    let created_rooms = build_created_rooms_section(&totals.created_rooms);
    let room_types = totals.room_types;
    let active_rooms = totals.active_rooms_count;
    proof {
        totals.temporal.by_year.lemma_len();
        totals.temporal.by_month.lemma_len();
        totals.temporal.by_week.lemma_len();
        totals.temporal.by_weekday.lemma_len();
        totals.temporal.by_day.lemma_len();
        totals.temporal.by_hour.lemma_len();
    }
    let activity = build_activity_section(totals.temporal, messages_sent);
    let doc = Stats {
        schema_version: 1,
        scope: Scope {
            kind: window_scope.scope_type,
            key: window_scope.key.clone(),
            label: None,
        },
        generated_at: date_string(generated_on),
        account: Account {
            user_id: account_id.to_owned(),
            display_name: copy_text(&account_display_name),
            avatar_url: copy_text(&account_avatar_url),
            rooms_total: total_rooms as i32,
        },
        coverage: Coverage { from: coverage_from, to: coverage_to, days_active },
        summary: Summary {
            messages_sent,
            active_rooms,
            dm_rooms: if_positive(room_types.dm_count),
            public_rooms: if_positive(room_types.public_count),
            private_rooms: if_positive(room_types.private_count),
            peaks,
        },
        activity,
        rooms,
        reactions,
        created_rooms,
    };
    proof {
        assert(describes_activity(doc.activity, model));
        assert(describes_rooms(doc.rooms, model, picks));
        if emojis.len() == 0 {
            assert(emojis =~= Seq::<(Seq<char>, int)>::empty());
        }
        if messages.len() == 0 {
            assert(messages =~= Seq::<(Seq<char>, int)>::empty());
        }
        assert(describes_reactions(doc.reactions, model, emojis, messages, ranked));
    }
    Ok(doc)
}

/// The counts of a ranking of a map without negative counts add up to no
/// less than 0.
proof fn lemma_sum_nonneg(top: Seq<(Seq<char>, int)>, counts: Map<Seq<char>, int>)
    requires
        counts_fit(counts),
        forall|i: int|
            0 <= i < top.len() ==> counts.dom().contains((#[trigger] top[i]).0) && counts[top[i].0]
                == top[i].1,
    ensures
        0 <= sum_counts(top),
    decreases top.len(),
{
    if top.len() > 0 {
        let rest = top.drop_last();
        assert forall|i: int| 0 <= i < rest.len() implies counts.dom().contains(
            (#[trigger] rest[i]).0,
        ) && counts[rest[i].0] == rest[i].1 by {
            assert(rest[i] == top[i]);
        }
        lemma_sum_nonneg(rest, counts);
        let last = top[top.len() - 1];
        assert(0 <= read_count(counts, last.0));
    }
}

/// A room adds its user events to the messages sent, and counts as an
/// active room where the account wrote in it.
pub proof fn lemma_room_adds(totals: Totals, input: RoomStatsInput)
    ensures
        messages_sent(with_input(totals, input)) == messages_sent(totals)
            + input.stats@.user_events,
        with_input(totals, input).active_rooms == totals.active_rooms + if input.stats@.user_events
            == 0 {
            0int
        } else {
            1int
        },
{
}

/// The totals of a single room in which the account wrote are the numbers
/// of that room: its user events as the messages sent, one active room, its
/// buckets, its active dates and its coverage.
pub proof fn lemma_totals_of_one_room(input: RoomStatsInput)
    requires
        input.stats@.user_events != 0,
    ensures
        ({
            let totals = totals_of(seq![input]);
            let stats = input.stats@;
            &&& messages_sent(totals) == stats.user_events
            &&& totals.active_rooms == 1
            &&& totals.active_dates == stats.active_dates
            &&& totals.by_year == stats.by_year
            &&& totals.by_month == stats.by_month
            &&& totals.by_week == stats.by_week
            &&& totals.by_weekday == stats.by_weekday
            &&& totals.by_day == stats.by_day
            &&& totals.by_hour == stats.by_hour
            &&& totals.by_emoji == stats.reactions_by_emoji
            &&& totals.by_message == stats.reactions_by_message
            &&& totals.oldest_ts == stats.oldest_ts
            &&& totals.newest_ts == stats.newest_ts
        }),
{
    let rooms = seq![input];
    let totals = totals_of(rooms);
    let stats = input.stats@;
    assert(rooms.drop_last() =~= Seq::<RoomStatsInput>::empty());
    assert(rooms.last() == input);
    assert(totals_of(rooms.drop_last()) == no_totals());
    assert(totals == with_input(no_totals(), input));
    assert(totals.active_dates =~= stats.active_dates);
    assert(totals.by_year =~= stats.by_year);
    assert(totals.by_month =~= stats.by_month);
    assert(totals.by_week =~= stats.by_week);
    assert(totals.by_weekday =~= stats.by_weekday);
    assert(totals.by_day =~= stats.by_day);
    assert(totals.by_hour =~= stats.by_hour);
    assert(totals.by_emoji =~= stats.reactions_by_emoji);
    assert(totals.by_message =~= stats.reactions_by_message);
}

/// The document of a single room in which the account wrote shows that
/// room: its user events as the messages sent, one active room, as many
/// active days as the room has active dates, and the peaks of its buckets.
pub proof fn lemma_document_of_one_room(
    doc: Stats,
    input: RoomStatsInput,
    account_id: Seq<char>,
    display_name: Option<Seq<char>>,
    avatar_url: Option<Seq<char>>,
    scope: ScopeView,
    total_rooms: int,
    generated_on: CivilDate,
    oldest_local: Option<LocalStamp>,
    newest_local: Option<LocalStamp>,
)
    requires
        input.stats@.user_events != 0,
        describes(
            doc,
            totals_of(seq![input]),
            account_id,
            display_name,
            avatar_url,
            scope,
            total_rooms,
            generated_on,
            oldest_local,
            newest_local,
        ),
    ensures
        doc.summary.messages_sent == input.stats@.user_events,
        doc.summary.active_rooms == 1,
        doc.coverage.days_active == positive(input.stats@.active_dates.len() as int),
        are_peaks(
            input.stats@.by_year,
            input.stats@.by_month,
            input.stats@.by_week,
            input.stats@.by_day,
            input.stats@.by_hour,
            doc.summary.peaks,
        ),
        doc.activity is Some,
        doc.rooms matches Some(rooms) && rooms.total == 1,
{
    lemma_totals_of_one_room(input);
}

/// The statistics document of an account: what its crawled rooms add up
/// to, for the window given. The date of the document and the local dates
/// of the coverage come from the machine's clock and time zone. Fails when
/// a number of the document does not fit in an `i32`.
pub fn build_stats(
    room_inputs: Vec<RoomStatsInput>,
    account_id: &str,
    account_display_name: Option<String>,
    account_avatar_url: Option<String>,
    window_scope: &WindowScope,
    total_rooms: usize,
) -> (built: Result<Stats, StatsError>)
    requires
        inputs_wf(room_inputs@),
        window_scope.wf(),
    ensures
        built is Ok <==> totals_of(room_inputs@).fits() && document_fits(
            totals_of(room_inputs@),
            total_rooms as int,
        ),
        built matches Ok(doc) ==> exists|
            generated_on: CivilDate,
            oldest_local: Option<LocalStamp>,
            newest_local: Option<LocalStamp>,
        |
            {
                &&& generated_on.valid()
                &&& (oldest_local is Some <==> has_local(totals_of(room_inputs@).oldest_ts))
                &&& (newest_local is Some <==> has_local(totals_of(room_inputs@).newest_ts))
                &&& (oldest_local matches Some(stamp) ==> stamp.valid())
                &&& (newest_local matches Some(stamp) ==> stamp.valid())
                &&& #[trigger] describes(
                    doc,
                    totals_of(room_inputs@),
                    account_id@,
                    text_of(account_display_name),
                    text_of(account_avatar_url),
                    window_scope@,
                    total_rooms as int,
                    generated_on,
                    oldest_local,
                    newest_local,
                )
            },
{
    let totals = match aggregate(&room_inputs) {
        Ok(totals) => totals,
        Err(e) => {
            return Err(e);
        },
    };
    let generated_on = today_local();
    let oldest_local = match totals.coverage.oldest_ts {
        Some(ts) => local_stamp(ts),
        None => None,
    };
    let newest_local = match totals.coverage.newest_ts {
        Some(ts) => local_stamp(ts),
        None => None,
    };
    assemble(
        totals,
        account_id,
        account_display_name,
        account_avatar_url,
        window_scope,
        total_rooms,
        generated_on,
        oldest_local,
        newest_local,
    )
}

} // verus!
