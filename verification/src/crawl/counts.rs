//! Counters keyed by text, and sets of text, kept in the order of their keys.

use crate::text::{
    chars_less, chars_of, lemma_lex_irreflexive, lemma_lex_total, lemma_lex_transitive, lex_less,
};
use vstd::prelude::*;

verus! {

/// Whether `key` is one of the keys of `entries`.
pub open spec fn has_key(entries: Seq<(Seq<char>, int)>, key: Seq<char>) -> bool {
    exists|i: int| 0 <= i < entries.len() && (#[trigger] entries[i]).0 == key
}

/// The count that `entries` holds for `key`, 0 where it holds none.
pub open spec fn count_of(entries: Seq<(Seq<char>, int)>, key: Seq<char>) -> int {
    if has_key(entries, key) {
        entries[choose|i: int| 0 <= i < entries.len() && (#[trigger] entries[i]).0 == key].1
    } else {
        0
    }
}

/// The keys ascend strictly in lexicographic order, so none occurs twice.
pub open spec fn keys_ascend(entries: Seq<(Seq<char>, int)>) -> bool {
    forall|i: int, j: int|
        0 <= i < j < entries.len() ==> lex_less((#[trigger] entries[i]).0, (#[trigger] entries[j]).0)
}

/// Every count is a non-negative number that fits in an `i32`.
pub open spec fn counts_in_range(entries: Seq<(Seq<char>, int)>) -> bool {
    forall|i: int| 0 <= i < entries.len() ==> 0 <= (#[trigger] entries[i]).1 <= i32::MAX
}

/// The sum of all counts.
pub open spec fn total_of(entries: Seq<(Seq<char>, int)>) -> int
    decreases entries.len(),
{
    if entries.len() == 0 {
        0
    } else {
        total_of(entries.drop_last()) + entries.last().1
    }
}

/// The count that `counts` holds for `key`, 0 where it holds none.
pub open spec fn read_count(counts: Map<Seq<char>, int>, key: Seq<char>) -> int {
    if counts.dom().contains(key) {
        counts[key]
    } else {
        0
    }
}

/// The map from each key of `entries` to its count.
pub open spec fn counts_map(entries: Seq<(Seq<char>, int)>) -> Map<Seq<char>, int> {
    Map::new(|k: Seq<char>| has_key(entries, k), |k: Seq<char>| count_of(entries, k))
}

/// In a sequence with ascending keys, the entry at `i` decides the count of
/// its key.
pub proof fn lemma_count_at(entries: Seq<(Seq<char>, int)>, i: int)
    requires
        keys_ascend(entries),
        0 <= i < entries.len(),
    ensures
        has_key(entries, entries[i].0),
        count_of(entries, entries[i].0) == entries[i].1,
{
    let key = entries[i].0;
    let j = choose|j: int| 0 <= j < entries.len() && (#[trigger] entries[j]).0 == key;
    lemma_lex_irreflexive(key);
    if j < i {
        assert(lex_less(entries[j].0, entries[i].0));
    } else if i < j {
        assert(lex_less(entries[i].0, entries[j].0));
    }
}

/// What dropping the last entry does to the presence and count of a key.
pub proof fn lemma_drop_last_counts(entries: Seq<(Seq<char>, int)>, key: Seq<char>)
    requires
        keys_ascend(entries),
        entries.len() > 0,
    ensures
        keys_ascend(entries.drop_last()),
        has_key(entries.drop_last(), key) == (has_key(entries, key) && key != entries.last().0),
        key != entries.last().0 ==> count_of(entries.drop_last(), key) == count_of(entries, key),
{
    let rest = entries.drop_last();
    let n = entries.len() - 1;
    assert forall|i: int, j: int| 0 <= i < j < rest.len() implies lex_less(
        (#[trigger] rest[i]).0,
        (#[trigger] rest[j]).0,
    ) by {
        assert(rest[i] == entries[i] && rest[j] == entries[j]);
    }
    if has_key(rest, key) {
        let i = choose|i: int| 0 <= i < rest.len() && (#[trigger] rest[i]).0 == key;
        assert(entries[i] == rest[i]);
        assert(lex_less(entries[i].0, entries[n].0));
        lemma_lex_irreflexive(key);
        lemma_count_at(rest, i);
        lemma_count_at(entries, i);
    } else if has_key(entries, key) && key != entries.last().0 {
        let i = choose|i: int| 0 <= i < entries.len() && (#[trigger] entries[i]).0 == key;
        assert(rest[i] == entries[i]);
    }
}

/// Counters keyed by text. The keys are kept in ascending lexicographic
/// order; every count is at least 0.
#[derive(Clone, Debug)]
pub struct CountMap {
    entries: Vec<(String, i32)>,
}

impl View for CountMap {
    type V = Map<Seq<char>, int>;

    /// The counts by key.
    open spec fn view(&self) -> Map<Seq<char>, int> {
        counts_map(self.entries())
    }
}

impl CountMap {
    /// The entries in the order of their keys.
    pub closed spec fn entries(&self) -> Seq<(Seq<char>, int)> {
        Seq::new(self.entries@.len(), |i: int| (self.entries@[i].0@, self.entries@[i].1 as int))
    }

    /// The keys ascend and every count is in range.
    pub open spec fn wf(&self) -> bool {
        keys_ascend(self.entries()) && counts_in_range(self.entries())
    }

    /// Whether the map has an entry for `key`.
    pub open spec fn has(&self, key: Seq<char>) -> bool {
        self@.dom().contains(key)
    }

    /// The count for `key`, 0 where the map has no entry for it.
    pub open spec fn count(&self, key: Seq<char>) -> int {
        read_count(self@, key)
    }

    /// The sum of all counts.
    pub open spec fn total(&self) -> int {
        total_of(self.entries())
    }

    /// A map without entries.
    pub fn new() -> (map: CountMap)
        ensures
            map.entries() == Seq::<(Seq<char>, int)>::empty(),
            map.wf(),
    {
        let map = CountMap { entries: Vec::new() };
        assert(map.entries() =~= Seq::<(Seq<char>, int)>::empty());
        map
    }

    /// The number of keys.
    pub fn len(&self) -> (n: usize)
        ensures
            n == self.entries().len(),
    {
        self.entries.len()
    }

    /// Whether the map has no entry.
    pub fn is_empty(&self) -> (empty: bool)
        ensures
            empty == (self.entries().len() == 0),
    {
        self.entries.len() == 0
    }

    /// The key of the entry at position `i` in key order.
    pub fn key_at(&self, i: usize) -> (key: &String)
        requires
            i < self.entries().len(),
        ensures
            key@ == self.entries()[i as int].0,
    {
        &self.entries[i].0
    }

    /// The count of the entry at position `i` in key order.
    pub fn count_at(&self, i: usize) -> (count: i32)
        requires
            i < self.entries().len(),
        ensures
            count == self.entries()[i as int].1,
    {
        self.entries[i].1
    }

    /// The position where `key` stands or would have to stand.
    fn position(&self, key: &Vec<char>) -> (at: (usize, bool))
        requires
            self.wf(),
        ensures
            at.0 <= self.entries().len(),
            forall|j: int| 0 <= j < at.0 ==> lex_less((#[trigger] self.entries()[j]).0, key@),
            at.1 ==> at.0 < self.entries().len() && self.entries()[at.0 as int].0 == key@,
            !at.1 ==> at.0 == self.entries().len() || lex_less(key@, self.entries()[at.0 as int].0),
            at.1 == has_key(self.entries(), key@),
            at.1 == self.has(key@),
    {
        let mut i: usize = 0;
        while i < self.entries.len()
            invariant
                self.wf(),
                i <= self.entries().len(),
                self.entries().len() == self.entries@.len(),
                forall|j: int| 0 <= j < i ==> lex_less((#[trigger] self.entries()[j]).0, key@),
            decreases self.entries.len() - i,
        {
            let here = chars_of(self.entries[i].0.as_str());
            assert(here@ == self.entries()[i as int].0);
            if !chars_less(&here, key) {
                let found = !chars_less(key, &here);
                proof {
                    lemma_lex_total(here@, key@);
                    self.lemma_absent(key@, i as int);
                }
                return (i, found);
            }
            i = i + 1;
        }
        proof {
            self.lemma_absent(key@, i as int);
        }
        (i, false)
    }

    /// A key that would have to stand at `at`, and does not, is absent.
    proof fn lemma_absent(&self, key: Seq<char>, at: int)
        requires
            self.wf(),
            0 <= at <= self.entries().len(),
            forall|j: int| 0 <= j < at ==> lex_less((#[trigger] self.entries()[j]).0, key),
            at == self.entries().len() || !lex_less(self.entries()[at].0, key),
        ensures
            has_key(self.entries(), key) <==> (at < self.entries().len() && self.entries()[at].0 == key),
    {
        if has_key(self.entries(), key) {
            let j = choose|j: int| 0 <= j < self.entries().len() && (#[trigger] self.entries()[j]).0 == key;
            lemma_lex_irreflexive(key);
            if j > at {
                assert(lex_less(self.entries()[at].0, self.entries()[j].0));
            }
        }
    }

    /// The count for `key`, if the map has an entry for it.
    pub fn get(&self, key: &str) -> (found: Option<i32>)
        requires
            self.wf(),
        ensures
            found is Some <==> self.has(key@),
            found matches Some(c) ==> c == self.count(key@),
            found is None ==> self.count(key@) == 0,
    {
        let k = chars_of(key);
        let (at, present) = self.position(&k);
        if present {
            proof {
                lemma_count_at(self.entries(), at as int);
            }
            Some(self.entries[at].1)
        } else {
            None
        }
    }

    /// Whether the map has an entry for `key`.
    pub fn contains_key(&self, key: &str) -> (present: bool)
        requires
            self.wf(),
        ensures
            present == self.has(key@),
    {
        let k = chars_of(key);
        let (_at, present) = self.position(&k);
        present
    }

    /// Sets the count of `key` to `count`, with a new entry where there was
    /// none.
    pub fn insert(&mut self, key: &str, count: i32)
        requires
            old(self).wf(),
            0 <= count,
        ensures
            final(self).wf(),
            final(self)@ == old(self)@.insert(key@, count as int),
            final(self).entries().len() == old(self).entries().len() + if old(self).has(key@) {
                0int
            } else {
                1int
            },
    {
        let k = chars_of(key);
        let (at, present) = self.position(&k);
        let ghost before = self.entries();
        if present {
            let name = self.entries[at].0.clone();
            self.entries[at] = (name, count);
            assert(self.entries() =~= before.update(at as int, (key@, count as int)));
            proof {
                lemma_update_counts(before, at as int, count as int);
            }
        } else {
            self.entries.insert(at, (key.to_owned(), count));
            assert(self.entries() =~= before.insert(at as int, (key@, count as int)));
            proof {
                lemma_insert_counts(before, at as int, key@, count as int);
            }
        }
        assert(self@ =~= counts_map(before).insert(key@, count as int));
    }

    /// Adds `amount` to the count of `key`, starting from 0 where the map
    /// had no entry for it.
    pub fn add(&mut self, key: &str, amount: i32)
        requires
            old(self).wf(),
            0 <= amount,
            old(self).count(key@) + amount <= i32::MAX,
        ensures
            final(self).wf(),
            final(self)@ == old(self)@.insert(key@, old(self).count(key@) + amount),
            final(self).total() == old(self).total() + amount,
    {
        let k = chars_of(key);
        let (at, present) = self.position(&k);
        let ghost before = self.entries();
        if present {
            proof {
                lemma_count_at(before, at as int);
            }
            let name = self.entries[at].0.clone();
            let sum: i32 = self.entries[at].1 + amount;
            self.entries[at] = (name, sum);
            assert(self.entries() =~= before.update(at as int, (key@, sum as int)));
            proof {
                lemma_update_counts(before, at as int, sum as int);
            }
        } else {
            self.entries.insert(at, (key.to_owned(), amount));
            assert(self.entries() =~= before.insert(at as int, (key@, amount as int)));
            proof {
                lemma_insert_counts(before, at as int, key@, amount as int);
            }
        }
        assert(self@ =~= counts_map(before).insert(key@, count_of(before, key@) + amount));
    }
}

/// What replacing the count at `at` does to presence, counts and total.
pub proof fn lemma_update_counts(entries: Seq<(Seq<char>, int)>, at: int, count: int)
    requires
        keys_ascend(entries),
        0 <= at < entries.len(),
    ensures
        keys_ascend(entries.update(at, (entries[at].0, count))),
        forall|k: Seq<char>|
            has_key(entries.update(at, (entries[at].0, count)), k) == has_key(entries, k),
        forall|k: Seq<char>|
            count_of(entries.update(at, (entries[at].0, count)), k) == if k == entries[at].0 {
                count
            } else {
                count_of(entries, k)
            },
        total_of(entries.update(at, (entries[at].0, count))) == total_of(entries) - entries[at].1
            + count,
        counts_in_range(entries) && 0 <= count <= i32::MAX ==> counts_in_range(
            entries.update(at, (entries[at].0, count)),
        ),
{
    let key = entries[at].0;
    let after = entries.update(at, (key, count));
    assert forall|i: int, j: int| 0 <= i < j < after.len() implies lex_less(
        (#[trigger] after[i]).0,
        (#[trigger] after[j]).0,
    ) by {
        assert(after[i].0 == entries[i].0 && after[j].0 == entries[j].0);
    }
    assert forall|k: Seq<char>| has_key(after, k) == has_key(entries, k) && count_of(after, k)
        == if k == key {
        count
    } else {
        count_of(entries, k)
    } by {
        if has_key(after, k) {
            let i = choose|i: int| 0 <= i < after.len() && (#[trigger] after[i]).0 == k;
            assert(entries[i].0 == k);
            lemma_count_at(after, i);
            lemma_count_at(entries, i);
            if k == key {
                lemma_count_at(after, at);
            }
        } else if has_key(entries, k) {
            let i = choose|i: int| 0 <= i < entries.len() && (#[trigger] entries[i]).0 == k;
            assert(after[i].0 == k);
        }
    }
    lemma_total_update(entries, at, (key, count));
    if counts_in_range(entries) && 0 <= count <= i32::MAX {
        assert forall|i: int| 0 <= i < after.len() implies 0 <= (#[trigger] after[i]).1
            <= i32::MAX by {
            if i != at {
                assert(after[i] == entries[i]);
            }
        }
    }
}

/// Replacing one entry changes the total by the difference of the counts.
pub proof fn lemma_total_update(entries: Seq<(Seq<char>, int)>, at: int, entry: (Seq<char>, int))
    requires
        0 <= at < entries.len(),
    ensures
        total_of(entries.update(at, entry)) == total_of(entries) - entries[at].1 + entry.1,
    decreases entries.len(),
{
    let after = entries.update(at, entry);
    if at == entries.len() - 1 {
        assert(after.drop_last() =~= entries.drop_last());
    } else {
        assert(after.drop_last() =~= entries.drop_last().update(at, entry));
        lemma_total_update(entries.drop_last(), at, entry);
    }
}

/// Inserting one entry adds its count to the total.
pub proof fn lemma_total_insert(entries: Seq<(Seq<char>, int)>, at: int, entry: (Seq<char>, int))
    requires
        0 <= at <= entries.len(),
    ensures
        total_of(entries.insert(at, entry)) == total_of(entries) + entry.1,
    decreases entries.len(),
{
    let after = entries.insert(at, entry);
    if at == entries.len() {
        assert(after.drop_last() =~= entries);
    } else {
        assert(after.drop_last() =~= entries.drop_last().insert(at, entry));
        assert(after.last() == entries.last());
        lemma_total_insert(entries.drop_last(), at, entry);
    }
}

/// What inserting a new key at its place does to presence, counts and total.
pub proof fn lemma_insert_counts(
    entries: Seq<(Seq<char>, int)>,
    at: int,
    key: Seq<char>,
    count: int,
)
    requires
        keys_ascend(entries),
        0 <= at <= entries.len(),
        forall|j: int| 0 <= j < at ==> lex_less((#[trigger] entries[j]).0, key),
        at == entries.len() || lex_less(key, entries[at].0),
    ensures
        keys_ascend(entries.insert(at, (key, count))),
        !has_key(entries, key),
        forall|k: Seq<char>|
            has_key(entries.insert(at, (key, count)), k) == (has_key(entries, k) || k == key),
        forall|k: Seq<char>|
            count_of(entries.insert(at, (key, count)), k) == if k == key {
                count
            } else {
                count_of(entries, k)
            },
        total_of(entries.insert(at, (key, count))) == total_of(entries) + count,
        counts_in_range(entries) && 0 <= count <= i32::MAX ==> counts_in_range(
            entries.insert(at, (key, count)),
        ),
{
    let after = entries.insert(at, (key, count));
    assert forall|j: int| at <= j < entries.len() implies lex_less(
        key,
        (#[trigger] entries[j]).0,
    ) by {
        if j > at {
            assert(lex_less(entries[at].0, entries[j].0));
            lemma_lex_transitive(key, entries[at].0, entries[j].0);
        }
    }
    assert forall|i: int, j: int| 0 <= i < j < after.len() implies lex_less(
        (#[trigger] after[i]).0,
        (#[trigger] after[j]).0,
    ) by {
        let x = if i < at { entries[i] } else if i == at { (key, count) } else { entries[i - 1] };
        let y = if j < at { entries[j] } else if j == at { (key, count) } else { entries[j - 1] };
        assert(after[i] == x && after[j] == y);
        if i < at && j > at {
            assert(lex_less(entries[i].0, key));
            assert(lex_less(key, entries[j - 1].0));
            lemma_lex_transitive(entries[i].0, key, entries[j - 1].0);
        }
    }
    lemma_lex_irreflexive(key);
    if has_key(entries, key) {
        let i = choose|i: int| 0 <= i < entries.len() && (#[trigger] entries[i]).0 == key;
        assert(false);
    }
    assert(after[at] == (key, count));
    assert forall|k: Seq<char>| has_key(after, k) == (has_key(entries, k) || k == key)
        && count_of(after, k) == if k == key {
        count
    } else {
        count_of(entries, k)
    } by {
        if k == key {
            lemma_count_at(after, at);
        } else if has_key(entries, k) {
            let i = choose|i: int| 0 <= i < entries.len() && (#[trigger] entries[i]).0 == k;
            let to = if i < at { i } else { i + 1 };
            assert(after[to] == entries[i]);
            lemma_count_at(after, to);
            lemma_count_at(entries, i);
        } else if has_key(after, k) {
            let i = choose|i: int| 0 <= i < after.len() && (#[trigger] after[i]).0 == k;
            let from = if i < at { i } else { i - 1 };
            assert(after[i] == entries[from]);
        }
    }
    lemma_total_insert(entries, at, (key, count));
    if counts_in_range(entries) && 0 <= count <= i32::MAX {
        assert forall|i: int| 0 <= i < after.len() implies 0 <= (#[trigger] after[i]).1
            <= i32::MAX by {
            let from = if i < at { i } else { i - 1 };
            if i != at {
                assert(after[i] == entries[from]);
            }
        }
    }
}

/// The keys of a sequence with ascending keys are as many as its entries.
pub proof fn lemma_key_count(entries: Seq<(Seq<char>, int)>)
    requires
        keys_ascend(entries),
    ensures
        counts_map(entries).dom().finite(),
        counts_map(entries).dom().len() == entries.len(),
    decreases entries.len(),
{
    let keys = counts_map(entries).dom();
    if entries.len() == 0 {
        assert(keys =~= Set::<Seq<char>>::empty());
    } else {
        let rest = entries.drop_last();
        let last = entries.last().0;
        lemma_count_at(entries, entries.len() - 1);
        assert forall|k: Seq<char>| has_key(rest, k) == (has_key(entries, k) && k != last) by {
            lemma_drop_last_counts(entries, k);
        }
        lemma_drop_last_counts(entries, last);
        lemma_key_count(rest);
        assert(keys =~= counts_map(rest).dom().insert(last));
    }
}

impl CountMap {
    /// A map with the same entries.
    pub fn copy(&self) -> (same: CountMap)
        ensures
            same.entries() == self.entries(),
            same@ == self@,
            same.wf() == self.wf(),
    {
        let mut entries: Vec<(String, i32)> = Vec::new();
        let mut i: usize = 0;
        while i < self.entries.len()
            invariant
                i <= self.entries.len(),
                entries@.len() == i,
                forall|j: int|
                    0 <= j < i ==> (#[trigger] entries@[j]).0@ == self.entries@[j].0@
                        && entries@[j].1 == self.entries@[j].1,
            decreases self.entries.len() - i,
        {
            entries.push((self.entries[i].0.clone(), self.entries[i].1));
            i = i + 1;
        }
        let same = CountMap { entries };
        assert(same.entries() =~= self.entries());
        same
    }

    /// The number of keys is the length of the entry sequence.
    pub proof fn lemma_len(&self)
        requires
            self.wf(),
        ensures
            self@.dom().finite(),
            self@.dom().len() == self.entries().len(),
    {
        lemma_key_count(self.entries());
    }
}

/// A set of texts.
#[derive(Debug)]
pub struct TextSet {
    inner: CountMap,
}

impl View for TextSet {
    type V = Set<Seq<char>>;

    closed spec fn view(&self) -> Set<Seq<char>> {
        self.inner@.dom()
    }
}

impl TextSet {
    /// The representation is in order; every operation keeps it so.
    pub closed spec fn wf(&self) -> bool {
        self.inner.wf()
    }

    /// The members in ascending lexicographic order.
    pub closed spec fn members(&self) -> Seq<Seq<char>> {
        Seq::new(self.inner.entries().len(), |i: int| self.inner.entries()[i].0)
    }

    /// The set is finite and `members` lists it without repetition.
    pub proof fn lemma_members(&self)
        requires
            self.wf(),
        ensures
            self@.finite(),
            self@.len() == self.members().len(),
            forall|k: Seq<char>| self@.contains(k) <==> self.members().contains(k),
            forall|i: int, j: int|
                0 <= i < j < self.members().len() ==> lex_less(
                    #[trigger] self.members()[i],
                    #[trigger] self.members()[j],
                ),
    {
        self.inner.lemma_len();
        let entries = self.inner.entries();
        assert forall|k: Seq<char>| self@.contains(k) <==> self.members().contains(k) by {
            if self@.contains(k) {
                let i = choose|i: int| 0 <= i < entries.len() && (#[trigger] entries[i]).0 == k;
                assert(self.members()[i] == k);
            }
            if self.members().contains(k) {
                let i = choose|i: int| 0 <= i < self.members().len() && self.members()[i] == k;
                assert(entries[i].0 == k);
            }
        }
        assert forall|i: int, j: int| 0 <= i < j < self.members().len() implies lex_less(
            #[trigger] self.members()[i],
            #[trigger] self.members()[j],
        ) by {
            assert(lex_less(entries[i].0, entries[j].0));
        }
    }

    /// The empty set.
    pub fn new() -> (set: TextSet)
        ensures
            set@ == Set::<Seq<char>>::empty(),
            set.wf(),
    {
        let set = TextSet { inner: CountMap::new() };
        assert(set@ =~= Set::<Seq<char>>::empty());
        set
    }

    /// The number of members.
    pub fn len(&self) -> (n: usize)
        requires
            self.wf(),
        ensures
            n == self@.len(),
            n == self.members().len(),
    {
        proof {
            self.inner.lemma_len();
        }
        self.inner.len()
    }

    /// Whether the set has no member.
    pub fn is_empty(&self) -> (empty: bool)
        requires
            self.wf(),
        ensures
            empty == (self@.len() == 0),
            empty == (self@ == Set::<Seq<char>>::empty()),
    {
        proof {
            self.inner.lemma_len();
            if self.inner.entries().len() == 0 {
                assert(self@ =~= Set::<Seq<char>>::empty());
            }
        }
        self.inner.is_empty()
    }

    /// The member at position `i` in ascending order.
    pub fn member_at(&self, i: usize) -> (member: &String)
        requires
            i < self.members().len(),
        ensures
            member@ == self.members()[i as int],
    {
        self.inner.key_at(i)
    }

    /// Whether `text` is a member.
    pub fn contains(&self, text: &str) -> (present: bool)
        requires
            self.wf(),
        ensures
            present == self@.contains(text@),
    {
        self.inner.contains_key(text)
    }

    /// Makes `text` a member.
    pub fn insert(&mut self, text: &str)
        requires
            old(self).wf(),
        ensures
            final(self).wf(),
            final(self)@ == old(self)@.insert(text@),
    {
        if !self.inner.contains_key(text) {
            self.inner.insert(text, 0);
        }
        assert(self@ =~= old(self)@.insert(text@));
    }

    /// A set with the same members.
    pub fn copy(&self) -> (same: TextSet)
        ensures
            same@ == self@,
            same.members() == self.members(),
            same.wf() == self.wf(),
    {
        let same = TextSet { inner: self.inner.copy() };
        assert(same.members() =~= self.members());
        same
    }
}

/// The key-wise sum of two maps of counts.
pub open spec fn merged(a: Map<Seq<char>, int>, b: Map<Seq<char>, int>) -> Map<Seq<char>, int> {
    Map::new(
        |k: Seq<char>| a.dom().contains(k) || b.dom().contains(k),
        |k: Seq<char>| read_count(a, k) + read_count(b, k),
    )
}

/// Every count is at least 0 and fits in an `i32`.
pub open spec fn counts_fit(counts: Map<Seq<char>, int>) -> bool {
    forall|k: Seq<char>| 0 <= #[trigger] read_count(counts, k) <= i32::MAX
}

/// Why two maps of counts could not be summed.
#[derive(Clone, Copy, Debug, PartialEq, Eq, Structural)]
pub struct CountTooLarge;

impl CountMap {
    /// The counts of a map in order are at least 0 and fit in an `i32`.
    pub proof fn lemma_fit(&self)
        requires
            self.wf(),
        ensures
            counts_fit(self@),
    {
        assert forall|k: Seq<char>| 0 <= #[trigger] read_count(self@, k) <= i32::MAX by {
            if self@.dom().contains(k) {
                let i = choose|i: int|
                    0 <= i < self.entries().len() && (#[trigger] self.entries()[i]).0 == k;
                lemma_count_at(self.entries(), i);
            }
        }
    }

    /// The counts in the order of their keys.
    pub fn counts(&self) -> (counts: Vec<i32>)
        ensures
            counts@.len() == self.entries().len(),
            forall|i: int| 0 <= i < counts@.len() ==> #[trigger] counts@[i] == self.entries()[i].1,
    {
        let mut counts: Vec<i32> = Vec::new();
        let mut i: usize = 0;
        while i < self.entries.len()
            invariant
                i <= self.entries.len(),
                counts@.len() == i,
                forall|j: int| 0 <= j < i ==> #[trigger] counts@[j] == self.entries()[j].1,
            decreases self.entries.len() - i,
        {
            counts.push(self.entries[i].1);
            i = i + 1;
        }
        counts
    }

    /// Adds every count of `other` to the count of the same key. Fails, and
    /// leaves some sums undone, when a sum would not fit in an `i32`.
    pub fn merge_from(&mut self, other: &CountMap) -> (done: Result<(), CountTooLarge>)
        requires
            old(self).wf(),
            other.wf(),
        ensures
            final(self).wf(),
            done is Ok <==> counts_fit(merged(old(self)@, other@)),
            done is Ok ==> final(self)@ == merged(old(self)@, other@),
    {
        let n = other.len();
        let mut i: usize = 0;
        let ghost theirs = other.entries();
        proof {
            self.lemma_fit();
            other.lemma_fit();
            assert(counts_map(theirs.take(0)) =~= Map::<Seq<char>, int>::empty());
            assert(self@ =~= merged(old(self)@, counts_map(theirs.take(0))));
        }
        while i < n
            invariant
                self.wf(),
                other.wf(),
                theirs == other.entries(),
                n == theirs.len(),
                i <= n,
                counts_fit(old(self)@),
                counts_fit(other@),
                self@ == merged(old(self)@, counts_map(theirs.take(i as int))),
            decreases n - i,
        {
            let key = other.key_at(i);
            let amount = other.count_at(i);
            let ghost k = theirs[i as int].0;
            proof {
                lemma_prefix_counts(theirs, i as int);
                lemma_count_at(theirs, i as int);
                assert(read_count(other@, k) == amount);
                assert(read_count(self@, k) == read_count(old(self)@, k));
                assert(0 <= read_count(old(self)@, k));
                assert(0 <= amount);
            }
            let have: i32 = match self.get(key.as_str()) {
                Some(c) => c,
                None => 0,
            };
            if have > i32::MAX - amount {
                proof {
                    assert(read_count(merged(old(self)@, other@), k) > i32::MAX);
                }
                return Err(CountTooLarge);
            }
            self.add(key.as_str(), amount);
            proof {
                assert(self@ =~= merged(old(self)@, counts_map(theirs.take(i + 1))));
            }
            i = i + 1;
        }
        proof {
            assert(theirs.take(n as int) =~= theirs);
            let sum = merged(old(self)@, other@);
            self.lemma_fit();
            assert(counts_fit(sum));
        }
        Ok(())
    }
}

/// What the first `n` entries of a sequence with ascending keys hold of a
/// key, against what one more entry holds.
pub proof fn lemma_prefix_counts(entries: Seq<(Seq<char>, int)>, n: int)
    requires
        keys_ascend(entries),
        0 <= n < entries.len(),
    ensures
        keys_ascend(entries.take(n)),
        keys_ascend(entries.take(n + 1)),
        !has_key(entries.take(n), entries[n].0),
        counts_map(entries.take(n + 1)) == counts_map(entries.take(n)).insert(
            entries[n].0,
            entries[n].1,
        ),
{
    let less = entries.take(n);
    let more = entries.take(n + 1);
    assert(more.drop_last() =~= less);
    assert(more.last() == entries[n]);
    assert forall|i: int, j: int| 0 <= i < j < more.len() implies lex_less(
        (#[trigger] more[i]).0,
        (#[trigger] more[j]).0,
    ) by {
        assert(more[i] == entries[i] && more[j] == entries[j]);
    }
    lemma_count_at(more, n);
    assert forall|k: Seq<char>|
        has_key(less, k) == (has_key(more, k) && k != entries[n].0) && (k != entries[n].0
            ==> count_of(less, k) == count_of(more, k)) by {
        lemma_drop_last_counts(more, k);
    }
    assert(counts_map(more) =~= counts_map(less).insert(entries[n].0, entries[n].1));
}

impl TextSet {
    /// Makes every member of `other` a member.
    pub fn union_from(&mut self, other: &TextSet)
        requires
            old(self).wf(),
            other.wf(),
        ensures
            final(self).wf(),
            final(self)@ == old(self)@.union(other@),
    {
        let n = other.len();
        let mut i: usize = 0;
        proof {
            other.lemma_members();
        }
        while i < n
            invariant
                self.wf(),
                other.wf(),
                n == other.members().len(),
                i <= n,
                forall|k: Seq<char>| other@.contains(k) <==> other.members().contains(k),
                forall|k: Seq<char>|
                    self@.contains(k) <==> old(self)@.contains(k) || exists|j: int|
                        0 <= j < i && #[trigger] other.members()[j] == k,
            decreases n - i,
        {
            let member = other.member_at(i);
            let ghost before = self@;
            self.insert(member.as_str());
            proof {
                assert forall|k: Seq<char>|
                    self@.contains(k) <==> old(self)@.contains(k) || exists|j: int|
                        0 <= j < i + 1 && #[trigger] other.members()[j] == k by {
                    if before.contains(k) && !old(self)@.contains(k) {
                        let j = choose|j: int| 0 <= j < i && #[trigger] other.members()[j] == k;
                        assert(0 <= j < i + 1 && other.members()[j] == k);
                    }
                    if k == member@ {
                        assert(other.members()[i as int] == k);
                    }
                }
            }
            i = i + 1;
        }
        proof {
            assert forall|k: Seq<char>| self@.contains(k) <==> old(self)@.union(other@).contains(
                k,
            ) by {
                if other@.contains(k) {
                    let j = choose|j: int|
                        0 <= j < other.members().len() && other.members()[j] == k;
                    assert(other.members()[j] == k);
                }
            }
            assert(self@ =~= old(self)@.union(other@));
        }
    }
}

} // verus!
