//! Which accounts a command works on: the one named on the command line,
//! the only one there is, or those that the user picks, with the last
//! choice offered again.

use crate::crawl::decision::texts_of;
use crate::crawl::types::text_of;
use crate::login::{account_id_to_dirname, dirname_to_account_id};
use crate::text::{push_str, replaced, str_eq, string_of};
use vstd::prelude::*;

verus! {

/// What the user chose the last time.
#[derive(Clone, Debug, Default)]
pub struct Preferences {
    /// The accounts chosen when several could be chosen.
    pub last_selected_multi: Vec<String>,
    /// The account chosen when one had to be chosen.
    pub last_selected_single: Option<String>,
}

/// Chooses accounts, remembering the choice.
#[derive(Debug)]
pub struct AccountSelector {
    preferences: Preferences,
}

/// What is to be done to come to the accounts of a command.
#[derive(Clone, Debug, PartialEq, Eq)]
pub enum Selection {
    /// There is no account at all.
    NoAccounts,
    /// The account named on the command line has no directory.
    NotFound(String),
    /// The account named on the command line, which has a directory.
    Named(String),
    /// The only account there is: the one at place 0.
    Only,
    /// The user is to pick any number of accounts; those at `defaults` are
    /// picked beforehand.
    AskMany { defaults: Vec<usize> },
    /// The user is to pick one account; the cursor starts at `cursor`.
    AskOne { cursor: Option<usize> },
}

/// The accounts that directories with the names `dirs` stand for: each
/// name with `:` for each `_`.
pub open spec fn ids_of_dirs(dirs: Seq<Seq<char>>) -> Seq<Seq<char>> {
    Seq::new(dirs.len(), |i: int| replaced(dirs[i], '_', ':'))
}

/// The accounts that the directories stand for, in their order.
pub fn account_ids(account_dirs: &Vec<String>) -> (ids: Vec<String>)
    ensures
        texts_of(ids@) == ids_of_dirs(texts_of(account_dirs@)),
{
    let mut ids: Vec<String> = Vec::new();
    let mut i: usize = 0;
    while i < account_dirs.len()
        invariant
            i <= account_dirs@.len(),
            ids@.len() == i,
            forall|j: int|
                0 <= j < i ==> (#[trigger] ids@[j])@ == replaced(account_dirs@[j]@, '_', ':'),
        decreases account_dirs@.len() - i,
    {
        ids.push(dirname_to_account_id(account_dirs[i].as_str()));
        i = i + 1;
    }
    assert(texts_of(ids@) =~= ids_of_dirs(texts_of(account_dirs@)));
    ids
}

impl Selection {
    /// Why no account can be worked on, where that is so.
    pub open spec fn refusal_text(self) -> Option<Seq<char>> {
        match self {
            Selection::NoAccounts => Some("No accounts found. Run 'my login' first."@),
            Selection::NotFound(user_id) => Some("Account not found: "@ + user_id@),
            _ => None,
        }
    }

    /// Why no account can be worked on, where that is so.
    pub fn refusal(&self) -> (message: Option<String>)
        ensures
            text_of(message) == self.refusal_text(),
    {
        match self {
            Selection::NoAccounts => {
                let mut out: Vec<char> = Vec::new();
                push_str(&mut out, "No accounts found. Run 'my login' first.");
                assert(out@ =~= "No accounts found. Run 'my login' first."@);
                Some(string_of(&out))
            },
            Selection::NotFound(user_id) => {
                let mut out: Vec<char> = Vec::new();
                push_str(&mut out, "Account not found: ");
                push_str(&mut out, user_id.as_str());
                Some(string_of(&out))
            },
            _ => None,
        }
    }
}

/// The first place of `id` in `ids`.
pub open spec fn first_place(ids: Seq<Seq<char>>, id: Seq<char>) -> Option<int>
    decreases ids.len(),
{
    if ids.len() == 0 {
        None
    } else {
        match first_place(ids.drop_last(), id) {
            Some(place) => Some(place),
            None => if ids.last() == id {
                Some(ids.len() - 1)
            } else {
                None
            },
        }
    }
}

/// The places in `ids` of those of `saved` that are among `ids`, in the
/// order of `saved`.
pub open spec fn places_of(ids: Seq<Seq<char>>, saved: Seq<Seq<char>>) -> Seq<int>
    decreases saved.len(),
{
    if saved.len() == 0 {
        Seq::empty()
    } else {
        let before = places_of(ids, saved.drop_last());
        match first_place(ids, saved.last()) {
            Some(place) => before.push(place),
            None => before,
        }
    }
}

/// The places picked beforehand: those of the accounts chosen last time
/// that still exist, or all where none of them does.
pub open spec fn default_places(ids: Seq<Seq<char>>, saved: Seq<Seq<char>>) -> Seq<int> {
    if places_of(ids, saved).len() == 0 {
        Seq::new(ids.len(), |i: int| i)
    } else {
        places_of(ids, saved)
    }
}

/// The places of a vector, as integers.
pub open spec fn as_places(places: Seq<usize>) -> Seq<int> {
    Seq::new(places.len(), |i: int| places[i] as int)
}

/// The places of the accounts of `ids` that are among `chosen`, ascending.
pub open spec fn places_among(ids: Seq<Seq<char>>, chosen: Seq<Seq<char>>) -> Seq<int>
    decreases ids.len(),
{
    if ids.len() == 0 {
        Seq::empty()
    } else {
        let before = places_among(ids.drop_last(), chosen);
        if chosen.contains(ids.last()) {
            before.push(ids.len() - 1)
        } else {
            before
        }
    }
}

/// What the first `n` of `ids` say of the place of `id`, all say.
proof fn lemma_place_found(ids: Seq<Seq<char>>, n: int, id: Seq<char>)
    requires
        0 <= n <= ids.len(),
        first_place(ids.take(n), id) is Some,
    ensures
        first_place(ids, id) == first_place(ids.take(n), id),
    decreases ids.len() - n,
{
    if n == ids.len() {
        assert(ids.take(n) =~= ids);
    } else {
        assert(ids.take(n + 1).drop_last() =~= ids.take(n));
        lemma_place_found(ids, n + 1, id);
    }
}

/// The first place of `id` in `ids`.
pub fn place_of(ids: &Vec<String>, id: &str) -> (place: Option<usize>)
    ensures
        match place {
            Some(p) => first_place(texts_of(ids@), id@) == Some(p as int) && p < ids@.len(),
            None => first_place(texts_of(ids@), id@) is None,
        },
{
    let mut i: usize = 0;
    let ghost all = texts_of(ids@);
    assert(all.take(0) =~= Seq::<Seq<char>>::empty());
    while i < ids.len()
        invariant
            i <= ids@.len(),
            all == texts_of(ids@),
            first_place(all.take(i as int), id@) is None,
        decreases ids@.len() - i,
    {
        proof {
            assert(all.take(i + 1).drop_last() =~= all.take(i as int));
            assert(all.take(i + 1).last() == ids@[i as int]@);
        }
        if str_eq(ids[i].as_str(), id) {
            proof {
                lemma_place_found(all, i + 1, id@);
            }
            return Some(i);
        }
        i = i + 1;
    }
    assert(all.take(i as int) =~= all);
    None
}

impl AccountSelector {
    /// A selector that remembers `preferences`.
    pub fn new(preferences: Preferences) -> (selector: AccountSelector)
        ensures
            selector.preferences() == preferences,
    {
        AccountSelector { preferences }
    }

    /// What the selector remembers.
    pub closed spec fn preferences(&self) -> Preferences {
        self.preferences
    }

    /// What the selector remembers.
    pub fn remembered(&self) -> (preferences: &Preferences)
        ensures
            *preferences == self.preferences(),
    {
        &self.preferences
    }

    /// What is to be done to come to the accounts of a command.
    /// `account_dirs` names the directories of the accounts that exist:
    /// each stands for the account that `account_ids` gives at its place.
    /// An account named on the command line is taken when its directory
    /// is among them, whatever else there is.
    pub fn select_accounts(
        &self,
        account_dirs: &Vec<String>,
        user_id_flag: Option<String>,
        allow_multi: bool,
    ) -> (selection: Selection)
        ensures
            selection == self.selection_for(account_dirs@, user_id_flag, allow_multi, selection),
            match selection {
                Selection::AskMany { defaults } => as_places(defaults@) == default_places(
                    ids_of_dirs(texts_of(account_dirs@)),
                    texts_of(self.preferences().last_selected_multi@),
                ),
                Selection::AskOne { cursor } => match cursor {
                    Some(c) => text_of(self.preferences().last_selected_single) matches Some(
                        last,
                    ) && first_place(ids_of_dirs(texts_of(account_dirs@)), last) == Some(
                        c as int,
                    ),
                    None => text_of(self.preferences().last_selected_single) matches Some(last)
                        ==> first_place(ids_of_dirs(texts_of(account_dirs@)), last) is None,
                },
                _ => true,
            },
    {
        if account_dirs.len() == 0 {
            return Selection::NoAccounts;
        }
        match user_id_flag {
            Some(user_id) => {
                let dirname = account_id_to_dirname(user_id.as_str());
                proof {
                    lemma_place_is_membership(texts_of(account_dirs@), dirname@);
                }
                return match place_of(account_dirs, dirname.as_str()) {
                    Some(_) => Selection::Named(user_id),
                    None => Selection::NotFound(user_id),
                };
            },
            None => {},
        }
        if account_dirs.len() == 1 {
            return Selection::Only;
        }
        let all_accounts = account_ids(account_dirs);
        if allow_multi {
            Selection::AskMany { defaults: self.defaults(&all_accounts) }
        } else {
            let cursor = match &self.preferences.last_selected_single {
                Some(last) => place_of(&all_accounts, last.as_str()),
                None => None,
            };
            Selection::AskOne { cursor }
        }
    }

    /// The selection for the directories, the flag and the mode given.
    /// Where the user is to be asked, what is offered comes from the
    /// preferences and is that of `asked`.
    pub open spec fn selection_for(
        &self,
        account_dirs: Seq<String>,
        user_id_flag: Option<String>,
        allow_multi: bool,
        asked: Selection,
    ) -> Selection {
        if account_dirs.len() == 0 {
            Selection::NoAccounts
        } else if user_id_flag is Some {
            if texts_of(account_dirs).contains(replaced(user_id_flag->0@, ':', '_')) {
                Selection::Named(user_id_flag->0)
            } else {
                Selection::NotFound(user_id_flag->0)
            }
        } else if account_dirs.len() == 1 {
            Selection::Only
        } else if allow_multi {
            Selection::AskMany { defaults: asked->AskMany_defaults }
        } else {
            Selection::AskOne { cursor: asked->AskOne_cursor }
        }
    }

    /// The places that are picked beforehand when several accounts can be
    /// chosen.
    fn defaults(&self, all_accounts: &Vec<String>) -> (defaults: Vec<usize>)
        ensures
            as_places(defaults@) == default_places(
                texts_of(all_accounts@),
                texts_of(self.preferences().last_selected_multi@),
            ),
    {
        let saved = &self.preferences.last_selected_multi;
        let mut places: Vec<usize> = Vec::new();
        let mut i: usize = 0;
        let ghost ids = texts_of(all_accounts@);
        let ghost all = texts_of(saved@);
        assert(all.take(0) =~= Seq::<Seq<char>>::empty());
        assert(as_places(places@) =~= Seq::<int>::empty());
        while i < saved.len()
            invariant
                i <= saved@.len(),
                ids == texts_of(all_accounts@),
                all == texts_of(saved@),
                as_places(places@) == places_of(ids, all.take(i as int)),
            decreases saved@.len() - i,
        {
            proof {
                assert(all.take(i + 1).drop_last() =~= all.take(i as int));
                assert(all.take(i + 1).last() == saved@[i as int]@);
            }
            let ghost before = as_places(places@);
            match place_of(all_accounts, saved[i].as_str()) {
                Some(place) => {
                    places.push(place);
                    assert(as_places(places@) =~= before.push(place as int));
                },
                None => {},
            }
            i = i + 1;
        }
        assert(all.take(i as int) =~= all);
        if places.len() > 0 {
            return places;
        }
        let mut every: Vec<usize> = Vec::new();
        let mut j: usize = 0;
        while j < all_accounts.len()
            invariant
                j <= all_accounts@.len(),
                every@.len() == j,
                forall|k: int| 0 <= k < j ==> #[trigger] every@[k] == k,
            decreases all_accounts@.len() - j,
        {
            every.push(j);
            j = j + 1;
        }
        assert(as_places(every@) =~= Seq::new(ids.len(), |i: int| i));
        every
    }

    /// Remembers the accounts that the user picked of several, and gives
    /// their places among `all_accounts`, ascending; nothing is remembered
    /// and nothing given where the user picked none.
    pub fn chosen_many(&mut self, all_accounts: &Vec<String>, selected: Vec<String>) -> (places:
        Option<Vec<usize>>)
        ensures
            selected@.len() == 0 ==> places is None && *final(self) == *old(self),
            selected@.len() > 0 ==> {
                &&& places matches Some(p) && as_places(p@) == places_among(
                    texts_of(all_accounts@),
                    texts_of(selected@),
                )
                &&& final(self).preferences().last_selected_multi == selected
                &&& final(self).preferences().last_selected_single
                    == old(self).preferences().last_selected_single
            },
    {
        if selected.len() == 0 {
            return None;
        }
        let places = places_in(all_accounts, &selected);
        self.preferences.last_selected_multi = selected;
        Some(places)
    }

    /// Remembers the account that the user picked, and gives its places
    /// among `all_accounts`.
    pub fn chosen_one(&mut self, all_accounts: &Vec<String>, selected: String) -> (places: Vec<
        usize,
    >)
        ensures
            as_places(places@) == places_among(texts_of(all_accounts@), seq![selected@]),
            final(self).preferences().last_selected_single == Some(selected),
            final(self).preferences().last_selected_multi
                == old(self).preferences().last_selected_multi,
    {
        let mut only: Vec<String> = Vec::new();
        only.push(selected.clone());
        assert(texts_of(only@) =~= seq![selected@]);
        let places = places_in(all_accounts, &only);
        self.preferences.last_selected_single = Some(selected);
        places
    }
}

/// The places of the accounts of `ids` that are among `chosen`, ascending.
pub fn places_in(ids: &Vec<String>, chosen: &Vec<String>) -> (places: Vec<usize>)
    ensures
        as_places(places@) == places_among(texts_of(ids@), texts_of(chosen@)),
{
    let mut places: Vec<usize> = Vec::new();
    let mut i: usize = 0;
    let ghost all = texts_of(ids@);
    assert(all.take(0) =~= Seq::<Seq<char>>::empty());
    assert(as_places(places@) =~= Seq::<int>::empty());
    while i < ids.len()
        invariant
            i <= ids@.len(),
            all == texts_of(ids@),
            as_places(places@) == places_among(all.take(i as int), texts_of(chosen@)),
        decreases ids@.len() - i,
    {
        proof {
            assert(all.take(i + 1).drop_last() =~= all.take(i as int));
            assert(all.take(i + 1).last() == ids@[i as int]@);
        }
        let ghost before = as_places(places@);
        let found = place_of(chosen, ids[i].as_str());
        proof {
            lemma_place_is_membership(texts_of(chosen@), ids@[i as int]@);
        }
        if found.is_some() {
            places.push(i);
            assert(as_places(places@) =~= before.push(i as int));
        }
        i = i + 1;
    }
    assert(all.take(i as int) =~= all);
    places
}

/// A text has a first place in a sequence exactly when it is in it.
pub proof fn lemma_place_is_membership(ids: Seq<Seq<char>>, id: Seq<char>)
    ensures
        first_place(ids, id) is Some <==> ids.contains(id),
        first_place(ids, id) matches Some(p) ==> 0 <= p < ids.len() && ids[p] == id,
    decreases ids.len(),
{
    if ids.len() > 0 {
        let rest = ids.drop_last();
        lemma_place_is_membership(rest, id);
        if rest.contains(id) {
            let j = choose|j: int| 0 <= j < rest.len() && rest[j] == id;
            assert(ids[j] == id);
        }
        if ids.contains(id) && !rest.contains(id) {
            let j = choose|j: int| 0 <= j < ids.len() && ids[j] == id;
            if j < rest.len() {
                assert(rest[j] == id);
            }
        }
        if first_place(ids, id) is Some {
            let p = first_place(ids, id)->0;
            if first_place(rest, id) is Some {
                assert(rest[p] == ids[p]);
            }
        }
    }
}

} // verus!
