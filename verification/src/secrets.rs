//! The secrets of accounts, as far as they are held in memory.

use crate::crawl::types::{copy_text, text_of};
use crate::text::str_eq;
use vstd::prelude::*;

verus! {

/// The secrets of one account.
#[derive(Clone, Debug, Default)]
pub struct AccountSecrets {
    pub db_passphrase: Option<String>,
    pub access_token: Option<String>,
    pub refresh_token: Option<String>,
}

/// The secrets of one account, as a value of specifications.
pub struct SecretsView {
    pub db_passphrase: Option<Seq<char>>,
    pub access_token: Option<Seq<char>>,
    pub refresh_token: Option<Seq<char>>,
}

impl View for AccountSecrets {
    type V = SecretsView;

    open spec fn view(&self) -> SecretsView {
        SecretsView {
            db_passphrase: text_of(self.db_passphrase),
            access_token: text_of(self.access_token),
            refresh_token: text_of(self.refresh_token),
        }
    }
}

/// The secrets that have been read from the keychain while the program
/// runs, so that no account's secrets are read twice.
#[derive(Debug, Default)]
pub struct SecretsCache {
    entries: Vec<(String, AccountSecrets)>,
}

/// The secrets that a sequence of entries holds for each account, the first
/// entry of an account deciding.
pub open spec fn cached_in(entries: Seq<(Seq<char>, SecretsView)>) -> Map<Seq<char>, SecretsView>
    decreases entries.len(),
{
    if entries.len() == 0 {
        Map::empty()
    } else {
        let before = cached_in(entries.drop_last());
        if before.dom().contains(entries.last().0) {
            before
        } else {
            before.insert(entries.last().0, entries.last().1)
        }
    }
}

impl View for SecretsCache {
    type V = Map<Seq<char>, SecretsView>;

    closed spec fn view(&self) -> Map<Seq<char>, SecretsView> {
        cached_in(self.model())
    }
}

impl SecretsCache {
    /// The entries as values of specifications.
    closed spec fn model(&self) -> Seq<(Seq<char>, SecretsView)> {
        Seq::new(self.entries@.len(), |i: int| (self.entries@[i].0@, self.entries@[i].1@))
    }

    /// A cache that holds nothing.
    pub fn new() -> (cache: SecretsCache)
        ensures
            cache@ == Map::<Seq<char>, SecretsView>::empty(),
    {
        let cache = SecretsCache { entries: Vec::new() };
        assert(cache.model() =~= Seq::empty());
        cache
    }

    /// Keeps `secrets` as the secrets of `account_id`, unless the cache
    /// holds secrets of that account already.
    pub fn remember(&mut self, account_id: &str, secrets: AccountSecrets)
        ensures
            final(self)@ == if old(self)@.dom().contains(account_id@) {
                old(self)@
            } else {
                old(self)@.insert(account_id@, secrets@)
            },
    {
        self.entries.push((account_id.to_owned(), secrets));
        assert(self.model().drop_last() =~= old(self).model());
        assert(self.model().last() == (account_id@, secrets@));
    }

    /// The secrets of an account, if the cache holds them.
    pub fn get_account_secrets(&self, account_id: &str) -> (secrets: Option<&AccountSecrets>)
        ensures
            secrets is Some <==> self@.dom().contains(account_id@),
            secrets matches Some(s) ==> s@ == self@[account_id@],
    {
        let mut i: usize = 0;
        let ghost all = self.model();
        assert(all.take(0) =~= Seq::<(Seq<char>, SecretsView)>::empty());
        while i < self.entries.len()
            invariant
                i <= self.entries@.len(),
                all == self.model(),
                !cached_in(all.take(i as int)).dom().contains(account_id@),
            decreases self.entries@.len() - i,
        {
            proof {
                assert(all.take(i + 1).drop_last() =~= all.take(i as int));
                assert(all.take(i + 1).last() == all[i as int]);
            }
            if str_eq(self.entries[i].0.as_str(), account_id) {
                proof {
                    lemma_first_decides(all, i + 1, account_id@);
                }
                return Some(&self.entries[i].1);
            }
            i = i + 1;
        }
        assert(all.take(i as int) =~= all);
        None
    }

    /// The passphrase of the local store of an account, if the cache holds
    /// the account's secrets; the inner value is none where the account has
    /// no passphrase.
    pub fn get_db_passphrase(&self, account_id: &str) -> (secret: Option<Option<String>>)
        ensures
            secret is Some <==> self@.dom().contains(account_id@),
            secret matches Some(s) ==> text_of(s) == self@[account_id@].db_passphrase,
    {
        match self.get_account_secrets(account_id) {
            Some(secrets) => Some(copy_text(&secrets.db_passphrase)),
            None => None,
        }
    }

    /// The access token of an account, if the cache holds the account's
    /// secrets.
    pub fn get_access_token(&self, account_id: &str) -> (secret: Option<Option<String>>)
        ensures
            secret is Some <==> self@.dom().contains(account_id@),
            secret matches Some(s) ==> text_of(s) == self@[account_id@].access_token,
    {
        match self.get_account_secrets(account_id) {
            Some(secrets) => Some(copy_text(&secrets.access_token)),
            None => None,
        }
    }

    /// The refresh token of an account, if the cache holds the account's
    /// secrets.
    pub fn get_refresh_token(&self, account_id: &str) -> (secret: Option<Option<String>>)
        ensures
            secret is Some <==> self@.dom().contains(account_id@),
            secret matches Some(s) ==> text_of(s) == self@[account_id@].refresh_token,
    {
        match self.get_account_secrets(account_id) {
            Some(secrets) => Some(copy_text(&secrets.refresh_token)),
            None => None,
        }
    }
}

/// What the first `n` entries hold for an account, all entries hold.
proof fn lemma_first_decides(entries: Seq<(Seq<char>, SecretsView)>, n: int, account: Seq<char>)
    requires
        0 <= n <= entries.len(),
        cached_in(entries.take(n)).dom().contains(account),
    ensures
        cached_in(entries).dom().contains(account),
        cached_in(entries)[account] == cached_in(entries.take(n))[account],
    decreases entries.len() - n,
{
    if n == entries.len() {
        assert(entries.take(n) =~= entries);
    } else {
        assert(entries.take(n + 1).drop_last() =~= entries.take(n));
        lemma_first_decides(entries, n + 1, account);
    }
}

} // verus!
