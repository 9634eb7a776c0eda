//! The in-memory account and settings store.
//!
//! Persistence (loading and saving the JSON file) is the caller's concern;
//! every method here mutates or reads the in-memory state only, and says
//! exactly what it did.

use vstd::prelude::*;

use crate::clock::now_rfc3339;
use crate::crypto;
use crate::seqs::{
    lemma_filter_none, lemma_filter_push, lemma_first_match_at, lemma_first_match_none,
    spec_first_match,
};
use crate::text::str_eq;

verus! {

/// One game account under automation.
pub struct Account {
    /// Unique identity: adding an account under an existing name replaces it.
    pub name: String,
    /// Restore secret, encrypted at rest (see `crate::crypto`).
    pub code: String,
    /// Optional target-server selector for the login server list.
    pub target_server: Option<String>,
    /// Optional owner identity.
    pub user_id: Option<String>,
    /// Owner display name, if known.
    pub username: Option<String>,
    /// Owner nickname, if known.
    pub discord_nickname: Option<String>,
    /// Notification preference.
    pub ping_enabled: bool,
    /// Whether the handout routine includes this account.
    pub handout_enabled: bool,
    /// One of `pending`, `done`, or `error: <message>`.
    pub status: String,
    /// RFC 3339 timestamp of the last scheduler attempt.
    pub last_run: Option<String>,
}

/// Deployment-wide settings.
pub struct Settings {
    /// Shared session credential for the remote terminal.
    pub cookies: Option<String>,
    /// Role treated as administrator by the presentation layer.
    pub admin_role_id: Option<String>,
    /// Channel that mirrored notifications go to.
    pub log_channel_id: Option<String>,
    /// When `Some(true)`, mirrored notifications are suppressed.
    pub mute_bot_messages: Option<bool>,
    /// Individually authorized administrators.
    pub admins: Vec<String>,
    /// Day the daily reset last ran, as `YYYY-MM-DD`.
    pub last_reset_date: Option<String>,
}

/// Everything the store persists.
pub struct DbData {
    pub accounts: Vec<Account>,
    pub settings: Settings,
}

/// The in-memory store.
pub struct Database {
    pub data: DbData,
}

/// Errors of the store's own logic.
#[derive(Clone, Copy, Debug, PartialEq, Eq)]
pub enum DbError {
    /// No account carries the given name.
    AccountNotFound,
    /// The given owner has no accounts.
    NoAccountsForUser,
}

impl DbError {
    /// A human-readable description of the error.
    pub fn message(&self) -> (r: &'static str)
        ensures
            *self is AccountNotFound ==> r@ == "Account not found"@,
            *self is NoAccountsForUser ==> r@ == "No accounts found for this user."@,
    {
        match self {
            DbError::AccountNotFound => "Account not found",
            DbError::NoAccountsForUser => "No accounts found for this user.",
        }
    }
}

// --- spec-level vocabulary ----------------------------------------------

/// Predicate: the account carries the given name.
pub open spec fn named_pred(name: Seq<char>) -> spec_fn(Account) -> bool {
    |a: Account| a.name@ == name
}

/// Predicate: the account carries any other name.
pub open spec fn other_name_pred(name: Seq<char>) -> spec_fn(Account) -> bool {
    |a: Account| a.name@ != name
}

/// Predicate: the account belongs to the given owner.
pub open spec fn owned_pred(uid: Seq<char>) -> spec_fn(Account) -> bool {
    |a: Account| a.user_id matches Some(u) && u@ == uid
}

/// Predicate: the account is enrolled in the handout routine.
pub open spec fn handout_pred() -> spec_fn(Account) -> bool {
    |a: Account| a.handout_enabled
}

/// Predicate over admin entries: the entry names the given user.
pub open spec fn admin_pred(uid: Seq<char>) -> spec_fn(String) -> bool {
    |s: String| s@ == uid
}

/// The two accounts agree on everything except status and last-run stamp.
pub open spec fn spec_same_core(a: Account, b: Account) -> bool {
    &&& b.name == a.name
    &&& b.code == a.code
    &&& b.target_server == a.target_server
    &&& b.user_id == a.user_id
    &&& b.username == a.username
    &&& b.discord_nickname == a.discord_nickname
    &&& b.ping_enabled == a.ping_enabled
    &&& b.handout_enabled == a.handout_enabled
}

/// The two accounts agree on everything except the notification preference.
pub open spec fn spec_same_except_ping(a: Account, b: Account) -> bool {
    &&& spec_same_core(Account { ping_enabled: b.ping_enabled, ..a }, b)
    &&& b.status == a.status
    &&& b.last_run == a.last_run
}

/// The two accounts agree on everything except the handout flag.
pub open spec fn spec_same_except_handout(a: Account, b: Account) -> bool {
    &&& spec_same_core(Account { handout_enabled: b.handout_enabled, ..a }, b)
    &&& b.status == a.status
    &&& b.last_run == a.last_run
}

/// The account list after adding `account`: any entry under the same name is
/// dropped and the new entry goes to the back.
pub open spec fn spec_add_account(accounts: Seq<Account>, account: Account) -> Seq<Account> {
    accounts.filter(other_name_pred(account.name@)).push(account)
}

/// Membership of `uid` in the admin list.
pub open spec fn spec_is_admin(admins: Seq<String>, uid: Seq<char>) -> bool {
    exists|i: int| 0 <= i < admins.len() && admins[i]@ == uid
}

// --- cloning -------------------------------------------------------------

/// An exact copy of an optional string.
fn clone_opt_string(o: &Option<String>) -> (r: Option<String>)
    ensures
        r == *o,
{
    match o {
        Some(s) => Some(s.clone()),
        None => None,
    }
}

impl Clone for Account {
    /// An exact copy.
    fn clone(&self) -> (r: Self)
        ensures
            r == *self,
    {
        Account {
            name: self.name.clone(),
            code: self.code.clone(),
            target_server: clone_opt_string(&self.target_server),
            user_id: clone_opt_string(&self.user_id),
            username: clone_opt_string(&self.username),
            discord_nickname: clone_opt_string(&self.discord_nickname),
            ping_enabled: self.ping_enabled,
            handout_enabled: self.handout_enabled,
            status: self.status.clone(),
            last_run: clone_opt_string(&self.last_run),
        }
    }
}

impl Account {
    /// Whether this account belongs to the given owner.
    pub fn owned_by(&self, user_id: &str) -> (r: bool)
        ensures
            r == owned_pred(user_id@)(*self),
    {
        match &self.user_id {
            Some(u) => str_eq(u.as_str(), user_id),
            None => false,
        }
    }

    /// Whether this account carries the given name.
    pub fn is_named(&self, name: &str) -> (r: bool)
        ensures
            r == named_pred(name@)(*self),
    {
        str_eq(self.name.as_str(), name)
    }

    /// The restore code in the clear, under the given encryption key.
    /// Under the placeholder key, or when the stored value is not a
    /// ciphertext of the key, the stored value itself comes back unchanged.
    pub fn decrypt_code(&self, key: &str) -> (r: String)
        ensures
            key@ == crypto::spec_placeholder_key() ==> r@ == self.code@,
            key@ != crypto::spec_placeholder_key() ==> (r@ == crypto::dec_of(key@, self.code@)
                || r@ == self.code@),
            key@ != crypto::spec_placeholder_key() && (exists|p: Seq<char>|
                self.code@ == crypto::enc_of(key@, p)) ==> r@ == crypto::dec_of(key@, self.code@),
    {
        crypto::decrypt_secret(self.code.as_str(), key)
    }

    /// The stored form of a restore code under the given encryption key.
    pub fn encrypt_code_str(raw_code: &str, key: &str) -> (r: String)
        ensures
            r@ == crypto::spec_encrypt(key@, raw_code@),
            key@ != crypto::spec_placeholder_key() ==> crypto::dec_of(key@, r@) == raw_code@,
    {
        crypto::encrypt_secret(raw_code, key)
    }
}

impl Settings {
    /// The channel a notification is mirrored to: the configured log channel,
    /// unless messages are muted or the notification already went to that
    /// same channel.
    pub fn mirror_channel(&self, skip: Option<&String>) -> (r: Option<String>)
        ensures
            r is Some <==> (self.mute_bot_messages != Some(true)
                && self.log_channel_id is Some && !(skip matches Some(k)
                && k@ == self.log_channel_id->Some_0@)),
            r matches Some(c) ==> self.log_channel_id matches Some(c0) && c@ == c0@,
    {
        if let Some(true) = self.mute_bot_messages {
            return None;
        }
        match &self.log_channel_id {
            Some(chan) => {
                match skip {
                    Some(k) => {
                        if str_eq(k.as_str(), chan.as_str()) {
                            None
                        } else {
                            Some(chan.clone())
                        }
                    },
                    None => Some(chan.clone()),
                }
            },
            None => None,
        }
    }
}

// --- the store -----------------------------------------------------------

impl Database {
    /// Add an account; an existing entry under the same name is replaced.
    pub fn add_account(&mut self, account: Account)
        ensures
            final(self).data.accounts@ == spec_add_account(old(self).data.accounts@, account),
            final(self).data.settings == old(self).data.settings,
    {
        let ghost pred = other_name_pred(account.name@);
        let mut kept: Vec<Account> = Vec::new();
        let n = self.data.accounts.len();
        let mut i: usize = 0;
        proof {
            reveal(Seq::filter);
            assert(self.data.accounts@.subrange(0, 0) =~= Seq::<Account>::empty());
        }
        while i < n
            invariant
                i <= n,
                n == self.data.accounts@.len(),
                kept@ == self.data.accounts@.subrange(0, i as int).filter(pred),
                pred == other_name_pred(account.name@),
            decreases n - i,
        {
            let keep = !self.data.accounts[i].is_named(account.name.as_str());
            if keep {
                kept.push(self.data.accounts[i].clone());
            }
            proof {
                let s = self.data.accounts@;
                assert(s.subrange(0, i + 1) =~= s.subrange(0, i as int).push(s[i as int]));
                lemma_filter_push(s.subrange(0, i as int), pred, s[i as int]);
            }
            i = i + 1;
        }
        proof {
            assert(self.data.accounts@.subrange(0, n as int) =~= self.data.accounts@);
        }
        kept.push(account);
        self.data.accounts = kept;
    }

    /// Remove the accounts under the given name; reports whether any existed.
    pub fn remove_account(&mut self, name: &str) -> (found: bool)
        ensures
            final(self).data.accounts@ == old(self).data.accounts@.filter(other_name_pred(name@)),
            final(self).data.settings == old(self).data.settings,
            found == exists|k: int|
                0 <= k < old(self).data.accounts@.len() && old(self).data.accounts@[k].name@
                    == name@,
    {
        let ghost pred = other_name_pred(name@);
        let mut kept: Vec<Account> = Vec::new();
        let mut found = false;
        let n = self.data.accounts.len();
        let mut i: usize = 0;
        proof {
            reveal(Seq::filter);
            assert(self.data.accounts@.subrange(0, 0) =~= Seq::<Account>::empty());
        }
        while i < n
            invariant
                i <= n,
                n == self.data.accounts@.len(),
                kept@ == self.data.accounts@.subrange(0, i as int).filter(pred),
                pred == other_name_pred(name@),
                found == exists|k: int|
                    0 <= k < i && self.data.accounts@[k].name@ == name@,
            decreases n - i,
        {
            let is_it = self.data.accounts[i].is_named(name);
            if is_it {
                found = true;
            } else {
                kept.push(self.data.accounts[i].clone());
            }
            proof {
                let s = self.data.accounts@;
                assert(s.subrange(0, i + 1) =~= s.subrange(0, i as int).push(s[i as int]));
                lemma_filter_push(s.subrange(0, i as int), pred, s[i as int]);
            }
            i = i + 1;
        }
        proof {
            assert(self.data.accounts@.subrange(0, n as int) =~= self.data.accounts@);
        }
        self.data.accounts = kept;
        found
    }

    /// Set every account's status back to `pending`; nothing else changes.
    pub fn reset_all_statuses(&mut self)
        ensures
            final(self).data.accounts@.len() == old(self).data.accounts@.len(),
            forall|k: int|
                0 <= k < old(self).data.accounts@.len() ==> {
                    let a0 = old(self).data.accounts@[k];
                    let a1 = #[trigger] final(self).data.accounts@[k];
                    spec_same_core(a0, a1) && a1.last_run == a0.last_run && a1.status@
                        == "pending"@
                },
            final(self).data.settings == old(self).data.settings,
    {
        let n = self.data.accounts.len();
        let mut i: usize = 0;
        while i < n
            invariant
                i <= n,
                n == self.data.accounts@.len(),
                self.data.settings == old(self).data.settings,
                forall|k: int|
                    i <= k < n ==> #[trigger] self.data.accounts@[k] == old(
                        self,
                    ).data.accounts@[k],
                forall|k: int|
                    0 <= k < i ==> {
                        let a0 = old(self).data.accounts@[k];
                        let a1 = #[trigger] self.data.accounts@[k];
                        spec_same_core(a0, a1) && a1.last_run == a0.last_run && a1.status@
                            == "pending"@
                    },
            decreases n - i,
        {
            self.data.accounts[i].status = String::from_str("pending");
            i = i + 1;
        }
    }

    /// Set the status and last-run stamp of the first account under `name`.
    /// Reports whether such an account exists; without one, nothing changes.
    pub fn set_status_with_time(&mut self, name: &str, status: &str, at: &str) -> (found: bool)
        ensures
            final(self).data.settings == old(self).data.settings,
            found == (spec_first_match(old(self).data.accounts@, named_pred(name@)) >= 0),
            !found ==> *final(self) == *old(self),
            found ==> {
                let fi = spec_first_match(old(self).data.accounts@, named_pred(name@));
                let a0 = old(self).data.accounts@[fi];
                let a1 = final(self).data.accounts@[fi];
                &&& final(self).data.accounts@.len() == old(self).data.accounts@.len()
                &&& spec_same_core(a0, a1)
                &&& a1.status@ == status@
                &&& a1.last_run matches Some(t) && t@ == at@
                &&& forall|k: int|
                    0 <= k < old(self).data.accounts@.len() && k != fi
                        ==> #[trigger] final(self).data.accounts@[k] == old(
                        self,
                    ).data.accounts@[k]
            },
    {
        let ghost pred = named_pred(name@);
        let n = self.data.accounts.len();
        let mut i: usize = 0;
        while i < n
            invariant
                i <= n,
                n == self.data.accounts@.len(),
                *self == *old(self),
                pred == named_pred(name@),
                forall|k: int| 0 <= k < i ==> !pred(self.data.accounts@[k]),
            decreases n - i,
        {
            let is_it = self.data.accounts[i].is_named(name);
            if is_it {
                proof {
                    lemma_first_match_at(self.data.accounts@, pred, i as int);
                }
                self.data.accounts[i].status = {
                    let sc = crate::text::to_chars(status);
                    crate::text::from_chars(&sc)
                };
                self.data.accounts[i].last_run = Some(
                    {
                        let ac = crate::text::to_chars(at);
                        crate::text::from_chars(&ac)
                    },
                );
                return true;
            }
            i = i + 1;
        }
        proof {
            lemma_first_match_none(self.data.accounts@, pred);
        }
        false
    }

    /// Set the status of the first account under `name` and stamp it with
    /// the present UTC time. Reports whether such an account exists.
    pub fn update_status(&mut self, name: &str, status: &str) -> (found: bool)
        ensures
            final(self).data.settings == old(self).data.settings,
            found == (spec_first_match(old(self).data.accounts@, named_pred(name@)) >= 0),
            !found ==> *final(self) == *old(self),
            found ==> {
                let fi = spec_first_match(old(self).data.accounts@, named_pred(name@));
                let a0 = old(self).data.accounts@[fi];
                let a1 = final(self).data.accounts@[fi];
                &&& final(self).data.accounts@.len() == old(self).data.accounts@.len()
                &&& spec_same_core(a0, a1)
                &&& a1.status@ == status@
                &&& a1.last_run is Some
                &&& forall|k: int|
                    0 <= k < old(self).data.accounts@.len() && k != fi
                        ==> #[trigger] final(self).data.accounts@[k] == old(
                        self,
                    ).data.accounts@[k]
            },
    {
        let at = now_rfc3339();
        self.set_status_with_time(name, status, at.as_str())
    }

    /// Flip the notification preference of the given owner's accounts: the
    /// first of them decides the new state and all of them take it.
    pub fn toggle_ping(&mut self, user_id: &str) -> (r: Result<bool, DbError>)
        ensures
            final(self).data.settings == old(self).data.settings,
            spec_first_match(old(self).data.accounts@, owned_pred(user_id@)) < 0 ==> r == Err::<
                bool,
                DbError,
            >(DbError::NoAccountsForUser) && *final(self) == *old(self),
            spec_first_match(old(self).data.accounts@, owned_pred(user_id@)) >= 0 ==> {
                let fi = spec_first_match(old(self).data.accounts@, owned_pred(user_id@));
                let ns = !old(self).data.accounts@[fi].ping_enabled;
                &&& r == Ok::<bool, DbError>(ns)
                &&& final(self).data.accounts@.len() == old(self).data.accounts@.len()
                &&& forall|k: int|
                    0 <= k < old(self).data.accounts@.len() ==> {
                        let a0 = old(self).data.accounts@[k];
                        let a1 = #[trigger] final(self).data.accounts@[k];
                        if owned_pred(user_id@)(a0) {
                            spec_same_except_ping(a0, a1) && a1.ping_enabled == ns
                        } else {
                            a1 == a0
                        }
                    }
            },
    {
        let ghost pred = owned_pred(user_id@);
        let n = self.data.accounts.len();

        // Find the first account of this owner; it decides the new state.
        let mut first: usize = 0;
        let mut have_first = false;
        let mut i: usize = 0;
        while i < n && !have_first
            invariant
                i <= n,
                n == self.data.accounts@.len(),
                *self == *old(self),
                pred == owned_pred(user_id@),
                !have_first ==> forall|k: int| 0 <= k < i ==> !pred(self.data.accounts@[k]),
                have_first ==> first < i && pred(self.data.accounts@[first as int]) && (forall|
                    k: int,
                |
                    0 <= k < first ==> !pred(self.data.accounts@[k])),
            decreases n - i,
        {
            if self.data.accounts[i].owned_by(user_id) {
                first = i;
                have_first = true;
            }
            i = i + 1;
        }
        if !have_first {
            proof {
                lemma_first_match_none(self.data.accounts@, pred);
            }
            return Err(DbError::NoAccountsForUser);
        }
        proof {
            lemma_first_match_at(self.data.accounts@, pred, first as int);
        }
        let new_state = !self.data.accounts[first].ping_enabled;

        let mut j: usize = 0;
        while j < n
            invariant
                j <= n,
                n == self.data.accounts@.len(),
                n == old(self).data.accounts@.len(),
                self.data.settings == old(self).data.settings,
                pred == owned_pred(user_id@),
                forall|k: int|
                    j <= k < n ==> #[trigger] self.data.accounts@[k] == old(
                        self,
                    ).data.accounts@[k],
                forall|k: int|
                    0 <= k < j ==> {
                        let a0 = old(self).data.accounts@[k];
                        let a1 = #[trigger] self.data.accounts@[k];
                        if pred(a0) {
                            spec_same_except_ping(a0, a1) && a1.ping_enabled == new_state
                        } else {
                            a1 == a0
                        }
                    },
            decreases n - j,
        {
            let owned = self.data.accounts[j].owned_by(user_id);
            if owned {
                self.data.accounts[j].ping_enabled = new_state;
            }
            j = j + 1;
        }
        Ok(new_state)
    }

    /// Record the mute preference for mirrored notifications.
    pub fn set_mute(&mut self, mute: bool)
        ensures
            final(self).data.accounts == old(self).data.accounts,
            final(self).data.settings.mute_bot_messages == Some(mute),
            final(self).data.settings.cookies == old(self).data.settings.cookies,
            final(self).data.settings.admin_role_id == old(self).data.settings.admin_role_id,
            final(self).data.settings.log_channel_id == old(self).data.settings.log_channel_id,
            final(self).data.settings.admins == old(self).data.settings.admins,
            final(self).data.settings.last_reset_date == old(self).data.settings.last_reset_date,
    {
        self.data.settings.mute_bot_messages = Some(mute);
    }

    /// Record the channel mirrored notifications go to.
    pub fn set_log_channel(&mut self, channel_id: String)
        ensures
            final(self).data.accounts == old(self).data.accounts,
            final(self).data.settings.log_channel_id == Some(channel_id),
            final(self).data.settings.cookies == old(self).data.settings.cookies,
            final(self).data.settings.admin_role_id == old(self).data.settings.admin_role_id,
            final(self).data.settings.mute_bot_messages == old(
                self,
            ).data.settings.mute_bot_messages,
            final(self).data.settings.admins == old(self).data.settings.admins,
            final(self).data.settings.last_reset_date == old(self).data.settings.last_reset_date,
    {
        self.data.settings.log_channel_id = Some(channel_id);
    }

    /// Record the administrator role.
    pub fn set_admin_role(&mut self, role_id: String)
        ensures
            final(self).data.accounts == old(self).data.accounts,
            final(self).data.settings.admin_role_id == Some(role_id),
            final(self).data.settings.cookies == old(self).data.settings.cookies,
            final(self).data.settings.log_channel_id == old(self).data.settings.log_channel_id,
            final(self).data.settings.mute_bot_messages == old(
                self,
            ).data.settings.mute_bot_messages,
            final(self).data.settings.admins == old(self).data.settings.admins,
            final(self).data.settings.last_reset_date == old(self).data.settings.last_reset_date,
    {
        self.data.settings.admin_role_id = Some(role_id);
    }

    /// The given owner's accounts, in stored order.
    pub fn get_user_accounts(&self, user_id: &str) -> (r: Vec<Account>)
        ensures
            r@ == self.data.accounts@.filter(owned_pred(user_id@)),
    {
        let ghost pred = owned_pred(user_id@);
        let mut out: Vec<Account> = Vec::new();
        let n = self.data.accounts.len();
        let mut i: usize = 0;
        proof {
            reveal(Seq::filter);
            assert(self.data.accounts@.subrange(0, 0) =~= Seq::<Account>::empty());
        }
        while i < n
            invariant
                i <= n,
                n == self.data.accounts@.len(),
                out@ == self.data.accounts@.subrange(0, i as int).filter(pred),
                pred == owned_pred(user_id@),
            decreases n - i,
        {
            if self.data.accounts[i].owned_by(user_id) {
                out.push(self.data.accounts[i].clone());
            }
            proof {
                let s = self.data.accounts@;
                assert(s.subrange(0, i + 1) =~= s.subrange(0, i as int).push(s[i as int]));
                lemma_filter_push(s.subrange(0, i as int), pred, s[i as int]);
            }
            i = i + 1;
        }
        proof {
            assert(self.data.accounts@.subrange(0, n as int) =~= self.data.accounts@);
        }
        out
    }

    /// Flip the handout flag of the first account under `name`.
    pub fn toggle_handout(&mut self, name: &str) -> (r: Result<bool, DbError>)
        ensures
            final(self).data.settings == old(self).data.settings,
            spec_first_match(old(self).data.accounts@, named_pred(name@)) < 0 ==> r == Err::<
                bool,
                DbError,
            >(DbError::AccountNotFound) && *final(self) == *old(self),
            spec_first_match(old(self).data.accounts@, named_pred(name@)) >= 0 ==> {
                let fi = spec_first_match(old(self).data.accounts@, named_pred(name@));
                let a0 = old(self).data.accounts@[fi];
                let a1 = final(self).data.accounts@[fi];
                &&& r == Ok::<bool, DbError>(!a0.handout_enabled)
                &&& final(self).data.accounts@.len() == old(self).data.accounts@.len()
                &&& spec_same_except_handout(a0, a1)
                &&& a1.handout_enabled == !a0.handout_enabled
                &&& forall|k: int|
                    0 <= k < old(self).data.accounts@.len() && k != fi
                        ==> #[trigger] final(self).data.accounts@[k] == old(
                        self,
                    ).data.accounts@[k]
            },
    {
        let ghost pred = named_pred(name@);
        let n = self.data.accounts.len();
        let mut i: usize = 0;
        while i < n
            invariant
                i <= n,
                n == self.data.accounts@.len(),
                *self == *old(self),
                pred == named_pred(name@),
                forall|k: int| 0 <= k < i ==> !pred(self.data.accounts@[k]),
            decreases n - i,
        {
            let is_it = self.data.accounts[i].is_named(name);
            if is_it {
                proof {
                    lemma_first_match_at(self.data.accounts@, pred, i as int);
                }
                let new_state = !self.data.accounts[i].handout_enabled;
                self.data.accounts[i].handout_enabled = new_state;
                return Ok(new_state);
            }
            i = i + 1;
        }
        proof {
            lemma_first_match_none(self.data.accounts@, pred);
        }
        Err(DbError::AccountNotFound)
    }

    /// Set the handout flag of the first account under `name` to exactly
    /// `enabled`, idempotently.
    pub fn set_handout(&mut self, name: &str, enabled: bool) -> (r: Result<(), DbError>)
        ensures
            final(self).data.settings == old(self).data.settings,
            spec_first_match(old(self).data.accounts@, named_pred(name@)) < 0 ==> r == Err::<
                (),
                DbError,
            >(DbError::AccountNotFound) && *final(self) == *old(self),
            spec_first_match(old(self).data.accounts@, named_pred(name@)) >= 0 ==> {
                let fi = spec_first_match(old(self).data.accounts@, named_pred(name@));
                let a0 = old(self).data.accounts@[fi];
                let a1 = final(self).data.accounts@[fi];
                &&& r == Ok::<(), DbError>(())
                &&& final(self).data.accounts@.len() == old(self).data.accounts@.len()
                &&& spec_same_except_handout(a0, a1)
                &&& a1.handout_enabled == enabled
                &&& forall|k: int|
                    0 <= k < old(self).data.accounts@.len() && k != fi
                        ==> #[trigger] final(self).data.accounts@[k] == old(
                        self,
                    ).data.accounts@[k]
            },
    {
        let ghost pred = named_pred(name@);
        let n = self.data.accounts.len();
        let mut i: usize = 0;
        while i < n
            invariant
                i <= n,
                n == self.data.accounts@.len(),
                *self == *old(self),
                pred == named_pred(name@),
                forall|k: int| 0 <= k < i ==> !pred(self.data.accounts@[k]),
            decreases n - i,
        {
            let is_it = self.data.accounts[i].is_named(name);
            if is_it {
                proof {
                    lemma_first_match_at(self.data.accounts@, pred, i as int);
                }
                self.data.accounts[i].handout_enabled = enabled;
                return Ok(());
            }
            i = i + 1;
        }
        proof {
            lemma_first_match_none(self.data.accounts@, pred);
        }
        Err(DbError::AccountNotFound)
    }

    /// The accounts enrolled in the handout routine, in stored order.
    pub fn get_handout_accounts(&self) -> (r: Vec<Account>)
        ensures
            r@ == self.data.accounts@.filter(handout_pred()),
    {
        let ghost pred = handout_pred();
        let mut out: Vec<Account> = Vec::new();
        let n = self.data.accounts.len();
        let mut i: usize = 0;
        proof {
            reveal(Seq::filter);
            assert(self.data.accounts@.subrange(0, 0) =~= Seq::<Account>::empty());
        }
        while i < n
            invariant
                i <= n,
                n == self.data.accounts@.len(),
                out@ == self.data.accounts@.subrange(0, i as int).filter(pred),
                pred == handout_pred(),
            decreases n - i,
        {
            if self.data.accounts[i].handout_enabled {
                out.push(self.data.accounts[i].clone());
            }
            proof {
                let s = self.data.accounts@;
                assert(s.subrange(0, i + 1) =~= s.subrange(0, i as int).push(s[i as int]));
                lemma_filter_push(s.subrange(0, i as int), pred, s[i as int]);
            }
            i = i + 1;
        }
        proof {
            assert(self.data.accounts@.subrange(0, n as int) =~= self.data.accounts@);
        }
        out
    }

    /// Whether the given user is an individually authorized administrator.
    pub fn is_admin(&self, user_id: &str) -> (r: bool)
        ensures
            r == spec_is_admin(self.data.settings.admins@, user_id@),
    {
        let n = self.data.settings.admins.len();
        let mut i: usize = 0;
        while i < n
            invariant
                i <= n,
                n == self.data.settings.admins@.len(),
                forall|k: int| 0 <= k < i ==> self.data.settings.admins@[k]@ != user_id@,
            decreases n - i,
        {
            if str_eq(self.data.settings.admins[i].as_str(), user_id) {
                return true;
            }
            i = i + 1;
        }
        false
    }

    /// Authorize a user; reports whether the entry is new.
    pub fn add_admin(&mut self, user_id: String) -> (added: bool)
        ensures
            final(self).data.accounts == old(self).data.accounts,
            added == !spec_is_admin(old(self).data.settings.admins@, user_id@),
            added ==> final(self).data.settings.admins@ == old(
                self,
            ).data.settings.admins@.push(user_id),
            !added ==> *final(self) == *old(self),
            final(self).data.settings.cookies == old(self).data.settings.cookies,
            final(self).data.settings.admin_role_id == old(self).data.settings.admin_role_id,
            final(self).data.settings.log_channel_id == old(self).data.settings.log_channel_id,
            final(self).data.settings.mute_bot_messages == old(
                self,
            ).data.settings.mute_bot_messages,
            final(self).data.settings.last_reset_date == old(self).data.settings.last_reset_date,
    {
        if self.is_admin(user_id.as_str()) {
            false
        } else {
            self.data.settings.admins.push(user_id);
            true
        }
    }

    /// Revoke a user's authorization; reports whether an entry existed.
    pub fn remove_admin(&mut self, user_id: &str) -> (removed: bool)
        ensures
            final(self).data.accounts == old(self).data.accounts,
            removed == spec_is_admin(old(self).data.settings.admins@, user_id@),
            !removed ==> *final(self) == *old(self),
            removed ==> {
                let fi = spec_first_match(old(self).data.settings.admins@, admin_pred(user_id@));
                fi >= 0 && final(self).data.settings.admins@ == old(
                    self,
                ).data.settings.admins@.remove(fi)
            },
            final(self).data.settings.cookies == old(self).data.settings.cookies,
            final(self).data.settings.admin_role_id == old(self).data.settings.admin_role_id,
            final(self).data.settings.log_channel_id == old(self).data.settings.log_channel_id,
            final(self).data.settings.mute_bot_messages == old(
                self,
            ).data.settings.mute_bot_messages,
            final(self).data.settings.last_reset_date == old(self).data.settings.last_reset_date,
    {
        let ghost pred = admin_pred(user_id@);
        let n = self.data.settings.admins.len();
        let mut i: usize = 0;
        while i < n
            invariant
                i <= n,
                n == self.data.settings.admins@.len(),
                *self == *old(self),
                pred == admin_pred(user_id@),
                forall|k: int| 0 <= k < i ==> !pred(self.data.settings.admins@[k]),
            decreases n - i,
        {
            if str_eq(self.data.settings.admins[i].as_str(), user_id) {
                proof {
                    lemma_first_match_at(self.data.settings.admins@, pred, i as int);
                }
                self.data.settings.admins.remove(i);
                return true;
            }
            i = i + 1;
        }
        proof {
            lemma_first_match_none(self.data.settings.admins@, pred);
        }
        false
    }

    /// The authorized administrators, in stored order.
    pub fn get_admins(&self) -> (r: Vec<String>)
        ensures
            r@ == self.data.settings.admins@,
    {
        let n = self.data.settings.admins.len();
        let mut out: Vec<String> = Vec::new();
        let mut i: usize = 0;
        while i < n
            invariant
                i <= n,
                n == self.data.settings.admins@.len(),
                out@ == self.data.settings.admins@.subrange(0, i as int),
            decreases n - i,
        {
            out.push(self.data.settings.admins[i].clone());
            proof {
                assert(out@ =~= self.data.settings.admins@.subrange(0, i + 1));
            }
            i = i + 1;
        }
        proof {
            assert(out@ =~= self.data.settings.admins@);
        }
        out
    }
}

// --- laws ----------------------------------------------------------------

/// Re-adding an account under an existing name replaces it: among the stored
/// accounts, exactly one entry carries that name afterwards, and it is the
/// new entry with its new attributes.
pub proof fn lemma_readd_replaces(accounts: Seq<Account>, account: Account)
    ensures
        spec_add_account(accounts, account).filter(named_pred(account.name@)) =~= seq![account],
{
    let kept = accounts.filter(other_name_pred(account.name@));
    assert forall|k: int| 0 <= k < kept.len() implies !named_pred(account.name@)(kept[k]) by {
        accounts.lemma_filter_pred(other_name_pred(account.name@), k);
    }
    lemma_filter_none(kept, named_pred(account.name@));
    lemma_filter_push(kept, named_pred(account.name@), account);
    assert(Seq::<Account>::empty().push(account) =~= seq![account]);
}

} // verus!
