//! The error classifier and scheduler: which account runs next, what each
//! classified outcome does to the queue, the single-flight guard, and the
//! daily reset.

use vstd::prelude::*;

use crate::db::{owned_pred, spec_same_core, Account, Database};
use crate::seqs::{
    lemma_first_match_at, lemma_first_match_none, lemma_first_match_properties, spec_first_match,
};
use crate::session::Outcome;
use crate::text::{
    from_chars, spec_contains, spec_starts_with, str_contains, str_eq, str_starts_with, to_chars,
};

verus! {

/// Flat pacing delay after every attempt of the main queue, in seconds.
pub const PACING_DELAY_SECS: u64 = 1;

/// Delay between accounts of the handout routine, in seconds.
pub const HANDOUT_DELAY_SECS: u64 = 5;

// --- eligibility ---------------------------------------------------------

/// An account is eligible while its status is not `done`, where an `error`
/// status keeps it eligible only with `Retrying` in its message.
pub open spec fn spec_eligible(status: Seq<char>) -> bool {
    status != "done"@ && (!spec_starts_with(status, "error"@) || spec_contains(
        status,
        "Retrying"@,
    ))
}

/// Whether a status string leaves its account eligible for the queue.
pub fn is_eligible(status: &str) -> (r: bool)
    ensures
        r == spec_eligible(status@),
{
    if str_eq(status, "done") {
        return false;
    }
    if str_starts_with(status, "error") {
        str_contains(status, "Retrying")
    } else {
        true
    }
}

/// An `error` status excludes its account exactly while `Retrying` is
/// missing from the message: adding `Retrying` restores eligibility.
pub proof fn lemma_error_retrying_eligibility(status: Seq<char>)
    ensures
        spec_starts_with(status, "error"@) ==> (spec_eligible(status) <==> spec_contains(
            status,
            "Retrying"@,
        )),
{
    reveal_strlit("error");
    reveal_strlit("done");
    if spec_starts_with(status, "error"@) {
        assert(status.subrange(0, 5)[0] == 'e');
        assert(status != "done"@);
    }
}

// --- selection -----------------------------------------------------------

/// Eligible, owner-matched, and not in an error state: picked first.
pub open spec fn primary_pred(owner: Option<Seq<char>>) -> spec_fn(Account) -> bool {
    |a: Account|
        spec_eligible(a.status@) && (owner matches Some(u) ==> owned_pred(u)(a))
            && !spec_starts_with(a.status@, "error"@)
}

/// Eligible, owner-matched, and retrying after an error: picked second.
pub open spec fn retry_pred(owner: Option<Seq<char>>) -> spec_fn(Account) -> bool {
    |a: Account|
        spec_eligible(a.status@) && (owner matches Some(u) ==> owned_pred(u)(a))
            && spec_starts_with(a.status@, "error"@)
}

/// The view of an optional owner filter.
pub open spec fn opt_str_view(o: Option<&str>) -> Option<Seq<char>> {
    match o {
        Some(u) => Some(u@),
        None => None,
    }
}

/// Index of the next account the queue runs: the first eligible non-error
/// account in stored order, else the first eligible retrying one, else -1.
pub open spec fn spec_select_next(accounts: Seq<Account>, owner: Option<Seq<char>>) -> int {
    if spec_first_match(accounts, primary_pred(owner)) >= 0 {
        spec_first_match(accounts, primary_pred(owner))
    } else {
        spec_first_match(accounts, retry_pred(owner))
    }
}

/// Pick the next eligible account, owner-filtered when asked: pending
/// accounts first in stored order, then error-retrying ones in stored order.
pub fn select_next(accounts: &Vec<Account>, owner: Option<&str>) -> (r: Option<usize>)
    ensures
        r matches Some(i) ==> i as int == spec_select_next(accounts@, opt_str_view(owner)) && i
            < accounts@.len(),
        r is None <==> spec_select_next(accounts@, opt_str_view(owner)) < 0,
{
    let ghost o = opt_str_view(owner);
    let n = accounts.len();

    let mut i: usize = 0;
    while i < n
        invariant
            i <= n,
            n == accounts@.len(),
            o == opt_str_view(owner),
            forall|k: int| 0 <= k < i ==> !primary_pred(o)(accounts@[k]),
        decreases n - i,
    {
        let a = &accounts[i];
        let elig = is_eligible(a.status.as_str());
        let owner_ok = match owner {
            Some(u) => a.owned_by(u),
            None => true,
        };
        let erroring = str_starts_with(a.status.as_str(), "error");
        if elig && owner_ok && !erroring {
            proof {
                lemma_first_match_at(accounts@, primary_pred(o), i as int);
            }
            return Some(i);
        }
        i = i + 1;
    }
    proof {
        lemma_first_match_none(accounts@, primary_pred(o));
    }

    let mut j: usize = 0;
    while j < n
        invariant
            j <= n,
            n == accounts@.len(),
            o == opt_str_view(owner),
            spec_first_match(accounts@, primary_pred(o)) < 0,
            forall|k: int| 0 <= k < j ==> !retry_pred(o)(accounts@[k]),
        decreases n - j,
    {
        let a = &accounts[j];
        let elig = is_eligible(a.status.as_str());
        let owner_ok = match owner {
            Some(u) => a.owned_by(u),
            None => true,
        };
        let erroring = str_starts_with(a.status.as_str(), "error");
        if elig && owner_ok && erroring {
            proof {
                lemma_first_match_at(accounts@, retry_pred(o), j as int);
            }
            return Some(j);
        }
        j = j + 1;
    }
    proof {
        lemma_first_match_none(accounts@, retry_pred(o));
    }
    None
}

/// While any eligible non-error account remains, selection lands on a
/// non-error account: a pending account always goes before an
/// error-retrying one, whatever their stored order.
pub proof fn lemma_pending_before_retrying(
    accounts: Seq<Account>,
    owner: Option<Seq<char>>,
    i: int,
    j: int,
)
    requires
        0 <= i < accounts.len(),
        primary_pred(owner)(accounts[i]),
        0 <= j < accounts.len(),
        retry_pred(owner)(accounts[j]),
    ensures
        0 <= spec_select_next(accounts, owner) < accounts.len(),
        primary_pred(owner)(accounts[spec_select_next(accounts, owner)]),
        spec_select_next(accounts, owner) != j,
{
    lemma_first_match_properties(accounts, primary_pred(owner));
    let p = spec_first_match(accounts, primary_pred(owner));
    if p < 0 {
        assert(!primary_pred(owner)(accounts[i]));
    }
    assert(!(primary_pred(owner)(accounts[j]) && retry_pred(owner)(accounts[j])));
}

// --- the outcome policy --------------------------------------------------

/// What the scheduler does with one classified outcome.
pub struct Directive {
    /// Status to persist for the account, when one is owed.
    pub new_status: Option<String>,
    /// Backoff before the next attempt, in seconds.
    pub delay_secs: u64,
    /// Whether the whole queue stops.
    pub stop_queue: bool,
    /// Whether the attempt counts as a success.
    pub success: bool,
}

/// The per-outcome policy of the main queue: which status is persisted,
/// how long the queue backs off, and whether it stops altogether.
pub fn directive_for(outcome: &Outcome) -> (d: Directive)
    ensures
        *outcome is SessionComplete ==> (d.new_status matches Some(s) && s@ == "done"@)
            && d.delay_secs == 0 && !d.stop_queue && d.success,
        *outcome is InvalidCommandRestart ==> d.new_status is None && d.delay_secs == 5
            && !d.stop_queue && !d.success,
        *outcome is ZigzaDetected ==> (d.new_status matches Some(s) && s@
            == "error: Zigza Retrying"@) && d.delay_secs == 600 && !d.stop_queue && !d.success,
        *outcome is ServerFull ==> d.new_status is None && d.delay_secs == 300 && !d.stop_queue
            && !d.success,
        *outcome is LoginRequired ==> d.new_status is None && d.delay_secs == 0 && d.stop_queue
            && !d.success,
        *outcome is IdleTimeout || *outcome is ConnectionFailed || *outcome is ServerDisconnect
            || *outcome is ConnectionTimeout || *outcome is ActivityTimeout
            || *outcome is HandshakeTimeout ==> d.new_status is None && d.delay_secs == 5
            && !d.stop_queue && !d.success,
        *outcome matches Outcome::Other(m) ==> (d.new_status matches Some(s) && s@ == "error: "@
            + m@) && d.delay_secs == 0 && !d.stop_queue && !d.success,
{
    match outcome {
        Outcome::SessionComplete => Directive {
            new_status: Some(String::from_str("done")),
            delay_secs: 0,
            stop_queue: false,
            success: true,
        },
        Outcome::InvalidCommandRestart => Directive {
            new_status: None,
            delay_secs: 5,
            stop_queue: false,
            success: false,
        },
        Outcome::ZigzaDetected => Directive {
            new_status: Some(String::from_str("error: Zigza Retrying")),
            delay_secs: 600,
            stop_queue: false,
            success: false,
        },
        Outcome::ServerFull => Directive {
            new_status: None,
            delay_secs: 300,
            stop_queue: false,
            success: false,
        },
        Outcome::LoginRequired => Directive {
            new_status: None,
            delay_secs: 0,
            stop_queue: true,
            success: false,
        },
        Outcome::IdleTimeout | Outcome::ConnectionFailed | Outcome::ServerDisconnect
            | Outcome::ConnectionTimeout | Outcome::ActivityTimeout
            | Outcome::HandshakeTimeout => Directive {
            new_status: None,
            delay_secs: 5,
            stop_queue: false,
            success: false,
        },
        Outcome::Other(m) => Directive {
            new_status: Some(String::from_str("error: ").concat(m.as_str())),
            delay_secs: 0,
            stop_queue: false,
            success: false,
        },
    }
}

/// How the handout routine reports one outcome: a completed prompt flow is
/// a success, anything else an error; it persists no status either way.
pub fn handout_success(outcome: &Outcome) -> (r: bool)
    ensures
        r == (*outcome is SessionComplete),
{
    match outcome {
        Outcome::SessionComplete => true,
        _ => false,
    }
}

// --- the single-flight guard ----------------------------------------------

/// What one acquisition attempt does to the guard: the result it returns
/// and the held state it leaves behind.
pub open spec fn spec_try_acquire(held: bool) -> (bool, bool) {
    (!held, true)
}

/// Process-wide single-flight guard: at most one queue iteration at a time.
/// Every trigger path must acquire it before iterating and release it on
/// every exit path. The caller serializes access to the guard itself.
pub struct ProcessingGuard {
    held: bool,
}

impl ProcessingGuard {
    /// Whether the guard is held.
    pub closed spec fn spec_held(&self) -> bool {
        self.held
    }

    /// A fresh, free guard.
    pub fn new() -> (g: ProcessingGuard)
        ensures
            !g.spec_held(),
    {
        ProcessingGuard { held: false }
    }

    /// Whether the guard is held, observed.
    pub fn is_held(&self) -> (r: bool)
        ensures
            r == self.spec_held(),
    {
        self.held
    }

    /// Try to take the guard: succeeds exactly when it was free, and leaves
    /// it held either way.
    pub fn try_acquire(&mut self) -> (r: bool)
        ensures
            r == !old(self).spec_held(),
            final(self).spec_held(),
            (r, final(self).spec_held()) == spec_try_acquire(old(self).spec_held()),
    {
        let was = self.held;
        self.held = true;
        !was
    }

    /// Release the guard unconditionally.
    pub fn release(&mut self)
        ensures
            !final(self).spec_held(),
    {
        self.held = false;
    }

    /// Force the guard free: an in-flight loop observes this at its next
    /// eligibility check and halts.
    pub fn stop(&mut self)
        ensures
            !final(self).spec_held(),
    {
        self.held = false;
    }
}

/// Single flight: of two acquisition attempts with no release in between,
/// the first (from a free guard) succeeds, and the second observes busy and
/// does no work, whatever state the guard started in.
pub proof fn lemma_single_flight(held0: bool)
    ensures
        ({
            let (r1, held1) = spec_try_acquire(held0);
            let (r2, held2) = spec_try_acquire(held1);
            &&& !held0 ==> r1
            &&& !r2
            &&& held2
        }),
{
}

// --- the daily reset -------------------------------------------------------

/// The daily reset fires at 00:00 UTC on a day the marker has not recorded.
pub open spec fn spec_should_reset(
    hour: u32,
    minute: u32,
    marker: Option<Seq<char>>,
    today: Seq<char>,
) -> bool {
    hour == 0 && minute == 0 && !(marker matches Some(m) && m == today)
}

/// Whether the daily reset is due at the given UTC time.
pub fn should_reset(hour: u32, minute: u32, marker: Option<&String>, today: &str) -> (r: bool)
    ensures
        r == spec_should_reset(
            hour,
            minute,
            match marker {
                Some(m) => Some(m@),
                None => None,
            },
            today@,
        ),
{
    if hour != 0 || minute != 0 {
        return false;
    }
    match marker {
        Some(m) => !str_eq(m.as_str(), today),
        None => true,
    }
}

/// Once today's marker is persisted, a repeated check within the same
/// minute does not fire the reset again.
pub proof fn lemma_no_double_reset(hour: u32, minute: u32, today: Seq<char>)
    ensures
        !spec_should_reset(hour, minute, Some(today), today),
{
}

impl Database {
    /// One poll of the daily reset trigger. At 00:00 UTC, when the persisted
    /// marker differs from today, the marker is set to today first and every
    /// account's status goes back to `pending`; the caller then starts the
    /// queue. Reports whether the reset ran.
    pub fn daily_tick(&mut self, hour: u32, minute: u32, today: &str) -> (ran: bool)
        ensures
            ran == spec_should_reset(
                hour,
                minute,
                match old(self).data.settings.last_reset_date {
                    Some(m) => Some(m@),
                    None => None,
                },
                today@,
            ),
            !ran ==> *final(self) == *old(self),
            ran ==> {
                &&& final(self).data.settings.last_reset_date matches Some(m) && m@ == today@
                &&& final(self).data.accounts@.len() == old(self).data.accounts@.len()
                &&& forall|k: int|
                    0 <= k < old(self).data.accounts@.len() ==> {
                        let a0 = old(self).data.accounts@[k];
                        let a1 = #[trigger] final(self).data.accounts@[k];
                        spec_same_core(a0, a1) && a1.last_run == a0.last_run && a1.status@
                            == "pending"@
                    }
                &&& final(self).data.settings.cookies == old(self).data.settings.cookies
                &&& final(self).data.settings.admin_role_id == old(
                    self,
                ).data.settings.admin_role_id
                &&& final(self).data.settings.log_channel_id == old(
                    self,
                ).data.settings.log_channel_id
                &&& final(self).data.settings.mute_bot_messages == old(
                    self,
                ).data.settings.mute_bot_messages
                &&& final(self).data.settings.admins == old(self).data.settings.admins
            },
    {
        let due = should_reset(
            hour,
            minute,
            self.data.settings.last_reset_date.as_ref(),
            today,
        );
        if !due {
            return false;
        }
        let tc = to_chars(today);
        self.data.settings.last_reset_date = Some(from_chars(&tc));
        self.reset_all_statuses();
        true
    }
}

} // verus!
