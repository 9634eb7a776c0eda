//! One game session: its run mode, its classified terminal outcomes, and the
//! session state the prompt-matching rules work on, including the rolling
//! output-history buffer.

use vstd::prelude::*;

use crate::frames::{parse_event_frame, spec_event_frame, ACTIVITY_STALL_SECS, HEARTBEAT_GRACE_MS};
use crate::servers::{choose_server_index, spec_choose_server};
use crate::text::{
    char_utf8_len, char_width, chars_eq, contains_chars, from_chars, lemma_utf8_len_bounds,
    lemma_utf8_len_concat, lemma_utf8_len_drop_first, spec_contains, to_chars, utf8_len,
};

verus! {

/// Which routine a session runs.
#[derive(Clone, Copy, Debug, PartialEq, Eq, Structural)]
pub enum RunMode {
    /// The main once-daily per-account routine.
    Daily,
    /// The secondary handout distribution routine.
    Handout,
}

/// Classified terminal outcome of one session, the closed taxonomy the
/// scheduler branches on. Unclassified failures carry their message.
#[derive(Clone, Debug, PartialEq, Eq)]
pub enum Outcome {
    /// The remote prompt flow reached its clean end.
    SessionComplete,
    /// The remote terminal rejected a command and is exiting.
    InvalidCommandRestart,
    /// The remote reported a Zigza error or a wrong restore code.
    ZigzaDetected,
    /// The server reached its limit of restore accounts.
    ServerFull,
    /// The shared session credential is no longer accepted.
    LoginRequired,
    /// The remote declared the session idle.
    IdleTimeout,
    /// The remote declared the connection failed.
    ConnectionFailed,
    /// The remote disconnected the session.
    ServerDisconnect,
    /// No keep-alive probe arrived within the declared interval plus grace.
    ConnectionTimeout,
    /// No application output arrived within the activity window.
    ActivityTimeout,
    /// The opening handshake did not finish in time.
    HandshakeTimeout,
    /// Any other failure, recorded verbatim.
    Other(String),
}

impl Outcome {
    /// The legacy wire label of this outcome; an unclassified failure is its
    /// own message.
    pub fn label(&self) -> (r: String)
        ensures
            *self is SessionComplete ==> r@ == "SESSION_COMPLETE"@,
            *self is InvalidCommandRestart ==> r@ == "INVALID_COMMAND_RESTART"@,
            *self is ZigzaDetected ==> r@ == "ZIGZA_DETECTED"@,
            *self is ServerFull ==> r@ == "SERVER_FULL"@,
            *self is LoginRequired ==> r@ == "LOGIN_REQUIRED"@,
            *self is IdleTimeout ==> r@ == "IDLE_TIMEOUT"@,
            *self is ConnectionFailed ==> r@ == "CONNECTION_FAILED"@,
            *self is ServerDisconnect ==> r@ == "SERVER_DISCONNECT"@,
            *self is ConnectionTimeout ==> r@ == "CONNECTION_TIMEOUT"@,
            *self is ActivityTimeout ==> r@ == "ACTIVITY_TIMEOUT"@,
            *self is HandshakeTimeout ==> r@ == "Connection handshake timed out"@,
            *self matches Outcome::Other(m) ==> r@ == m@,
    {
        match self {
            Outcome::SessionComplete => String::from_str("SESSION_COMPLETE"),
            Outcome::InvalidCommandRestart => String::from_str("INVALID_COMMAND_RESTART"),
            Outcome::ZigzaDetected => String::from_str("ZIGZA_DETECTED"),
            Outcome::ServerFull => String::from_str("SERVER_FULL"),
            Outcome::LoginRequired => String::from_str("LOGIN_REQUIRED"),
            Outcome::IdleTimeout => String::from_str("IDLE_TIMEOUT"),
            Outcome::ConnectionFailed => String::from_str("CONNECTION_FAILED"),
            Outcome::ServerDisconnect => String::from_str("SERVER_DISCONNECT"),
            Outcome::ConnectionTimeout => String::from_str("CONNECTION_TIMEOUT"),
            Outcome::ActivityTimeout => String::from_str("ACTIVITY_TIMEOUT"),
            Outcome::HandshakeTimeout => String::from_str("Connection handshake timed out"),
            Outcome::Other(m) => m.clone(),
        }
    }
}

/// Byte cap of the rolling output-history buffer.
pub const HISTORY_CAP: usize = 10000;

/// Ghost image of a session: what the prompt rules are defined over.
pub ghost struct SessionModel {
    pub mode: RunMode,
    pub target: Option<Seq<char>>,
    pub code: Seq<char>,
    pub history: Seq<char>,
    pub auto_sent: bool,
    pub handout_sent: bool,
}

/// One live session's protocol state: the account context it runs under,
/// the rolling history, and the two one-shot flags of the prompt rules.
pub struct Session {
    /// Which routine this session runs.
    pub mode: RunMode,
    /// The account's target-server selector, if any.
    pub target_server: Option<String>,
    /// The decrypted restore code to answer the restore prompt with.
    pub code: String,
    /// Rolling output history, oldest data trimmed at the byte cap.
    pub history: Vec<char>,
    /// Cached byte length of `history` under UTF-8.
    hist_bytes: usize,
    /// Whether `auto` was already sent this session.
    pub auto_sent: bool,
    /// Whether `ho` was already sent at the mana prompt this session.
    pub handout_sent: bool,
}

impl View for Session {
    type V = SessionModel;

    closed spec fn view(&self) -> SessionModel {
        SessionModel {
            mode: self.mode,
            target: match self.target_server {
                Some(t) => Some(t@),
                None => None,
            },
            code: self.code@,
            history: self.history@,
            auto_sent: self.auto_sent,
            handout_sent: self.handout_sent,
        }
    }
}

/// The history left once enough leading characters are dropped, whole
/// characters at a time, for the rest to fit the byte cap.
pub open spec fn trim_to_cap(h: Seq<char>) -> Seq<char>
    decreases h.len(),
{
    if utf8_len(h) <= HISTORY_CAP as int {
        h
    } else {
        proof {
            lemma_utf8_len_bounds(h);
        }
        trim_to_cap(h.drop_first())
    }
}

/// The rolling buffer obeys its cap, keeps a suffix of what was appended
/// (so no character is ever split), and drops no more than the cap forces:
/// every longer suffix would still overflow the cap.
pub proof fn lemma_trim_to_cap(h: Seq<char>)
    ensures
        utf8_len(trim_to_cap(h)) <= HISTORY_CAP as int,
        exists|k: int|
            0 <= k <= h.len() && trim_to_cap(h) == h.skip(k) && (forall|j: int|
                0 <= j < k ==> utf8_len(#[trigger] h.skip(j)) > HISTORY_CAP as int),
    decreases h.len(),
{
    if utf8_len(h) <= HISTORY_CAP as int {
        assert(h.skip(0) =~= h);
        assert(trim_to_cap(h) == h.skip(0) && (forall|j: int|
            0 <= j < 0 ==> utf8_len(#[trigger] h.skip(j)) > HISTORY_CAP as int));
    } else {
        lemma_utf8_len_bounds(h);
        let t = h.drop_first();
        lemma_trim_to_cap(t);
        let k = choose|k: int|
            0 <= k <= t.len() && trim_to_cap(t) == t.skip(k) && (forall|j: int|
                0 <= j < k ==> utf8_len(#[trigger] t.skip(j)) > HISTORY_CAP as int);
        assert(h.skip(k + 1) =~= t.skip(k));
        assert forall|j: int| 0 <= j < k + 1 implies utf8_len(#[trigger] h.skip(j))
            > HISTORY_CAP as int by {
            if j == 0 {
                assert(h.skip(0) =~= h);
            } else {
                assert(h.skip(j) =~= t.skip(j - 1));
            }
        }
        assert(trim_to_cap(h) == h.skip(k + 1) && (forall|j: int|
            0 <= j < k + 1 ==> utf8_len(#[trigger] h.skip(j)) > HISTORY_CAP as int));
    }
}

/// A history that already fits the cap is kept whole.
pub proof fn lemma_trim_noop(h: Seq<char>)
    requires
        utf8_len(h) <= HISTORY_CAP as int,
    ensures
        trim_to_cap(h) == h,
{
}

/// One trimming step: while the front overflows the cap, dropping the first
/// character commutes with appending the rest later.
proof fn lemma_trim_step(a: Seq<char>, b: Seq<char>)
    requires
        utf8_len(a) > HISTORY_CAP as int,
    ensures
        a.len() > 0,
        trim_to_cap(a + b) == trim_to_cap(a.drop_first() + b),
{
    lemma_utf8_len_bounds(a);
    lemma_utf8_len_bounds(b);
    lemma_utf8_len_concat(a, b);
    assert((a + b).drop_first() =~= a.drop_first() + b);
    assert(utf8_len(a + b) > HISTORY_CAP as int);
}

impl Session {
    /// The cached byte length is the history's true one and fits the cap.
    pub closed spec fn wf(&self) -> bool {
        self.hist_bytes as int == utf8_len(self.history@) && self.hist_bytes <= HISTORY_CAP
    }

    /// A fresh session for one account context, with empty history and both
    /// one-shot flags clear.
    pub fn new(mode: RunMode, target_server: Option<String>, code: String) -> (s: Session)
        ensures
            s.wf(),
            s@.mode == mode,
            s@.target == match target_server {
                Some(t) => Some(t@),
                None => None::<Seq<char>>,
            },
            s@.code == code@,
            s@.history == Seq::<char>::empty(),
            s@.auto_sent == false,
            s@.handout_sent == false,
    {
        let s = Session {
            mode,
            target_server,
            code,
            history: Vec::new(),
            hist_bytes: 0,
            auto_sent: false,
            handout_sent: false,
        };
        proof {
            assert(s.history@ =~= Seq::<char>::empty());
        }
        s
    }

    /// Append one output chunk to the rolling history, trimming whole
    /// characters from the front once the byte cap is passed.
    pub fn push_chunk(&mut self, chunk: &Vec<char>)
        requires
            old(self).wf(),
        ensures
            final(self).wf(),
            final(self)@.history == trim_to_cap(old(self)@.history + chunk@),
            final(self)@.mode == old(self)@.mode,
            final(self)@.target == old(self)@.target,
            final(self)@.code == old(self)@.code,
            final(self)@.auto_sent == old(self)@.auto_sent,
            final(self)@.handout_sent == old(self)@.handout_sent,
    {
        let n = chunk.len();
        let mut i: usize = 0;
        proof {
            assert(self.history@ + chunk@.skip(0) =~= old(self).history@ + chunk@);
        }
        while i < n
            invariant
                i <= n,
                n == chunk@.len(),
                self.wf(),
                trim_to_cap(self.history@ + chunk@.skip(i as int)) == trim_to_cap(
                    old(self).history@ + chunk@,
                ),
                self.mode == old(self).mode,
                self.target_server == old(self).target_server,
                self.code == old(self).code,
                self.auto_sent == old(self).auto_sent,
                self.handout_sent == old(self).handout_sent,
            decreases n - i,
        {
            let ghost pre = self.history@;
            let c = chunk[i];
            let w = char_width(c);
            self.history.push(c);
            self.hist_bytes = self.hist_bytes + w;
            proof {
                assert(self.history@ =~= pre.push(c));
                assert(pre.push(c) =~= pre + seq![c]);
                lemma_utf8_len_concat(pre, seq![c]);
                assert(utf8_len(seq![c]) == char_utf8_len(c)) by {
                    reveal_with_fuel(utf8_len, 2);
                    assert(seq![c].drop_first() =~= Seq::<char>::empty());
                }
                assert(pre.push(c) + chunk@.skip(i + 1) =~= pre + chunk@.skip(i as int));
            }
            while self.hist_bytes > HISTORY_CAP
                invariant
                    self.hist_bytes as int == utf8_len(self.history@),
                    self.hist_bytes <= HISTORY_CAP + 4,
                    i < n,
                    n == chunk@.len(),
                    trim_to_cap(self.history@ + chunk@.skip(i + 1)) == trim_to_cap(
                        old(self).history@ + chunk@,
                    ),
                    self.mode == old(self).mode,
                    self.target_server == old(self).target_server,
                    self.code == old(self).code,
                    self.auto_sent == old(self).auto_sent,
                    self.handout_sent == old(self).handout_sent,
                decreases self.hist_bytes,
            {
                proof {
                    lemma_trim_step(self.history@, chunk@.skip(i + 1));
                    lemma_utf8_len_bounds(self.history@);
                }
                let ghost before = self.history@;
                let front = self.history[0];
                let fw = char_width(front);
                self.history.remove(0);
                proof {
                    assert(self.history@ =~= before.drop_first());
                    lemma_utf8_len_drop_first(before);
                    lemma_utf8_len_bounds(self.history@);
                }
                self.hist_bytes = self.hist_bytes - fw;
            }
            i = i + 1;
        }
        proof {
            assert(chunk@.skip(n as int) =~= Seq::<char>::empty());
            assert(self.history@ + chunk@.skip(n as int) =~= self.history@);
            lemma_trim_noop(self.history@);
        }
    }
}

// --- the prompt rules --------------------------------------------------------

/// Commands for the command prompt: `d` in Daily mode, `ho` in Handout mode.
pub open spec fn cmds_on_command_prompt(s: SessionModel, chunk: Seq<char>) -> Seq<Seq<char>> {
    if spec_contains(chunk, "Enter Command to use"@) {
        if s.mode is Daily {
            seq!["d"@]
        } else {
            seq!["ho"@]
        }
    } else {
        Seq::empty()
    }
}

/// Commands for the restore prompt: the decrypted restore code.
pub open spec fn cmds_on_restore_prompt(s: SessionModel, chunk: Seq<char>) -> Seq<Seq<char>> {
    if spec_contains(chunk, "Enter Restore code"@) {
        seq![s.code]
    } else {
        Seq::empty()
    }
}

/// Commands for the login server list: with a target set, the index chosen
/// from the accumulated history; without one, nothing at all.
pub open spec fn cmds_on_login_prompt(s: SessionModel, chunk: Seq<char>) -> Seq<Seq<char>> {
    if spec_contains(chunk, "Which acc u want to Login"@) {
        match s.target {
            Some(t) => seq![spec_choose_server(s.history, t)],
            None => Seq::empty(),
        }
    } else {
        Seq::empty()
    }
}

/// Whether the mana prompt fires on this chunk.
pub open spec fn mana_prompt_fires(chunk: Seq<char>) -> bool {
    spec_contains(chunk, "Press y to spend mana on event stages"@)
}

/// Commands for the mana prompt: `y` in Daily mode; in Handout mode `ho`
/// the first time this session, `y` thereafter.
pub open spec fn cmds_on_mana_prompt(s: SessionModel, chunk: Seq<char>) -> Seq<Seq<char>> {
    if mana_prompt_fires(chunk) {
        if s.mode is Daily {
            seq!["y"@]
        } else if !s.handout_sent {
            seq!["ho"@]
        } else {
            seq!["y"@]
        }
    } else {
        Seq::empty()
    }
}

/// Whether the next-event prompt fires on this chunk.
pub open spec fn next_prompt_fires(chunk: Seq<char>) -> bool {
    spec_contains(chunk, "next: Go to the next event"@)
}

/// Commands for the next-event prompt: `auto` the first time this session,
/// `exit` thereafter.
pub open spec fn cmds_on_next_prompt(s: SessionModel, chunk: Seq<char>) -> Seq<Seq<char>> {
    if next_prompt_fires(chunk) {
        if !s.auto_sent {
            seq!["auto"@]
        } else {
            seq!["exit"@]
        }
    } else {
        Seq::empty()
    }
}

/// Commands for the refill prompt: `y`.
pub open spec fn cmds_on_refill_prompt(chunk: Seq<char>) -> Seq<Seq<char>> {
    if spec_contains(chunk, "DO U WANT TO REFILL MANA"@) {
        seq!["y"@]
    } else {
        Seq::empty()
    }
}

/// Commands for the potion-selection prompt: `3`.
pub open spec fn cmds_on_potion_prompt(chunk: Seq<char>) -> Seq<Seq<char>> {
    if spec_contains(chunk, "Enter 1, 2 or 3 to select potion to refill"@) {
        seq!["3"@]
    } else {
        Seq::empty()
    }
}

/// Commands for the potion-quantity prompt: `1`.
pub open spec fn cmds_on_quantity_prompt(chunk: Seq<char>) -> Seq<Seq<char>> {
    if spec_contains(chunk, "number of stam100 potions to refill"@) {
        seq!["1"@]
    } else {
        Seq::empty()
    }
}

/// Commands for the more-events prompt: `y`; the next-event rule, its
/// one-shot flag by then set, later answers `exit`.
pub open spec fn cmds_on_more_events_prompt(chunk: Seq<char>) -> Seq<Seq<char>> {
    if spec_contains(chunk, "Press y to do more events"@) {
        seq!["y"@]
    } else {
        Seq::empty()
    }
}

/// All command rules of one chunk, in their fixed order, each firing at
/// most once, and the one-shot flags they leave behind.
pub open spec fn spec_commands(s: SessionModel, chunk: Seq<char>) -> (SessionModel, Seq<Seq<char>>) {
    let s2 = SessionModel {
        auto_sent: s.auto_sent || next_prompt_fires(chunk),
        handout_sent: s.handout_sent || (mana_prompt_fires(chunk) && s.mode is Handout),
        ..s
    };
    let cmds = cmds_on_command_prompt(s, chunk) + cmds_on_restore_prompt(s, chunk)
        + cmds_on_login_prompt(s, chunk) + cmds_on_mana_prompt(s, chunk) + cmds_on_next_prompt(
        s,
        chunk,
    ) + cmds_on_refill_prompt(chunk) + cmds_on_potion_prompt(chunk) + cmds_on_quantity_prompt(
        chunk,
    ) + cmds_on_more_events_prompt(chunk);
    (s2, cmds)
}

/// What one output chunk does to a session: the session after it, the
/// commands to send in order, and the outcome it signals, if any. The chunk
/// joins the rolling history first; then the failure rules are checked in
/// order, and only when none fires do the command rules and the completion
/// rule run.
pub open spec fn spec_step(s0: SessionModel, chunk: Seq<char>) -> (
    SessionModel,
    Seq<Seq<char>>,
    Option<Outcome>,
) {
    let s1 = SessionModel { history: trim_to_cap(s0.history + chunk), ..s0 };
    if spec_contains(chunk, "Invalid Command"@) && spec_contains(chunk, "Exiting Now"@) {
        (s1, Seq::empty(), Some(Outcome::InvalidCommandRestart))
    } else if spec_contains(chunk, "Either Zigza error or Incorrect Restore Code Entered"@) {
        (s1, Seq::empty(), Some(Outcome::ZigzaDetected))
    } else if spec_contains(chunk, "Server reached maximum limit of restore accounts"@) {
        (s1, Seq::empty(), Some(Outcome::ServerFull))
    } else if spec_contains(chunk, "Access to start bot is restricted only for logged in users"@) {
        (s1, Seq::empty(), Some(Outcome::LoginRequired))
    } else {
        let sc = spec_commands(s1, chunk);
        let outcome = if spec_contains(chunk, "Press y to perform more commands"@) {
            Some(Outcome::SessionComplete)
        } else {
            None
        };
        (sc.0, sc.1, outcome)
    }
}

/// What one inbound event frame does to a session: an `output` event steps
/// the prompt rules on its text; the three server-declared failures signal
/// their outcomes; anything else, including an unparseable frame, is
/// ignored.
pub open spec fn spec_handle_frame(s0: SessionModel, t: Seq<char>) -> (
    SessionModel,
    Seq<Seq<char>>,
    Option<Outcome>,
) {
    match spec_event_frame(t) {
        None => (s0, Seq::empty(), None),
        Some(ev) => {
            if ev.0 == "output"@ {
                match ev.1 {
                    Some(data) => spec_step(s0, data),
                    None => (s0, Seq::empty(), None),
                }
            } else if ev.0 == "idle_timeout"@ {
                (s0, Seq::empty(), Some(Outcome::IdleTimeout))
            } else if ev.0 == "connection_failed"@ {
                (s0, Seq::empty(), Some(Outcome::ConnectionFailed))
            } else if ev.0 == "disconnect"@ {
                (s0, Seq::empty(), Some(Outcome::ServerDisconnect))
            } else {
                (s0, Seq::empty(), None)
            }
        },
    }
}

/// Append one command, tracking the decoded view of the list.
fn push_cmd(cmds: &mut Vec<String>, c: String)
    ensures
        final(cmds).deep_view() == old(cmds).deep_view().push(c@),
{
    let ghost dv0 = cmds.deep_view();
    cmds.push(c);
    proof {
        assert(cmds.deep_view() =~= dv0.push(c@));
    }
}

impl Session {
    /// The command-prompt rule: `d` in Daily mode, `ho` in Handout mode.
    fn rule_command_prompt(&self, chunk: &Vec<char>, cmds: &mut Vec<String>)
        ensures
            final(cmds).deep_view() == old(cmds).deep_view() + cmds_on_command_prompt(
                self@,
                chunk@,
            ),
    {
        let ghost dv0 = cmds.deep_view();
        let p = to_chars("Enter Command to use");
        if contains_chars(chunk, &p) {
            match self.mode {
                RunMode::Daily => push_cmd(cmds, String::from_str("d")),
                RunMode::Handout => push_cmd(cmds, String::from_str("ho")),
            }
            proof {
                assert(cmds.deep_view() =~= dv0 + cmds_on_command_prompt(self@, chunk@));
            }
        } else {
            proof {
                assert(cmds.deep_view() =~= dv0 + cmds_on_command_prompt(self@, chunk@));
            }
        }
    }

    /// The restore-prompt rule: the decrypted restore code.
    fn rule_restore_prompt(&self, chunk: &Vec<char>, cmds: &mut Vec<String>)
        ensures
            final(cmds).deep_view() == old(cmds).deep_view() + cmds_on_restore_prompt(
                self@,
                chunk@,
            ),
    {
        let ghost dv0 = cmds.deep_view();
        let p = to_chars("Enter Restore code");
        if contains_chars(chunk, &p) {
            push_cmd(cmds, self.code.clone());
            proof {
                assert(cmds.deep_view() =~= dv0 + cmds_on_restore_prompt(self@, chunk@));
            }
        } else {
            proof {
                assert(cmds.deep_view() =~= dv0 + cmds_on_restore_prompt(self@, chunk@));
            }
        }
    }

    /// The login-prompt rule: the server index chosen from the history when
    /// a target is set; nothing otherwise.
    fn rule_login_prompt(&self, chunk: &Vec<char>, cmds: &mut Vec<String>)
        ensures
            final(cmds).deep_view() == old(cmds).deep_view() + cmds_on_login_prompt(
                self@,
                chunk@,
            ),
    {
        let ghost dv0 = cmds.deep_view();
        let p = to_chars("Which acc u want to Login");
        if contains_chars(chunk, &p) {
            match &self.target_server {
                Some(t) => {
                    let tv = to_chars(t.as_str());
                    let idx = choose_server_index(&self.history, &tv);
                    push_cmd(cmds, from_chars(&idx));
                    proof {
                        assert(cmds.deep_view() =~= dv0 + cmds_on_login_prompt(self@, chunk@));
                    }
                },
                None => {
                    proof {
                        assert(cmds.deep_view() =~= dv0 + cmds_on_login_prompt(self@, chunk@));
                    }
                },
            }
        } else {
            proof {
                assert(cmds.deep_view() =~= dv0 + cmds_on_login_prompt(self@, chunk@));
            }
        }
    }

    /// The mana-prompt rule: `y` in Daily mode; in Handout mode `ho` once,
    /// then `y`, flipping the one-shot flag.
    fn rule_mana_prompt(&mut self, chunk: &Vec<char>, cmds: &mut Vec<String>)
        requires
            old(self).wf(),
        ensures
            final(self).wf(),
            final(cmds).deep_view() == old(cmds).deep_view() + cmds_on_mana_prompt(
                old(self)@,
                chunk@,
            ),
            final(self)@ == (SessionModel {
                handout_sent: old(self)@.handout_sent || (mana_prompt_fires(chunk@) && old(
                    self,
                )@.mode is Handout),
                ..old(self)@
            }),
    {
        let ghost dv0 = cmds.deep_view();
        let p = to_chars("Press y to spend mana on event stages");
        if contains_chars(chunk, &p) {
            match self.mode {
                RunMode::Daily => push_cmd(cmds, String::from_str("y")),
                RunMode::Handout => {
                    if !self.handout_sent {
                        push_cmd(cmds, String::from_str("ho"));
                        self.handout_sent = true;
                    } else {
                        push_cmd(cmds, String::from_str("y"));
                    }
                },
            }
            proof {
                assert(cmds.deep_view() =~= dv0 + cmds_on_mana_prompt(old(self)@, chunk@));
            }
        } else {
            proof {
                assert(cmds.deep_view() =~= dv0 + cmds_on_mana_prompt(old(self)@, chunk@));
            }
        }
    }

    /// The next-event rule: `auto` once, then `exit`, flipping the one-shot
    /// flag.
    fn rule_next_prompt(&mut self, chunk: &Vec<char>, cmds: &mut Vec<String>)
        requires
            old(self).wf(),
        ensures
            final(self).wf(),
            final(cmds).deep_view() == old(cmds).deep_view() + cmds_on_next_prompt(
                old(self)@,
                chunk@,
            ),
            final(self)@ == (SessionModel {
                auto_sent: old(self)@.auto_sent || next_prompt_fires(chunk@),
                ..old(self)@
            }),
    {
        let ghost dv0 = cmds.deep_view();
        let p = to_chars("next: Go to the next event");
        if contains_chars(chunk, &p) {
            if !self.auto_sent {
                push_cmd(cmds, String::from_str("auto"));
                self.auto_sent = true;
            } else {
                push_cmd(cmds, String::from_str("exit"));
            }
            proof {
                assert(cmds.deep_view() =~= dv0 + cmds_on_next_prompt(old(self)@, chunk@));
            }
        } else {
            proof {
                assert(cmds.deep_view() =~= dv0 + cmds_on_next_prompt(old(self)@, chunk@));
            }
        }
    }

    /// One fixed-answer rule: push `answer` when `chunk` holds `prompt`.
    fn rule_fixed(chunk: &Vec<char>, prompt: &str, answer: &str, cmds: &mut Vec<String>)
        ensures
            final(cmds).deep_view() == old(cmds).deep_view() + (if spec_contains(
                chunk@,
                prompt@,
            ) {
                seq![answer@]
            } else {
                Seq::<Seq<char>>::empty()
            }),
    {
        let ghost dv0 = cmds.deep_view();
        let p = to_chars(prompt);
        if contains_chars(chunk, &p) {
            push_cmd(cmds, {
                let av = to_chars(answer);
                from_chars(&av)
            });
            proof {
                assert(cmds.deep_view() =~= dv0 + seq![answer@]);
            }
        } else {
            proof {
                assert(cmds.deep_view() =~= dv0 + Seq::<Seq<char>>::empty());
            }
        }
    }

    /// Run the command rules of one chunk, in their fixed order, against
    /// the already-updated history, flipping the one-shot flags.
    #[verifier::rlimit(100)]
    #[verifier::spinoff_prover]
    fn run_command_rules(&mut self, chunk: &Vec<char>) -> (cmds: Vec<String>)
        requires
            old(self).wf(),
        ensures
            final(self).wf(),
            final(self)@ == spec_commands(old(self)@, chunk@).0,
            cmds.deep_view() == spec_commands(old(self)@, chunk@).1,
    {
        let ghost s1 = self@;
        let mut cmds: Vec<String> = Vec::new();
        proof {
            assert(cmds.deep_view() =~= Seq::<Seq<char>>::empty());
        }
        self.rule_command_prompt(chunk, &mut cmds);
        self.rule_restore_prompt(chunk, &mut cmds);
        self.rule_login_prompt(chunk, &mut cmds);
        self.rule_mana_prompt(chunk, &mut cmds);
        let ghost s_mid = self@;
        self.rule_next_prompt(chunk, &mut cmds);
        proof {
            assert(cmds_on_next_prompt(s_mid, chunk@) == cmds_on_next_prompt(s1, chunk@));
        }
        Self::rule_fixed(chunk, "DO U WANT TO REFILL MANA", "y", &mut cmds);
        Self::rule_fixed(chunk, "Enter 1, 2 or 3 to select potion to refill", "3", &mut cmds);
        Self::rule_fixed(chunk, "number of stam100 potions to refill", "1", &mut cmds);
        Self::rule_fixed(chunk, "Press y to do more events", "y", &mut cmds);
        proof {
            assert(cmds.deep_view() =~= spec_commands(s1, chunk@).1);
            assert(self@ == spec_commands(s1, chunk@).0);
        }
        cmds
    }

    /// Run the prompt rules on one output chunk, given as characters.
    pub fn step_chars(&mut self, chunk: &Vec<char>) -> (r: (Vec<String>, Option<Outcome>))
        requires
            old(self).wf(),
        ensures
            final(self).wf(),
            ({
                let st = spec_step(old(self)@, chunk@);
                &&& final(self)@ == st.0
                &&& r.0.deep_view() == st.1
                &&& r.1 == st.2
            }),
    {
        let ghost s0 = self@;
        self.push_chunk(chunk);
        proof {
            assert(self@ == SessionModel { history: trim_to_cap(s0.history + chunk@), ..s0 });
        }

        let p_invalid = to_chars("Invalid Command");
        let p_exiting = to_chars("Exiting Now");
        if contains_chars(chunk, &p_invalid) && contains_chars(chunk, &p_exiting) {
            let fail_cmds: Vec<String> = Vec::new();
            proof {
                assert(fail_cmds.deep_view() =~= Seq::<Seq<char>>::empty());
            }
            return (fail_cmds, Some(Outcome::InvalidCommandRestart));
        }
        let p_zigza = to_chars("Either Zigza error or Incorrect Restore Code Entered");
        if contains_chars(chunk, &p_zigza) {
            let fail_cmds: Vec<String> = Vec::new();
            proof {
                assert(fail_cmds.deep_view() =~= Seq::<Seq<char>>::empty());
            }
            return (fail_cmds, Some(Outcome::ZigzaDetected));
        }
        let p_full = to_chars("Server reached maximum limit of restore accounts");
        if contains_chars(chunk, &p_full) {
            let fail_cmds: Vec<String> = Vec::new();
            proof {
                assert(fail_cmds.deep_view() =~= Seq::<Seq<char>>::empty());
            }
            return (fail_cmds, Some(Outcome::ServerFull));
        }
        let p_login = to_chars("Access to start bot is restricted only for logged in users");
        if contains_chars(chunk, &p_login) {
            let fail_cmds: Vec<String> = Vec::new();
            proof {
                assert(fail_cmds.deep_view() =~= Seq::<Seq<char>>::empty());
            }
            return (fail_cmds, Some(Outcome::LoginRequired));
        }

        let cmds = self.run_command_rules(chunk);

        let p_done = to_chars("Press y to perform more commands");
        let outcome = if contains_chars(chunk, &p_done) {
            Some(Outcome::SessionComplete)
        } else {
            None
        };
        (cmds, outcome)
    }

    /// Run the prompt rules on one output chunk.
    pub fn handle_output(&mut self, chunk: &str) -> (r: (Vec<String>, Option<Outcome>))
        requires
            old(self).wf(),
        ensures
            final(self).wf(),
            ({
                let st = spec_step(old(self)@, chunk@);
                &&& final(self)@ == st.0
                &&& r.0.deep_view() == st.1
                &&& r.1 == st.2
            }),
    {
        let cc = to_chars(chunk);
        self.step_chars(&cc)
    }

    /// Consume one inbound frame text as an application event: step the
    /// rules on `output` text, signal the server-declared failures, ignore
    /// the rest.
    pub fn handle_frame(&mut self, text: &str) -> (r: (Vec<String>, Option<Outcome>))
        requires
            old(self).wf(),
        ensures
            final(self).wf(),
            ({
                let st = spec_handle_frame(old(self)@, text@);
                &&& final(self)@ == st.0
                &&& r.0.deep_view() == st.1
                &&& r.1 == st.2
            }),
    {
        let ev = match parse_event_frame(text) {
            Some(ev) => ev,
            None => {
                let none_cmds: Vec<String> = Vec::new();
                proof {
                    assert(none_cmds.deep_view() =~= Seq::<Seq<char>>::empty());
                }
                return (none_cmds, None);
            },
        };
        let k_output = to_chars("output");
        if chars_eq(&ev.0, &k_output) {
            match ev.1 {
                Some(data) => self.step_chars(&data),
                None => {
                    let none_cmds: Vec<String> = Vec::new();
                    proof {
                        assert(none_cmds.deep_view() =~= Seq::<Seq<char>>::empty());
                    }
                    (none_cmds, None)
                },
            }
        } else {
            let k_idle = to_chars("idle_timeout");
            let k_connfail = to_chars("connection_failed");
            let k_disc = to_chars("disconnect");
            let none_cmds: Vec<String> = Vec::new();
            proof {
                assert(none_cmds.deep_view() =~= Seq::<Seq<char>>::empty());
            }
            if chars_eq(&ev.0, &k_idle) {
                (none_cmds, Some(Outcome::IdleTimeout))
            } else if chars_eq(&ev.0, &k_connfail) {
                (none_cmds, Some(Outcome::ConnectionFailed))
            } else if chars_eq(&ev.0, &k_disc) {
                (none_cmds, Some(Outcome::ServerDisconnect))
            } else {
                (none_cmds, None)
            }
        }
    }
}

// --- supervision ---------------------------------------------------------------

/// The supervisory ruling: a dead connection once the last keep-alive
/// probe is older than the declared interval plus grace; a stuck session
/// once application output stalled past the activity window.
pub open spec fn spec_check_timeouts(
    ms_since_probe: u64,
    ping_interval_ms: u64,
    secs_since_output: u64,
) -> Option<Outcome> {
    if ms_since_probe > ping_interval_ms + HEARTBEAT_GRACE_MS {
        Some(Outcome::ConnectionTimeout)
    } else if secs_since_output > ACTIVITY_STALL_SECS {
        Some(Outcome::ActivityTimeout)
    } else {
        None
    }
}

/// One supervisory check of a live session.
pub fn check_timeouts(ms_since_probe: u64, ping_interval_ms: u64, secs_since_output: u64) -> (r:
    Option<Outcome>)
    requires
        ping_interval_ms <= u64::MAX - HEARTBEAT_GRACE_MS,
    ensures
        r == spec_check_timeouts(ms_since_probe, ping_interval_ms, secs_since_output),
{
    if ms_since_probe > ping_interval_ms + HEARTBEAT_GRACE_MS {
        Some(Outcome::ConnectionTimeout)
    } else if secs_since_output > ACTIVITY_STALL_SECS {
        Some(Outcome::ActivityTimeout)
    } else {
        None
    }
}

// --- laws ------------------------------------------------------------------------

/// A chunk carrying the command prompt and no other prompt, in Daily mode,
/// produces exactly one outbound command: `d`, and no terminal outcome.
pub proof fn lemma_command_prompt_daily(s: SessionModel, chunk: Seq<char>)
    requires
        s.mode is Daily,
        spec_contains(chunk, "Enter Command to use"@),
        !spec_contains(chunk, "Invalid Command"@),
        !spec_contains(chunk, "Either Zigza error or Incorrect Restore Code Entered"@),
        !spec_contains(chunk, "Server reached maximum limit of restore accounts"@),
        !spec_contains(chunk, "Access to start bot is restricted only for logged in users"@),
        !spec_contains(chunk, "Enter Restore code"@),
        !spec_contains(chunk, "Which acc u want to Login"@),
        !spec_contains(chunk, "Press y to spend mana on event stages"@),
        !spec_contains(chunk, "next: Go to the next event"@),
        !spec_contains(chunk, "DO U WANT TO REFILL MANA"@),
        !spec_contains(chunk, "Enter 1, 2 or 3 to select potion to refill"@),
        !spec_contains(chunk, "number of stam100 potions to refill"@),
        !spec_contains(chunk, "Press y to do more events"@),
        !spec_contains(chunk, "Press y to perform more commands"@),
    ensures
        spec_step(s, chunk).1 =~= seq!["d"@],
        spec_step(s, chunk).2 is None,
{
}

/// The run-complete prompt, when no failure rule fires in the same chunk,
/// signals a completed session; the scheduler's policy then marks the
/// account `done`.
pub proof fn lemma_complete_prompt(s: SessionModel, chunk: Seq<char>)
    requires
        spec_contains(chunk, "Press y to perform more commands"@),
        !(spec_contains(chunk, "Invalid Command"@) && spec_contains(chunk, "Exiting Now"@)),
        !spec_contains(chunk, "Either Zigza error or Incorrect Restore Code Entered"@),
        !spec_contains(chunk, "Server reached maximum limit of restore accounts"@),
        !spec_contains(chunk, "Access to start bot is restricted only for logged in users"@),
    ensures
        spec_step(s, chunk).2 == Some(Outcome::SessionComplete),
{
}


} // verus!
