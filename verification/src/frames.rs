//! The ASCII wire framing of the Engine.IO/Socket.IO-style transport: frame
//! classification by prefix, the open-packet and application-event payloads,
//! and the outbound frames the session sends.

use vstd::prelude::*;

use crate::json::{
    escape_chars, obj_end, obj_find_string, obj_find_u64, obj_rest, obj_string_value,
    obj_u64_value, skip_any_value, skip_value, skip_ws, spec_escape, spec_str_body, str_body,
    ws_end,
};
use crate::text::{from_chars, spec_starts_with, str_eq, str_starts_with, sub_chars, to_chars};

verus! {

/// Seconds the opening handshake may take before it counts as failed.
pub const HANDSHAKE_TIMEOUT_SECS: u64 = 15;

/// Seconds between transport-level keep-alive pings.
pub const KEEPALIVE_PING_SECS: u64 = 20;

/// Seconds between supervisory timeout checks.
pub const SUPERVISION_TICK_SECS: u64 = 5;

/// Milliseconds of grace past the declared ping interval before the
/// connection counts as dead.
pub const HEARTBEAT_GRACE_MS: u64 = 15000;

/// Seconds without application output before the session counts as stuck.
pub const ACTIVITY_STALL_SECS: u64 = 120;

/// Declared ping interval assumed when the open packet names none, in
/// milliseconds.
pub const DEFAULT_PING_INTERVAL_MS: u64 = 25000;

// --- inbound frame classification -----------------------------------------

/// What an inbound text frame is, by its ASCII prefix.
#[derive(Clone, Copy, Debug, PartialEq, Eq, Structural)]
pub enum FrameKind {
    /// `0<json>`: the open packet carrying session id and ping interval.
    Open,
    /// `2`: a keep-alive probe, owed an immediate `3` acknowledgement.
    Probe,
    /// `40`: the namespace join acknowledgement.
    NamespaceAck,
    /// `42<json-array>`: an application event.
    Event,
    /// Anything else, ignored.
    Other,
}

/// Classify an inbound frame by its prefix.
pub fn classify_frame(text: &str) -> (k: FrameKind)
    ensures
        k is Probe <==> text@ == "2"@,
        k is NamespaceAck <==> spec_starts_with(text@, "40"@),
        k is Event <==> spec_starts_with(text@, "42"@),
        k is Open <==> (spec_starts_with(text@, "0"@) && text@ != "2"@ && !spec_starts_with(
            text@,
            "40"@,
        ) && !spec_starts_with(text@, "42"@)),
{
    proof {
        reveal_strlit("0");
        reveal_strlit("2");
        reveal_strlit("40");
        reveal_strlit("42");
        assert("2"@.len() == 1 && "40"@.len() == 2 && "42"@.len() == 2);
        assert("40"@[1] == '0' && "42"@[1] == '2');
    }
    if str_eq(text, "2") {
        FrameKind::Probe
    } else if str_starts_with(text, "40") {
        FrameKind::NamespaceAck
    } else if str_starts_with(text, "42") {
        FrameKind::Event
    } else if str_starts_with(text, "0") {
        FrameKind::Open
    } else {
        FrameKind::Other
    }
}

// --- the open packet ---------------------------------------------------------

/// The open packet's payload: its session id, and its declared ping
/// interval in milliseconds (defaulted when absent); `None` when the
/// payload is not a well-formed flat object carrying a session id.
pub open spec fn spec_open_payload(s: Seq<char>) -> Option<(Seq<char>, int)> {
    let b = ws_end(s, 0);
    if !(b < s.len() && s[b] == '{') {
        None
    } else {
        let m = ws_end(s, b + 1);
        let e = obj_end(s, m);
        if e < 0 || ws_end(s, e) != s.len() {
            None
        } else {
            match obj_find_string(s, m, "sid"@) {
                None => None,
                Some(sid) => {
                    let ping = match obj_find_u64(s, m, "pingInterval"@) {
                        Some(v) => v,
                        None => DEFAULT_PING_INTERVAL_MS as int,
                    };
                    Some((sid, ping))
                },
            }
        }
    }
}

/// The whole open frame: a `0` prefix and then the payload.
pub open spec fn spec_open_frame(t: Seq<char>) -> Option<(Seq<char>, int)> {
    if t.len() >= 1 && t[0] == '0' {
        spec_open_payload(t.skip(1))
    } else {
        None
    }
}

/// Parse the handshake's open frame: the session id and the declared ping
/// interval in milliseconds.
pub fn parse_open_packet(text: &str) -> (r: Option<(String, u64)>)
    ensures
        r matches Some(p) ==> spec_open_frame(text@) == Some((p.0@, p.1 as int)),
        r is None ==> spec_open_frame(text@) is None,
{
    let t = to_chars(text);
    if t.len() < 1 || t[0] != '0' {
        return None;
    }
    let s = sub_chars(&t, 1, t.len());
    proof {
        assert(s@ =~= t@.skip(1));
    }
    let b = skip_ws(&s, 0);
    if !(b < s.len() && s[b] == '{') {
        return None;
    }
    let m = skip_ws(&s, b + 1);
    let e = match obj_rest(&s, m) {
        Some(e) => e,
        None => {
            return None;
        },
    };
    if skip_ws(&s, e) != s.len() {
        return None;
    }
    let sid_key = to_chars("sid");
    let sid = match obj_string_value(&s, m, &sid_key) {
        Some(sid) => sid,
        None => {
            return None;
        },
    };
    let ping_key = to_chars("pingInterval");
    let ping = match obj_u64_value(&s, m, &ping_key) {
        Some(v) => v,
        None => DEFAULT_PING_INTERVAL_MS,
    };
    Some((from_chars(&sid), ping))
}

// --- application events --------------------------------------------------------

/// An application event's payload: the event name, and, when the payload is
/// a flat object with a string member under `data`, that member's decoded
/// text.
pub open spec fn spec_event_payload(s: Seq<char>) -> Option<(Seq<char>, Option<Seq<char>>)> {
    let b = ws_end(s, 0);
    if !(b < s.len() && s[b] == '[') {
        None
    } else {
        let ns = ws_end(s, b + 1);
        if !(ns < s.len() && s[ns] == '"') {
            None
        } else {
            match spec_str_body(s, ns + 1) {
                None => None,
                Some(t) => {
                    let c = ws_end(s, t.1);
                    if c < s.len() && s[c] == ']' {
                        if ws_end(s, c + 1) == s.len() {
                            Some((t.0, None))
                        } else {
                            None
                        }
                    } else if c < s.len() && s[c] == ',' {
                        let v = ws_end(s, c + 1);
                        if v < s.len() && s[v] == '{' {
                            let m = ws_end(s, v + 1);
                            let e = obj_end(s, m);
                            if e < 0 {
                                None
                            } else {
                                let c2 = ws_end(s, e);
                                if c2 < s.len() && s[c2] == ']' && ws_end(s, c2 + 1) == s.len() {
                                    Some((t.0, obj_find_string(s, m, "data"@)))
                                } else {
                                    None
                                }
                            }
                        } else {
                            let e = skip_value(s, v);
                            if e < 0 {
                                None
                            } else {
                                let c2 = ws_end(s, e);
                                if c2 < s.len() && s[c2] == ']' && ws_end(s, c2 + 1) == s.len() {
                                    Some((t.0, None))
                                } else {
                                    None
                                }
                            }
                        }
                    } else {
                        None
                    }
                },
            }
        }
    }
}

/// The whole event frame: a `42` prefix and then the payload.
pub open spec fn spec_event_frame(t: Seq<char>) -> Option<(Seq<char>, Option<Seq<char>>)> {
    if t.len() >= 2 && t[0] == '4' && t[1] == '2' {
        spec_event_payload(t.skip(2))
    } else {
        None
    }
}

/// Parse an application-event frame: the event name, and the decoded text
/// of an `output` payload's `data` member when there is one.
pub fn parse_event_frame(text: &str) -> (r: Option<(Vec<char>, Option<Vec<char>>)>)
    ensures
        r matches Some(p) ==> spec_event_frame(text@) == Some(
            (
                p.0@,
                match p.1 {
                    Some(d) => Some(d@),
                    None => None,
                },
            ),
        ),
        r is None ==> spec_event_frame(text@) is None,
{
    let t = to_chars(text);
    if t.len() < 2 || t[0] != '4' || t[1] != '2' {
        return None;
    }
    let s = sub_chars(&t, 2, t.len());
    proof {
        assert(s@ =~= t@.skip(2));
    }
    let b = skip_ws(&s, 0);
    if !(b < s.len() && s[b] == '[') {
        return None;
    }
    let ns = skip_ws(&s, b + 1);
    if !(ns < s.len() && s[ns] == '"') {
        return None;
    }
    let nm = match str_body(&s, ns + 1) {
        Some(nm) => nm,
        None => {
            return None;
        },
    };
    let c = skip_ws(&s, nm.1);
    if c < s.len() && s[c] == ']' {
        if skip_ws(&s, c + 1) == s.len() {
            return Some((nm.0, None));
        } else {
            return None;
        }
    }
    if !(c < s.len() && s[c] == ',') {
        return None;
    }
    let v = skip_ws(&s, c + 1);
    if v < s.len() && s[v] == '{' {
        let m = skip_ws(&s, v + 1);
        let e = match obj_rest(&s, m) {
            Some(e) => e,
            None => {
                return None;
            },
        };
        let c2 = skip_ws(&s, e);
        if c2 < s.len() && s[c2] == ']' {
            if skip_ws(&s, c2 + 1) == s.len() {
                let data_key = to_chars("data");
                let data = obj_string_value(&s, m, &data_key);
                return Some((nm.0, data));
            }
        }
        None
    } else {
        let e = match skip_any_value(&s, v) {
            Some(e) => e,
            None => {
                return None;
            },
        };
        let c2 = skip_ws(&s, e);
        if c2 < s.len() && s[c2] == ']' {
            if skip_ws(&s, c2 + 1) == s.len() {
                return Some((nm.0, None));
            }
        }
        None
    }
}

// --- outbound frames -------------------------------------------------------------

/// The `3` acknowledgement owed for each keep-alive probe.
pub fn encode_probe_ack() -> (r: String)
    ensures
        r@ == "3"@,
{
    String::from_str("3")
}

/// The namespace-join frame sent right after the handshake.
pub fn encode_namespace_join() -> (r: String)
    ensures
        r@ == "40"@,
{
    String::from_str("40")
}

/// The `stop` event sent once the namespace is joined.
pub fn encode_stop_event() -> (r: String)
    ensures
        r@ == "42[\"stop\",{}]"@,
{
    String::from_str("42[\"stop\",{}]")
}

/// The `start` event that opens the terminal session.
pub fn encode_start_event() -> (r: String)
    ensures
        r@ == "42[\"start\",{\"args\":\"\"}]"@,
{
    String::from_str("42[\"start\",{\"args\":\"\"}]")
}

/// The frame text of one outbound `input` event carrying `cmd`.
pub open spec fn spec_input_frame(cmd: Seq<char>) -> Seq<char> {
    "42[\"input\",{\"input\":\""@ + spec_escape(cmd) + "\"}]"@
}

/// Encode one outbound `input` event carrying `cmd`.
pub fn encode_input_event(cmd: &str) -> (r: String)
    ensures
        r@ == spec_input_frame(cmd@),
{
    let mut out = to_chars("42[\"input\",{\"input\":\"");
    let cc = to_chars(cmd);
    let mut esc = escape_chars(&cc);
    out.append(&mut esc);
    let mut tail = to_chars("\"}]");
    out.append(&mut tail);
    proof {
        assert(out@ =~= spec_input_frame(cmd@));
    }
    from_chars(&out)
}

} // verus!
