use friend_dist::frames::encode_input_event;
use friend_dist::session::{check_timeouts, Outcome, RunMode, Session, HISTORY_CAP};

fn daily_session() -> Session {
    Session::new(RunMode::Daily, None, "CODE".to_string())
}

fn handout_session() -> Session {
    Session::new(RunMode::Handout, None, "CODE".to_string())
}

#[test]
fn command_prompt_daily_sends_exactly_d() {
    let mut s = daily_session();
    let (cmds, outcome) = s.handle_output("Enter Command to use");
    assert_eq!(cmds, vec!["d".to_string()]);
    assert!(outcome.is_none());
    // exactly one outbound input event, carrying `d`
    assert_eq!(encode_input_event(&cmds[0]), "42[\"input\",{\"input\":\"d\"}]");
}

#[test]
fn command_prompt_handout_sends_ho() {
    let mut s = handout_session();
    let (cmds, _) = s.handle_output("Enter Command to use");
    assert_eq!(cmds, vec!["ho".to_string()]);
}

#[test]
fn restore_prompt_sends_code() {
    let mut s = daily_session();
    let (cmds, _) = s.handle_output("Enter Restore code");
    assert_eq!(cmds, vec!["CODE".to_string()]);
}

#[test]
fn server_selection_picks_matching_entry() {
    let mut s = Session::new(RunMode::Daily, Some("E-15".to_string()), "CODE".to_string());
    let (cmds, _) =
        s.handle_output("1-->Region A (E-1)\n2-->Region B (E-2)\n3-->Region X (E-15)\n");
    assert!(cmds.is_empty());
    let (cmds, _) = s.handle_output("Which acc u want to Login");
    assert_eq!(cmds, vec!["3".to_string()]);
}

#[test]
fn server_selection_all_matches_all_of_them() {
    let mut s = Session::new(RunMode::Daily, Some("ALL".to_string()), "CODE".to_string());
    let (_, _) = s.handle_output("1-->Region A (E-1)\n4-->Join every server (All of them)\n");
    let (cmds, _) = s.handle_output("Which acc u want to Login");
    assert_eq!(cmds, vec!["4".to_string()]);
}

#[test]
fn server_selection_defaults_to_one() {
    let mut s = Session::new(RunMode::Daily, Some("E-99".to_string()), "CODE".to_string());
    let (_, _) = s.handle_output("1-->Region A (E-1)\n");
    let (cmds, _) = s.handle_output("Which acc u want to Login");
    assert_eq!(cmds, vec!["1".to_string()]);
}

#[test]
fn server_selection_without_target_sends_nothing() {
    let mut s = daily_session();
    let (_, _) = s.handle_output("1-->Region A (E-1)\n");
    let (cmds, outcome) = s.handle_output("Which acc u want to Login");
    assert!(cmds.is_empty());
    assert!(outcome.is_none());
}

#[test]
fn mana_prompt_daily_sends_y() {
    let mut s = daily_session();
    let (cmds, _) = s.handle_output("Press y to spend mana on event stages :");
    assert_eq!(cmds, vec!["y".to_string()]);
}

#[test]
fn mana_prompt_handout_sends_ho_once_then_y() {
    let mut s = handout_session();
    let (cmds, _) = s.handle_output("Press y to spend mana on event stages :");
    assert_eq!(cmds, vec!["ho".to_string()]);
    let (cmds, _) = s.handle_output("Press y to spend mana on event stages :");
    assert_eq!(cmds, vec!["y".to_string()]);
}

#[test]
fn next_event_sends_auto_once_then_exit() {
    let mut s = daily_session();
    let (cmds, _) = s.handle_output("next: Go to the next event. [default option]");
    assert_eq!(cmds, vec!["auto".to_string()]);
    let (cmds, _) = s.handle_output("next: Go to the next event. [default option]");
    assert_eq!(cmds, vec!["exit".to_string()]);
}

#[test]
fn refill_chain_answers() {
    let mut s = daily_session();
    let (cmds, _) = s.handle_output("DO U WANT TO REFILL MANA ? (press y to refill):");
    assert_eq!(cmds, vec!["y".to_string()]);
    let (cmds, _) = s.handle_output("Enter 1, 2 or 3 to select potion to refill:");
    assert_eq!(cmds, vec!["3".to_string()]);
    let (cmds, _) = s.handle_output("Enter the number of stam100 potions to refill");
    assert_eq!(cmds, vec!["1".to_string()]);
}

#[test]
fn more_events_prompt_sends_y() {
    let mut s = daily_session();
    s.auto_sent = true;
    let (cmds, _) = s.handle_output("Press y to do more events:");
    assert_eq!(cmds, vec!["y".to_string()]);
    // the next-event prompt then gets `exit`, the auto flag being set
    let (cmds, _) = s.handle_output("next: Go to the next event.");
    assert_eq!(cmds, vec!["exit".to_string()]);
}

#[test]
fn complete_prompt_yields_session_complete() {
    let mut s = daily_session();
    let (cmds, outcome) = s.handle_output("Press y to perform more commands:");
    assert!(cmds.is_empty());
    assert_eq!(outcome, Some(Outcome::SessionComplete));
}

#[test]
fn failure_rules_classify() {
    let mut s = daily_session();
    let (_, outcome) = s.handle_output("Invalid Command entered. Exiting Now");
    assert_eq!(outcome, Some(Outcome::InvalidCommandRestart));
    let (_, outcome) = s.handle_output("Invalid Command entered, but staying put");
    assert_eq!(outcome, None);
    let (_, outcome) =
        s.handle_output("Either Zigza error or Incorrect Restore Code Entered");
    assert_eq!(outcome, Some(Outcome::ZigzaDetected));
    let (_, outcome) = s.handle_output("Server reached maximum limit of restore accounts");
    assert_eq!(outcome, Some(Outcome::ServerFull));
    let (_, outcome) =
        s.handle_output("Access to start bot is restricted only for logged in users");
    assert_eq!(outcome, Some(Outcome::LoginRequired));
}

#[test]
fn failure_rule_outranks_completion() {
    let mut s = daily_session();
    let (cmds, outcome) = s.handle_output(
        "Either Zigza error or Incorrect Restore Code Entered\nPress y to perform more commands:",
    );
    assert!(cmds.is_empty());
    assert_eq!(outcome, Some(Outcome::ZigzaDetected));
}

#[test]
fn multiple_rules_fire_in_order() {
    let mut s = daily_session();
    let (cmds, outcome) =
        s.handle_output("Enter Command to use\nDO U WANT TO REFILL MANA ?");
    assert_eq!(cmds, vec!["d".to_string(), "y".to_string()]);
    assert!(outcome.is_none());
}

#[test]
fn history_never_exceeds_cap_nor_splits_chars() {
    let mut s = daily_session();
    // 3-byte characters that do not divide the cap evenly
    let chunk: String = "\u{20AC}".repeat(1000);
    for _ in 0..5 {
        let (_, _) = s.handle_output(&chunk);
        let bytes: usize = s.history.iter().map(|c| c.len_utf8()).sum();
        assert!(bytes <= HISTORY_CAP);
    }
    // every stored character survived whole
    assert!(s.history.iter().all(|c| *c == '\u{20AC}'));
    let bytes: usize = s.history.iter().map(|c| c.len_utf8()).sum();
    assert_eq!(bytes, 9999);
}

#[test]
fn history_keeps_newest_suffix() {
    let mut s = daily_session();
    let first = "a".repeat(9000);
    let second = "b".repeat(2000);
    let (_, _) = s.handle_output(&first);
    let (_, _) = s.handle_output(&second);
    assert_eq!(s.history.len(), HISTORY_CAP);
    let tail: String = s.history[s.history.len() - 2000..].iter().collect();
    assert_eq!(tail, second);
    assert_eq!(s.history[0], 'a');
}

#[test]
fn frame_output_event_steps_rules() {
    let mut s = daily_session();
    let (cmds, outcome) = s.handle_frame("42[\"output\",{\"data\":\"Enter Command to use\"}]");
    assert_eq!(cmds, vec!["d".to_string()]);
    assert!(outcome.is_none());
}

#[test]
fn frame_server_events_classify() {
    let mut s = daily_session();
    let (_, outcome) = s.handle_frame("42[\"idle_timeout\"]");
    assert_eq!(outcome, Some(Outcome::IdleTimeout));
    let (_, outcome) = s.handle_frame("42[\"connection_failed\"]");
    assert_eq!(outcome, Some(Outcome::ConnectionFailed));
    let (_, outcome) = s.handle_frame("42[\"disconnect\"]");
    assert_eq!(outcome, Some(Outcome::ServerDisconnect));
}

#[test]
fn frame_garbage_is_ignored() {
    let mut s = daily_session();
    let (cmds, outcome) = s.handle_frame("42[not json");
    assert!(cmds.is_empty());
    assert!(outcome.is_none());
    let (cmds, outcome) = s.handle_frame("42[\"some_other_event\",{\"x\":1}]");
    assert!(cmds.is_empty());
    assert!(outcome.is_none());
}

#[test]
fn timeouts_classify() {
    // declared interval 25000 ms: 40001 ms without a probe is dead
    assert_eq!(check_timeouts(40001, 25000, 0), Some(Outcome::ConnectionTimeout));
    assert_eq!(check_timeouts(40000, 25000, 0), None);
    assert_eq!(check_timeouts(0, 25000, 121), Some(Outcome::ActivityTimeout));
    assert_eq!(check_timeouts(0, 25000, 120), None);
}

#[test]
fn outcome_labels_match_wire_names() {
    assert_eq!(Outcome::SessionComplete.label(), "SESSION_COMPLETE");
    assert_eq!(Outcome::ZigzaDetected.label(), "ZIGZA_DETECTED");
    assert_eq!(Outcome::LoginRequired.label(), "LOGIN_REQUIRED");
    assert_eq!(Outcome::HandshakeTimeout.label(), "Connection handshake timed out");
    assert_eq!(Outcome::Other("boom".to_string()).label(), "boom");
}
