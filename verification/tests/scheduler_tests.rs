use friend_dist::db::{Account, Database, DbData, Settings};
use friend_dist::scheduler::{
    directive_for, handout_success, is_eligible, select_next, should_reset, ProcessingGuard,
};
use friend_dist::session::Outcome;

fn acct(name: &str, user: Option<&str>, status: &str) -> Account {
    Account {
        name: name.to_string(),
        code: "code".to_string(),
        target_server: None,
        user_id: user.map(|u| u.to_string()),
        username: None,
        discord_nickname: None,
        ping_enabled: false,
        handout_enabled: false,
        status: status.to_string(),
        last_run: None,
    }
}

#[test]
fn eligibility_follows_status() {
    assert!(is_eligible("pending"));
    assert!(!is_eligible("done"));
    assert!(!is_eligible("error: boom"));
    assert!(is_eligible("error: Zigza Retrying"));
    assert!(is_eligible(""));
}

#[test]
fn pending_selected_before_retrying() {
    // the retrying account stands first, yet the pending one is chosen
    let accounts = vec![
        acct("r", Some("u1"), "error: Zigza Retrying"),
        acct("p", Some("u1"), "pending"),
    ];
    assert_eq!(select_next(&accounts, Some("u1")), Some(1));
}

#[test]
fn retrying_selected_when_nothing_pending() {
    let accounts = vec![
        acct("d", None, "done"),
        acct("r", None, "error: Zigza Retrying"),
    ];
    assert_eq!(select_next(&accounts, None), Some(1));
}

#[test]
fn selection_respects_owner_filter() {
    let accounts = vec![
        acct("a", Some("u1"), "pending"),
        acct("b", Some("u2"), "pending"),
    ];
    assert_eq!(select_next(&accounts, Some("u2")), Some(1));
    assert_eq!(select_next(&accounts, Some("u3")), None);
}

#[test]
fn selection_skips_done_and_hard_errors() {
    let accounts = vec![
        acct("a", None, "done"),
        acct("b", None, "error: dead"),
    ];
    assert_eq!(select_next(&accounts, None), None);
}

#[test]
fn directives_follow_the_policy_table() {
    let d = directive_for(&Outcome::SessionComplete);
    assert_eq!(d.new_status.as_deref(), Some("done"));
    assert_eq!(d.delay_secs, 0);
    assert!(!d.stop_queue);
    assert!(d.success);

    let d = directive_for(&Outcome::InvalidCommandRestart);
    assert!(d.new_status.is_none());
    assert_eq!(d.delay_secs, 5);
    assert!(!d.stop_queue);

    let d = directive_for(&Outcome::ZigzaDetected);
    assert_eq!(d.new_status.as_deref(), Some("error: Zigza Retrying"));
    assert_eq!(d.delay_secs, 600);

    let d = directive_for(&Outcome::ServerFull);
    assert!(d.new_status.is_none());
    assert_eq!(d.delay_secs, 300);

    let d = directive_for(&Outcome::LoginRequired);
    assert!(d.new_status.is_none());
    assert!(d.stop_queue);

    for o in [
        Outcome::IdleTimeout,
        Outcome::ConnectionFailed,
        Outcome::ServerDisconnect,
        Outcome::ConnectionTimeout,
        Outcome::ActivityTimeout,
        Outcome::HandshakeTimeout,
    ] {
        let d = directive_for(&o);
        assert!(d.new_status.is_none());
        assert_eq!(d.delay_secs, 5);
        assert!(!d.stop_queue);
    }

    let d = directive_for(&Outcome::Other("boom".to_string()));
    assert_eq!(d.new_status.as_deref(), Some("error: boom"));
    assert_eq!(d.delay_secs, 0);
    assert!(!d.stop_queue);
}

#[test]
fn handout_reports_success_only_on_completion() {
    assert!(handout_success(&Outcome::SessionComplete));
    assert!(!handout_success(&Outcome::ZigzaDetected));
    assert!(!handout_success(&Outcome::Other("x".to_string())));
}

#[test]
fn guard_single_flight() {
    let mut g = ProcessingGuard::new();
    assert!(!g.is_held());
    assert!(g.try_acquire());
    // the second attempt observes busy and does no work
    assert!(!g.try_acquire());
    g.release();
    assert!(!g.is_held());
    assert!(g.try_acquire());
    g.stop();
    assert!(!g.is_held());
}

#[test]
fn reset_fires_only_at_midnight_on_a_new_day() {
    assert!(should_reset(0, 0, None, "2024-05-01"));
    let yesterday = "2024-04-30".to_string();
    assert!(should_reset(0, 0, Some(&yesterday), "2024-05-01"));
    let today = "2024-05-01".to_string();
    assert!(!should_reset(0, 0, Some(&today), "2024-05-01"));
    assert!(!should_reset(0, 1, None, "2024-05-01"));
    assert!(!should_reset(1, 0, None, "2024-05-01"));
}

#[test]
fn daily_tick_resets_once_per_day() {
    let mut db = Database {
        data: DbData {
            accounts: vec![acct("a", None, "done"), acct("b", None, "error: boom")],
            settings: Settings {
                cookies: None,
                admin_role_id: None,
                log_channel_id: None,
                mute_bot_messages: None,
                admins: Vec::new(),
                last_reset_date: None,
            },
        },
    };
    assert!(db.daily_tick(0, 0, "2024-05-01"));
    assert_eq!(db.data.settings.last_reset_date.as_deref(), Some("2024-05-01"));
    for a in &db.data.accounts {
        assert_eq!(a.status, "pending");
    }
    // a repeated check within the same minute does not re-trigger
    db.data.accounts[0].status = "done".to_string();
    assert!(!db.daily_tick(0, 0, "2024-05-01"));
    assert_eq!(db.data.accounts[0].status, "done");
}
