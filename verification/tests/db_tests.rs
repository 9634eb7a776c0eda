use friend_dist::db::{Account, Database, DbData, DbError, Settings};

fn acct(name: &str, user: Option<&str>, status: &str) -> Account {
    Account {
        name: name.to_string(),
        code: "code".to_string(),
        target_server: None,
        user_id: user.map(|u| u.to_string()),
        username: None,
        discord_nickname: None,
        ping_enabled: false,
        handout_enabled: false,
        status: status.to_string(),
        last_run: None,
    }
}

fn empty_settings() -> Settings {
    Settings {
        cookies: None,
        admin_role_id: None,
        log_channel_id: None,
        mute_bot_messages: None,
        admins: Vec::new(),
        last_reset_date: None,
    }
}

fn db_with(accounts: Vec<Account>) -> Database {
    Database { data: DbData { accounts, settings: empty_settings() } }
}

#[test]
fn readd_replaces_existing_name() {
    let mut db = db_with(vec![acct("alpha", Some("u1"), "done"), acct("beta", None, "pending")]);
    let mut newer = acct("alpha", Some("u2"), "pending");
    newer.target_server = Some("E-15".to_string());
    db.add_account(newer);
    let with_name: Vec<&Account> =
        db.data.accounts.iter().filter(|a| a.name == "alpha").collect();
    assert_eq!(with_name.len(), 1);
    assert_eq!(with_name[0].user_id.as_deref(), Some("u2"));
    assert_eq!(with_name[0].target_server.as_deref(), Some("E-15"));
    assert_eq!(with_name[0].status, "pending");
    // the untouched account keeps its place at the front
    assert_eq!(db.data.accounts[0].name, "beta");
    assert_eq!(db.data.accounts[1].name, "alpha");
}

#[test]
fn remove_account_reports_presence() {
    let mut db = db_with(vec![acct("alpha", None, "pending")]);
    assert!(db.remove_account("alpha"));
    assert!(db.data.accounts.is_empty());
    assert!(!db.remove_account("alpha"));
}

#[test]
fn reset_all_statuses_sets_pending() {
    let mut db = db_with(vec![
        acct("a", None, "done"),
        acct("b", None, "error: boom"),
        acct("c", None, "pending"),
    ]);
    db.reset_all_statuses();
    for a in &db.data.accounts {
        assert_eq!(a.status, "pending");
    }
}

#[test]
fn update_status_stamps_first_match() {
    let mut db = db_with(vec![acct("a", None, "pending"), acct("b", None, "pending")]);
    assert!(db.update_status("b", "done"));
    assert_eq!(db.data.accounts[1].status, "done");
    assert!(db.data.accounts[1].last_run.is_some());
    assert_eq!(db.data.accounts[0].status, "pending");
    assert!(db.data.accounts[0].last_run.is_none());
    assert!(!db.update_status("zzz", "done"));
}

#[test]
fn set_status_with_time_is_exact() {
    let mut db = db_with(vec![acct("a", None, "pending")]);
    assert!(db.set_status_with_time("a", "error: Zigza Retrying", "2024-01-01T00:00:00+00:00"));
    assert_eq!(db.data.accounts[0].status, "error: Zigza Retrying");
    assert_eq!(
        db.data.accounts[0].last_run.as_deref(),
        Some("2024-01-01T00:00:00+00:00")
    );
}

#[test]
fn toggle_ping_flips_all_of_owner() {
    let mut db = db_with(vec![
        acct("a", Some("u1"), "pending"),
        acct("b", Some("u2"), "pending"),
        acct("c", Some("u1"), "pending"),
    ]);
    let state = db.toggle_ping("u1").unwrap();
    assert!(state);
    assert!(db.data.accounts[0].ping_enabled);
    assert!(!db.data.accounts[1].ping_enabled);
    assert!(db.data.accounts[2].ping_enabled);
    let state = db.toggle_ping("u1").unwrap();
    assert!(!state);
    assert!(!db.data.accounts[0].ping_enabled);
    assert!(!db.data.accounts[2].ping_enabled);
}

#[test]
fn toggle_ping_without_accounts_fails() {
    let mut db = db_with(vec![acct("a", Some("u1"), "pending")]);
    assert_eq!(db.toggle_ping("nobody"), Err(DbError::NoAccountsForUser));
}

#[test]
fn handout_toggle_and_set() {
    let mut db = db_with(vec![acct("a", None, "pending"), acct("b", None, "pending")]);
    assert_eq!(db.toggle_handout("a"), Ok(true));
    assert_eq!(db.toggle_handout("a"), Ok(false));
    assert_eq!(db.toggle_handout("zzz"), Err(DbError::AccountNotFound));
    // the idempotent setter lands on the same state however often it runs
    assert_eq!(db.set_handout("b", true), Ok(()));
    assert_eq!(db.set_handout("b", true), Ok(()));
    assert!(db.data.accounts[1].handout_enabled);
    assert_eq!(db.set_handout("b", false), Ok(()));
    assert!(!db.data.accounts[1].handout_enabled);
    assert_eq!(db.set_handout("zzz", true), Err(DbError::AccountNotFound));
}

#[test]
fn get_handout_accounts_filters() {
    let mut db = db_with(vec![acct("a", None, "pending"), acct("b", None, "pending")]);
    db.set_handout("b", true).unwrap();
    let list = db.get_handout_accounts();
    assert_eq!(list.len(), 1);
    assert_eq!(list[0].name, "b");
}

#[test]
fn get_user_accounts_filters_by_owner() {
    let db = db_with(vec![
        acct("a", Some("u1"), "pending"),
        acct("b", Some("u2"), "pending"),
        acct("c", Some("u1"), "done"),
    ]);
    let mine = db.get_user_accounts("u1");
    assert_eq!(mine.len(), 2);
    assert_eq!(mine[0].name, "a");
    assert_eq!(mine[1].name, "c");
}

#[test]
fn admin_list_round_trip() {
    let mut db = db_with(Vec::new());
    assert!(!db.is_admin("u1"));
    assert!(db.add_admin("u1".to_string()));
    assert!(!db.add_admin("u1".to_string()));
    assert!(db.is_admin("u1"));
    assert_eq!(db.get_admins(), vec!["u1".to_string()]);
    assert!(db.remove_admin("u1"));
    assert!(!db.remove_admin("u1"));
    assert!(!db.is_admin("u1"));
}

#[test]
fn settings_setters() {
    let mut db = db_with(Vec::new());
    db.set_mute(true);
    assert_eq!(db.data.settings.mute_bot_messages, Some(true));
    db.set_log_channel("123".to_string());
    assert_eq!(db.data.settings.log_channel_id.as_deref(), Some("123"));
    db.set_admin_role("456".to_string());
    assert_eq!(db.data.settings.admin_role_id.as_deref(), Some("456"));
}

#[test]
fn mirror_channel_dedup_and_mute() {
    let mut settings = empty_settings();
    assert_eq!(settings.mirror_channel(None), None);
    settings.log_channel_id = Some("123".to_string());
    assert_eq!(settings.mirror_channel(None).as_deref(), Some("123"));
    // a notification already sent to the log channel is not repeated there
    let skip = "123".to_string();
    assert_eq!(settings.mirror_channel(Some(&skip)), None);
    let other = "999".to_string();
    assert_eq!(settings.mirror_channel(Some(&other)).as_deref(), Some("123"));
    settings.mute_bot_messages = Some(true);
    assert_eq!(settings.mirror_channel(None), None);
}

#[test]
fn db_error_messages() {
    assert_eq!(DbError::AccountNotFound.message(), "Account not found");
    assert_eq!(
        DbError::NoAccountsForUser.message(),
        "No accounts found for this user."
    );
}
