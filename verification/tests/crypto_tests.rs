use friend_dist::crypto::{decrypt_secret, encrypt_secret, restore_round_trip};
use friend_dist::db::Account;

const PLACEHOLDER: &str = "default_insecure_key";

#[test]
fn placeholder_key_is_identity_both_ways() {
    assert_eq!(encrypt_secret("my secret", PLACEHOLDER), "my secret");
    assert_eq!(decrypt_secret("my secret", PLACEHOLDER), "my secret");
}

#[test]
fn real_key_round_trip() {
    let key = "a real key";
    let stored = encrypt_secret("restore-code-123", key);
    assert_ne!(stored, "restore-code-123");
    assert_eq!(decrypt_secret(&stored, key), "restore-code-123");
}

#[test]
fn round_trip_helper_both_modes() {
    assert_eq!(restore_round_trip("p@ss", "some key"), "p@ss");
    assert_eq!(restore_round_trip("p@ss", PLACEHOLDER), "p@ss");
}

#[test]
fn decrypt_of_non_ciphertext_falls_back_to_raw() {
    // not valid base64, so decryption fails and the stored value comes back
    assert_eq!(decrypt_secret("!!not-base64!!", "a real key"), "!!not-base64!!");
}

#[test]
fn account_code_round_trip() {
    let key = "deployment key";
    let stored = Account::encrypt_code_str("CODE-42", key);
    let acc = Account {
        name: "a".to_string(),
        code: stored,
        target_server: None,
        user_id: None,
        username: None,
        discord_nickname: None,
        ping_enabled: false,
        handout_enabled: false,
        status: "pending".to_string(),
        last_run: None,
    };
    assert_eq!(acc.decrypt_code(key), "CODE-42");
}

#[test]
fn empty_plaintext_round_trip() {
    let key = "k";
    let stored = encrypt_secret("", key);
    assert_eq!(decrypt_secret(&stored, key), "");
}
