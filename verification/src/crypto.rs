//! Credential encryption boundary.
//!
//! Restore codes are kept encrypted at rest with a symmetric, key-derived
//! cipher. When the configured key equals a known placeholder sentinel, both
//! operations are the identity and the secret is handled in plaintext; this
//! degraded mode is part of the contract, not hidden.

use vstd::prelude::*;

use crate::text::str_eq;
use magic_crypt::MagicCryptTrait;

verus! {

/// The sentinel key under which secrets are stored in plaintext.
pub open spec fn spec_placeholder_key() -> Seq<char> {
    "default_insecure_key"@
}

/// Whether `key` is the placeholder sentinel.
pub fn is_placeholder_key(key: &str) -> (r: bool)
    ensures
        r == (key@ == spec_placeholder_key()),
{
    str_eq(key, "default_insecure_key")
}

/// The base64 ciphertext the cipher produces for `plain` under `key`.
pub uninterp spec fn enc_of(key: Seq<char>, plain: Seq<char>) -> Seq<char>;

/// The plaintext the cipher recovers from `cipher` under `key`.
pub uninterp spec fn dec_of(key: Seq<char>, cipher: Seq<char>) -> Seq<char>;

/// Relies on magic_crypt's `MagicCrypt256::new` and `encrypt_str_to_base64`:
/// the AES-256-CBC key is derived from the key string alone and the IV is
/// fixed, so the ciphertext is a function of the key and the plaintext, and
/// `decrypt_base64_to_string` under the same key recovers the plaintext.
#[verifier::external_body]
fn cipher_encrypt(key: &str, plain: &str) -> (r: String)
    ensures
        r@ == enc_of(key@, plain@),
        dec_of(key@, r@) == plain@,
{
    let mc: magic_crypt::MagicCrypt256 = MagicCryptTrait::new(key, None::<&str>);
    mc.encrypt_str_to_base64(plain)
}

/// Relies on magic_crypt's `MagicCrypt256::new` and
/// `decrypt_base64_to_string`: under the given key it inverts
/// `encrypt_str_to_base64`, succeeding on every ciphertext that the cipher
/// can produce under that key.
#[verifier::external_body]
fn cipher_decrypt(key: &str, cipher: &str) -> (r: Option<String>)
    ensures
        r matches Some(p) ==> p@ == dec_of(key@, cipher@),
        (exists|p: Seq<char>| cipher@ == enc_of(key@, p)) ==> r is Some,
{
    let mc: magic_crypt::MagicCrypt256 = MagicCryptTrait::new(key, None::<&str>);
    match mc.decrypt_base64_to_string(cipher) {
        Ok(p) => Some(p),
        Err(_) => None,
    }
}

/// What encryption stores for `plain` under `key`: the ciphertext, or the
/// plaintext itself under the placeholder key.
pub open spec fn spec_encrypt(key: Seq<char>, plain: Seq<char>) -> Seq<char> {
    if key == spec_placeholder_key() {
        plain
    } else {
        enc_of(key, plain)
    }
}

/// Encrypt a restore code for storage.
pub fn encrypt_secret(plain: &str, key: &str) -> (r: String)
    ensures
        r@ == spec_encrypt(key@, plain@),
        key@ != spec_placeholder_key() ==> dec_of(key@, r@) == plain@,
{
    if is_placeholder_key(key) {
        let chars = crate::text::to_chars(plain);
        crate::text::from_chars(&chars)
    } else {
        cipher_encrypt(key, plain)
    }
}

/// Decrypt a stored restore code. Under the placeholder key, or when the
/// stored value is not a ciphertext of this key, the stored value itself is
/// returned unchanged.
pub fn decrypt_secret(code: &str, key: &str) -> (r: String)
    ensures
        key@ == spec_placeholder_key() ==> r@ == code@,
        key@ != spec_placeholder_key() ==> (r@ == dec_of(key@, code@) || r@ == code@),
        key@ != spec_placeholder_key() && (exists|p: Seq<char>| code@ == enc_of(key@, p)) ==> r@
            == dec_of(key@, code@),
{
    if is_placeholder_key(key) {
        let chars = crate::text::to_chars(code);
        crate::text::from_chars(&chars)
    } else {
        match cipher_decrypt(key, code) {
            Some(p) => p,
            None => {
                let chars = crate::text::to_chars(code);
                crate::text::from_chars(&chars)
            },
        }
    }
}

/// Decrypting an encrypted secret under the same key yields the original
/// plaintext; under the placeholder key both operations are the identity,
/// so the result is the original plaintext there as well.
pub fn restore_round_trip(plain: &str, key: &str) -> (r: String)
    ensures
        r@ == plain@,
{
    let stored = encrypt_secret(plain, key);
    proof {
        if key@ != spec_placeholder_key() {
            assert(stored@ == enc_of(key@, plain@));
        }
    }
    decrypt_secret(stored.as_str(), key)
}

} // verus!
