use argon2::password_hash::SaltString;
use argon2::{Argon2, PasswordHasher};
use kubeauth::authenticators::authenticator::Authenticator;
use kubeauth::authenticators::json::{hashed_option, users_file_option, JsonAuthenticator, User};
use kubeauth::authenticators::token::split_token;

fn user(name: &str, password: &str, groups: &[&str]) -> User {
    User {
        username: name.to_string(),
        password: password.to_string(),
        groups: groups.iter().map(|g| g.to_string()).collect(),
    }
}

fn alice_store(hashed: bool, password: &str) -> JsonAuthenticator {
    JsonAuthenticator::new(vec![user("alice", password, &["dev", "ops"])], hashed)
}

fn denied() -> (bool, String, Vec<String>) {
    (false, String::new(), vec![])
}

fn digest_of(secret: &str) -> String {
    let salt = SaltString::encode_b64(b"a fixed salt").unwrap();
    Argon2::default().hash_password(secret.as_bytes(), &salt).unwrap().to_string()
}

#[test]
fn split_token_on_first_colon() {
    assert_eq!(split_token("alice:pw"), Some(("alice".to_string(), "pw".to_string())));
    assert_eq!(split_token("a:b:c"), Some(("a".to_string(), "b:c".to_string())));
}

#[test]
fn split_token_rejects_malformed() {
    assert_eq!(split_token("nocolon"), None);
    assert_eq!(split_token(""), None);
    assert_eq!(split_token(":secret"), None);
    assert_eq!(split_token("alice:"), None);
    assert_eq!(split_token(":"), None);
}

#[test]
fn plaintext_match_accepts_with_groups() {
    let auth = alice_store(false, "correcthorse");
    assert_eq!(
        auth.auth("alice:correcthorse"),
        (true, "alice".to_string(), vec!["dev".to_string(), "ops".to_string()])
    );
}

#[test]
fn plaintext_mismatch_denies() {
    let auth = alice_store(false, "correcthorse");
    assert_eq!(auth.auth("alice:wrongpass"), denied());
    assert_eq!(auth.auth("alice:correcthorsf"), denied());
    assert_eq!(auth.auth("alice:correcthors"), denied());
}

#[test]
fn unknown_principal_denies() {
    let auth = alice_store(false, "correcthorse");
    assert_eq!(auth.auth("bob:pw"), denied());
}

#[test]
fn malformed_tokens_deny_locally() {
    let auth = alice_store(false, "correcthorse");
    assert_eq!(auth.auth("alicecorrecthorse"), denied());
    assert_eq!(auth.auth(":correcthorse"), denied());
    assert_eq!(auth.auth(""), denied());
}

#[test]
fn later_record_replaces_earlier() {
    let auth = JsonAuthenticator::new(
        vec![user("alice", "old", &["a"]), user("bob", "b", &[]), user("alice", "new", &["b"])],
        false,
    );
    assert_eq!(auth.auth("alice:old"), denied());
    assert_eq!(auth.auth("alice:new"), (true, "alice".to_string(), vec!["b".to_string()]));
    assert_eq!(auth.auth("bob:b"), (true, "bob".to_string(), vec![]));
}

#[test]
fn hashed_match_accepts_and_is_repeatable() {
    let auth = alice_store(true, &digest_of("correcthorse"));
    let expected = (true, "alice".to_string(), vec!["dev".to_string(), "ops".to_string()]);
    assert_eq!(auth.auth("alice:correcthorse"), expected);
    assert_eq!(auth.auth("alice:correcthorse"), expected);
}

#[test]
fn hashed_mismatch_denies() {
    let auth = alice_store(true, &digest_of("correcthorse"));
    assert_eq!(auth.auth("alice:wrongpass"), denied());
}

#[test]
fn hashed_mode_does_not_compare_plaintext() {
    let auth = alice_store(true, "correcthorse");
    assert_eq!(auth.auth("alice:correcthorse"), denied());
}

#[test]
fn conclude_uses_the_verdict() {
    let auth = alice_store(true, "unused");
    assert_eq!(
        auth.conclude("alice".to_string(), true),
        (true, "alice".to_string(), vec!["dev".to_string(), "ops".to_string()])
    );
    assert_eq!(auth.conclude("alice".to_string(), false), denied());
    assert_eq!(auth.conclude("bob".to_string(), true), denied());
}

#[test]
fn hashed_option_needs_true_first() {
    assert!(hashed_option(Some(&vec!["true".to_string()])));
    assert!(!hashed_option(Some(&vec!["false".to_string(), "true".to_string()])));
    assert!(!hashed_option(Some(&vec![])));
    assert!(!hashed_option(None));
}

#[test]
fn users_file_option_takes_first() {
    assert_eq!(
        users_file_option(Some(&vec!["users.json".to_string(), "x".to_string()])),
        Some("users.json".to_string())
    );
    assert_eq!(users_file_option(Some(&vec![])), None);
    assert_eq!(users_file_option(None), None);
}

#[test]
fn hashed_digest_with_huge_parallelism_denies() {
    let digest = "$argon2id$v=19$m=19456,t=2,p=600000000$YSBmaXhlZCBzYWx0$aGFzaGhhc2hoYXNoaGFzaGhhc2hoYXNoaGFzaGhhc2g";
    let auth = alice_store(true, digest);
    assert_eq!(auth.auth("alice:correcthorse"), denied());
}

#[test]
fn secret_is_all_text_after_first_colon() {
    let auth = alice_store(false, "pass:word");
    assert_eq!(
        auth.auth("alice:pass:word"),
        (true, "alice".to_string(), vec!["dev".to_string(), "ops".to_string()])
    );
    assert_eq!(auth.auth("alice:pass"), denied());
}
