use kubeauth::authenticators::authenticator::Authenticator;
use kubeauth::authenticators::json::{JsonAuthenticator, User};
use kubeauth::pipeline::{
    authenticator_kind, first_unknown, AuthenticatorKind, Pipeline, PipelineAction,
};
use kubeauth::token_review::review_outcome;

type Decision = (bool, String, Vec<String>);

fn chain(names: &[&str]) -> Pipeline {
    Pipeline::new(names.iter().map(|n| n.to_string()).collect())
}

fn store() -> JsonAuthenticator {
    JsonAuthenticator::new(
        vec![User {
            username: "alice".to_string(),
            password: "correcthorse".to_string(),
            groups: vec!["dev".to_string(), "ops".to_string()],
        }],
        false,
    )
}

/// Runs a chain, answering each invocation from `answer`, and records the
/// kinds invoked.
fn drive(p: &mut Pipeline, answer: impl Fn(AuthenticatorKind) -> Decision) -> (Decision, Vec<AuthenticatorKind>) {
    let mut invoked = vec![];
    let mut action = p.start();
    loop {
        match action {
            PipelineAction::Invoke(k) => {
                invoked.push(k);
                action = p.resume(answer(k));
            }
            PipelineAction::Finish(r) => return (r, invoked),
        }
    }
}

fn denied() -> Decision {
    (false, String::new(), vec![])
}

fn directory_accepts() -> Decision {
    (true, "carol".to_string(), vec!["staff".to_string()])
}

#[test]
fn registry_names() {
    assert_eq!(authenticator_kind(&"json_auth".to_string()), Some(AuthenticatorKind::Json));
    assert_eq!(authenticator_kind(&"ldap_auth".to_string()), Some(AuthenticatorKind::Ldap));
    assert_eq!(authenticator_kind(&"oauth".to_string()), None);
}

#[test]
fn first_unknown_name() {
    let names = vec!["json_auth".to_string(), "x".to_string(), "y".to_string()];
    assert_eq!(first_unknown(&names), Some(1));
    assert_eq!(first_unknown(&vec!["ldap_auth".to_string()]), None);
}

#[test]
fn later_acceptance_after_refusal() {
    let mut p = chain(&["json_auth", "ldap_auth"]);
    let (r, invoked) = drive(&mut p, |k| match k {
        AuthenticatorKind::Json => denied(),
        AuthenticatorKind::Ldap => directory_accepts(),
    });
    assert_eq!(r, directory_accepts());
    assert_eq!(invoked, vec![AuthenticatorKind::Json, AuthenticatorKind::Ldap]);
}

#[test]
fn first_acceptance_stops_the_chain() {
    let mut p = chain(&["ldap_auth", "json_auth"]);
    let (r, invoked) = drive(&mut p, |k| match k {
        AuthenticatorKind::Json => denied(),
        AuthenticatorKind::Ldap => directory_accepts(),
    });
    assert_eq!(r, directory_accepts());
    assert_eq!(invoked, vec![AuthenticatorKind::Ldap]);
}

#[test]
fn all_refusing_denies() {
    let mut p = chain(&["json_auth", "ldap_auth"]);
    let (r, invoked) = drive(&mut p, |_| denied());
    assert_eq!(r, denied());
    assert_eq!(invoked.len(), 2);
}

#[test]
fn unknown_name_denies_and_stops() {
    let mut p = chain(&["json_auth", "bogus", "ldap_auth"]);
    let (r, invoked) = drive(&mut p, |k| match k {
        AuthenticatorKind::Json => denied(),
        AuthenticatorKind::Ldap => directory_accepts(),
    });
    assert_eq!(r, denied());
    assert_eq!(invoked, vec![AuthenticatorKind::Json]);
}

#[test]
fn empty_chain_denies() {
    let mut p = chain(&[]);
    let (r, invoked) = drive(&mut p, |_| directory_accepts());
    assert_eq!(r, denied());
    assert!(invoked.is_empty());
}

#[test]
fn finished_pipeline_only_refuses() {
    let mut p = chain(&["ldap_auth"]);
    let _ = drive(&mut p, |_| directory_accepts());
    match p.resume(directory_accepts()) {
        PipelineAction::Finish(r) => assert_eq!(r, denied()),
        _ => panic!("expected a refusal"),
    }
}

#[test]
fn review_of_known_principal_is_accepted() {
    let json = store();
    let mut p = chain(&["json_auth"]);
    let (r, _) = drive(&mut p, |_| json.auth("alice:correcthorse"));
    let (status, body) = review_outcome(r);
    assert_eq!(status, 200);
    assert!(body.status.authenticated);
    assert_eq!(body.status.user.username, "alice");
    assert_eq!(body.status.user.uid, "alice");
    assert_eq!(body.status.user.groups, vec!["dev".to_string(), "ops".to_string()]);
    assert_eq!(body.api_version, "authentication.k8s.io/v1");
    assert_eq!(body.kind, "TokenReview");
}

#[test]
fn review_with_wrong_secret_is_refused() {
    let json = store();
    let mut p = chain(&["json_auth"]);
    let (r, _) = drive(&mut p, |_| json.auth("alice:wrongpass"));
    let (status, body) = review_outcome(r);
    assert_eq!(status, 401);
    assert!(!body.status.authenticated);
    assert_eq!(body.status.user.username, "");
    assert_eq!(body.status.user.uid, "");
    assert!(body.status.user.groups.is_empty());
}

#[test]
fn review_of_unknown_principal_is_refused() {
    let json = store();
    let mut p = chain(&["json_auth"]);
    let (r, _) = drive(&mut p, |_| json.auth("bob:pw"));
    let (status, body) = review_outcome(r);
    assert_eq!(status, 401);
    assert!(!body.status.authenticated);
    assert_eq!(body.status.user.username, "");
    assert!(body.status.user.groups.is_empty());
}
