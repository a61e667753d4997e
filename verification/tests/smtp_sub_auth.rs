use irixmail::smtp::sub_auth::{guard_submission, owned_addresses, SubmissionGate, AUTH_REQUIRED};

#[test]
fn an_unauthenticated_session_is_refused() {
    assert_eq!(
        guard_submission(false),
        SubmissionGate::Reject(AUTH_REQUIRED.as_bytes())
    );
}

#[test]
fn an_authenticated_session_proceeds() {
    assert_eq!(guard_submission(true), SubmissionGate::Proceed);
}

#[test]
fn the_refusal_demands_authentication() {
    let SubmissionGate::Reject(reply) = guard_submission(false) else {
        panic!("expected a refusal");
    };
    assert!(reply.starts_with(b"530"));
}

#[test]
fn an_authenticated_account_owns_its_primary_address_and_aliases() {
    let owned = owned_addresses("alice", Some("d.example"), &["sales@d.example".to_string()]);
    assert!(owned.contains(&"alice@d.example".to_string()));
    assert!(owned.contains(&"sales@d.example".to_string()));
}

#[test]
fn an_account_whose_domain_is_unknown_owns_only_its_aliases() {
    let owned = owned_addresses("alice", None, &["sales@d.example".to_string(), "info@d.example".to_string()]);
    assert_eq!(owned, vec!["sales@d.example".to_string(), "info@d.example".to_string()]);
}
