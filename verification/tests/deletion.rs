use artifact_hygiene::classify::{Classification, Role};
use artifact_hygiene::deletion::{check_status, DeletionRun, ExpectedStatus};
use artifact_hygiene::error::RegistryError;

fn entry(role: Role, reference: &str) -> Classification {
    Classification { role, digest: "0".repeat(64), reference: reference.to_string() }
}

fn plan() -> Vec<Classification> {
    vec![
        entry(Role::Attestation, "a1"),
        entry(Role::Signature, "s1"),
        entry(Role::Attestation, "a2"),
    ]
}

#[test]
fn no_content_alone_is_expected_by_the_asset_registry() {
    assert_eq!(check_status(ExpectedStatus::NoContent, 204), Ok(()));
    for status in [200u16, 201, 202, 203, 205, 299, 301, 401, 404, 500, 0, 65535] {
        assert_eq!(
            check_status(ExpectedStatus::NoContent, status),
            Err(RegistryError::UnexpectedStatus { status })
        );
    }
}

#[test]
fn any_success_is_expected_by_the_artifact_registry() {
    for status in [200u16, 202, 204, 299] {
        assert_eq!(check_status(ExpectedStatus::Success, status), Ok(()));
    }
    for status in [199u16, 300, 401, 403, 404, 500, 0] {
        assert_eq!(
            check_status(ExpectedStatus::Success, status),
            Err(RegistryError::UnexpectedStatus { status })
        );
    }
}

#[test]
fn run_deletes_in_order_and_ends_well() {
    let mut run = DeletionRun::new(plan(), ExpectedStatus::NoContent);
    assert_eq!(run.outcome(), None);
    assert_eq!(run.next().unwrap().reference, "a1");
    run.confirm(204);
    assert_eq!(run.next().unwrap().reference, "s1");
    assert_eq!(run.next().unwrap().role, Role::Signature);
    run.confirm(204);
    assert_eq!(run.next().unwrap().reference, "a2");
    assert_eq!(run.outcome(), None);
    run.confirm(204);
    assert!(run.next().is_none());
    assert_eq!(run.outcome(), Some(Ok(())));
}

#[test]
fn unexpected_status_is_fatal() {
    let mut run = DeletionRun::new(plan(), ExpectedStatus::NoContent);
    run.confirm(204);
    run.confirm(403);
    assert!(run.next().is_none());
    assert_eq!(run.outcome(), Some(Err(RegistryError::UnexpectedStatus { status: 403 })));
    // a later success does not revive the run
    run.confirm(204);
    run.fail();
    assert!(run.next().is_none());
    assert_eq!(run.outcome(), Some(Err(RegistryError::UnexpectedStatus { status: 403 })));
}

#[test]
fn transport_failure_is_fatal() {
    let mut run = DeletionRun::new(plan(), ExpectedStatus::Success);
    run.fail();
    assert!(run.next().is_none());
    assert_eq!(run.outcome(), Some(Err(RegistryError::Transport)));
    run.confirm(200);
    assert_eq!(run.outcome(), Some(Err(RegistryError::Transport)));
}

#[test]
fn empty_run_is_over_at_once() {
    let mut run = DeletionRun::new(Vec::new(), ExpectedStatus::Success);
    assert!(run.next().is_none());
    assert_eq!(run.outcome(), Some(Ok(())));
    run.confirm(500);
    run.fail();
    assert_eq!(run.outcome(), Some(Ok(())));
}

#[test]
fn run_never_names_a_primary_artifact() {
    let found = vec![
        entry(Role::Primary, "image-1"),
        entry(Role::Attestation, "a1"),
        entry(Role::Primary, "image-2"),
        entry(Role::Signature, "s1"),
        entry(Role::Primary, "image-3"),
    ];
    let mut run = DeletionRun::new(found, ExpectedStatus::Success);
    let mut named = Vec::new();
    while let Some(c) = run.next() {
        assert_ne!(c.role, Role::Primary);
        named.push(c.reference.clone());
        run.confirm(200);
    }
    assert_eq!(named, vec!["a1".to_string(), "s1".to_string()]);
    assert_eq!(run.outcome(), Some(Ok(())));
}
