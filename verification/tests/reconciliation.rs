use artifact_hygiene::classify::{Classification, Role};
use artifact_hygiene::deletion::ExpectedStatus;
use artifact_hygiene::engine::{
    classify_assets, classify_repository, dangling_assets, dangling_in_repository,
    plan_asset_run, plan_repository_run,
};
use artifact_hygiene::error::RegistryError;
use artifact_hygiene::model::{Artifact, ArtifactReference, Asset, Tag};
use artifact_hygiene::paging::{CursorPager, OffsetPager};
use artifact_hygiene::reconcile::{primary_exists, reconcile};
use artifact_hygiene::retention::{carries_tag, find_tagged, sweep, sweep_but_latest};

fn hex(c: char) -> String {
    std::iter::repeat(c).take(64).collect()
}

fn digest(c: char) -> String {
    format!("sha256:{}", hex(c))
}

fn att_tag(h: &str) -> String {
    format!("sha256-{}.att", h)
}

fn artifact(digest: &str, tags: &[&str]) -> Artifact {
    Artifact {
        digest: digest.to_string(),
        tags: Some(tags.iter().map(|t| Tag { name: t.to_string() }).collect()),
        references: None,
    }
}

fn with_children(digest: &str, tags: &[&str], children: &[&str]) -> Artifact {
    Artifact {
        digest: digest.to_string(),
        tags: if tags.is_empty() {
            None
        } else {
            Some(tags.iter().map(|t| Tag { name: t.to_string() }).collect())
        },
        references: Some(
            children.iter().map(|c| ArtifactReference { child_digest: c.to_string() }).collect(),
        ),
    }
}

fn entry(role: Role, digest: &str, reference: &str) -> Classification {
    Classification { role, digest: digest.to_string(), reference: reference.to_string() }
}

fn references(found: &[Classification]) -> Vec<String> {
    found.iter().map(|c| c.reference.clone()).collect()
}

#[test]
fn attestation_of_a_present_artifact_is_not_dangling() {
    let artifacts = vec![
        artifact(&digest('a'), &["latest"]),
        artifact(&digest('1'), &[&att_tag(&hex('a'))]),
    ];
    let found = dangling_in_repository(&artifacts).unwrap();
    assert!(found.is_empty());
}

#[test]
fn attestation_with_one_changed_digit_is_dangling() {
    let mut changed = hex('a');
    changed.replace_range(17..18, "b");
    let artifacts = vec![
        artifact(&digest('a'), &["latest"]),
        artifact(&digest('1'), &[&att_tag(&changed)]),
    ];
    let found = dangling_in_repository(&artifacts).unwrap();
    assert_eq!(references(&found), vec![att_tag(&changed)]);
    assert_eq!(found[0].role, Role::Attestation);
    assert_eq!(found[0].digest, changed);
}

#[test]
fn primary_artifact_is_never_reported() {
    // an attestation names the digest of a primary artifact, and another
    // attestation names the digest that the first attestation itself has
    let artifacts = vec![
        artifact(&digest('a'), &["1.0.0"]),
        artifact(&digest('b'), &[&att_tag(&hex('a'))]),
        artifact(&digest('c'), &[&att_tag(&hex('b'))]),
        artifact(&digest('d'), &["2.0.0"]),
    ];
    let found = dangling_in_repository(&artifacts).unwrap();
    assert_eq!(references(&found), vec![att_tag(&hex('b'))]);
    for f in &found {
        assert_ne!(f.role, Role::Primary);
        assert_ne!(f.digest, hex('a'));
        assert_ne!(f.digest, hex('d'));
    }
}

#[test]
fn empty_tag_set_is_in_no_set() {
    // the untagged artifact is no primary artifact: the attestation that
    // names its digest dangles
    let artifacts = vec![
        Artifact { digest: digest('a'), tags: None, references: None },
        artifact(&digest('b'), &[]),
        artifact(&digest('1'), &[&att_tag(&hex('a'))]),
    ];
    let classified = classify_repository(&artifacts).unwrap();
    assert_eq!(classified.len(), 1);
    assert_eq!(classified[0].role, Role::Attestation);
    let found = dangling_in_repository(&artifacts).unwrap();
    assert_eq!(references(&found), vec![att_tag(&hex('a'))]);
}

#[test]
fn second_run_finds_nothing() {
    let artifacts = vec![
        artifact(&digest('a'), &["latest"]),
        artifact(&digest('1'), &[&att_tag(&hex('a'))]),
        artifact(&digest('2'), &[&att_tag(&hex('e'))]),
        artifact(&digest('3'), &[&att_tag(&hex('f'))]),
    ];
    let found = dangling_in_repository(&artifacts).unwrap();
    assert_eq!(found.len(), 2);
    let gone: Vec<String> = references(&found);
    let left: Vec<Artifact> = artifacts
        .into_iter()
        .filter(|a| !gone.contains(&a.tags.as_ref().unwrap()[0].name))
        .collect();
    assert_eq!(left.len(), 2);
    assert!(dangling_in_repository(&left).unwrap().is_empty());
}

#[test]
fn findings_keep_the_order_of_the_listing() {
    let artifacts = vec![
        artifact(&digest('1'), &[&att_tag(&hex('f'))]),
        artifact(&digest('a'), &["latest"]),
        artifact(&digest('2'), &[&att_tag(&hex('e'))]),
        artifact(&digest('3'), &[&att_tag(&hex('a'))]),
        artifact(&digest('4'), &[&att_tag(&hex('d'))]),
    ];
    let found = dangling_in_repository(&artifacts).unwrap();
    assert_eq!(
        references(&found),
        vec![att_tag(&hex('f')), att_tag(&hex('e')), att_tag(&hex('d'))]
    );
}

#[test]
fn malformed_digest_stops_the_run() {
    let artifacts = vec![
        artifact(&digest('1'), &[&att_tag(&hex('f'))]),
        artifact("sha256:short", &["latest"]),
    ];
    assert_eq!(dangling_in_repository(&artifacts).err(), Some(RegistryError::Decode));
    assert_eq!(classify_repository(&artifacts).err(), Some(RegistryError::Decode));
}

#[test]
fn reconcile_on_classifications() {
    let cs = vec![
        entry(Role::Signature, &hex('a'), "sig-a"),
        entry(Role::Primary, &hex('a'), "p-a"),
        entry(Role::Attestation, &hex('b'), "att-b"),
        entry(Role::Signature, &hex('c'), "sig-c"),
        entry(Role::Primary, &hex('d'), "p-d"),
        entry(Role::Attestation, &hex('d'), "att-d"),
    ];
    assert!(primary_exists(&cs, &hex('a')));
    assert!(!primary_exists(&cs, &hex('b')));
    assert!(!primary_exists(&cs, &hex('c')));
    let found = reconcile(&cs);
    assert_eq!(references(&found), vec!["att-b".to_string(), "sig-c".to_string()]);
    assert!(reconcile(&Vec::new()).is_empty());
}

#[test]
fn a_signature_does_not_vouch_for_another() {
    // the digest that a signature refers to is no primary digest
    let cs = vec![
        entry(Role::Signature, &hex('a'), "sig-1"),
        entry(Role::Attestation, &hex('a'), "att-1"),
    ];
    assert_eq!(reconcile(&cs).len(), 2);
}

fn asset(id: &str, path: &str, sha256: &str) -> Asset {
    Asset {
        id: id.to_string(),
        path: path.to_string(),
        content_type: "application/vnd.docker.distribution.manifest.v2+json".to_string(),
        sha256: sha256.to_string(),
    }
}

#[test]
fn assets_are_reconciled_across_the_corpus() {
    let assets = vec![
        asset("s1", &format!("v2/a/manifests/sha256-{}.sig", hex('a')), &hex('1')),
        asset("t1", &format!("v2/a/manifests/sha256-{}.att", hex('b')), &hex('2')),
        // the primary artifact lives under another repository path
        asset("p1", "v2/b/manifests/1.0.0", &hex('a')),
        asset("s2", &format!("v2/b/manifests/sha256-{}.sig", hex('c')), &hex('3')),
        Asset {
            id: "l1".to_string(),
            path: "v2/b/blobs/x".to_string(),
            content_type: "application/vnd.docker.image.rootfs.diff.tar.gzip".to_string(),
            sha256: hex('b'),
        },
    ];
    let classified = classify_assets(&assets).unwrap();
    assert_eq!(classified.len(), 4);
    let found = dangling_assets(&assets).unwrap();
    assert_eq!(references(&found), vec!["t1".to_string(), "s2".to_string()]);
    assert_eq!(found[0].role, Role::Attestation);
    assert_eq!(found[1].role, Role::Signature);
}

#[test]
fn no_run_is_planned_on_part_of_a_listing() {
    let mut pager: OffsetPager<Artifact> = OffsetPager::new(2);
    pager.accept(vec![
        artifact(&digest('1'), &[&att_tag(&hex('a'))]),
        artifact(&digest('2'), &[&att_tag(&hex('b'))]),
    ]);
    // the page was full: the primary artifacts may be on the next one
    assert!(plan_repository_run(pager, ExpectedStatus::Success).is_none());

    let mut pager: OffsetPager<Artifact> = OffsetPager::new(2);
    pager.accept(vec![
        artifact(&digest('1'), &[&att_tag(&hex('a'))]),
        artifact(&digest('2'), &[&att_tag(&hex('b'))]),
    ]);
    pager.accept(vec![artifact(&digest('a'), &["latest"])]);
    let run = plan_repository_run(pager, ExpectedStatus::Success).unwrap().unwrap();
    assert_eq!(run.next().unwrap().reference, att_tag(&hex('b')));
}

#[test]
fn asset_run_is_planned_from_a_complete_cursor() {
    let mut pager: CursorPager<Asset> = CursorPager::new();
    pager.accept(
        vec![asset("s1", &format!("v2/a/manifests/sha256-{}.sig", hex('a')), &hex('1'))],
        Some("t".to_string()),
    );
    assert!(plan_asset_run(pager, ExpectedStatus::NoContent).is_none());

    let mut pager: CursorPager<Asset> = CursorPager::new();
    pager.accept(
        vec![asset("s1", &format!("v2/a/manifests/sha256-{}.sig", hex('a')), &hex('1'))],
        Some("t".to_string()),
    );
    pager.accept(vec![asset("bad", "v2/b/manifests/1.0.0", "nope")], None);
    assert_eq!(
        plan_asset_run(pager, ExpectedStatus::NoContent).unwrap().err(),
        Some(RegistryError::Decode)
    );
}

#[test]
fn toolchain_retention_keeps_latest_and_what_it_references() {
    let artifacts = vec![
        with_children("sha256:A", &["latest"], &["sha256:B"]),
        with_children("sha256:B", &[], &[]),
        with_children("sha256:C", &[], &[]),
    ];
    assert_eq!(sweep_but_latest(&artifacts), Some(vec!["sha256:C".to_string()]));
}

#[test]
fn toolchain_retention_removes_tagged_artifacts_too() {
    let artifacts = vec![
        with_children("sha256:old", &["build-41"], &["sha256:old-amd64"]),
        with_children("sha256:old-amd64", &["build-41-amd64"], &[]),
        with_children("sha256:new", &["build-42", "latest"], &["sha256:new-amd64"]),
        with_children("sha256:new-amd64", &[], &[]),
    ];
    assert_eq!(
        sweep_but_latest(&artifacts),
        Some(vec!["sha256:old".to_string(), "sha256:old-amd64".to_string()])
    );
}

#[test]
fn toolchain_retention_follows_references_all_the_way() {
    let artifacts = vec![
        with_children("d4", &[], &[]),
        with_children("d3", &[], &["d4"]),
        with_children("d2", &[], &["d3", "d1"]),
        with_children("d1", &["latest"], &["d2"]),
        with_children("d5", &["other"], &["d1"]),
        with_children("d6", &[], &["d6"]),
    ];
    assert_eq!(sweep(&artifacts, "d1"), vec!["d5".to_string(), "d6".to_string()]);
    assert_eq!(sweep_but_latest(&artifacts), Some(vec!["d5".to_string(), "d6".to_string()]));
}

#[test]
fn toolchain_retention_without_latest_removes_nothing() {
    let artifacts = vec![
        with_children("d1", &["build-1"], &[]),
        with_children("d2", &[], &[]),
    ];
    assert_eq!(sweep_but_latest(&artifacts), None);
    assert_eq!(sweep_but_latest(&Vec::new()), None);
}

#[test]
fn sweep_with_an_unknown_root_removes_everything() {
    let artifacts = vec![with_children("d1", &["latest"], &["d2"]), with_children("d2", &[], &[])];
    assert_eq!(sweep(&artifacts, "d9"), vec!["d1".to_string(), "d2".to_string()]);
}

#[test]
fn first_tagged_artifact_is_found() {
    let artifacts = vec![
        with_children("d1", &["a", "b"], &[]),
        with_children("d2", &["c", "latest"], &[]),
        with_children("d3", &["latest"], &[]),
    ];
    assert_eq!(find_tagged(&artifacts, "latest"), Some(1));
    assert_eq!(find_tagged(&artifacts, "a"), Some(0));
    assert_eq!(find_tagged(&artifacts, "z"), None);
    assert!(carries_tag(&artifacts[0], "b"));
    assert!(!carries_tag(&artifacts[0], "latest"));
}
