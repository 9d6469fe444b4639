use artifact_hygiene::classify::{classify, classify_asset, Role};
use artifact_hygiene::digest::{normalize_digest, strip_algorithm};
use artifact_hygiene::error::RegistryError;
use artifact_hygiene::model::{Artifact, Asset, Tag};

fn hex(c: char) -> String {
    std::iter::repeat(c).take(64).collect()
}

fn artifact(digest: &str, tags: &[&str]) -> Artifact {
    Artifact {
        digest: digest.to_string(),
        tags: Some(tags.iter().map(|t| Tag { name: t.to_string() }).collect()),
        references: None,
    }
}

fn asset(id: &str, path: &str, content_type: &str, sha256: &str) -> Asset {
    Asset {
        id: id.to_string(),
        path: path.to_string(),
        content_type: content_type.to_string(),
        sha256: sha256.to_string(),
    }
}

const MANIFEST_TYPE: &str = "application/vnd.docker.distribution.manifest.v2+json";
const LAYER_TYPE: &str = "application/vnd.docker.image.rootfs.diff.tar.gzip";

#[test]
fn digest_with_prefix_is_stripped() {
    let d = format!("sha256:{}", hex('3'));
    assert_eq!(normalize_digest(&d), Ok(hex('3')));
}

#[test]
fn bare_digest_is_kept() {
    assert_eq!(normalize_digest(&hex('f')), Ok(hex('f')));
}

#[test]
fn malformed_digests_are_decode_failures() {
    assert_eq!(normalize_digest(""), Err(RegistryError::Decode));
    assert_eq!(normalize_digest("sha256:abc"), Err(RegistryError::Decode));
    assert_eq!(normalize_digest(&format!("sha256:{}", hex('A'))), Err(RegistryError::Decode));
    assert_eq!(normalize_digest(&format!("sha512:{}", hex('a'))), Err(RegistryError::Decode));
    assert_eq!(normalize_digest(&format!("sha256:{}0", hex('a'))), Err(RegistryError::Decode));
    assert_eq!(normalize_digest(&format!("{}g", &hex('a')[..63])), Err(RegistryError::Decode));
    let with_wide_char = format!("sha256:{}\u{e9}", &hex('a')[..63]);
    assert_eq!(normalize_digest(&with_wide_char), Err(RegistryError::Decode));
}

#[test]
fn strip_algorithm_removes_the_prefix_only() {
    assert_eq!(strip_algorithm("sha256:abc"), "abc");
    assert_eq!(strip_algorithm("abc"), "abc");
    assert_eq!(strip_algorithm("sha256:"), "");
    assert_eq!(strip_algorithm("xsha256:abc"), "xsha256:abc");
}

#[test]
fn untagged_artifact_is_not_eligible() {
    let a = Artifact { digest: format!("sha256:{}", hex('a')), tags: None, references: None };
    assert!(classify(&a).unwrap().is_none());
    let b = artifact(&format!("sha256:{}", hex('a')), &[]);
    assert!(classify(&b).unwrap().is_none());
}

#[test]
fn untagged_artifact_with_malformed_digest_is_still_passed_over() {
    let a = artifact("garbage", &[]);
    assert!(classify(&a).unwrap().is_none());
}

#[test]
fn attestation_tag_names_its_target() {
    let tag = format!("sha256-{}.att", hex('b'));
    let a = artifact(&format!("sha256:{}", hex('a')), &[&tag]);
    let c = classify(&a).unwrap().unwrap();
    assert_eq!(c.role, Role::Attestation);
    assert_eq!(c.digest, hex('b'));
    assert_eq!(c.reference, tag);
}

#[test]
fn ordinary_tag_makes_a_primary_artifact() {
    let a = artifact(&format!("sha256:{}", hex('a')), &["24.3.0"]);
    let c = classify(&a).unwrap().unwrap();
    assert_eq!(c.role, Role::Primary);
    assert_eq!(c.digest, hex('a'));
    assert_eq!(c.reference, format!("sha256:{}", hex('a')));
}

#[test]
fn only_the_first_tag_decides_the_role() {
    let att = format!("sha256-{}.att", hex('b'));
    let a = artifact(&format!("sha256:{}", hex('a')), &["latest", &att]);
    assert_eq!(classify(&a).unwrap().unwrap().role, Role::Primary);
    let b = artifact(&format!("sha256:{}", hex('a')), &[&att, "latest"]);
    assert_eq!(classify(&b).unwrap().unwrap().role, Role::Attestation);
}

#[test]
fn near_misses_of_the_attestation_tag_are_primary() {
    let d = format!("sha256:{}", hex('a'));
    let too_short = format!("sha256-{}.att", &hex('b')[..63]);
    let upper = format!("sha256-{}.att", hex('B'));
    let wrong_ext = format!("sha256-{}.sig", hex('b'));
    let no_dot = format!("sha256-{}xatt", hex('b'));
    let colon = format!("sha256:{}.att", hex('b'));
    let trailing = format!("sha256-{}.att ", hex('b'));
    for tag in [too_short, upper, wrong_ext, no_dot, colon, trailing] {
        let a = artifact(&d, &[&tag]);
        assert_eq!(classify(&a).unwrap().unwrap().role, Role::Primary, "{}", tag);
    }
}

#[test]
fn primary_artifact_with_malformed_digest_is_a_decode_failure() {
    let a = artifact("sha256:zz", &["latest"]);
    assert_eq!(classify(&a).err(), Some(RegistryError::Decode));
}

#[test]
fn attestation_is_classified_whatever_its_own_digest() {
    let tag = format!("sha256-{}.att", hex('b'));
    let a = artifact("not-a-digest", &[&tag]);
    assert_eq!(classify(&a).unwrap().unwrap().role, Role::Attestation);
}

#[test]
fn asset_layers_take_no_part() {
    let a = asset("id1", "v2/foo/blobs/x", LAYER_TYPE, &hex('a'));
    assert!(classify_asset(&a).unwrap().is_none());
}

#[test]
fn assets_addressed_by_digest_take_no_part() {
    let path = format!("v2/foo/manifests/sha256:{}", hex('a'));
    let a = asset("id1", &path, MANIFEST_TYPE, &hex('a'));
    assert!(classify_asset(&a).unwrap().is_none());
}

#[test]
fn asset_attestation_and_signature_are_told_apart() {
    let att = format!("v2/foo/manifests/sha256-{}.att", hex('c'));
    let sig = format!("v2/foo/manifests/sha256-{}.sig", hex('d'));
    let a = classify_asset(&asset("id-att", &att, MANIFEST_TYPE, &hex('1'))).unwrap().unwrap();
    assert_eq!(a.role, Role::Attestation);
    assert_eq!(a.digest, hex('c'));
    assert_eq!(a.reference, "id-att");
    let s = classify_asset(&asset("id-sig", &sig, MANIFEST_TYPE, &hex('2'))).unwrap().unwrap();
    assert_eq!(s.role, Role::Signature);
    assert_eq!(s.digest, hex('d'));
    assert_eq!(s.reference, "id-sig");
}

#[test]
fn asset_with_ordinary_path_is_primary_by_checksum() {
    let a = classify_asset(&asset("id9", "v2/foo/manifests/24.3.0", MANIFEST_TYPE, &hex('9')))
        .unwrap()
        .unwrap();
    assert_eq!(a.role, Role::Primary);
    assert_eq!(a.digest, hex('9'));
    assert_eq!(a.reference, "id9");
}

#[test]
fn asset_suffix_must_end_the_path() {
    let path = format!("v2/foo/manifests/sha256-{}.att/more", hex('c'));
    let a = classify_asset(&asset("id", &path, MANIFEST_TYPE, &hex('9'))).unwrap().unwrap();
    assert_eq!(a.role, Role::Primary);
    let short = format!("/manifests/sha256-{}.sig", hex('c'));
    let s = classify_asset(&asset("id", &short, MANIFEST_TYPE, &hex('9'))).unwrap().unwrap();
    assert_eq!(s.role, Role::Signature);
}

#[test]
fn primary_asset_with_malformed_checksum_is_a_decode_failure() {
    let a = asset("id", "v2/foo/manifests/latest", MANIFEST_TYPE, "xyz");
    assert_eq!(classify_asset(&a).err(), Some(RegistryError::Decode));
}
