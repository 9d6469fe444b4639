use artifact_hygiene::cache::{CachedObject, TTL_SECONDS};
use artifact_hygiene::error::{ArtifactTreeError, RegistryError};
use artifact_hygiene::model::{Artifact, Dsse, Repository, Tag};
use artifact_hygiene::monitor::{artifact_uri, join_tags, scrutinize, Scrutiny};
use artifact_hygiene::repository::{route, sandbox, split_name};
use artifact_hygiene::sbom::{
    check_parameters, content_disposition, decode_payload, exit_code, image_reference,
    payload_text, repository_name, verification_outcome, DownloadSbomError,
};
use artifact_hygiene::url::{
    artifact_url, artifacts_path, artifacts_url, asset_url, assets_url, decimal, repositories_url,
};

fn hex(c: char) -> String {
    std::iter::repeat(c).take(64).collect()
}

#[test]
fn new_cache_is_empty() {
    let cache: CachedObject<String> = CachedObject::new();
    assert_eq!(cache.get(0), None);
    assert_eq!(cache.get(1_700_000_000), None);
    assert!(!cache.is_fresh(0));
}

#[test]
fn cached_value_lives_for_an_hour() {
    assert_eq!(TTL_SECONDS, 3600);
    let mut cache: CachedObject<String> = CachedObject::new();
    cache.set_to("page".to_string(), 1000);
    assert_eq!(cache.get(1000), Some("page".to_string()));
    assert_eq!(cache.get(4599), Some("page".to_string()));
    assert!(cache.is_fresh(4599));
    assert_eq!(cache.get(4600), None);
    assert_eq!(cache.get(u64::MAX), None);
    assert!(!cache.is_fresh(4600));
}

#[test]
fn reading_does_not_renew_the_value() {
    let mut cache: CachedObject<u32> = CachedObject::new();
    cache.set_to(7, 0);
    assert_eq!(cache.get(3599), Some(7));
    assert_eq!(cache.get(3599), Some(7));
    assert_eq!(cache.get(3600), None);
}

#[test]
fn setting_again_replaces_value_and_time() {
    let mut cache: CachedObject<u32> = CachedObject::new();
    cache.set_to(1, 100);
    cache.set_to(2, 2000);
    assert_eq!(cache.get(3700), Some(2));
    assert_eq!(cache.get(5599), Some(2));
    assert_eq!(cache.get(5600), None);
}

#[test]
fn clock_before_the_set_time_gives_nothing() {
    let mut cache: CachedObject<u32> = CachedObject::new();
    cache.set_to(1, 5000);
    assert_eq!(cache.get(4999), None);
}

#[test]
fn value_set_at_the_end_of_time_does_not_overflow() {
    let mut cache: CachedObject<u32> = CachedObject::new();
    cache.set_to(1, u64::MAX - 10);
    assert_eq!(cache.get(u64::MAX), Some(1));
}

#[test]
fn peek_lends_the_value_itself() {
    let mut cache: CachedObject<String> = CachedObject::new();
    assert_eq!(cache.peek(0), None);
    cache.set_to("page".to_string(), 50);
    assert_eq!(cache.peek(50), Some(&"page".to_string()));
    assert_eq!(cache.peek(3649), Some(&"page".to_string()));
    assert_eq!(cache.peek(3650), None);
    assert_eq!(cache.peek(49), None);
}

#[test]
fn cleared_cache_is_empty() {
    let mut cache: CachedObject<u32> = CachedObject::new();
    cache.set_to(1, 10);
    cache.clear();
    assert_eq!(cache.get(10), None);
}

#[test]
fn repository_name_splits_at_the_first_slash() {
    let p = split_name("sdp/kafka").unwrap();
    assert_eq!((p.namespace.as_str(), p.name.as_str()), ("sdp", "kafka"));
    let q = split_name("sdp/tools/testing").unwrap();
    assert_eq!((q.namespace.as_str(), q.name.as_str()), ("sdp", "tools/testing"));
    let r = split_name("/x").unwrap();
    assert_eq!((r.namespace.as_str(), r.name.as_str()), ("", "x"));
    let s = split_name("x/").unwrap();
    assert_eq!((s.namespace.as_str(), s.name.as_str()), ("x", ""));
}

#[test]
fn repository_name_without_slash_is_malformed() {
    assert_eq!(split_name("kafka").err(), Some(RegistryError::MalformedRepositoryName));
    assert_eq!(split_name("").err(), Some(RegistryError::MalformedRepositoryName));
    let repo = Repository { name: "sandbox".to_string() };
    assert_eq!(route(&repo).err(), Some(RegistryError::MalformedRepositoryName));
}

#[test]
fn sandbox_repositories_are_left_alone() {
    assert!(sandbox("sandbox"));
    assert!(!sandbox("Sandbox"));
    assert!(!sandbox("sandbox2"));
    assert!(route(&Repository { name: "sandbox/kafka".to_string() }).unwrap().is_none());
    let p = route(&Repository { name: "sdp/sandbox".to_string() }).unwrap().unwrap();
    assert_eq!((p.namespace.as_str(), p.name.as_str()), ("sdp", "sandbox"));
}

#[test]
fn numbers_are_written_in_decimal() {
    assert_eq!(decimal(0), "0");
    assert_eq!(decimal(7), "7");
    assert_eq!(decimal(10), "10");
    assert_eq!(decimal(20), "20");
    assert_eq!(decimal(1234567890), "1234567890");
    assert_eq!(decimal(u64::MAX), "18446744073709551615");
}

#[test]
fn listing_addresses() {
    assert_eq!(
        repositories_url("https://oci.example/api/v2.0", 20, 1, None),
        "https://oci.example/api/v2.0/repositories?page_size=20&page=1"
    );
    assert_eq!(
        repositories_url("https://oci.example/api/v2.0", 100, 3, Some("name=~sdp/")),
        "https://oci.example/api/v2.0/repositories?page_size=100&page=3&q=name=~sdp/"
    );
    assert_eq!(
        artifacts_url("https://oci.example/api/v2.0", "sdp", "kafka", 20, 12),
        "https://oci.example/api/v2.0/projects/sdp/repositories/kafka/artifacts?page_size=20&page=12"
    );
    assert_eq!(
        assets_url("https://repo.example", "docker", None),
        "https://repo.example/service/rest/v1/assets?repository=docker"
    );
    assert_eq!(
        assets_url("https://repo.example", "docker", Some("abc123")),
        "https://repo.example/service/rest/v1/assets?repository=docker&continuationToken=abc123"
    );
}

#[test]
fn deletion_addresses() {
    let tag = format!("sha256-{}.att", hex('a'));
    assert_eq!(
        artifact_url("https://oci.example/api/v2.0", "sdp", "kafka", &tag),
        format!("https://oci.example/api/v2.0/projects/sdp/repositories/kafka/artifacts/{}", tag)
    );
    assert_eq!(
        artifact_url("b", "sdp", "ubi8-rust-builder", "latest"),
        "b/projects/sdp/repositories/ubi8-rust-builder/artifacts/latest"
    );
    assert_eq!(
        asset_url("https://repo.example", "ZG9ja2VyOjE"),
        "https://repo.example/service/rest/v1/assets/ZG9ja2VyOjE"
    );
}

#[test]
fn path_segments_are_percent_encoded() {
    assert_eq!(
        artifacts_path("b", "my project", "tools/testing"),
        "b/projects/my%20project/repositories/tools%2Ftesting/artifacts"
    );
    assert_eq!(
        artifacts_path("b", "a-b.c_d~e", "\u{e4}%\u{1f47e}"),
        "b/projects/a-b.c_d~e/repositories/%C3%A4%25%F0%9F%91%BE/artifacts"
    );
    assert_eq!(artifacts_path("", "", ""), "/projects//repositories//artifacts");
}

#[test]
fn sbom_parameters_are_checked() {
    assert!(check_parameters("kafka", &hex('a')).is_ok());
    assert!(check_parameters("Kafka-2", &hex('0')).is_ok());
    for (repository, digest) in [
        ("", hex('a')),
        ("kafka/x", hex('a')),
        ("kaf ka", hex('a')),
        ("kafka_x", hex('a')),
        ("kafka\n", hex('a')),
        ("kafka", hex('A')),
        ("kafka", hex('g')),
        ("kafka", format!("sha256:{}", hex('a'))),
        ("kafka", hex('a')[..63].to_string()),
        ("kafka", format!("{}a", hex('a'))),
        ("kafka", String::new()),
    ] {
        let r = check_parameters(repository, &digest);
        assert!(matches!(r, Err(DownloadSbomError::InvalidSbomParameters)), "{:?}", repository);
    }
    assert!(repository_name("a-B-9"));
    assert!(!repository_name("a.b"));
}

#[test]
fn image_reference_names_registry_project_repository_and_digest() {
    assert_eq!(
        image_reference("oci.stackable.tech", "sdp", "kafka", "abc"),
        "oci.stackable.tech/sdp/kafka@sha256:abc"
    );
    assert_eq!(
        artifact_uri("oci.stackable.tech", "sdp", "kafka", "sha256:abc"),
        "oci.stackable.tech/sdp/kafka@sha256:abc"
    );
}

#[test]
fn payload_is_decoded_from_base64() {
    let dsse = Dsse { payload: "eyJwcmVkaWNhdGUiOnt9fQ==".to_string() };
    assert_eq!(decode_payload(&dsse).unwrap(), "{\"predicate\":{}}");
    let empty = Dsse { payload: String::new() };
    assert_eq!(decode_payload(&empty).unwrap(), "");
}

#[test]
fn payload_that_is_no_base64_is_refused() {
    for payload in ["not base64!", "aGVsbG8", "aGVsbG8=="] {
        let r = decode_payload(&Dsse { payload: payload.to_string() });
        assert!(matches!(r, Err(DownloadSbomError::DecodeDssePayload)), "{:?}", payload);
    }
}

#[test]
fn payload_that_is_no_text_is_refused() {
    let r = decode_payload(&Dsse { payload: "/w==".to_string() });
    assert!(matches!(r, Err(DownloadSbomError::ParseDssePayloadAsString)));
    assert!(matches!(
        payload_text(vec![0xc3, 0x28]),
        Err(DownloadSbomError::ParseDssePayloadAsString)
    ));
    assert_eq!(payload_text(vec![0xc3, 0xa4]).unwrap(), "\u{e4}");
}

#[test]
fn refused_attestation_carries_what_the_tool_printed() {
    let ok = verification_outcome(true, Some(0), "out".to_string(), "err".to_string(), "kafka", "d");
    assert_eq!(ok.unwrap(), "out");
    let bad =
        verification_outcome(false, Some(3), "out".to_string(), "err".to_string(), "kafka", "d");
    match bad {
        Err(DownloadSbomError::SbomVerification {
            cosign_stdout,
            cosign_stderr,
            cosign_status,
            repository,
            digest,
        }) => {
            assert_eq!(cosign_stdout, "out");
            assert_eq!(cosign_stderr, "err");
            assert_eq!(cosign_status, Some(3));
            assert_eq!(repository, "kafka");
            assert_eq!(digest, "d");
        }
        other => panic!("unexpected: {:?}", other),
    }
}

#[test]
fn exit_code_is_the_tools_own_or_one() {
    assert_eq!(exit_code(Some(0)), 0);
    assert_eq!(exit_code(Some(42)), 42);
    assert_eq!(exit_code(Some(-1)), -1);
    assert_eq!(exit_code(None), 1);
}

#[test]
fn download_is_offered_under_repository_and_digest() {
    assert_eq!(content_disposition("kafka", "abc"), "attachment; filename=\"kafka-abc.json\"");
}

#[test]
fn errors_in_words() {
    assert_eq!(ArtifactTreeError::GetRepositories.message(), "cannot get repositories");
    assert_eq!(ArtifactTreeError::ParseRepositories.message(), "cannot parse repositories");
    assert_eq!(ArtifactTreeError::GetArtifacts.message(), "cannot get artifacts");
    assert_eq!(ArtifactTreeError::ParseArtifacts.message(), "cannot parse artifacts");
    assert_eq!(ArtifactTreeError::UnexpectedRepositoryName.message(), "unexpected repository name");
    assert_eq!(DownloadSbomError::InvalidSbomParameters.message(), "invalid repository or digest");
    assert_eq!(DownloadSbomError::ParseDsse.message(), "cannot parse DSSE");
    assert_eq!(DownloadSbomError::DecodeDssePayload.message(), "cannot decode DSSE payload");
    assert_eq!(
        DownloadSbomError::ParseDssePayloadAsString.message(),
        "cannot parse DSSE payload as string"
    );
    assert_eq!(
        DownloadSbomError::ParseInTotoAttestation.message(),
        "cannot parse in-toto attestation"
    );
    assert_eq!(DownloadSbomError::CosignExecution.message(), "failed to execute cosign");
    let refused = DownloadSbomError::SbomVerification {
        cosign_stdout: String::new(),
        cosign_stderr: String::new(),
        cosign_status: None,
        repository: String::new(),
        digest: String::new(),
    };
    assert_eq!(refused.message(), "failed to verify SBOM");
}

#[test]
fn errors_by_kind() {
    assert_eq!(ArtifactTreeError::GetRepositories.kind(), RegistryError::Transport);
    assert_eq!(ArtifactTreeError::GetArtifacts.kind(), RegistryError::Transport);
    assert_eq!(ArtifactTreeError::ParseRepositories.kind(), RegistryError::Decode);
    assert_eq!(ArtifactTreeError::ParseArtifacts.kind(), RegistryError::Decode);
    assert_eq!(
        ArtifactTreeError::UnexpectedRepositoryName.kind(),
        RegistryError::MalformedRepositoryName
    );
}

fn artifact(digest: &str, tags: &[&str]) -> Artifact {
    Artifact {
        digest: digest.to_string(),
        tags: Some(tags.iter().map(|t| Tag { name: t.to_string() }).collect()),
        references: None,
    }
}

#[test]
fn tagged_artifacts_are_verified_but_for_attestations() {
    let plain = artifact("sha256:abc", &["24.3.0", "latest"]);
    match scrutinize("oci.stackable.tech", "sdp", "kafka", &plain) {
        Scrutiny::Verify { uri } => assert_eq!(uri, "oci.stackable.tech/sdp/kafka@sha256:abc"),
        other => panic!("unexpected: {:?}", other),
    }
    let att = artifact("sha256:abc", &[&format!("sha256-{}.att", hex('a'))]);
    assert!(matches!(scrutinize("r", "p", "n", &att), Scrutiny::Attestation));
    let none = artifact("sha256:abc", &[]);
    assert!(matches!(scrutinize("r", "p", "n", &none), Scrutiny::Untagged));
    let absent = Artifact { digest: "sha256:abc".to_string(), tags: None, references: None };
    assert!(matches!(scrutinize("r", "p", "n", &absent), Scrutiny::Untagged));
}

#[test]
fn tags_are_joined_with_comma_and_space() {
    let tags = |names: &[&str]| -> Vec<Tag> {
        names.iter().map(|n| Tag { name: n.to_string() }).collect()
    };
    assert_eq!(join_tags(&tags(&[])), "");
    assert_eq!(join_tags(&tags(&["a"])), "a");
    assert_eq!(join_tags(&tags(&["a", "b", "c"])), "a, b, c");
    assert_eq!(join_tags(&tags(&["", ""])), ", ");
}
