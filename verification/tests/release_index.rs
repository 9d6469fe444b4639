use artifact_hygiene::index::{
    artifact_entries, compare_entries, process_artifacts, release_entries, variant_exists,
    ArchPolicy, Exemption, IndexEntry, ReleaseIndex, Supersession,
};
use artifact_hygiene::model::{Artifact, Tag, TagInfo};
use artifact_hygiene::release::{parse_release_tag, Architecture};
use artifact_hygiene::render::{render_as_html, PAGE_FOOT, PAGE_HEAD};
use artifact_hygiene::version::{compare_text, compare_versions, key_of, read_number, Order};

fn chars(s: &str) -> Vec<char> {
    s.chars().collect()
}

fn parsed(tag: &str) -> Option<(String, Option<Architecture>)> {
    parse_release_tag(tag).map(|m| (m.version, m.architecture))
}

fn artifact(digest: &str, tags: &[&str]) -> Artifact {
    Artifact {
        digest: digest.to_string(),
        tags: Some(tags.iter().map(|t| Tag { name: t.to_string() }).collect()),
        references: None,
    }
}

fn entry(version: &str, repository: &str, name: &str, digest: &str) -> IndexEntry {
    IndexEntry {
        version: version.to_string(),
        repository: repository.to_string(),
        tag: TagInfo { name: name.to_string(), digest: digest.to_string() },
    }
}

fn rows(index: &ReleaseIndex) -> Vec<(String, String, String, String)> {
    index
        .entries()
        .iter()
        .map(|e| (e.version.clone(), e.repository.clone(), e.tag.name.clone(), e.tag.digest.clone()))
        .collect()
}

fn row(version: &str, repository: &str, name: &str, digest: &str) -> (String, String, String, String) {
    (version.to_string(), repository.to_string(), name.to_string(), digest.to_string())
}

#[test]
fn plain_versions_are_release_tags() {
    assert_eq!(parsed("24.3.0"), Some(("24.3.0".to_string(), None)));
    assert_eq!(parsed("1.2.3"), Some(("1.2.3".to_string(), None)));
    assert_eq!(parsed("0.0.0-dev"), Some(("0.0.0-dev".to_string(), None)));
    assert_eq!(parsed("123.4567.89"), Some(("123.4567.89".to_string(), None)));
}

#[test]
fn architecture_is_split_off_the_version() {
    assert_eq!(parsed("24.3.0-arm64"), Some(("24.3.0".to_string(), Some(Architecture::Arm64))));
    assert_eq!(parsed("24.3.0-amd64"), Some(("24.3.0".to_string(), Some(Architecture::Amd64))));
    assert_eq!(
        parsed("0.0.0-dev-amd64"),
        Some(("0.0.0-dev".to_string(), Some(Architecture::Amd64)))
    );
}

#[test]
fn component_prefix_is_dropped() {
    assert_eq!(parsed("3.4.0-stackable24.11.2"), Some(("24.11.2".to_string(), None)));
    assert_eq!(
        parsed("3.4.0-stackable24.11.2-arm64"),
        Some(("24.11.2".to_string(), Some(Architecture::Arm64)))
    );
    assert_eq!(
        parsed("x-stackable0.0.0-dev-amd64"),
        Some(("0.0.0-dev".to_string(), Some(Architecture::Amd64)))
    );
    assert_eq!(
        parsed("a-stackable-b-stackable1.2.3"),
        Some(("1.2.3".to_string(), None))
    );
}

#[test]
fn other_tags_are_no_release_tags() {
    for tag in [
        "",
        "latest",
        "1.2",
        "1.2.",
        "1..3",
        ".2.3",
        "1.2.3.4",
        "v1.2.3",
        "1.2.3-",
        "1.2.3-dev-dev",
        "1.2.3-arm",
        "1.2.3-arm64-dev",
        "1.2.3-arm64-amd64",
        "1.2.3-ARM64",
        "1.2.3 ",
        "1x2.3",
        "-stackable1.2.3",
        "stackable1.2.3",
        "foo-stackable",
        "foo-stackable1.2",
        "foo_stackable1.2.3",
        "sha256-0000000000000000000000000000000000000000000000000000000000000000.att",
    ] {
        assert_eq!(parsed(tag), None, "{:?}", tag);
    }
}

#[test]
fn version_sort_is_by_number() {
    let mut versions = vec!["24.3.0", "24.11.2", "2.9.0"];
    versions.sort_by(|a, b| match compare_versions(a, b) {
        Order::Before => std::cmp::Ordering::Less,
        Order::Same => std::cmp::Ordering::Equal,
        Order::After => std::cmp::Ordering::Greater,
    });
    assert_eq!(versions, vec!["24.11.2", "24.3.0", "2.9.0"]);
}

#[test]
fn version_sort_in_the_index() {
    let index = ReleaseIndex::new()
        .with(entry("24.3.0", "kafka", "t1", "d1"))
        .with(entry("24.11.2", "kafka", "t2", "d2"))
        .with(entry("2.9.0", "kafka", "t3", "d3"));
    let versions: Vec<String> = index.entries().iter().map(|e| e.version.clone()).collect();
    assert_eq!(versions, vec!["24.11.2", "24.3.0", "2.9.0"]);
}

#[test]
fn versions_compare_by_each_number_in_turn() {
    assert_eq!(compare_versions("24.11.2", "24.3.0"), Order::Before);
    assert_eq!(compare_versions("24.3.0", "24.11.2"), Order::After);
    assert_eq!(compare_versions("3.0.0", "24.11.2"), Order::After);
    assert_eq!(compare_versions("24.3.10", "24.3.9"), Order::Before);
    assert_eq!(compare_versions("24.3.0", "24.3.0"), Order::Same);
    assert_eq!(compare_versions("024.3.0", "24.3.0"), Order::Before);
}

#[test]
fn versions_with_the_same_numbers_go_by_text() {
    assert_eq!(compare_versions("24.3.0", "24.3.0-dev"), Order::Before);
    assert_eq!(compare_versions("24.3.0-dev", "24.3.0"), Order::After);
}

#[test]
fn numbers_are_read_up_to_the_first_other_character() {
    assert_eq!(key_of(&chars("24.11.2")), (24, 11, 2));
    assert_eq!(key_of(&chars("0.0.0-dev")), (0, 0, 0));
    assert_eq!(key_of(&chars("7")), (7, 0, 0));
    assert_eq!(key_of(&chars("7.8")), (7, 8, 0));
    assert_eq!(key_of(&chars("")), (0, 0, 0));
    assert_eq!(key_of(&chars("x.1.2")), (0, 0, 1));
    assert_eq!(read_number(&chars("ab123cd"), 2), 123);
    assert_eq!(read_number(&chars("ab123cd"), 0), 0);
    assert_eq!(read_number(&chars("12"), 2), 0);
    assert_eq!(read_number(&chars("12"), 3), 0);
}

#[test]
fn numbers_beyond_the_machine_word_are_capped() {
    assert_eq!(read_number(&chars("18446744073709551615"), 0), u64::MAX);
    assert_eq!(read_number(&chars("18446744073709551614"), 0), u64::MAX - 1);
    assert_eq!(read_number(&chars("18446744073709551616"), 0), u64::MAX);
    assert_eq!(read_number(&chars("99999999999999999999999999"), 0), u64::MAX);
    assert_eq!(read_number(&chars("00000000000000000000000042"), 0), 42);
}

#[test]
fn texts_compare_character_by_character() {
    assert_eq!(compare_text(&chars("abc"), &chars("abd")), Order::Before);
    assert_eq!(compare_text(&chars("abd"), &chars("abc")), Order::After);
    assert_eq!(compare_text(&chars("ab"), &chars("abc")), Order::Before);
    assert_eq!(compare_text(&chars("abc"), &chars("ab")), Order::After);
    assert_eq!(compare_text(&chars(""), &chars("")), Order::Same);
    assert_eq!(compare_text(&chars("z"), &chars("\u{e9}")), Order::Before);
    assert_eq!(compare_text(&chars("same"), &chars("same")), Order::Same);
}

#[test]
fn multi_arch_index_keeps_the_qualified_tags_only() {
    let policy = ArchPolicy::strict();
    let artifacts = vec![
        artifact("sha256:d-amd", &["1.2.3-amd64"]),
        artifact("sha256:d-arm", &["1.2.3-arm64"]),
        artifact("sha256:d-bare", &["1.2.3"]),
    ];
    let index = process_artifacts(&policy, "kafka", &artifacts, ReleaseIndex::new());
    assert_eq!(
        rows(&index),
        vec![
            row("1.2.3", "kafka", "1.2.3-amd64", "d-amd"),
            row("1.2.3", "kafka", "1.2.3-arm64", "d-arm"),
        ]
    );
}

#[test]
fn multi_arch_index_by_presence() {
    let policy = ArchPolicy::by_presence();
    let artifacts = vec![
        artifact("sha256:d-amd", &["1.2.3-amd64"]),
        artifact("sha256:d-arm", &["1.2.3-arm64"]),
        artifact("sha256:d-bare", &["1.2.3"]),
        // of 1.3.0 there is one architecture only, of 1.4.0 none
        artifact("sha256:e-arm", &["1.3.0-arm64"]),
        artifact("sha256:e-bare", &["1.3.0", "1.4.0"]),
    ];
    assert!(variant_exists(&artifacts, "1.2.3", Architecture::Arm64));
    assert!(variant_exists(&artifacts, "1.2.3", Architecture::Amd64));
    assert!(variant_exists(&artifacts, "1.3.0", Architecture::Arm64));
    assert!(!variant_exists(&artifacts, "1.3.0", Architecture::Amd64));
    assert!(!variant_exists(&artifacts, "1.4.0", Architecture::Arm64));
    assert!(policy.is_superseded("1.2.3", "kafka", &artifacts));
    assert!(!policy.is_superseded("1.3.0", "kafka", &artifacts));
    assert!(!policy.is_superseded("1.4.0", "kafka", &artifacts));
    let index = process_artifacts(&policy, "kafka", &artifacts, ReleaseIndex::new());
    assert_eq!(
        rows(&index),
        vec![
            row("1.4.0", "kafka", "1.4.0", "e-bare"),
            row("1.3.0", "kafka", "1.3.0", "e-bare"),
            row("1.3.0", "kafka", "1.3.0-arm64", "e-arm"),
            row("1.2.3", "kafka", "1.2.3-amd64", "d-amd"),
            row("1.2.3", "kafka", "1.2.3-arm64", "d-arm"),
        ]
    );
}

#[test]
fn supersession_everywhere_needs_no_other_tags() {
    let strict = ArchPolicy::strict();
    assert!(strict.is_superseded("1.4.0", "kafka", &Vec::new()));
    let exempting = ArchPolicy::single_arch("1.4.0");
    assert!(!exempting.is_superseded("1.4.0", "kafka", &Vec::new()));
    assert!(exempting.is_superseded("1.4.1", "kafka", &Vec::new()));
}

#[test]
fn exempt_version_keeps_its_bare_tag() {
    let policy = ArchPolicy::single_arch("24.3.0");
    assert!(policy.is_exempt("24.3.0", "kafka"));
    assert!(!policy.is_exempt("24.7.0", "kafka"));
    let artifacts = vec![
        artifact("sha256:d1", &["24.3.0"]),
        artifact("sha256:d2", &["24.7.0"]),
        artifact("sha256:d3", &["24.7.0-arm64"]),
        artifact("sha256:d4", &["24.3.0-amd64"]),
    ];
    let entries = release_entries(&policy, "nifi", &artifacts);
    let names: Vec<String> = entries.iter().map(|e| e.tag.name.clone()).collect();
    assert_eq!(names, vec!["24.3.0", "24.7.0-arm64", "24.3.0-amd64"]);
}

#[test]
fn exemption_may_be_for_one_repository() {
    let policy = ArchPolicy {
        supersession: Supersession::Everywhere,
        exemptions: vec![Exemption {
            version: "0.0.0-dev".to_string(),
            repository: Some("tools".to_string()),
        }],
    };
    assert!(policy.is_exempt("0.0.0-dev", "tools"));
    assert!(!policy.is_exempt("0.0.0-dev", "kafka"));
    assert!(!policy.is_exempt("0.0.0", "tools"));
    assert!(!ArchPolicy::strict().is_exempt("24.3.0", "kafka"));
}

#[test]
fn every_tag_of_an_artifact_is_looked_at() {
    let policy = ArchPolicy::strict();
    let a = artifact(
        "sha256:abc",
        &["latest", "3.4.0-stackable24.11.0-arm64", "24.11.0", "24.11.0-arm64"],
    );
    let entries = artifact_entries(&policy, "hbase", &vec![a.clone()], &a);
    let got: Vec<(String, String, String)> = entries
        .iter()
        .map(|e| (e.version.clone(), e.tag.name.clone(), e.tag.digest.clone()))
        .collect();
    assert_eq!(
        got,
        vec![
            ("24.11.0".to_string(), "3.4.0-stackable24.11.0-arm64".to_string(), "abc".to_string()),
            ("24.11.0".to_string(), "24.11.0-arm64".to_string(), "abc".to_string()),
        ]
    );
    let untagged = Artifact { digest: "sha256:abc".to_string(), tags: None, references: None };
    assert!(artifact_entries(&policy, "hbase", &Vec::new(), &untagged).is_empty());
}

#[test]
fn index_holds_an_entry_once() {
    let index = ReleaseIndex::new()
        .with(entry("24.3.0", "kafka", "t", "d"))
        .with(entry("24.3.0", "kafka", "t", "d"));
    assert_eq!(index.len(), 1);
    let more = index.with_all(vec![
        entry("24.3.0", "kafka", "t", "d"),
        entry("24.3.0", "kafka", "t", "e"),
        entry("24.3.0", "kafka", "t", "e"),
    ]);
    assert_eq!(rows(&more), vec![row("24.3.0", "kafka", "t", "d"), row("24.3.0", "kafka", "t", "e")]);
}

#[test]
fn index_is_in_display_order_whatever_the_order_of_arrival() {
    let entries = vec![
        entry("2.9.0", "zookeeper", "b", "1"),
        entry("24.11.2", "kafka", "b", "2"),
        entry("24.3.0", "kafka", "a", "3"),
        entry("24.11.2", "airflow", "z", "4"),
        entry("24.11.2", "kafka", "a", "6"),
        entry("24.11.2", "kafka", "a", "5"),
        entry("24.3.0-dev", "kafka", "a", "7"),
    ];
    let expected = vec![
        row("24.11.2", "airflow", "z", "4"),
        row("24.11.2", "kafka", "a", "5"),
        row("24.11.2", "kafka", "a", "6"),
        row("24.11.2", "kafka", "b", "2"),
        row("24.3.0", "kafka", "a", "3"),
        row("24.3.0-dev", "kafka", "a", "7"),
        row("2.9.0", "zookeeper", "b", "1"),
    ];
    let forward = ReleaseIndex::new().with_all(entries.clone());
    assert_eq!(rows(&forward), expected);
    let mut reversed = entries;
    reversed.reverse();
    let backward = ReleaseIndex::new().with_all(reversed);
    assert_eq!(rows(&backward), expected);
    assert_eq!(ReleaseIndex::new().len(), 0);
}

#[test]
fn entries_compare_by_release_then_repository_then_tag_then_digest() {
    let a = entry("24.11.2", "b", "t", "d");
    assert_eq!(compare_entries(&a, &entry("24.3.0", "a", "a", "a")), Order::Before);
    assert_eq!(compare_entries(&a, &entry("24.11.2", "a", "z", "z")), Order::After);
    assert_eq!(compare_entries(&a, &entry("24.11.2", "b", "u", "a")), Order::Before);
    assert_eq!(compare_entries(&a, &entry("24.11.2", "b", "t", "c")), Order::After);
    assert_eq!(compare_entries(&a, &entry("24.11.2", "b", "t", "d")), Order::Same);
}

#[test]
fn empty_index_renders_head_and_foot() {
    let html = render_as_html(&ReleaseIndex::new());
    assert_eq!(html, format!("{}{}", PAGE_HEAD, PAGE_FOOT));
    assert!(html.starts_with("\n<!DOCTYPE html>"));
    assert!(html.ends_with("</html>\n"));
}

#[test]
fn index_renders_as_a_tree() {
    let index = ReleaseIndex::new().with_all(vec![
        entry("24.3.0", "kafka", "3.6.1-stackable24.3.0", "aa"),
        entry("24.11.2", "kafka", "3.7.1-stackable24.11.2-amd64", "bb"),
        entry("24.11.2", "kafka", "3.7.1-stackable24.11.2-arm64", "cc"),
        entry("24.11.2", "nifi", "1.27.0-stackable24.11.2-arm64", "dd"),
    ]);
    let tree = concat_all(&[
        "<li>Release 24.11.2<ul>",
        "<li>kafka<ul>",
        "<li class='artifact'><a rel='nofollow' href='/sbom/kafka/bb'>3.7.1-stackable24.11.2-amd64</a></li>",
        "<li class='artifact'><a rel='nofollow' href='/sbom/kafka/cc'>3.7.1-stackable24.11.2-arm64</a></li>",
        "</ul></li>",
        "<li>nifi<ul>",
        "<li class='artifact'><a rel='nofollow' href='/sbom/nifi/dd'>1.27.0-stackable24.11.2-arm64</a></li>",
        "</ul></li>",
        "</ul></li>",
        "<li>Release 24.3.0<ul>",
        "<li>kafka<ul>",
        "<li class='artifact'><a rel='nofollow' href='/sbom/kafka/aa'>3.6.1-stackable24.3.0</a></li>",
        "</ul></li>",
        "</ul></li>",
    ]);
    assert_eq!(render_as_html(&index), format!("{}{}{}", PAGE_HEAD, tree, PAGE_FOOT));
}

fn concat_all(parts: &[&str]) -> String {
    parts.concat()
}
