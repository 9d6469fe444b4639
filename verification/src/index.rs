//! The index of release artifacts: which tags of which repository belong to
//! which release.
//!
//! The index is a set of entries, each a release version, a repository, and a
//! tag of that repository with the digest it points to. It is held in the
//! order in which it is shown: by release, newest first, then by repository,
//! tag and digest. An entry is in the index once, however often it is put in.
//!
//! A version may ship for several architectures. Then only the tags that name
//! an architecture are indexed, and a tag without one counts as superseded.
//! For which versions that holds is policy, and is handed in: for all but a
//! list of exempt ones, or for those that do have a tag for each
//! architecture.

use vstd::prelude::*;
use crate::digest::{bare_digest, strip_algorithm};
use crate::model::{Artifact, TagInfo};
use crate::release::{parse_release_tag, release_tag, Architecture, ReleaseMatchView};
use crate::text::{chars_of, same_text};
use crate::version::{
    compare_text, compare_versions, lemma_text_order_flip, lemma_text_order_same,
    lemma_text_order_transitive, lemma_version_order_flip, lemma_version_order_same,
    lemma_version_order_transitive, text_order, version_order, Order,
};

verus! {

/// A tag of a repository that belongs to a release.
#[derive(Debug, Clone, PartialEq, Eq)]
pub struct IndexEntry {
    pub version: String,
    pub repository: String,
    pub tag: TagInfo,
}

/// The mathematical content of an [`IndexEntry`].
pub struct IndexEntryView {
    pub version: Seq<char>,
    pub repository: Seq<char>,
    pub name: Seq<char>,
    pub digest: Seq<char>,
}

impl View for IndexEntry {
    type V = IndexEntryView;

    open spec fn view(&self) -> IndexEntryView {
        IndexEntryView {
            version: self.version@,
            repository: self.repository@,
            name: self.tag.name@,
            digest: self.tag.digest@,
        }
    }
}

/// A version, in all repositories or in one, whose tags are indexed whether
/// or not they name an architecture.
#[derive(Debug, Clone, PartialEq, Eq)]
pub struct Exemption {
    pub version: String,
    /// The one repository that the exemption is for; `None` for all.
    pub repository: Option<String>,
}

/// In which versions a tag that names no architecture counts as superseded.
#[derive(Debug, Clone, Copy, PartialEq, Eq, Structural)]
pub enum Supersession {
    /// In every version.
    Everywhere,
    /// In the versions for which the repository holds a tag for each of the
    /// two architectures.
    WhereBothArchitectures,
}

/// Which tags without architecture are indexed.
#[derive(Debug, Clone, PartialEq, Eq)]
pub struct ArchPolicy {
    pub supersession: Supersession,
    /// The versions whose tags without architecture are indexed in any case.
    pub exemptions: Vec<Exemption>,
}

impl Exemption {
    /// The exemption covers `version` in `repository`.
    pub open spec fn covers(&self, version: Seq<char>, repository: Seq<char>) -> bool {
        self.version@ == version && match self.repository {
            Some(r) => r@ == repository,
            None => true,
        }
    }
}

/// Some tag of `artifacts` is a release tag of `version` for `architecture`.
pub open spec fn has_variant(
    artifacts: Seq<Artifact>,
    version: Seq<char>,
    architecture: Architecture,
) -> bool {
    exists|i: int, j: int|
        0 <= i < artifacts.len() && 0 <= j < artifacts[i].tag_names().len() && release_tag(
            #[trigger] artifacts[i].tag_names()[j],
        ) == Some(ReleaseMatchView { version, architecture: Some(architecture) })
}

impl ArchPolicy {
    /// Some exemption covers `version` in `repository`.
    pub open spec fn exempts(&self, version: Seq<char>, repository: Seq<char>) -> bool {
        exists|i: int|
            0 <= i < self.exemptions@.len() && (#[trigger] self.exemptions@[i]).covers(
                version,
                repository,
            )
    }

    /// A tag of `version` without architecture counts as superseded in
    /// `repository`, whose artifacts are `artifacts`.
    pub open spec fn supersedes(
        &self,
        version: Seq<char>,
        repository: Seq<char>,
        artifacts: Seq<Artifact>,
    ) -> bool {
        !self.exempts(version, repository) && match self.supersession {
            Supersession::Everywhere => true,
            Supersession::WhereBothArchitectures => has_variant(
                artifacts,
                version,
                Architecture::Arm64,
            ) && has_variant(artifacts, version, Architecture::Amd64),
        }
    }

    /// The policy under which every version ships for both architectures: no
    /// tag without architecture is indexed.
    pub fn strict() -> (policy: Self)
        ensures
            policy.supersession == Supersession::Everywhere,
            policy.exemptions@.len() == 0,
    {
        ArchPolicy { supersession: Supersession::Everywhere, exemptions: Vec::new() }
    }

    /// The policy under which `version` alone ships for one architecture, in
    /// every repository.
    pub fn single_arch(version: &str) -> (policy: Self)
        ensures
            policy.supersession == Supersession::Everywhere,
            forall|v: Seq<char>, r: Seq<char>| #[trigger] policy.exempts(v, r) <==> v == version@,
    {
        let mut exemptions: Vec<Exemption> = Vec::new();
        exemptions.push(Exemption { version: version.to_owned(), repository: None });
        let policy = ArchPolicy { supersession: Supersession::Everywhere, exemptions };
        proof {
            assert forall|v: Seq<char>, r: Seq<char>| #[trigger]
                policy.exempts(v, r) <==> v == version@ by {
                if v == version@ {
                    assert(policy.exemptions@[0].covers(v, r));
                }
            }
        }
        policy
    }

    /// The policy under which a tag without architecture is superseded only
    /// where the repository holds a tag for each of the two architectures.
    pub fn by_presence() -> (policy: Self)
        ensures
            policy.supersession == Supersession::WhereBothArchitectures,
            policy.exemptions@.len() == 0,
    {
        ArchPolicy { supersession: Supersession::WhereBothArchitectures, exemptions: Vec::new() }
    }

    /// Decides [`exempts`](Self::exempts).
    pub fn is_exempt(&self, version: &str, repository: &str) -> (r: bool)
        ensures
            r == self.exempts(version@, repository@),
    {
        let mut i: usize = 0;
        while i < self.exemptions.len()
            invariant
                i <= self.exemptions.len(),
                forall|j: int|
                    0 <= j < i ==> !(#[trigger] self.exemptions@[j]).covers(version@, repository@),
            decreases self.exemptions.len() - i,
        {
            let e = &self.exemptions[i];
            if same_text(e.version.as_str(), version) {
                let here = match &e.repository {
                    Some(r) => same_text(r.as_str(), repository),
                    None => true,
                };
                if here {
                    return true;
                }
            }
            i += 1;
        }
        false
    }

    /// Decides [`supersedes`](Self::supersedes).
    pub fn is_superseded(&self, version: &str, repository: &str, artifacts: &Vec<Artifact>) -> (r:
        bool)
        ensures
            r == self.supersedes(version@, repository@, artifacts@),
    {
        if self.is_exempt(version, repository) {
            return false;
        }
        match self.supersession {
            Supersession::Everywhere => true,
            Supersession::WhereBothArchitectures => variant_exists(
                artifacts,
                version,
                Architecture::Arm64,
            ) && variant_exists(artifacts, version, Architecture::Amd64),
        }
    }
}

/// Whether `tag` is a release tag of `version` for `architecture`.
fn names_variant(tag: &str, version: &str, architecture: Architecture) -> (r: bool)
    ensures
        r == (release_tag(tag@) == Some(
            ReleaseMatchView { version: version@, architecture: Some(architecture) },
        )),
{
    match parse_release_tag(tag) {
        Some(m) => {
            let same_architecture = match (m.architecture, architecture) {
                (Some(Architecture::Arm64), Architecture::Arm64) => true,
                (Some(Architecture::Amd64), Architecture::Amd64) => true,
                _ => false,
            };
            same_architecture && same_text(m.version.as_str(), version)
        },
        None => false,
    }
}

/// Decides [`has_variant`].
pub fn variant_exists(artifacts: &Vec<Artifact>, version: &str, architecture: Architecture) -> (r:
    bool)
    ensures
        r == has_variant(artifacts@, version@, architecture),
{
    let ghost wanted = Some(
        ReleaseMatchView { version: version@, architecture: Some(architecture) },
    );
    let mut i: usize = 0;
    while i < artifacts.len()
        invariant
            i <= artifacts.len(),
            wanted == Some(
                ReleaseMatchView { version: version@, architecture: Some(architecture) },
            ),
            forall|a: int, b: int|
                0 <= a < i && 0 <= b < artifacts@[a].tag_names().len() ==> release_tag(
                    #[trigger] artifacts@[a].tag_names()[b],
                ) != wanted,
        decreases artifacts.len() - i,
    {
        match &artifacts[i].tags {
            None => {},
            Some(tags) => {
                let mut j: usize = 0;
                while j < tags.len()
                    invariant
                        j <= tags.len(),
                        i < artifacts.len(),
                        artifacts@[i as int].tags == Some(*tags),
                        wanted == Some(
                            ReleaseMatchView {
                                version: version@,
                                architecture: Some(architecture),
                            },
                        ),
                        forall|b: int|
                            0 <= b < j ==> release_tag(
                                #[trigger] artifacts@[i as int].tag_names()[b],
                            ) != wanted,
                    decreases tags.len() - j,
                {
                    assert(artifacts@[i as int].tag_names()[j as int] == tags@[j as int].name@);
                    if names_variant(tags[j].name.as_str(), version, architecture) {
                        return true;
                    }
                    j += 1;
                }
            },
        }
        i += 1;
    }
    false
}

/// The entry that the tag `tag` of an artifact with digest `digest` gives in
/// `repository`, whose artifacts are `all`: one for a release tag that names
/// an architecture or is not superseded, none for any other tag.
pub open spec fn entry_for(
    policy: ArchPolicy,
    repository: Seq<char>,
    all: Seq<Artifact>,
    digest: Seq<char>,
    tag: Seq<char>,
) -> Option<IndexEntryView> {
    match release_tag(tag) {
        Some(m) => if m.architecture is Some || !policy.supersedes(m.version, repository, all) {
            Some(
                IndexEntryView {
                    version: m.version,
                    repository,
                    name: tag,
                    digest: bare_digest(digest),
                },
            )
        } else {
            None
        },
        None => None,
    }
}

/// The entries that the tags `tags` of one artifact give, in order. Every tag
/// is looked at, not the first alone.
pub open spec fn tag_entries(
    policy: ArchPolicy,
    repository: Seq<char>,
    all: Seq<Artifact>,
    digest: Seq<char>,
    tags: Seq<Seq<char>>,
) -> Seq<IndexEntryView>
    decreases tags.len(),
{
    if tags.len() == 0 {
        Seq::empty()
    } else {
        let before = tag_entries(policy, repository, all, digest, tags.drop_last());
        match entry_for(policy, repository, all, digest, tags.last()) {
            Some(e) => before.push(e),
            None => before,
        }
    }
}

/// The entries that the artifacts `some` give, in order, in a repository
/// whose artifacts are `all`.
pub open spec fn entries_among(
    policy: ArchPolicy,
    repository: Seq<char>,
    all: Seq<Artifact>,
    some: Seq<Artifact>,
) -> Seq<IndexEntryView>
    decreases some.len(),
{
    if some.len() == 0 {
        Seq::empty()
    } else {
        entries_among(policy, repository, all, some.drop_last()) + tag_entries(
            policy,
            repository,
            all,
            some.last().digest@,
            some.last().tag_names(),
        )
    }
}

/// The entries that the artifacts of a repository give, in order.
pub open spec fn release_entries_of(
    policy: ArchPolicy,
    repository: Seq<char>,
    artifacts: Seq<Artifact>,
) -> Seq<IndexEntryView> {
    entries_among(policy, repository, artifacts, artifacts)
}

/// Where entry `x` is shown relative to `y`: by release, newest first, then
/// by the text of repository, tag and digest.
#[verifier::opaque]
pub open spec fn entry_order(x: IndexEntryView, y: IndexEntryView) -> Order {
    match version_order(x.version, y.version) {
        Order::Same => match text_order(x.repository, y.repository) {
            Order::Same => match text_order(x.name, y.name) {
                Order::Same => text_order(x.digest, y.digest),
                o => o,
            },
            o => o,
        },
        o => o,
    }
}

/// Every entry of `s` is shown before all that follow it; in particular no
/// entry is in `s` twice.
pub open spec fn in_display_order(s: Seq<IndexEntryView>) -> bool {
    forall|i: int, j: int|
        0 <= i < j < s.len() ==> entry_order(#[trigger] s[i], #[trigger] s[j]) == Order::Before
}

/// Two entries are in the same place exactly when they are the same entry.
pub proof fn lemma_entry_order_same(x: IndexEntryView, y: IndexEntryView)
    ensures
        (entry_order(x, y) == Order::Same) <==> x == y,
{
    reveal(entry_order);
    lemma_version_order_same(x.version, y.version);
    lemma_text_order_same(x.repository, y.repository);
    lemma_text_order_same(x.name, y.name);
    lemma_text_order_same(x.digest, y.digest);
}

/// `x` is shown before `y` exactly when `y` is shown after `x`.
pub proof fn lemma_entry_order_flip(x: IndexEntryView, y: IndexEntryView)
    ensures
        (entry_order(x, y) == Order::Before) <==> (entry_order(y, x) == Order::After),
{
    reveal(entry_order);
    lemma_version_order_flip(x.version, y.version);
    lemma_text_order_flip(x.repository, y.repository);
    lemma_text_order_flip(x.name, y.name);
    lemma_text_order_flip(x.digest, y.digest);
}

/// Being shown before is transitive.
pub proof fn lemma_entry_order_transitive(x: IndexEntryView, y: IndexEntryView, z: IndexEntryView)
    requires
        entry_order(x, y) == Order::Before,
        entry_order(y, z) == Order::Before,
    ensures
        entry_order(x, z) == Order::Before,
{
    reveal(entry_order);
    lemma_version_order_same(x.version, y.version);
    lemma_version_order_same(y.version, z.version);
    lemma_version_order_same(x.version, z.version);
    lemma_text_order_same(x.repository, y.repository);
    lemma_text_order_same(y.repository, z.repository);
    lemma_text_order_same(x.repository, z.repository);
    lemma_text_order_same(x.name, y.name);
    lemma_text_order_same(y.name, z.name);
    lemma_text_order_same(x.name, z.name);
    if version_order(x.version, y.version) == Order::Before && version_order(y.version, z.version)
        == Order::Before {
        lemma_version_order_transitive(x.version, y.version, z.version);
    }
    if text_order(x.repository, y.repository) == Order::Before && text_order(
        y.repository,
        z.repository,
    ) == Order::Before {
        lemma_text_order_transitive(x.repository, y.repository, z.repository);
    }
    if text_order(x.name, y.name) == Order::Before && text_order(y.name, z.name) == Order::Before {
        lemma_text_order_transitive(x.name, y.name, z.name);
    }
    if text_order(x.digest, y.digest) == Order::Before && text_order(y.digest, z.digest)
        == Order::Before {
        lemma_text_order_transitive(x.digest, y.digest, z.digest);
    }
}

/// No entry is shown before itself.
pub proof fn lemma_entry_order_irreflexive(x: IndexEntryView)
    ensures
        entry_order(x, x) == Order::Same,
{
    lemma_entry_order_same(x, x);
}

/// The display order of a set of entries is one order: two lists in display
/// order that hold the same entries are the same list. So an index does not
/// depend on the order in which its entries arrived.
pub proof fn lemma_display_order_is_unique(s: Seq<IndexEntryView>, t: Seq<IndexEntryView>)
    requires
        in_display_order(s),
        in_display_order(t),
        forall|e: IndexEntryView| s.contains(e) <==> t.contains(e),
    ensures
        s == t,
    decreases s.len(),
{
    if s.len() == 0 {
        if t.len() > 0 {
            assert(t.contains(t[0]));
        }
        assert(s =~= t);
    } else if t.len() == 0 {
        assert(s.contains(s[0]));
    } else {
        assert(s.contains(s[0]));
        assert(t.contains(t[0]));
        let j = choose|j: int| 0 <= j < t.len() && t[j] == s[0];
        let i = choose|i: int| 0 <= i < s.len() && s[i] == t[0];
        lemma_entry_order_irreflexive(s[0]);
        lemma_entry_order_flip(s[0], t[0]);
        lemma_entry_order_flip(t[0], s[0]);
        if j > 0 {
            assert(entry_order(t[0], t[j]) == Order::Before);
            if i > 0 {
                assert(entry_order(s[0], s[i]) == Order::Before);
            }
        }
        assert(s[0] == t[0]);
        let s1 = s.skip(1);
        let t1 = t.skip(1);
        assert forall|a: int, b: int| 0 <= a < b < s1.len() implies entry_order(
            #[trigger] s1[a],
            #[trigger] s1[b],
        ) == Order::Before by {
            assert(s1[a] == s[a + 1] && s1[b] == s[b + 1]);
        }
        assert forall|a: int, b: int| 0 <= a < b < t1.len() implies entry_order(
            #[trigger] t1[a],
            #[trigger] t1[b],
        ) == Order::Before by {
            assert(t1[a] == t[a + 1] && t1[b] == t[b + 1]);
        }
        assert forall|e: IndexEntryView| s1.contains(e) <==> t1.contains(e) by {
            if s1.contains(e) {
                let a = choose|a: int| 0 <= a < s1.len() && s1[a] == e;
                assert(s[a + 1] == e);
                assert(entry_order(s[0], s[a + 1]) == Order::Before);
                assert(s.contains(e));
                let b = choose|b: int| 0 <= b < t.len() && t[b] == e;
                assert(b > 0);
                assert(t1[b - 1] == e);
            }
            if t1.contains(e) {
                let b = choose|b: int| 0 <= b < t1.len() && t1[b] == e;
                assert(t[b + 1] == e);
                assert(entry_order(t[0], t[b + 1]) == Order::Before);
                assert(t.contains(e));
                let a = choose|a: int| 0 <= a < s.len() && s[a] == e;
                assert(a > 0);
                assert(s1[a - 1] == e);
            }
        }
        lemma_display_order_is_unique(s1, t1);
        assert(s =~= seq![s[0]] + s1);
        assert(t =~= seq![t[0]] + t1);
    }
}

/// In display order the entries of a release stand together, and within a
/// release the entries of a repository: every release is there once, and
/// under it every repository once.
pub proof fn lemma_groups_stand_together(s: Seq<IndexEntryView>, i: int, j: int, k: int)
    requires
        in_display_order(s),
        0 <= i < j < k < s.len(),
        s[i].version == s[k].version,
    ensures
        s[j].version == s[i].version,
        s[i].repository == s[k].repository ==> s[j].repository == s[i].repository,
{
    reveal(entry_order);
    assert(entry_order(s[i], s[j]) == Order::Before);
    assert(entry_order(s[j], s[k]) == Order::Before);
    lemma_version_order_same(s[i].version, s[j].version);
    lemma_version_order_same(s[j].version, s[k].version);
    lemma_version_order_flip(s[i].version, s[j].version);
    lemma_text_order_same(s[i].repository, s[j].repository);
    lemma_text_order_same(s[j].repository, s[k].repository);
    lemma_text_order_flip(s[i].repository, s[j].repository);
}

/// Decides [`entry_order`].
pub fn compare_entries(x: &IndexEntry, y: &IndexEntry) -> (r: Order)
    ensures
        r == entry_order(x@, y@),
{
    proof {
        reveal(entry_order);
    }
    match compare_versions(x.version.as_str(), y.version.as_str()) {
        Order::Same => {},
        Order::Before => {
            return Order::Before;
        },
        Order::After => {
            return Order::After;
        },
    }
    match compare_text(&chars_of(x.repository.as_str()), &chars_of(y.repository.as_str())) {
        Order::Same => {},
        Order::Before => {
            return Order::Before;
        },
        Order::After => {
            return Order::After;
        },
    }
    match compare_text(&chars_of(x.tag.name.as_str()), &chars_of(y.tag.name.as_str())) {
        Order::Same => {},
        Order::Before => {
            return Order::Before;
        },
        Order::After => {
            return Order::After;
        },
    }
    compare_text(&chars_of(x.tag.digest.as_str()), &chars_of(y.tag.digest.as_str()))
}

/// The entries that one artifact gives in `repository`, whose artifacts are
/// `all`: one for each of its tags that [`entry_for`] keeps.
pub fn artifact_entries(
    policy: &ArchPolicy,
    repository: &str,
    all: &Vec<Artifact>,
    artifact: &Artifact,
) -> (out: Vec<IndexEntry>)
    ensures
        entry_views(out@) == tag_entries(
            *policy,
            repository@,
            all@,
            artifact.digest@,
            artifact.tag_names(),
        ),
{
    let mut out: Vec<IndexEntry> = Vec::new();
    let ghost names = artifact.tag_names();
    match &artifact.tags {
        None => {
            assert(entry_views(out@) =~= Seq::<IndexEntryView>::empty());
        },
        Some(tags) => {
            let mut i: usize = 0;
            proof {
                assert(names.take(0) =~= Seq::<Seq<char>>::empty());
                assert(entry_views(out@) =~= Seq::<IndexEntryView>::empty());
            }
            while i < tags.len()
                invariant
                    i <= tags.len(),
                    artifact.tags == Some(*tags),
                    names == artifact.tag_names(),
                    entry_views(out@) == tag_entries(
                        *policy,
                        repository@,
                        all@,
                        artifact.digest@,
                        names.take(i as int),
                    ),
                decreases tags.len() - i,
            {
                let name = tags[i].name.as_str();
                let ghost before = entry_views(out@);
                proof {
                    assert(names.take(i + 1).drop_last() =~= names.take(i as int));
                    assert(names.take(i + 1).last() == name@);
                }
                match parse_release_tag(name) {
                    Some(m) => {
                        let keep = match m.architecture {
                            Some(_) => true,
                            None => !policy.is_superseded(m.version.as_str(), repository, all),
                        };
                        if keep {
                            out.push(
                                IndexEntry {
                                    version: m.version,
                                    repository: repository.to_owned(),
                                    tag: TagInfo {
                                        name: name.to_owned(),
                                        digest: strip_algorithm(artifact.digest.as_str()),
                                    },
                                },
                            );
                            assert(entry_views(out@) =~= before.push(
                                entry_for(
                                    *policy,
                                    repository@,
                                    all@,
                                    artifact.digest@,
                                    name@,
                                ).unwrap(),
                            ));
                        }
                    },
                    None => {},
                }
                i += 1;
            }
            assert(names.take(tags.len() as int) =~= names);
        },
    }
    out
}

/// The entries that the artifacts of `repository` give, in the order of the
/// artifacts and of their tags.
pub fn release_entries(policy: &ArchPolicy, repository: &str, artifacts: &Vec<Artifact>) -> (out:
    Vec<IndexEntry>)
    ensures
        entry_views(out@) == release_entries_of(*policy, repository@, artifacts@),
{
    let mut out: Vec<IndexEntry> = Vec::new();
    let mut i: usize = 0;
    proof {
        assert(artifacts@.take(0) =~= Seq::<Artifact>::empty());
        assert(entry_views(out@) =~= Seq::<IndexEntryView>::empty());
    }
    while i < artifacts.len()
        invariant
            i <= artifacts.len(),
            entry_views(out@) == entries_among(
                *policy,
                repository@,
                artifacts@,
                artifacts@.take(i as int),
            ),
        decreases artifacts.len() - i,
    {
        let ghost before = entry_views(out@);
        let mut more = artifact_entries(policy, repository, artifacts, &artifacts[i]);
        let ghost added = entry_views(more@);
        proof {
            assert(artifacts@.take(i + 1).drop_last() =~= artifacts@.take(i as int));
            assert(artifacts@.take(i + 1).last() == artifacts@[i as int]);
        }
        out.append(&mut more);
        assert(entry_views(out@) =~= before + added);
        i += 1;
    }
    assert(artifacts@.take(artifacts.len() as int) =~= artifacts@);
    out
}

/// The mathematical content of a list of entries.
pub open spec fn entry_views(entries: Seq<IndexEntry>) -> Seq<IndexEntryView> {
    entries.map_values(|e: IndexEntry| e@)
}

/// The index of release artifacts, held in display order.
pub struct ReleaseIndex {
    entries: Vec<IndexEntry>,
}

impl View for ReleaseIndex {
    type V = Seq<IndexEntryView>;

    closed spec fn view(&self) -> Seq<IndexEntryView> {
        entry_views(self.entries@)
    }
}

impl ReleaseIndex {
    #[verifier::type_invariant]
    spec fn ordered(&self) -> bool {
        in_display_order(entry_views(self.entries@))
    }

    /// The empty index.
    pub fn new() -> (index: Self)
        ensures
            index@ == Seq::<IndexEntryView>::empty(),
    {
        let index = ReleaseIndex { entries: Vec::new() };
        assert(index@ =~= Seq::<IndexEntryView>::empty());
        index
    }

    /// The entries in display order. No entry is there twice.
    pub fn entries(&self) -> (entries: &Vec<IndexEntry>)
        ensures
            entry_views(entries@) == self@,
            in_display_order(self@),
    {
        proof {
            use_type_invariant(self);
        }
        &self.entries
    }

    /// The index with `entry` in it: the entries of `self` and `entry`, in
    /// display order. An entry that is in `self` already changes nothing.
    pub fn with(self, entry: IndexEntry) -> (index: Self)
        ensures
            in_display_order(index@),
            forall|e: IndexEntryView| #[trigger]
                index@.contains(e) <==> self@.contains(e) || e == entry@,
            self@.contains(entry@) ==> index@ == self@,
            !self@.contains(entry@) ==> index@.len() == self@.len() + 1,
    {
        proof {
            use_type_invariant(&self);
        }
        let ghost old_view = self@;
        let mut entries = self.entries;
        let mut i: usize = 0;
        while i < entries.len()
            invariant
                i <= entries.len(),
                old_view == self@,
                entry_views(entries@) == old_view,
                in_display_order(old_view),
                forall|j: int| 0 <= j < i ==> entry_order(#[trigger] old_view[j], entry@) == Order::Before,
            decreases entries.len() - i,
        {
            match compare_entries(&entries[i], &entry) {
                Order::Before => {},
                Order::Same => {
                    proof {
                        lemma_entry_order_same(old_view[i as int], entry@);
                        assert(old_view.contains(entry@));
                    }
                    return ReleaseIndex { entries };
                },
                Order::After => {
                    proof {
                        lemma_insert_keeps_order(old_view, i as int, entry@);
                    }
                    entries.insert(i, entry);
                    assert(entry_views(entries@) =~= old_view.insert(i as int, entry@));
                    return ReleaseIndex { entries };
                },
            }
            i += 1;
        }
        proof {
            lemma_insert_keeps_order(old_view, i as int, entry@);
        }
        entries.insert(i, entry);
        assert(entry_views(entries@) =~= old_view.insert(i as int, entry@));
        ReleaseIndex { entries }
    }

    /// The index with all of `entries` in it.
    pub fn with_all(self, entries: Vec<IndexEntry>) -> (index: Self)
        ensures
            in_display_order(index@),
            forall|e: IndexEntryView| #[trigger]
                index@.contains(e) <==> self@.contains(e) || entry_views(entries@).contains(e),
    {
        let ghost start = self@;
        let ghost added = entry_views(entries@);
        let mut index = self;
        let mut i: usize = 0;
        proof {
            use_type_invariant(&index);
        }
        while i < entries.len()
            invariant
                i <= entries.len(),
                added == entry_views(entries@),
                in_display_order(index@),
                forall|e: IndexEntryView| #[trigger]
                    index@.contains(e) <==> start.contains(e) || added.take(i as int).contains(e),
            decreases entries.len() - i,
        {
            let e = &entries[i];
            let copy = IndexEntry {
                version: e.version.clone(),
                repository: e.repository.clone(),
                tag: TagInfo { name: e.tag.name.clone(), digest: e.tag.digest.clone() },
            };
            assert(copy@ == added[i as int]);
            let ghost before = index@;
            index = index.with(copy);
            proof {
                assert(added.take(i + 1) =~= added.take(i as int).push(added[i as int]));
                assert forall|e: IndexEntryView| #[trigger]
                    index@.contains(e) <==> start.contains(e) || added.take(i + 1).contains(e) by {
                    assert(before.contains(e) <==> start.contains(e) || added.take(
                        i as int,
                    ).contains(e));
                    let shorter = added.take(i as int);
                    if shorter.contains(e) {
                        let j = choose|j: int| 0 <= j < shorter.len() && shorter[j] == e;
                        assert(added.take(i + 1)[j] == e);
                    }
                    if e == added[i as int] {
                        assert(added.take(i + 1)[i as int] == e);
                    }
                    let longer = added.take(i + 1);
                    if longer.contains(e) {
                        let j = choose|j: int| 0 <= j < longer.len() && longer[j] == e;
                        if j < i {
                            assert(added.take(i as int)[j] == e);
                        }
                    }
                }
            }
            i += 1;
        }
        assert(added.take(entries.len() as int) =~= added);
        index
    }

    /// How many entries the index holds.
    pub fn len(&self) -> (n: usize)
        ensures
            n == self@.len(),
    {
        self.entries.len()
    }
}

/// Puts what the artifacts of `repository` give into `index`.
pub fn process_artifacts(
    policy: &ArchPolicy,
    repository: &str,
    artifacts: &Vec<Artifact>,
    index: ReleaseIndex,
) -> (grown: ReleaseIndex)
    ensures
        in_display_order(grown@),
        forall|e: IndexEntryView| #[trigger]
            grown@.contains(e) <==> index@.contains(e) || release_entries_of(
                *policy,
                repository@,
                artifacts@,
            ).contains(e),
{
    index.with_all(release_entries(policy, repository, artifacts))
}

/// Putting an entry where the entries before it are shown before it, and the
/// next one after it, keeps the display order and adds that entry alone.
proof fn lemma_insert_keeps_order(s: Seq<IndexEntryView>, at: int, x: IndexEntryView)
    requires
        0 <= at <= s.len(),
        in_display_order(s),
        forall|j: int| 0 <= j < at ==> entry_order(#[trigger] s[j], x) == Order::Before,
        at < s.len() ==> entry_order(s[at], x) == Order::After,
    ensures
        in_display_order(s.insert(at, x)),
        forall|e: IndexEntryView| #[trigger]
            s.insert(at, x).contains(e) <==> s.contains(e) || e == x,
        !s.contains(x),
        s.insert(at, x).len() == s.len() + 1,
{
    let t = s.insert(at, x);
    assert forall|j: int| at <= j < s.len() implies entry_order(x, #[trigger] s[j])
        == Order::Before by {
        lemma_entry_order_flip(x, s[at]);
        if j > at {
            lemma_entry_order_transitive(x, s[at], s[j]);
        }
    }
    assert forall|i: int, j: int| 0 <= i < j < t.len() implies entry_order(
        #[trigger] t[i],
        #[trigger] t[j],
    ) == Order::Before by {
        let a = if i < at { s[i] } else if i == at { x } else { s[i - 1] };
        let b = if j < at { s[j] } else if j == at { x } else { s[j - 1] };
        assert(t[i] == a);
        assert(t[j] == b);
    }
    lemma_insert_adds_one(s, at, x);
    if s.contains(x) {
        let k = choose|k: int| 0 <= k < s.len() && s[k] == x;
        lemma_entry_order_same(s[k], x);
        if k >= at {
            lemma_entry_order_flip(x, s[k]);
        }
    }
}

/// What a sequence holds after an insertion.
proof fn lemma_insert_adds_one<A>(s: Seq<A>, at: int, x: A)
    requires
        0 <= at <= s.len(),
    ensures
        forall|e: A| #[trigger] s.insert(at, x).contains(e) <==> s.contains(e) || e == x,
{
    let t = s.insert(at, x);
    assert forall|e: A| #[trigger] t.contains(e) <==> s.contains(e) || e == x by {
        if t.contains(e) {
            let k = choose|k: int| 0 <= k < t.len() && t[k] == e;
            if k < at {
                assert(s[k] == e);
            } else if k > at {
                assert(s[k - 1] == e);
            }
        }
        if s.contains(e) {
            let k = choose|k: int| 0 <= k < s.len() && s[k] == e;
            if k < at {
                assert(t[k] == e);
            } else {
                assert(t[k + 1] == e);
            }
        }
        if e == x {
            assert(t[at] == e);
        }
    }
}

} // verus!
