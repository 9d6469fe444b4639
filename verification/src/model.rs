//! The registry's entities as the listing endpoints return them.

use vstd::prelude::*;

verus! {

/// A repository, named `namespace/name`.
#[derive(Debug, Clone, PartialEq, Eq)]
pub struct Repository {
    pub name: String,
}

/// A tag attached to an artifact.
#[derive(Debug, Clone, PartialEq, Eq)]
pub struct Tag {
    pub name: String,
}

/// A child of a manifest list.
#[derive(Debug, Clone, PartialEq, Eq)]
pub struct ArtifactReference {
    pub child_digest: String,
}

/// A manifest stored under a repository.
#[derive(Debug, Clone, PartialEq, Eq)]
pub struct Artifact {
    pub digest: String,
    pub tags: Option<Vec<Tag>>,
    pub references: Option<Vec<ArtifactReference>>,
}

/// An entry of the asset registry, which has no repositories: checksums are
/// global there.
#[derive(Debug, Clone, PartialEq, Eq)]
pub struct Asset {
    pub id: String,
    pub path: String,
    pub content_type: String,
    pub sha256: String,
}

/// A signed envelope around an attestation.
#[derive(Debug, Clone, PartialEq, Eq)]
pub struct Dsse {
    pub payload: String,
}

/// A release tag and the digest of the artifact that carries it.
#[derive(Debug, Clone, PartialEq, Eq, PartialOrd, Ord)]
pub struct TagInfo {
    pub name: String,
    pub digest: String,
}

impl Artifact {
    /// The names of the artifact's tags, in the order the registry gave them;
    /// empty when the artifact has none.
    pub open spec fn tag_names(&self) -> Seq<Seq<char>> {
        match self.tags {
            Some(tags) => tags@.map_values(|t: Tag| t.name@),
            None => Seq::empty(),
        }
    }

    /// The digests the artifact refers to as its children.
    pub open spec fn child_digests(&self) -> Seq<Seq<char>> {
        match self.references {
            Some(refs) => refs@.map_values(|r: ArtifactReference| r.child_digest@),
            None => Seq::empty(),
        }
    }
}

} // verus!
