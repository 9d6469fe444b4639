//! Which artifacts of a repository have to carry a valid signature.
//!
//! Every tagged artifact has to, but for attestations: those are not signed
//! themselves. The signature is checked by an outside tool, which is handed
//! the artifact by registry, project, repository and digest.

use vstd::prelude::*;
use vstd::string::*;
use crate::classify::{attestation_tag, is_attestation_tag};
use crate::model::{Artifact, Tag};
use crate::text::chars_of;

verus! {

/// What to do about an artifact.
#[derive(Debug, Clone, PartialEq, Eq)]
pub enum Scrutiny {
    /// The artifact has no tag and is passed over.
    Untagged,
    /// The artifact is an attestation and is passed over.
    Attestation,
    /// The signature of the artifact at `uri` has to be verified.
    Verify { uri: String },
}

/// The artifact with digest `digest` as the verification tool is told it.
pub open spec fn artifact_uri_of(
    registry: Seq<char>,
    project: Seq<char>,
    repository: Seq<char>,
    digest: Seq<char>,
) -> Seq<char> {
    registry + "/"@ + project + "/"@ + repository + "@"@ + digest
}

/// The names `names`, separated by a comma and a space.
pub open spec fn joined(names: Seq<Seq<char>>) -> Seq<char>
    decreases names.len(),
{
    if names.len() == 0 {
        Seq::empty()
    } else if names.len() == 1 {
        names[0]
    } else {
        joined(names.drop_last()) + ", "@ + names.last()
    }
}

/// The names of `tags`, in order.
pub open spec fn names_of(tags: Seq<Tag>) -> Seq<Seq<char>> {
    tags.map_values(|t: Tag| t.name@)
}

/// The artifact with digest `digest` as the verification tool is told it.
pub fn artifact_uri(registry: &str, project: &str, repository: &str, digest: &str) -> (r: String)
    ensures
        r@ == artifact_uri_of(registry@, project@, repository@, digest@),
{
    let mut uri = registry.to_owned();
    uri.append("/");
    uri.append(project);
    uri.append("/");
    uri.append(repository);
    uri.append("@");
    uri.append(digest);
    uri
}

/// Says what to do about `artifact`. As in the reconciliation, the first tag
/// alone decides whether it is an attestation.
pub fn scrutinize(registry: &str, project: &str, repository: &str, artifact: &Artifact) -> (r:
    Scrutiny)
    ensures
        match r {
            Scrutiny::Untagged => artifact.tag_names().len() == 0,
            Scrutiny::Attestation => artifact.tag_names().len() > 0 && is_attestation_tag(
                artifact.tag_names()[0],
            ),
            Scrutiny::Verify { uri } => artifact.tag_names().len() > 0 && !is_attestation_tag(
                artifact.tag_names()[0],
            ) && uri@ == artifact_uri_of(registry@, project@, repository@, artifact.digest@),
        },
{
    let first: &str = match &artifact.tags {
        Some(tags) => {
            if tags.len() == 0 {
                return Scrutiny::Untagged;
            }
            tags[0].name.as_str()
        },
        None => {
            return Scrutiny::Untagged;
        },
    };
    assert(artifact.tag_names().len() > 0);
    assert(artifact.tag_names()[0] == first@);
    if attestation_tag(&chars_of(first)) {
        Scrutiny::Attestation
    } else {
        Scrutiny::Verify {
            uri: artifact_uri(registry, project, repository, artifact.digest.as_str()),
        }
    }
}

/// The names of `tags`, separated by a comma and a space.
pub fn join_tags(tags: &Vec<Tag>) -> (r: String)
    ensures
        r@ == joined(names_of(tags@)),
{
    let ghost names = names_of(tags@);
    let mut out = String::new();
    let mut i: usize = 0;
    proof {
        assert(names.take(0) =~= Seq::<Seq<char>>::empty());
    }
    while i < tags.len()
        invariant
            i <= tags.len(),
            names == names_of(tags@),
            out@ == joined(names.take(i as int)),
        decreases tags.len() - i,
    {
        proof {
            assert(names.take(i + 1).drop_last() =~= names.take(i as int));
            assert(names.take(i + 1).last() == tags@[i as int].name@);
            if i == 0 {
                assert(names.take(1)[0] == tags@[0].name@);
                assert(Seq::<char>::empty() + tags@[0].name@ =~= tags@[0].name@);
            }
        }
        if i > 0 {
            out.append(", ");
        }
        out.append(tags[i].name.as_str());
        i += 1;
    }
    assert(names.take(tags.len() as int) =~= names);
    out
}

} // verus!
