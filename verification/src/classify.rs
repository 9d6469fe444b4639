//! The role of an artifact, read off its tag or path by naming convention.
//!
//! An attestation is tagged `sha256-<64 hex>.att`, the digits being the digest
//! of the artifact it attests. In the asset registry the same convention
//! appears at the end of the asset's path, `/manifests/sha256-<64 hex>.att`
//! for an attestation and `.sig` for a signature. Anything else that carries a
//! tag is a primary artifact.

use vstd::prelude::*;
use vstd::string::*;
use crate::digest::{digest_hex, hex_digest_at, is_hex_digest, normalize_digest};
use crate::error::RegistryError;
use crate::model::{Artifact, Asset};
use crate::text::{chars_of, contains_pattern, matches_at, occurs_in, same_text};

verus! {

/// What an artifact is to the reconciliation.
#[derive(Debug, Clone, Copy, PartialEq, Eq, Structural)]
pub enum Role {
    /// An image or manifest in its own right.
    Primary,
    /// A signature of the primary artifact with the given digest.
    Signature,
    /// An attestation about the primary artifact with the given digest.
    Attestation,
}

/// An eligible artifact with its role.
#[derive(Debug, Clone, PartialEq, Eq)]
pub struct Classification {
    pub role: Role,
    /// For a primary artifact its own digest, for a signature or attestation
    /// the digest of the artifact it refers to; 64 hex digits either way.
    pub digest: String,
    /// The name a deletion call has to use for this artifact.
    pub reference: String,
}

/// The mathematical content of a [`Classification`].
pub struct ClassificationView {
    pub role: Role,
    pub digest: Seq<char>,
    pub reference: Seq<char>,
}

impl View for Classification {
    type V = ClassificationView;

    open spec fn view(&self) -> ClassificationView {
        ClassificationView { role: self.role, digest: self.digest@, reference: self.reference@ }
    }
}

/// The media type of an image layer in the asset registry.
pub open spec fn layer_content_type() -> Seq<char> {
    "application/vnd.docker.image.rootfs.diff.tar.gzip"@
}

/// The attestation tag of the artifact with hex digest `h`.
pub open spec fn attestation_tag_for(h: Seq<char>) -> Seq<char> {
    "sha256-"@ + h + ".att"@
}

/// `t` is `sha256-<64 hex>.att`.
pub open spec fn is_attestation_tag(t: Seq<char>) -> bool {
    &&& t.len() == 75
    &&& t.subrange(0, 7) == "sha256-"@
    &&& is_hex_digest(t.subrange(7, 71))
    &&& t.subrange(71, 75) == ".att"@
}

/// The digest an attestation tag refers to.
pub open spec fn attestation_target(t: Seq<char>) -> Seq<char> {
    t.subrange(7, 71)
}

/// `path` ends in `/manifests/sha256-<64 hex>` followed by the extension
/// `ext`.
pub open spec fn names_manifest(path: Seq<char>, ext: Seq<char>) -> bool {
    let end = path.len() - ext.len();
    &&& end >= 82
    &&& path.subrange(end - 82, end - 64) == "/manifests/sha256-"@
    &&& is_hex_digest(path.subrange(end - 64, end))
    &&& path.subrange(end, path.len() as int) == ext
}

/// The digest that such a path with an extension of `ext_len` characters
/// refers to.
pub open spec fn manifest_target(path: Seq<char>, ext_len: int) -> Seq<char> {
    path.subrange(path.len() - ext_len - 64, path.len() - ext_len)
}

/// The classification of a repository artifact with the given digest and tag
/// names. Only the first tag decides the role.
pub open spec fn classification_of(digest: Seq<char>, tags: Seq<Seq<char>>) -> Result<
    Option<ClassificationView>,
    RegistryError,
> {
    if tags.len() == 0 {
        Ok(None)
    } else if is_attestation_tag(tags[0]) {
        Ok(
            Some(
                ClassificationView {
                    role: Role::Attestation,
                    digest: attestation_target(tags[0]),
                    reference: tags[0],
                },
            ),
        )
    } else {
        match digest_hex(digest) {
            Some(h) => Ok(
                Some(ClassificationView { role: Role::Primary, digest: h, reference: digest }),
            ),
            None => Err(RegistryError::Decode),
        }
    }
}

/// The classification of an asset of the asset registry. Image layers and
/// assets addressed by digest take no part.
pub open spec fn asset_classification_of(
    id: Seq<char>,
    path: Seq<char>,
    content_type: Seq<char>,
    sha256: Seq<char>,
) -> Result<Option<ClassificationView>, RegistryError> {
    if content_type == layer_content_type() || occurs_in(path, "/sha256:"@) {
        Ok(None)
    } else if names_manifest(path, ".att"@) {
        Ok(
            Some(
                ClassificationView {
                    role: Role::Attestation,
                    digest: manifest_target(path, 4),
                    reference: id,
                },
            ),
        )
    } else if names_manifest(path, ".sig"@) {
        Ok(
            Some(
                ClassificationView {
                    role: Role::Signature,
                    digest: manifest_target(path, 4),
                    reference: id,
                },
            ),
        )
    } else {
        match digest_hex(sha256) {
            Some(h) => Ok(Some(ClassificationView { role: Role::Primary, digest: h, reference: id })),
            None => Err(RegistryError::Decode),
        }
    }
}

/// The tag built from a hex digest is an attestation tag for that digest.
pub proof fn lemma_attestation_tag_for(h: Seq<char>)
    requires
        is_hex_digest(h),
    ensures
        is_attestation_tag(attestation_tag_for(h)),
        attestation_target(attestation_tag_for(h)) == h,
{
    reveal_strlit("sha256-");
    reveal_strlit(".att");
    let t = attestation_tag_for(h);
    assert(t.subrange(0, 7) =~= "sha256-"@);
    assert(t.subrange(7, 71) =~= h);
    assert(t.subrange(71, 75) =~= ".att"@);
}

/// An artifact without tags is never a signature or an attestation: it takes
/// no part at all, whatever its digest.
pub proof fn lemma_untagged_takes_no_part(digest: Seq<char>)
    ensures
        classification_of(digest, Seq::empty()) == Ok::<Option<ClassificationView>, RegistryError>(
            None,
        ),
{
}

/// Decides [`is_attestation_tag`].
pub fn attestation_tag(tag: &Vec<char>) -> (r: bool)
    ensures
        r == is_attestation_tag(tag@),
{
    if tag.len() != 75 {
        return false;
    }
    let head = chars_of("sha256-");
    let tail = chars_of(".att");
    proof {
        reveal_strlit("sha256-");
        reveal_strlit(".att");
    }
    matches_at(tag, 0, &head) && hex_digest_at(tag, 7) && matches_at(tag, 71, &tail)
}

/// Decides [`names_manifest`].
pub fn manifest_path(path: &Vec<char>, ext: &Vec<char>) -> (r: bool)
    ensures
        r == names_manifest(path@, ext@),
{
    if path.len() < ext.len() || path.len() - ext.len() < 82 {
        return false;
    }
    let end: usize = path.len() - ext.len();
    let head = chars_of("/manifests/sha256-");
    proof {
        reveal_strlit("/manifests/sha256-");
    }
    matches_at(path, end - 82, &head) && hex_digest_at(path, end - 64) && matches_at(path, end, ext)
}

/// Classifies an artifact of a repository: `None` for an artifact without
/// tags, an attestation where the first tag names one, a primary artifact
/// otherwise. A primary artifact whose digest is malformed is a decode
/// failure.
pub fn classify(artifact: &Artifact) -> (r: Result<Option<Classification>, RegistryError>)
    ensures
        match classification_of(artifact.digest@, artifact.tag_names()) {
            Ok(Some(c)) => r matches Ok(Some(x)) && x@ == c,
            Ok(None) => r matches Ok(None),
            Err(e) => r matches Err(f) && f == e,
        },
{
    let first: &str = match &artifact.tags {
        Some(tags) => {
            if tags.len() == 0 {
                return Ok(None);
            }
            tags[0].name.as_str()
        },
        None => {
            return Ok(None);
        },
    };
    assert(artifact.tag_names().len() > 0);
    assert(artifact.tag_names()[0] == first@);
    let chars = chars_of(first);
    if attestation_tag(&chars) {
        let target = first.substring_char(7, 71).to_owned();
        return Ok(
            Some(
                Classification {
                    role: Role::Attestation,
                    digest: target,
                    reference: first.to_owned(),
                },
            ),
        );
    }
    match normalize_digest(artifact.digest.as_str()) {
        Ok(hex) => Ok(
            Some(
                Classification {
                    role: Role::Primary,
                    digest: hex,
                    reference: artifact.digest.clone(),
                },
            ),
        ),
        Err(e) => Err(e),
    }
}

/// Classifies an asset of the asset registry: `None` for image layers and
/// for assets addressed by digest, an attestation or a signature where the
/// path names one, a primary artifact otherwise.
pub fn classify_asset(asset: &Asset) -> (r: Result<Option<Classification>, RegistryError>)
    ensures
        match asset_classification_of(asset.id@, asset.path@, asset.content_type@, asset.sha256@) {
            Ok(Some(c)) => r matches Ok(Some(x)) && x@ == c,
            Ok(None) => r matches Ok(None),
            Err(e) => r matches Err(f) && f == e,
        },
{
    if same_text(asset.content_type.as_str(), "application/vnd.docker.image.rootfs.diff.tar.gzip") {
        return Ok(None);
    }
    let path = chars_of(asset.path.as_str());
    let by_digest = chars_of("/sha256:");
    if contains_pattern(&path, &by_digest) {
        return Ok(None);
    }
    let att = chars_of(".att");
    let sig = chars_of(".sig");
    proof {
        reveal_strlit(".att");
        reveal_strlit(".sig");
    }
    let n: usize = path.len();
    if manifest_path(&path, &att) {
        let target = asset.path.as_str().substring_char(n - 68, n - 4).to_owned();
        return Ok(
            Some(
                Classification {
                    role: Role::Attestation,
                    digest: target,
                    reference: asset.id.clone(),
                },
            ),
        );
    }
    if manifest_path(&path, &sig) {
        let target = asset.path.as_str().substring_char(n - 68, n - 4).to_owned();
        return Ok(
            Some(
                Classification {
                    role: Role::Signature,
                    digest: target,
                    reference: asset.id.clone(),
                },
            ),
        );
    }
    match normalize_digest(asset.sha256.as_str()) {
        Ok(hex) => Ok(
            Some(Classification { role: Role::Primary, digest: hex, reference: asset.id.clone() }),
        ),
        Err(e) => Err(e),
    }
}

} // verus!
