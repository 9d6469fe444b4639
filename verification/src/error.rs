//! The failures a run can end in.

use vstd::prelude::*;

verus! {

/// Why a run stopped. None of these is retried: the operator runs the tool
/// again.
#[derive(Debug, Clone, Copy, PartialEq, Eq, Structural)]
pub enum RegistryError {
    /// The request did not reach the registry or came back without a usable
    /// response.
    Transport,
    /// A response body, or a digest in it, does not have the expected shape.
    Decode,
    /// A deletion returned a status outside the expected set.
    UnexpectedStatus { status: u16 },
    /// A repository name has no `namespace/name` separator.
    MalformedRepositoryName,
}

/// Why the index of release artifacts could not be built.
#[derive(Debug, Clone, Copy, PartialEq, Eq, Structural)]
pub enum ArtifactTreeError {
    /// The repository listing could not be fetched.
    GetRepositories,
    /// The repository listing has an unexpected shape.
    ParseRepositories,
    /// An artifact listing could not be fetched.
    GetArtifacts,
    /// An artifact listing has an unexpected shape.
    ParseArtifacts,
    /// A repository name has no `namespace/name` separator.
    UnexpectedRepositoryName,
}

impl ArtifactTreeError {
    /// The kind of failure behind the error.
    pub open spec fn kind_of(self) -> RegistryError {
        match self {
            ArtifactTreeError::GetRepositories => RegistryError::Transport,
            ArtifactTreeError::ParseRepositories => RegistryError::Decode,
            ArtifactTreeError::GetArtifacts => RegistryError::Transport,
            ArtifactTreeError::ParseArtifacts => RegistryError::Decode,
            ArtifactTreeError::UnexpectedRepositoryName => RegistryError::MalformedRepositoryName,
        }
    }

    /// The kind of failure behind the error.
    pub fn kind(&self) -> (k: RegistryError)
        ensures
            k == self.kind_of(),
    {
        match self {
            ArtifactTreeError::GetRepositories => RegistryError::Transport,
            ArtifactTreeError::ParseRepositories => RegistryError::Decode,
            ArtifactTreeError::GetArtifacts => RegistryError::Transport,
            ArtifactTreeError::ParseArtifacts => RegistryError::Decode,
            ArtifactTreeError::UnexpectedRepositoryName => RegistryError::MalformedRepositoryName,
        }
    }

    /// The error in words.
    pub fn message(&self) -> (m: &'static str)
        ensures
            m@ == match self {
                ArtifactTreeError::GetRepositories => "cannot get repositories"@,
                ArtifactTreeError::ParseRepositories => "cannot parse repositories"@,
                ArtifactTreeError::GetArtifacts => "cannot get artifacts"@,
                ArtifactTreeError::ParseArtifacts => "cannot parse artifacts"@,
                ArtifactTreeError::UnexpectedRepositoryName => "unexpected repository name"@,
            },
    {
        match self {
            ArtifactTreeError::GetRepositories => "cannot get repositories",
            ArtifactTreeError::ParseRepositories => "cannot parse repositories",
            ArtifactTreeError::GetArtifacts => "cannot get artifacts",
            ArtifactTreeError::ParseArtifacts => "cannot parse artifacts",
            ArtifactTreeError::UnexpectedRepositoryName => "unexpected repository name",
        }
    }
}

} // verus!
