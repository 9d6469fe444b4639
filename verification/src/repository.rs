//! Repository names: `namespace/name`, the namespace being a project or
//! organisation. Repositories of the sandbox namespace are left alone.

use vstd::prelude::*;
use vstd::string::*;
use crate::error::RegistryError;
use crate::model::Repository;
use crate::text::{chars_of, same_text};

verus! {

/// A repository name in its two parts.
#[derive(Debug, Clone, PartialEq, Eq)]
pub struct RepositoryPath {
    pub namespace: String,
    pub name: String,
}

/// The index of the first `/` of `full` is `i`.
pub open spec fn separator_at(full: Seq<char>, i: int) -> bool {
    &&& 0 <= i < full.len()
    &&& full[i] == '/'
    &&& forall|j: int| 0 <= j < i ==> full[j] != '/'
}

/// `namespace` is the sandbox namespace.
pub open spec fn is_sandbox(namespace: Seq<char>) -> bool {
    namespace == "sandbox"@
}

/// Splits a repository name at its first `/`. A name without `/` is
/// malformed.
pub fn split_name(full: &str) -> (r: Result<RepositoryPath, RegistryError>)
    ensures
        match r {
            Ok(path) => exists|i: int|
                separator_at(full@, i) && path.namespace@ == full@.take(i) && path.name@
                    == full@.skip(i + 1),
            Err(e) => e == RegistryError::MalformedRepositoryName && !full@.contains('/'),
        },
{
    let chars = chars_of(full);
    let mut i: usize = 0;
    while i < chars.len()
        invariant
            i <= chars.len(),
            chars@ == full@,
            forall|j: int| 0 <= j < i ==> full@[j] != '/',
        decreases chars.len() - i,
    {
        if chars[i] == '/' {
            let namespace = full.substring_char(0, i).to_owned();
            let name = full.substring_char(i + 1, chars.len()).to_owned();
            proof {
                assert(separator_at(full@, i as int));
                assert(namespace@ =~= full@.take(i as int));
                assert(name@ =~= full@.skip(i + 1));
            }
            return Ok(RepositoryPath { namespace, name });
        }
        i += 1;
    }
    Err(RegistryError::MalformedRepositoryName)
}

/// Decides [`is_sandbox`].
pub fn sandbox(namespace: &str) -> (r: bool)
    ensures
        r == is_sandbox(namespace@),
{
    same_text(namespace, "sandbox")
}

/// Where a run has to go for `repository`: nowhere (`None`) for a repository
/// of the sandbox namespace, to its two parts otherwise. A malformed name is
/// fatal, sandbox or not.
pub fn route(repository: &Repository) -> (r: Result<Option<RepositoryPath>, RegistryError>)
    ensures
        match r {
            Ok(Some(path)) => exists|i: int|
                separator_at(repository.name@, i) && path.namespace@ == repository.name@.take(i)
                    && path.name@ == repository.name@.skip(i + 1) && !is_sandbox(path.namespace@),
            Ok(None) => exists|i: int|
                separator_at(repository.name@, i) && is_sandbox(repository.name@.take(i)),
            Err(e) => e == RegistryError::MalformedRepositoryName && !repository.name@.contains('/'),
        },
{
    match split_name(repository.name.as_str()) {
        Ok(path) => {
            if sandbox(path.namespace.as_str()) {
                Ok(None)
            } else {
                Ok(Some(path))
            }
        },
        Err(e) => Err(e),
    }
}

/// A name has one first `/` at most.
pub proof fn lemma_separator_is_unique(full: Seq<char>, i: int, j: int)
    requires
        separator_at(full, i),
        separator_at(full, j),
    ensures
        i == j,
{
}

} // verus!
