//! Hygiene for an OCI artifact registry and for an asset registry beside it.
//!
//! The write path finds signatures and attestations whose primary artifact is
//! gone, and deletes them:
//!
//! - [`paging`] enumerates a listing page by page and gives it up only when it
//!   is complete;
//! - [`classify`] reads the role of an artifact off its tag or path, with the
//!   digests of [`digest`];
//! - [`reconcile`] finds the signatures and attestations that refer to no
//!   primary artifact, and [`retention`] the old builds of the toolchain
//!   image;
//! - [`engine`] runs that over the artifacts of a repository or the assets of
//!   the asset registry;
//! - [`deletion`] issues the deletions one at a time and stops at the first
//!   unexpected answer.
//!
//! The read path indexes the release artifacts of all repositories:
//!
//! - [`release`] reads release tags, and [`version`] orders versions;
//! - [`index`] holds the tags of each release and repository in display
//!   order, and [`render`] writes them as a page;
//! - [`cache`] keeps the page for an hour;
//! - [`sbom`] checks a request for a bill of materials and unwraps the
//!   attestation that carries it.
//!
//! [`monitor`] says which artifacts have to carry a signature,
//! [`repository`] splits repository names, [`url`] writes the addresses of the
//! endpoints, [`model`] holds the registry's entities, [`error`] the failures,
//! and [`text`] what the grammars share.
//!
//! Nothing here performs a request: the caller does, and hands the answer in.

pub mod cache;
pub mod classify;
pub mod deletion;
pub mod digest;
pub mod engine;
pub mod error;
pub mod index;
pub mod model;
pub mod monitor;
pub mod paging;
pub mod reconcile;
pub mod release;
pub mod render;
pub mod repository;
pub mod retention;
pub mod sbom;
pub mod text;
pub mod url;
pub mod version;
