//! Fetching the bill of materials of a release artifact: the checks on the
//! request before the attestation is verified, and the unwrapping of the
//! signed envelope afterwards.
//!
//! The verification itself is done by an outside tool, and the envelope and
//! the attestation in it are JSON that is parsed elsewhere; here stands what
//! is decided in between.

use vstd::prelude::*;
use vstd::string::*;
use vstd::utf8::{decode_utf8, valid_utf8};
use crate::digest::{hex_digest_at, is_hex_digest};
use crate::model::Dsse;
use crate::text::chars_of;

verus! {

/// Why a bill of materials could not be handed out.
#[derive(Debug, Clone, PartialEq, Eq)]
pub enum DownloadSbomError {
    /// The repository or the digest of the request is not of the expected
    /// form.
    InvalidSbomParameters,
    /// The verification tool ran and refused the attestation.
    SbomVerification {
        cosign_stdout: String,
        cosign_stderr: String,
        /// The exit code, where the tool ended with one.
        cosign_status: Option<i32>,
        repository: String,
        digest: String,
    },
    /// The output of the verification tool is no signed envelope.
    ParseDsse,
    /// The payload of the envelope is no base64.
    DecodeDssePayload,
    /// The decoded payload is no UTF-8 text.
    ParseDssePayloadAsString,
    /// The payload is no attestation.
    ParseInTotoAttestation,
    /// The verification tool could not be run.
    CosignExecution,
}

impl DownloadSbomError {
    /// The error in words.
    pub fn message(&self) -> (m: &'static str)
        ensures
            m@ == match self {
                DownloadSbomError::InvalidSbomParameters => "invalid repository or digest"@,
                DownloadSbomError::SbomVerification { .. } => "failed to verify SBOM"@,
                DownloadSbomError::ParseDsse => "cannot parse DSSE"@,
                DownloadSbomError::DecodeDssePayload => "cannot decode DSSE payload"@,
                DownloadSbomError::ParseDssePayloadAsString => "cannot parse DSSE payload as string"@,
                DownloadSbomError::ParseInTotoAttestation => "cannot parse in-toto attestation"@,
                DownloadSbomError::CosignExecution => "failed to execute cosign"@,
            },
    {
        match self {
            DownloadSbomError::InvalidSbomParameters => "invalid repository or digest",
            DownloadSbomError::SbomVerification { .. } => "failed to verify SBOM",
            DownloadSbomError::ParseDsse => "cannot parse DSSE",
            DownloadSbomError::DecodeDssePayload => "cannot decode DSSE payload",
            DownloadSbomError::ParseDssePayloadAsString => "cannot parse DSSE payload as string",
            DownloadSbomError::ParseInTotoAttestation => "cannot parse in-toto attestation",
            DownloadSbomError::CosignExecution => "failed to execute cosign",
        }
    }
}

/// `c` may stand in a repository name of a request: a letter, a digit or `-`.
pub open spec fn is_name_char(c: char) -> bool {
    ('a' <= c && c <= 'z') || ('A' <= c && c <= 'Z') || ('0' <= c && c <= '9') || c == '-'
}

/// `name` is a repository name of a request: not empty, and of such
/// characters only.
pub open spec fn is_repository_name(name: Seq<char>) -> bool {
    name.len() > 0 && forall|i: int| 0 <= i < name.len() ==> is_name_char(#[trigger] name[i])
}

/// The image that the attestation of `digest` in `repository` is about.
pub open spec fn image_reference_of(
    registry: Seq<char>,
    project: Seq<char>,
    repository: Seq<char>,
    digest: Seq<char>,
) -> Seq<char> {
    registry + "/"@ + project + "/"@ + repository + "@sha256:"@ + digest
}

/// What the standard base64 alphabet with padding decodes `text` to; `None`
/// where `text` is no such encoding.
pub uninterp spec fn base64_decoding(text: Seq<char>) -> Option<Seq<u8>>;

#[verifier::external_type_specification]
#[verifier::external_body]
pub struct ExBase64DecodeError(base64::DecodeError);

#[verifier::external_type_specification]
#[verifier::external_body]
pub struct ExFromUtf8Error(std::string::FromUtf8Error);

/// Decodes `text` with the `decode` of `base64`'s standard engine. The
/// result depends on `text` alone and goes by the name [`base64_decoding`].
#[verifier::external_body]
fn base64_decode(text: &str) -> (r: Result<Vec<u8>, base64::DecodeError>)
    ensures
        match r {
            Ok(bytes) => base64_decoding(text@) == Some(bytes@),
            Err(_) => base64_decoding(text@) is None,
        },
{
    base64::Engine::decode(&base64::engine::general_purpose::STANDARD, text)
}

/// Turns bytes into a string with `String::from_utf8`, which succeeds on
/// valid UTF-8 and on nothing else, and keeps the bytes.
#[verifier::external_body]
fn string_from_utf8(bytes: Vec<u8>) -> (r: Result<String, std::string::FromUtf8Error>)
    ensures
        r is Ok <==> valid_utf8(bytes@),
        r matches Ok(s) ==> s@ == decode_utf8(bytes@),
{
    String::from_utf8(bytes)
}

/// Decides [`is_name_char`].
pub fn name_char(c: char) -> (r: bool)
    ensures
        r == is_name_char(c),
{
    (c >= 'a' && c <= 'z') || (c >= 'A' && c <= 'Z') || (c >= '0' && c <= '9') || c == '-'
}

/// Decides [`is_repository_name`].
pub fn repository_name(name: &str) -> (r: bool)
    ensures
        r == is_repository_name(name@),
{
    let chars = chars_of(name);
    if chars.len() == 0 {
        return false;
    }
    let mut i: usize = 0;
    while i < chars.len()
        invariant
            i <= chars.len(),
            chars@ == name@,
            forall|j: int| 0 <= j < i ==> is_name_char(#[trigger] name@[j]),
        decreases chars.len() - i,
    {
        if !name_char(chars[i]) {
            return false;
        }
        i += 1;
    }
    true
}

/// The image `registry/project/repository@sha256:digest`.
pub fn image_reference(registry: &str, project: &str, repository: &str, digest: &str) -> (r: String)
    ensures
        r@ == image_reference_of(registry@, project@, repository@, digest@),
{
    let mut reference = registry.to_owned();
    reference.append("/");
    reference.append(project);
    reference.append("/");
    reference.append(repository);
    reference.append("@sha256:");
    reference.append(digest);
    reference
}

/// Checks a request for the bill of materials of `digest` in `repository`:
/// the digest has to be 64 lower-case hex digits and the repository a name of
/// letters, digits and `-`. Nothing else is handed to the verification tool.
pub fn check_parameters(repository: &str, digest: &str) -> (r: Result<(), DownloadSbomError>)
    ensures
        r is Ok <==> is_hex_digest(digest@) && is_repository_name(repository@),
        r matches Err(e) ==> e is InvalidSbomParameters,
{
    let chars = chars_of(digest);
    let hex = chars.len() == 64 && hex_digest_at(&chars, 0);
    proof {
        if chars.len() == 64 {
            assert(chars@.subrange(0, 64) =~= chars@);
        }
    }
    if hex && repository_name(repository) {
        Ok(())
    } else {
        Err(DownloadSbomError::InvalidSbomParameters)
    }
}

/// What a run of the verification tool comes to: its output where it
/// succeeded, the refusal with all that it printed where it did not.
pub fn verification_outcome(
    success: bool,
    status: Option<i32>,
    stdout: String,
    stderr: String,
    repository: &str,
    digest: &str,
) -> (r: Result<String, DownloadSbomError>)
    ensures
        match r {
            Ok(output) => success && output == stdout,
            Err(e) => !success && (e matches DownloadSbomError::SbomVerification {
                cosign_stdout,
                cosign_stderr,
                cosign_status,
                repository: of_repository,
                digest: of_digest,
            } && cosign_stdout == stdout && cosign_stderr == stderr && cosign_status == status
                && of_repository@ == repository@ && of_digest@ == digest@),
        },
{
    if success {
        Ok(stdout)
    } else {
        Err(
            DownloadSbomError::SbomVerification {
                cosign_stdout: stdout,
                cosign_stderr: stderr,
                cosign_status: status,
                repository: repository.to_owned(),
                digest: digest.to_owned(),
            },
        )
    }
}

/// The text of a decoded payload: the bytes read as UTF-8, and
/// [`DownloadSbomError::ParseDssePayloadAsString`] where they are none.
pub fn payload_text(bytes: Vec<u8>) -> (r: Result<String, DownloadSbomError>)
    ensures
        match r {
            Ok(text) => valid_utf8(bytes@) && text@ == decode_utf8(bytes@),
            Err(e) => !valid_utf8(bytes@) && e is ParseDssePayloadAsString,
        },
{
    match string_from_utf8(bytes) {
        Ok(text) => Ok(text),
        Err(_) => Err(DownloadSbomError::ParseDssePayloadAsString),
    }
}

/// The attestation text inside a signed envelope: the payload, base64-decoded
/// and read as UTF-8.
pub fn decode_payload(dsse: &Dsse) -> (r: Result<String, DownloadSbomError>)
    ensures
        match base64_decoding(dsse.payload@) {
            None => r matches Err(e) && e is DecodeDssePayload,
            Some(bytes) => match r {
                Ok(text) => valid_utf8(bytes) && text@ == decode_utf8(bytes),
                Err(e) => !valid_utf8(bytes) && e is ParseDssePayloadAsString,
            },
        },
{
    match base64_decode(dsse.payload.as_str()) {
        Ok(bytes) => payload_text(bytes),
        Err(_) => Err(DownloadSbomError::DecodeDssePayload),
    }
}

/// The name under which the bill of materials of `digest` in `repository` is
/// offered for download.
pub open spec fn content_disposition_of(repository: Seq<char>, digest: Seq<char>) -> Seq<char> {
    "attachment; filename=\""@ + repository + "-"@ + digest + ".json\""@
}

/// The `Content-Disposition` of a download.
pub fn content_disposition(repository: &str, digest: &str) -> (r: String)
    ensures
        r@ == content_disposition_of(repository@, digest@),
{
    let mut value = "attachment; filename=\"".to_owned();
    value.append(repository);
    value.append("-");
    value.append(digest);
    value.append(".json\"");
    value
}

/// The exit code to end with after the verification tool refused an
/// artifact: the tool's own, or 1 where it ended without one.
pub fn exit_code(status: Option<i32>) -> (code: i32)
    ensures
        code == match status {
            Some(c) => c,
            None => 1,
        },
{
    match status {
        Some(c) => c,
        None => 1,
    }
}

} // verus!
