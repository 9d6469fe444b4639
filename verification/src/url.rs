//! The addresses of the listing and deletion endpoints.
//!
//! Project and repository names are percent-encoded as path segments. Page
//! numbers and sizes are written in decimal.

use vstd::prelude::*;
use vstd::string::*;
use vstd::utf8::encode_utf8;

verus! {

/// `b` stands for itself in a percent-encoded text: a letter, a digit, or one
/// of `-`, `.`, `_`, `~`.
pub open spec fn is_unreserved(b: u8) -> bool {
    (0x30 <= b <= 0x39) || (0x41 <= b <= 0x5a) || (0x61 <= b <= 0x7a) || b == 0x2d || b == 0x2e
        || b == 0x5f || b == 0x7e
}

/// The upper-case hex digit for `n`, which is below 16.
pub open spec fn upper_hex(n: u8) -> char {
    if n < 10 {
        (0x30 + n) as char
    } else {
        (0x41 + n - 10) as char
    }
}

/// The percent-encoding of one byte.
pub open spec fn percent_encoded_byte(b: u8) -> Seq<char> {
    if is_unreserved(b) {
        seq![b as char]
    } else {
        seq!['%', upper_hex(b / 16), upper_hex(b % 16)]
    }
}

/// The percent-encoding of `bytes`: every byte that is not unreserved becomes
/// `%` and its two upper-case hex digits.
pub open spec fn percent_encoded(bytes: Seq<u8>) -> Seq<char>
    decreases bytes.len(),
{
    if bytes.len() == 0 {
        Seq::empty()
    } else {
        percent_encoded(bytes.drop_last()) + percent_encoded_byte(bytes.last())
    }
}

/// The percent-encoding of the UTF-8 form of `text`.
pub open spec fn encoded_segment(text: Seq<char>) -> Seq<char> {
    percent_encoded(encode_utf8(text))
}

/// The decimal digit for `d`, which is below 10.
pub open spec fn digit_char(d: nat) -> char {
    (0x30 + d) as char
}

/// `n` in decimal, without leading zeros.
pub open spec fn decimal_digits(n: nat) -> Seq<char>
    decreases n,
{
    if n < 10 {
        seq![digit_char(n)]
    } else {
        decimal_digits(n / 10).push(digit_char(n % 10))
    }
}

/// The address of page `page` of the repository listing under `base`, with a
/// filter where one is given.
pub open spec fn repositories_url_of(
    base: Seq<char>,
    page_size: nat,
    page: nat,
    filter: Option<Seq<char>>,
) -> Seq<char> {
    let plain = base + "/repositories?page_size="@ + decimal_digits(page_size) + "&page="@
        + decimal_digits(page);
    match filter {
        Some(q) => plain + "&q="@ + q,
        None => plain,
    }
}

/// The address of the artifacts of a repository under `base`.
pub open spec fn artifacts_path_of(
    base: Seq<char>,
    project: Seq<char>,
    repository: Seq<char>,
) -> Seq<char> {
    base + "/projects/"@ + encoded_segment(project) + "/repositories/"@ + encoded_segment(
        repository,
    ) + "/artifacts"@
}

/// The address of page `page` of the artifact listing of a repository.
pub open spec fn artifacts_url_of(
    base: Seq<char>,
    project: Seq<char>,
    repository: Seq<char>,
    page_size: nat,
    page: nat,
) -> Seq<char> {
    artifacts_path_of(base, project, repository) + "?page_size="@ + decimal_digits(page_size)
        + "&page="@ + decimal_digits(page)
}

/// The address of one artifact of a repository, named by tag or digest.
pub open spec fn artifact_url_of(
    base: Seq<char>,
    project: Seq<char>,
    repository: Seq<char>,
    reference: Seq<char>,
) -> Seq<char> {
    artifacts_path_of(base, project, repository) + "/"@ + reference
}

/// The address of a page of the asset listing of `repository`: the first
/// page without a continuation token, every other with the token of the page
/// before.
pub open spec fn assets_url_of(
    base: Seq<char>,
    repository: Seq<char>,
    token: Option<Seq<char>>,
) -> Seq<char> {
    let first = base + "/service/rest/v1/assets?repository="@ + repository;
    match token {
        Some(t) => first + "&continuationToken="@ + t,
        None => first,
    }
}

/// The address of one asset.
pub open spec fn asset_url_of(base: Seq<char>, id: Seq<char>) -> Seq<char> {
    base + "/service/rest/v1/assets/"@ + id
}

/// Percent-encodes `text` with `urlencoding::encode`, which leaves letters,
/// digits and `-`, `.`, `_`, `~` as they are and writes every other byte of
/// the UTF-8 form as `%` and two upper-case hex digits.
#[verifier::external_body]
fn percent_encode(text: &str) -> (r: String)
    ensures
        r@ == encoded_segment(text@),
{
    urlencoding::encode(text).into_owned()
}

/// Appends one character with `String::push`.
#[verifier::external_body]
fn push_char(text: &mut String, c: char)
    ensures
        final(text)@ == old(text)@.push(c),
{
    text.push(c)
}

/// Writes `n` in decimal.
pub fn decimal(n: u64) -> (r: String)
    ensures
        r@ == decimal_digits(n as nat),
{
    let digits = "0123456789";
    proof {
        reveal_strlit("0123456789");
    }
    let mut low_first: Vec<char> = Vec::new();
    low_first.push(digits.get_char((n % 10) as usize));
    let mut rest: u64 = n / 10;
    assert(low_first@.reverse() =~= seq![digit_char((n % 10) as nat)]);
    while rest > 0
        invariant
            low_first@.len() > 0,
            digits@ == "0123456789"@,
            "0123456789"@.len() == 10,
            forall|d: int| 0 <= d < 10 ==> "0123456789"@[d] == digit_char(d as nat),
            decimal_digits(n as nat) == if rest == 0 {
                low_first@.reverse()
            } else {
                decimal_digits(rest as nat) + low_first@.reverse()
            },
        decreases rest,
    {
        let ghost before = low_first@;
        let c = digits.get_char((rest % 10) as usize);
        low_first.push(c);
        proof {
            assert(low_first@.reverse() =~= seq![c] + before.reverse());
            if rest >= 10 {
                assert(decimal_digits(rest as nat) == decimal_digits((rest / 10) as nat).push(c));
                assert(decimal_digits((rest / 10) as nat).push(c) + before.reverse()
                    =~= decimal_digits((rest / 10) as nat) + (seq![c] + before.reverse()));
            } else {
                assert(decimal_digits(rest as nat) =~= seq![c]);
            }
        }
        rest = rest / 10;
    }
    let mut out = String::new();
    let mut i: usize = low_first.len();
    assert(low_first@.reverse().take(0) =~= Seq::<char>::empty());
    while i > 0
        invariant
            i <= low_first.len(),
            out@ == low_first@.reverse().take(low_first.len() - i),
        decreases i,
    {
        i -= 1;
        let ghost before = out@;
        push_char(&mut out, low_first[i]);
        assert(out@ =~= low_first@.reverse().take(low_first.len() - i));
    }
    assert(low_first@.reverse().take(low_first.len() as int) =~= low_first@.reverse());
    out
}

/// The address of page `page` of the repository listing.
pub fn repositories_url(base: &str, page_size: usize, page: u64, filter: Option<&str>) -> (r:
    String)
    ensures
        r@ == repositories_url_of(
            base@,
            page_size as nat,
            page as nat,
            match filter {
                Some(q) => Some(q@),
                None => None,
            },
        ),
{
    let mut url = base.to_owned();
    url.append("/repositories?page_size=");
    url.append(decimal(page_size as u64).as_str());
    url.append("&page=");
    url.append(decimal(page).as_str());
    match filter {
        Some(q) => {
            url.append("&q=");
            url.append(q);
        },
        None => {},
    }
    url
}

/// The address of the artifacts of a repository.
pub fn artifacts_path(base: &str, project: &str, repository: &str) -> (r: String)
    ensures
        r@ == artifacts_path_of(base@, project@, repository@),
{
    let mut url = base.to_owned();
    url.append("/projects/");
    url.append(percent_encode(project).as_str());
    url.append("/repositories/");
    url.append(percent_encode(repository).as_str());
    url.append("/artifacts");
    url
}

/// The address of page `page` of the artifact listing of a repository.
pub fn artifacts_url(base: &str, project: &str, repository: &str, page_size: usize, page: u64) -> (r:
    String)
    ensures
        r@ == artifacts_url_of(base@, project@, repository@, page_size as nat, page as nat),
{
    let mut url = artifacts_path(base, project, repository);
    url.append("?page_size=");
    url.append(decimal(page_size as u64).as_str());
    url.append("&page=");
    url.append(decimal(page).as_str());
    url
}

/// The address of one artifact of a repository, as deletion and lookup by tag
/// name it.
pub fn artifact_url(base: &str, project: &str, repository: &str, reference: &str) -> (r: String)
    ensures
        r@ == artifact_url_of(base@, project@, repository@, reference@),
{
    let mut url = artifacts_path(base, project, repository);
    url.append("/");
    url.append(reference);
    url
}

/// The address of a page of the asset listing.
pub fn assets_url(base: &str, repository: &str, token: Option<&str>) -> (r: String)
    ensures
        r@ == assets_url_of(
            base@,
            repository@,
            match token {
                Some(t) => Some(t@),
                None => None,
            },
        ),
{
    let mut url = base.to_owned();
    url.append("/service/rest/v1/assets?repository=");
    url.append(repository);
    match token {
        Some(t) => {
            url.append("&continuationToken=");
            url.append(t);
        },
        None => {},
    }
    url
}

/// The address of one asset, as deletion names it.
pub fn asset_url(base: &str, id: &str) -> (r: String)
    ensures
        r@ == asset_url_of(base@, id@),
{
    let mut url = base.to_owned();
    url.append("/service/rest/v1/assets/");
    url.append(id);
    url
}

} // verus!
