//! Release tags.
//!
//! A release tag is a version, `<major>.<minor>.<patch>` with an optional
//! `-dev`, optionally followed by an architecture, `-arm64` or `-amd64`, and
//! optionally preceded by a component prefix that ends in `-stackable`:
//! `24.3.0`, `0.0.0-dev-arm64`, `3.4.0-stackable24.11.2-amd64`.

use vstd::prelude::*;
use vstd::string::*;
use crate::text::{chars_of, digit, ends_with, has_suffix, is_digit, matches_at};

verus! {

/// The architecture that a release tag names.
#[derive(Debug, Clone, Copy, PartialEq, Eq, Structural)]
pub enum Architecture {
    Arm64,
    Amd64,
}

/// What a release tag says.
#[derive(Debug, Clone, PartialEq, Eq)]
pub struct ReleaseMatch {
    /// The version, with its `-dev` where it has one and without the
    /// architecture.
    pub version: String,
    pub architecture: Option<Architecture>,
}

/// The mathematical content of a [`ReleaseMatch`].
pub struct ReleaseMatchView {
    pub version: Seq<char>,
    pub architecture: Option<Architecture>,
}

impl View for ReleaseMatch {
    type V = ReleaseMatchView;

    open spec fn view(&self) -> ReleaseMatchView {
        ReleaseMatchView { version: self.version@, architecture: self.architecture }
    }
}

/// How many decimal digits stand in `s` from index `from` on without a break.
pub open spec fn digit_run(s: Seq<char>, from: int) -> nat
    decreases s.len() - from,
{
    if 0 <= from < s.len() && is_digit(s[from]) {
        1 + digit_run(s, from + 1)
    } else {
        0
    }
}

/// Where the third number of a version-shaped `v` ends.
pub open spec fn numbers_end(v: Seq<char>) -> int {
    let a = digit_run(v, 0) as int;
    let b = digit_run(v, a + 1) as int;
    let c = digit_run(v, a + b + 2) as int;
    a + b + c + 2
}

/// `v` is three numbers separated by `.`, optionally followed by `-dev`.
pub open spec fn is_version(v: Seq<char>) -> bool {
    let a = digit_run(v, 0) as int;
    let b = digit_run(v, a + 1) as int;
    let c = digit_run(v, a + b + 2) as int;
    &&& a >= 1 && b >= 1 && c >= 1
    &&& a < v.len() && v[a] == '.'
    &&& a + b + 1 < v.len() && v[a + b + 1] == '.'
    &&& (numbers_end(v) == v.len() || v.skip(numbers_end(v)) == "-dev"@)
}

/// What `body` says, where it is a version with or without an architecture.
pub open spec fn release_of(body: Seq<char>) -> Option<ReleaseMatchView> {
    if is_version(body) {
        Some(ReleaseMatchView { version: body, architecture: None })
    } else if ends_with(body, "-arm64"@) && is_version(body.take(body.len() - 6)) {
        Some(
            ReleaseMatchView {
                version: body.take(body.len() - 6),
                architecture: Some(Architecture::Arm64),
            },
        )
    } else if ends_with(body, "-amd64"@) && is_version(body.take(body.len() - 6)) {
        Some(
            ReleaseMatchView {
                version: body.take(body.len() - 6),
                architecture: Some(Architecture::Amd64),
            },
        )
    } else {
        None
    }
}

/// The release of `tag` may start at `k`: at the very start, or behind a
/// non-empty prefix and `-stackable`.
pub open spec fn splits_at(tag: Seq<char>, k: int) -> bool {
    &&& 0 <= k <= tag.len()
    &&& k == 0 || (k >= 11 && tag.subrange(k - 10, k) == "-stackable"@)
    &&& release_of(tag.skip(k)) is Some
}

/// `k` is the first index at which the release of `tag` may start.
pub open spec fn first_split(tag: Seq<char>, k: int) -> bool {
    splits_at(tag, k) && forall|j: int| 0 <= j < k ==> !splits_at(tag, j)
}

/// What `tag` says, where it is a release tag.
pub open spec fn release_tag(tag: Seq<char>) -> Option<ReleaseMatchView> {
    if exists|k: int| splits_at(tag, k) {
        release_of(tag.skip(choose|k: int| first_split(tag, k)))
    } else {
        None
    }
}

/// A run of digits ends inside the text.
pub proof fn lemma_digit_run_bound(s: Seq<char>, from: int)
    requires
        0 <= from <= s.len(),
    ensures
        from + digit_run(s, from) <= s.len(),
    decreases s.len() - from,
{
    if from < s.len() && is_digit(s[from]) {
        lemma_digit_run_bound(s, from + 1);
    }
}

/// Every character of a run of digits is a digit.
pub proof fn lemma_digit_run_holds_digits(s: Seq<char>, from: int, i: int)
    requires
        0 <= from <= i < from + digit_run(s, from),
    ensures
        i < s.len(),
        is_digit(s[i]),
    decreases i - from,
{
    if i > from {
        lemma_digit_run_holds_digits(s, from + 1, i);
    }
}

/// `c` may stand in a version with or without architecture.
pub open spec fn is_release_char(c: char) -> bool {
    is_digit(c) || c == '.' || c == '-' || c == 'd' || c == 'e' || c == 'v' || c == 'a' || c == 'r'
        || c == 'm'
}

/// A version starts with a digit and holds nothing but digits, `.` and the
/// letters of `-dev`.
pub proof fn lemma_version_chars(v: Seq<char>)
    requires
        is_version(v),
    ensures
        v.len() > 0,
        is_digit(v[0]),
        forall|i: int| 0 <= i < v.len() ==> is_release_char(#[trigger] v[i]),
{
    reveal_strlit("-dev");
    let a = digit_run(v, 0) as int;
    let b = digit_run(v, a + 1) as int;
    let c = digit_run(v, a + b + 2) as int;
    let end = a + b + c + 2;
    lemma_digit_run_bound(v, 0);
    lemma_digit_run_bound(v, a + 1);
    lemma_digit_run_bound(v, a + b + 2);
    lemma_digit_run_holds_digits(v, 0, 0);
    assert forall|i: int| 0 <= i < v.len() implies is_release_char(#[trigger] v[i]) by {
        if i < a {
            lemma_digit_run_holds_digits(v, 0, i);
        } else if i == a {
        } else if i < a + 1 + b {
            lemma_digit_run_holds_digits(v, a + 1, i);
        } else if i == a + 1 + b {
        } else if i < end {
            lemma_digit_run_holds_digits(v, a + b + 2, i);
        } else {
            assert(v.skip(end) == "-dev"@);
            assert(v[i] == v.skip(end)[i - end]);
        }
    }
}

/// A version with or without architecture starts with a digit and holds
/// nothing but digits, `.`, `-` and the letters of `dev`, `arm` and `amd`.
pub proof fn lemma_release_chars(body: Seq<char>)
    requires
        release_of(body) is Some,
    ensures
        body.len() > 0,
        is_digit(body[0]),
        forall|i: int| 0 <= i < body.len() ==> is_release_char(#[trigger] body[i]),
{
    reveal_strlit("-arm64");
    reveal_strlit("-amd64");
    if is_version(body) {
        lemma_version_chars(body);
    } else {
        let n = body.len() - 6;
        let head = body.take(n);
        lemma_version_chars(head);
        assert(body[0] == head[0]);
        assert forall|i: int| 0 <= i < body.len() implies is_release_char(#[trigger] body[i]) by {
            if i < n {
                assert(body[i] == head[i]);
            } else {
                assert(body[i] == body.subrange(n, n + 6)[i - n]);
            }
        }
    }
}

/// The release of a tag starts at one place at most: a tag is read as a
/// release tag in one way only.
pub proof fn lemma_split_is_unique(tag: Seq<char>, j: int, k: int)
    requires
        splits_at(tag, j),
        splits_at(tag, k),
    ensures
        j == k,
{
    reveal_strlit("-stackable");
    if j < k {
        lemma_split_excludes_later(tag, j, k);
    } else if k < j {
        lemma_split_excludes_later(tag, k, j);
    }
}

/// Behind the start of a release no `-stackable` ends.
proof fn lemma_split_excludes_later(tag: Seq<char>, j: int, k: int)
    requires
        splits_at(tag, j),
        0 <= j < k <= tag.len(),
        k >= 11,
    ensures
        tag.subrange(k - 10, k) != "-stackable"@,
{
    reveal_strlit("-stackable");
    let body = tag.skip(j);
    let marker = tag.subrange(k - 10, k);
    lemma_release_chars(body);
    if marker != "-stackable"@ {
    } else if j <= k - 10 {
        // the `s` of the marker stands inside the release
        assert(body[k - 9 - j] == tag[k - 9]);
        assert(marker[1] == tag[k - 9]);
        assert(is_release_char(body[k - 9 - j]));
    } else {
        // the release starts inside the marker, on no digit
        let at = j - (k - 10);
        assert(body[0] == tag[j]);
        assert(marker[at] == tag[j]);
        assert(1 <= at <= 9);
        assert(!is_digit(marker[at]));
    }
}

/// Decides [`digit_run`].
pub fn count_digits(text: &Vec<char>, from: usize) -> (n: usize)
    ensures
        n == digit_run(text@, from as int),
        from <= text.len() ==> from + n <= text.len(),
{
    if from > text.len() {
        return 0;
    }
    let mut i: usize = from;
    while i < text.len() && digit(text[i])
        invariant
            from <= i <= text.len(),
            digit_run(text@, from as int) == (i - from) + digit_run(text@, i as int),
        decreases text.len() - i,
    {
        i += 1;
    }
    i - from
}

/// Decides [`is_version`].
pub fn version_shape(text: &Vec<char>) -> (r: bool)
    ensures
        r == is_version(text@),
{
    let len = text.len();
    let a = count_digits(text, 0);
    if a == 0 || a >= len || text[a] != '.' {
        return false;
    }
    let b = count_digits(text, a + 1);
    if b == 0 || a + 1 + b >= len || text[a + 1 + b] != '.' {
        return false;
    }
    let c = count_digits(text, a + b + 2);
    if c == 0 {
        return false;
    }
    let end = a + b + c + 2;
    if end == len {
        return true;
    }
    let dev = chars_of("-dev");
    proof {
        reveal_strlit("-dev");
    }
    let r = len - end == 4 && matches_at(text, end, &dev);
    proof {
        if len - end == 4 {
            assert(text@.skip(end as int) =~= text@.subrange(end as int, end + 4));
        }
    }
    r
}

/// The characters of `text` from `from` up to `to`.
fn chars_between(text: &Vec<char>, from: usize, to: usize) -> (part: Vec<char>)
    requires
        from <= to <= text.len(),
    ensures
        part@ == text@.subrange(from as int, to as int),
{
    let mut part: Vec<char> = Vec::new();
    let mut i: usize = from;
    while i < to
        invariant
            from <= i <= to,
            to <= text.len(),
            part@ == text@.subrange(from as int, i as int),
        decreases to - i,
    {
        part.push(text[i]);
        assert(part@ =~= text@.subrange(from as int, i + 1));
        i += 1;
    }
    part
}

/// Decides [`release_of`], giving the length of the version in place of the
/// version.
pub fn release_shape(body: &Vec<char>) -> (r: Option<(usize, Option<Architecture>)>)
    ensures
        match r {
            Some((n, architecture)) => n <= body.len() && release_of(body@) == Some(
                ReleaseMatchView { version: body@.take(n as int), architecture },
            ),
            None => release_of(body@) is None,
        },
{
    if version_shape(body) {
        assert(body@.take(body.len() as int) =~= body@);
        return Some((body.len(), None));
    }
    proof {
        reveal_strlit("-arm64");
        reveal_strlit("-amd64");
    }
    if body.len() < 6 {
        return None;
    }
    let n = body.len() - 6;
    let arm = chars_of("-arm64");
    let amd = chars_of("-amd64");
    let head = chars_between(body, 0, n);
    assert(head@ =~= body@.take(n as int));
    if !version_shape(&head) {
        return None;
    }
    if has_suffix(body, &arm) {
        Some((n, Some(Architecture::Arm64)))
    } else if has_suffix(body, &amd) {
        Some((n, Some(Architecture::Amd64)))
    } else {
        None
    }
}

/// Reads a tag as a release tag: `Some` with its version and architecture
/// where it is one, `None` where it is not.
pub fn parse_release_tag(tag: &str) -> (r: Option<ReleaseMatch>)
    ensures
        match release_tag(tag@) {
            Some(m) => r matches Some(x) && x@ == m,
            None => r is None,
        },
{
    let chars = chars_of(tag);
    let marker = chars_of("-stackable");
    proof {
        reveal_strlit("-stackable");
    }
    let len = chars.len();
    let mut k: usize = 0;
    loop
        invariant
            chars@ == tag@,
            marker@ == "-stackable"@,
            marker@.len() == 10,
            len == chars.len(),
            k <= len,
            forall|j: int| 0 <= j < k ==> !splits_at(tag@, j),
        decreases len - k,
    {
        if k == 0 || (k >= 11 && matches_at(&chars, k - 10, &marker)) {
            let body = chars_between(&chars, k, len);
            assert(body@ =~= tag@.skip(k as int));
            match release_shape(&body) {
                Some((n, architecture)) => {
                    let version = tag.substring_char(k, k + n).to_owned();
                    proof {
                        assert(version@ =~= body@.take(n as int));
                        assert(first_split(tag@, k as int));
                        let chosen = choose|j: int| first_split(tag@, j);
                        assert(chosen == k);
                    }
                    return Some(ReleaseMatch { version, architecture });
                },
                None => {},
            }
        }
        if k == len {
            proof {
                assert forall|j: int| !splits_at(tag@, j) by {}
            }
            return None;
        }
        k += 1;
    }
}

} // verus!
