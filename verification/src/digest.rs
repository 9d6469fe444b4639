//! Content digests: `sha256:` followed by 64 lower-case hex digits, or the 64
//! digits alone.

use vstd::prelude::*;
use vstd::string::*;
use crate::error::RegistryError;
use crate::text::{chars_of, matches_at};

verus! {

/// `c` is one of `0-9a-f`.
pub open spec fn is_lower_hex(c: char) -> bool {
    ('0' <= c && c <= '9') || ('a' <= c && c <= 'f')
}

/// `h` is 64 lower-case hex digits.
pub open spec fn is_hex_digest(h: Seq<char>) -> bool {
    &&& h.len() == 64
    &&& forall|i: int| 0 <= i < 64 ==> is_lower_hex(#[trigger] h[i])
}

/// The 64 hex digits of a digest, with the `sha256:` prefix stripped where it
/// is present; `None` where `d` is neither form.
pub open spec fn digest_hex(d: Seq<char>) -> Option<Seq<char>> {
    if is_hex_digest(d) {
        Some(d)
    } else if d.len() == 71 && d.subrange(0, 7) == "sha256:"@ && is_hex_digest(d.subrange(7, 71)) {
        Some(d.subrange(7, 71))
    } else {
        None
    }
}

/// A digest without its `sha256:` prefix; a digest that has none, as it is.
pub open spec fn bare_digest(d: Seq<char>) -> Seq<char> {
    if d.len() >= 7 && d.subrange(0, 7) == "sha256:"@ {
        d.skip(7)
    } else {
        d
    }
}

/// Decides [`is_lower_hex`].
pub fn lower_hex(c: char) -> (r: bool)
    ensures
        r == is_lower_hex(c),
{
    (c >= '0' && c <= '9') || (c >= 'a' && c <= 'f')
}

/// Whether `text` holds 64 characters from `from` on and they are lower-case
/// hex digits.
pub fn hex_digest_at(text: &Vec<char>, from: usize) -> (r: bool)
    ensures
        r == (from + 64 <= text.len() && is_hex_digest(text@.subrange(from as int, from + 64))),
{
    if text.len() < 64 || from > text.len() - 64 {
        return false;
    }
    let mut i: usize = 0;
    while i < 64
        invariant
            from + 64 <= text.len(),
            i <= 64,
            forall|j: int| 0 <= j < i ==> is_lower_hex(#[trigger] text@[from + j]),
        decreases 64 - i,
    {
        if !lower_hex(text[from + i]) {
            proof {
                let window = text@.subrange(from as int, from + 64);
                assert(window[i as int] == text@[from + i]);
            }
            return false;
        }
        i += 1;
    }
    proof {
        let window = text@.subrange(from as int, from + 64);
        assert forall|j: int| 0 <= j < 64 implies is_lower_hex(#[trigger] window[j]) by {
            assert(window[j] == text@[from + j]);
        }
    }
    true
}

/// Brings a digest to its 64 hex digits. A digest that is neither
/// `sha256:<64 hex>` nor `<64 hex>` is a decode failure.
pub fn normalize_digest(digest: &str) -> (r: Result<String, RegistryError>)
    ensures
        match digest_hex(digest@) {
            Some(h) => r matches Ok(s) && s@ == h,
            None => r == Err::<String, RegistryError>(RegistryError::Decode),
        },
{
    let chars = chars_of(digest);
    if chars.len() == 64 && hex_digest_at(&chars, 0) {
        assert(chars@.subrange(0, 64) =~= chars@);
        return Ok(digest.to_owned());
    }
    assert(!is_hex_digest(digest@)) by {
        if chars.len() == 64 {
            assert(chars@.subrange(0, 64) =~= chars@);
        }
    }
    let prefix = chars_of("sha256:");
    proof {
        reveal_strlit("sha256:");
    }
    if chars.len() == 71 && matches_at(&chars, 0, &prefix) && hex_digest_at(&chars, 7) {
        Ok(digest.substring_char(7, 71).to_owned())
    } else {
        Err(RegistryError::Decode)
    }
}

/// Strips the `sha256:` prefix from a digest that has one.
pub fn strip_algorithm(digest: &str) -> (r: String)
    ensures
        r@ == bare_digest(digest@),
{
    let chars = chars_of(digest);
    let prefix = chars_of("sha256:");
    proof {
        reveal_strlit("sha256:");
    }
    if matches_at(&chars, 0, &prefix) {
        let n = chars.len();
        let r = digest.substring_char(7, n).to_owned();
        assert(r@ =~= digest@.skip(7));
        r
    } else {
        digest.to_owned()
    }
}

} // verus!
