//! Which signatures and attestations have lost their primary artifact.
//!
//! The classified artifacts of one repository (or, for the asset registry, of
//! the whole corpus) are split into the digests of the primary artifacts and
//! the signatures and attestations that refer to a digest. A signature or
//! attestation is dangling when no primary artifact has the digest it refers
//! to.

use vstd::prelude::*;
use crate::classify::{Classification, ClassificationView, Role};
use crate::text::same_text;

verus! {

/// The mathematical content of a list of classifications.
pub open spec fn views(cs: Seq<Classification>) -> Seq<ClassificationView> {
    cs.map_values(|c: Classification| c@)
}

/// Some primary artifact in `cs` has the digest `digest`.
pub open spec fn has_primary(cs: Seq<ClassificationView>, digest: Seq<char>) -> bool {
    exists|i: int| 0 <= i < cs.len() && (#[trigger] cs[i]).role == Role::Primary && cs[i].digest == digest
}

/// The digests of the primary artifacts in `cs`.
pub open spec fn primary_digests(cs: Seq<ClassificationView>) -> Set<Seq<char>> {
    Set::new(|d: Seq<char>| has_primary(cs, d))
}

/// The signatures and attestations in `cs`, in order.
pub open spec fn candidates(cs: Seq<ClassificationView>) -> Seq<ClassificationView> {
    cs.filter(|c: ClassificationView| c.role != Role::Primary)
}

/// `c` is a signature or attestation whose primary artifact is not in `cs`.
pub open spec fn is_dangling(cs: Seq<ClassificationView>, c: ClassificationView) -> bool {
    c.role != Role::Primary && !has_primary(cs, c.digest)
}

/// The dangling signatures and attestations of `cs`, in the order of `cs`.
pub open spec fn dangling(cs: Seq<ClassificationView>) -> Seq<ClassificationView> {
    cs.filter(|c: ClassificationView| is_dangling(cs, c))
}

/// What is left of `cs` once every dangling entry has been deleted.
pub open spec fn survivors(cs: Seq<ClassificationView>) -> Seq<ClassificationView> {
    cs.filter(|c: ClassificationView| !is_dangling(cs, c))
}

/// No primary artifact is ever reported as dangling, and nothing that is
/// reported refers to a digest that a primary artifact has: not even where
/// another artifact's tag names a primary artifact's digest as its target.
pub proof fn lemma_dangling_spares_primaries(cs: Seq<ClassificationView>)
    ensures
        forall|k: int|
            0 <= k < dangling(cs).len() ==> (#[trigger] dangling(cs)[k]).role != Role::Primary
                && !has_primary(cs, dangling(cs)[k].digest),
        forall|i: int|
            0 <= i < cs.len() && (#[trigger] cs[i]).role == Role::Primary ==> !dangling(cs).contains(
                cs[i],
            ),
{
    let pred = |c: ClassificationView| is_dangling(cs, c);
    assert forall|k: int| 0 <= k < dangling(cs).len() implies (#[trigger] dangling(cs)[k]).role
        != Role::Primary && !has_primary(cs, dangling(cs)[k].digest) by {
        cs.lemma_filter_pred(pred, k);
    }
    assert forall|i: int| 0 <= i < cs.len() && (#[trigger] cs[i]).role == Role::Primary implies
        !dangling(cs).contains(cs[i]) by {
        if dangling(cs).contains(cs[i]) {
            let k = choose|k: int| 0 <= k < dangling(cs).len() && dangling(cs)[k] == cs[i];
            cs.lemma_filter_pred(pred, k);
        }
    }
}

/// The dangling entries are the candidates whose digest is not among the
/// digests of the primary artifacts.
pub proof fn lemma_dangling_by_partition(cs: Seq<ClassificationView>)
    ensures
        dangling(cs) == candidates(cs).filter(
            |c: ClassificationView| !primary_digests(cs).contains(c.digest),
        ),
{
    let is_candidate = |c: ClassificationView| c.role != Role::Primary;
    let is_orphan = |c: ClassificationView| !primary_digests(cs).contains(c.digest);
    let both = |c: ClassificationView| is_dangling(cs, c);
    assert forall|c: ClassificationView| #[trigger]
        both(c) == (is_candidate(c) && is_orphan(c)) by {}
    lemma_filter_twice(cs, is_candidate, is_orphan, both);
}

/// Filtering twice is filtering by both conditions at once.
proof fn lemma_filter_twice<A>(
    s: Seq<A>,
    first: spec_fn(A) -> bool,
    second: spec_fn(A) -> bool,
    both: spec_fn(A) -> bool,
)
    requires
        forall|x: A| #[trigger] both(x) == (first(x) && second(x)),
    ensures
        s.filter(first).filter(second) == s.filter(both),
    decreases s.len(),
{
    reveal(Seq::filter);
    if s.len() > 0 {
        let init = s.drop_last();
        lemma_filter_twice(init, first, second, both);
        if first(s.last()) {
            init.filter(first).lemma_filter_push(s.last(), second);
        }
    }
}

/// Every entry of `cs` that is dangling is reported.
pub proof fn lemma_dangling_is_complete(cs: Seq<ClassificationView>, i: int)
    requires
        0 <= i < cs.len(),
        is_dangling(cs, cs[i]),
    ensures
        dangling(cs).contains(cs[i]),
{
    cs.lemma_filter_contains(|c: ClassificationView| is_dangling(cs, c), i);
}

/// A second run, on a registry from which the first run's findings were
/// deleted and nothing else changed, finds nothing.
pub proof fn lemma_second_run_finds_nothing(cs: Seq<ClassificationView>)
    ensures
        dangling(survivors(cs)) == Seq::<ClassificationView>::empty(),
{
    let rest = survivors(cs);
    let keep = |c: ClassificationView| !is_dangling(cs, c);
    let again = |c: ClassificationView| is_dangling(rest, c);
    assert forall|k: int| 0 <= k < rest.len() implies !again(#[trigger] rest[k]) by {
        cs.lemma_filter_pred(keep, k);
        let c = rest[k];
        if c.role != Role::Primary {
            let i = choose|i: int|
                0 <= i < cs.len() && (#[trigger] cs[i]).role == Role::Primary && cs[i].digest
                    == c.digest;
            cs.lemma_filter_contains(keep, i);
            let j = choose|j: int| 0 <= j < rest.len() && rest[j] == cs[i];
            assert(rest[j].role == Role::Primary && rest[j].digest == c.digest);
        }
    }
    if rest.filter(again).len() > 0 {
        rest.lemma_filter_pred(again, 0);
        let c = rest.filter(again)[0];
        assert(rest.filter(again).contains(c));
        rest.lemma_filter_contains_rev(again, c);
        let k = choose|k: int| 0 <= k < rest.len() && rest[k] == c;
        assert(!again(rest[k]));
    }
    assert(dangling(rest) =~= Seq::<ClassificationView>::empty());
}

/// Decides [`has_primary`].
pub fn primary_exists(cs: &Vec<Classification>, digest: &str) -> (r: bool)
    ensures
        r == has_primary(views(cs@), digest@),
{
    let mut i: usize = 0;
    while i < cs.len()
        invariant
            i <= cs.len(),
            forall|j: int|
                0 <= j < i ==> !((#[trigger] views(cs@)[j]).role == Role::Primary && views(
                    cs@,
                )[j].digest == digest@),
        decreases cs.len() - i,
    {
        let is_primary = match cs[i].role {
            Role::Primary => true,
            _ => false,
        };
        if is_primary && same_text(cs[i].digest.as_str(), digest) {
            assert(views(cs@)[i as int].role == Role::Primary && views(cs@)[i as int].digest
                == digest@);
            return true;
        }
        i += 1;
    }
    false
}

/// The signatures and attestations in `cs` that refer to a digest no primary
/// artifact in `cs` has, in the order of `cs`. `cs` has to be the complete
/// enumeration of its repository or corpus: a primary artifact that was not
/// listed makes its signatures look dangling.
pub fn reconcile(cs: &Vec<Classification>) -> (found: Vec<Classification>)
    ensures
        views(found@) == dangling(views(cs@)),
        forall|k: int|
            0 <= k < found@.len() ==> (#[trigger] found@[k]).role != Role::Primary && !has_primary(
                views(cs@),
                found@[k].digest@,
            ),
{
    let ghost all = views(cs@);
    let ghost pred = |c: ClassificationView| is_dangling(all, c);
    let mut found: Vec<Classification> = Vec::new();
    let mut i: usize = 0;
    proof {
        assert(all.take(0) =~= Seq::<ClassificationView>::empty());
        reveal(Seq::filter);
        assert(views(found@) =~= all.take(0).filter(pred));
    }
    while i < cs.len()
        invariant
            i <= cs.len(),
            all == views(cs@),
            pred == (|c: ClassificationView| is_dangling(all, c)),
            views(found@) == all.take(i as int).filter(pred),
        decreases cs.len() - i,
    {
        let c = &cs[i];
        let is_primary = match c.role {
            Role::Primary => true,
            _ => false,
        };
        let ghost before = views(found@);
        proof {
            assert(all.take(i + 1) =~= all.take(i as int).push(all[i as int]));
            all.take(i as int).lemma_filter_push(all[i as int], pred);
            assert(all[i as int] == c@);
        }
        if !is_primary && !primary_exists(cs, c.digest.as_str()) {
            found.push(
                Classification {
                    role: c.role,
                    digest: c.digest.clone(),
                    reference: c.reference.clone(),
                },
            );
            assert(views(found@) =~= before.push(c@));
        }
        i += 1;
    }
    assert(all.take(cs.len() as int) =~= all);
    proof {
        lemma_dangling_spares_primaries(all);
        assert forall|k: int| 0 <= k < found@.len() implies (#[trigger] found@[k]).role
            != Role::Primary && !has_primary(all, found@[k].digest@) by {
            assert(views(found@)[k] == found@[k]@);
            assert(dangling(all)[k] == found@[k]@);
        }
    }
    found
}

} // verus!
