//! The garbage-collection run over one complete enumeration: classify every
//! artifact, then reconcile.
//!
//! The artifact registry is reconciled repository by repository, each
//! repository's primary artifacts being a set of their own. The asset registry
//! is reconciled as one corpus.

use vstd::prelude::*;
use crate::classify::{
    asset_classification_of, attestation_tag_for, classification_of, classify,
    classify_asset, is_attestation_tag, lemma_attestation_tag_for, Classification,
    ClassificationView, Role,
};
use crate::deletion::{lemma_findings_are_candidates, DeletionRun, ExpectedStatus};
use crate::digest::{digest_hex, is_hex_digest, is_lower_hex};
use crate::error::RegistryError;
use crate::model::{Artifact, Asset};
use crate::paging::{CursorPager, OffsetPager};
use crate::reconcile::{
    dangling, has_primary, is_dangling, lemma_dangling_is_complete,
    lemma_dangling_spares_primaries, lemma_second_run_finds_nothing, reconcile, views,
};

verus! {

/// The eligible classifications among `outcomes`, in order; the first failure
/// where there is one.
pub open spec fn collect(
    outcomes: Seq<Result<Option<ClassificationView>, RegistryError>>,
) -> Result<Seq<ClassificationView>, RegistryError>
    decreases outcomes.len(),
{
    if outcomes.len() == 0 {
        Ok(Seq::empty())
    } else {
        match collect(outcomes.drop_last()) {
            Err(e) => Err(e),
            Ok(before) => match outcomes.last() {
                Err(e) => Err(e),
                Ok(None) => Ok(before),
                Ok(Some(c)) => Ok(before.push(c)),
            },
        }
    }
}

/// The classification of each artifact of a repository.
pub open spec fn repository_outcomes(artifacts: Seq<Artifact>) -> Seq<
    Result<Option<ClassificationView>, RegistryError>,
> {
    artifacts.map_values(|a: Artifact| classification_of(a.digest@, a.tag_names()))
}

/// The classification of each asset of the asset registry.
pub open spec fn asset_outcomes(assets: Seq<Asset>) -> Seq<
    Result<Option<ClassificationView>, RegistryError>,
> {
    assets.map_values(
        |a: Asset| asset_classification_of(a.id@, a.path@, a.content_type@, a.sha256@),
    )
}

/// What a run over a repository reports: the dangling attestations, or the
/// decode failure that stops the run.
pub open spec fn repository_findings(artifacts: Seq<Artifact>) -> Result<
    Seq<ClassificationView>,
    RegistryError,
> {
    match collect(repository_outcomes(artifacts)) {
        Ok(cs) => Ok(dangling(cs)),
        Err(e) => Err(e),
    }
}

/// What a run over the asset registry reports.
pub open spec fn asset_findings(assets: Seq<Asset>) -> Result<
    Seq<ClassificationView>,
    RegistryError,
> {
    match collect(asset_outcomes(assets)) {
        Ok(cs) => Ok(dangling(cs)),
        Err(e) => Err(e),
    }
}

/// `a` is a primary artifact: it is tagged and its first tag is no
/// attestation tag.
pub open spec fn is_primary(a: Artifact) -> bool {
    &&& a.tag_names().len() > 0
    &&& !is_attestation_tag(a.tag_names()[0])
}

/// `a` is a primary artifact with hex digest `h`.
pub open spec fn is_primary_with(a: Artifact, h: Seq<char>) -> bool {
    is_primary(a) && digest_hex(a.digest@) == Some(h)
}

/// What [`collect`] keeps and what it drops.
pub proof fn lemma_collect_members(
    outcomes: Seq<Result<Option<ClassificationView>, RegistryError>>,
)
    requires
        collect(outcomes) is Ok,
    ensures
        forall|i: int| 0 <= i < outcomes.len() ==> (#[trigger] outcomes[i]) is Ok,
        forall|i: int|
            0 <= i < outcomes.len() ==> match #[trigger] outcomes[i] {
                Ok(Some(c)) => collect(outcomes).unwrap().contains(c),
                _ => true,
            },
        forall|k: int|
            0 <= k < collect(outcomes).unwrap().len() ==> exists|i: int|
                0 <= i < outcomes.len() && #[trigger] outcomes[i] == Ok::<
                    Option<ClassificationView>,
                    RegistryError,
                >(Some(#[trigger] collect(outcomes).unwrap()[k])),
    decreases outcomes.len(),
{
    if outcomes.len() > 0 {
        let init = outcomes.drop_last();
        lemma_collect_members(init);
        let before = collect(init).unwrap();
        let all = collect(outcomes).unwrap();
        assert forall|i: int| 0 <= i < outcomes.len() implies (#[trigger] outcomes[i]) is Ok by {
            if i < init.len() {
                assert(init[i] == outcomes[i]);
            }
        }
        assert forall|i: int| 0 <= i < outcomes.len() implies match #[trigger] outcomes[i] {
            Ok(Some(c)) => all.contains(c),
            _ => true,
        } by {
            if let Ok(Some(c)) = outcomes[i] {
                if i < init.len() {
                    assert(init[i] == outcomes[i]);
                    assert(before.contains(c));
                    let k = choose|k: int| 0 <= k < before.len() && before[k] == c;
                    assert(all[k] == c);
                } else {
                    assert(all == before.push(c));
                    assert(all[before.len() as int] == c);
                }
            }
        }
        assert forall|k: int| 0 <= k < all.len() implies exists|i: int|
            0 <= i < outcomes.len() && #[trigger] outcomes[i] == Ok::<
                Option<ClassificationView>,
                RegistryError,
            >(Some(#[trigger] all[k])) by {
            if k < before.len() {
                assert(all[k] == before[k]);
                let i = choose|i: int|
                    0 <= i < init.len() && #[trigger] init[i] == Ok::<
                        Option<ClassificationView>,
                        RegistryError,
                    >(Some(before[k]));
                assert(outcomes[i] == init[i]);
            } else {
                assert(outcomes[outcomes.len() - 1] == Ok::<
                    Option<ClassificationView>,
                    RegistryError,
                >(Some(all[k])));
            }
        }
    }
}

/// An outcome without classification can be left out.
pub proof fn lemma_collect_skips_ineligible(
    outcomes: Seq<Result<Option<ClassificationView>, RegistryError>>,
    i: int,
)
    requires
        0 <= i < outcomes.len(),
        outcomes[i] == Ok::<Option<ClassificationView>, RegistryError>(None),
    ensures
        collect(outcomes.remove(i)) == collect(outcomes),
    decreases outcomes.len(),
{
    if i == outcomes.len() - 1 {
        assert(outcomes.remove(i) =~= outcomes.drop_last());
    } else {
        let init = outcomes.drop_last();
        lemma_collect_skips_ineligible(init, i);
        assert(outcomes.remove(i).drop_last() =~= init.remove(i));
        assert(outcomes.remove(i).last() == outcomes.last());
    }
}

/// An artifact without tags is in no set: with it or without it, a
/// repository has the same primary artifacts, the same candidates and the
/// same findings.
pub proof fn lemma_untagged_is_in_no_set(artifacts: Seq<Artifact>, i: int)
    requires
        0 <= i < artifacts.len(),
        artifacts[i].tag_names().len() == 0,
    ensures
        collect(repository_outcomes(artifacts.remove(i))) == collect(
            repository_outcomes(artifacts),
        ),
        repository_findings(artifacts.remove(i)) == repository_findings(artifacts),
{
    let outcomes = repository_outcomes(artifacts);
    assert(repository_outcomes(artifacts.remove(i)) =~= outcomes.remove(i));
    lemma_collect_skips_ineligible(outcomes, i);
}

/// `a` is reported by a run over `artifacts`.
pub open spec fn is_reported(artifacts: Seq<Artifact>, a: Artifact) -> bool {
    match (collect(repository_outcomes(artifacts)), classification_of(a.digest@, a.tag_names())) {
        (Ok(cs), Ok(Some(c))) => is_dangling(cs, c),
        _ => false,
    }
}

/// The repository after everything that a run reported was deleted, and
/// nothing else changed.
pub open spec fn after_deletion(artifacts: Seq<Artifact>) -> Seq<Artifact> {
    artifacts.filter(|a: Artifact| !is_reported(artifacts, a))
}

/// `a` is reported by a run over `assets`.
pub open spec fn is_reported_asset(assets: Seq<Asset>, a: Asset) -> bool {
    match (
        collect(asset_outcomes(assets)),
        asset_classification_of(a.id@, a.path@, a.content_type@, a.sha256@),
    ) {
        (Ok(cs), Ok(Some(c))) => is_dangling(cs, c),
        _ => false,
    }
}

/// The asset registry after everything that a run reported was deleted, and
/// nothing else changed.
pub open spec fn assets_after_deletion(assets: Seq<Asset>) -> Seq<Asset> {
    assets.filter(|a: Asset| !is_reported_asset(assets, a))
}

/// A second run over a repository, right after the findings of the first
/// were deleted, finds nothing.
pub proof fn lemma_run_is_idempotent(artifacts: Seq<Artifact>)
    requires
        repository_findings(artifacts) is Ok,
    ensures
        repository_findings(after_deletion(artifacts)) == Ok::<
            Seq<ClassificationView>,
            RegistryError,
        >(Seq::empty()),
{
    let cs = collect(repository_outcomes(artifacts)).unwrap();
    let classified = |a: Artifact| classification_of(a.digest@, a.tag_names());
    let keep = |c: ClassificationView| !is_dangling(cs, c);
    let stays = |a: Artifact| !is_reported(artifacts, a);
    assert forall|a: Artifact| #[trigger]
        stays(a) == match classified(a) {
            Ok(Some(c)) => keep(c),
            _ => true,
        } by {}
    lemma_collect_of_filtered(artifacts, classified, stays, keep);
    lemma_second_run_finds_nothing(cs);
}

/// A second run over the asset registry, right after the findings of the
/// first were deleted, finds nothing.
pub proof fn lemma_asset_run_is_idempotent(assets: Seq<Asset>)
    requires
        asset_findings(assets) is Ok,
    ensures
        asset_findings(assets_after_deletion(assets)) == Ok::<
            Seq<ClassificationView>,
            RegistryError,
        >(Seq::empty()),
{
    let cs = collect(asset_outcomes(assets)).unwrap();
    let classified = |a: Asset|
        asset_classification_of(a.id@, a.path@, a.content_type@, a.sha256@);
    let keep = |c: ClassificationView| !is_dangling(cs, c);
    let stays = |a: Asset| !is_reported_asset(assets, a);
    assert forall|a: Asset| #[trigger]
        stays(a) == match classified(a) {
            Ok(Some(c)) => keep(c),
            _ => true,
        } by {}
    lemma_collect_of_filtered(assets, classified, stays, keep);
    lemma_second_run_finds_nothing(cs);
}

/// Leaving items out by their classification leaves the same
/// classifications out of what is collected.
proof fn lemma_collect_of_filtered<A>(
    items: Seq<A>,
    classified: spec_fn(A) -> Result<Option<ClassificationView>, RegistryError>,
    stays: spec_fn(A) -> bool,
    keep: spec_fn(ClassificationView) -> bool,
)
    requires
        collect(items.map_values(classified)) is Ok,
        forall|a: A| #[trigger]
            stays(a) == match classified(a) {
                Ok(Some(c)) => keep(c),
                _ => true,
            },
    ensures
        collect(items.filter(stays).map_values(classified)) == Ok::<
            Seq<ClassificationView>,
            RegistryError,
        >(collect(items.map_values(classified)).unwrap().filter(keep)),
    decreases items.len(),
{
    reveal(Seq::filter);
    if items.len() == 0 {
        assert(items.filter(stays).map_values(classified) =~= Seq::empty());
    } else {
        let init = items.drop_last();
        let last = items.last();
        let outcomes = items.map_values(classified);
        assert(outcomes.drop_last() =~= init.map_values(classified));
        assert(outcomes.last() == classified(last));
        lemma_collect_of_filtered(init, classified, stays, keep);
        let before = collect(init.map_values(classified)).unwrap();
        let left = init.filter(stays);
        assert(stays(last) == match classified(last) {
            Ok(Some(c)) => keep(c),
            _ => true,
        });
        if stays(last) {
            let longer = left.push(last);
            assert(items.filter(stays) == longer);
            assert(longer.map_values(classified).drop_last() =~= left.map_values(classified));
            assert(longer.map_values(classified).last() == outcomes.last());
            if let Ok(Some(c)) = outcomes.last() {
                before.lemma_filter_push(c, keep);
            }
        } else {
            let c = outcomes.last().unwrap().unwrap();
            before.lemma_filter_push(c, keep);
        }
    }
}

/// An attestation tagged `sha256-<h>.att` is reported as dangling exactly when
/// the repository holds no primary artifact with digest `h`.
pub proof fn lemma_attestation_round_trip(artifacts: Seq<Artifact>, i: int, h: Seq<char>)
    requires
        0 <= i < artifacts.len(),
        is_hex_digest(h),
        artifacts[i].tag_names().len() > 0,
        artifacts[i].tag_names()[0] == attestation_tag_for(h),
        repository_findings(artifacts) is Ok,
    ensures
        repository_findings(artifacts).unwrap().contains(
            ClassificationView {
                role: Role::Attestation,
                digest: h,
                reference: attestation_tag_for(h),
            },
        ) <==> !exists|j: int| 0 <= j < artifacts.len() && is_primary_with(#[trigger] artifacts[j], h),
{
    let outcomes = repository_outcomes(artifacts);
    let cs = collect(outcomes).unwrap();
    let att = ClassificationView {
        role: Role::Attestation,
        digest: h,
        reference: attestation_tag_for(h),
    };
    lemma_attestation_tag_for(h);
    lemma_collect_members(outcomes);
    assert(outcomes[i] == Ok::<Option<ClassificationView>, RegistryError>(Some(att)));
    assert(cs.contains(att));
    let at = choose|at: int| 0 <= at < cs.len() && cs[at] == att;
    if exists|j: int| 0 <= j < artifacts.len() && is_primary_with(#[trigger] artifacts[j], h) {
        let j = choose|j: int| 0 <= j < artifacts.len() && is_primary_with(#[trigger] artifacts[j], h);
        let p = ClassificationView { role: Role::Primary, digest: h, reference: artifacts[j].digest@ };
        assert(outcomes[j] == Ok::<Option<ClassificationView>, RegistryError>(Some(p)));
        assert(cs.contains(p));
        let q = choose|q: int| 0 <= q < cs.len() && cs[q] == p;
        assert(has_primary(cs, h));
        lemma_dangling_spares_primaries(cs);
        if dangling(cs).contains(att) {
            let k = choose|k: int| 0 <= k < dangling(cs).len() && dangling(cs)[k] == att;
            assert(!has_primary(cs, dangling(cs)[k].digest));
        }
    } else {
        if has_primary(cs, h) {
            let q = choose|q: int|
                0 <= q < cs.len() && (#[trigger] cs[q]).role == Role::Primary && cs[q].digest == h;
            let j = choose|j: int|
                0 <= j < outcomes.len() && #[trigger] outcomes[j] == Ok::<
                    Option<ClassificationView>,
                    RegistryError,
                >(Some(cs[q]));
            assert(is_primary_with(artifacts[j], h));
        }
        assert(is_dangling(cs, cs[at]));
        lemma_dangling_is_complete(cs, at);
    }
}

/// Change one hex digit of an attestation tag whose digest every primary
/// artifact of the repository has, and the attestation is reported.
pub proof fn lemma_changed_digit_is_flagged(
    artifacts: Seq<Artifact>,
    i: int,
    h: Seq<char>,
    at: int,
    c: char,
)
    requires
        0 <= i < artifacts.len(),
        is_hex_digest(h),
        0 <= at < 64,
        is_lower_hex(c),
        c != h[at],
        artifacts[i].tag_names().len() > 0,
        artifacts[i].tag_names()[0] == attestation_tag_for(h.update(at, c)),
        forall|j: int|
            0 <= j < artifacts.len() && is_primary(#[trigger] artifacts[j]) ==> digest_hex(
                artifacts[j].digest@,
            ) == Some(h),
        repository_findings(artifacts) is Ok,
    ensures
        repository_findings(artifacts).unwrap().contains(
            ClassificationView {
                role: Role::Attestation,
                digest: h.update(at, c),
                reference: attestation_tag_for(h.update(at, c)),
            },
        ),
{
    let changed = h.update(at, c);
    assert(is_hex_digest(changed));
    assert(changed[at] != h[at]);
    lemma_attestation_round_trip(artifacts, i, changed);
}

/// Classifies every artifact of a repository, dropping those without tags.
/// The first malformed digest stops the run.
pub fn classify_repository(artifacts: &Vec<Artifact>) -> (r: Result<
    Vec<Classification>,
    RegistryError,
>)
    ensures
        match collect(repository_outcomes(artifacts@)) {
            Ok(cs) => r matches Ok(v) && views(v@) == cs,
            Err(e) => r matches Err(f) && f == e,
        },
{
    let ghost outcomes = repository_outcomes(artifacts@);
    let mut out: Vec<Classification> = Vec::new();
    let mut i: usize = 0;
    proof {
        assert(outcomes.take(0) =~= Seq::empty());
        assert(views(out@) =~= Seq::<ClassificationView>::empty());
    }
    while i < artifacts.len()
        invariant
            i <= artifacts.len(),
            outcomes == repository_outcomes(artifacts@),
            collect(outcomes.take(i as int)) == Ok::<Seq<ClassificationView>, RegistryError>(
                views(out@),
            ),
        decreases artifacts.len() - i,
    {
        let ghost before = views(out@);
        proof {
            assert(outcomes.take(i + 1).drop_last() =~= outcomes.take(i as int));
            assert(outcomes.take(i + 1).last() == outcomes[i as int]);
        }
        match classify(&artifacts[i]) {
            Ok(Some(c)) => {
                out.push(c);
                assert(views(out@) =~= before.push(c@));
            },
            Ok(None) => {},
            Err(e) => {
                proof {
                    lemma_collect_fails_on(outcomes, i as int);
                }
                return Err(e);
            },
        }
        i += 1;
    }
    assert(outcomes.take(artifacts.len() as int) =~= outcomes);
    Ok(out)
}

/// Classifies every asset of the asset registry, dropping image layers and
/// assets addressed by digest. The first malformed checksum stops the run.
pub fn classify_assets(assets: &Vec<Asset>) -> (r: Result<Vec<Classification>, RegistryError>)
    ensures
        match collect(asset_outcomes(assets@)) {
            Ok(cs) => r matches Ok(v) && views(v@) == cs,
            Err(e) => r matches Err(f) && f == e,
        },
{
    let ghost outcomes = asset_outcomes(assets@);
    let mut out: Vec<Classification> = Vec::new();
    let mut i: usize = 0;
    proof {
        assert(outcomes.take(0) =~= Seq::empty());
        assert(views(out@) =~= Seq::<ClassificationView>::empty());
    }
    while i < assets.len()
        invariant
            i <= assets.len(),
            outcomes == asset_outcomes(assets@),
            collect(outcomes.take(i as int)) == Ok::<Seq<ClassificationView>, RegistryError>(
                views(out@),
            ),
        decreases assets.len() - i,
    {
        let ghost before = views(out@);
        proof {
            assert(outcomes.take(i + 1).drop_last() =~= outcomes.take(i as int));
            assert(outcomes.take(i + 1).last() == outcomes[i as int]);
        }
        match classify_asset(&assets[i]) {
            Ok(Some(c)) => {
                out.push(c);
                assert(views(out@) =~= before.push(c@));
            },
            Ok(None) => {},
            Err(e) => {
                proof {
                    lemma_collect_fails_on(outcomes, i as int);
                }
                return Err(e);
            },
        }
        i += 1;
    }
    assert(outcomes.take(assets.len() as int) =~= outcomes);
    Ok(out)
}

/// The dangling attestations of one repository, given all of its artifacts.
pub fn dangling_in_repository(artifacts: &Vec<Artifact>) -> (r: Result<
    Vec<Classification>,
    RegistryError,
>)
    ensures
        match repository_findings(artifacts@) {
            Ok(found) => r matches Ok(v) && views(v@) == found,
            Err(e) => r matches Err(f) && f == e,
        },
{
    match classify_repository(artifacts) {
        Ok(cs) => Ok(reconcile(&cs)),
        Err(e) => Err(e),
    }
}

/// The dangling signatures and attestations of the asset registry, given all
/// of its assets.
pub fn dangling_assets(assets: &Vec<Asset>) -> (r: Result<Vec<Classification>, RegistryError>)
    ensures
        match asset_findings(assets@) {
            Ok(found) => r matches Ok(v) && views(v@) == found,
            Err(e) => r matches Err(f) && f == e,
        },
{
    match classify_assets(assets) {
        Ok(cs) => Ok(reconcile(&cs)),
        Err(e) => Err(e),
    }
}

/// The deletion run for a repository whose artifacts `pager` has enumerated.
/// `None` where the enumeration is not complete: nothing is deleted on part
/// of a listing.
pub fn plan_repository_run(pager: OffsetPager<Artifact>, expected: ExpectedStatus) -> (r: Option<
    Result<DeletionRun, RegistryError>,
>)
    ensures
        match r {
            None => !pager@.complete,
            Some(Ok(run)) => pager@.complete && repository_findings(pager@.items) == Ok::<
                Seq<ClassificationView>,
                RegistryError,
            >(run@.plan) && run@.expected == expected && run@.deleted == 0 && run@.failure is None,
            Some(Err(e)) => pager@.complete && repository_findings(pager@.items) == Err::<
                Seq<ClassificationView>,
                RegistryError,
            >(e),
        },
{
    match pager.finish() {
        None => None,
        Some(artifacts) => match dangling_in_repository(&artifacts) {
            Ok(found) => {
                proof {
                    lemma_dangling_spares_primaries(
                        collect(repository_outcomes(artifacts@)).unwrap(),
                    );
                    lemma_findings_are_candidates(views(found@));
                }
                Some(Ok(DeletionRun::new(found, expected)))
            },
            Err(e) => Some(Err(e)),
        },
    }
}

/// The deletion run for the asset registry whose assets `pager` has
/// enumerated. `None` where the enumeration is not complete.
pub fn plan_asset_run(pager: CursorPager<Asset>, expected: ExpectedStatus) -> (r: Option<
    Result<DeletionRun, RegistryError>,
>)
    ensures
        match r {
            None => !pager@.complete,
            Some(Ok(run)) => pager@.complete && asset_findings(pager@.items) == Ok::<
                Seq<ClassificationView>,
                RegistryError,
            >(run@.plan) && run@.expected == expected && run@.deleted == 0 && run@.failure is None,
            Some(Err(e)) => pager@.complete && asset_findings(pager@.items) == Err::<
                Seq<ClassificationView>,
                RegistryError,
            >(e),
        },
{
    match pager.finish() {
        None => None,
        Some(assets) => match dangling_assets(&assets) {
            Ok(found) => {
                proof {
                    lemma_dangling_spares_primaries(collect(asset_outcomes(assets@)).unwrap());
                    lemma_findings_are_candidates(views(found@));
                }
                Some(Ok(DeletionRun::new(found, expected)))
            },
            Err(e) => Some(Err(e)),
        },
    }
}

/// Once a prefix succeeds and the next outcome fails, the whole fails with
/// that failure.
proof fn lemma_collect_fails_on(
    outcomes: Seq<Result<Option<ClassificationView>, RegistryError>>,
    i: int,
)
    requires
        0 <= i < outcomes.len(),
        collect(outcomes.take(i)) is Ok,
        outcomes[i] is Err,
    ensures
        collect(outcomes) == Err::<Seq<ClassificationView>, RegistryError>(outcomes[i]->Err_0),
    decreases outcomes.len() - i,
{
    assert(outcomes.take(i + 1).drop_last() =~= outcomes.take(i));
    assert(outcomes.take(i + 1).last() == outcomes[i]);
    lemma_collect_keeps_failure(outcomes, i + 1);
}

/// A failure of a prefix is the failure of the whole.
proof fn lemma_collect_keeps_failure(
    outcomes: Seq<Result<Option<ClassificationView>, RegistryError>>,
    n: int,
)
    requires
        0 <= n <= outcomes.len(),
        collect(outcomes.take(n)) is Err,
    ensures
        collect(outcomes) == collect(outcomes.take(n)),
    decreases outcomes.len() - n,
{
    if n == outcomes.len() {
        assert(outcomes.take(n) =~= outcomes);
    } else {
        assert(outcomes.take(n + 1).drop_last() =~= outcomes.take(n));
        lemma_collect_keeps_failure(outcomes, n + 1);
    }
}

} // verus!
