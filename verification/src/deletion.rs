//! Deleting what the reconciliation found, one artifact at a time.
//!
//! A run issues the deletions in order and stops at the first one that does
//! not come back with an expected status: such a response may mean that the
//! view of the registry is stale or that the credential is invalid, and
//! nothing more is deleted on that footing. A run never names a primary
//! artifact, whatever it was handed.

use vstd::prelude::*;
use crate::classify::{Classification, ClassificationView, Role};
use crate::error::RegistryError;
use crate::reconcile::{candidates, views};

verus! {

/// Which statuses of a deletion call count as success.
#[derive(Debug, Clone, Copy, PartialEq, Eq, Structural)]
pub enum ExpectedStatus {
    /// Any status from 200 to 299.
    Success,
    /// Status 204 alone.
    NoContent,
}

/// The state of a deletion run.
pub struct DeletionState {
    /// The deletions to issue, in order.
    pub plan: Seq<ClassificationView>,
    /// Which statuses count as success.
    pub expected: ExpectedStatus,
    /// How many deletions were issued and succeeded.
    pub deleted: nat,
    /// Why the run was aborted, if it was.
    pub failure: Option<RegistryError>,
}

/// `status` is a success under `expected`.
pub open spec fn is_expected(expected: ExpectedStatus, status: u16) -> bool {
    match expected {
        ExpectedStatus::Success => 200 <= status <= 299,
        ExpectedStatus::NoContent => status == 204,
    }
}

/// The deletion to issue in state `s`; `None` where the run is over.
pub open spec fn pending(s: DeletionState) -> Option<ClassificationView> {
    if s.failure is None && s.deleted < s.plan.len() {
        Some(s.plan[s.deleted as int])
    } else {
        None
    }
}

/// The state after the pending deletion came back with `status`. A status
/// that arrives while nothing is pending changes nothing.
pub open spec fn after_status(s: DeletionState, status: u16) -> DeletionState {
    if pending(s) is None {
        s
    } else if is_expected(s.expected, status) {
        DeletionState { deleted: s.deleted + 1, ..s }
    } else {
        DeletionState { failure: Some(RegistryError::UnexpectedStatus { status }), ..s }
    }
}

/// The state after the pending deletion could not be sent or answered.
pub open spec fn after_transport_failure(s: DeletionState) -> DeletionState {
    if pending(s) is None {
        s
    } else {
        DeletionState { failure: Some(RegistryError::Transport), ..s }
    }
}

/// How the run ended: `None` while a deletion is pending.
pub open spec fn outcome_of(s: DeletionState) -> Option<Result<(), RegistryError>> {
    match s.failure {
        Some(e) => Some(Err(e)),
        None => if s.deleted < s.plan.len() {
            None
        } else {
            Some(Ok(()))
        },
    }
}

/// After a failure nothing is pending, and no later response revives the run.
pub proof fn lemma_failure_is_final(s: DeletionState, status: u16)
    requires
        s.failure is Some,
    ensures
        pending(s) is None,
        after_status(s, status) == s,
        after_transport_failure(s) == s,
{
}

/// A run planned from any findings never has a primary artifact pending.
pub proof fn lemma_plan_spares_primaries(found: Seq<ClassificationView>, k: int)
    requires
        0 <= k < candidates(found).len(),
    ensures
        candidates(found)[k].role != Role::Primary,
        found.contains(candidates(found)[k]),
{
    let pred = |c: ClassificationView| c.role != Role::Primary;
    found.lemma_filter_pred(pred, k);
    assert(candidates(found).contains(candidates(found)[k]));
    found.lemma_filter_contains_rev(pred, candidates(found)[k]);
}

/// Findings without a primary artifact are deleted as they are.
pub proof fn lemma_findings_are_candidates(found: Seq<ClassificationView>)
    requires
        forall|k: int| 0 <= k < found.len() ==> (#[trigger] found[k]).role != Role::Primary,
    ensures
        candidates(found) == found,
    decreases found.len(),
{
    reveal(Seq::filter);
    if found.len() > 0 {
        lemma_findings_are_candidates(found.drop_last());
        assert(found.drop_last().push(found.last()) =~= found);
    }
}

/// Decides [`is_expected`]: `Ok` for an expected status, the fatal
/// [`RegistryError::UnexpectedStatus`] for any other.
pub fn check_status(expected: ExpectedStatus, status: u16) -> (r: Result<(), RegistryError>)
    ensures
        r == if is_expected(expected, status) {
            Ok::<(), RegistryError>(())
        } else {
            Err::<(), RegistryError>(RegistryError::UnexpectedStatus { status })
        },
{
    let ok = match expected {
        ExpectedStatus::Success => 200 <= status && status <= 299,
        ExpectedStatus::NoContent => status == 204,
    };
    if ok {
        Ok(())
    } else {
        Err(RegistryError::UnexpectedStatus { status })
    }
}

/// A deletion run in progress.
pub struct DeletionRun {
    plan: Vec<Classification>,
    expected: ExpectedStatus,
    deleted: usize,
    failure: Option<RegistryError>,
}

impl View for DeletionRun {
    type V = DeletionState;

    closed spec fn view(&self) -> DeletionState {
        DeletionState {
            plan: views(self.plan@),
            expected: self.expected,
            deleted: self.deleted as nat,
            failure: self.failure,
        }
    }
}

impl DeletionRun {
    #[verifier::type_invariant]
    spec fn sound(&self) -> bool {
        &&& self.deleted <= self.plan.len()
        &&& forall|k: int|
            0 <= k < self.plan@.len() ==> (#[trigger] self.plan@[k]).role != Role::Primary
    }

    /// A run that will delete the signatures and attestations in `found`, in
    /// order. Primary artifacts in `found` are left out.
    pub fn new(found: Vec<Classification>, expected: ExpectedStatus) -> (run: Self)
        ensures
            run@ == (DeletionState {
                plan: candidates(views(found@)),
                expected,
                deleted: 0,
                failure: None,
            }),
    {
        let ghost all = views(found@);
        let ghost pred = |c: ClassificationView| c.role != Role::Primary;
        let mut plan: Vec<Classification> = Vec::new();
        let mut i: usize = 0;
        proof {
            assert(all.take(0) =~= Seq::<ClassificationView>::empty());
            reveal(Seq::filter);
            assert(views(plan@) =~= all.take(0).filter(pred));
        }
        while i < found.len()
            invariant
                i <= found.len(),
                all == views(found@),
                pred == (|c: ClassificationView| c.role != Role::Primary),
                views(plan@) == all.take(i as int).filter(pred),
            decreases found.len() - i,
        {
            let c = &found[i];
            let ghost before = views(plan@);
            proof {
                assert(all.take(i + 1) =~= all.take(i as int).push(all[i as int]));
                all.take(i as int).lemma_filter_push(all[i as int], pred);
                assert(all[i as int] == c@);
            }
            let is_primary = match c.role {
                Role::Primary => true,
                _ => false,
            };
            if !is_primary {
                plan.push(
                    Classification {
                        role: c.role,
                        digest: c.digest.clone(),
                        reference: c.reference.clone(),
                    },
                );
                assert(views(plan@) =~= before.push(c@));
            }
            i += 1;
        }
        assert(all.take(found.len() as int) =~= all);
        proof {
            assert forall|k: int| 0 <= k < plan@.len() implies (#[trigger] plan@[k]).role
                != Role::Primary by {
                all.lemma_filter_pred(pred, k);
                assert(views(plan@)[k] == plan@[k]@);
            }
        }
        DeletionRun { plan, expected, deleted: 0, failure: None }
    }

    /// The artifact to delete next; `None` once every deletion succeeded or
    /// the run was aborted. It is never a primary artifact.
    pub fn next(&self) -> (c: Option<&Classification>)
        ensures
            match pending(self@) {
                Some(p) => c matches Some(x) && x@ == p && x.role != Role::Primary,
                None => c is None,
            },
    {
        proof {
            use_type_invariant(self);
        }
        if self.failure.is_none() && self.deleted < self.plan.len() {
            assert(views(self.plan@)[self.deleted as int] == self.plan@[self.deleted as int]@);
            Some(&self.plan[self.deleted])
        } else {
            None
        }
    }

    /// Takes the status that the pending deletion came back with. An
    /// unexpected status aborts the run.
    pub fn confirm(&mut self, status: u16)
        ensures
            final(self)@ == after_status(old(self)@, status),
    {
        proof {
            use_type_invariant(&*self);
        }
        if self.failure.is_none() && self.deleted < self.plan.len() {
            match check_status(self.expected, status) {
                Ok(()) => {
                    self.deleted = self.deleted + 1;
                },
                Err(e) => {
                    self.failure = Some(e);
                },
            }
        }
    }

    /// Records that the pending deletion could not be sent or answered, which
    /// aborts the run.
    pub fn fail(&mut self)
        ensures
            final(self)@ == after_transport_failure(old(self)@),
    {
        proof {
            use_type_invariant(&*self);
        }
        if self.failure.is_none() && self.deleted < self.plan.len() {
            self.failure = Some(RegistryError::Transport);
        }
    }

    /// How the run ended; `None` while a deletion is pending.
    pub fn outcome(&self) -> (r: Option<Result<(), RegistryError>>)
        ensures
            r == outcome_of(self@),
    {
        proof {
            use_type_invariant(self);
        }
        match self.failure {
            Some(e) => Some(Err(e)),
            None => if self.deleted < self.plan.len() {
                None
            } else {
                Some(Ok(()))
            },
        }
    }
}

} // verus!
