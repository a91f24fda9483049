//! The rules that guard the tables: what a request must look like, what must
//! exist before it, and the figures drawn from both tables.

pub mod acceptance_criteria_service;
pub mod user_story_service;

pub use acceptance_criteria_service::{
    AcceptanceCriteriaService, AcceptanceCriteriaServiceError, AcceptanceCriteriaStatistics,
};
pub use user_story_service::{UserStoryService, UserStoryServiceError, UserStoryStatistics};

use crate::repositories::Repositories;
use vstd::prelude::*;

verus! {

/// A quotient kept as its two whole numbers. The denominator is at least 1.
#[derive(Clone, Copy, Debug, PartialEq, Eq, Structural)]
pub struct Ratio {
    pub numerator: i64,
    pub denominator: i64,
}

/// The average of `total` over `count` things: `total / count`, and `0 / 1`
/// where there is nothing to average over.
pub open spec fn average_of(total: i64, count: i64) -> Ratio {
    if count > 0 {
        (Ratio { numerator: total, denominator: count })
    } else {
        (Ratio { numerator: 0, denominator: 1 })
    }
}

pub fn average(total: i64, count: i64) -> (r: Ratio)
    ensures
        r == average_of(total, count),
        r.denominator >= 1,
{
    if count > 0 {
        Ratio { numerator: total, denominator: count }
    } else {
        Ratio { numerator: 0, denominator: 1 }
    }
}

/// The first fault among those of the items `k`, `k + 1`, ... below `n`.
pub open spec fn first_fault<T>(faults: spec_fn(int) -> Option<T>, n: int, k: int) -> Option<T>
    decreases n - k,
{
    if k < 0 || k >= n {
        None
    } else if faults(k) is Some {
        faults(k)
    } else {
        first_fault(faults, n, k + 1)
    }
}

/// There is a first fault exactly if some item has a fault.
pub proof fn lemma_first_fault<T>(faults: spec_fn(int) -> Option<T>, n: int, k: int)
    requires
        0 <= k,
    ensures
        first_fault(faults, n, k) is None <==> forall|j: int|
            k <= j < n ==> (#[trigger] faults(j)) is None,
    decreases n - k,
{
    if k < n {
        lemma_first_fault(faults, n, k + 1);
        if faults(k) is None && first_fault(faults, n, k + 1) is None {
            assert forall|j: int| k <= j < n implies (#[trigger] faults(j)) is None by {
                if j > k {
                    assert(k + 1 <= j);
                }
            }
        }
    }
}

/// The first fault is the fault of one of the items.
pub proof fn lemma_first_fault_is_one<T>(faults: spec_fn(int) -> Option<T>, n: int, k: int)
    requires
        0 <= k,
        first_fault(faults, n, k) is Some,
    ensures
        exists|j: int| k <= j < n && #[trigger] faults(j) == first_fault(faults, n, k),
    decreases n - k,
{
    if faults(k) is Some {
    } else {
        lemma_first_fault_is_one(faults, n, k + 1);
        let j = choose|j: int| k + 1 <= j < n && #[trigger] faults(j) == first_fault(faults, n, k + 1);
        assert(faults(j) == first_fault(faults, n, k));
    }
}

/// The user stories and their acceptance criteria, to be handed to the
/// service for the one or for the other.
pub struct Services {
    pub repositories: Repositories,
}

impl Services {
    pub fn new(repositories: Repositories) -> (r: Self)
        ensures
            r.repositories == repositories,
    {
        Services { repositories }
    }

    /// The service for the user stories, over these tables.
    pub fn user_stories(self) -> (r: UserStoryService)
        ensures
            r.repositories == self.repositories,
    {
        UserStoryService::new(self.repositories)
    }

    /// The service for the acceptance criteria, over these tables.
    pub fn acceptance_criteria(self) -> (r: AcceptanceCriteriaService)
        ensures
            r.repositories == self.repositories,
    {
        AcceptanceCriteriaService::new(self.repositories)
    }
}

} // verus!
