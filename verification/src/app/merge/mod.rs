//! Which app a new conversation belongs to.

use vstd::prelude::*;
use vstd::string::*;

pub mod clustering;

verus! {

/// An app that a conversation could join.
#[derive(Debug, Clone, PartialEq, Eq)]
pub struct ClusterCandidate {
    pub app_id: String,
    pub summary: String,
}

/// Where a conversation goes.
#[derive(Debug, Clone, PartialEq, Eq)]
pub enum ClusterDecision {
    Join { app_id: String },
    New,
}

impl ClusterCandidate {
    /// A copy of the candidate.
    pub fn copy(&self) -> (r: Self)
        ensures
            r == *self,
    {
        ClusterCandidate { app_id: self.app_id.clone(), summary: self.summary.clone() }
    }
}

/// What decides where a conversation goes.
pub trait Clusterer {
    /// Decides for a new conversation. A decision to join names one of the candidates.
    fn classify(&self, new_summary: &str, candidates: &Vec<ClusterCandidate>) -> (decision:
        ClusterDecision)
        ensures
            decision matches ClusterDecision::Join { app_id } ==> exists|i: int|
                0 <= i < candidates@.len() && (#[trigger] candidates@[i]).app_id@ == app_id@,
    ;

    /// Decides anew for a member of an app. A decision to join names another candidate.
    fn reevaluate(
        &self,
        member_summary: &str,
        current_app_id: &str,
        candidates: &Vec<ClusterCandidate>,
    ) -> (decision: ClusterDecision)
        ensures
            decision matches ClusterDecision::Join { app_id } ==> app_id@ != current_app_id@
                && exists|i: int|
                0 <= i < candidates@.len() && (#[trigger] candidates@[i]).app_id@ == app_id@,
    ;
}

} // verus!
