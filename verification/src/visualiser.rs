//! One frame of the visualiser's bookkeeping: poll, then diff.

use crate::diff::{is_diff_outcome, DiffError, DiffReport};
use crate::poll::{next_state, takes_in, PollState, Poller};
use crate::scene::Scene;
use crate::snapshot::Snapshot;
use vstd::prelude::*;

verus! {

/// The request tracking and the scene that the snapshots have built.
pub struct Visualiser {
    pub poller: Poller,
    pub scene: Scene,
}

impl Visualiser {
    /// A visualiser with an empty scene that has issued no request.
    pub fn new() -> (v: Visualiser)
        ensures
            v.poller.state == PollState::Idle,
            v.poller.latest.graph_id == 0,
            v.poller.latest.num_outputs == 0,
            v.poller.latest.graph_output_input_edges@.len() == 0,
            v.poller.latest.nodes@.len() == 0,
            v.scene@.len() == 0,
    {
        Visualiser { poller: Poller::new(), scene: Scene::new() }
    }

    /// Advances by one frame. `received` is the snapshot that arrived in this
    /// frame, if one did. A snapshot that is taken in becomes the latest one
    /// and is materialised in the scene; the report of that diff is
    /// returned. In a frame without a new snapshot the scene stays as it is
    /// and the result is `Ok(None)`.
    ///
    /// A snapshot with a faulty edge is still taken in as the latest one, but
    /// leaves the scene unchanged; the fault is returned.
    pub fn update_inspection(&mut self, received: Option<Snapshot>) -> (outcome: Result<
        Option<DiffReport>,
        DiffError,
    >)
        ensures
            final(self).poller.state == next_state(old(self).poller.state, received is Some),
            final(self).poller.latest == if takes_in(old(self).poller.state, received is Some) {
                received->0
            } else {
                old(self).poller.latest
            },
            if takes_in(old(self).poller.state, received is Some) {
                match outcome {
                    Ok(Some(report)) => is_diff_outcome(
                        old(self).scene@,
                        received->0,
                        final(self).scene@,
                        Ok(report),
                    ),
                    Ok(None) => false,
                    Err(fault) => is_diff_outcome(
                        old(self).scene@,
                        received->0,
                        final(self).scene@,
                        Err(fault),
                    ),
                }
            } else {
                &&& outcome == Ok::<Option<DiffReport>, DiffError>(None)
                &&& final(self).scene@ == old(self).scene@
            },
    {
        let fresh = self.poller.frame(received);
        if fresh {
            match self.scene.apply_snapshot(&self.poller.latest) {
                Ok(report) => Ok(Some(report)),
                Err(fault) => Err(fault),
            }
        } else {
            Ok(None)
        }
    }
}

} // verus!
