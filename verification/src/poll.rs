//! Tracking of inspection requests, frame by frame.
//!
//! The visualiser asks the audio engine for a snapshot and looks for the
//! answer once per frame, without waiting. The caller owns the channel; the
//! poller decides what a frame does and keeps the latest snapshot.

use crate::snapshot::Snapshot;
use vstd::prelude::*;

verus! {

/// Where the tracking of the inspection request stands.
#[derive(Clone, Copy, Debug, PartialEq, Eq, Structural)]
pub enum PollState {
    /// No request has been issued; the next frame issues one.
    Idle,
    /// A request is outstanding.
    Awaiting,
    /// The request was answered and the answer consumed. No new request is
    /// issued until the poller is rearmed.
    Delivered,
}

/// The state after a frame that started in `state`.
pub open spec fn next_state(state: PollState, arrived: bool) -> PollState {
    match state {
        PollState::Idle => PollState::Awaiting,
        PollState::Awaiting => if arrived {
            PollState::Delivered
        } else {
            PollState::Awaiting
        },
        PollState::Delivered => PollState::Delivered,
    }
}

/// Whether a frame that started in `state` takes in a snapshot that arrived.
/// The frame that issues the request does not look for an answer.
pub open spec fn takes_in(state: PollState, arrived: bool) -> bool {
    arrived && state != PollState::Idle
}

/// The request tracking and the latest snapshot received.
pub struct Poller {
    pub state: PollState,
    pub latest: Snapshot,
}

impl Poller {
    /// A poller that has issued no request and holds the empty snapshot.
    pub fn new() -> (poller: Poller)
        ensures
            poller.state == PollState::Idle,
            poller.latest.graph_id == 0,
            poller.latest.num_outputs == 0,
            poller.latest.graph_output_input_edges@.len() == 0,
            poller.latest.nodes@.len() == 0,
    {
        Poller { state: PollState::Idle, latest: Snapshot::empty() }
    }

    /// Whether this frame has to issue the inspection request, which is so
    /// before the first frame and after a rearm.
    pub fn must_request(&self) -> (due: bool)
        ensures
            due == (self.state == PollState::Idle),
    {
        match self.state {
            PollState::Idle => true,
            _ => false,
        }
    }

    /// Advances by one frame. `received` is the snapshot that arrived in this
    /// frame, if one did. Returns whether a new snapshot was taken in; it
    /// then replaces the latest one. The flag is for this frame only.
    pub fn frame(&mut self, received: Option<Snapshot>) -> (fresh: bool)
        ensures
            final(self).state == next_state(old(self).state, received is Some),
            fresh == takes_in(old(self).state, received is Some),
            final(self).latest == if fresh {
                received->0
            } else {
                old(self).latest
            },
    {
        match self.state {
            PollState::Idle => {
                self.state = PollState::Awaiting;
                false
            },
            PollState::Awaiting => {
                match received {
                    Some(snapshot) => {
                        self.latest = snapshot;
                        self.state = PollState::Delivered;
                        true
                    },
                    None => false,
                }
            },
            PollState::Delivered => {
                match received {
                    Some(snapshot) => {
                        self.latest = snapshot;
                        true
                    },
                    None => false,
                }
            },
        }
    }

    /// Makes the next frame issue a new request, if the last one was
    /// answered. Returns whether it did; while a request is outstanding, or
    /// before the first one, nothing changes.
    pub fn rearm(&mut self) -> (rearmed: bool)
        ensures
            rearmed == (old(self).state == PollState::Delivered),
            final(self).state == if rearmed {
                PollState::Idle
            } else {
                old(self).state
            },
            final(self).latest == old(self).latest,
    {
        match self.state {
            PollState::Delivered => {
                self.state = PollState::Idle;
                true
            },
            _ => false,
        }
    }
}

/// Frames alone issue one request only: no frame leads back to `Idle`, the
/// one state in which a request is due, and a request that was answered
/// stays answered whatever arrives.
pub proof fn lemma_frames_never_rearm(state: PollState, arrived: bool)
    ensures
        next_state(state, arrived) != PollState::Idle,
        next_state(PollState::Delivered, arrived) == PollState::Delivered,
{
}

} // verus!
