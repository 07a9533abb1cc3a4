//! Verified core of a visualiser for audio graphs.
//!
//! The visualiser polls a running audio engine for snapshots of its node
//! graph and shows the graph as a node-link diagram. This library holds what
//! the diagram is, without drawing it:
//!
//! - `snapshot`: the topology of a graph at one moment;
//! - `poll`: the state machine that tracks the inspection request;
//! - `scene`: the arena of visual entities, addressed by stable handles;
//! - `diff`: what a snapshot adds to the scene, with `diff_laws`;
//! - `layout`: the columns of the diagram, by hop distance from the graph
//!   output, with `layout_laws`;
//! - `placement`: the exact place of every member of a column;
//! - `decor`: titles and channel labels;
//! - `visualiser`: one frame of bookkeeping, poll and diff together.
//!
//! Window, drawing, the channel to the engine and everything in floating
//! point, which is the force simulation and the camera, are the caller's.

pub mod snapshot;
pub mod poll;
pub mod scene;
pub mod diff;
pub mod diff_laws;
pub mod layout;
pub mod layout_laws;
pub mod placement;
pub mod decor;
pub mod visualiser;
