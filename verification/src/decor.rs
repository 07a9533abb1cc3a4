//! What decorates a body: its title and the labels of its channels.

use crate::layout::ROW_HEIGHT;
use vstd::prelude::*;
use vstd::string::StringExecFns;

verus! {

/// Horizontal distance of a channel label from the middle of its body: half
/// the body's width.
pub const LABEL_INSET: i64 = 80;

/// The title shown for a node with the given name: a short symbol for the
/// arithmetic nodes, the name itself for every other node.
pub open spec fn title_of(name: Seq<char>) -> Seq<char> {
    if name == "MulGen"@ {
        "*"@
    } else if name == "PowfGen"@ {
        "^"@
    } else {
        name
    }
}

/// The title shown for a node with the given name.
pub fn display_label(name: &String) -> (title: String)
    ensures
        title@ == title_of(name@),
{
    let product = String::from_str("MulGen");
    let power = String::from_str("PowfGen");
    if *name == product {
        String::from_str("*")
    } else if *name == power {
        String::from_str("^")
    } else {
        name.clone()
    }
}

/// The side of a body on which a channel label stands.
#[derive(Clone, Copy, Debug, PartialEq, Eq, Structural)]
pub enum LabelSide {
    /// Input channels are labelled at the left edge.
    Input,
    /// Output channels are labelled at the right edge.
    Output,
}

/// Where a label stands, relative to the middle of its body.
#[derive(Clone, Copy, Debug, PartialEq, Eq, Structural)]
pub struct LabelOffset {
    pub x: i64,
    pub y: i128,
}

/// The place of the label of channel `channel`: at the left edge for an
/// input and at the right edge for an output, one row height lower for each
/// channel before it.
pub open spec fn label_offset_of(side: LabelSide, channel: nat) -> (int, int) {
    (
        match side {
            LabelSide::Input => -LABEL_INSET,
            LabelSide::Output => LABEL_INSET as int,
        },
        -ROW_HEIGHT * channel,
    )
}

/// The place of the label of channel `channel` on `side`.
pub fn channel_label_offset(side: LabelSide, channel: usize) -> (offset: LabelOffset)
    ensures
        (offset.x as int, offset.y as int) == label_offset_of(side, channel as nat),
{
    let x: i64 = match side {
        LabelSide::Input => -LABEL_INSET,
        LabelSide::Output => LABEL_INSET,
    };
    let rows: i128 = channel as i128;
    let unit: i128 = ROW_HEIGHT as i128;
    assert(unit * rows == 15 * rows) by (nonlinear_arith)
        requires
            unit == 15,
    ;
    LabelOffset { x, y: -(unit * rows) }
}


/// Where an edge meets a body, relative to the middle of the body. The
/// vertical offset is a number of half units: `y_halves / 2`.
#[derive(Clone, Copy, Debug, PartialEq, Eq, Structural)]
pub struct AnchorOffset {
    pub x: i64,
    pub y_halves: i128,
}

/// Where an edge meets the body at channel `channel`: at the body's edge on
/// the channel's side, half a row above the channel's label. The second
/// component counts half units.
pub open spec fn anchor_offset_of(side: LabelSide, channel: nat) -> (int, int) {
    (label_offset_of(side, channel).0, ROW_HEIGHT + 2 * label_offset_of(side, channel).1)
}

/// Where an edge meets the body at channel `channel` on `side`.
pub fn channel_anchor_offset(side: LabelSide, channel: usize) -> (offset: AnchorOffset)
    ensures
        (offset.x as int, offset.y_halves as int) == anchor_offset_of(side, channel as nat),
{
    let label = channel_label_offset(side, channel);
    AnchorOffset { x: label.x, y_halves: (ROW_HEIGHT as i128) + 2 * label.y }
}

} // verus!
