//! Where the members of the columns stand.
//!
//! Places are exact and relative to the graph output. A column lies a whole
//! number of column widths to the left. Its members are stacked downwards
//! from the height of the graph output, each followed by a gap. The gap is
//! the fixed row gap, unless the column would then reach less far down than
//! the column before it: such a column is spread, with one equal gap after
//! each member that makes the column reach exactly as far as the one before.
//! A spread gap is a fraction; it is kept as `gap / shares`.

use crate::layout::{column_offset, node_height, rows_of, COLUMN_WIDTH, ROW_GAP, ROW_HEIGHT};
use crate::scene::{has_graph_output, is_graph_output, well_formed, Scene, Visual};
use vstd::prelude::*;

verus! {

/// A member of a placed column.
#[derive(Clone, Copy, Debug, PartialEq, Eq, Structural)]
pub struct Slot {
    /// Handle of the member.
    pub handle: usize,
    /// Height of the member's body.
    pub height: u128,
    /// Sum of the heights of the members above it.
    pub above: u128,
}

/// A column with the places of its members. Member `i` stands
/// `above + i * gap / shares` below the height of the graph output.
#[derive(Debug)]
pub struct PlacedColumn {
    /// How far left of the graph output the column lies.
    pub left: u128,
    /// Numerator of the gap after each member.
    pub gap: u128,
    /// Denominator of the gap after each member; never 0.
    pub shares: u128,
    /// How far down the column reaches, the gap after its last member
    /// included.
    pub extent: u128,
    /// The members, top to bottom.
    pub slots: Vec<Slot>,
}

/// Height of the body at `h`: a node has one row height for each of its
/// rows, and nothing else takes up room in a column.
pub open spec fn body_height(scene: Seq<Visual>, h: int) -> nat {
    if 0 <= h < scene.len() {
        match scene[h] {
            Visual::Node(n) => ROW_HEIGHT as nat * rows_of(n.num_inputs as nat, n.num_outputs as nat),
            _ => 0,
        }
    } else {
        0
    }
}

/// Sum of the heights of the first `i` members of `column`.
pub open spec fn stacked(scene: Seq<Visual>, column: Seq<usize>, i: int) -> nat
    decreases i,
{
    if i <= 0 {
        0
    } else {
        stacked(scene, column, i - 1) + body_height(scene, column[i - 1] as int)
    }
}

/// How far down `column` reaches with the fixed row gap after each member.
pub open spec fn natural_extent(scene: Seq<Visual>, column: Seq<usize>) -> nat {
    stacked(scene, column, column.len() as int) + ROW_GAP as nat * column.len()
}

/// How far down the graph output itself reaches: as far as a node with its
/// number of outputs. Without a graph output it is 0.
pub open spec fn anchor_extent(scene: Seq<Visual>) -> nat {
    if has_graph_output(scene) {
        let outputs = scene[choose|h: int| is_graph_output(scene, h)]->GraphOutput_0.num_outputs;
        ROW_HEIGHT as nat * rows_of(outputs as nat, outputs as nat)
    } else {
        0
    }
}

/// The column is spread: it has members and, with the fixed row gap, would
/// reach less far down than `previous`.
pub open spec fn is_spread(scene: Seq<Visual>, column: Seq<usize>, previous: nat) -> bool {
    column.len() > 0 && previous > natural_extent(scene, column)
}

/// How far down `column` reaches when the column before it reaches
/// `previous`: as far as that one if it is spread, its natural extent if
/// not; a column without members reaches nowhere.
pub open spec fn extent_of(scene: Seq<Visual>, column: Seq<usize>, previous: nat) -> nat {
    if column.len() == 0 {
        0
    } else if previous > natural_extent(scene, column) {
        previous
    } else {
        natural_extent(scene, column)
    }
}

/// How far down the column before column `j` reaches; before the first
/// column stands the graph output.
pub open spec fn extent_before(scene: Seq<Visual>, columns: Seq<Vec<usize>>, j: int) -> nat
    decreases j,
{
    if j <= 0 {
        anchor_extent(scene)
    } else {
        extent_of(scene, columns[j - 1]@, extent_before(scene, columns, j - 1))
    }
}

/// Numerator of the gap of `column`: in a spread column, what the column
/// before reaches beyond the stacked bodies, to be shared by the members.
pub open spec fn gap_of(scene: Seq<Visual>, column: Seq<usize>, previous: nat) -> nat {
    if is_spread(scene, column, previous) {
        (previous - stacked(scene, column, column.len() as int)) as nat
    } else {
        ROW_GAP as nat
    }
}

/// Denominator of the gap of `column`.
pub open spec fn shares_of(scene: Seq<Visual>, column: Seq<usize>, previous: nat) -> nat {
    if is_spread(scene, column, previous) {
        column.len()
    } else {
        1
    }
}

/// `placed` is column `j` with its places, `column` being its members and
/// `previous` the extent of the column before it.
pub open spec fn is_placed_column(
    scene: Seq<Visual>,
    column: Seq<usize>,
    j: int,
    previous: nat,
    placed: PlacedColumn,
) -> bool {
    &&& placed.left == COLUMN_WIDTH as nat * (j + 1)
    &&& placed.gap == gap_of(scene, column, previous)
    &&& placed.shares == shares_of(scene, column, previous)
    &&& placed.extent == extent_of(scene, column, previous)
    &&& placed.slots@.len() == column.len()
    &&& forall|i: int|
        0 <= i < column.len() ==> (#[trigger] placed.slots@[i]) == (Slot {
            handle: column[i],
            height: body_height(scene, column[i] as int) as u128,
            above: stacked(scene, column, i) as u128,
        })
}

/// Every column's natural extent can be held in a `u128`.
pub open spec fn fits(scene: Seq<Visual>, columns: Seq<Vec<usize>>) -> bool {
    forall|j: int| 0 <= j < columns.len() ==> natural_extent(scene, (#[trigger] columns[j])@) <= u128::MAX
}

/// The stacked heights grow with the number of members.
pub proof fn lemma_stacked_grows(scene: Seq<Visual>, column: Seq<usize>, i: int, j: int)
    requires
        i <= j,
    ensures
        stacked(scene, column, i) <= stacked(scene, column, j),
    decreases j - i,
{
    if i < j {
        lemma_stacked_grows(scene, column, i, j - 1);
    }
}

/// No column reaches farther down than the largest natural extent allows:
/// where the columns fit, every extent can be held in a `u128`.
pub proof fn lemma_extent_fits(scene: Seq<Visual>, columns: Seq<Vec<usize>>, j: int)
    requires
        fits(scene, columns),
        0 <= j <= columns.len(),
    ensures
        extent_before(scene, columns, j) <= u128::MAX,
    decreases j,
{
    if j > 0 {
        lemma_extent_fits(scene, columns, j - 1);
        assert(natural_extent(scene, columns[j - 1]@) <= u128::MAX);
    } else {
        assert(ROW_HEIGHT == 15);
        if has_graph_output(scene) {
            let outputs = scene[choose|h: int| is_graph_output(scene, h)]->GraphOutput_0.num_outputs;
            assert(rows_of(outputs as nat, outputs as nat) <= usize::MAX);
        }
    }
}

/// A spread column reaches exactly as far down as the column before it: the
/// stacked bodies and one gap after each member add up to that extent.
pub proof fn lemma_spread_matches_previous(scene: Seq<Visual>, column: Seq<usize>, previous: nat)
    requires
        is_spread(scene, column, previous),
    ensures
        stacked(scene, column, column.len() as int) * shares_of(scene, column, previous)
            + column.len() * gap_of(scene, column, previous) == previous * shares_of(
            scene,
            column,
            previous,
        ),
        extent_of(scene, column, previous) == previous,
{
    let n = column.len();
    let h = stacked(scene, column, n as int);
    assert(h * n + n * ((previous - h) as nat) == previous * n) by (nonlinear_arith)
        requires
            h <= previous,
    ;
}

/// No gap is narrower than the fixed row gap.
pub proof fn lemma_gap_at_least_row_gap(scene: Seq<Visual>, column: Seq<usize>, previous: nat)
    ensures
        gap_of(scene, column, previous) >= ROW_GAP as nat * shares_of(scene, column, previous),
        shares_of(scene, column, previous) > 0,
{
}

/// Columns with members keep the layout aligned: none reaches less far down
/// than the column before it.
pub proof fn lemma_extent_never_shrinks(scene: Seq<Visual>, column: Seq<usize>, previous: nat)
    requires
        column.len() > 0,
    ensures
        extent_of(scene, column, previous) >= previous,
        extent_of(scene, column, previous) >= natural_extent(scene, column),
{
}

impl Scene {
    /// Height of the body of the entity with handle `h`.
    pub fn body_height_of(&self, h: usize) -> (height: u128)
        ensures
            height == body_height(self@, h as int),
    {
        match self.get(h) {
            Some(Visual::Node(n)) => node_height(n.num_inputs, n.num_outputs),
            _ => 0,
        }
    }

    /// How far down the graph output reaches.
    pub fn anchor_extent_of(&self) -> (extent: u128)
        ensures
            extent == anchor_extent(self@),
    {
        match self.graph_output() {
            Some(h) => {
                match self.get(h) {
                    Some(Visual::GraphOutput(output)) => {
                        proof {
                            let chosen = choose|g: int| is_graph_output(self@, g);
                            assert(chosen == h);
                        }
                        node_height(output.num_outputs, output.num_outputs)
                    },
                    _ => 0,
                }
            },
            None => 0,
        }
    }

    /// Places one column: `column` are its members, `j` its position among
    /// the columns and `previous` the extent of the column before it.
    /// Returns `None` if the column's natural extent cannot be held.
    pub fn place_column(&self, column: &Vec<usize>, j: usize, previous: u128) -> (placed: Option<
        PlacedColumn,
    >)
        ensures
            match placed {
                Some(p) => {
                    &&& natural_extent(self@, column@) <= u128::MAX
                    &&& is_placed_column(self@, column@, j as int, previous as nat, p)
                },
                None => natural_extent(self@, column@) > u128::MAX,
            },
    {
        let n = column.len();
        let mut slots: Vec<Slot> = Vec::new();
        let mut total: u128 = 0;
        let mut i: usize = 0;
        while i < n
            invariant
                i <= n,
                n == column@.len(),
                total == stacked(self@, column@, i as int),
                slots@.len() == i,
                forall|l: int|
                    0 <= l < i ==> (#[trigger] slots@[l]) == (Slot {
                        handle: column@[l],
                        height: body_height(self@, column@[l] as int) as u128,
                        above: stacked(self@, column@, l) as u128,
                    }),
            decreases n - i,
        {
            let handle = column[i];
            let height = self.body_height_of(handle);
            slots.push(Slot { handle, height, above: total });
            match total.checked_add(height) {
                Some(sum) => {
                    total = sum;
                },
                None => {
                    proof {
                        lemma_stacked_grows(self@, column@, i + 1, n as int);
                    }
                    return None;
                },
            }
            i += 1;
        }
        let row_gap: u128 = ROW_GAP as u128;
        let members: u128 = n as u128;
        assert(row_gap * members == 10 * members) by (nonlinear_arith)
            requires
                row_gap == 10,
        ;
        let gaps: u128 = row_gap * members;
        let natural = match total.checked_add(gaps) {
            Some(sum) => sum,
            None => {
                return None;
            },
        };
        let left: u128 = column_offset(j) + (COLUMN_WIDTH as u128);
        assert(left == COLUMN_WIDTH as nat * (j + 1)) by (nonlinear_arith)
            requires
                left == COLUMN_WIDTH * j + COLUMN_WIDTH,
        ;
        let placed = if n > 0 && previous > natural {
            PlacedColumn { left, gap: previous - total, shares: members, extent: previous, slots }
        } else {
            PlacedColumn {
                left,
                gap: row_gap,
                shares: 1,
                extent: if n == 0 {
                    0
                } else {
                    natural
                },
                slots,
            }
        };
        Some(placed)
    }

    /// Places the members of `columns`, the first column next to the graph
    /// output. Returns `None` if the natural extent of a column cannot be
    /// held.
    pub fn place_columns(&self, columns: &Vec<Vec<usize>>) -> (placed: Option<Vec<PlacedColumn>>)
        ensures
            match placed {
                Some(p) => {
                    &&& fits(self@, columns@)
                    &&& p@.len() == columns@.len()
                    &&& forall|j: int|
                        0 <= j < columns@.len() ==> is_placed_column(
                            self@,
                            columns@[j]@,
                            j,
                            extent_before(self@, columns@, j),
                            #[trigger] p@[j],
                        )
                },
                None => !fits(self@, columns@),
            },
    {
        let mut placed: Vec<PlacedColumn> = Vec::new();
        let mut previous: u128 = self.anchor_extent_of();
        let mut j: usize = 0;
        while j < columns.len()
            invariant
                j <= columns@.len(),
                previous == extent_before(self@, columns@, j as int),
                placed@.len() == j,
                forall|l: int| 0 <= l < j ==> natural_extent(self@, (#[trigger] columns@[l])@) <= u128::MAX,
                forall|l: int|
                    0 <= l < j ==> is_placed_column(
                        self@,
                        columns@[l]@,
                        l,
                        extent_before(self@, columns@, l),
                        #[trigger] placed@[l],
                    ),
            decreases columns@.len() - j,
        {
            match self.place_column(&columns[j], j, previous) {
                Some(column) => {
                    previous = column.extent;
                    placed.push(column);
                },
                None => {
                    return None;
                },
            }
            j += 1;
        }
        Some(placed)
    }
}

} // verus!
