//! Heatmap presentation decisions: the order cells are laid out in the
//! 9×9 grid and the emphasis tier of each cell's share of all positions.

use vstd::prelude::*;

verus! {

/// The three emphasis tiers of a heatmap cell.
#[derive(Clone, Copy, PartialEq, Eq, Structural, Debug)]
pub enum Emphasis {
    High,
    Medium,
    Low,
}

/// A cell is emphasised high when its count is over 10% of all positions,
/// medium when over 5%, low otherwise; with no positions at all, low.
pub open spec fn emphasis_spec(count: u64, total: u64) -> Emphasis {
    if total > 0 && count * 10 > total {
        Emphasis::High
    } else if total > 0 && count * 20 > total {
        Emphasis::Medium
    } else {
        Emphasis::Low
    }
}

pub fn emphasis(count: u64, total: u64) -> (r: Emphasis)
    ensures
        r == emphasis_spec(count, total),
{
    if total > 0 && (count as u128) * 10 > total as u128 {
        Emphasis::High
    } else if total > 0 && (count as u128) * 20 > total as u128 {
        Emphasis::Medium
    } else {
        Emphasis::Low
    }
}

/// The board square shown in display cell `idx` of the 9×9 grid: the top
/// display row shows the highest rank, left to right.
pub fn display_cell_square(idx: usize) -> (sq: usize)
    requires
        idx < 81,
    ensures
        sq == (8 - idx / 9) * 9 + idx % 9,
        sq < 81,
{
    (8 - idx / 9) * 9 + idx % 9
}

} // verus!
