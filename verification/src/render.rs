//! The renderer: computes the exact screen layout for the current
//! state as a pure function, leaving the drawing to the caller.
//!
//! Rows are filled bottom-up: the screen row just above the pattern
//! line shows the best-ranked visible match, and worse matches stack
//! upward from it.

use vstd::prelude::*;
use vstd::string::*;
use crate::rank::views_of;
use crate::selection::{is_selected, sel_contains};
use crate::viewport::Viewport;

verus! {

/// One screen row of the match area: which candidate it shows, where,
/// and with which indicators.
#[derive(Clone, Copy, PartialEq, Eq, Structural, Debug)]
pub struct RowPlan {
    /// Screen row, counted from the top of the screen.
    pub y: u16,
    /// Index of the candidate shown on this row.
    pub idx: usize,
    /// Whether the selection marker stands beside the text.
    pub selected: bool,
    /// Whether the text overflows the width and ends in the
    /// two-character overflow mark at the right edge.
    pub truncated: bool,
}

/// The complete screen layout for one full redraw.
pub struct RenderPlan {
    /// The visible match rows, best-ranked (bottom-most) first.
    pub rows: Vec<RowPlan>,
    /// Screen row of the position indicator; absent when no match is
    /// listed.
    pub marker_y: Option<u16>,
    /// Screen row of the pattern line.
    pub pattern_row: u16,
    /// Column of the terminal cursor on the pattern line: the
    /// pattern's character count.
    pub cursor_col: usize,
}

/// How many match rows are shown: the tail of the list from `offset`,
/// capped by the row budget (the budget, plus the bottom row itself).
pub open spec fn shown_rows(match_count: int, offset: int, visible_rows: int) -> int {
    if match_count - offset < visible_rows + 1 {
        match_count - offset
    } else {
        visible_rows + 1
    }
}

/// Compute the layout of the whole screen.
///
/// Row `i` of the result (0 = bottom-most match row, growing upward)
/// shows candidate `matches[offset + i]`, marked when selected, cut
/// short when wider than the text area; the position indicator sits on
/// the cursor's row and the pattern line fills the last screen row.
pub fn layout(
    cands: &Vec<String>,
    matches: &Vec<usize>,
    vp: &Viewport,
    selected: &Vec<String>,
    pattern: &Vec<char>,
    width: u16,
    height: u16,
) -> (plan: RenderPlan)
    requires
        height >= 3,
        width >= 2,
        vp.visible_rows + 2 == height,
        vp.in_list(matches@.len() as int),
        vp.fits(),
        forall|k: int| 0 <= k < matches@.len() ==> (#[trigger] matches@[k] as int) < cands@.len(),
    ensures
        plan.rows@.len() == shown_rows(
            matches@.len() as int,
            vp.offset as int,
            vp.visible_rows as int,
        ),
        forall|i: int|
            0 <= i < plan.rows@.len() ==> {
                let idx = matches@[vp.offset + i];
                &&& (#[trigger] plan.rows@[i]).idx == idx
                &&& plan.rows@[i].y as int == vp.visible_rows - i
                &&& plan.rows@[i].selected == sel_contains(
                    views_of(selected@),
                    cands@[idx as int]@,
                )
                &&& plan.rows@[i].truncated == (cands@[idx as int]@.len() > width - 2)
            },
        matches@.len() == 0 ==> plan.marker_y is None,
        matches@.len() > 0 ==> plan.marker_y == Some((vp.visible_rows - vp.index) as u16),
        plan.pattern_row == height - 1,
        plan.cursor_col == pattern@.len(),
{
    let max_rows: usize = vp.visible_rows;
    let count = matches.len();
    let avail: usize = count - vp.offset;
    let n: usize = if avail < max_rows + 1 {
        avail
    } else {
        max_rows + 1
    };
    let mut rows: Vec<RowPlan> = Vec::new();
    let mut i: usize = 0;
    while i < n
        invariant
            i <= n,
            n == shown_rows(matches@.len() as int, vp.offset as int, vp.visible_rows as int),
            vp.offset + n <= matches@.len(),
            matches@.len() <= usize::MAX,
            max_rows == vp.visible_rows,
            max_rows + 2 == height,
            width >= 2,
            vp.in_list(matches@.len() as int),
            forall|k: int| 0 <= k < matches@.len() ==> (#[trigger] matches@[k] as int) < cands@.len(),
            rows@.len() == i,
            forall|j: int|
                0 <= j < i ==> {
                    let idx = matches@[vp.offset + j];
                    &&& (#[trigger] rows@[j]).idx == idx
                    &&& rows@[j].y as int == vp.visible_rows - j
                    &&& rows@[j].selected == sel_contains(
                        views_of(selected@),
                        cands@[idx as int]@,
                    )
                    &&& rows@[j].truncated == (cands@[idx as int]@.len() > width - 2)
                },
        decreases n - i,
    {
        let idx = matches[vp.offset + i];
        let item = &cands[idx];
        let marked = is_selected(selected, item);
        let truncated = item.as_str().unicode_len() > (width as usize) - 2;
        rows.push(RowPlan { y: (max_rows - i) as u16, idx, selected: marked, truncated });
        i = i + 1;
    }
    let marker_y: Option<u16> = if count > 0 {
        Some((max_rows - vp.index) as u16)
    } else {
        None
    };
    RenderPlan { rows, marker_y, pattern_row: height - 1, cursor_col: pattern.len() }
}

} // verus!
