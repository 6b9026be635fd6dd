//! The scrollable viewport over the ranked match list.
//!
//! The match list is rendered bottom-up: the best-ranked match sits on
//! the bottom row and worse matches stack upward, so moving "up" walks
//! toward worse-ranked matches and may scroll the window.

use vstd::prelude::*;

verus! {

/// The number of match rows the terminal offers above the bottom one:
/// the height, less the pattern line and one edge row, and always
/// positive.
pub open spec fn vr_of(height: u16) -> usize {
    if height >= 3 {
        (height - 2) as usize
    } else {
        1
    }
}

/// Executable form of `vr_of`.
pub fn visible_rows_for(height: u16) -> (r: usize)
    ensures
        r == vr_of(height),
{
    if height >= 3 {
        (height - 2) as usize
    } else {
        1
    }
}

/// The scrollable window over the match list: `offset` is the position
/// of the bottom visible row within the list, `index` the cursor's
/// visible position upward from that row, and `visible_rows` the row
/// budget above the bottom row.
#[derive(Clone, Copy, PartialEq, Eq, Structural, Debug)]
pub struct Viewport {
    pub offset: usize,
    pub index: usize,
    pub visible_rows: usize,
}

impl Viewport {
    /// The cursor stays inside the match list: on an empty list it
    /// rests at the origin, otherwise `offset + index` names a valid
    /// position.
    pub open spec fn in_list(self, match_count: int) -> bool {
        if match_count == 0 {
            self.offset == 0 && self.index == 0
        } else {
            self.offset + self.index < match_count
        }
    }

    /// The cursor also stays inside the visible frame.
    pub open spec fn fits(self) -> bool {
        self.index <= self.visible_rows
    }

    /// What moving up does: nothing at the list's last position or on an
    /// empty list; otherwise the cursor climbs while the frame allows,
    /// and the window scrolls after that.
    pub open spec fn spec_move_up(self, match_count: int) -> Viewport {
        if match_count > 0 && self.offset + self.index < match_count - 1 {
            if self.index < self.visible_rows {
                Viewport { index: (self.index + 1) as usize, ..self }
            } else {
                Viewport { offset: (self.offset + 1) as usize, ..self }
            }
        } else {
            self
        }
    }

    /// What moving down does: nothing at position zero; otherwise the
    /// cursor descends while it can, and the window scrolls after that.
    pub open spec fn spec_move_down(self, match_count: int) -> Viewport {
        if match_count > 0 && self.offset + self.index > 0 {
            if self.index > 0 {
                Viewport { index: (self.index - 1) as usize, ..self }
            } else {
                Viewport { offset: (self.offset - 1) as usize, ..self }
            }
        } else {
            self
        }
    }

    /// What a recomputed match list does to the window: scroll back to
    /// the best-ranked end, and clamp the cursor into the new list.
    pub open spec fn spec_reset(self, match_count: int) -> Viewport {
        Viewport {
            offset: 0,
            index: if match_count == 0 {
                0
            } else if (self.index as int) < match_count {
                self.index
            } else {
                (match_count - 1) as usize
            },
            ..self
        }
    }

    /// Move the cursor one row up, toward worse-ranked matches.
    ///
    /// At the last position (`offset + index == match_count - 1`), and
    /// on an empty list, this is a no-op.
    pub fn move_up(&mut self, match_count: usize)
        requires
            old(self).in_list(match_count as int),
        ensures
            *final(self) == old(self).spec_move_up(match_count as int),
            final(self).in_list(match_count as int),
            final(self).visible_rows == old(self).visible_rows,
            old(self).fits() ==> final(self).fits(),
            match_count == 0 || old(self).offset + old(self).index == match_count - 1
                ==> *final(self) == *old(self),
    {
        if match_count > 0 && self.offset + self.index < match_count - 1 {
            if self.index < self.visible_rows {
                self.index = self.index + 1;
            } else {
                self.offset = self.offset + 1;
            }
        }
    }

    /// Move the cursor one row down, toward better-ranked matches.
    ///
    /// At position zero, and on an empty list, this is a no-op.
    pub fn move_down(&mut self, match_count: usize)
        requires
            old(self).in_list(match_count as int),
        ensures
            *final(self) == old(self).spec_move_down(match_count as int),
            final(self).in_list(match_count as int),
            final(self).visible_rows == old(self).visible_rows,
            old(self).fits() ==> final(self).fits(),
            old(self).offset + old(self).index == 0 ==> *final(self) == *old(self),
    {
        if match_count > 0 && self.offset + self.index > 0 {
            if self.index > 0 {
                self.index = self.index - 1;
            } else {
                self.offset = self.offset - 1;
            }
        }
    }

    /// Adopt a recomputed match list of `match_count` entries.
    pub fn reset_for_new_matches(&mut self, match_count: usize)
        ensures
            *final(self) == old(self).spec_reset(match_count as int),
            final(self).in_list(match_count as int),
            final(self).visible_rows == old(self).visible_rows,
            old(self).fits() ==> final(self).fits(),
    {
        self.offset = 0;
        if match_count == 0 {
            self.index = 0;
        } else if self.index >= match_count {
            self.index = match_count - 1;
        }
    }
}

} // verus!
