//! Selection and scroll position of a list popup.
use vstd::prelude::*;

verus! {

/// Selection cursor and first visible row of a list popup.
#[derive(Debug, Clone, Copy, PartialEq, Eq)]
pub struct ScrollState {
    pub selected_idx: Option<usize>,
    pub scroll_top: usize,
}

/// The selection after clamping it into a list of `len` rows.
pub open spec fn clamped_selection(sel: Option<usize>, len: usize) -> Option<usize> {
    if len == 0 {
        None
    } else {
        match sel {
            Some(i) => Some(if i < len { i } else { (len - 1) as usize }),
            None => Some(0),
        }
    }
}

/// The selection after one wrapping step up in a list of `len` rows.
pub open spec fn selection_up(sel: Option<usize>, len: usize) -> Option<usize> {
    if len == 0 {
        None
    } else {
        match sel {
            Some(i) => Some(if i > 0 { (i - 1) as usize } else { (len - 1) as usize }),
            None => Some(0),
        }
    }
}

/// The selection after one wrapping step down in a list of `len` rows.
pub open spec fn selection_down(sel: Option<usize>, len: usize) -> Option<usize> {
    if len == 0 {
        None
    } else {
        match sel {
            Some(i) => Some(if i + 1 < len { (i + 1) as usize } else { 0 }),
            None => Some(0),
        }
    }
}

/// The first visible row once `sel` is scrolled into a window of
/// `visible_rows` rows over a list of `len` rows.
pub open spec fn visible_top(top: usize, sel: Option<usize>, len: usize, visible_rows: usize) -> usize {
    if len == 0 || visible_rows == 0 {
        0
    } else {
        match sel {
            Some(s) => if s < top {
                s
            } else if s >= top + visible_rows {
                (s + 1 - visible_rows) as usize
            } else {
                top
            },
            None => 0,
        }
    }
}

impl ScrollState {
    /// No selection, scrolled to the top.
    pub fn new() -> (r: Self)
        ensures
            r.selected_idx is None,
            r.scroll_top == 0,
    {
        ScrollState { selected_idx: None, scroll_top: 0 }
    }

    /// Clamp the selection into a list of `len` rows: no selection for an
    /// empty list, the first row where nothing was selected, the last row
    /// where the selection lies past the end.
    pub fn clamp_selection(&mut self, len: usize)
        ensures
            final(self).selected_idx == clamped_selection(old(self).selected_idx, len),
            final(self).scroll_top == if len == 0 {
                0
            } else {
                old(self).scroll_top
            },
    {
        if len == 0 {
            self.selected_idx = None;
            self.scroll_top = 0;
        } else {
            let cur: usize = match self.selected_idx {
                Some(i) => i,
                None => 0,
            };
            let last: usize = len - 1;
            self.selected_idx = Some(if cur < last { cur } else { last });
        }
    }

    /// Move the selection one row up, wrapping from the first row to the last.
    pub fn move_up_wrap(&mut self, len: usize)
        ensures
            final(self).selected_idx == selection_up(old(self).selected_idx, len),
            final(self).scroll_top == if len == 0 {
                0
            } else {
                old(self).scroll_top
            },
    {
        if len == 0 {
            self.selected_idx = None;
            self.scroll_top = 0;
            return;
        }
        self.selected_idx = Some(
            match self.selected_idx {
                Some(idx) => if idx > 0 {
                    idx - 1
                } else {
                    len - 1
                },
                None => 0,
            },
        );
    }

    /// Move the selection one row down, wrapping from the last row to the first.
    pub fn move_down_wrap(&mut self, len: usize)
        ensures
            final(self).selected_idx == selection_down(old(self).selected_idx, len),
            final(self).scroll_top == if len == 0 {
                0
            } else {
                old(self).scroll_top
            },
    {
        if len == 0 {
            self.selected_idx = None;
            self.scroll_top = 0;
            return;
        }
        self.selected_idx = Some(
            match self.selected_idx {
                Some(idx) => if idx < len - 1 {
                    idx + 1
                } else {
                    0
                },
                None => 0,
            },
        );
    }

    /// Scroll so that the selected row lies within a window of `visible_rows`
    /// rows; the selection itself is unchanged.
    pub fn ensure_visible(&mut self, len: usize, visible_rows: usize)
        ensures
            final(self).selected_idx == old(self).selected_idx,
            final(self).scroll_top == visible_top(
                old(self).scroll_top,
                old(self).selected_idx,
                len,
                visible_rows,
            ),
    {
        if len == 0 || visible_rows == 0 {
            self.scroll_top = 0;
            return;
        }
        match self.selected_idx {
            Some(sel) => {
                if sel < self.scroll_top {
                    self.scroll_top = sel;
                } else if sel - self.scroll_top >= visible_rows {
                    self.scroll_top = sel - visible_rows + 1;
                }
            },
            None => {
                self.scroll_top = 0;
            },
        }
    }
}

/// After clamping into a non-empty list, the selection is a row of the list.
pub proof fn lemma_clamp_selects_a_row(sel: Option<usize>, len: usize)
    requires
        len > 0,
    ensures
        clamped_selection(sel, len) matches Some(i) && i < len,
{
}

/// Clamping a selection that already lies within the list leaves it as it is.
pub proof fn lemma_clamp_keeps_a_valid_selection(i: usize, len: usize)
    requires
        i < len,
    ensures
        clamped_selection(Some(i), len) == Some(i),
{
}

/// Both wrapping moves keep a selection within a non-empty list.
pub proof fn lemma_moves_stay_in_range(sel: Option<usize>, len: usize)
    requires
        len > 0,
        sel matches Some(i) ==> i < len,
    ensures
        selection_up(sel, len) matches Some(i) && i < len,
        selection_down(sel, len) matches Some(i) && i < len,
{
}

/// One step down then one step up returns to the row that was selected.
pub proof fn lemma_down_then_up_restores(i: usize, len: usize)
    requires
        i < len,
    ensures
        selection_up(selection_down(Some(i), len), len) == Some(i),
{
}

/// One step up then one step down returns to the row that was selected.
pub proof fn lemma_up_then_down_restores(i: usize, len: usize)
    requires
        i < len,
    ensures
        selection_down(selection_up(Some(i), len), len) == Some(i),
{
}

/// After scrolling, the selected row lies within the visible window.
pub proof fn lemma_visible_window_contains_selection(
    top: usize,
    s: usize,
    len: usize,
    visible_rows: usize,
)
    requires
        len > 0,
        visible_rows > 0,
    ensures
        visible_top(top, Some(s), len, visible_rows) <= s,
        s < visible_top(top, Some(s), len, visible_rows) + visible_rows,
{
}

/// Clamping selects the first row where nothing was selected, and the last
/// row where the selection lay past the end.
pub proof fn lemma_clamp_picks_nearest_row(i: usize, len: usize)
    requires
        len > 0,
    ensures
        clamped_selection(None, len) == Some(0usize),
        i >= len ==> clamped_selection(Some(i), len) == Some((len - 1) as usize),
        clamped_selection(Some(i), 0) is None,
{
}

/// A step down selects the next row, wrapping from the last row to the
/// first; a step up selects the previous row, wrapping from the first row
/// to the last.
pub proof fn lemma_steps_move_one_row(i: usize, len: usize)
    requires
        i < len,
    ensures
        i + 1 < len ==> selection_down(Some(i), len) == Some((i + 1) as usize),
        i + 1 == len ==> selection_down(Some(i), len) == Some(0usize),
        i > 0 ==> selection_up(Some(i), len) == Some((i - 1) as usize),
        i == 0 ==> selection_up(Some(i), len) == Some((len - 1) as usize),
{
}

/// Scrolling moves the window as little as it can: it stays where the
/// selected row is visible, starts at the row when the row lies above, and
/// ends at the row when the row lies below.
pub proof fn lemma_scroll_is_minimal(top: usize, s: usize, len: usize, visible_rows: usize)
    requires
        len > 0,
        visible_rows > 0,
    ensures
        top <= s < top + visible_rows ==> visible_top(top, Some(s), len, visible_rows) == top,
        s < top ==> visible_top(top, Some(s), len, visible_rows) == s,
        s >= top + visible_rows ==> visible_top(top, Some(s), len, visible_rows) + visible_rows
            == s + 1,
{
}

} // verus!
