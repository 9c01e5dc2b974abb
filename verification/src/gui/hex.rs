//! The state of the hexdump view.

pub mod selection;

use vstd::prelude::*;

use crate::gui::hex::selection::SelectionContext;

verus! {

/// The number of bytes in a row of the hexdump.
pub const ROW_LEN: u64 = 16;

/// A hexdump viewer widget.
///
/// Contains the context necessary to render a hexdump.
pub struct HexdumpView {
    /// The number of rows that have been scrolled down from the start offset.
    scroll_offset: u64,
    /// The selection context of the hexview.
    selection_context: SelectionContext,
}

/// The number of rows that the view can be scrolled down over `window_len` bytes when
/// `rows_onscreen` rows are visible.
pub open spec fn spec_max_scroll(window_len: nat, rows_onscreen: u64) -> nat {
    let rows = (window_len + ROW_LEN - 1) / ROW_LEN as int;
    if rows > rows_onscreen {
        (rows - rows_onscreen) as nat
    } else {
        0
    }
}

/// Determines how many rows the view can at most scroll down.
pub fn max_scroll(window_len: usize, rows_onscreen: u64) -> (r: u64)
    ensures
        r == spec_max_scroll(window_len as nat, rows_onscreen),
        (r + rows_onscreen) * ROW_LEN >= window_len,
        r > 0 ==> (r - 1 + rows_onscreen) * ROW_LEN < window_len,
{
    let len = window_len as u64;
    let rows: u64 = len / ROW_LEN + if len % ROW_LEN != 0 {
        1
    } else {
        0
    };
    if rows > rows_onscreen {
        rows - rows_onscreen
    } else {
        0
    }
}

impl HexdumpView {
    #[verifier::type_invariant]
    spec fn inv(&self) -> bool {
        self.selection_context.wf()
    }

    /// The number of rows that have been scrolled down from the start offset.
    pub closed spec fn spec_scroll_offset(&self) -> u64 {
        self.scroll_offset
    }

    /// The selection context of the view.
    pub closed spec fn spec_selection_context(&self) -> SelectionContext {
        self.selection_context
    }

    /// Create a new hexdump context.
    pub fn new() -> (r: HexdumpView)
        ensures
            r.spec_scroll_offset() == 0,
            r.spec_selection_context().spec_selection() is None,
            !r.spec_selection_context().spec_selecting(),
    {
        HexdumpView { scroll_offset: 0, selection_context: SelectionContext::new() }
    }

    /// The number of rows that have been scrolled down from the start offset.
    pub fn scroll_offset(&self) -> (r: u64)
        ensures
            r == self.spec_scroll_offset(),
    {
        self.scroll_offset
    }

    /// Scrolls by the given number of rows, up for negative values, saturating at the ends of
    /// `u64`, and then no further than `max_scroll`.
    pub fn scroll_by(&mut self, scroll_delta: i64, max_scroll: u64)
        ensures
            final(self).spec_selection_context() == old(self).spec_selection_context(),
            final(self).spec_scroll_offset() == ({
                let moved = if scroll_delta < 0 {
                    if old(self).spec_scroll_offset() + scroll_delta < 0 {
                        0
                    } else {
                        old(self).spec_scroll_offset() + scroll_delta
                    }
                } else if old(self).spec_scroll_offset() + scroll_delta > u64::MAX {
                    u64::MAX as int
                } else {
                    old(self).spec_scroll_offset() + scroll_delta
                };
                if moved > max_scroll {
                    max_scroll as int
                } else {
                    moved
                }
            }),
    {
        proof {
            use_type_invariant(&*self);
        }
        if scroll_delta < 0 {
            let up: u64 = if scroll_delta == i64::MIN {
                0x8000_0000_0000_0000
            } else {
                (-scroll_delta) as u64
            };
            self.scroll_offset = self.scroll_offset.saturating_sub(up);
        } else {
            self.scroll_offset = self.scroll_offset.saturating_add(scroll_delta as u64);
        }
        if self.scroll_offset > max_scroll {
            self.scroll_offset = max_scroll;
        }
    }

    /// Scrolls such that the given row of the sidebar is in the middle of the view, but no
    /// further than `max_scroll`.
    pub fn scroll_to_row(&mut self, row: u64, rows_onscreen: u64, max_scroll: u64)
        ensures
            final(self).spec_selection_context() == old(self).spec_selection_context(),
            final(self).spec_scroll_offset() == ({
                let centered = if row >= rows_onscreen / 2 {
                    row - rows_onscreen / 2
                } else {
                    0
                };
                if centered > max_scroll {
                    max_scroll as int
                } else {
                    centered
                }
            }),
    {
        proof {
            use_type_invariant(&*self);
        }
        self.scroll_offset = row.saturating_sub(rows_onscreen / 2);
        if self.scroll_offset > max_scroll {
            self.scroll_offset = max_scroll;
        }
    }

    /// The selection context of the view.
    pub fn selection_context(&self) -> (r: &SelectionContext)
        ensures
            *r == self.spec_selection_context(),
    {
        &self.selection_context
    }

    /// Ends a running selection once the primary pointer button is released.
    pub fn check_for_selection_process_end(&mut self, primary_down: bool)
        ensures
            final(self).spec_scroll_offset() == old(self).spec_scroll_offset(),
            final(self).spec_selection_context() == old(
                self,
            ).spec_selection_context().after_pointer(primary_down),
    {
        proof {
            use_type_invariant(&*self);
        }
        let mut context = self.selection_context;
        context.check_for_selection_process_end(primary_down);
        self.selection_context = context;
    }

    /// Handles a possible selection event at the given byte offset.
    pub fn handle_selection(&mut self, hovered_while_selecting: bool, pressed_here: bool, byte_offset: u64)
        ensures
            final(self).spec_scroll_offset() == old(self).spec_scroll_offset(),
            final(self).spec_selection_context() == old(self).spec_selection_context().after_event(
                hovered_while_selecting,
                pressed_here,
                byte_offset,
            ),
    {
        proof {
            use_type_invariant(&*self);
        }
        let mut context = self.selection_context;
        context.handle_selection(hovered_while_selecting, pressed_here, byte_offset);
        self.selection_context = context;
    }

    /// Returns the current selection, from its lower to its upper end.
    pub fn selection(&self) -> (r: Option<(u64, u64)>)
        ensures
            r == self.spec_selection_context().spec_normalized(),
    {
        self.selection_context.selection()
    }
}

} // verus!
