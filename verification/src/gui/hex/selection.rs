//! Handles selection related things.

use vstd::prelude::*;

verus! {

/// Contains the necessary context to manage selections in the hex view.
///
/// A selection runs from the byte where it was started to the byte last hovered while
/// selecting; either end may be the lower one.
#[derive(Clone, Copy)]
pub struct SelectionContext {
    /// The selected bytes as absolute offsets, from where the selection started to where it
    /// ends.
    selection: Option<(u64, u64)>,
    /// The previous selection.
    prev_selection: Option<(u64, u64)>,
    /// Whether or not the user is currently selecting bytes.
    selecting: bool,
}

impl SelectionContext {
    /// The selection, from where it started to where it ends.
    pub closed spec fn spec_selection(&self) -> Option<(u64, u64)> {
        self.selection
    }

    /// The selection that was replaced by the running one.
    pub closed spec fn spec_prev_selection(&self) -> Option<(u64, u64)> {
        self.prev_selection
    }

    /// Whether the user is currently selecting bytes.
    pub closed spec fn spec_selecting(&self) -> bool {
        self.selecting
    }

    /// The selection from its lower to its upper end.
    pub open spec fn spec_normalized(&self) -> Option<(u64, u64)> {
        match self.spec_selection() {
            Some((start, end)) => if start <= end {
                Some((start, end))
            } else {
                Some((end, start))
            },
            None => None,
        }
    }

    /// The context after the pointer was observed with the primary button down or up: a
    /// running selection ends when the button is up, and a single-byte selection that merely
    /// repeats the previous one is then dropped, so that clicking a selected byte deselects it.
    pub closed spec fn after_pointer(self, primary_down: bool) -> SelectionContext {
        if self.spec_selecting() && !primary_down {
            let drop = match self.spec_selection() {
                Some((start, end)) => start == end && self.spec_selection()
                    == self.spec_prev_selection(),
                None => false,
            };
            SelectionContext {
                selection: if drop {
                    None
                } else {
                    self.spec_selection()
                },
                prev_selection: self.spec_prev_selection(),
                selecting: false,
            }
        } else {
            self
        }
    }

    /// The context after a byte reported whether it is hovered during a running selection and
    /// whether the primary button was pressed on it: hovering moves the end of a running
    /// selection there, pressing starts a new selection there.
    pub closed spec fn after_event(
        self,
        hovered_while_selecting: bool,
        pressed_here: bool,
        byte_offset: u64,
    ) -> SelectionContext {
        if self.spec_selecting() && hovered_while_selecting {
            SelectionContext {
                selection: Some((self.spec_selection().unwrap().0, byte_offset)),
                prev_selection: self.spec_prev_selection(),
                selecting: true,
            }
        } else if pressed_here {
            SelectionContext {
                selection: Some((byte_offset, byte_offset)),
                prev_selection: self.spec_selection(),
                selecting: true,
            }
        } else {
            self
        }
    }

    /// A running selection always has a start.
    pub closed spec fn wf(&self) -> bool {
        self.selecting ==> self.selection is Some
    }

    /// Creates a new selection context.
    pub fn new() -> (r: SelectionContext)
        ensures
            r.wf(),
            r.spec_selection() is None,
            r.spec_prev_selection() is None,
            !r.spec_selecting(),
    {
        SelectionContext { selection: None, prev_selection: None, selecting: false }
    }

    /// Checks if the selection process should end, given whether the primary pointer button is
    /// still down.
    pub fn check_for_selection_process_end(&mut self, primary_down: bool)
        ensures
            *final(self) == old(self).after_pointer(primary_down),
            old(self).wf() ==> final(self).wf(),
            !old(self).spec_selecting() || primary_down ==> *final(self) == *old(self),
            old(self).spec_selecting() && !primary_down ==> !final(self).spec_selecting()
                && final(self).spec_prev_selection() == old(self).spec_prev_selection(),
            old(self).spec_selection() matches Some((start, end)) && start != end
                ==> final(self).spec_selection() == old(self).spec_selection(),
            old(self).spec_selection() != old(self).spec_prev_selection()
                ==> final(self).spec_selection() == old(self).spec_selection(),
            final(self).spec_selection() != old(self).spec_selection() ==> {
                &&& final(self).spec_selection() is None
                &&& old(self).spec_selecting()
                &&& !primary_down
                &&& old(self).spec_selection() == old(self).spec_prev_selection()
                &&& old(self).spec_selection() matches Some((start, end)) && start == end
            },
    {
        if self.selecting && !primary_down {
            self.selecting = false;
            let repeated = match (self.selection, self.prev_selection) {
                (Some((start, end)), Some((prev_start, prev_end))) => start == end && start
                    == prev_start && end == prev_end,
                _ => false,
            };
            if repeated {
                self.selection = None;
            }
        }
    }

    /// Handles a possible selection event at the given byte offset: whether the pointer hovers
    /// the byte during a running selection, and whether the primary button was pressed on it.
    pub fn handle_selection(&mut self, hovered_while_selecting: bool, pressed_here: bool, byte_offset: u64)
        requires
            old(self).wf(),
        ensures
            final(self).wf(),
            *final(self) == old(self).after_event(hovered_while_selecting, pressed_here, byte_offset),
            old(self).spec_selecting() && hovered_while_selecting ==> {
                &&& final(self).spec_selection() == Some((old(self).spec_selection().unwrap().0, byte_offset))
                &&& final(self).spec_prev_selection() == old(self).spec_prev_selection()
                &&& final(self).spec_selecting()
            },
            !(old(self).spec_selecting() && hovered_while_selecting) && pressed_here ==> {
                &&& final(self).spec_selection() == Some((byte_offset, byte_offset))
                &&& final(self).spec_prev_selection() == old(self).spec_selection()
                &&& final(self).spec_selecting()
            },
            !(old(self).spec_selecting() && hovered_while_selecting) && !pressed_here ==> *final(self)
                == *old(self),
    {
        if self.selecting && hovered_while_selecting {
            let start = match self.selection {
                Some((start, _)) => start,
                None => byte_offset,  // unreachable: a running selection has a start
            };
            self.selection = Some((start, byte_offset));
        } else if pressed_here {
            self.selecting = true;
            self.prev_selection = self.selection;
            self.selection = Some((byte_offset, byte_offset));
        }
    }

    /// Returns the current selection, from its lower to its upper end.
    pub fn selection(&self) -> (r: Option<(u64, u64)>)
        ensures
            r == self.spec_normalized(),
            r is None <==> self.spec_selection() is None,
            r matches Some((low, high)) ==> low <= high && (self.spec_selection() matches Some((a, b))
                && ((low == a && high == b) || (low == b && high == a))),
    {
        match self.selection {
            Some((start, end)) => if start <= end {
                Some((start, end))
            } else {
                Some((end, start))
            },
            None => None,
        }
    }
}

/// Ending a selection keeps it unless it is a single byte that repeats the previous selection:
/// a selection of several bytes, or one that differs from the previous, survives the release of
/// the button.
pub proof fn lemma_release_keeps_selection(ctx: SelectionContext)
    ensures
        ctx.spec_selection() matches Some((start, end)) && start != end
            ==> ctx.after_pointer(false).spec_selection() == ctx.spec_selection(),
        ctx.spec_selection() != ctx.spec_prev_selection() ==> ctx.after_pointer(false).spec_selection()
            == ctx.spec_selection(),
        !ctx.after_pointer(false).spec_selecting(),
{
}

/// Selecting the bytes from `a` to `b` by pressing on `a`, moving to `b` and releasing selects
/// them, unless it is a click on the one byte that was selected before, which deselects it.
/// Doing the same again keeps a selection of several bytes, and deselects a single byte.
pub proof fn lemma_repeated_selection(ctx: SelectionContext, a: u64, b: u64)
    requires
        ctx.wf(),
    ensures
        ({
            let once = ctx.after_event(false, true, a).after_event(true, false, b).after_pointer(false);
            let twice = once.after_event(false, true, a).after_event(true, false, b).after_pointer(false);
            &&& a != b ==> once.spec_selection() == Some((a, b))
            &&& a == b ==> (once.spec_selection() is None <==> ctx.spec_selection() == Some((a, a)))
            &&& once.spec_selection() is Some ==> once.spec_selection() == Some((a, b))
            &&& a != b ==> twice.spec_selection() == Some((a, b))
            &&& a == b && once.spec_selection() is Some ==> twice.spec_selection() is None
            &&& !twice.spec_selecting()
        }),
{
}

} // verus!
