//! The terminal's own cursor, shown where a single caret stands.
use vstd::prelude::*;

verus! {

/// Where the terminal cursor goes, whether it is shown, and whether that
/// changed since it was last drawn.
pub struct TerminalCursor {
    pub x: u16,
    pub y: u16,
    pub cursor_showing: bool,
    pub render_cursor_showing: bool,
}

impl TerminalCursor {
    /// Moves the cursor to `position` and shows it.
    pub fn set_to(&mut self, position: (u16, u16))
        ensures
            final(self).x == position.0,
            final(self).y == position.1,
            final(self).cursor_showing,
            final(self).render_cursor_showing == (old(self).render_cursor_showing || !old(self).cursor_showing),
    {
        self.x = position.0;
        self.y = position.1;
        self.show();
    }

    /// Off screen and shown, with nothing to redraw.
    pub fn new() -> (r: Self)
        ensures
            r == (TerminalCursor { x: u16::MAX, y: u16::MAX, cursor_showing: true, render_cursor_showing: false }),
    {
        Self { x: u16::MAX, y: u16::MAX, cursor_showing: true, render_cursor_showing: false }
    }

    /// Hides the cursor, noting the change where it was shown.
    pub fn hide_cursor(&mut self)
        ensures
            old(self).cursor_showing ==> *final(self) == (TerminalCursor {
                cursor_showing: false,
                render_cursor_showing: true,
                ..*old(self)
            }),
            !old(self).cursor_showing ==> *final(self) == *old(self),
    {
        if self.cursor_showing {
            self.cursor_showing = false;
            self.render_cursor_showing = true;
        }
    }

    /// Shows the cursor, noting the change where it was hidden.
    pub fn show(&mut self)
        ensures
            !old(self).cursor_showing ==> *final(self) == (TerminalCursor {
                cursor_showing: true,
                render_cursor_showing: true,
                ..*old(self)
            }),
            old(self).cursor_showing ==> *final(self) == *old(self),
    {
        if !self.cursor_showing {
            self.cursor_showing = true;
            self.render_cursor_showing = true;
        }
    }
}

} // verus!
