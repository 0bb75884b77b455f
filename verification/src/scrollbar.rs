//! The horizontal and vertical scroll of a buffer's view.
use crate::content::Content;
use vstd::prelude::*;

verus! {

/// A rectangle of terminal cells.
#[derive(Debug, Clone, Copy, PartialEq, Eq)]
pub struct Rect {
    pub x: u16,
    pub y: u16,
    pub width: u16,
    pub height: u16,
}

impl Rect {
    /// The empty rectangle at the origin.
    pub fn default() -> (r: Rect)
        ensures
            r == (Rect { x: 0, y: 0, width: 0, height: 0 }),
    {
        Rect { x: 0, y: 0, width: 0, height: 0 }
    }

    /// Whether the cell (`col`, `row`) lies in the rectangle.
    pub fn contains(&self, col: u16, row: u16) -> (r: bool)
        ensures
            r == (self.x <= col < self.x + self.width && self.y <= row < self.y + self.height),
    {
        self.x <= col && (col as u32) < self.x as u32 + self.width as u32 && self.y <= row && (row as u32)
            < self.y as u32 + self.height as u32
    }
}

/// Columns of room shown past the longest line.
pub const WIDTH_GAP: usize = 20;
/// Lines of room shown past the last line.
pub const HEIGHT_GAP: usize = 10;

/// How far the view is scrolled: `position` columns to the right,
/// `top_position` lines down; `freeze` keeps it from following the cursor.
pub struct CustomScrollbar {
    pub position: u16,
    pub top_position: usize,
    pub freeze: bool,
}

impl CustomScrollbar {
    /// Not scrolled, following the cursor.
    pub fn new() -> (r: Self)
        ensures
            r.position == 0,
            r.top_position == 0,
            !r.freeze,
    {
        CustomScrollbar { position: 0, top_position: 0, freeze: false }
    }

    /// Scrolls `i` columns left, stopping at the first column.
    pub fn prev(&mut self, i: u16)
        ensures
            final(self).position == (if old(self).position >= i { old(self).position - i } else { 0 }),
            final(self).top_position == old(self).top_position,
            final(self).freeze == old(self).freeze,
    {
        self.position = self.position.saturating_sub(i);
    }

    /// Scrolls `i` columns right (it would overflow past `u16::MAX`).
    pub fn next(&mut self, i: u16)
        requires
            old(self).position + i <= u16::MAX,
        ensures
            final(self).position == old(self).position + i,
            final(self).top_position == old(self).top_position,
            final(self).freeze == old(self).freeze,
    {
        self.position = self.position + i;
    }

    /// Scrolls `i` lines up, stopping at the first line.
    pub fn prev_line(&mut self, i: usize)
        ensures
            final(self).top_position == (if old(self).top_position >= i { old(self).top_position - i } else { 0 }),
            final(self).position == old(self).position,
            final(self).freeze == old(self).freeze,
    {
        self.top_position = self.top_position.saturating_sub(i);
    }

    /// Scrolls `i` lines down (it would overflow past `usize::MAX`).
    pub fn next_line(&mut self, i: usize)
        requires
            old(self).top_position + i <= usize::MAX,
        ensures
            final(self).top_position == old(self).top_position + i,
            final(self).position == old(self).position,
            final(self).freeze == old(self).freeze,
    {
        self.top_position = self.top_position + i;
    }

    /// Keeps the scroll within the text: at most the longest line plus the gap,
    /// less the width of the view (the sum cut to 16 bits), and at most the
    /// line count plus the gap, less its height; zero where the view is wider
    /// or taller than that.
    pub fn validate_position(&mut self, content: &Content, content_area: Rect)
        requires
            content@.len() > 0,
            content@.len() + HEIGHT_GAP <= usize::MAX,
            forall|i: int| 0 <= i < content@.len() ==> #[trigger] content@[i].len() + WIDTH_GAP <= usize::MAX,
        ensures
            ({
                let m = (content.max_line_len_spec() + WIDTH_GAP) as u16;
                final(self).position == (if m >= content_area.width {
                    if old(self).position < m - content_area.width { old(self).position } else { (m - content_area.width) as u16 }
                } else {
                    0
                })
            }),
            ({
                let t = content@.len() + HEIGHT_GAP;
                final(self).top_position == (if t >= content_area.height {
                    if old(self).top_position < t - content_area.height { old(self).top_position } else { (t - content_area.height) as usize }
                } else {
                    0
                })
            }),
            final(self).freeze == old(self).freeze,
    {
        let longest = content.get_max_line_length();
        let m = (longest + WIDTH_GAP) as u16;
        if m >= content_area.width {
            let max_position = m - content_area.width;
            if max_position < self.position {
                self.position = max_position;
            }
        } else {
            self.position = 0;
        }
        let t = content.len() + HEIGHT_GAP;
        if t >= content_area.height as usize {
            let max_position = t - content_area.height as usize;
            if max_position < self.top_position {
                self.top_position = max_position;
            }
        } else {
            self.top_position = 0;
        }
    }

    /// Scrolls, unless frozen, just far enough that the cell of line `y`,
    /// column `x` (cut to 16 bits) lies in a view of the size of
    /// `last_content_rect`.
    pub fn ensure_cursor_visible(&mut self, x: usize, y: usize, last_content_rect: Rect)
        requires
            old(self).top_position + last_content_rect.height <= usize::MAX,
            y + 1 <= usize::MAX,
            old(self).position + last_content_rect.width <= u16::MAX,
            (x as u16) < u16::MAX || last_content_rect.width > 0,
        ensures
            old(self).freeze ==> *final(self) == *old(self),
            !old(self).freeze ==> ({
                let h = last_content_rect.height as int;
                let w = last_content_rect.width as int;
                let t1 = if y < old(self).top_position { y as int } else { old(self).top_position as int };
                let t2 = if y >= t1 + h { y - h + 1 } else { t1 };
                let xs = (x as u16) as int;
                let p1 = if xs < old(self).position { xs } else { old(self).position as int };
                let p2 = if xs >= p1 + w { xs - w + 1 } else { p1 };
                &&& final(self).top_position == t2
                &&& final(self).position == p2
                &&& final(self).freeze == old(self).freeze
            }),
    {
        if self.freeze {
            return;
        }
        if y < self.top_position {
            self.top_position = y;
        }
        if y >= self.top_position + last_content_rect.height as usize {
            self.top_position = y - last_content_rect.height as usize + 1;
        }
        let xs = x as u16;
        if xs < self.position {
            self.position = xs;
        }
        if xs >= self.position + last_content_rect.width {
            self.position = xs - last_content_rect.width + 1;
        }
    }
}

/// The view can follow the cell of line `y`, column `x` without an arithmetic
/// overflow (which would panic).
pub open spec fn scroll_ok(sb: CustomScrollbar, x: usize, y: usize, r: Rect) -> bool {
    &&& sb.top_position + r.height <= usize::MAX
    &&& y + 1 <= usize::MAX
    &&& sb.position + r.width <= u16::MAX
    &&& (x as u16) < u16::MAX || r.width > 0
}

/// The scroll after [`CustomScrollbar::ensure_cursor_visible`] for the cell
/// of line `y`, column `x`; unchanged where that would overflow.
pub open spec fn scrolled_to(sb: CustomScrollbar, x: usize, y: usize, r: Rect) -> CustomScrollbar {
    if sb.freeze || !scroll_ok(sb, x, y, r) {
        sb
    } else {
        let h = r.height as int;
        let w = r.width as int;
        let t1 = if y < sb.top_position { y as int } else { sb.top_position as int };
        let t2 = if y >= t1 + h { y - h + 1 } else { t1 };
        let xs = (x as u16) as int;
        let p1 = if xs < sb.position { xs } else { sb.position as int };
        let p2 = if xs >= p1 + w { xs - w + 1 } else { p1 };
        CustomScrollbar { position: p2 as u16, top_position: t2 as usize, freeze: sb.freeze }
    }
}

impl CustomScrollbar {
    /// Follows the cell of line `y`, column `x` as
    /// [`CustomScrollbar::ensure_cursor_visible`] does, where that cannot
    /// overflow.
    pub fn scroll_to(&mut self, x: usize, y: usize, last_content_rect: Rect)
        ensures
            *final(self) == scrolled_to(*old(self), x, y, last_content_rect),
    {
        if self.top_position > usize::MAX - last_content_rect.height as usize || y == usize::MAX
            || self.position as u32 + last_content_rect.width as u32 > u16::MAX as u32
            || (x as u16 == u16::MAX && last_content_rect.width == 0) {
            return;
        }
        self.ensure_cursor_visible(x, y, last_content_rect);
    }
}

/// Following a cell shows it: after the view follows line `y`, column `x`
/// (where it is not frozen and nothing overflows), the cell lies within the
/// view.
pub proof fn following_shows_the_cell(sb: CustomScrollbar, x: usize, y: usize, r: Rect)
    requires
        !sb.freeze,
        scroll_ok(sb, x, y, r),
        r.width > 0,
        r.height > 0,
    ensures
        ({
            let s = scrolled_to(sb, x, y, r);
            &&& s.top_position <= y < s.top_position + r.height
            &&& s.position <= (x as u16) < s.position + r.width
        }),
{
}

} // verus!
