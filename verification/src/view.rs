//! What the view shows of a buffer: where a text position lands on the
//! screen, and which cells mark the carets and their selections.
use crate::buffer::Buffer;
use crate::caret::{carets_text, lc_lt, status_ok, Caret, Carets, Position};
use crate::text::{decimal, push_decimal, string_push, string_push_str};
use crate::content::Content;
use crate::scrollbar::{CustomScrollbar, Rect};
use crate::terminal_cursor::TerminalCursor;
use vstd::prelude::*;

verus! {

/// A rectangle fits on the screen: its right and bottom edges are columns
/// and rows that exist.
pub open spec fn on_screen(r: Rect) -> bool {
    r.x + r.width <= u16::MAX && r.y + r.height <= u16::MAX
}

/// Where the text position (`line`, `col`) lands in the view `area` scrolled by
/// `sb`: the cell, where it is shown; otherwise, where the line is shown but
/// the column is not, the cell at the left edge (for a column left of the view)
/// or just past the right edge, on that row; and the origin where the line is
/// not shown. Distances are taken modulo the terminal's size.
pub open spec fn viewport_position(line: usize, col: usize, area: Rect, sb: CustomScrollbar) -> Result<(u16, u16), (u16, u16)> {
    let y = vstd::wrapping::usize_specs::wrapping_sub(line, sb.top_position) as u16;
    let x = vstd::wrapping::usize_specs::wrapping_sub(col, sb.position as usize) as u16;
    if y >= area.height {
        Err((0, 0))
    } else if x >= area.width {
        Err((((if x >= 0x8000 { 0 } else { area.width as int }) + area.x) as u16, (y + area.y) as u16))
    } else {
        Ok(((x + area.x) as u16, (y + area.y) as u16))
    }
}

/// Where the text position (`line`, `col`) lands in the view (see
/// [`viewport_position`]).
pub fn find_in_viewport_position(line: usize, col: usize, content_area: Rect, scrollbar: &CustomScrollbar) -> (r: Result<(u16, u16), (u16, u16)>)
    requires
        on_screen(content_area),
    ensures
        r == viewport_position(line, col, content_area, *scrollbar),
{
    let new_cursor_y = line.wrapping_sub(scrollbar.top_position) as u16;
    if new_cursor_y >= content_area.height {
        return Err((0, 0));
    }
    let new_cursor_x = col.wrapping_sub(scrollbar.position as usize) as u16;
    if new_cursor_x >= content_area.width {
        let left = (new_cursor_x as i16) < 0;
        assert(left == (new_cursor_x >= 0x8000)) by (bit_vector)
            requires
                left == ((new_cursor_x as i16) < 0),
        ;
        return Err((if left { 0 } else { content_area.width } + content_area.x, new_cursor_y + content_area.y));
    }
    Ok((new_cursor_x + content_area.x, new_cursor_y + content_area.y))
}

/// What a mark on the screen shows.
#[derive(Debug, Clone, Copy, PartialEq, Eq)]
pub enum MarkKind {
    /// A caret without a selection.
    Cursor,
    /// Selected text.
    Selection,
    /// The cursor end of a selection.
    SelectedCursor,
}

/// Cells painted to show a caret or a selection.
#[derive(Debug, Clone, Copy)]
pub struct Mark {
    pub kind: MarkKind,
    pub area: Rect,
}

/// The cell a position lands on, in view or at its edge.
pub open spec fn landing(r: Result<(u16, u16), (u16, u16)>) -> (u16, u16) {
    match r {
        Ok(p) => p,
        Err(p) => p,
    }
}

/// One cell of the kind `kind`.
pub open spec fn cell(kind: MarkKind, x: u16, y: u16) -> Mark {
    Mark { kind, area: Rect { x, y, width: 1, height: 1 } }
}

/// The selected strip of line `l` from column `a` to column `z`: one row
/// high, from where `a` lands to where `z` lands, on the row where `z`
/// lands; its width taken modulo the terminal's size.
pub open spec fn strip(l: usize, a: usize, z: usize, area: Rect, sb: CustomScrollbar) -> Mark {
    let (x1, _y1) = landing(viewport_position(l, a, area, sb));
    let (x2, y) = landing(viewport_position(l, z, area, sb));
    Mark { kind: MarkKind::Selection, area: Rect { x: x1, y, width: vstd::wrapping::u16_specs::wrapping_sub(x2, x1), height: 1 } }
}

/// The strip does not wrap: its end lands at or after its start.
pub open spec fn strip_ok(l: usize, a: usize, z: usize, area: Rect, sb: CustomScrollbar) -> bool {
    landing(viewport_position(l, a, area, sb)).0 <= landing(viewport_position(l, z, area, sb)).0
}

/// The first line the view is taken to show (its row on the screen plus the
/// scroll).
pub open spec fn top_line(area: Rect, sb: CustomScrollbar) -> int {
    area.y + sb.top_position
}

/// The last line the view is taken to show.
pub open spec fn bottom_line(area: Rect, sb: CustomScrollbar) -> int {
    top_line(area, sb) + area.height - 1
}

/// The ends of the selection of `p`, first end first, as (line, column):
/// a start above the lines shown moves to the start of the first of them,
/// an end below them to the end of the last.
pub open spec fn shown_range(p: Position, c: Seq<Seq<u8>>, area: Rect, sb: CustomScrollbar) -> ((usize, usize), (usize, usize)) {
    let cur = (p.cursor.line, p.cursor.col);
    let sel = (p.selection.line, p.selection.col);
    let (s, e) = if !lc_lt(p.cursor_lc(), p.selection_lc()) { (sel, cur) } else { (cur, sel) };
    let top = top_line(area, sb);
    let bottom = bottom_line(area, sb);
    let s2 = if s.0 < top { (top as usize, 0usize) } else { s };
    let e2 = if e.0 > bottom { (bottom as usize, c[bottom].len() as usize) } else { e };
    (s2, e2)
}

/// The strips of a selection from `s` to `e`: over several lines, the rest
/// of the first line, each line between whole, and the last line up to
/// `e`; within one line, the part between; nothing where `e` comes first.
pub open spec fn strips(s: (usize, usize), e: (usize, usize), c: Seq<Seq<u8>>, area: Rect, sb: CustomScrollbar) -> Seq<Mark> {
    if s.0 < e.0 {
        seq![strip(s.0, s.1, c[s.0 as int].len() as usize, area, sb)]
            + Seq::new((e.0 - s.0 - 1) as nat, |k: int| strip((s.0 + 1 + k) as usize, 0, c[s.0 + 1 + k].len() as usize, area, sb))
            + seq![strip(e.0, 0, e.1, area, sb)]
    } else if s.0 == e.0 {
        seq![strip(s.0, s.1, e.1, area, sb)]
    } else {
        Seq::empty()
    }
}

/// The cell of kind `kind` where the cursor of `p` is in view, if it is.
pub open spec fn cursor_cell(kind: MarkKind, p: Position, area: Rect, sb: CustomScrollbar) -> Seq<Mark> {
    match viewport_position(p.cursor.line, p.cursor.col, area, sb) {
        Ok((x, y)) => seq![cell(kind, x, y)],
        Err(_) => Seq::empty(),
    }
}

/// The marks of a caret at `p`: its cursor cell where it has no selection;
/// otherwise the strips of its selection as shown (see [`shown_range`]),
/// then its cursor cell.
pub open spec fn caret_marks(p: Position, c: Seq<Seq<u8>>, area: Rect, sb: CustomScrollbar) -> Seq<Mark> {
    if p.selection.none {
        cursor_cell(MarkKind::Cursor, p, area, sb)
    } else {
        let (s, e) = shown_range(p, c, area, sb);
        strips(s, e, c, area, sb) + cursor_cell(MarkKind::SelectedCursor, p, area, sb)
    }
}

/// The line of the end of the selection of `p` that comes last.
pub open spec fn last_end_line(p: Position) -> usize {
    if !lc_lt(p.cursor_lc(), p.selection_lc()) { p.cursor.line } else { p.selection.line }
}

/// The ends of a selection can be clamped to the lines shown: those lines
/// are numbered within `usize`, and the last of them is in the text where
/// the selection runs past it.
pub open spec fn ends_ok(p: Position, c: Seq<Seq<u8>>, area: Rect, sb: CustomScrollbar) -> bool {
    &&& 1 <= top_line(area, sb) + area.height <= usize::MAX
    &&& last_end_line(p) > bottom_line(area, sb) ==> bottom_line(area, sb) < c.len()
}

/// The strips from `s` to `e` can be computed: over several lines, the
/// lines read are in the text and no strip wraps.
pub open spec fn strips_ok(s: (usize, usize), e: (usize, usize), c: Seq<Seq<u8>>, area: Rect, sb: CustomScrollbar) -> bool {
    s.0 < e.0 ==> {
        &&& e.0 <= c.len()
        &&& strip_ok(s.0, s.1, c[s.0 as int].len() as usize, area, sb)
        &&& forall|l: usize| s.0 < l < e.0 ==> #[trigger] strip_ok(l, 0, c[l as int].len() as usize, area, sb)
        &&& strip_ok(e.0, 0, e.1, area, sb)
    }
}

/// What computing the marks of a caret at `p` needs (otherwise it would panic):
/// for a selection, see [`ends_ok`] and [`strips_ok`].
pub open spec fn caret_marks_ok(p: Position, c: Seq<Seq<u8>>, area: Rect, sb: CustomScrollbar) -> bool {
    let (s, e) = shown_range(p, c, area, sb);
    !p.selection.none ==> ends_ok(p, c, area, sb) && strips_ok(s, e, c, area, sb)
}

/// The length of line `l` of the text.
fn line_len(content: &Content, l: usize) -> (r: usize)
    requires
        l < content@.len(),
    ensures
        r == content@[l as int].len(),
{
    content.index(l).len()
}

/// The cell a position lands on (see [`landing`]).
fn land(line: usize, col: usize, area: Rect, sb: &CustomScrollbar) -> (r: (u16, u16))
    requires
        on_screen(area),
    ensures
        r == landing(viewport_position(line, col, area, *sb)),
{
    match find_in_viewport_position(line, col, area, sb) {
        Ok(p) => p,
        Err(p) => p,
    }
}

/// Appends the strip of line `l` from column `a` to column `z`.
fn push_strip(out: &mut Vec<Mark>, l: usize, a: usize, z: usize, area: Rect, sb: &CustomScrollbar)
    requires
        on_screen(area),
    ensures
        final(out)@ == old(out)@.push(strip(l, a, z, area, *sb)),
{
    let (x1, _y1) = land(l, a, area, sb);
    let (x2, y) = land(l, z, area, sb);
    out.push(Mark { kind: MarkKind::Selection, area: Rect { x: x1, y, width: x2.wrapping_sub(x1), height: 1 } });
}

/// Appends the cell of kind `kind` where the cursor of `p` is in view.
fn push_cursor_cell(out: &mut Vec<Mark>, kind: MarkKind, p: Position, area: Rect, sb: &CustomScrollbar)
    requires
        on_screen(area),
    ensures
        final(out)@ == old(out)@ + cursor_cell(kind, p, area, *sb),
{
    if let Ok((x, y)) = find_in_viewport_position(p.cursor.line, p.cursor.col, area, sb) {
        out.push(Mark { kind, area: Rect { x, y, width: 1, height: 1 } });
        assert(out@ =~= old(out)@ + cursor_cell(kind, p, area, *sb));
    } else {
        assert(out@ =~= old(out)@ + cursor_cell(kind, p, area, *sb));
    }
}

/// Appends the strips of a selection from `s` to `e` (see [`strips`]).
fn push_strips(out: &mut Vec<Mark>, s: (usize, usize), e: (usize, usize), content: &Content, area: Rect, sb: &CustomScrollbar)
    requires
        on_screen(area),
        s.0 < e.0 ==> e.0 <= content@.len(),
    ensures
        final(out)@ == old(out)@ + strips(s, e, content@, area, *sb),
{
    let ghost c = content@;
    let ghost base = out@;
    if s.0 < e.0 {
        push_strip(out, s.0, s.1, line_len(content, s.0), area, sb);
        let ghost first = out@;
        let mut l = s.0 + 1;
        while l < e.0
            invariant
                s.0 < l <= e.0 <= c.len(),
                on_screen(area),
                c == content@,
                out@ == first + Seq::new((l - s.0 - 1) as nat, |k: int| strip((s.0 + 1 + k) as usize, 0, c[s.0 + 1 + k].len() as usize, area, *sb)),
            decreases e.0 - l,
        {
            push_strip(out, l, 0, line_len(content, l), area, sb);
            assert(out@ =~= first + Seq::new((l + 1 - s.0 - 1) as nat, |k: int| strip((s.0 + 1 + k) as usize, 0, c[s.0 + 1 + k].len() as usize, area, *sb)));
            l = l + 1;
        }
        push_strip(out, e.0, 0, e.1, area, sb);
        assert(out@ =~= base + strips(s, e, c, area, *sb));
    } else if s.0 == e.0 {
        push_strip(out, s.0, s.1, e.1, area, sb);
        assert(out@ =~= base + strips(s, e, c, area, *sb));
    } else {
        assert(out@ =~= base + strips(s, e, c, area, *sb));
    }
}

/// The ends of the selection of `p` as shown (see [`shown_range`]).
fn shown_ends(p: Position, content: &Content, area: Rect, sb: &CustomScrollbar) -> (r: ((usize, usize), (usize, usize)))
    requires
        ends_ok(p, content@, area, *sb),
    ensures
        r == shown_range(p, content@, area, *sb),
{
    let cursor = (p.cursor.line, p.cursor.col);
    let selection = (p.selection.line, p.selection.col);
    let (mut start, mut end) = if !crate::caret::lc_less(cursor, selection) { (selection, cursor) } else { (cursor, selection) };
    let min_line = area.y as usize + sb.top_position;
    if start.0 < min_line {
        start = (min_line, 0);
    }
    let max_line = min_line + area.height as usize - 1;
    if end.0 > max_line {
        end = (max_line, line_len(content, max_line));
    }
    (start, end)
}

/// Appends the marks of a caret at `p` (see [`caret_marks`]).
fn push_caret_marks(out: &mut Vec<Mark>, p: Position, content: &Content, area: Rect, sb: &CustomScrollbar)
    requires
        on_screen(area),
        caret_marks_ok(p, content@, area, *sb),
    ensures
        final(out)@ == old(out)@ + caret_marks(p, content@, area, *sb),
{
    if p.selection.none {
        push_cursor_cell(out, MarkKind::Cursor, p, area, sb);
        return;
    }
    let ghost base = out@;
    let (start, end) = shown_ends(p, content, area, sb);
    push_strips(out, start, end, content, area, sb);
    push_cursor_cell(out, MarkKind::SelectedCursor, p, area, sb);
    assert(out@ =~= base + caret_marks(p, content@, area, *sb));
}

/// The marks of the carets `cs`, caret by caret.
pub open spec fn all_marks(cs: Seq<Caret>, c: Seq<Seq<u8>>, area: Rect, sb: CustomScrollbar) -> Seq<Mark>
    decreases cs.len(),
{
    if cs.len() == 0 {
        Seq::empty()
    } else {
        all_marks(cs.drop_last(), c, area, sb) + caret_marks(cs.last().pos(), c, area, sb)
    }
}

/// The marks of every caret can be computed (see [`caret_marks_ok`]).
pub open spec fn marks_ok(cs: Seq<Caret>, c: Seq<Seq<u8>>, area: Rect, sb: CustomScrollbar) -> bool {
    forall|i: int| 0 <= i < cs.len() ==> caret_marks_ok(#[trigger] cs[i].pos(), c, area, sb)
}

/// The terminal's own cursor stands for the caret: there is one caret, with
/// nothing selected, and the cursor may be used.
pub open spec fn uses_terminal_cursor(cs: Seq<Caret>, can_use_cursor: bool) -> bool {
    can_use_cursor && cs.len() == 1 && cs[0].pos().selection.none
}

/// `t` moved to `p` and shown (see [`TerminalCursor::set_to`]).
pub open spec fn cursor_moved(t: TerminalCursor, p: (u16, u16)) -> TerminalCursor {
    TerminalCursor { x: p.0, y: p.1, cursor_showing: true, render_cursor_showing: t.render_cursor_showing || !t.cursor_showing }
}

/// `t` hidden (see [`TerminalCursor::hide_cursor`]).
pub open spec fn cursor_hidden(t: TerminalCursor) -> TerminalCursor {
    if t.cursor_showing {
        TerminalCursor { cursor_showing: false, render_cursor_showing: true, ..t }
    } else {
        t
    }
}

/// Shows the carets: where the terminal's own cursor stands for a single
/// caret (see [`uses_terminal_cursor`]) it moves there, or hides where that
/// is out of view, and no marks are returned; otherwise the terminal cursor
/// is hidden where it may be used, and the marks of every caret are
/// returned (see [`caret_marks`]).
pub fn render_cursor(cursors: &Carets, content: &Content, scrollbar: &CustomScrollbar, content_area: Rect,
    terminal_cursor: &mut TerminalCursor, can_use_cursor: bool) -> (r: Vec<Mark>)
    requires
        on_screen(content_area),
        !uses_terminal_cursor(cursors.carets@, can_use_cursor) ==> marks_ok(cursors.carets@, content@, content_area, *scrollbar),
    ensures
        uses_terminal_cursor(cursors.carets@, can_use_cursor) ==> r@.len() == 0 && *final(terminal_cursor) == match viewport_position(
            cursors.carets@[0].pos().cursor.line, cursors.carets@[0].pos().cursor.col, content_area, *scrollbar) {
            Ok(p) => cursor_moved(*old(terminal_cursor), p),
            Err(_) => cursor_hidden(*old(terminal_cursor)),
        },
        !uses_terminal_cursor(cursors.carets@, can_use_cursor) ==> r@ == all_marks(cursors.carets@, content@, content_area, *scrollbar)
            && *final(terminal_cursor) == (if can_use_cursor { cursor_hidden(*old(terminal_cursor)) } else { *old(terminal_cursor) }),
{
    let len = cursors.carets.len();
    let mut out: Vec<Mark> = Vec::new();
    if can_use_cursor && len == 1 && cursors.carets.index(0).get_position().selection.none {
        let p = *cursors.carets.index(0).get_position();
        match find_in_viewport_position(p.cursor.line, p.cursor.col, content_area, scrollbar) {
            Ok(xy) => terminal_cursor.set_to(xy),
            Err(_) => terminal_cursor.hide_cursor(),
        }
        return out;
    }
    if can_use_cursor {
        terminal_cursor.hide_cursor();
    }
    let ghost cs = cursors.carets@;
    let mut i: usize = 0;
    while i < len
        invariant
            i <= len == cs.len(),
            cs == cursors.carets@,
            on_screen(content_area),
            marks_ok(cs, content@, content_area, *scrollbar),
            out@ == all_marks(cs.take(i as int), content@, content_area, *scrollbar),
        decreases len - i,
    {
        let p = *cursors.carets.index(i).get_position();
        assert(caret_marks_ok(cs[i as int].pos(), content@, content_area, *scrollbar));
        push_caret_marks(&mut out, p, content, content_area, scrollbar);
        assert(cs.take(i + 1).drop_last() =~= cs.take(i as int));
        i = i + 1;
    }
    assert(cs.take(len as int) =~= cs);
    out
}

/// Whether the strips from `s` to `e` can be computed (see [`strips_ok`]).
fn strips_fit(s: (usize, usize), e: (usize, usize), content: &Content, area: Rect, sb: &CustomScrollbar) -> (r: bool)
    requires
        on_screen(area),
    ensures
        r == strips_ok(s, e, content@, area, *sb),
{
    if s.0 >= e.0 {
        return true;
    }
    if e.0 > content.len() {
        return false;
    }
    if land(s.0, s.1, area, sb).0 > land(s.0, line_len(content, s.0), area, sb).0 {
        return false;
    }
    let ghost c = content@;
    let mut l = s.0 + 1;
    while l < e.0
        invariant
            s.0 < l <= e.0 <= c.len(),
            on_screen(area),
            c == content@,
            forall|m: usize| s.0 < m < l ==> #[trigger] strip_ok(m, 0, c[m as int].len() as usize, area, *sb),
        decreases e.0 - l,
    {
        if land(l, 0, area, sb).0 > land(l, line_len(content, l), area, sb).0 {
            assert(!strip_ok(l, 0, c[l as int].len() as usize, area, *sb));
            return false;
        }
        l = l + 1;
    }
    land(e.0, 0, area, sb).0 <= land(e.0, e.1, area, sb).0
}

/// Whether the marks of a caret at `p` can be computed (see
/// [`caret_marks_ok`]).
fn caret_marks_fit(p: Position, content: &Content, area: Rect, sb: &CustomScrollbar) -> (r: bool)
    requires
        on_screen(area),
    ensures
        r == caret_marks_ok(p, content@, area, *sb),
{
    if p.selection.none {
        return true;
    }
    let top = match (area.y as usize).checked_add(sb.top_position) {
        Some(t) => t,
        None => return false,
    };
    let lim = match top.checked_add(area.height as usize) {
        Some(t) => t,
        None => return false,
    };
    if lim < 1 {
        return false;
    }
    let bottom = lim - 1;
    let last = if !crate::caret::lc_less((p.cursor.line, p.cursor.col), (p.selection.line, p.selection.col)) {
        p.cursor.line
    } else {
        p.selection.line
    };
    if last > bottom && bottom >= content.len() {
        return false;
    }
    let (start, end) = shown_ends(p, content, area, sb);
    strips_fit(start, end, content, area, sb)
}

/// Whether [`render_cursor`] can show the carets (see its `requires`).
pub fn can_render_cursor(cursors: &Carets, content: &Content, scrollbar: &CustomScrollbar, content_area: Rect,
    can_use_cursor: bool) -> (r: bool)
    requires
        on_screen(content_area),
    ensures
        r == (!uses_terminal_cursor(cursors.carets@, can_use_cursor) ==> marks_ok(cursors.carets@, content@, content_area, *scrollbar)),
{
    let len = cursors.carets.len();
    if can_use_cursor && len == 1 && cursors.carets.index(0).get_position().selection.none {
        return true;
    }
    let ghost cs = cursors.carets@;
    let mut i: usize = 0;
    while i < len
        invariant
            i <= len == cs.len(),
            cs == cursors.carets@,
            on_screen(content_area),
            forall|k: int| 0 <= k < i ==> caret_marks_ok(#[trigger] cs[k].pos(), content@, content_area, *scrollbar),
        decreases len - i,
    {
        if !caret_marks_fit(*cursors.carets.index(i).get_position(), content, content_area, scrollbar) {
            return false;
        }
        i = i + 1;
    }
    true
}

/// The flags of the status bar: ` [+]` where the buffer is modified, ` ⏸`
/// where its view is frozen, padded with spaces to twenty characters.
pub open spec fn bar_flags(modified: bool, freeze: bool) -> Seq<char> {
    let f = (if modified { seq![' ', '[', '+', ']'] } else { Seq::<char>::empty() })
        + (if freeze { seq![' ', '⏸'] } else { Seq::<char>::empty() });
    f + Seq::new((20 - f.len()) as nat, |i: int| ' ')
}

/// The left part of the status bar for the buffer `b`: a space, the name
/// shown, the flags (see [`bar_flags`]), a space, and the carets (see
/// [`carets_text`]).
pub fn bar_left_text(b: &Buffer) -> (r: String)
    requires
        status_ok(b.carets.carets@),
    ensures
        r@ == seq![' '] + b.showing_filename@ + bar_flags(b.modified, b.scrollbar.freeze) + seq![' ']
            + carets_text(b.carets.carets@),
{
    let mut s = crate::text::string_with_capacity(0);
    string_push(&mut s, ' ');
    string_push_str(&mut s, b.showing_filename.as_str());
    let ghost head = s@;
    let mut n: usize = 0;
    if b.modified {
        string_push(&mut s, ' ');
        string_push(&mut s, '[');
        string_push(&mut s, '+');
        string_push(&mut s, ']');
        n = 4;
    }
    if b.scrollbar.freeze {
        string_push(&mut s, ' ');
        string_push(&mut s, '⏸');
        n = n + 2;
    }
    let ghost f = (if b.modified { seq![' ', '[', '+', ']'] } else { Seq::<char>::empty() })
        + (if b.scrollbar.freeze { seq![' ', '⏸'] } else { Seq::<char>::empty() });
    assert(s@ =~= head + f);
    let mut k = n;
    while k < 20
        invariant
            n <= k <= 20,
            n == f.len(),
            s@ == head + f + Seq::new((k - n) as nat, |i: int| ' '),
        decreases 20 - k,
    {
        string_push(&mut s, ' ');
        assert(s@ =~= head + f + Seq::new((k + 1 - n) as nat, |i: int| ' '));
        k = k + 1;
    }
    string_push(&mut s, ' ');
    let carets = b.carets.to_string();
    string_push_str(&mut s, carets.as_str());
    assert(s@ =~= seq![' '] + b.showing_filename@ + bar_flags(b.modified, b.scrollbar.freeze) + seq![' ']
        + carets_text(b.carets.carets@));
    s
}

/// The smaller of two integers.
pub open spec fn min_int(a: int, b: int) -> int {
    if a < b { a } else { b }
}

/// The part of line `l` that a view `width` columns wide shows from column
/// `p`: up to `width` bytes, fewer at the end of the line, none where the
/// line ends before `p`.
pub open spec fn shown_part(l: Seq<u8>, p: int, width: int) -> Seq<u8> {
    let e = min_int(p + width, l.len() as int);
    if p <= e { l.subrange(p, e) } else { Seq::empty() }
}

/// The part of the text `c` a view `width` by `height` scrolled by `sb`
/// shows: from the top line of the scroll, as many lines as the view is
/// high (fewer at the end of the text), each as [`shown_part`] gives it.
pub open spec fn shown_text(c: Seq<Seq<u8>>, sb: CustomScrollbar, width: u16, height: u16) -> Seq<Seq<u8>> {
    let top = sb.top_position as int;
    let end = min_int(top + height, c.len() as int);
    if top <= end {
        Seq::new((end - top) as nat, |k: int| shown_part(c[top + k], sb.position as int, width as int))
    } else {
        Seq::empty()
    }
}

/// The part of the text the view shows (see [`shown_text`]).
pub fn shown_lines(content: &Content, scrollbar: &CustomScrollbar, width: u16, height: u16) -> (r: Vec<Vec<u8>>)
    requires
        scrollbar.top_position + height <= usize::MAX,
        scrollbar.position + width <= u16::MAX,
    ensures
        r@.map_values(|l: Vec<u8>| l@) == shown_text(content@, *scrollbar, width, height),
{
    let ghost c = content@;
    let top = scrollbar.top_position;
    let n = content.len();
    let end = if top + (height as usize) < n { top + (height as usize) } else { n };
    let mut out: Vec<Vec<u8>> = Vec::new();
    if top > end {
        assert(out@.map_values(|l: Vec<u8>| l@) =~= shown_text(c, *scrollbar, width, height));
        return out;
    }
    let p = scrollbar.position as usize;
    let mut i = top;
    while i < end
        invariant
            top <= i <= end <= c.len(),
            c == content@,
            top == scrollbar.top_position,
            end == min_int(top + height, c.len() as int),
            p == scrollbar.position,
            scrollbar.position + width <= u16::MAX,
            out@.len() == i - top,
            forall|k: int| 0 <= k < i - top ==> (#[trigger] out@[k])@ == shown_part(c[top + k], p as int, width as int),
        decreases end - i,
    {
        let l = content.index(i);
        let e = if p + (width as usize) < l.len() { p + (width as usize) } else { l.len() };
        let mut part: Vec<u8> = Vec::new();
        if p <= e {
            let mut j = p;
            while j < e
                invariant
                    p <= j <= e <= l@.len(),
                    part@ == l@.subrange(p as int, j as int),
                decreases e - j,
            {
                part.push(l[j]);
                assert(part@ =~= l@.subrange(p as int, j + 1));
                j = j + 1;
            }
        }
        assert(part@ =~= shown_part(c[i as int], p as int, width as int));
        out.push(part);
        i = i + 1;
    }
    assert(out@.map_values(|l: Vec<u8>| l@) =~= shown_text(c, *scrollbar, width, height));
    out
}

/// The line numbers a view `height` high shows beside a text of `len`
/// lines from line `top` (counted from zero): the numbers, counted from
/// one, of the lines shown, each followed by a space.
pub open spec fn shown_numbers(len: int, top: int, height: int) -> Seq<Seq<char>> {
    let end = min_int(top + height + 1, len + 1);
    if top + 1 <= end {
        Seq::new((end - top - 1) as nat, |k: int| decimal((top + 1 + k) as nat) + seq![' '])
    } else {
        Seq::empty()
    }
}

/// The line numbers the view shows (see [`shown_numbers`]).
pub fn line_numbers(content: &Content, scrollbar: &CustomScrollbar, height: u16) -> (r: Vec<String>)
    requires
        scrollbar.top_position + height + 1 <= usize::MAX,
        content@.len() + 1 <= usize::MAX,
    ensures
        r@.map_values(|s: String| s@) == shown_numbers(content@.len() as int, scrollbar.top_position as int, height as int),
{
    let top = scrollbar.top_position;
    let n = content.len();
    let end = if top + (height as usize) + 1 < n + 1 { top + (height as usize) + 1 } else { n + 1 };
    let mut out: Vec<String> = Vec::new();
    if top + 1 >= end {
        assert(out@.map_values(|s: String| s@) =~= shown_numbers(n as int, top as int, height as int));
        return out;
    }
    let mut k = top + 1;
    while k < end
        invariant
            top + 1 <= k <= end <= n + 1,
            end == min_int(top + height + 1, n + 1),
            out@.len() == k - top - 1,
            forall|i: int| 0 <= i < out@.len() ==> (#[trigger] out@[i])@ == decimal((top + 1 + i) as nat) + seq![' '],
        decreases end - k,
    {
        let mut s = crate::text::string_with_capacity(0);
        push_decimal(&mut s, k);
        string_push(&mut s, ' ');
        out.push(s);
        k = k + 1;
    }
    assert(out@.map_values(|s: String| s@) =~= shown_numbers(n as int, top as int, height as int));
    out
}

} // verus!
