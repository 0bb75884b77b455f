use asd::caret::{Caret, Carets, CursorEditor, Position};
use asd::checkpoints::{Checkpoint, Checkpoints, N_MAX_CHECKPOINTS};
use asd::content::Content;
use asd::cursor::{is_variable_at, Cursor, HorizontalGoal};
use asd::log::{Log, LogColor};
use asd::mostly_one_vec::MostlyOneVec;
use asd::scrollbar::{CustomScrollbar, Rect};
use asd::selection::Selection;
use asd::terminal_cursor::TerminalCursor;

fn text(t: &str) -> Content {
    Content::from_text(t).0
}

fn at(c: &Cursor) -> (usize, usize) {
    (c.line, c.col)
}

#[test]
fn cursor_steps_over_line_breaks() {
    let c = text("ab\ncd");
    let mut k = Cursor::new(0, 2);
    k.next(&c);
    assert_eq!(at(&k), (1, 0));
    k.prev(&c);
    assert_eq!(at(&k), (0, 2));
    let mut e = Cursor::new(1, 2);
    e.next(&c);
    assert_eq!(at(&e), (1, 2));
    let mut s = Cursor::new(0, 0);
    s.prev(&c);
    assert_eq!(at(&s), (0, 0));
}

#[test]
fn cursor_moves_by_words() {
    let c = text("foo  bar.baz");
    let mut k = Cursor::new(0, 0);
    k.next_word(&c);
    assert_eq!(at(&k), (0, 3));
    k.next_word(&c);
    assert_eq!(at(&k), (0, 8));
    k.next_word(&c);
    assert_eq!(at(&k), (0, 9));
    let mut b = Cursor::new(0, 8);
    b.prev_word(&c);
    assert_eq!(at(&b), (0, 5));
}

#[test]
fn word_motion_reads_whole_characters() {
    // '€' (three bytes) is no part of a name, so the word ends before it.
    let c = text("ab\u{20ac} c");
    let mut k = Cursor::new(0, 0);
    k.next_word(&c);
    assert_eq!(at(&k), (0, 2));
    // Read as a lone byte, the lead byte of '\u{e9}' would be the letter '\u{c3}'.
    let d = text("x+\u{e9}");
    let mut f = Cursor::new(0, 1);
    f.next_word(&c);
    assert_eq!(at(&f), (0, 2));
    let mut g = Cursor::new(0, 1);
    g.next_word(&d);
    assert_eq!(at(&g), (0, 2));
    let mut h = Cursor::new(0, 2);
    h.prev_word(&c);
    assert_eq!(at(&h), (0, 0));
}

#[test]
fn a_character_classified_where_it_starts() {
    assert!(is_variable_at("\u{e9}".as_bytes(), 0));
    assert!(!is_variable_at("\u{e9}".as_bytes(), 1));
    assert!(!is_variable_at("\u{20ac}".as_bytes(), 0));
    assert!(is_variable_at("\u{4e2d}".as_bytes(), 0));
    assert!(is_variable_at("_".as_bytes(), 0));
    assert!(!is_variable_at(&[0xc3], 0));
    assert!(!is_variable_at(&[0xc0, 0xa0], 0));
    assert!(is_variable_at("\u{1d400}".as_bytes(), 0));
}

#[test]
fn vertical_motion_keeps_the_goal_column() {
    let c = text("abcdef\nab\nabcdef");
    let mut k = Cursor::new(0, 5);
    k.down(1, &c);
    assert_eq!(at(&k), (1, 2));
    k.down(1, &c);
    assert_eq!(at(&k), (2, 5));
    k.up(5, &c);
    assert_eq!(at(&k), (0, 5));
    k.end(&c);
    assert_eq!(k.goal, HorizontalGoal::EndOfLine);
    k.down(9, &c);
    assert_eq!(at(&k), (2, 6));
    k.home();
    assert_eq!(at(&k), (2, 0));
    k.ctrl_home();
    assert_eq!(at(&k), (0, 0));
    k.ctrl_end(&c);
    assert_eq!(at(&k), (2, 0));
}

#[test]
fn clamping_stays_in_the_text() {
    let c = text("ab\nc");
    assert_eq!(Cursor::clamp_position(9, 9, &c), (1, 1));
    assert_eq!(Cursor::clamp_position(1, 0, &c), (0, 1));
    let mut k = Cursor::new(0, 0);
    k.set_only_cursor(5, 0, &c);
    assert_eq!(at(&k), (0, 2));
    assert_eq!(k.line(), 1);
    assert_eq!(k.col(), 3);
}

#[test]
fn selection_and_position_ends() {
    let mut p = Position::new(Cursor::new(2, 1), Selection::new(1, 4));
    assert_eq!(p.get_min(), (1, 4));
    assert_eq!(p.get_max(false), (2, 1));
    p.set_max((3, 0));
    assert_eq!(at(&p.cursor), (3, 0));
    p.set_min((0, 0));
    assert_eq!((p.selection.line, p.selection.col), (0, 0));
    let q = Position::new(Cursor::new(1, 1), Selection::empty());
    assert_eq!(q.get_max(true), (1, 2));
    let mut s = Selection::empty();
    assert!(s.is_none());
    s.set_to(&Cursor::new(4, 5));
    assert_eq!(s.get_lc(), (4, 5));
    s.next_or_prev_unchecked(-2);
    s.up_or_down_unchecked(1);
    assert_eq!(s.get_lc(), (5, 3));
}

#[test]
fn overlapping_carets_merge() {
    let mut carets = Carets::new();
    carets.carets.index_mut(0).set_position(Position::new(Cursor::new(0, 5), Selection::new(0, 2)));
    carets.carets.push(Caret::new_from(Position::new(Cursor::new(0, 1), Selection::new(0, 3))));
    carets.carets.push(Caret::new_from(Position::new(Cursor::new(1, 0), Selection::empty())));
    carets.merge();
    assert_eq!(carets.carets.len(), 2);
    let first = carets.carets.index(0).get_position();
    assert_eq!(first.get_min(), (0, 1));
    assert_eq!(first.get_max(false), (0, 5));
    assert_eq!(at(&carets.carets.index(1).get_position().cursor), (1, 0));
}

#[test]
fn merged_carets_are_sorted_and_apart() {
    let mut carets = Carets::new();
    let spots = [
        Position::new(Cursor::new(2, 4), Selection::empty()),
        Position::new(Cursor::new(0, 10), Selection::new(0, 0)),
        Position::new(Cursor::new(0, 2), Selection::new(0, 1)),
        Position::new(Cursor::new(0, 7), Selection::empty()),
        Position::new(Cursor::new(2, 4), Selection::empty()),
        Position::new(Cursor::new(1, 3), Selection::new(2, 0)),
        Position::new(Cursor::new(3, 0), Selection::empty()),
    ];
    carets.carets.index_mut(0).set_position(spots[0]);
    for p in &spots[1..] {
        carets.carets.push(Caret::new_from(*p));
    }
    carets.merge();
    let n = carets.carets.len();
    assert!(n >= 2);
    for j in 1..n {
        let a = carets.carets.index(j - 1).get_position();
        let b = carets.carets.index(j).get_position();
        assert!(a.get_max(false) <= b.get_min());
        assert!(a.get_min() <= b.get_min());
    }
}

#[test]
fn sorting_orders_carets_by_start() {
    let mut v = MostlyOneVec::from_iter(vec![
        Caret::new_from(Position::new(Cursor::new(2, 0), Selection::empty())),
        Caret::new_from(Position::new(Cursor::new(0, 3), Selection::empty())),
        Caret::new_from(Position::new(Cursor::new(1, 1), Selection::empty())),
    ]);
    v.sort();
    assert_eq!(at(&v.index(0).get_position().cursor), (0, 3));
    assert_eq!(at(&v.index(1).get_position().cursor), (1, 1));
    assert_eq!(at(&v.index(2).get_position().cursor), (2, 0));
}

#[test]
fn adding_a_caret_where_one_is_removes_it() {
    let c = text("abc\ndef");
    let mut carets = Carets::new();
    carets.add_cursor(1, 1, &c);
    assert_eq!(carets.carets.len(), 2);
    carets.add_cursor(1, 1, &c);
    assert_eq!(carets.carets.len(), 1);
    carets.set_cursor(2, 1, &c);
    assert_eq!(carets.carets.len(), 1);
    assert_eq!(at(&carets.carets.index(0).get_position().cursor), (1, 2));
    assert!(!carets.any_selected());
}

#[test]
fn carets_after_an_edit_move_with_the_text() {
    let mut carets = Carets::new();
    carets.carets.push(Caret::new_from(Position::new(Cursor::new(0, 4), Selection::new(1, 2))));
    let mut ce = CursorEditor { cursor: 0, cursors: &mut carets };
    ce.move_anything_after_ud_np_included(0, 2, 1, -1);
    let p = carets.carets.index(1).get_position();
    assert_eq!(at(&p.cursor), (1, 3));
    assert_eq!((p.selection.line, p.selection.col), (2, 2));
    assert_eq!(at(&carets.carets.index(0).get_position().cursor), (0, 0));
}

#[test]
fn caret_selects_the_byte_around_the_cursor() {
    let c = text("ab\ncd");
    let mut k = Caret::new_from(Position::new(Cursor::new(1, 0), Selection::empty()));
    k.selection_make_backwards(&c);
    assert_eq!(k.get_position().selection.get_lc(), (0, 2));
    let mut f = Caret::new_from(Position::new(Cursor::new(0, 2), Selection::empty()));
    f.selection_make_forwards(&c);
    assert_eq!(f.get_position().selection.get_lc(), (1, 0));
    let mut j = Caret::new();
    j.set_selection_to_cursor();
    j.set_just_cursor(1, 1, &c);
    assert_eq!(j.get_position().selection.get_lc(), (0, 0));
    assert_eq!(at(&j.get_position().cursor), (1, 1));
    let mut m = Caret::new_from(Position::new(Cursor::new(1, 1), Selection::new(1, 1)));
    m.merge_sel_pos();
    assert!(m.is_selection_none());
}

#[test]
fn view_follows_a_cell() {
    let mut sb = CustomScrollbar::new();
    let r = Rect { x: 0, y: 0, width: 80, height: 24 };
    sb.ensure_cursor_visible(100, 50, r);
    assert_eq!((sb.position, sb.top_position), (21, 27));
    sb.ensure_cursor_visible(0, 0, r);
    assert_eq!((sb.position, sb.top_position), (0, 0));
    sb.freeze = true;
    sb.ensure_cursor_visible(100, 50, r);
    assert_eq!((sb.position, sb.top_position), (0, 0));
}

#[test]
fn view_stays_within_the_text() {
    let c = text("short\nline");
    let mut sb = CustomScrollbar::new();
    sb.next(500);
    sb.next_line(500);
    sb.validate_position(&c, Rect { x: 0, y: 0, width: 10, height: 5 });
    assert_eq!(sb.position, 15);
    assert_eq!(sb.top_position, 7);
    sb.prev(20);
    sb.prev_line(3);
    assert_eq!((sb.position, sb.top_position), (0, 4));
    assert!(Rect { x: 2, y: 2, width: 3, height: 1 }.contains(4, 2));
    assert!(!Rect { x: 2, y: 2, width: 3, height: 1 }.contains(5, 2));
    assert_eq!(Rect::default(), Rect { x: 0, y: 0, width: 0, height: 0 });
}

#[test]
fn history_drops_old_checkpoints_when_full() {
    let mut h = Checkpoints::new();
    let mut logs: Vec<Log> = Vec::new();
    for _ in 0..N_MAX_CHECKPOINTS - 1 {
        h.push(Checkpoint { inner: MostlyOneVec::Zero }, &mut logs);
    }
    assert_eq!(h.others.len(), 999);
    assert!(logs.is_empty());
    h.push(Checkpoint { inner: MostlyOneVec::Zero }, &mut logs);
    assert_eq!(h.others.len(), 900);
    assert_eq!(h.cursor_lened, 900);
    assert_eq!(logs.len(), 1);
    assert_eq!(logs[0].message, "Removed some old checkpoints...");
    assert_eq!(logs[0].color, LogColor::Info);
}

#[test]
fn pushing_a_checkpoint_drops_what_could_be_redone() {
    let mut h = Checkpoints::new();
    let mut logs = Vec::new();
    h.push(Checkpoint { inner: MostlyOneVec::Zero }, &mut logs);
    h.push(Checkpoint { inner: MostlyOneVec::Zero }, &mut logs);
    h.cursor_lened = 1;
    h.push(Checkpoint { inner: MostlyOneVec::Zero }, &mut logs);
    assert_eq!(h.others.len(), 2);
    assert_eq!(h.cursor_lened, 2);
}

#[test]
fn commit_records_what_each_caret_did() {
    let c = text("hello");
    let mut carets = Carets::new();
    carets.carets.index_mut(0).set_position(Position::new(Cursor::new(0, 3), Selection::empty()));
    carets.carets.index_mut(0).added_len = 2;
    carets.carets.index_mut(0).started = true;
    let mut h = Checkpoints::new();
    let mut logs = Vec::new();
    assert!(Checkpoints::can_commit(&carets, &c));
    h.commit(&mut carets, &mut logs, &c);
    assert_eq!(h.others.len(), 1);
    let e = &h.others[0].inner.index(0).edit;
    assert_eq!((e.start_line, e.start_col), (0, 1));
    assert_eq!(e.added_data.len(), 1);
    assert_eq!(e.added_data.index(0).as_str(), "el");
    assert_eq!(carets.carets.index(0).added_len, 0);
    assert!(h.little_timer_deadline.is_none());
}

#[test]
fn commit_skips_carets_with_nothing_recorded() {
    let c = text("hello");
    let mut carets = Carets::new();
    let mut h = Checkpoints::new();
    let mut logs = Vec::new();
    h.commit(&mut carets, &mut logs, &c);
    assert_eq!(h.others.len(), 0);
}

#[test]
fn terminal_cursor_notes_changes() {
    let mut t = TerminalCursor::new();
    assert_eq!((t.x, t.y), (u16::MAX, u16::MAX));
    t.hide_cursor();
    assert!(!t.cursor_showing);
    assert!(t.render_cursor_showing);
    t.set_to((3, 4));
    assert_eq!((t.x, t.y), (3, 4));
    assert!(t.cursor_showing);
}
