use asd::buffer::Buffer;
use asd::caret::Position;
use asd::cursor::Cursor;
use asd::edit_controller::Arrow;
use asd::log::{Log, LogColor};
use asd::scrollbar::Rect;
use asd::selection::Selection;

fn rect() -> Rect {
    Rect { x: 0, y: 0, width: 80, height: 24 }
}

fn lines(b: &Buffer) -> Vec<String> {
    b.content.get_lines().iter().map(|l| String::from_utf8(l.clone()).unwrap()).collect()
}

fn cursor(b: &Buffer, i: usize) -> (usize, usize) {
    let p = b.carets.carets.index(i).get_position();
    (p.cursor.line, p.cursor.col)
}

fn select(b: &mut Buffer, i: usize, from: (usize, usize), to: (usize, usize)) {
    b.carets.carets.index_mut(i).set_position(Position::new(Cursor::new(to.0, to.1), Selection::new(from.0, from.1)));
}

#[test]
fn new_buffer_reads_lines_and_ending() {
    let b = Buffer::new("/tmp/f.txt".to_string(), "f.txt".to_string(), "one\ntwo");
    assert_eq!(lines(&b), vec!["one", "two"]);
    assert_eq!(b.line_ending, asd::line_ending::LineEnding::LF);
    assert_eq!(b.tab_size, 4);
    assert!(!b.modified);
    assert_eq!(b.carets.carets.len(), 1);
    assert_eq!(cursor(&b, 0), (0, 0));
}

#[test]
fn typing_inserts_at_the_cursor() {
    let mut b = Buffer::new("p".to_string(), "p".to_string(), "hello");
    let mut logs: Vec<Log> = vec![Log::new("old", LogColor::Info)];
    b.place_char('!', rect(), &mut logs);
    assert!(logs.is_empty());
    assert_eq!(lines(&b), vec!["!hello"]);
    assert_eq!(cursor(&b, 0), (0, 1));
    assert!(b.modified);
    assert!(b.checkpoints.big_timer_deadline.is_some());
    assert!(b.checkpoints.little_timer_deadline.is_some());
}

#[test]
fn typing_replaces_a_selection() {
    let mut b = Buffer::new("p".to_string(), "p".to_string(), "hello");
    select(&mut b, 0, (0, 1), (0, 4));
    let mut logs = Vec::new();
    b.place_char('a', rect(), &mut logs);
    assert_eq!(lines(&b), vec!["hao"]);
    assert_eq!(cursor(&b, 0), (0, 2));
}

#[test]
fn typing_past_the_end_of_a_line_fills_spaces() {
    let mut b = Buffer::new("p".to_string(), "p".to_string(), "ab");
    b.carets.carets.index_mut(0).set_position(Position::new(Cursor::new(0, 5), Selection::empty()));
    let mut logs = Vec::new();
    b.place_char('x', rect(), &mut logs);
    assert_eq!(lines(&b), vec!["ab   x"]);
    assert_eq!(cursor(&b, 0), (0, 6));
}

#[test]
fn new_line_keeps_the_indent() {
    let mut b = Buffer::new("p".to_string(), "p".to_string(), "  abc");
    b.carets.carets.index_mut(0).set_position(Position::new(Cursor::new(0, 5), Selection::empty()));
    let mut logs = Vec::new();
    b.place_new_line(rect(), &mut logs);
    assert_eq!(lines(&b), vec!["  abc", "  "]);
    assert_eq!(cursor(&b, 0), (1, 2));
    assert_eq!(b.checkpoints.others.len(), 1);
    assert_eq!(b.checkpoints.cursor_lened, 1);
}

#[test]
fn new_line_keeps_a_no_break_space_indent() {
    let mut b = Buffer::new("p".to_string(), "p".to_string(), "\u{a0}\tx");
    b.carets.carets.index_mut(0).set_position(Position::new(Cursor::new(0, 4), Selection::empty()));
    let mut logs = Vec::new();
    b.place_new_line(rect(), &mut logs);
    assert_eq!(lines(&b), vec!["\u{a0}\tx", "\u{a0}\t"]);
    assert_eq!(cursor(&b, 0), (1, 3));
}

#[test]
fn backspace_at_line_start_joins_lines() {
    let mut b = Buffer::new("p".to_string(), "p".to_string(), "ab\ncd");
    b.carets.carets.index_mut(0).set_position(Position::new(Cursor::new(1, 0), Selection::empty()));
    let mut logs = Vec::new();
    b.operate_backspace(rect(), &mut logs);
    assert_eq!(lines(&b), vec!["abcd"]);
    assert_eq!(cursor(&b, 0), (0, 2));
    // The removed text starts with an empty line (the line break), which the
    // history takes for nothing recorded.
    assert_eq!(b.checkpoints.others.len(), 0);
}

#[test]
fn backspace_inside_a_line_deletes_one_byte() {
    let mut b = Buffer::new("p".to_string(), "p".to_string(), "abc");
    b.carets.carets.index_mut(0).set_position(Position::new(Cursor::new(0, 2), Selection::empty()));
    let mut logs = Vec::new();
    b.operate_backspace(rect(), &mut logs);
    assert_eq!(lines(&b), vec!["ac"]);
    assert_eq!(cursor(&b, 0), (0, 1));
    assert_eq!(b.checkpoints.others.len(), 0);
}

#[test]
fn backspace_at_text_start_changes_nothing() {
    let mut b = Buffer::new("p".to_string(), "p".to_string(), "abc");
    let mut logs = Vec::new();
    b.operate_backspace(rect(), &mut logs);
    assert_eq!(lines(&b), vec!["abc"]);
    assert_eq!(cursor(&b, 0), (0, 0));
}

#[test]
fn delete_at_line_end_joins_lines() {
    let mut b = Buffer::new("p".to_string(), "p".to_string(), "ab\ncd");
    b.carets.carets.index_mut(0).set_position(Position::new(Cursor::new(0, 2), Selection::empty()));
    let mut logs = Vec::new();
    b.operate_delete(rect(), &mut logs);
    assert_eq!(lines(&b), vec!["abcd"]);
    assert_eq!(cursor(&b, 0), (0, 2));
}

#[test]
fn delete_removes_the_selection() {
    let mut b = Buffer::new("p".to_string(), "p".to_string(), "hello\nworld");
    select(&mut b, 0, (0, 3), (1, 2));
    let mut logs = Vec::new();
    b.operate_delete(rect(), &mut logs);
    assert_eq!(lines(&b), vec!["helrld"]);
    assert_eq!(cursor(&b, 0), (0, 3));
}

#[test]
fn tab_reaches_the_next_stop() {
    let mut b = Buffer::new("p".to_string(), "p".to_string(), "a");
    b.carets.carets.index_mut(0).set_position(Position::new(Cursor::new(0, 1), Selection::empty()));
    let mut logs = Vec::new();
    b.operate_tab(rect(), &mut logs);
    assert_eq!(lines(&b), vec!["a   "]);
    assert_eq!(cursor(&b, 0), (0, 4));
}

#[test]
fn undo_then_redo_of_typing() {
    let mut b = Buffer::new("p".to_string(), "p".to_string(), "xy");
    let mut logs = Vec::new();
    b.place_char('a', rect(), &mut logs);
    b.place_char('b', rect(), &mut logs);
    assert_eq!(lines(&b), vec!["abxy"]);
    b.operate_undo(rect(), &mut logs);
    assert_eq!(lines(&b), vec!["xy"]);
    assert_eq!(b.checkpoints.cursor_lened, 0);
    assert_eq!(b.checkpoints.others.len(), 1);
    b.operate_redo(rect(), &mut logs);
    assert_eq!(lines(&b), vec!["abxy"]);
    assert_eq!(b.checkpoints.cursor_lened, 1);
}

#[test]
fn undo_of_typing_puts_the_caret_and_history_back() {
    let mut b = Buffer::new("p".to_string(), "p".to_string(), "one\ntwo");
    let mut logs = Vec::new();
    b.carets.carets.index_mut(0).set_position(Position::new(Cursor::new(1, 1), Selection::empty()));
    b.place_char('x', rect(), &mut logs);
    b.operate_undo(rect(), &mut logs);
    assert_eq!(b.checkpoints.cursor_lened, 0);
    b.carets.carets.index_mut(0).set_position(Position::new(Cursor::new(0, 2), Selection::empty()));
    b.place_char('p', rect(), &mut logs);
    b.place_char('q', rect(), &mut logs);
    b.place_char('r', rect(), &mut logs);
    assert_eq!(lines(&b), vec!["onpqre", "two"]);
    assert_eq!(cursor(&b, 0), (0, 5));
    b.operate_undo(rect(), &mut logs);
    assert_eq!(lines(&b), vec!["one", "two"]);
    assert_eq!(b.carets.carets.len(), 1);
    assert_eq!(cursor(&b, 0), (0, 2));
    assert!(b.carets.carets.index(0).get_position().selection.none);
    assert_eq!(b.checkpoints.cursor_lened, 0);
}

#[test]
fn deleting_a_selected_non_ascii_character_and_undoing() {
    let mut b = Buffer::new("p".to_string(), "p".to_string(), "a\u{e9}b");
    select(&mut b, 0, (0, 1), (0, 3));
    let mut logs = Vec::new();
    b.operate_delete(rect(), &mut logs);
    assert_eq!(lines(&b), vec!["ab"]);
    assert_eq!(cursor(&b, 0), (0, 1));
    b.operate_undo(rect(), &mut logs);
    assert_eq!(lines(&b), vec!["a\u{e9}b"]);
    b.operate_redo(rect(), &mut logs);
    assert_eq!(lines(&b), vec!["ab"]);
}

#[test]
fn typing_over_a_selected_non_ascii_word() {
    let mut b = Buffer::new("p".to_string(), "p".to_string(), "x \u{4e2d}\u{6587} y");
    select(&mut b, 0, (0, 2), (0, 8));
    let mut logs = Vec::new();
    b.place_char('z', rect(), &mut logs);
    assert_eq!(lines(&b), vec!["x z y"]);
    b.operate_undo(rect(), &mut logs);
    assert_eq!(lines(&b), vec!["x \u{4e2d}\u{6587} y"]);
}

#[test]
fn a_long_non_ascii_removal_is_recorded_byte_by_byte() {
    // Once the record outgrows its inline block, each further byte goes in
    // front as the character of that code, so undo gives back those bytes.
    let text = "\u{e9}".repeat(7);
    let mut b = Buffer::new("p".to_string(), "p".to_string(), &text);
    select(&mut b, 0, (0, 0), (0, 14));
    let mut logs = Vec::new();
    b.operate_delete(rect(), &mut logs);
    assert_eq!(lines(&b), vec![""]);
    b.operate_undo(rect(), &mut logs);
    let expected = format!("\u{c3}\u{a9}\u{c3}\u{a9}{}", "\u{e9}".repeat(5));
    assert_eq!(lines(&b), vec![expected]);
}

#[test]
fn undo_of_a_new_line() {
    let mut b = Buffer::new("p".to_string(), "p".to_string(), "abcd");
    b.carets.carets.index_mut(0).set_position(Position::new(Cursor::new(0, 2), Selection::empty()));
    let mut logs = Vec::new();
    b.place_new_line(rect(), &mut logs);
    assert_eq!(lines(&b), vec!["ab", "cd"]);
    b.operate_undo(rect(), &mut logs);
    assert_eq!(lines(&b), vec!["abcd"]);
}

#[test]
fn undo_with_nothing_to_undo_says_so() {
    let mut b = Buffer::new("p".to_string(), "p".to_string(), "xy");
    let mut logs = Vec::new();
    b.operate_undo(rect(), &mut logs);
    assert_eq!(logs.len(), 1);
    assert_eq!(logs[0].message, "[I] No more checkpoints available");
    assert_eq!(logs[0].color, LogColor::Info);
    b.operate_redo(rect(), &mut logs);
    assert_eq!(logs.len(), 2);
    assert_eq!(logs[1].message, "[I] No more checkpoints available");
}

#[test]
fn copy_gives_the_selected_text() {
    let mut b = Buffer::new("p".to_string(), "p".to_string(), "hello");
    select(&mut b, 0, (0, 1), (0, 4));
    let mut logs = Vec::new();
    let t = b.operate_copy(rect(), &mut logs);
    assert_eq!(t, Some(b"ell".to_vec()));
    assert_eq!(lines(&b), vec!["hello"]);
}

#[test]
fn cut_gives_and_removes_the_selected_text() {
    let mut b = Buffer::new("p".to_string(), "p".to_string(), "hello");
    select(&mut b, 0, (0, 1), (0, 4));
    let mut logs = Vec::new();
    let t = b.operate_cut(rect(), &mut logs);
    assert_eq!(t, Some(b"ell".to_vec()));
    assert_eq!(lines(&b), vec!["ho"]);
    assert_eq!(cursor(&b, 0), (0, 1));
}

#[test]
fn paste_puts_all_lines_at_a_single_caret() {
    let mut b = Buffer::new("p".to_string(), "p".to_string(), "ab");
    b.carets.carets.index_mut(0).set_position(Position::new(Cursor::new(0, 1), Selection::empty()));
    let mut logs = Vec::new();
    b.operate_paste(rect(), &mut logs, Some("X\nY"));
    assert_eq!(lines(&b), vec!["aX", "Yb"]);
    assert_eq!(cursor(&b, 0), (1, 1));
}

#[test]
fn paste_without_clipboard_changes_nothing() {
    let mut b = Buffer::new("p".to_string(), "p".to_string(), "ab");
    let mut logs = Vec::new();
    b.operate_paste(rect(), &mut logs, None);
    assert_eq!(lines(&b), vec!["ab"]);
    assert!(!b.modified);
}

#[test]
fn clipboard_lines_go_one_per_caret() {
    let mut b = Buffer::new("p".to_string(), "p".to_string(), "ab\ncd");
    let mut logs = Vec::new();
    b.operate_single_click(2, 1, rect(), &mut logs);
    b.operate_add_cursor(0, 0, rect(), &mut logs);
    assert_eq!(b.carets.carets.len(), 2);
    let parts = b.op_get_each_cursor_clipboard("1\n2");
    assert_eq!(parts.len(), 2);
    assert_eq!(parts.index(0).len(), 1);
    assert_eq!(parts.index(0).index(0).as_str(), "1");
    assert_eq!(parts.index(1).index(0).as_str(), "2");
    let all = b.op_get_each_cursor_clipboard("1\n2\n3");
    assert_eq!(all.len(), 2);
    assert_eq!(all.index(1).len(), 3);
    assert_eq!(all.index(1).index(2).as_str(), "3");
}

#[test]
fn click_moves_the_single_caret_and_starts_a_drag() {
    let mut b = Buffer::new("p".to_string(), "p".to_string(), "hello\nhi");
    let mut logs = Vec::new();
    b.operate_single_click(9, 1, rect(), &mut logs);
    assert_eq!(cursor(&b, 0), (1, 2));
    assert_eq!(b.drag_start_pos, (9, 1));
    b.operate_mouse_select(1, 0, rect(), &mut logs);
    let p = b.carets.carets.index(0).get_position();
    assert_eq!((p.cursor.line, p.cursor.col), (0, 1));
    assert!(!p.selection.is_none());
    assert_eq!((p.selection.line, p.selection.col), (1, 2));
}

#[test]
fn double_click_selects_a_name() {
    let mut b = Buffer::new("p".to_string(), "p".to_string(), "foo bar_1 baz");
    let mut logs = Vec::new();
    b.operate_double_click(6, 0, rect(), &mut logs);
    let p = b.carets.carets.index(0).get_position();
    assert_eq!((p.cursor.line, p.cursor.col), (0, 9));
    assert_eq!((p.selection.line, p.selection.col), (0, 4));
    assert!(!p.selection.is_none());
}

#[test]
fn double_click_on_a_space_changes_nothing() {
    let mut b = Buffer::new("p".to_string(), "p".to_string(), "foo bar");
    let mut logs = Vec::new();
    b.operate_double_click(3, 0, rect(), &mut logs);
    assert_eq!(cursor(&b, 0), (0, 0));
    assert!(b.carets.carets.index(0).is_selection_none());
}

#[test]
fn block_drag_puts_a_caret_on_each_line() {
    let mut b = Buffer::new("p".to_string(), "p".to_string(), "aaaa\nbbbb\ncccc");
    let mut logs = Vec::new();
    b.operate_single_click(1, 0, rect(), &mut logs);
    b.operate_multicursor_select(3, 2, rect(), &mut logs);
    assert_eq!(b.carets.carets.len(), 3);
    for i in 0..3 {
        let p = b.carets.carets.index(i).get_position();
        assert_eq!((p.cursor.line, p.cursor.col), (i, 3));
        assert_eq!((p.selection.line, p.selection.col), (i, 1));
    }
}

#[test]
fn arrows_move_and_select() {
    let mut b = Buffer::new("p".to_string(), "p".to_string(), "ab\ncd");
    let mut logs = Vec::new();
    b.operate_arrow(Arrow::R, false, false, rect(), &mut logs);
    assert_eq!(cursor(&b, 0), (0, 1));
    b.operate_arrow(Arrow::D, true, false, rect(), &mut logs);
    let p = b.carets.carets.index(0).get_position();
    assert_eq!((p.cursor.line, p.cursor.col), (1, 1));
    assert_eq!((p.selection.line, p.selection.col), (0, 1));
    b.operate_arrow(Arrow::End, false, true, rect(), &mut logs);
    let p = b.carets.carets.index(0).get_position();
    assert_eq!((p.cursor.line, p.cursor.col), (1, 0));
    assert!(p.selection.is_none());
    b.operate_arrow(Arrow::L, false, false, rect(), &mut logs);
    assert_eq!(cursor(&b, 0), (0, 2));
}

#[test]
fn a_selection_back_to_its_anchor_goes() {
    let mut b = Buffer::new("p".to_string(), "p".to_string(), "ab");
    let mut logs = Vec::new();
    b.operate_arrow(Arrow::R, true, false, rect(), &mut logs);
    assert!(!b.carets.carets.index(0).is_selection_none());
    b.operate_arrow(Arrow::L, true, false, rect(), &mut logs);
    assert!(b.carets.carets.index(0).is_selection_none());
    assert_eq!(cursor(&b, 0), (0, 0));
}

#[test]
fn saving_joins_lines_with_the_file_ending() {
    let mut b = Buffer::new("p".to_string(), "p".to_string(), "a\r\nb");
    let mut logs = Vec::new();
    let bytes = b.operate_save(&mut logs);
    assert_eq!(bytes, b"a\r\nb".to_vec());
    b.saved(&mut logs);
    assert!(!b.modified);
    assert_eq!(logs.last().unwrap().message, "[I:1] File Saved!");
    assert_eq!(logs.last().unwrap().color, LogColor::Default);
}

#[test]
fn quitting_a_modified_buffer_is_refused() {
    let mut b = Buffer::new("p".to_string(), "p".to_string(), "a");
    let mut logs = Vec::new();
    assert_eq!(b.try_quit(&mut logs), Ok(()));
    assert!(logs.is_empty());
    b.buffer_modified();
    assert_eq!(b.try_quit(&mut logs), Err(()));
    assert_eq!(logs.len(), 1);
    assert_eq!(logs[0].message, "Buffer is modified, try save it first");
    assert_eq!(logs[0].color, LogColor::Info);
}

#[test]
fn scrolling_commands() {
    let mut b = Buffer::new("p".to_string(), "p".to_string(), "a");
    let mut logs = Vec::new();
    b.operate_scroll_next(3, &mut logs);
    assert_eq!(b.scrollbar.position, 3);
    b.operate_scroll_prev(5, &mut logs);
    assert_eq!(b.scrollbar.position, 0);
    b.operate_scroll_next_line(7, &mut logs);
    assert_eq!(b.scrollbar.top_position, 7);
    b.operate_scroll_prev_line(2, &mut logs);
    assert_eq!(b.scrollbar.top_position, 5);
}

#[test]
fn the_view_follows_the_caret() {
    let text = (0..60).map(|i| format!("line {i}")).collect::<Vec<_>>().join("\n");
    let mut b = Buffer::new("p".to_string(), "p".to_string(), &text);
    let mut logs = Vec::new();
    b.operate_arrow(Arrow::PD, false, false, Rect { x: 0, y: 0, width: 80, height: 10 }, &mut logs);
    assert_eq!(cursor(&b, 0), (10, 0));
    assert_eq!(b.scrollbar.top_position, 1);
}

#[test]
fn double_click_timing() {
    assert!(asd::edit_controller::is_double_click(3, 4, 100_000_000, 3, 4));
    assert!(!asd::edit_controller::is_double_click(3, 4, 400_000_000, 3, 4));
    assert!(!asd::edit_controller::is_double_click(3, 4, 100_000_000, 2, 4));
}
