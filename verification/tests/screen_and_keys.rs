use asd::buffer::Buffer;
use asd::caret::Position;
use asd::cursor::Cursor;
use asd::edit_controller::Arrow;
use asd::keymap::{
    editor_key, editor_mouse, save_as_key, save_as_mouse, EditorAction, EditorMouseAction, Key, Modifiers, MouseKind,
    SaveAsAction, SaveAsMouseAction,
};
use asd::menu::{MenuAction, MenuMode};
use asd::scrollbar::{CustomScrollbar, Rect};
use asd::selection::Selection;
use asd::terminal_cursor::TerminalCursor;
use asd::view::{bar_left_text, can_render_cursor, find_in_viewport_position, render_cursor, MarkKind};

fn none() -> Modifiers {
    Modifiers { shift: false, ctrl: false, alt: false, super_key: false, hyper: false, meta: false }
}

fn ctrl() -> Modifiers {
    Modifiers { ctrl: true, ..none() }
}

fn view() -> Rect {
    Rect { x: 6, y: 0, width: 20, height: 5 }
}

fn select(b: &mut Buffer, i: usize, from: (usize, usize), to: (usize, usize)) {
    b.carets.carets.index_mut(i).set_position(Position::new(Cursor::new(to.0, to.1), Selection::new(from.0, from.1)));
}

#[test]
fn position_in_view() {
    let sb = CustomScrollbar::new();
    assert_eq!(find_in_viewport_position(2, 3, view(), &sb), Ok((9, 2)));
}

#[test]
fn position_below_the_view() {
    let sb = CustomScrollbar::new();
    assert_eq!(find_in_viewport_position(7, 3, view(), &sb), Err((0, 0)));
}

#[test]
fn position_right_and_left_of_the_view() {
    let mut sb = CustomScrollbar::new();
    assert_eq!(find_in_viewport_position(1, 25, view(), &sb), Err((26, 1)));
    sb.position = 4;
    assert_eq!(find_in_viewport_position(1, 2, view(), &sb), Err((6, 1)));
    assert_eq!(find_in_viewport_position(1, 5, view(), &sb), Ok((7, 1)));
}

#[test]
fn single_caret_uses_the_terminal_cursor() {
    let b = Buffer::new("p".to_string(), "p".to_string(), "abc\ndef");
    let mut t = TerminalCursor::new();
    t.hide_cursor();
    assert!(can_render_cursor(&b.carets, &b.content, &b.scrollbar, view(), true));
    let marks = render_cursor(&b.carets, &b.content, &b.scrollbar, view(), &mut t, true);
    assert!(marks.is_empty());
    assert!(t.cursor_showing);
    assert_eq!((t.x, t.y), (6, 0));
}

#[test]
fn caret_without_terminal_cursor_is_a_cell() {
    let b = Buffer::new("p".to_string(), "p".to_string(), "abc\ndef");
    let mut t = TerminalCursor::new();
    let marks = render_cursor(&b.carets, &b.content, &b.scrollbar, view(), &mut t, false);
    assert_eq!(marks.len(), 1);
    assert_eq!(marks[0].kind, MarkKind::Cursor);
    assert_eq!(marks[0].area, Rect { x: 6, y: 0, width: 1, height: 1 });
}

#[test]
fn selection_over_lines_is_strips_then_cursor() {
    let mut b = Buffer::new("p".to_string(), "p".to_string(), "abc\ndefg\nhi");
    select(&mut b, 0, (0, 1), (2, 1));
    let mut t = TerminalCursor::new();
    let marks = render_cursor(&b.carets, &b.content, &b.scrollbar, view(), &mut t, true);
    assert!(!t.cursor_showing);
    let got: Vec<(MarkKind, Rect)> = marks.iter().map(|m| (m.kind, m.area)).collect();
    assert_eq!(
        got,
        vec![
            (MarkKind::Selection, Rect { x: 7, y: 0, width: 2, height: 1 }),
            (MarkKind::Selection, Rect { x: 6, y: 1, width: 4, height: 1 }),
            (MarkKind::Selection, Rect { x: 6, y: 2, width: 1, height: 1 }),
            (MarkKind::SelectedCursor, Rect { x: 7, y: 2, width: 1, height: 1 }),
        ]
    );
}

#[test]
fn selection_within_a_line_is_one_strip() {
    let mut b = Buffer::new("p".to_string(), "p".to_string(), "abcdef");
    select(&mut b, 0, (0, 4), (0, 1));
    let mut t = TerminalCursor::new();
    let marks = render_cursor(&b.carets, &b.content, &b.scrollbar, view(), &mut t, false);
    assert_eq!(marks.len(), 2);
    assert_eq!((marks[0].kind, marks[0].area), (MarkKind::Selection, Rect { x: 7, y: 0, width: 3, height: 1 }));
    assert_eq!((marks[1].kind, marks[1].area), (MarkKind::SelectedCursor, Rect { x: 7, y: 0, width: 1, height: 1 }));
}

#[test]
fn selection_starting_past_its_line_cannot_be_drawn() {
    let mut b = Buffer::new("p".to_string(), "p".to_string(), "ab\ncd");
    select(&mut b, 0, (0, 9), (1, 1));
    assert!(!can_render_cursor(&b.carets, &b.content, &b.scrollbar, view(), false));
}

#[test]
fn carets_as_status_text() {
    let mut b = Buffer::new("p".to_string(), "p".to_string(), "abc\ndef");
    assert_eq!(b.carets.to_string(), "1:1 ");
    select(&mut b, 0, (0, 1), (1, 2));
    assert_eq!(b.carets.to_string(), "2:3 TO 1:2 ");
}

#[test]
fn status_bar_left_part() {
    let mut b = Buffer::new("p".to_string(), "notes.txt".to_string(), "abc");
    assert_eq!(bar_left_text(&b), format!(" notes.txt{} 1:1 ", " ".repeat(20)));
    b.modified = true;
    b.scrollbar.freeze = true;
    assert_eq!(bar_left_text(&b), format!(" notes.txt [+] ⏸{} 1:1 ", " ".repeat(14)));
}

#[test]
fn editor_keys_type_and_shortcut() {
    assert_eq!(editor_key(Key::Char('a'), none()), EditorAction::PlaceChar('a'));
    assert_eq!(editor_key(Key::Char('A'), Modifiers { shift: true, ..none() }), EditorAction::PlaceChar('A'));
    assert_eq!(editor_key(Key::Char('z'), ctrl()), EditorAction::Undo);
    assert_eq!(editor_key(Key::Char('z'), Modifiers { shift: true, ..ctrl() }), EditorAction::Redo);
    assert_eq!(editor_key(Key::Char('s'), Modifiers { alt: true, ..ctrl() }), EditorAction::SaveAs);
    assert_eq!(editor_key(Key::Char('k'), ctrl()), EditorAction::Nothing);
    assert_eq!(editor_key(Key::Enter, none()), EditorAction::NewLine);
    assert_eq!(editor_key(Key::Enter, ctrl()), EditorAction::Nothing);
    assert_eq!(editor_key(Key::Esc, none()), EditorAction::OpenMenu);
}

#[test]
fn editor_arrows_move_or_scroll() {
    assert_eq!(editor_key(Key::Left, ctrl()), EditorAction::Move(Arrow::L, false, true));
    assert_eq!(editor_key(Key::End, Modifiers { shift: true, ..none() }), EditorAction::Move(Arrow::End, true, false));
    assert_eq!(editor_key(Key::PageDown, Modifiers { alt: true, ..none() }), EditorAction::ScrollPageDown);
    assert_eq!(editor_key(Key::Home, Modifiers { alt: true, ..none() }), EditorAction::Nothing);
    assert_eq!(editor_key(Key::Up, Modifiers { super_key: true, ..none() }), EditorAction::Nothing);
}

#[test]
fn editor_deletes_only_without_modifiers() {
    assert_eq!(editor_key(Key::Backspace, none()), EditorAction::Backspace);
    assert_eq!(editor_key(Key::Delete, Modifiers { meta: true, ..none() }), EditorAction::Nothing);
}

#[test]
fn editor_mouse_actions() {
    assert_eq!(editor_mouse(MouseKind::LeftDown, none(), false), (EditorMouseAction::SingleClick, true));
    assert_eq!(editor_mouse(MouseKind::LeftDown, none(), true), (EditorMouseAction::DoubleClick, false));
    assert_eq!(editor_mouse(MouseKind::LeftDown, ctrl(), false), (EditorMouseAction::AddCursor, true));
    let shift_alt = Modifiers { shift: true, alt: true, ..none() };
    assert_eq!(editor_mouse(MouseKind::LeftDrag, shift_alt, false), (EditorMouseAction::MulticursorSelect, false));
    assert_eq!(editor_mouse(MouseKind::ScrollDown, none(), false), (EditorMouseAction::ScrollNextLine(5), false));
    assert_eq!(
        editor_mouse(MouseKind::ScrollUp, Modifiers { shift: true, ..none() }, false),
        (EditorMouseAction::ScrollPrev(10), false)
    );
}

#[test]
fn save_as_keys() {
    assert_eq!(save_as_key(Key::Char('c'), none()), SaveAsAction::TypeChar('c'));
    assert_eq!(save_as_key(Key::Char('c'), ctrl()), SaveAsAction::Copy);
    assert_eq!(save_as_key(Key::Enter, none()), SaveAsAction::Confirm);
    assert_eq!(save_as_key(Key::Right, Modifiers { shift: true, ..none() }), SaveAsAction::Right(true));
    assert_eq!(save_as_key(Key::Left, ctrl()), SaveAsAction::Nothing);
    assert_eq!(save_as_mouse(MouseKind::LeftDrag, none(), false), (SaveAsMouseAction::Drag, false));
    assert_eq!(save_as_mouse(MouseKind::OtherDown, none(), true), (SaveAsMouseAction::DoubleClick, false));
}

#[test]
fn basic_menu_entries_and_keys() {
    let m = MenuMode::new_menu_basic();
    assert_eq!(m.commands.len(), 4);
    assert_eq!(m.commands[2].text, "Force quit this buffer");
    assert_eq!(m.action_for(Key::Char('q'), none()), Some(MenuAction::QuitBuffer));
    assert_eq!(m.action_for(Key::Char('Q'), Modifiers { shift: true, ..none() }), Some(MenuAction::ForceQuitBuffer));
    assert_eq!(m.action_for(Key::Char('q'), ctrl()), None);
    assert_eq!(m.action_for(Key::Esc, none()), None);
}

#[test]
fn redo_after_undo_of_one_typed_char() {
    let r = Rect { x: 0, y: 0, width: 80, height: 24 };
    let mut b = Buffer::new("p".to_string(), "p".to_string(), "ab\ncd");
    b.carets.carets.index_mut(0).set_position(Position::new(Cursor::new(1, 1), Selection::empty()));
    let mut logs = Vec::new();
    b.place_char('x', r, &mut logs);
    assert_eq!(b.content.get_lines().clone(), vec![b"ab".to_vec(), b"cxd".to_vec()]);
    b.operate_undo(r, &mut logs);
    assert_eq!(b.content.get_lines().clone(), vec![b"ab".to_vec(), b"cd".to_vec()]);
    b.operate_redo(r, &mut logs);
    assert_eq!(b.content.get_lines().clone(), vec![b"ab".to_vec(), b"cxd".to_vec()]);
}

#[test]
fn shown_lines_cut_to_the_view() {
    let mut b = Buffer::new("p".to_string(), "p".to_string(), "abcdef\nxy\n\nlast");
    b.scrollbar.top_position = 1;
    b.scrollbar.position = 1;
    let shown = asd::view::shown_lines(&b.content, &b.scrollbar, 3, 2);
    assert_eq!(shown, vec![b"y".to_vec(), b"".to_vec()]);
    b.scrollbar.top_position = 0;
    b.scrollbar.position = 3;
    let shown = asd::view::shown_lines(&b.content, &b.scrollbar, 2, 10);
    assert_eq!(shown, vec![b"de".to_vec(), b"".to_vec(), b"".to_vec(), b"t".to_vec()]);
}

#[test]
fn line_numbers_of_the_lines_shown() {
    let mut b = Buffer::new("p".to_string(), "p".to_string(), "a\nb\nc\nd");
    b.scrollbar.top_position = 2;
    assert_eq!(asd::view::line_numbers(&b.content, &b.scrollbar, 5), vec!["3 ".to_string(), "4 ".to_string()]);
    b.scrollbar.top_position = 0;
    assert_eq!(asd::view::line_numbers(&b.content, &b.scrollbar, 1), vec!["1 ".to_string()]);
}

#[test]
fn undo_of_one_deleted_char() {
    let r = Rect { x: 0, y: 0, width: 80, height: 24 };
    let mut b = Buffer::new("p".to_string(), "p".to_string(), "abc");
    b.carets.carets.index_mut(0).set_position(Position::new(Cursor::new(0, 1), Selection::empty()));
    let mut logs = Vec::new();
    b.operate_delete(r, &mut logs);
    assert_eq!(b.content.get_lines().clone(), vec![b"ac".to_vec()]);
    b.operate_undo(r, &mut logs);
    assert_eq!(b.content.get_lines().clone(), vec![b"abc".to_vec()]);
}

#[test]
fn undo_of_one_backspace() {
    let r = Rect { x: 0, y: 0, width: 80, height: 24 };
    let mut b = Buffer::new("p".to_string(), "p".to_string(), "abc\nde");
    b.carets.carets.index_mut(0).set_position(Position::new(Cursor::new(0, 2), Selection::empty()));
    let mut logs = Vec::new();
    b.operate_backspace(r, &mut logs);
    assert_eq!(b.content.get_lines().clone(), vec![b"ac".to_vec(), b"de".to_vec()]);
    b.operate_undo(r, &mut logs);
    assert_eq!(b.content.get_lines().clone(), vec![b"abc".to_vec(), b"de".to_vec()]);
}

#[test]
fn paste_of_what_was_cut() {
    let r = Rect { x: 0, y: 0, width: 80, height: 24 };
    let mut b = Buffer::new("p".to_string(), "p".to_string(), "abcde\nfg");
    select(&mut b, 0, (0, 3), (0, 1));
    let mut logs = Vec::new();
    let cut = b.operate_cut(r, &mut logs).unwrap();
    assert_eq!(cut, b"bc".to_vec());
    assert_eq!(b.content.get_lines().clone(), vec![b"ade".to_vec(), b"fg".to_vec()]);
    let text = String::from_utf8(cut).unwrap();
    b.operate_paste(r, &mut logs, Some(&text));
    assert_eq!(b.content.get_lines().clone(), vec![b"abcde".to_vec(), b"fg".to_vec()]);
}

#[test]
fn undo_of_an_indented_line_break() {
    let r = Rect { x: 0, y: 0, width: 80, height: 24 };
    let mut b = Buffer::new("p".to_string(), "p".to_string(), "  ab\nz");
    b.carets.carets.index_mut(0).set_position(Position::new(Cursor::new(0, 3), Selection::empty()));
    let mut logs = Vec::new();
    b.place_new_line(r, &mut logs);
    assert_eq!(b.content.get_lines().clone(), vec![b"  a".to_vec(), b"  b".to_vec(), b"z".to_vec()]);
    b.operate_undo(r, &mut logs);
    assert_eq!(b.content.get_lines().clone(), vec![b"  ab".to_vec(), b"z".to_vec()]);
}

#[test]
fn undo_of_a_tab() {
    let r = Rect { x: 0, y: 0, width: 80, height: 24 };
    let mut b = Buffer::new("p".to_string(), "p".to_string(), "abc");
    b.carets.carets.index_mut(0).set_position(Position::new(Cursor::new(0, 1), Selection::empty()));
    let mut logs = Vec::new();
    b.operate_tab(r, &mut logs);
    assert_eq!(b.content.get_lines().clone(), vec![b"a   bc".to_vec()]);
    b.operate_undo(r, &mut logs);
    assert_eq!(b.content.get_lines().clone(), vec![b"abc".to_vec()]);
}
