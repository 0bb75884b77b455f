use asd::buffer::Buffer;
use asd::buffers::{Buffers, Inode, OnlineState};
use asd::file_tree::{ColoringProto, FileTree, FileTreeNode, NodePointer, TreeMouse};
use asd::log::{Log, LogColor};
use asd::prompt::{SaveAsData, SaveAsMode};
use asd::scrollbar::Rect;
use asd::terminal_cursor::TerminalCursor;

fn buffer(text: &str) -> Buffer {
    Buffer::new("p".to_string(), "p".to_string(), text)
}

fn listing(p: &String) -> Vec<(String, String, bool)> {
    if p == "/r" {
        vec![
            ("/r/a".to_string(), "a".to_string(), true),
            ("/r/d".to_string(), "d".to_string(), false),
        ]
    } else {
        vec![(format!("{p}/x"), "x".to_string(), true)]
    }
}

#[test]
fn virtual_inodes_count_up() {
    let mut n = 4usize;
    assert_eq!(Inode::virtual_generator(&mut n), Inode::Virtual(5));
    assert_eq!(n, 5);
    assert_eq!(Inode::real_or_virtual(Some(77), &mut n), Inode::Real(77));
    assert_eq!(Inode::real_or_virtual(None, &mut n), Inode::Virtual(6));
}

#[test]
fn buffers_by_inode() {
    let mut bs = Buffers::new(vec![(Inode::Real(1), buffer("a"))], Inode::Real(1));
    assert_eq!(bs.get_online_state(Inode::Real(1)), OnlineState::Opened);
    assert_eq!(bs.get_online_state(Inode::Real(2)), OnlineState::Nothing);
    bs.insert(Inode::Real(2), buffer("b"));
    bs.active_mut().buffer_modified();
    assert_eq!(bs.get_online_state(Inode::Real(1)), OnlineState::Modified);
    assert!(bs.any_modified());
    assert_eq!(bs.active().content.get_lines()[0], b"a".to_vec());
    bs.insert(Inode::Real(2), buffer("c"));
    assert_eq!(bs.inner.len(), 2);
    assert_eq!(bs.inner[1].1.content.get_lines()[0], b"c".to_vec());
}

#[test]
fn opening_focuses_or_opens_once() {
    let mut bs = Buffers::new(vec![(Inode::Real(1), buffer("a"))], Inode::Real(1));
    bs.open_file_or_focus(Inode::Real(3), || buffer("three"));
    assert_eq!(bs.active_inode, Inode::Real(3));
    assert_eq!(bs.inner.len(), 2);
    bs.open_file_or_focus(Inode::Real(1), || panic!("not read again"));
    assert_eq!(bs.active_inode, Inode::Real(1));
    assert_eq!(bs.inner.len(), 2);
}

#[test]
fn closing_the_shown_buffer() {
    let mut bs = Buffers::new(vec![(Inode::Real(1), buffer("a")), (Inode::Real(2), buffer("b"))], Inode::Real(2));
    let mut logs: Vec<Log> = Vec::new();
    bs.active_mut().buffer_modified();
    bs.remove_self(&mut logs);
    assert_eq!(bs.inner.len(), 2);
    assert_eq!(logs[0].message, "Buffer is modified, try save it first");
    bs.active_mut().modified = false;
    bs.remove_self(&mut logs);
    assert_eq!(bs.inner.len(), 1);
    assert_eq!(bs.active_inode, Inode::Real(1));
    bs.quit_current_evt(&mut logs);
    assert_eq!(bs.inner.len(), 1);
    assert_eq!(logs.last().unwrap().color, LogColor::Todo);
    assert_eq!(logs.last().unwrap().message,
        "This buffer is the only opened buffer. try opening another one and close this one (todo)");
}

#[test]
fn quitting_with_a_modified_buffer_is_refused() {
    let mut bs = Buffers::new(vec![(Inode::Real(1), buffer("a"))], Inode::Real(1));
    let mut logs = Vec::new();
    assert!(bs.operate_quit(&mut logs));
    bs.active_mut().buffer_modified();
    assert!(!bs.operate_quit(&mut logs));
    assert_eq!(logs.len(), 2);
    assert_eq!(logs[0].message, "[E:i1] Cannot exit: modified buffer exists");
    assert_eq!(logs[0].color, LogColor::Error);
    assert_eq!(logs[1].message, "[HINT] Use ctrl+alt+q if you sure you want to exit");
    assert_eq!(logs[1].color, LogColor::Hint);
}

#[test]
fn due_timers_record_the_edit() {
    let mut bs = Buffers::new(vec![(Inode::Real(1), buffer("xy"))], Inode::Real(1));
    let mut logs = Vec::new();
    let r = asd::scrollbar::Rect { x: 0, y: 0, width: 80, height: 24 };
    bs.active_mut().place_char('a', r, &mut logs);
    bs.handle_checkpoint_timers(&|_: &std::time::Instant| false, &mut logs);
    assert_eq!(bs.active().checkpoints.others.len(), 0);
    assert!(bs.active().checkpoints.little_timer_deadline.is_some());
    bs.handle_checkpoint_timers(&|_: &std::time::Instant| true, &mut logs);
    assert_eq!(bs.active().checkpoints.others.len(), 1);
    assert!(bs.active().checkpoints.little_timer_deadline.is_none());
    assert!(bs.active().checkpoints.big_timer_deadline.is_none());
}

#[test]
fn commit_all_records_every_buffer() {
    let mut bs = Buffers::new(vec![(Inode::Real(1), buffer("x")), (Inode::Real(2), buffer("y"))], Inode::Real(1));
    let mut logs = Vec::new();
    let r = asd::scrollbar::Rect { x: 0, y: 0, width: 80, height: 24 };
    bs.active_mut().place_char('a', r, &mut logs);
    bs.commit_all(&mut logs);
    assert_eq!(bs.inner[0].1.checkpoints.others.len(), 1);
    assert_eq!(bs.inner[1].1.checkpoints.others.len(), 0);
}

#[test]
fn tree_unfolds_and_lists_rows() {
    let mut t = FileTree::new("/r".to_string(), "r".to_string(), listing);
    assert_eq!(t.width, 20);
    assert_eq!(t.root.children.len(), 2);
    let mut p = NodePointer::new();
    assert_eq!(p.get_on_nth_line(1, &t), Ok(()));
    assert_eq!(p.inner, vec![0]);
    assert_eq!(p.next(&t), Ok(()));
    assert_eq!(p.inner, vec![1]);
    assert_eq!(p.next(&t), Err(()));
    assert!(p.inner.is_empty());
    let mut q = NodePointer::new();
    assert_eq!(q.get_on_nth_line(5, &t), Err(2));
    let bs = Buffers::new(vec![(Inode::Real(9), buffer("a"))], Inode::Real(9));
    let (text, colors) = t.get_all_texts_from_len(0, 10, &bs, |_: &String| Inode::Real(9));
    assert_eq!(text, " ○ ▼ r\n ○ ├─  a\n ○ └─▶ d\n");
    assert_eq!(colors, vec![(4, ColoringProto::Dir), (6, ColoringProto::File), (6, ColoringProto::Dir)]);
    assert_eq!(t.root.children[0].inode, Some(Inode::Real(9)));
}

#[test]
fn a_row_of_the_tree() {
    let mut root = FileTreeNode::dir_from("/r".to_string(), "r".to_string());
    root.expand(listing);
    let bs = Buffers::new(vec![(Inode::Real(1), buffer("a"))], Inode::Real(1));
    let mut s = String::new();
    let mut p = NodePointer::new();
    p.inner.push(1);
    let x = root.r00t_push_string(&p, &mut s, &bs, |_: &String| Inode::Virtual(3));
    assert_eq!(s, "   └─▶ d\n");
    assert_eq!(x, 6);
    assert_eq!(root.children[1].get_inode(|_: &String| Inode::Virtual(4)), Inode::Virtual(3));
    assert_eq!(root.get(&p).unwrap().get_coloring_proto(), ColoringProto::Dir);
    assert!(root.get_mut(&p).is_some());
    p.inner.push(0);
    assert!(root.get(&p).is_none());
    assert!(root.get_mut(&p).is_none());
}

#[test]
fn clicking_tree_rows() {
    let mut t = FileTree::new("/r".to_string(), "r".to_string(), listing);
    assert_eq!(t.handle_event(TreeMouse::LeftDown, 1, 10, listing), Some("/r/a".to_string()));
    assert_eq!(t.handle_event(TreeMouse::LeftDown, 2, 10, listing), None);
    assert!(t.root.children[1].expanded);
    assert_eq!(t.root.children[1].children.len(), 1);
    assert_eq!(t.handle_event(TreeMouse::LeftDown, 7, 10, listing), None);
    t.handle_event(TreeMouse::ScrollDown, 0, 2, listing);
    assert_eq!(t.scrollbar_y, 5);
    t.handle_event(TreeMouse::ScrollDown, 0, 10, listing);
    assert_eq!(t.scrollbar_y, 3);
    t.handle_event(TreeMouse::ScrollUp, 0, 10, listing);
    assert_eq!(t.scrollbar_y, 0);
    let mut sep = false;
    t.handle_separator_event(TreeMouse::LeftDown, 30, &mut sep);
    assert!(sep);
    assert_eq!(t.width, 30);
    t.handle_separator_event(TreeMouse::LeftUp, 40, &mut sep);
    assert!(!sep);
    assert_eq!(t.width, 30);
}

#[test]
fn folding_a_directory() {
    let mut d = FileTreeNode::dir_from("/r".to_string(), "r".to_string());
    assert!(d.dirty);
    assert_eq!(d.handle_single_click(listing), None);
    assert!(d.expanded);
    assert!(!d.dirty);
    assert_eq!(d.handle_single_click(listing), None);
    assert!(!d.expanded);
    let mut f = FileTreeNode::file_from("/r/a".to_string(), "a".to_string());
    assert_eq!(f.handle_single_click(listing), Some("/r/a".to_string()));
    f.expand(listing);
    assert!(!f.expanded);
}

#[test]
fn typing_a_path() {
    let mut d = SaveAsData::new();
    for ch in "abc".chars() {
        d.type_char(ch);
    }
    assert_eq!(d.filepath.iter().collect::<String>(), "abc");
    assert_eq!(d.cursor, 3);
    d.left(true);
    assert_eq!(d.selection, Some(3));
    assert_eq!(d.cursor, 2);
    assert_eq!(d.selected().unwrap().iter().collect::<String>(), "c");
    d.type_char('X');
    assert_eq!(d.filepath.iter().collect::<String>(), "abX");
    assert_eq!(d.selection, None);
    d.backspace();
    assert_eq!(d.filepath.iter().collect::<String>(), "ab");
    d.click(0);
    d.delete();
    assert_eq!(d.filepath.iter().collect::<String>(), "b");
    d.right(false);
    d.right(false);
    assert_eq!(d.cursor, 1);
}

#[test]
fn pasting_and_cutting_a_path() {
    let mut d = SaveAsData::new();
    let mut logs: Vec<Log> = Vec::new();
    assert_eq!(d.paste("/tmp/f", &mut logs), Ok(()));
    assert_eq!(d.cursor, 6);
    assert_eq!(d.paste("a\nb", &mut logs), Err(()));
    assert_eq!(logs[0].message, "There is enter in your pasting thingy");
    assert_eq!(logs[0].color, LogColor::Error);
    assert_eq!(d.filepath.iter().collect::<String>(), "/tmp/f");
    d.click(1);
    d.drag(4);
    assert_eq!(d.selection, Some(1));
    let cut = d.cut().unwrap();
    assert_eq!(cut.iter().collect::<String>(), "tmp");
    assert_eq!(d.filepath.iter().collect::<String>(), "//f");
    assert_eq!(d.cursor, 1);
    assert!(d.cut().is_none());
}

#[test]
fn opening_the_prompt_shows_it() {
    let mut logs = vec![Log::new("old", LogColor::Error)];
    let mut tc = TerminalCursor::new();
    tc.hide_cursor();
    let r = Rect { x: 3, y: 1, width: 40, height: 20 };
    let m = SaveAsMode::new(&mut logs, r, &mut tc);
    assert!(m.data.filepath.is_empty());
    assert_eq!(m.data.cursor, 0);
    assert_eq!(m.data.selection, None);
    assert_eq!(m.data.last_content_rect, r);
    assert!(m.my_logs_collected.is_empty());
    assert_eq!(logs.len(), 2);
    assert_eq!(logs[0].message, "Save to file:");
    assert_eq!(logs[0].color, LogColor::Info);
    assert_eq!(logs[1].message, "");
    assert_eq!((tc.x, tc.y), (0, 21));
    assert!(tc.cursor_showing);
    assert!(tc.render_cursor_showing);
}

#[test]
fn refreshing_the_prompt_places_or_hides_the_cursor() {
    let mut logs = Vec::new();
    let mut tc = TerminalCursor::new();
    let r = Rect { x: 0, y: 0, width: 40, height: 10 };
    let mut m = SaveAsMode::new(&mut logs, r, &mut tc);
    m.data.type_char('a');
    m.data.type_char('b');
    logs.push(Log::new("note", LogColor::Todo));
    m.refresh(&mut logs, 2, r, &mut tc);
    assert_eq!(logs.len(), 3);
    assert_eq!(logs[0].message, "note");
    assert_eq!(logs[2].message, "ab");
    assert_eq!((tc.x, tc.y), (2, 11));
    assert!(tc.cursor_showing);
    m.data.left(true);
    let n = logs.len();
    m.refresh(&mut logs, n, r, &mut tc);
    assert!(!tc.cursor_showing);
    assert_eq!(logs.len(), 3);
}

#[test]
fn the_prompt_shows_its_messages() {
    let mut tc = TerminalCursor::new();
    let mut m = SaveAsMode::new(&mut Vec::new(), Rect { x: 0, y: 0, width: 10, height: 5 }, &mut tc);
    m.data.type_char('x');
    let mut logs = vec![Log::new("before", LogColor::Info), Log::new("new", LogColor::Error)];
    let cursor = m.show(&mut logs, 1, "x".to_string());
    assert_eq!(cursor, Some(1));
    assert_eq!(logs.len(), 3);
    assert_eq!(logs[0].message, "new");
    assert_eq!(logs[1].message, "Save to file:");
    assert_eq!(logs[2].message, "x");
    assert_eq!(m.my_logs_collected.len(), 1);
    m.data.left(true);
    let mut logs2 = Vec::new();
    assert_eq!(m.show(&mut logs2, 0, "x".to_string()), None);
    assert_eq!(logs2.len(), 3);
}
