use asd::caret::{Carets, Position};
use asd::content::{whitespaces_in_the_start_of_the_line, Content};
use asd::cursor::Cursor;
use asd::line_ending::LineEnding;
use asd::little_string::LittleString;
use asd::mostly_one_vec::MostlyOneVec;
use asd::selection::Selection;

fn lines(c: &Content) -> Vec<Vec<u8>> {
    c.get_lines().clone()
}

#[test]
fn text_splits_at_every_line_break() {
    let (c, le) = Content::from_text("a\r\nb\rc\nd");
    assert_eq!(lines(&c), vec![b"a".to_vec(), b"b".to_vec(), b"c".to_vec(), b"d".to_vec()]);
    assert_eq!(le, LineEnding::CRLF);
    let (c, le) = Content::from_text("x\ny");
    assert_eq!(c.len(), 2);
    assert_eq!(le, LineEnding::LF);
    let (_, le) = Content::from_text("x\ry");
    assert_eq!(le, LineEnding::CR);
}

#[test]
fn text_without_breaks_is_one_line() {
    let (c, le) = Content::from_text("");
    assert_eq!(lines(&c), vec![Vec::<u8>::new()]);
    assert_eq!(le, LineEnding::CRLF);
    assert_eq!(le, LineEnding::default());
}

#[test]
fn trailing_break_gives_an_empty_last_line() {
    let (c, _) = Content::from_text("a\n");
    assert_eq!(lines(&c), vec![b"a".to_vec(), Vec::new()]);
}

#[test]
fn saved_text_reads_back_the_same() {
    for text in ["one\ntwo\n", "a\r\nb", "x\ry\r", "", "single"] {
        let (c, le) = Content::from_text(text);
        let bytes = c.to_bytes(le);
        let (c2, le2) = Content::from_text(std::str::from_utf8(&bytes).unwrap());
        assert_eq!(lines(&c2), lines(&c));
        assert_eq!(le2, le);
    }
    let (c, le) = Content::from_text("one\ntwo\n");
    assert_eq!(c.to_bytes(le), b"one\ntwo\n".to_vec());
}

#[test]
fn line_endings_and_names() {
    assert_eq!(LineEnding::CR.get(), b"\r");
    assert_eq!(LineEnding::LF.get(), b"\n");
    assert_eq!(LineEnding::CRLF.get(), b"\r\n");
    assert_eq!(LineEnding::CR.name(), "CR");
    assert_eq!(LineEnding::LF.name(), "LF");
    assert_eq!(LineEnding::CRLF.name(), "CRLF");
}

#[test]
fn indent_is_the_leading_white_space() {
    assert_eq!(whitespaces_in_the_start_of_the_line(b" \t x y"), b" \t ");
    assert_eq!(whitespaces_in_the_start_of_the_line(b"xy"), b"");
    assert_eq!(whitespaces_in_the_start_of_the_line(b"   "), b"   ");
}

#[test]
fn indent_counts_unicode_white_space() {
    let no_break = "\u{a0}x";
    assert_eq!(whitespaces_in_the_start_of_the_line(no_break.as_bytes()), "\u{a0}".as_bytes());
    let wide = "\u{3000}\u{2003} \u{85}\u{2029}\u{200b}y";
    assert_eq!(whitespaces_in_the_start_of_the_line(wide.as_bytes()), "\u{3000}\u{2003} \u{85}\u{2029}".as_bytes());
    for c in ['\u{1680}', '\u{2000}', '\u{200a}', '\u{2028}', '\u{202f}', '\u{205f}', '\u{b}', '\u{c}'] {
        let line = format!("{}z", c);
        let expected = c.to_string();
        assert_eq!(whitespaces_in_the_start_of_the_line(line.as_bytes()), expected.as_bytes());
    }
    for c in ['\u{200b}', '\u{180e}', '\u{feff}', '\u{a1}', '\u{1f600}', '\u{e9}'] {
        let line = format!("{} ", c);
        assert_eq!(whitespaces_in_the_start_of_the_line(line.as_bytes()), b"");
    }
    // A truncated or malformed sequence is no white space.
    assert_eq!(whitespaces_in_the_start_of_the_line(&[0x20, 0xc2]), b" ");
    assert_eq!(whitespaces_in_the_start_of_the_line(&[0xc0, 0xa0]), b"");
}

#[test]
fn longest_line_and_ranges() {
    let (c, _) = Content::from_text("ab\nabcde\nabc");
    assert_eq!(c.get_max_line_length(), 5);
    assert_eq!(c.get(1, 3).unwrap().len(), 2);
    assert!(c.get(2, 4).is_none());
    assert!(c.get(2, 1).is_none());
    assert_eq!(c.index(1), &b"abcde".to_vec());
}

#[test]
fn selected_texts_and_copy() {
    let (c, _) = Content::from_text("hello\nworld");
    let mut carets = Carets::new();
    carets.carets.index_mut(0).set_position(Position::new(Cursor::new(1, 2), Selection::new(0, 3)));
    let texts = c.get_selected_texts(&carets, LineEnding::LF);
    assert_eq!(texts, vec![b"lo\nwo".to_vec()]);
    assert_eq!(c.get_copyable_text(&carets, LineEnding::CRLF), b"lo\r\nwo".to_vec());
}

#[test]
fn little_strings_grow_into_strings() {
    let mut s = LittleString::from_str("abc");
    assert_eq!(s.len(), 3);
    s.push_str("defghij");
    assert_eq!(s.as_str(), "abcdefghij");
    assert_eq!(s.len(), 10);
    s.insert(0, b'_');
    assert_eq!(s.as_str(), "_abcdefghij");
    let t = LittleString::from_str("xy").added("z");
    assert_eq!(t.as_str(), "xyz");
    assert_eq!(t.to_string_added_clone("!"), "xyz!".to_string());
    assert_eq!(t.to_string_clone(), "xyz".to_string());
    let r = LittleString::from_char_repeated(b' ', 12);
    assert_eq!(r.as_str(), "            ");
    assert_eq!(LittleString::from_char('q').as_bytes(), b"q");
    assert_eq!(LittleString::empty().len(), 0);
    assert_eq!(LittleString::from_iter(b"bytes").as_str(), "bytes");
    let mut p = LittleString::from_str("ab");
    p.push('c');
    assert_eq!(p.as_str(), "abc");
}

#[test]
fn mostly_one_vec_keeps_order() {
    let mut v: MostlyOneVec<u32> = MostlyOneVec::with_capacity(0);
    assert!(v.is_empty());
    v.push(1);
    assert_eq!(v.len(), 1);
    v.push(3);
    v.insert(1, 2);
    assert_eq!((*v.index(0), *v.index(1), *v.index(2)), (1, 2, 3));
    assert_eq!(v.swap_remove(0), 1);
    assert_eq!((*v.index(0), *v.index(1)), (3, 2));
    v.truncate(1);
    assert_eq!(v.len(), 1);
    assert_eq!(v.get(1), None);
    assert_eq!(v.last(), Some(&3));
    let doubled = v.map(|x: &u32| *x * 2);
    assert_eq!(*doubled.index(0), 6);
    let from = MostlyOneVec::from_iter(vec![5u32, 6, 7]);
    assert_eq!(from.len(), 3);
    let mut it = from.iter();
    assert_eq!(it.next(), Some(&5));
    assert_eq!(it.next_back(), Some(&7));
    assert_eq!(it.next(), Some(&6));
    assert_eq!(it.next(), None);
}

#[test]
fn mostly_one_vec_resize_keeps_one_at_zero() {
    let mut v: MostlyOneVec<u32> = MostlyOneVec::with_capacity(0);
    v.push(9);
    v.resize_with(0, || 0u32);
    assert_eq!(v.len(), 1);
    v.resize_with(3, || 4u32);
    assert_eq!((*v.index(0), *v.index(1), *v.index(2)), (9, 4, 4));
}
