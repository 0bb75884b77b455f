//! What the keys and the mouse do: in the editor, in the prompt that asks
//! where to save, and in the menu.
use crate::edit_controller::Arrow;
use vstd::prelude::*;

verus! {

/// A key as the editor reads it.
#[derive(Debug, Clone, Copy, PartialEq, Eq, Structural)]
pub enum Key {
    Char(char),
    Enter,
    Tab,
    Esc,
    Backspace,
    Delete,
    Left,
    Right,
    Up,
    Down,
    Home,
    End,
    PageUp,
    PageDown,
    /// Any other key.
    Other,
}

/// The modifier keys held with a key or a mouse event.
#[derive(Debug, Clone, Copy, PartialEq, Eq, Structural)]
pub struct Modifiers {
    pub shift: bool,
    pub ctrl: bool,
    pub alt: bool,
    pub super_key: bool,
    pub hyper: bool,
    pub meta: bool,
}

impl Modifiers {
    /// Among shift, control, alt and super (the four that shortcuts look
    /// at), exactly the ones given are held.
    pub open spec fn flags_are(self, shift: bool, ctrl: bool, alt: bool, super_key: bool) -> bool {
        self.shift == shift && self.ctrl == ctrl && self.alt == alt && self.super_key == super_key
    }

    /// No modifier at all is held.
    pub open spec fn none(self) -> bool {
        self.flags_are(false, false, false, false) && !self.hyper && !self.meta
    }

    /// Exactly the modifiers given are held, and no other.
    pub open spec fn exactly(self, shift: bool, ctrl: bool, alt: bool) -> bool {
        self.flags_are(shift, ctrl, alt, false) && !self.hyper && !self.meta
    }
}

/// What a key does in the editor.
#[derive(Debug, Clone, Copy, PartialEq, Eq, Structural)]
pub enum EditorAction {
    PlaceChar(char),
    NewLine,
    Tab,
    OpenMenu,
    Undo,
    Redo,
    SaveAs,
    Save,
    Quit,
    ForceQuit,
    ToggleFreeze,
    Copy,
    Paste,
    Cut,
    /// Scroll the view: one column or line, or a page of lines.
    ScrollLeft,
    ScrollRight,
    ScrollUp,
    ScrollDown,
    ScrollPageUp,
    ScrollPageDown,
    /// Move the carets, extending their selections with shift, by words
    /// with control.
    Move(Arrow, bool, bool),
    Backspace,
    Delete,
    Nothing,
}

/// The arrow a key stands for, if it moves the carets.
pub open spec fn arrow_of(k: Key) -> Option<Arrow> {
    match k {
        Key::Left => Some(Arrow::L),
        Key::Right => Some(Arrow::R),
        Key::Up => Some(Arrow::U),
        Key::Down => Some(Arrow::D),
        Key::Home => Some(Arrow::Home),
        Key::End => Some(Arrow::End),
        Key::PageUp => Some(Arrow::PU),
        Key::PageDown => Some(Arrow::PD),
        _ => None,
    }
}

/// The shortcuts with control alone.
pub open spec fn ctrl_shortcut(ch: char) -> EditorAction {
    if ch == 'q' {
        EditorAction::Quit
    } else if ch == 'f' {
        EditorAction::ToggleFreeze
    } else if ch == 's' {
        EditorAction::Save
    } else if ch == 'c' {
        EditorAction::Copy
    } else if ch == 'v' {
        EditorAction::Paste
    } else if ch == 'x' {
        EditorAction::Cut
    } else if ch == 'z' {
        EditorAction::Undo
    } else {
        EditorAction::Nothing
    }
}

/// What an arrow key does: with alt alone it scrolls (not for Home and
/// End); with neither alt nor super it moves the carets.
pub open spec fn arrow_action(a: Arrow, m: Modifiers) -> EditorAction {
    if m.flags_are(false, false, true, false) {
        match a {
            Arrow::L => EditorAction::ScrollLeft,
            Arrow::R => EditorAction::ScrollRight,
            Arrow::U => EditorAction::ScrollUp,
            Arrow::D => EditorAction::ScrollDown,
            Arrow::PU => EditorAction::ScrollPageUp,
            Arrow::PD => EditorAction::ScrollPageDown,
            _ => EditorAction::Nothing,
        }
    } else if m.alt || m.super_key {
        EditorAction::Nothing
    } else {
        EditorAction::Move(a, m.shift, m.ctrl)
    }
}

/// What the key `k` with the modifiers `m` does in the editor: a
/// character with at most shift is typed; Enter, Tab and Esc without
/// modifiers break the line, indent and open the menu; control with shift
/// and `z` redoes, control with alt and `s` saves elsewhere, with `q` quits
/// at once; control alone with a letter is a shortcut (see
/// [`ctrl_shortcut`]); arrow keys move or scroll (see [`arrow_action`]);
/// Backspace and Delete with no modifier at all delete.
pub open spec fn editor_key_action(k: Key, m: Modifiers) -> EditorAction {
    let plain = m.flags_are(false, false, false, false);
    match k {
        Key::Char(ch) => if !m.ctrl && !m.alt && !m.super_key {
            EditorAction::PlaceChar(ch)
        } else if m.flags_are(true, true, false, false) && ch == 'z' {
            EditorAction::Redo
        } else if m.flags_are(false, true, true, false) && ch == 's' {
            EditorAction::SaveAs
        } else if m.flags_are(false, true, true, false) && ch == 'q' {
            EditorAction::ForceQuit
        } else if m.flags_are(false, true, false, false) {
            ctrl_shortcut(ch)
        } else {
            EditorAction::Nothing
        },
        Key::Enter => if plain { EditorAction::NewLine } else { EditorAction::Nothing },
        Key::Tab => if plain { EditorAction::Tab } else { EditorAction::Nothing },
        Key::Esc => if plain { EditorAction::OpenMenu } else { EditorAction::Nothing },
        Key::Backspace => if m.none() { EditorAction::Backspace } else { EditorAction::Nothing },
        Key::Delete => if m.none() { EditorAction::Delete } else { EditorAction::Nothing },
        Key::Other => EditorAction::Nothing,
        _ => arrow_action(arrow_of(k)->0, m),
    }
}

/// The clipboard, history and file shortcuts of the editor: control alone
/// with `c`, `v`, `x`, `z`, `s`, `q` and `f` copies, pastes, cuts, undoes,
/// saves, quits and toggles the frozen view; control with shift and `z`
/// redoes; control with alt and `s` saves elsewhere, with `q` quits at
/// once. No other key and modifiers do any of these.
pub proof fn editor_shortcuts(k: Key, m: Modifiers)
    ensures
        ({
            let ctrl = m.flags_are(false, true, false, false);
            let a = editor_key_action(k, m);
            &&& (a == EditorAction::Copy) == (ctrl && k == Key::Char('c'))
            &&& (a == EditorAction::Paste) == (ctrl && k == Key::Char('v'))
            &&& (a == EditorAction::Cut) == (ctrl && k == Key::Char('x'))
            &&& (a == EditorAction::Undo) == (ctrl && k == Key::Char('z'))
            &&& (a == EditorAction::Save) == (ctrl && k == Key::Char('s'))
            &&& (a == EditorAction::Quit) == (ctrl && k == Key::Char('q'))
            &&& (a == EditorAction::ToggleFreeze) == (ctrl && k == Key::Char('f'))
            &&& (a == EditorAction::Redo) == (m.flags_are(true, true, false, false) && k == Key::Char('z'))
            &&& (a == EditorAction::SaveAs) == (m.flags_are(false, true, true, false) && k == Key::Char('s'))
            &&& (a == EditorAction::ForceQuit) == (m.flags_are(false, true, true, false) && k == Key::Char('q'))
        }),
{
}

/// Typing, line breaks, deletion, scrolling and caret motion in the editor:
/// a character with neither control, alt nor super is typed as itself;
/// Enter, Tab and Esc with no modifier break the line, indent and open the
/// menu; Backspace and Delete with no modifier at all delete; an arrow with
/// alt alone scrolls the way it points (Home and End do not scroll); an
/// arrow key (Home, End and the page keys included) with neither alt nor
/// super moves the carets the way it points, extending the selections with
/// shift and by words with control. No other key and modifiers do any of
/// these.
pub proof fn editor_typing_and_motion(k: Key, m: Modifiers)
    ensures
        ({
            let plain = m.flags_are(false, false, false, false);
            let alt = m.flags_are(false, false, true, false);
            let arrow_key = k == Key::Left || k == Key::Right || k == Key::Up || k == Key::Down || k == Key::Home
                || k == Key::End || k == Key::PageUp || k == Key::PageDown;
            let a = editor_key_action(k, m);
            &&& (a is PlaceChar) == (k is Char && !m.ctrl && !m.alt && !m.super_key)
            &&& a matches EditorAction::PlaceChar(ch) ==> k == Key::Char(ch)
            &&& (a == EditorAction::NewLine) == (k == Key::Enter && plain)
            &&& (a == EditorAction::Tab) == (k == Key::Tab && plain)
            &&& (a == EditorAction::OpenMenu) == (k == Key::Esc && plain)
            &&& (a == EditorAction::Backspace) == (k == Key::Backspace && m.none())
            &&& (a == EditorAction::Delete) == (k == Key::Delete && m.none())
            &&& (a == EditorAction::ScrollLeft) == (k == Key::Left && alt)
            &&& (a == EditorAction::ScrollRight) == (k == Key::Right && alt)
            &&& (a == EditorAction::ScrollUp) == (k == Key::Up && alt)
            &&& (a == EditorAction::ScrollDown) == (k == Key::Down && alt)
            &&& (a == EditorAction::ScrollPageUp) == (k == Key::PageUp && alt)
            &&& (a == EditorAction::ScrollPageDown) == (k == Key::PageDown && alt)
            &&& (a is Move) == (arrow_key && !m.alt && !m.super_key)
            &&& a matches EditorAction::Move(arr, shift, ctrl) ==> {
                &&& shift == m.shift
                &&& ctrl == m.ctrl
                &&& (arr == Arrow::L) == (k == Key::Left)
                &&& (arr == Arrow::R) == (k == Key::Right)
                &&& (arr == Arrow::U) == (k == Key::Up)
                &&& (arr == Arrow::D) == (k == Key::Down)
                &&& (arr == Arrow::Home) == (k == Key::Home)
                &&& (arr == Arrow::End) == (k == Key::End)
                &&& (arr == Arrow::PU) == (k == Key::PageUp)
                &&& (arr == Arrow::PD) == (k == Key::PageDown)
            }
        }),
{
}

/// What a key does in the editor (see [`editor_key_action`]). The handlers are
/// asked in turn: typing, shortcuts, arrows, deletion.
pub fn editor_key(k: Key, m: Modifiers) -> (r: EditorAction)
    ensures
        r == editor_key_action(k, m),
{
    let plain = !m.shift && !m.ctrl && !m.alt && !m.super_key;
    // Typing.
    if !m.ctrl && !m.alt && !m.super_key {
        if let Key::Char(ch) = k {
            return EditorAction::PlaceChar(ch);
        }
    }
    if plain && k == Key::Enter {
        return EditorAction::NewLine;
    }
    if plain && k == Key::Tab {
        return EditorAction::Tab;
    }
    // Shortcuts.
    if plain && k == Key::Esc {
        return EditorAction::OpenMenu;
    }
    let ctrl_shift = m.shift && m.ctrl && !m.alt && !m.super_key;
    let ctrl_alt = !m.shift && m.ctrl && m.alt && !m.super_key;
    if ctrl_shift && k == Key::Char('z') {
        return EditorAction::Redo;
    }
    if ctrl_alt && k == Key::Char('s') {
        return EditorAction::SaveAs;
    }
    if ctrl_alt && k == Key::Char('q') {
        return EditorAction::ForceQuit;
    }
    if !m.shift && m.ctrl && !m.alt && !m.super_key {
        if let Key::Char(ch) = k {
            let a = if ch == 'q' {
                EditorAction::Quit
            } else if ch == 'f' {
                EditorAction::ToggleFreeze
            } else if ch == 's' {
                EditorAction::Save
            } else if ch == 'c' {
                EditorAction::Copy
            } else if ch == 'v' {
                EditorAction::Paste
            } else if ch == 'x' {
                EditorAction::Cut
            } else if ch == 'z' {
                EditorAction::Undo
            } else {
                EditorAction::Nothing
            };
            return a;
        }
    }
    // Arrows.
    let arrow = match k {
        Key::Left => Some(Arrow::L),
        Key::Right => Some(Arrow::R),
        Key::Up => Some(Arrow::U),
        Key::Down => Some(Arrow::D),
        Key::Home => Some(Arrow::Home),
        Key::End => Some(Arrow::End),
        Key::PageUp => Some(Arrow::PU),
        Key::PageDown => Some(Arrow::PD),
        _ => None,
    };
    if let Some(a) = arrow {
        if !m.shift && !m.ctrl && m.alt && !m.super_key {
            return match a {
                Arrow::L => EditorAction::ScrollLeft,
                Arrow::R => EditorAction::ScrollRight,
                Arrow::U => EditorAction::ScrollUp,
                Arrow::D => EditorAction::ScrollDown,
                Arrow::PU => EditorAction::ScrollPageUp,
                Arrow::PD => EditorAction::ScrollPageDown,
                _ => EditorAction::Nothing,
            };
        }
        if m.alt || m.super_key {
            return EditorAction::Nothing;
        }
        return EditorAction::Move(a, m.shift, m.ctrl);
    }
    // Deletion.
    let none = plain && !m.hyper && !m.meta;
    if none && k == Key::Backspace {
        return EditorAction::Backspace;
    }
    if none && k == Key::Delete {
        return EditorAction::Delete;
    }
    EditorAction::Nothing
}

/// A mouse event as the editor reads it.
#[derive(Debug, Clone, Copy, PartialEq, Eq, Structural)]
pub enum MouseKind {
    LeftDown,
    /// A press of another button.
    OtherDown,
    LeftDrag,
    ScrollDown,
    ScrollUp,
    ScrollLeft,
    ScrollRight,
    /// Any other event.
    Other,
}

/// What the mouse does in the editor.
#[derive(Debug, Clone, Copy, PartialEq, Eq, Structural)]
pub enum EditorMouseAction {
    DoubleClick,
    /// Scroll the view right or left by columns.
    ScrollNext(u16),
    ScrollPrev(u16),
    /// Scroll the view down or up by lines.
    ScrollNextLine(usize),
    ScrollPrevLine(usize),
    SingleClick,
    AddCursor,
    MouseSelect,
    MulticursorSelect,
    Nothing,
}

/// A press of any button.
pub open spec fn is_press(k: MouseKind) -> bool {
    k == MouseKind::LeftDown || k == MouseKind::OtherDown
}

/// What the mouse event `k` with the modifiers `m` does in the editor,
/// `double` telling whether a press makes a double click: a double click
/// selects a word; the wheel scrolls five lines, or ten columns with
/// shift, sideways ten columns; a left press with no modifier, or with
/// exactly shift and alt, places the caret, with exactly control adds one;
/// a left drag with no modifier selects, with exactly shift and alt it
/// selects with a caret per line. The second part of the result tells
/// whether the press is remembered for the next double click: every press
/// that does not make one is.
pub open spec fn editor_mouse_action(k: MouseKind, m: Modifiers, double: bool) -> (EditorMouseAction, bool) {
    if is_press(k) && double {
        (EditorMouseAction::DoubleClick, false)
    } else {
        let a = match k {
            MouseKind::ScrollDown => if m.shift { EditorMouseAction::ScrollNext(10) } else { EditorMouseAction::ScrollNextLine(5) },
            MouseKind::ScrollUp => if m.shift { EditorMouseAction::ScrollPrev(10) } else { EditorMouseAction::ScrollPrevLine(5) },
            MouseKind::ScrollLeft => EditorMouseAction::ScrollPrev(10),
            MouseKind::ScrollRight => EditorMouseAction::ScrollNext(10),
            MouseKind::LeftDown => if m.none() || m.exactly(true, false, true) {
                EditorMouseAction::SingleClick
            } else if m.exactly(false, true, false) {
                EditorMouseAction::AddCursor
            } else {
                EditorMouseAction::Nothing
            },
            MouseKind::LeftDrag => if m.none() {
                EditorMouseAction::MouseSelect
            } else if m.exactly(true, false, true) {
                EditorMouseAction::MulticursorSelect
            } else {
                EditorMouseAction::Nothing
            },
            _ => EditorMouseAction::Nothing,
        };
        (a, is_press(k))
    }
}

/// What a mouse event does in the editor (see [`editor_mouse_action`]).
pub fn editor_mouse(k: MouseKind, m: Modifiers, double: bool) -> (r: (EditorMouseAction, bool))
    ensures
        r == editor_mouse_action(k, m, double),
{
    let press = k == MouseKind::LeftDown || k == MouseKind::OtherDown;
    if press && double {
        return (EditorMouseAction::DoubleClick, false);
    }
    let none = !m.shift && !m.ctrl && !m.alt && !m.super_key && !m.hyper && !m.meta;
    let shift_alt = m.shift && !m.ctrl && m.alt && !m.super_key && !m.hyper && !m.meta;
    let ctrl = !m.shift && m.ctrl && !m.alt && !m.super_key && !m.hyper && !m.meta;
    let a = match k {
        MouseKind::ScrollDown => if m.shift { EditorMouseAction::ScrollNext(10) } else { EditorMouseAction::ScrollNextLine(5) },
        MouseKind::ScrollUp => if m.shift { EditorMouseAction::ScrollPrev(10) } else { EditorMouseAction::ScrollPrevLine(5) },
        MouseKind::ScrollLeft => EditorMouseAction::ScrollPrev(10),
        MouseKind::ScrollRight => EditorMouseAction::ScrollNext(10),
        MouseKind::LeftDown => if none || shift_alt {
            EditorMouseAction::SingleClick
        } else if ctrl {
            EditorMouseAction::AddCursor
        } else {
            EditorMouseAction::Nothing
        },
        MouseKind::LeftDrag => if none {
            EditorMouseAction::MouseSelect
        } else if shift_alt {
            EditorMouseAction::MulticursorSelect
        } else {
            EditorMouseAction::Nothing
        },
        _ => EditorMouseAction::Nothing,
    };
    (a, press)
}

/// What a key does in the prompt that asks where to save.
#[derive(Debug, Clone, Copy, PartialEq, Eq, Structural)]
pub enum SaveAsAction {
    TypeChar(char),
    /// Save to the path typed.
    Confirm,
    /// Complete the path (not written yet).
    Complete,
    Cancel,
    Copy,
    Paste,
    Cut,
    /// Move the cursor, extending the selection with shift.
    Left(bool),
    Right(bool),
    Backspace,
    Delete,
    Nothing,
}

/// What the key `k` with the modifiers `m` does in the prompt: a character
/// with at most shift is typed, otherwise `c`, `v` and `x` copy, paste and
/// cut; Enter, Tab and Esc without modifiers save, complete and cancel; the
/// left and right arrows with at most shift move; Backspace and Delete with
/// no modifier at all delete.
pub open spec fn save_as_key_action(k: Key, m: Modifiers) -> SaveAsAction {
    let plain = m.flags_are(false, false, false, false);
    let at_most_shift = !m.ctrl && !m.alt && !m.super_key;
    match k {
        Key::Char(ch) => if at_most_shift {
            SaveAsAction::TypeChar(ch)
        } else if ch == 'c' {
            SaveAsAction::Copy
        } else if ch == 'v' {
            SaveAsAction::Paste
        } else if ch == 'x' {
            SaveAsAction::Cut
        } else {
            SaveAsAction::Nothing
        },
        Key::Enter => if plain { SaveAsAction::Confirm } else { SaveAsAction::Nothing },
        Key::Tab => if plain { SaveAsAction::Complete } else { SaveAsAction::Nothing },
        Key::Esc => if plain { SaveAsAction::Cancel } else { SaveAsAction::Nothing },
        Key::Left => if at_most_shift { SaveAsAction::Left(m.shift) } else { SaveAsAction::Nothing },
        Key::Right => if at_most_shift { SaveAsAction::Right(m.shift) } else { SaveAsAction::Nothing },
        Key::Backspace => if m.none() { SaveAsAction::Backspace } else { SaveAsAction::Nothing },
        Key::Delete => if m.none() { SaveAsAction::Delete } else { SaveAsAction::Nothing },
        _ => SaveAsAction::Nothing,
    }
}

/// What a key does in the prompt (see [`save_as_key_action`]), the handlers
/// asked in turn.
pub fn save_as_key(k: Key, m: Modifiers) -> (r: SaveAsAction)
    ensures
        r == save_as_key_action(k, m),
{
    let plain = !m.shift && !m.ctrl && !m.alt && !m.super_key;
    let at_most_shift = !m.ctrl && !m.alt && !m.super_key;
    // Typing.
    if at_most_shift {
        if let Key::Char(ch) = k {
            return SaveAsAction::TypeChar(ch);
        }
    }
    if plain && k == Key::Enter {
        return SaveAsAction::Confirm;
    }
    if plain && k == Key::Tab {
        return SaveAsAction::Complete;
    }
    // Shortcuts.
    if plain && k == Key::Esc {
        return SaveAsAction::Cancel;
    }
    if k == Key::Char('c') {
        return SaveAsAction::Copy;
    }
    if k == Key::Char('v') {
        return SaveAsAction::Paste;
    }
    if k == Key::Char('x') {
        return SaveAsAction::Cut;
    }
    // Arrows.
    if at_most_shift && k == Key::Left {
        return SaveAsAction::Left(m.shift);
    }
    if at_most_shift && k == Key::Right {
        return SaveAsAction::Right(m.shift);
    }
    // Deletion.
    let none = plain && !m.hyper && !m.meta;
    if none && k == Key::Backspace {
        return SaveAsAction::Backspace;
    }
    if none && k == Key::Delete {
        return SaveAsAction::Delete;
    }
    SaveAsAction::Nothing
}

/// What the mouse does in the prompt.
#[derive(Debug, Clone, Copy, PartialEq, Eq, Structural)]
pub enum SaveAsMouseAction {
    /// A double click (not handled yet).
    DoubleClick,
    Click,
    Drag,
    Nothing,
}

/// What the mouse event `k` with the modifiers `m` does in the prompt,
/// `double` telling whether a press makes a double click: a left press or
/// drag with no modifier places the cursor or selects. The second part
/// tells whether the press is remembered for the next double click.
pub open spec fn save_as_mouse_action(k: MouseKind, m: Modifiers, double: bool) -> (SaveAsMouseAction, bool) {
    if is_press(k) && double {
        (SaveAsMouseAction::DoubleClick, false)
    } else if k == MouseKind::LeftDown && m.none() {
        (SaveAsMouseAction::Click, true)
    } else if k == MouseKind::LeftDrag && m.none() {
        (SaveAsMouseAction::Drag, false)
    } else {
        (SaveAsMouseAction::Nothing, is_press(k))
    }
}

/// What a mouse event does in the prompt (see [`save_as_mouse_action`]).
pub fn save_as_mouse(k: MouseKind, m: Modifiers, double: bool) -> (r: (SaveAsMouseAction, bool))
    ensures
        r == save_as_mouse_action(k, m, double),
{
    let press = k == MouseKind::LeftDown || k == MouseKind::OtherDown;
    if press && double {
        return (SaveAsMouseAction::DoubleClick, false);
    }
    let none = !m.shift && !m.ctrl && !m.alt && !m.super_key && !m.hyper && !m.meta;
    if k == MouseKind::LeftDown && none {
        (SaveAsMouseAction::Click, true)
    } else if k == MouseKind::LeftDrag && none {
        (SaveAsMouseAction::Drag, false)
    } else {
        (SaveAsMouseAction::Nothing, press)
    }
}

} // verus!
