//! The menu: a list of entries, each shown with its key, and run by it.
use crate::keymap::{Key, Modifiers};
use vstd::prelude::*;

verus! {

/// What a menu entry does.
#[derive(Debug, Clone, Copy, PartialEq, Eq, Structural)]
pub enum MenuAction {
    QuitBuffer,
    ForceQuitBuffer,
    OpenHelp,
}

/// A menu entry: its text, the key shown for it, and the key, with exactly
/// its modifiers, that runs it (none for an entry that only tells).
pub struct MenuCommand {
    pub text: String,
    pub shortcut_symbol: String,
    pub handler: Option<(Key, Modifiers, MenuAction)>,
}

impl MenuCommand {
    pub fn new(text: String, shortcut_symbol: String, handler: Option<(Key, Modifiers, MenuAction)>) -> (r: Self)
        ensures
            r.text@ == text@,
            r.shortcut_symbol@ == shortcut_symbol@,
            r.handler == handler,
    {
        Self { text, shortcut_symbol, handler }
    }
}

/// The menu's entries.
pub struct MenuMode {
    pub commands: Vec<MenuCommand>,
}

/// No modifier held.
pub open spec fn no_modifiers() -> Modifiers {
    Modifiers { shift: false, ctrl: false, alt: false, super_key: false, hyper: false, meta: false }
}

/// The entry `c` runs on the key `k` with the modifiers `m`.
pub open spec fn runs_on(c: MenuCommand, k: Key, m: Modifiers) -> bool {
    c.handler matches Some((hk, hm, _a)) && hk == k && hm == m
}

/// What the first of the entries `cs` that runs on `k` with `m` does, if
/// any does.
pub open spec fn first_action(cs: Seq<MenuCommand>, k: Key, m: Modifiers) -> Option<MenuAction>
    decreases cs.len(),
{
    if cs.len() == 0 {
        None
    } else if runs_on(cs[0], k, m) {
        Some((cs[0].handler->0).2)
    } else {
        first_action(cs.drop_first(), k, m)
    }
}

fn owned(s: &str) -> (r: String)
    ensures
        r@ == s@,
{
    s.to_owned()
}

impl MenuMode {
    pub fn new(commands: Vec<MenuCommand>) -> (r: MenuMode)
        ensures
            r.commands@ == commands@,
    {
        MenuMode { commands }
    }

    /// The menu of the editor: closing the menu (Esc, which any key does),
    /// quitting the buffer (`q`), quitting it whether saved or not
    /// (shift and `Q`), and help (`h`).
    pub fn new_menu_basic() -> (r: MenuMode)
        ensures
            r.commands@.len() == 4,
            r.commands@[0].text@ == "Close the menu"@ && r.commands@[0].shortcut_symbol@ == "esc"@
                && r.commands@[0].handler is None,
            r.commands@[1].text@ == "Quit this buffer"@ && r.commands@[1].shortcut_symbol@ == "q"@
                && r.commands@[1].handler == Some((Key::Char('q'), no_modifiers(), MenuAction::QuitBuffer)),
            r.commands@[2].text@ == "Force quit this buffer"@ && r.commands@[2].shortcut_symbol@ == "q"@
                && r.commands@[2].handler == Some((Key::Char('Q'), Modifiers { shift: true, ..no_modifiers() },
                MenuAction::ForceQuitBuffer)),
            r.commands@[3].text@ == "Open help"@ && r.commands@[3].shortcut_symbol@ == "h"@
                && r.commands@[3].handler == Some((Key::Char('h'), no_modifiers(), MenuAction::OpenHelp)),
    {
        let none = Modifiers { shift: false, ctrl: false, alt: false, super_key: false, hyper: false, meta: false };
        let shift = Modifiers { shift: true, ..none };
        let mut commands = Vec::new();
        commands.push(MenuCommand::new(owned("Close the menu"), owned("esc"), None));
        commands.push(MenuCommand::new(owned("Quit this buffer"), owned("q"),
            Some((Key::Char('q'), none, MenuAction::QuitBuffer))));
        commands.push(MenuCommand::new(owned("Force quit this buffer"), owned("q"),
            Some((Key::Char('Q'), shift, MenuAction::ForceQuitBuffer))));
        commands.push(MenuCommand::new(owned("Open help"), owned("h"),
            Some((Key::Char('h'), none, MenuAction::OpenHelp))));
        Self::new(commands)
    }

    /// What a key pressed in the menu does: the action of the first entry
    /// that runs on exactly that key and those modifiers (see
    /// [`first_action`]). Any key closes the menu.
    pub fn action_for(&self, k: Key, m: Modifiers) -> (r: Option<MenuAction>)
        ensures
            r == first_action(self.commands@, k, m),
    {
        let n = self.commands.len();
        let mut i: usize = 0;
        assert(self.commands@.skip(0) =~= self.commands@);
        while i < n
            invariant
                i <= n == self.commands@.len(),
                first_action(self.commands@, k, m) == first_action(self.commands@.skip(i as int), k, m),
            decreases n - i,
        {
            let ghost rest = self.commands@.skip(i as int);
            assert(rest[0] == self.commands@[i as int]);
            assert(rest.drop_first() =~= self.commands@.skip(i + 1));
            if let Some((hk, hm, a)) = self.commands[i].handler {
                if hk == k && hm == m {
                    return Some(a);
                }
            }
            i = i + 1;
        }
        assert(self.commands@.skip(n as int) =~= Seq::<MenuCommand>::empty());
        None
    }
}

} // verus!
