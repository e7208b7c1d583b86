use vstd::prelude::*;
use crate::strings::{has_prefix, to_chars};

verus! {

/// What a choice in the tray menu asks for.
#[derive(Clone, Copy, Debug, PartialEq, Eq, Structural)]
pub enum MenuAction {
    /// Show the main window and give it the focus.
    ShowWindow,
    /// Hide the main window.
    HideWindow,
    /// Leave the application.
    Quit,
    /// Nothing.
    Ignore,
}

/// What a click on the tray icon asks for.
#[derive(Clone, Copy, Debug, PartialEq, Eq, Structural)]
pub enum TrayAction {
    /// Show the main window and give it the focus.
    ShowWindow,
    /// Hide the main window.
    HideWindow,
    /// Nothing.
    Ignore,
}

/// The action that the tray menu item `id` stands for.
pub open spec fn menu_action_of(id: Seq<char>) -> MenuAction {
    if id == seq!['s', 'h', 'o', 'w'] {
        MenuAction::ShowWindow
    } else if id == seq!['h', 'i', 'd', 'e'] {
        MenuAction::HideWindow
    } else if id == seq!['q', 'u', 'i', 't'] {
        MenuAction::Quit
    } else {
        MenuAction::Ignore
    }
}

/// Whether the characters `s` are exactly `word`.
fn is_word(s: &[char], word: &[char]) -> (r: bool)
    ensures
        r == (s@ == word@),
{
    if s.len() != word.len() {
        return false;
    }
    let r = has_prefix(s, word);
    assert(s@.take(word@.len() as int) == s@);
    r
}

/// The action that the tray menu item with the id `id` (`show`, `hide`,
/// `quit`) stands for; any other id stands for nothing.
pub fn menu_action(id: &str) -> (r: MenuAction)
    ensures
        r == menu_action_of(id@),
{
    let v = to_chars(id);
    let show: [char; 4] = ['s', 'h', 'o', 'w'];
    let hide: [char; 4] = ['h', 'i', 'd', 'e'];
    let quit: [char; 4] = ['q', 'u', 'i', 't'];
    assert(show@ == seq!['s', 'h', 'o', 'w']);
    assert(hide@ == seq!['h', 'i', 'd', 'e']);
    assert(quit@ == seq!['q', 'u', 'i', 't']);
    if is_word(v.as_slice(), &show) {
        MenuAction::ShowWindow
    } else if is_word(v.as_slice(), &hide) {
        MenuAction::HideWindow
    } else if is_word(v.as_slice(), &quit) {
        MenuAction::Quit
    } else {
        MenuAction::Ignore
    }
}

/// The action that a click on the tray icon asks for: a release of the left
/// button toggles the main window (hides it where it is visible, else shows
/// it), where its visibility could be read (`visible` is `None` where it
/// could not); every other click asks for nothing.
pub fn tray_click_action(left_button: bool, released: bool, visible: Option<bool>) -> (r:
    TrayAction)
    ensures
        r == (if left_button && released {
            match visible {
                Some(true) => TrayAction::HideWindow,
                Some(false) => TrayAction::ShowWindow,
                None => TrayAction::Ignore,
            }
        } else {
            TrayAction::Ignore
        }),
{
    if left_button && released {
        match visible {
            Some(true) => TrayAction::HideWindow,
            Some(false) => TrayAction::ShowWindow,
            None => TrayAction::Ignore,
        }
    } else {
        TrayAction::Ignore
    }
}

} // verus!
