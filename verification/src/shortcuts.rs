//! Chrome keyboard shortcuts, taken from the keyboard path before keys reach the page: the key
//! either belongs to the chrome (it is swallowed, on press and on release) or goes to the page.
//! The shortcut's action runs only on the initial press (not on release, not on auto-repeat).

use vstd::prelude::*;

verus! {

/// What the chrome does for a shortcut.
#[derive(Debug, Clone, Copy, PartialEq, Eq)]
pub enum ChromeAction {
    /// Escape with the find bar open: close it and clear the highlights.
    CloseFindBar,
    /// Ctrl+Tab: go to the next tab, wrapping around.
    NextTab,
    /// Ctrl+T.
    NewTab,
    /// Ctrl+W (the last tab is never closed).
    CloseActiveTab,
    /// Ctrl+L: focus the address bar.
    FocusUrlBar,
    /// Ctrl+R.
    Reload,
    /// Ctrl+F: open the find bar.
    OpenFindBar,
    /// Ctrl+'+' or Ctrl+'='.
    ZoomIn,
    /// Ctrl+'-' or Ctrl+'_'.
    ZoomOut,
    /// Ctrl+0.
    ZoomReset,
}

/// The chrome's answer to a key event.
#[derive(Debug, Clone, Copy, PartialEq, Eq)]
pub struct KeyDecision {
    /// The key belongs to the chrome and is not forwarded to the page.
    pub swallow: bool,
    /// The action to run now, if any.
    pub action: Option<ChromeAction>,
}

/// The text the UI reports for the Escape key.
pub open spec fn escape_text() -> Seq<char> {
    seq!['\u{1b}']
}

/// The text the UI reports for the Tab key.
pub open spec fn tab_text() -> Seq<char> {
    seq!['\t']
}

/// The Ctrl shortcut bound to a single character, if any.
pub open spec fn ctrl_shortcut(c: char) -> Option<ChromeAction> {
    if c == 't' || c == 'T' {
        Some(ChromeAction::NewTab)
    } else if c == 'w' || c == 'W' {
        Some(ChromeAction::CloseActiveTab)
    } else if c == 'l' || c == 'L' {
        Some(ChromeAction::FocusUrlBar)
    } else if c == 'r' || c == 'R' {
        Some(ChromeAction::Reload)
    } else if c == 'f' || c == 'F' {
        Some(ChromeAction::OpenFindBar)
    } else if c == '+' || c == '=' {
        Some(ChromeAction::ZoomIn)
    } else if c == '-' || c == '_' {
        Some(ChromeAction::ZoomOut)
    } else if c == '0' {
        Some(ChromeAction::ZoomReset)
    } else {
        None
    }
}

/// The decision for a key event with text `text`: Escape is the chrome's only while the find bar
/// is open (closing it on press); without Ctrl every other key goes to the page; with Ctrl, Tab and
/// the bound characters are the chrome's, acting on the initial press only.
pub open spec fn key_decision(
    text: Seq<char>,
    pressed: bool,
    ctrl: bool,
    repeat: bool,
    find_open: bool,
) -> KeyDecision {
    let act = pressed && !repeat;
    if text == escape_text() {
        if find_open {
            KeyDecision {
                swallow: true,
                action: if pressed { Some(ChromeAction::CloseFindBar) } else { None },
            }
        } else {
            KeyDecision { swallow: false, action: None }
        }
    } else if !ctrl {
        KeyDecision { swallow: false, action: None }
    } else if text == tab_text() {
        KeyDecision { swallow: true, action: if act { Some(ChromeAction::NextTab) } else { None } }
    } else if text.len() == 1 && ctrl_shortcut(text[0]) is Some {
        KeyDecision { swallow: true, action: if act { ctrl_shortcut(text[0]) } else { None } }
    } else {
        KeyDecision { swallow: false, action: None }
    }
}

fn ctrl_shortcut_exec(c: char) -> (a: Option<ChromeAction>)
    ensures
        a == ctrl_shortcut(c),
{
    if c == 't' || c == 'T' {
        Some(ChromeAction::NewTab)
    } else if c == 'w' || c == 'W' {
        Some(ChromeAction::CloseActiveTab)
    } else if c == 'l' || c == 'L' {
        Some(ChromeAction::FocusUrlBar)
    } else if c == 'r' || c == 'R' {
        Some(ChromeAction::Reload)
    } else if c == 'f' || c == 'F' {
        Some(ChromeAction::OpenFindBar)
    } else if c == '+' || c == '=' {
        Some(ChromeAction::ZoomIn)
    } else if c == '-' || c == '_' {
        Some(ChromeAction::ZoomOut)
    } else if c == '0' {
        Some(ChromeAction::ZoomReset)
    } else {
        None
    }
}

/// Decides whether a key event is a chrome shortcut (see [`key_decision`]).
pub fn handle_chrome_key(
    text: &str,
    pressed: bool,
    ctrl: bool,
    repeat: bool,
    find_open: bool,
) -> (d: KeyDecision)
    ensures
        d == key_decision(text@, pressed, ctrl, repeat, find_open),
{
    let single: Option<char> = if text.unicode_len() == 1 {
        Some(text.get_char(0))
    } else {
        None
    };
    let is_escape = match single {
        Some(c) => c == '\u{1b}',
        None => false,
    };
    let is_tab = match single {
        Some(c) => c == '\t',
        None => false,
    };
    assert(is_escape == (text@ == escape_text())) by {
        if text@.len() == 1 && text@[0] == '\u{1b}' {
            assert(text@ =~= escape_text());
        }
        if text@ == escape_text() {
            assert(escape_text()[0] == '\u{1b}');
        }
    }
    assert(is_tab == (text@ == tab_text())) by {
        if text@.len() == 1 && text@[0] == '\t' {
            assert(text@ =~= tab_text());
        }
        if text@ == tab_text() {
            assert(tab_text()[0] == '\t');
        }
    }
    let act = pressed && !repeat;
    if is_escape {
        if find_open {
            return KeyDecision {
                swallow: true,
                action: if pressed { Some(ChromeAction::CloseFindBar) } else { None },
            };
        }
        return KeyDecision { swallow: false, action: None };
    }
    if !ctrl {
        return KeyDecision { swallow: false, action: None };
    }
    if is_tab {
        return KeyDecision {
            swallow: true,
            action: if act { Some(ChromeAction::NextTab) } else { None },
        };
    }
    match single {
        Some(c) => match ctrl_shortcut_exec(c) {
            Some(a) => KeyDecision { swallow: true, action: if act { Some(a) } else { None } },
            None => KeyDecision { swallow: false, action: None },
        },
        None => KeyDecision { swallow: false, action: None },
    }
}

/// A released or auto-repeated key never triggers an action; it is swallowed exactly when the
/// initial press of the same key would be.
pub proof fn only_initial_press_acts(text: Seq<char>, ctrl: bool, find_open: bool)
    ensures
        key_decision(text, true, ctrl, true, find_open).action is None || text == escape_text(),
        key_decision(text, false, ctrl, false, find_open).action is None,
        key_decision(text, false, ctrl, false, find_open).swallow == key_decision(
            text,
            true,
            ctrl,
            false,
            find_open,
        ).swallow,
        key_decision(text, true, ctrl, true, find_open).swallow == key_decision(
            text,
            true,
            ctrl,
            false,
            find_open,
        ).swallow,
{
}

/// The Ctrl bindings: with Ctrl held (whatever the find bar's state), each of these single-key
/// texts is the chrome's, and its initial press runs its action: `t`/`T` new tab, `w`/`W` close
/// tab, `l`/`L` address bar, `r`/`R` reload, `f`/`F` find bar, `+`/`=` zoom in, `-`/`_` zoom out,
/// `0` zoom reset; Ctrl+Tab goes to the next tab. Releases and auto-repeats are swallowed without
/// an action.
pub proof fn ctrl_bindings(pressed: bool, repeat: bool, find_open: bool)
    ensures
        ({
            let act = pressed && !repeat;
            let bound = |a: ChromeAction| KeyDecision { swallow: true, action: if act { Some(a) } else { None } };
            &&& key_decision(seq!['t'], pressed, true, repeat, find_open) == bound(ChromeAction::NewTab)
            &&& key_decision(seq!['T'], pressed, true, repeat, find_open) == bound(ChromeAction::NewTab)
            &&& key_decision(seq!['w'], pressed, true, repeat, find_open) == bound(ChromeAction::CloseActiveTab)
            &&& key_decision(seq!['W'], pressed, true, repeat, find_open) == bound(ChromeAction::CloseActiveTab)
            &&& key_decision(seq!['l'], pressed, true, repeat, find_open) == bound(ChromeAction::FocusUrlBar)
            &&& key_decision(seq!['L'], pressed, true, repeat, find_open) == bound(ChromeAction::FocusUrlBar)
            &&& key_decision(seq!['r'], pressed, true, repeat, find_open) == bound(ChromeAction::Reload)
            &&& key_decision(seq!['R'], pressed, true, repeat, find_open) == bound(ChromeAction::Reload)
            &&& key_decision(seq!['f'], pressed, true, repeat, find_open) == bound(ChromeAction::OpenFindBar)
            &&& key_decision(seq!['F'], pressed, true, repeat, find_open) == bound(ChromeAction::OpenFindBar)
            &&& key_decision(seq!['+'], pressed, true, repeat, find_open) == bound(ChromeAction::ZoomIn)
            &&& key_decision(seq!['='], pressed, true, repeat, find_open) == bound(ChromeAction::ZoomIn)
            &&& key_decision(seq!['-'], pressed, true, repeat, find_open) == bound(ChromeAction::ZoomOut)
            &&& key_decision(seq!['_'], pressed, true, repeat, find_open) == bound(ChromeAction::ZoomOut)
            &&& key_decision(seq!['0'], pressed, true, repeat, find_open) == bound(ChromeAction::ZoomReset)
            &&& key_decision(seq!['\t'], pressed, true, repeat, find_open) == bound(ChromeAction::NextTab)
        }),
{
}

/// Keys outside the bindings go to the page: without Ctrl every key but Escape (with the find bar
/// open), and with Ctrl any other single character.
pub proof fn unbound_keys_reach_the_page(text: Seq<char>, pressed: bool, ctrl: bool, repeat: bool, find_open: bool)
    requires
        text != seq!['\u{1b}'],
        text != seq!['\t'],
        !ctrl || (text.len() == 1 && !(text[0] == 't' || text[0] == 'T' || text[0] == 'w' || text[0] == 'W'
            || text[0] == 'l' || text[0] == 'L' || text[0] == 'r' || text[0] == 'R' || text[0] == 'f'
            || text[0] == 'F' || text[0] == '+' || text[0] == '=' || text[0] == '-' || text[0] == '_'
            || text[0] == '0')),
    ensures
        key_decision(text, pressed, ctrl, repeat, find_open) == (KeyDecision { swallow: false, action: None }),
{
}

/// Escape closes an open find bar on press (and is swallowed on release too); with the find bar
/// closed it goes to the page, Ctrl or not.
pub proof fn escape_closes_find_bar(pressed: bool, ctrl: bool, repeat: bool, find_open: bool)
    ensures
        key_decision(seq!['\u{1b}'], pressed, ctrl, repeat, find_open) == (if find_open {
            KeyDecision { swallow: true, action: if pressed { Some(ChromeAction::CloseFindBar) } else { None } }
        } else {
            KeyDecision { swallow: false, action: None }
        }),
{
}

} // verus!
