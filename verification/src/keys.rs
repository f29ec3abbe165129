//! What the keys of the interactive view do: which action a key asks for on
//! each screen, how the session picker moves, and how the input dialog edits.
use vstd::prelude::*;

use crate::text::{push_char, trim_ws};
use crate::tui::InteractivePaneFocus;

verus! {

/// A key press, as the interactive view tells keys apart.
#[derive(Clone, Copy, Debug, PartialEq, Eq, Structural)]
pub enum UiKey {
    /// A character typed without Control.
    Char(char),
    /// A character typed with Control held.
    ControlChar(char),
    Up,
    Down,
    PageUp,
    PageDown,
    Tab,
    BackTab,
    End,
    Enter,
    Esc,
    Backspace,
    Other,
}

/// The key as the screens read it: Control is not told apart.
pub open spec fn plain_key(key: UiKey) -> UiKey {
    match key {
        UiKey::ControlChar(c) => UiKey::Char(c),
        _ => key,
    }
}

/// The key as the screens read it: Control is not told apart.
pub fn ignoring_control(key: UiKey) -> (r: UiKey)
    ensures
        r == plain_key(key),
{
    match key {
        UiKey::ControlChar(c) => UiKey::Char(c),
        _ => key,
    }
}

/// Where the keys go: the top level decides before any screen does.
#[derive(Clone, Copy, Debug, PartialEq, Eq, Structural)]
pub enum KeyRoute {
    /// Control-C: leave the interactive view.
    Quit,
    /// The preview is open and the key closes it.
    ClosePreview,
    /// The preview is open and swallows the key.
    Ignore,
    /// The input dialog is open and handles the key.
    Dialog,
    /// The current screen handles the key.
    Screen,
}

/// Where a key goes: Control-C quits anywhere; an open preview closes on
/// Escape or Enter and swallows other keys; an open dialog takes keys next;
/// otherwise the screen handles them.
pub fn route_key(key: UiKey, preview_open: bool, dialog_open: bool) -> (r: KeyRoute)
    ensures
        r == if key == UiKey::ControlChar('c') {
            KeyRoute::Quit
        } else if preview_open {
            if key == UiKey::Esc || key == UiKey::Enter {
                KeyRoute::ClosePreview
            } else {
                KeyRoute::Ignore
            }
        } else if dialog_open {
            KeyRoute::Dialog
        } else {
            KeyRoute::Screen
        },
{
    if key == UiKey::ControlChar('c') {
        KeyRoute::Quit
    } else if preview_open {
        if key == UiKey::Esc || key == UiKey::Enter {
            KeyRoute::ClosePreview
        } else {
            KeyRoute::Ignore
        }
    } else if dialog_open {
        KeyRoute::Dialog
    } else {
        KeyRoute::Screen
    }
}

/// What a key asks for on the session view.
#[derive(Clone, Copy, Debug, PartialEq, Eq, Structural)]
pub enum SessionKeyAction {
    Quit,
    OpenPicker,
    FocusNext,
    FocusPrevious,
    ScrollUp(usize),
    ScrollDown(usize),
    OpenPromptDialog,
    OpenIntentDialog,
    FollowLiveOutput,
    PreviewSelected,
    AcceptSelected,
    RejectSelected,
    CompleteSession,
    Nothing,
}

/// The action of a key on the session view, whether or not Control is held;
/// End follows the live output only while the output pane has the focus.
pub fn session_key_action(key: UiKey, focus: InteractivePaneFocus) -> (r: SessionKeyAction)
    ensures
        r == match plain_key(key) {
            UiKey::Char('q') => SessionKeyAction::Quit,
            UiKey::Char('o') => SessionKeyAction::OpenPicker,
            UiKey::Tab => SessionKeyAction::FocusNext,
            UiKey::BackTab => SessionKeyAction::FocusPrevious,
            UiKey::Up => SessionKeyAction::ScrollUp(1),
            UiKey::Down => SessionKeyAction::ScrollDown(1),
            UiKey::PageUp => SessionKeyAction::ScrollUp(8),
            UiKey::PageDown => SessionKeyAction::ScrollDown(8),
            UiKey::Char('p') => SessionKeyAction::OpenPromptDialog,
            UiKey::Char('n') => SessionKeyAction::OpenIntentDialog,
            UiKey::Char('[') => SessionKeyAction::ScrollUp(3),
            UiKey::Char(']') => SessionKeyAction::ScrollDown(3),
            UiKey::End => if focus == InteractivePaneFocus::Output {
                SessionKeyAction::FollowLiveOutput
            } else {
                SessionKeyAction::Nothing
            },
            UiKey::Char('s') => SessionKeyAction::PreviewSelected,
            UiKey::Char('a') => SessionKeyAction::AcceptSelected,
            UiKey::Char('r') => SessionKeyAction::RejectSelected,
            UiKey::Char('c') => SessionKeyAction::CompleteSession,
            _ => SessionKeyAction::Nothing,
        },
{
    match ignoring_control(key) {
        UiKey::Char('q') => SessionKeyAction::Quit,
        UiKey::Char('o') => SessionKeyAction::OpenPicker,
        UiKey::Tab => SessionKeyAction::FocusNext,
        UiKey::BackTab => SessionKeyAction::FocusPrevious,
        UiKey::Up => SessionKeyAction::ScrollUp(1),
        UiKey::Down => SessionKeyAction::ScrollDown(1),
        UiKey::PageUp => SessionKeyAction::ScrollUp(8),
        UiKey::PageDown => SessionKeyAction::ScrollDown(8),
        UiKey::Char('p') => SessionKeyAction::OpenPromptDialog,
        UiKey::Char('n') => SessionKeyAction::OpenIntentDialog,
        UiKey::Char('[') => SessionKeyAction::ScrollUp(3),
        UiKey::Char(']') => SessionKeyAction::ScrollDown(3),
        UiKey::End => if focus == InteractivePaneFocus::Output {
            SessionKeyAction::FollowLiveOutput
        } else {
            SessionKeyAction::Nothing
        },
        UiKey::Char('s') => SessionKeyAction::PreviewSelected,
        UiKey::Char('a') => SessionKeyAction::AcceptSelected,
        UiKey::Char('r') => SessionKeyAction::RejectSelected,
        UiKey::Char('c') => SessionKeyAction::CompleteSession,
        _ => SessionKeyAction::Nothing,
    }
}

/// What a key asks for on the session picker.
#[derive(Clone, Copy, Debug, PartialEq, Eq, Structural)]
pub enum PickerAction {
    Quit,
    /// Move the highlight to this row.
    Select(usize),
    /// Open the session listed at this row.
    OpenSession(usize),
    /// Start a new intent (the row after the sessions).
    NewIntent,
    Refresh,
    Nothing,
}

/// The action of a key on the session picker, whose rows are the
/// `session_count` sessions and then a row for a new intent, whether or not
/// Control is held; moving wraps around, and Enter on a row that no longer
/// exists does nothing.
pub fn picker_key_action(key: UiKey, index: usize, session_count: usize) -> (r: PickerAction)
    requires
        session_count < usize::MAX,
        index < usize::MAX,
    ensures
        r == match plain_key(key) {
            UiKey::Char('q') | UiKey::Esc => PickerAction::Quit,
            UiKey::Up => PickerAction::Select(
                if index == 0 {
                    session_count
                } else {
                    (index - 1) as usize
                },
            ),
            UiKey::Down => PickerAction::Select(((index + 1) % (session_count + 1)) as usize),
            UiKey::Enter => if index == session_count {
                PickerAction::NewIntent
            } else if index < session_count {
                PickerAction::OpenSession(index)
            } else {
                PickerAction::Nothing
            },
            UiKey::Char('r') => PickerAction::Refresh,
            _ => PickerAction::Nothing,
        },
{
    let option_count = session_count + 1;
    match ignoring_control(key) {
        UiKey::Char('q') | UiKey::Esc => PickerAction::Quit,
        UiKey::Up => PickerAction::Select(
            if index == 0 {
                option_count - 1
            } else {
                index - 1
            },
        ),
        UiKey::Down => PickerAction::Select((index + 1) % option_count),
        UiKey::Enter => if index == session_count {
            PickerAction::NewIntent
        } else if index < session_count {
            PickerAction::OpenSession(index)
        } else {
            PickerAction::Nothing
        },
        UiKey::Char('r') => PickerAction::Refresh,
        _ => PickerAction::Nothing,
    }
}

/// What a key does to the input dialog.
#[derive(Clone, Copy, Debug, PartialEq, Eq, Structural)]
pub enum DialogAction {
    Cancel,
    Submit,
    Edited,
}

/// The text of the dialog after a key: Backspace removes the last
/// character, Enter adds a line feed, Tab a tab, a plain character itself;
/// other keys leave it.
pub open spec fn edited_text(text: Seq<char>, key: UiKey) -> Seq<char> {
    match key {
        UiKey::Backspace => if text.len() > 0 {
            text.drop_last()
        } else {
            text
        },
        UiKey::Enter => text.push('\n'),
        UiKey::Char(c) => text.push(c),
        UiKey::Tab => text.push('\t'),
        _ => text,
    }
}

/// Handles a key in the input dialog: Escape cancels, Control-S submits,
/// other keys edit the text.
pub fn dialog_key(text: &mut Vec<char>, key: UiKey) -> (r: DialogAction)
    ensures
        key == UiKey::Esc ==> r == DialogAction::Cancel && final(text)@ == old(text)@,
        key == UiKey::ControlChar('s') ==> r == DialogAction::Submit && final(text)@ == old(
            text,
        )@,
        key != UiKey::Esc && key != UiKey::ControlChar('s') ==> r == DialogAction::Edited
            && final(text)@ == edited_text(old(text)@, key),
{
    if key == UiKey::Esc {
        return DialogAction::Cancel;
    }
    if key == UiKey::ControlChar('s') {
        return DialogAction::Submit;
    }
    match key {
        UiKey::Backspace => {
            if text.len() > 0 {
                text.pop();
            }
        },
        UiKey::Enter => text.push('\n'),
        UiKey::Char(c) => text.push(c),
        UiKey::Tab => text.push('\t'),
        _ => {},
    }
    DialogAction::Edited
}

/// The submitted text of the dialog, trimmed; blank input is refused with
/// the message to show.
pub fn submitted_text(text: &Vec<char>) -> (r: Result<String, String>)
    ensures
        trim_ws(text@).len() == 0 ==> (r matches Err(m) && m@ == "Input cannot be empty"@),
        trim_ws(text@).len() > 0 ==> (r matches Ok(t) && t@ == trim_ws(text@)),
{
    let t = crate::text::trim_ws_chars(text);
    if t.len() == 0 {
        return Err("Input cannot be empty".to_owned());
    }
    Ok(crate::text::string_from_chars(&t))
}

} // verus!
