//! The keyboard shortcuts of the window. Each takes the platform's command
//! key (Cmd on macOS, Ctrl elsewhere), with or without Shift.
use vstd::prelude::*;
use crate::format::ToolbarCommand;

verus! {

/// The keys that shortcuts use.
#[derive(Clone, Copy, PartialEq, Eq, Debug, Structural)]
pub enum Key {
    O,
    S,
    E,
    P,
    L,
    B,
    I,
    Num1,
    Num2,
}

/// What a shortcut asks of the window.
#[derive(Clone, Copy, PartialEq, Eq, Debug, Structural)]
pub enum WindowAction {
    OpenFile,
    Save,
    SaveAs,
    ToggleEditor,
    TogglePreview,
    ToggleTheme,
    /// A formatting command of the editor's toolbar.
    Format(ToolbarCommand),
}

/// The shortcut table: Cmd-O open, Cmd-S save, Cmd-Shift-S save as,
/// Cmd-Shift-E editor, Cmd-Shift-P reader, Cmd-Shift-L theme, and, while
/// the editor shows, Cmd-B bold, Cmd-I italic, Cmd-E inline code, Cmd-1 and
/// Cmd-2 headings.
pub open spec fn shortcut(key: Key, shift: bool) -> Option<WindowAction> {
    match (key, shift) {
        (Key::O, false) => Some(WindowAction::OpenFile),
        (Key::S, false) => Some(WindowAction::Save),
        (Key::S, true) => Some(WindowAction::SaveAs),
        (Key::E, true) => Some(WindowAction::ToggleEditor),
        (Key::P, true) => Some(WindowAction::TogglePreview),
        (Key::L, true) => Some(WindowAction::ToggleTheme),
        (Key::B, false) => Some(WindowAction::Format(ToolbarCommand::Bold)),
        (Key::I, false) => Some(WindowAction::Format(ToolbarCommand::Italic)),
        (Key::E, false) => Some(WindowAction::Format(ToolbarCommand::InlineCode)),
        (Key::Num1, false) => Some(WindowAction::Format(ToolbarCommand::Heading1)),
        (Key::Num2, false) => Some(WindowAction::Format(ToolbarCommand::Heading2)),
        _ => None,
    }
}

/// The action of the command key with `key`, and Shift when `shift`.
pub fn shortcut_action(key: Key, shift: bool) -> (a: Option<WindowAction>)
    ensures
        a == shortcut(key, shift),
{
    match (key, shift) {
        (Key::O, false) => Some(WindowAction::OpenFile),
        (Key::S, false) => Some(WindowAction::Save),
        (Key::S, true) => Some(WindowAction::SaveAs),
        (Key::E, true) => Some(WindowAction::ToggleEditor),
        (Key::P, true) => Some(WindowAction::TogglePreview),
        (Key::L, true) => Some(WindowAction::ToggleTheme),
        (Key::B, false) => Some(WindowAction::Format(ToolbarCommand::Bold)),
        (Key::I, false) => Some(WindowAction::Format(ToolbarCommand::Italic)),
        (Key::E, false) => Some(WindowAction::Format(ToolbarCommand::InlineCode)),
        (Key::Num1, false) => Some(WindowAction::Format(ToolbarCommand::Heading1)),
        (Key::Num2, false) => Some(WindowAction::Format(ToolbarCommand::Heading2)),
        _ => None,
    }
}

} // verus!
