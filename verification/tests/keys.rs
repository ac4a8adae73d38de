use zen_markdown::{shortcut_action, Key, ToolbarCommand, WindowAction};

#[test]
fn window_shortcuts() {
    assert_eq!(shortcut_action(Key::O, false), Some(WindowAction::OpenFile));
    assert_eq!(shortcut_action(Key::S, false), Some(WindowAction::Save));
    assert_eq!(shortcut_action(Key::S, true), Some(WindowAction::SaveAs));
    assert_eq!(shortcut_action(Key::E, true), Some(WindowAction::ToggleEditor));
    assert_eq!(shortcut_action(Key::P, true), Some(WindowAction::TogglePreview));
    assert_eq!(shortcut_action(Key::L, true), Some(WindowAction::ToggleTheme));
    assert_eq!(shortcut_action(Key::O, true), None);
    assert_eq!(shortcut_action(Key::P, false), None);
    assert_eq!(shortcut_action(Key::L, false), None);
}

#[test]
fn formatting_shortcuts() {
    assert_eq!(shortcut_action(Key::B, false), Some(WindowAction::Format(ToolbarCommand::Bold)));
    assert_eq!(shortcut_action(Key::I, false), Some(WindowAction::Format(ToolbarCommand::Italic)));
    assert_eq!(shortcut_action(Key::E, false), Some(WindowAction::Format(ToolbarCommand::InlineCode)));
    assert_eq!(shortcut_action(Key::Num1, false), Some(WindowAction::Format(ToolbarCommand::Heading1)));
    assert_eq!(shortcut_action(Key::Num2, false), Some(WindowAction::Format(ToolbarCommand::Heading2)));
    assert_eq!(shortcut_action(Key::B, true), None);
}
