use hakai_core::input::{command_for_key, focus_after_removal, Command, Key};
use hakai_core::tools::ToolId;

#[test]
fn digits_pick_tools() {
    assert_eq!(command_for_key(Key::Digit(1), false), Command::SelectTool(ToolId::Hammer));
    assert_eq!(command_for_key(Key::Digit(9), true), Command::SelectTool(ToolId::Washer));
    assert_eq!(command_for_key(Key::Digit(0), false), Command::Nothing);
}

#[test]
fn tab_cycles_and_shift_reverses() {
    assert_eq!(command_for_key(Key::Tab, false), Command::CycleTool(1));
    assert_eq!(command_for_key(Key::Tab, true), Command::CycleTool(-1));
    assert_eq!(command_for_key(Key::IsoLeftTab, false), Command::CycleTool(-1));
}

#[test]
fn the_other_bindings() {
    assert_eq!(command_for_key(Key::Escape, false), Command::Quit);
    assert_eq!(command_for_key(Key::R, false), Command::EraseAll);
    assert_eq!(command_for_key(Key::Up, false), Command::SetPaletteVisible(true));
    assert_eq!(command_for_key(Key::Down, false), Command::SetPaletteVisible(false));
    assert_eq!(command_for_key(Key::C, false), Command::ToggleCredits);
    assert_eq!(command_for_key(Key::M, false), Command::ToggleMode);
    assert_eq!(command_for_key(Key::Other, false), Command::Nothing);
}

#[test]
fn focus_follows_removal() {
    assert_eq!(focus_after_removal(Some(2), 2), None);
    assert_eq!(focus_after_removal(Some(3), 1), Some(2));
    assert_eq!(focus_after_removal(Some(0), 1), Some(0));
    assert_eq!(focus_after_removal(None, 0), None);
}
