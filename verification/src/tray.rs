//! The icon in the menu bar.

use vstd::prelude::*;

use crate::text::same_text;

verus! {

/// What the application is doing.
#[derive(Debug, Clone, Copy, PartialEq, Eq, Structural)]
pub enum TrayState {
    Normal,
    Recording,
    Thinking,
}

/// The file with the icon of a state.
pub fn icon_file(state: TrayState) -> (res: &'static str)
    ensures
        res@ == (match state {
            TrayState::Normal => "32x32.png"@,
            TrayState::Recording => "tray-recording.png"@,
            TrayState::Thinking => "tray-thinking.png"@,
        }),
{
    match state {
        TrayState::Normal => "32x32.png",
        TrayState::Recording => "tray-recording.png",
        TrayState::Thinking => "tray-thinking.png",
    }
}

/// What a menu item does.
#[derive(Debug, Clone, Copy, PartialEq, Eq, Structural)]
pub enum MenuAction {
    StartRecording,
    StopRecording,
    OpenWindow,
    Quit,
    Ignore,
}

/// What the menu item with an identifier does.
pub fn menu_action(id: &str) -> (res: MenuAction)
    ensures
        res == (if id@ == "start"@ {
            MenuAction::StartRecording
        } else if id@ == "stop"@ {
            MenuAction::StopRecording
        } else if id@ == "open"@ {
            MenuAction::OpenWindow
        } else if id@ == "quit"@ {
            MenuAction::Quit
        } else {
            MenuAction::Ignore
        }),
{
    if same_text(id, "start") {
        MenuAction::StartRecording
    } else if same_text(id, "stop") {
        MenuAction::StopRecording
    } else if same_text(id, "open") {
        MenuAction::OpenWindow
    } else if same_text(id, "quit") {
        MenuAction::Quit
    } else {
        MenuAction::Ignore
    }
}

/// Each action of the menu has one item that asks for it, and an item that is not known asks for none.
pub proof fn law_menu(id: &str, res: MenuAction)
    requires
        call_ensures(menu_action, (id,), res),
    ensures
        res == MenuAction::StartRecording <==> id@ == "start"@,
        res == MenuAction::StopRecording <==> id@ == "stop"@,
        res == MenuAction::OpenWindow <==> id@ == "open"@,
        res == MenuAction::Quit <==> id@ == "quit"@,
{
    reveal_strlit("start");
    reveal_strlit("stop");
    reveal_strlit("open");
    reveal_strlit("quit");
    assert("start"@.len() == 5 && "stop"@.len() == 4 && "open"@.len() == 4 && "quit"@.len() == 4);
    assert("stop"@[0] != "open"@[0] && "stop"@[0] != "quit"@[0] && "open"@[0] != "quit"@[0]);
}

/// What the application is doing can be told from its icon.
pub proof fn law_icons_differ(a: TrayState, b: TrayState, icon_a: &'static str, icon_b: &'static str)
    requires
        call_ensures(icon_file, (a,), icon_a),
        call_ensures(icon_file, (b,), icon_b),
    ensures
        icon_a@ == icon_b@ <==> a == b,
{
    reveal_strlit("32x32.png");
    reveal_strlit("tray-recording.png");
    reveal_strlit("tray-thinking.png");
    assert("32x32.png"@.len() == 9);
    assert("tray-recording.png"@.len() == 18);
    assert("tray-thinking.png"@.len() == 17);
}

} // verus!
