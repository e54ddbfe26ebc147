//! What the native player's keys ask for. A host reads its keyboard, maps
//! each key to a `HostKey`, and carries out the command that
//! `key_command` gives.
use vstd::prelude::*;

use crate::factory::game::PreviewAction;

verus! {

/// The keys the player reacts to, apart from the camera keys.
#[derive(Clone, Copy, Debug, PartialEq, Eq, Structural)]
pub enum HostKey {
    Escape,
    Digit1,
    Digit2,
    Digit3,
    Digit4,
    Digit5,
    Digit6,
    Tab,
    Enter,
    KeyQ,
    Space,
    Period,
    KeyE,
    KeyX,
    Delete,
    KeyR,
    Other,
}

/// A toolbar button's action.
#[derive(Clone, Copy, Debug, PartialEq, Eq, Structural)]
pub enum ToolbarAction {
    Conveyor,
    Extractor,
    Processor,
    Inspect,
    Rotate,
    Remove,
    Facing,
    Pause,
    Step,
    Restart,
}

pub open spec fn toolbar_name(a: ToolbarAction) -> Seq<char> {
    match a {
        ToolbarAction::Conveyor => "conveyor"@,
        ToolbarAction::Extractor => "extractor"@,
        ToolbarAction::Processor => "processor"@,
        ToolbarAction::Inspect => "inspect"@,
        ToolbarAction::Rotate => "rotate"@,
        ToolbarAction::Remove => "remove"@,
        ToolbarAction::Facing => "facing"@,
        ToolbarAction::Pause => "pause"@,
        ToolbarAction::Step => "step"@,
        ToolbarAction::Restart => "restart"@,
    }
}

impl ToolbarAction {
    /// The action's name, as the host's command layer spells it.
    pub fn name(self) -> (r: &'static str)
        ensures
            r@ == toolbar_name(self),
    {
        match self {
            ToolbarAction::Conveyor => "conveyor",
            ToolbarAction::Extractor => "extractor",
            ToolbarAction::Processor => "processor",
            ToolbarAction::Inspect => "inspect",
            ToolbarAction::Rotate => "rotate",
            ToolbarAction::Remove => "remove",
            ToolbarAction::Facing => "facing",
            ToolbarAction::Pause => "pause",
            ToolbarAction::Step => "step",
            ToolbarAction::Restart => "restart",
        }
    }
}

/// What a key asks the host to do.
#[derive(Clone, Copy, Debug, PartialEq, Eq, Structural)]
pub enum HostCommand {
    /// Close the player.
    Exit,
    /// Run a toolbar action.
    UiAction(ToolbarAction),
    /// Apply a pointer action at the cursor.
    Pointer(PreviewAction),
    /// Move keyboard focus to the next toolbar button.
    FocusNext,
    /// Run the focused toolbar button's action.
    ActivateFocused,
}

/// The command a key event asks for: Escape pressed closes the player;
/// otherwise only a fresh press (not a repeat) acts, through its binding.
pub open spec fn key_command_spec(key: HostKey, pressed: bool, repeat: bool) -> Option<HostCommand> {
    if key == HostKey::Escape && pressed {
        Some(HostCommand::Exit)
    } else if !pressed || repeat {
        None
    } else {
        match key {
            HostKey::Digit1 => Some(HostCommand::UiAction(ToolbarAction::Conveyor)),
            HostKey::Digit2 => Some(HostCommand::UiAction(ToolbarAction::Extractor)),
            HostKey::Digit3 => Some(HostCommand::UiAction(ToolbarAction::Processor)),
            HostKey::Digit4 => Some(HostCommand::UiAction(ToolbarAction::Inspect)),
            HostKey::Digit5 => Some(HostCommand::UiAction(ToolbarAction::Rotate)),
            HostKey::Digit6 => Some(HostCommand::UiAction(ToolbarAction::Remove)),
            HostKey::Tab => Some(HostCommand::FocusNext),
            HostKey::Enter => Some(HostCommand::ActivateFocused),
            HostKey::KeyQ => Some(HostCommand::UiAction(ToolbarAction::Facing)),
            HostKey::Space => Some(HostCommand::UiAction(ToolbarAction::Pause)),
            HostKey::Period => Some(HostCommand::UiAction(ToolbarAction::Step)),
            HostKey::KeyE => Some(HostCommand::Pointer(PreviewAction::Rotate)),
            HostKey::KeyX => Some(HostCommand::Pointer(PreviewAction::Remove)),
            HostKey::Delete => Some(HostCommand::Pointer(PreviewAction::Remove)),
            HostKey::KeyR => Some(HostCommand::UiAction(ToolbarAction::Restart)),
            _ => None,
        }
    }
}

/// The command a key event asks for, if any.
pub fn key_command(key: HostKey, pressed: bool, repeat: bool) -> (r: Option<HostCommand>)
    ensures
        r == key_command_spec(key, pressed, repeat),
{
    if key == HostKey::Escape && pressed {
        return Some(HostCommand::Exit);
    }
    if !pressed || repeat {
        return None;
    }
    match key {
        HostKey::Digit1 => Some(HostCommand::UiAction(ToolbarAction::Conveyor)),
        HostKey::Digit2 => Some(HostCommand::UiAction(ToolbarAction::Extractor)),
        HostKey::Digit3 => Some(HostCommand::UiAction(ToolbarAction::Processor)),
        HostKey::Digit4 => Some(HostCommand::UiAction(ToolbarAction::Inspect)),
        HostKey::Digit5 => Some(HostCommand::UiAction(ToolbarAction::Rotate)),
        HostKey::Digit6 => Some(HostCommand::UiAction(ToolbarAction::Remove)),
        HostKey::Tab => Some(HostCommand::FocusNext),
        HostKey::Enter => Some(HostCommand::ActivateFocused),
        HostKey::KeyQ => Some(HostCommand::UiAction(ToolbarAction::Facing)),
        HostKey::Space => Some(HostCommand::UiAction(ToolbarAction::Pause)),
        HostKey::Period => Some(HostCommand::UiAction(ToolbarAction::Step)),
        HostKey::KeyE => Some(HostCommand::Pointer(PreviewAction::Rotate)),
        HostKey::KeyX => Some(HostCommand::Pointer(PreviewAction::Remove)),
        HostKey::Delete => Some(HostCommand::Pointer(PreviewAction::Remove)),
        HostKey::KeyR => Some(HostCommand::UiAction(ToolbarAction::Restart)),
        _ => None,
    }
}

} // verus!
