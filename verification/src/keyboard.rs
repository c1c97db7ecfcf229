use vstd::prelude::*;

use crate::user::KeyPress;

verus! {

/// Playback commands issued from the keyboard.
#[derive(Debug, PartialEq)]
pub enum KeyCommand {
    NextTrack,
    PrevTrack,
    Print(String),
    Quit,
}

/// The plain keyboard bindings: `q`, control-`c` and escape quit, the
/// arrow keys change tracks, everything else does nothing.
pub open spec fn key_command_of(k: KeyPress) -> Option<KeyCommand> {
    match k {
        KeyPress::Char { ch, ctrl } => {
            if ch == 'q' {
                Some(KeyCommand::Quit)
            } else if ch == 'c' && ctrl {
                Some(KeyCommand::Quit)
            } else {
                None
            }
        },
        KeyPress::Esc => Some(KeyCommand::Quit),
        KeyPress::Left => Some(KeyCommand::PrevTrack),
        KeyPress::Right => Some(KeyCommand::NextTrack),
        KeyPress::Other => None,
    }
}

/// The command a key press sends on the plain keyboard interface.
pub fn key_command(k: &KeyPress) -> (r: Option<KeyCommand>)
    ensures
        r == key_command_of(*k),
{
    match k {
        KeyPress::Char { ch, ctrl } => {
            if *ch == 'q' {
                Some(KeyCommand::Quit)
            } else if *ch == 'c' && *ctrl {
                Some(KeyCommand::Quit)
            } else {
                None
            }
        },
        KeyPress::Esc => Some(KeyCommand::Quit),
        KeyPress::Left => Some(KeyCommand::PrevTrack),
        KeyPress::Right => Some(KeyCommand::NextTrack),
        KeyPress::Other => None,
    }
}

} // verus!
