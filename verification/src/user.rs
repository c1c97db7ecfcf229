use vstd::prelude::*;

verus! {

/// Top-level commands the host dispatches on.
#[derive(Debug, PartialEq)]
pub enum Command {
    Info,
    NextTrack,
    PrevTrack,
    Print(String),
    ScrollUp(usize),
    ScrollDown(usize),
    Quit,
}

/// A relative volume change.
#[derive(Debug, PartialEq)]
pub enum LevelDelta {
    PercentUp(usize),
    PercentDown(usize),
}

/// One key press, as the dispatcher reads it: a character with its
/// control-modifier state, one of the recognized special keys, or
/// anything else.
#[derive(Clone, Copy, Debug, PartialEq, Eq, Structural)]
pub enum KeyPress {
    Char { ch: char, ctrl: bool },
    Esc,
    Left,
    Right,
    Other,
}

/// The default key bindings: `q`, control-`c` and escape quit, `i` asks
/// for track information, and the arrow keys change tracks.  Every other
/// key does nothing.
pub open spec fn key_command_spec(k: KeyPress) -> Option<Command> {
    match k {
        KeyPress::Char { ch, ctrl } => {
            if ch == 'c' && ctrl {
                Some(Command::Quit)
            } else if ch == 'q' {
                Some(Command::Quit)
            } else if ch == 'i' {
                Some(Command::Info)
            } else {
                None
            }
        },
        KeyPress::Esc => Some(Command::Quit),
        KeyPress::Left => Some(Command::PrevTrack),
        KeyPress::Right => Some(Command::NextTrack),
        KeyPress::Other => None,
    }
}

/// The command a key press sends to the host when no widget has taken
/// the input over.
pub fn default_key_command(k: &KeyPress) -> (r: Option<Command>)
    ensures
        r == key_command_spec(*k),
{
    match k {
        KeyPress::Char { ch, ctrl } => {
            if *ch == 'c' && *ctrl {
                Some(Command::Quit)
            } else if *ch == 'q' {
                Some(Command::Quit)
            } else if *ch == 'i' {
                Some(Command::Info)
            } else {
                None
            }
        },
        KeyPress::Esc => Some(Command::Quit),
        KeyPress::Left => Some(Command::PrevTrack),
        KeyPress::Right => Some(Command::NextTrack),
        KeyPress::Other => None,
    }
}

} // verus!
