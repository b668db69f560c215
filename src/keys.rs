use vstd::prelude::*;

verus! {

/// The key of a keyboard event, as far as the dashboard tells keys apart.
#[derive(Clone, Copy, Debug, PartialEq, Eq, Structural)]
pub enum Key {
    Char(char),
    Up,
    Down,
    Left,
    Right,
    Esc,
    Other,
}

/// A keyboard event.
#[derive(Clone, Copy, Debug, PartialEq, Eq, Structural)]
pub struct KeyPress {
    pub code: Key,
    pub shift: bool,
    pub control: bool,
    /// A press, as opposed to a release or a repeat.
    pub press: bool,
}

/// What a key asks for.
#[derive(Clone, Copy, Debug, PartialEq, Eq, Structural)]
pub enum Action {
    Dismiss,
    Exit,
    Prev,
    PrevGroup,
    Next,
    NextGroup,
    ReduceVolume,
    ReduceVolumeMore,
    RaiseVolume,
    RaiseVolumeMore,
    /// Set the volume to this many percent.
    SetVolumeTo(u64),
    ToggleMute,
    Nothing,
}

/// `q`, or control-`c`.
pub open spec fn is_quit_key(k: KeyPress) -> bool {
    k.code == Key::Char('q') || (k.code == Key::Char('c') && k.control)
}

/// The percentage a digit key snaps to: ten times the digit, `0` standing for 100.
pub open spec fn snap_percent(c: char) -> Option<u64> {
    if '1' <= c && c <= '9' {
        Some((10 * (c as int - '0' as int)) as u64)
    } else if c == '0' {
        Some(100)
    } else {
        None
    }
}

/// The action of a letter key; shifted letters are the larger step.
pub open spec fn letter_action(c: char) -> Action {
    if c == 'k' {
        Action::Prev
    } else if c == 'j' {
        Action::Next
    } else if c == 'K' {
        Action::PrevGroup
    } else if c == 'J' {
        Action::NextGroup
    } else if c == 'h' {
        Action::ReduceVolume
    } else if c == 'H' {
        Action::ReduceVolumeMore
    } else if c == 'l' {
        Action::RaiseVolume
    } else if c == 'L' {
        Action::RaiseVolumeMore
    } else if c == 'm' {
        Action::ToggleMute
    } else {
        Action::Nothing
    }
}

/// The action of a key when nothing blocks the dashboard.
pub open spec fn key_action(k: KeyPress) -> Action {
    if is_quit_key(k) {
        Action::Exit
    } else {
        match k.code {
            Key::Esc => Action::Dismiss,
            Key::Up => if k.shift {
                Action::PrevGroup
            } else {
                Action::Prev
            },
            Key::Down => if k.shift {
                Action::NextGroup
            } else {
                Action::Next
            },
            Key::Left => if k.shift {
                Action::ReduceVolumeMore
            } else {
                Action::ReduceVolume
            },
            Key::Right => if k.shift {
                Action::RaiseVolumeMore
            } else {
                Action::RaiseVolume
            },
            Key::Char(c) => match snap_percent(c) {
                Some(p) => Action::SetVolumeTo(p),
                None => letter_action(c),
            },
            Key::Other => Action::Nothing,
        }
    }
}

/// The action of a key: only presses count; a connection modal lets only quit through,
/// an error modal only dismiss.
pub open spec fn action_for(k: KeyPress, blocked: bool, has_errors: bool) -> Action {
    if !k.press {
        Action::Nothing
    } else if blocked {
        if is_quit_key(k) {
            Action::Exit
        } else {
            Action::Nothing
        }
    } else if has_errors {
        if k.code == Key::Esc {
            Action::Dismiss
        } else {
            Action::Nothing
        }
    } else {
        key_action(k)
    }
}

fn quit_key(k: KeyPress) -> (r: bool)
    ensures
        r == is_quit_key(k),
{
    match k.code {
        Key::Char(c) => c == 'q' || (c == 'c' && k.control),
        _ => false,
    }
}

fn char_action(c: char) -> (r: Action)
    ensures
        r == (match snap_percent(c) {
            Some(p) => Action::SetVolumeTo(p),
            None => letter_action(c),
        }),
{
    if '1' <= c && c <= '9' {
        return Action::SetVolumeTo(10 * ((c as u32 - '0' as u32) as u64));
    }
    match c {
        '0' => Action::SetVolumeTo(100),
        'k' => Action::Prev,
        'j' => Action::Next,
        'K' => Action::PrevGroup,
        'J' => Action::NextGroup,
        'h' => Action::ReduceVolume,
        'H' => Action::ReduceVolumeMore,
        'l' => Action::RaiseVolume,
        'L' => Action::RaiseVolumeMore,
        'm' => Action::ToggleMute,
        _ => Action::Nothing,
    }
}

/// Maps a key to its action. `blocked`: a connection modal is showing; `has_errors`: an
/// error modal is showing.
pub fn map_key(key: KeyPress, blocked: bool, has_errors: bool) -> (r: Action)
    ensures
        r == action_for(key, blocked, has_errors),
{
    if !key.press {
        return Action::Nothing;
    }
    let quit = quit_key(key);
    if blocked {
        return if quit {
            Action::Exit
        } else {
            Action::Nothing
        };
    }
    if has_errors {
        return match key.code {
            Key::Esc => Action::Dismiss,
            _ => Action::Nothing,
        };
    }
    if quit {
        return Action::Exit;
    }
    match key.code {
        Key::Esc => Action::Dismiss,
        Key::Up => if key.shift {
            Action::PrevGroup
        } else {
            Action::Prev
        },
        Key::Down => if key.shift {
            Action::NextGroup
        } else {
            Action::Next
        },
        Key::Left => if key.shift {
            Action::ReduceVolumeMore
        } else {
            Action::ReduceVolume
        },
        Key::Right => if key.shift {
            Action::RaiseVolumeMore
        } else {
            Action::RaiseVolume
        },
        Key::Char(c) => char_action(c),
        Key::Other => Action::Nothing,
    }
}

} // verus!
