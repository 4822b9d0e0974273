//! Key events and the actions they stand for.

use vstd::prelude::*;

verus! {

/// What the interface is doing: showing the devices, or editing the input
/// or the output of the selected one.
#[derive(Copy, Clone, Debug, PartialEq, Eq, Structural)]
pub enum UiMode {
    View,
    EditInput,
    EditOutput,
}

/// The modifier keys that are held down.
#[derive(Copy, Clone, Debug, PartialEq, Eq, Structural)]
pub struct ModifierKeys {
    pub caps_lock: bool,
    pub shift: bool,
    pub control: bool,
    pub option: bool,
    pub command: bool,
    pub func: bool,
}

/// One event for the dispatcher.
#[derive(Copy, Clone, Debug, PartialEq, Eq, Structural)]
pub enum Action {
    KeyUp { key_code: i64, modifiers: ModifierKeys },
    KeyDown { key_code: i64, repeating: bool, modifiers: ModifierKeys },
    Modifier { modifiers: ModifierKeys },
    ModeSwitch(UiMode),
    SelectNext,
    SelectPrev,
    VolumeUp,
    VolumeDown,
    ToggleMute,
    Poll,
    Exit,
}

/// The kinds of key event that the system-wide tap listens for.
#[derive(Copy, Clone, Debug, PartialEq, Eq, Structural)]
pub enum KeyKind {
    Down,
    Up,
    FlagsChanged,
    Other,
}

/// A key pressed in the terminal, as far as the dispatcher tells keys apart.
#[derive(Copy, Clone, Debug, PartialEq, Eq, Structural)]
pub enum TerminalKey {
    Ctrl(char),
    Char(char),
    Esc,
    Up,
    Down,
    Left,
    Right,
    Other,
}

/// The one name where the key is held, nothing where it is not.
pub open spec fn listed(held: bool, name: Seq<char>) -> Seq<Seq<char>> {
    if held {
        seq![name]
    } else {
        Seq::empty()
    }
}

/// The names of the held modifier keys, in the order in which they are shown.
pub open spec fn active_names(keys: ModifierKeys) -> Seq<Seq<char>> {
    listed(keys.func, "fn"@) + listed(keys.caps_lock, "caps lock"@) + listed(keys.shift, "shift"@)
        + listed(keys.control, "control"@) + listed(keys.option, "option"@) + listed(
        keys.command,
        "command"@,
    )
}

/// A run of strings by their characters.
pub open spec fn texts(names: Seq<String>) -> Seq<Seq<char>> {
    names.map_values(|s: String| s@)
}

/// The action that a key event of the system-wide tap stands for. The
/// auto-repeat field of the event counts as set when it is above zero.
pub open spec fn tapped(kind: KeyKind, key_code: i64, autorepeat: i64, modifiers: ModifierKeys)
    -> Option<Action> {
    match kind {
        KeyKind::Down => Some(Action::KeyDown { key_code, repeating: autorepeat > 0, modifiers }),
        KeyKind::Up => Some(Action::KeyUp { key_code, modifiers }),
        KeyKind::FlagsChanged => Some(Action::Modifier { modifiers }),
        KeyKind::Other => None,
    }
}

/// The action that a key pressed in the terminal stands for.
pub open spec fn typed(key: TerminalKey) -> Option<Action> {
    match key {
        TerminalKey::Ctrl(c) => if c == 'c' {
            Some(Action::Exit)
        } else {
            None
        },
        TerminalKey::Char(c) => if c == 'i' {
            Some(Action::ModeSwitch(UiMode::EditInput))
        } else if c == 'o' {
            Some(Action::ModeSwitch(UiMode::EditOutput))
        } else if c == '/' {
            Some(Action::ToggleMute)
        } else {
            None
        },
        TerminalKey::Esc => Some(Action::ModeSwitch(UiMode::View)),
        TerminalKey::Up => Some(Action::SelectPrev),
        TerminalKey::Down => Some(Action::SelectNext),
        TerminalKey::Left => Some(Action::VolumeDown),
        TerminalKey::Right => Some(Action::VolumeUp),
        TerminalKey::Other => None,
    }
}

impl Default for ModifierKeys {
    fn default() -> (keys: ModifierKeys)
        ensures
            keys == (ModifierKeys {
                caps_lock: false,
                shift: false,
                control: false,
                option: false,
                command: false,
                func: false,
            }),
    {
        ModifierKeys {
            caps_lock: false,
            shift: false,
            control: false,
            option: false,
            command: false,
            func: false,
        }
    }
}

impl ModifierKeys {
    /// The names of the held modifier keys: fn, caps lock, shift, control,
    /// option, command, in this order.
    pub fn list_active(&self) -> (out: Vec<String>)
        ensures
            texts(out@) == active_names(*self),
    {
        broadcast use vstd::string::group_string_axioms;

        let mut out: Vec<String> = Vec::new();
        assert(texts(out@) =~= Seq::<Seq<char>>::empty());
        if self.func {
            out.push("fn".to_string());
        }
        assert(texts(out@) =~= listed(self.func, "fn"@));
        if self.caps_lock {
            out.push("caps lock".to_string());
        }
        assert(texts(out@) =~= listed(self.func, "fn"@) + listed(self.caps_lock, "caps lock"@));
        if self.shift {
            out.push("shift".to_string());
        }
        assert(texts(out@) =~= listed(self.func, "fn"@) + listed(self.caps_lock, "caps lock"@)
            + listed(self.shift, "shift"@));
        if self.control {
            out.push("control".to_string());
        }
        assert(texts(out@) =~= listed(self.func, "fn"@) + listed(self.caps_lock, "caps lock"@)
            + listed(self.shift, "shift"@) + listed(self.control, "control"@));
        if self.option {
            out.push("option".to_string());
        }
        assert(texts(out@) =~= listed(self.func, "fn"@) + listed(self.caps_lock, "caps lock"@)
            + listed(self.shift, "shift"@) + listed(self.control, "control"@) + listed(
            self.option,
            "option"@,
        ));
        if self.command {
            out.push("command".to_string());
        }
        assert(texts(out@) =~= active_names(*self));
        out
    }
}

impl Action {
    /// The action that a key event of the system-wide tap stands for, if
    /// any.
    pub fn from_tap(kind: KeyKind, key_code: i64, autorepeat: i64, modifiers: ModifierKeys) -> (action:
        Option<Action>)
        ensures
            action == tapped(kind, key_code, autorepeat, modifiers),
    {
        match kind {
            KeyKind::Down => Some(
                Action::KeyDown { key_code, repeating: autorepeat > 0, modifiers },
            ),
            KeyKind::Up => Some(Action::KeyUp { key_code, modifiers }),
            KeyKind::FlagsChanged => Some(Action::Modifier { modifiers }),
            KeyKind::Other => None,
        }
    }

    /// The action that a key pressed in the terminal stands for, if any.
    pub fn from_terminal(key: TerminalKey) -> (action: Option<Action>)
        ensures
            action == typed(key),
    {
        match key {
            TerminalKey::Ctrl(c) => if c == 'c' {
                Some(Action::Exit)
            } else {
                None
            },
            TerminalKey::Char(c) => if c == 'i' {
                Some(Action::ModeSwitch(UiMode::EditInput))
            } else if c == 'o' {
                Some(Action::ModeSwitch(UiMode::EditOutput))
            } else if c == '/' {
                Some(Action::ToggleMute)
            } else {
                None
            },
            TerminalKey::Esc => Some(Action::ModeSwitch(UiMode::View)),
            TerminalKey::Up => Some(Action::SelectPrev),
            TerminalKey::Down => Some(Action::SelectNext),
            TerminalKey::Left => Some(Action::VolumeDown),
            TerminalKey::Right => Some(Action::VolumeUp),
            TerminalKey::Other => None,
        }
    }
}

} // verus!
