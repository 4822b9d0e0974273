use audioctl::audio::Channel;
use audioctl::events::{Action, KeyKind, ModifierKeys, TerminalKey, UiMode};
use audioctl::snapshot::{Command, Plan, Probe, Reading, Snapshot};
use audioctl::state::{AppState, Reaction, STEP_DOWN, STEP_UP};

fn keys(caps_lock: bool, shift: bool, control: bool, option: bool, command: bool, func: bool)
    -> ModifierKeys {
    ModifierKeys { caps_lock, shift, control, option, command, func }
}

fn none() -> ModifierKeys {
    ModifierKeys::default()
}

fn started() -> AppState {
    let mut state = AppState::new();
    let os = Snapshot {
        devices: Some(vec![Reading {
            id: 4,
            uid: "u".to_string(),
            name: "Headset".to_string(),
            input: Probe { level: Some(950_000), mute: Some(false) },
            output: Probe { level: Some(50_000), mute: Some(false) },
        }]),
        default_input: 4,
        default_output: 4,
    };
    state.audio.update(&os, false).unwrap();
    state
}

#[test]
fn no_modifier_is_held_by_default() {
    assert_eq!(ModifierKeys::default(), keys(false, false, false, false, false, false));
    assert_eq!(ModifierKeys::default().list_active(), Vec::<String>::new());
}

#[test]
fn held_modifiers_are_listed_in_a_fixed_order() {
    assert_eq!(
        keys(true, true, true, true, true, true).list_active(),
        vec!["fn", "caps lock", "shift", "control", "option", "command"]
    );
    assert_eq!(keys(true, false, false, false, false, false).list_active(), vec!["caps lock"]);
    assert_eq!(keys(false, true, false, false, false, false).list_active(), vec!["shift"]);
    assert_eq!(keys(false, false, true, false, false, false).list_active(), vec!["control"]);
    assert_eq!(keys(false, false, false, true, false, false).list_active(), vec!["option"]);
    assert_eq!(keys(false, false, false, false, true, false).list_active(), vec!["command"]);
    assert_eq!(keys(false, false, false, false, false, true).list_active(), vec!["fn"]);
    assert_eq!(
        keys(false, true, false, false, true, true).list_active(),
        vec!["fn", "shift", "command"]
    );
}

#[test]
fn tap_events_become_actions() {
    let held = keys(false, true, false, false, false, false);
    assert_eq!(
        Action::from_tap(KeyKind::Down, 12, 0, held),
        Some(Action::KeyDown { key_code: 12, repeating: false, modifiers: held })
    );
    assert_eq!(
        Action::from_tap(KeyKind::Down, 12, 1, held),
        Some(Action::KeyDown { key_code: 12, repeating: true, modifiers: held })
    );
    assert_eq!(
        Action::from_tap(KeyKind::Down, 12, -1, held),
        Some(Action::KeyDown { key_code: 12, repeating: false, modifiers: held })
    );
    assert_eq!(
        Action::from_tap(KeyKind::Up, 12, 1, held),
        Some(Action::KeyUp { key_code: 12, modifiers: held })
    );
    assert_eq!(
        Action::from_tap(KeyKind::FlagsChanged, 56, 0, held),
        Some(Action::Modifier { modifiers: held })
    );
    assert_eq!(Action::from_tap(KeyKind::Other, 12, 0, held), None);
}

#[test]
fn terminal_keys_become_actions() {
    assert_eq!(Action::from_terminal(TerminalKey::Ctrl('c')), Some(Action::Exit));
    assert_eq!(Action::from_terminal(TerminalKey::Ctrl('d')), None);
    assert_eq!(
        Action::from_terminal(TerminalKey::Char('i')),
        Some(Action::ModeSwitch(UiMode::EditInput))
    );
    assert_eq!(
        Action::from_terminal(TerminalKey::Char('o')),
        Some(Action::ModeSwitch(UiMode::EditOutput))
    );
    assert_eq!(Action::from_terminal(TerminalKey::Char('/')), Some(Action::ToggleMute));
    assert_eq!(Action::from_terminal(TerminalKey::Char('c')), None);
    assert_eq!(
        Action::from_terminal(TerminalKey::Esc),
        Some(Action::ModeSwitch(UiMode::View))
    );
    assert_eq!(Action::from_terminal(TerminalKey::Up), Some(Action::SelectPrev));
    assert_eq!(Action::from_terminal(TerminalKey::Down), Some(Action::SelectNext));
    assert_eq!(Action::from_terminal(TerminalKey::Left), Some(Action::VolumeDown));
    assert_eq!(Action::from_terminal(TerminalKey::Right), Some(Action::VolumeUp));
    assert_eq!(Action::from_terminal(TerminalKey::Other), None);
}

#[test]
fn the_application_starts_idle() {
    let state = AppState::new();
    assert!(state.audio.device_list().is_empty());
    assert_eq!(state.audio.toggle_mute(Channel::Input), Plan::Idle);
    assert_eq!(state.audio.toggle_mute(Channel::Output), Plan::Idle);
    assert_eq!(state.keys, Vec::<i64>::new());
    assert_eq!(state.key_modifiers, Vec::<String>::new());
    assert_eq!(state.mode, UiMode::View);
}

#[test]
fn keys_are_tracked_while_they_are_held() {
    let mut state = AppState::new();
    let shift = keys(false, true, false, false, false, false);
    assert_eq!(
        state.step(Action::KeyDown { key_code: 5, repeating: false, modifiers: shift }),
        Reaction::Draw(Plan::Idle)
    );
    assert_eq!(state.keys, vec![5]);
    assert_eq!(state.key_modifiers, vec!["shift"]);
    assert_eq!(
        state.step(Action::KeyDown { key_code: 5, repeating: true, modifiers: none() }),
        Reaction::Ignore
    );
    assert_eq!(state.keys, vec![5]);
    assert_eq!(state.key_modifiers, vec!["shift"]);
    state.step(Action::KeyDown { key_code: 9, repeating: false, modifiers: shift });
    state.step(Action::KeyDown { key_code: 5, repeating: false, modifiers: shift });
    assert_eq!(state.keys, vec![5, 9, 5]);

    assert_eq!(
        state.step(Action::KeyUp { key_code: 77, modifiers: none() }),
        Reaction::Ignore
    );
    assert_eq!(state.keys, vec![5, 9, 5]);
    assert_eq!(state.key_modifiers, vec!["shift"]);
    assert_eq!(
        state.step(Action::KeyUp { key_code: 5, modifiers: none() }),
        Reaction::Draw(Plan::Idle)
    );
    assert_eq!(state.keys, vec![9, 5]);
    assert_eq!(state.key_modifiers, Vec::<String>::new());

    let both = keys(false, false, true, true, false, false);
    assert_eq!(state.step(Action::Modifier { modifiers: both }), Reaction::Draw(Plan::Idle));
    assert_eq!(state.key_modifiers, vec!["control", "option"]);
    assert_eq!(state.keys, vec![9, 5]);
}

#[test]
fn commands_need_an_edit_mode() {
    let mut state = started();
    for action in [
        Action::SelectNext,
        Action::SelectPrev,
        Action::ToggleMute,
        Action::VolumeUp,
        Action::VolumeDown,
    ] {
        assert_eq!(state.step(action), Reaction::Ignore);
    }
    assert_eq!(state.audio.input(&4), Some((950_000, false)));
    assert_eq!(state.audio.output(&4), Some((50_000, false)));

    assert_eq!(
        state.step(Action::ModeSwitch(UiMode::EditInput)),
        Reaction::Draw(Plan::Idle)
    );
    assert_eq!(state.mode, UiMode::EditInput);
    assert_eq!(state.step(Action::SelectNext), Reaction::Draw(Plan::Idle));
    assert_eq!(state.step(Action::SelectPrev), Reaction::Draw(Plan::Idle));
}

#[test]
fn volume_keys_move_the_edited_direction_by_a_tenth() {
    assert_eq!(STEP_UP, 100_000);
    assert_eq!(STEP_DOWN, -100_000);
    let mut state = started();
    state.step(Action::ModeSwitch(UiMode::EditInput));
    assert_eq!(
        state.step(Action::VolumeDown),
        Reaction::Draw(Plan::Sync {
            write: Some(Command::SetLevel { id: 4, channel: Channel::Input, level: 850_000 }),
            preserve_cache: false,
        })
    );
    assert_eq!(state.audio.input(&4), Some((850_000, false)));
    state.step(Action::VolumeUp);
    assert_eq!(
        state.step(Action::VolumeUp),
        Reaction::Draw(Plan::Sync {
            write: Some(Command::SetLevel { id: 4, channel: Channel::Input, level: 1_000_000 }),
            preserve_cache: false,
        })
    );
    assert_eq!(state.audio.output(&4), Some((50_000, false)));

    state.step(Action::ModeSwitch(UiMode::EditOutput));
    assert_eq!(
        state.step(Action::VolumeDown),
        Reaction::Draw(Plan::Sync {
            write: Some(Command::SetLevel { id: 4, channel: Channel::Output, level: 0 }),
            preserve_cache: false,
        })
    );
    assert_eq!(state.audio.output(&4), Some((0, false)));
    assert_eq!(state.audio.input(&4), Some((1_000_000, false)));
}

#[test]
fn the_mute_key_toggles_the_edited_direction() {
    let mut state = started();
    state.step(Action::ModeSwitch(UiMode::EditOutput));
    assert_eq!(
        state.step(Action::ToggleMute),
        Reaction::Draw(Plan::Sync {
            write: Some(Command::SetLevel { id: 4, channel: Channel::Output, level: 0 }),
            preserve_cache: true,
        })
    );
    state.step(Action::ModeSwitch(UiMode::EditInput));
    assert_eq!(
        state.step(Action::ToggleMute),
        Reaction::Draw(Plan::Sync {
            write: Some(Command::SetLevel { id: 4, channel: Channel::Input, level: 0 }),
            preserve_cache: true,
        })
    );
    assert_eq!(state.audio.input(&4), Some((950_000, false)));
}

#[test]
fn a_poll_asks_for_a_refresh_and_exit_leaves() {
    let mut state = started();
    assert_eq!(
        state.step(Action::Poll),
        Reaction::Draw(Plan::Sync { write: None, preserve_cache: true })
    );
    assert_eq!(state.step(Action::Exit), Reaction::Exit);
    assert_eq!(state.mode, UiMode::View);
    assert_eq!(state.keys, Vec::<i64>::new());
}
