//! The state of the whole application and how each event changes it.

use crate::audio::{AudioState, Channel};
use crate::device::DeviceView;
use crate::events::{active_names, texts, Action, UiMode};
use crate::model::{move_plan, moved, toggle_plan, AudioView};
use crate::snapshot::Plan;
use vstd::prelude::*;

verus! {

/// How far the key for a higher volume moves a level: a tenth of full scale.
pub const STEP_UP: i32 = 100_000;

/// How far the key for a lower volume moves a level: a tenth of full scale.
pub const STEP_DOWN: i32 = -100_000;

/// Everything the application knows.
#[derive(Debug)]
pub struct AppState {
    /// The cached model of the audio devices.
    pub audio: AudioState,
    /// The codes of the keys that are held down, oldest first.
    pub keys: Vec<i64>,
    /// The names of the modifier keys that are held down.
    pub key_modifiers: Vec<String>,
    /// What the interface is doing.
    pub mode: UiMode,
}

/// The application state as contracts see it.
pub struct AppView {
    pub audio: AudioView,
    pub keys: Seq<i64>,
    pub key_modifiers: Seq<Seq<char>>,
    pub mode: UiMode,
}

impl View for AppState {
    type V = AppView;

    open spec fn view(&self) -> AppView {
        AppView {
            audio: self.audio@,
            keys: self.keys@,
            key_modifiers: texts(self.key_modifiers@),
            mode: self.mode,
        }
    }
}

/// What the caller has to do after an event.
#[derive(Debug, Clone, Copy, PartialEq, Eq)]
pub enum Reaction {
    /// Nothing.
    Ignore,
    /// Carry out the plan, then draw the interface anew.
    Draw(Plan),
    /// Leave the event loop.
    Exit,
}

/// The direction that the interface is editing, if any.
pub open spec fn edited(mode: UiMode) -> Option<Channel> {
    match mode {
        UiMode::View => None,
        UiMode::EditInput => Some(Channel::Input),
        UiMode::EditOutput => Some(Channel::Output),
    }
}

/// The state after a volume key.
pub open spec fn volume_key(state: AppView, amount: i32) -> AppView {
    match edited(state.mode) {
        Some(channel) => AppView { audio: moved(state.audio, channel, amount), ..state },
        None => state,
    }
}

/// The state after an event.
pub open spec fn stepped(state: AppView, action: Action) -> AppView {
    match action {
        Action::KeyDown { key_code, repeating, modifiers } => if repeating {
            state
        } else {
            AppView {
                keys: state.keys.push(key_code),
                key_modifiers: active_names(modifiers),
                ..state
            }
        },
        Action::KeyUp { key_code, modifiers } => if state.keys.contains(key_code) {
            AppView {
                keys: state.keys.remove_value(key_code),
                key_modifiers: active_names(modifiers),
                ..state
            }
        } else {
            state
        },
        Action::Modifier { modifiers } => AppView {
            key_modifiers: active_names(modifiers),
            ..state
        },
        Action::ModeSwitch(mode) => AppView { mode, ..state },
        Action::VolumeUp => volume_key(state, STEP_UP),
        Action::VolumeDown => volume_key(state, STEP_DOWN),
        _ => state,
    }
}

/// What an event asks of the caller. A key that repeats, the release of a
/// key that is not held, and a command while nothing is edited ask for
/// nothing; a poll asks for a refresh that keeps the restore points.
pub open spec fn reaction(state: AppView, action: Action) -> Reaction {
    match action {
        Action::KeyDown { key_code, repeating, modifiers } => if repeating {
            Reaction::Ignore
        } else {
            Reaction::Draw(Plan::Idle)
        },
        Action::KeyUp { key_code, modifiers } => if state.keys.contains(key_code) {
            Reaction::Draw(Plan::Idle)
        } else {
            Reaction::Ignore
        },
        Action::Modifier { modifiers } => Reaction::Draw(Plan::Idle),
        Action::ModeSwitch(mode) => Reaction::Draw(Plan::Idle),
        Action::SelectNext | Action::SelectPrev => match edited(state.mode) {
            Some(_) => Reaction::Draw(Plan::Idle),
            None => Reaction::Ignore,
        },
        Action::ToggleMute => match edited(state.mode) {
            Some(channel) => Reaction::Draw(toggle_plan(state.audio, channel)),
            None => Reaction::Ignore,
        },
        Action::VolumeUp => match edited(state.mode) {
            Some(channel) => Reaction::Draw(move_plan(state.audio, channel, STEP_UP)),
            None => Reaction::Ignore,
        },
        Action::VolumeDown => match edited(state.mode) {
            Some(channel) => Reaction::Draw(move_plan(state.audio, channel, STEP_DOWN)),
            None => Reaction::Ignore,
        },
        Action::Poll => Reaction::Draw(Plan::Sync { write: None, preserve_cache: true }),
        Action::Exit => Reaction::Exit,
    }
}

/// The direction that the interface is editing, if any.
fn editing(mode: UiMode) -> (channel: Option<Channel>)
    ensures
        channel == edited(mode),
{
    match mode {
        UiMode::View => None,
        UiMode::EditInput => Some(Channel::Input),
        UiMode::EditOutput => Some(Channel::Output),
    }
}

/// Takes the first occurrence of `code` out of `keys` and tells whether
/// there was one.
fn release(keys: &mut Vec<i64>, code: i64) -> (held: bool)
    ensures
        held == old(keys)@.contains(code),
        final(keys)@ == if held {
            old(keys)@.remove_value(code)
        } else {
            old(keys)@
        },
{
    let mut i: usize = 0;
    while i < keys.len()
        invariant
            0 <= i <= keys.len(),
            keys@ == old(keys)@,
            forall|j: int| 0 <= j < i ==> keys@[j] != code,
        decreases keys.len() - i,
    {
        if keys[i] == code {
            proof {
                keys@.index_of_first_ensures(code);
                assert(keys@.contains(code));
            }
            keys.remove(i);
            return true;
        }
        i += 1;
    }
    false
}

impl AppState {
    /// The state at start: no device known yet, none held silent, no
    /// default remembered, no key held, the interface showing the devices.
    pub fn new() -> (state: AppState)
        ensures
            state.audio@.wf(),
            state@.audio.devices == Seq::<DeviceView>::empty(),
            state@.audio.muted == Set::<u32>::empty(),
            state@.audio.active_input is None,
            state@.audio.active_output is None,
            state@.keys == Seq::<i64>::empty(),
            state@.key_modifiers == Seq::<Seq<char>>::empty(),
            state@.mode == UiMode::View,
    {
        let state = AppState {
            audio: AudioState::new(),
            keys: Vec::new(),
            key_modifiers: Vec::new(),
            mode: UiMode::View,
        };
        assert(state@.key_modifiers =~= Seq::<Seq<char>>::empty());
        state
    }

    /// Takes one event in and says what the caller has to do about it.
    pub fn step(&mut self, action: Action) -> (todo: Reaction)
        requires
            old(self).audio@.wf(),
        ensures
            final(self).audio@.wf(),
            final(self)@ == stepped(old(self)@, action),
            todo == reaction(old(self)@, action),
    {
        match action {
            Action::KeyDown { key_code, repeating, modifiers } => {
                if repeating {
                    Reaction::Ignore
                } else {
                    self.keys.push(key_code);
                    self.key_modifiers = modifiers.list_active();
                    Reaction::Draw(Plan::Idle)
                }
            },
            Action::KeyUp { key_code, modifiers } => {
                if release(&mut self.keys, key_code) {
                    self.key_modifiers = modifiers.list_active();
                    Reaction::Draw(Plan::Idle)
                } else {
                    Reaction::Ignore
                }
            },
            Action::Modifier { modifiers } => {
                self.key_modifiers = modifiers.list_active();
                Reaction::Draw(Plan::Idle)
            },
            Action::ModeSwitch(mode) => {
                self.mode = mode;
                Reaction::Draw(Plan::Idle)
            },
            Action::SelectNext | Action::SelectPrev => match editing(self.mode) {
                Some(_) => Reaction::Draw(Plan::Idle),
                None => Reaction::Ignore,
            },
            Action::ToggleMute => match editing(self.mode) {
                Some(channel) => Reaction::Draw(self.audio.toggle_mute(channel)),
                None => Reaction::Ignore,
            },
            Action::VolumeUp => match editing(self.mode) {
                Some(channel) => Reaction::Draw(self.audio.move_volume(channel, STEP_UP)),
                None => Reaction::Ignore,
            },
            Action::VolumeDown => match editing(self.mode) {
                Some(channel) => Reaction::Draw(self.audio.move_volume(channel, STEP_DOWN)),
                None => Reaction::Ignore,
            },
            Action::Poll => Reaction::Draw(Plan::Sync { write: None, preserve_cache: true }),
            Action::Exit => Reaction::Exit,
        }
    }
}

} // verus!
