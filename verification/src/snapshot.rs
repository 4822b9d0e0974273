//! What the system reports at one moment, and the writes the engine asks for.

use crate::device::Channel;
use crate::level::FULL;
use vstd::prelude::*;

verus! {

/// What the system reports of one direction of a device. A property that the
/// device does not have, or that could not be read this time, is `None`.
#[derive(Debug, Clone, Copy, PartialEq, Eq)]
pub struct Probe {
    /// Scalar gain, in millionths of full scale.
    pub level: Option<u32>,
    /// The system's own mute flag.
    pub mute: Option<bool>,
}

impl Probe {
    /// A level that was read lies within full scale.
    pub open spec fn wf(self) -> bool {
        self.level matches Some(l) ==> l <= FULL
    }

    /// Whether the system's own mute flag is set and has to be taken over.
    pub open spec fn flagged(self) -> bool {
        self.mute == Some(true)
    }

    /// Tells whether a level that was read lies within full scale.
    pub fn is_valid(&self) -> (ok: bool)
        ensures
            ok == self.wf(),
    {
        match self.level {
            Some(l) => l <= FULL,
            None => true,
        }
    }
}

/// One enumerated device with everything the system reports of it.
#[derive(Debug, Clone, PartialEq, Eq)]
pub struct Reading {
    pub id: u32,
    pub uid: String,
    pub name: String,
    pub input: Probe,
    pub output: Probe,
}

/// A reading as contracts see it.
pub struct ReadingView {
    pub id: u32,
    pub uid: Seq<char>,
    pub name: Seq<char>,
    pub input: Probe,
    pub output: Probe,
}

impl ReadingView {
    /// The levels of both directions lie within full scale.
    pub open spec fn wf(self) -> bool {
        self.input.wf() && self.output.wf()
    }

    /// The report on the given direction.
    pub open spec fn probe(self, channel: Channel) -> Probe {
        match channel {
            Channel::Input => self.input,
            Channel::Output => self.output,
        }
    }
}

impl View for Reading {
    type V = ReadingView;

    open spec fn view(&self) -> ReadingView {
        ReadingView {
            id: self.id,
            uid: self.uid@,
            name: self.name@,
            input: self.input,
            output: self.output,
        }
    }
}

/// The views of a run of readings, in order.
pub open spec fn reading_views(readings: Seq<Reading>) -> Seq<ReadingView> {
    readings.map_values(|r: Reading| r@)
}

/// The ids of a run of readings, in order.
pub open spec fn live_ids(readings: Seq<ReadingView>) -> Seq<u32> {
    readings.map_values(|r: ReadingView| r.id)
}

/// The system's audio state at one moment.
#[derive(Debug, Clone, PartialEq, Eq)]
pub struct Snapshot {
    /// The enumerated devices in the system's order, or `None` when the
    /// system could not enumerate them.
    pub devices: Option<Vec<Reading>>,
    /// Id of the system's default input device.
    pub default_input: u32,
    /// Id of the system's default output device.
    pub default_output: u32,
}

/// A snapshot as contracts see it.
pub struct SnapshotView {
    pub devices: Option<Seq<ReadingView>>,
    pub default_input: u32,
    pub default_output: u32,
}

impl SnapshotView {
    /// Every reported level lies within full scale.
    pub open spec fn wf(self) -> bool {
        self.devices matches Some(readings) ==> forall|i: int|
            0 <= i < readings.len() ==> (#[trigger] readings[i]).wf()
    }

    /// The default device id of the given direction.
    pub open spec fn default_device(self, channel: Channel) -> u32 {
        match channel {
            Channel::Input => self.default_input,
            Channel::Output => self.default_output,
        }
    }
}

impl View for Snapshot {
    type V = SnapshotView;

    open spec fn view(&self) -> SnapshotView {
        SnapshotView {
            devices: match self.devices {
                Some(readings) => Some(reading_views(readings@)),
                None => None,
            },
            default_input: self.default_input,
            default_output: self.default_output,
        }
    }
}

impl Snapshot {
    /// Tells whether every reported level lies within full scale, which is
    /// what the engine asks of a snapshot.
    pub fn is_valid(&self) -> (ok: bool)
        ensures
            ok == self@.wf(),
    {
        match &self.devices {
            None => true,
            Some(readings) => {
                let mut i: usize = 0;
                while i < readings.len()
                    invariant
                        0 <= i <= readings.len(),
                        self@.devices == Some(reading_views(readings@)),
                        forall|k: int| 0 <= k < i ==> (#[trigger] readings@[k])@.wf(),
                    decreases readings.len() - i,
                {
                    if !readings[i].input.is_valid() || !readings[i].output.is_valid() {
                        assert(!self@.devices.unwrap()[i as int].wf());
                        return false;
                    }
                    i += 1;
                }
                assert forall|k: int| 0 <= k < readings.len() implies (
                #[trigger] self@.devices.unwrap()[k]).wf() by {
                    assert(readings@[k]@.wf());
                }
                true
            },
        }
    }
}

/// A write the engine asks the caller to perform on the system. A write that
/// the system rejects is skipped without failing the rest: the next refresh
/// shows what the system holds.
#[derive(Debug, Clone, Copy, PartialEq, Eq, Structural)]
pub enum Command {
    /// Write `level` to every settable sub-channel of the direction.
    SetLevel { id: u32, channel: Channel, level: u32 },
    /// Write the system's own mute flag of the direction.
    SetMute { id: u32, channel: Channel, muted: bool },
}

/// What the caller has to do after a volume or mute command.
#[derive(Debug, Clone, Copy, PartialEq, Eq)]
pub enum Plan {
    /// Nothing.
    Idle,
    /// Perform `write`, if there is one, then take a new snapshot and
    /// refresh with the given cache mode.
    Sync { write: Option<Command>, preserve_cache: bool },
}

} // verus!
