//! Devices and their per-direction volume state.

use crate::level::FULL;
use vstd::prelude::*;

verus! {

/// Direction of a channel group on a device.
#[derive(Debug, Clone, Copy, PartialEq, Eq, Structural)]
pub enum Channel {
    Input,
    Output,
}

/// Level state of one direction of one device.
#[derive(Debug, Clone, Copy, PartialEq, Eq, Structural)]
pub struct Volume {
    /// Whether this direction can be queried on the device at all.
    pub enabled: bool,
    /// Last known gain, in millionths of full scale.
    pub level: u32,
    /// Gain to restore when a workaround mute is lifted.
    pub cache: u32,
}

impl Volume {
    /// Both the level and the restore point lie within full scale.
    pub open spec fn wf(self) -> bool {
        self.level <= FULL && self.cache <= FULL
    }
}

/// One audio endpoint.
#[derive(Debug, Clone, PartialEq, Eq)]
pub struct Device {
    /// Handle assigned by the system for this session.
    pub id: u32,
    /// Identifier that survives reconnects.
    pub uid: String,
    /// Display name.
    pub name: String,
    pub input: Volume,
    pub output: Volume,
}

/// A device as contracts see it: strings by their characters.
pub struct DeviceView {
    pub id: u32,
    pub uid: Seq<char>,
    pub name: Seq<char>,
    pub input: Volume,
    pub output: Volume,
}

impl DeviceView {
    /// The volumes of both directions lie within full scale.
    pub open spec fn wf(self) -> bool {
        self.input.wf() && self.output.wf()
    }

    /// The volume of the given direction.
    pub open spec fn volume(self, channel: Channel) -> Volume {
        match channel {
            Channel::Input => self.input,
            Channel::Output => self.output,
        }
    }

    /// The same device with another volume in the given direction.
    pub open spec fn with_volume(self, channel: Channel, volume: Volume) -> DeviceView {
        match channel {
            Channel::Input => DeviceView { input: volume, ..self },
            Channel::Output => DeviceView { output: volume, ..self },
        }
    }
}

impl View for Device {
    type V = DeviceView;

    open spec fn view(&self) -> DeviceView {
        DeviceView {
            id: self.id,
            uid: self.uid@,
            name: self.name@,
            input: self.input,
            output: self.output,
        }
    }
}

impl Device {
    /// The volume of the given direction.
    pub fn volume(&self, channel: Channel) -> (volume: Volume)
        ensures
            volume == self@.volume(channel),
    {
        match channel {
            Channel::Input => self.input,
            Channel::Output => self.output,
        }
    }
}

/// The views of a run of devices, in order.
pub open spec fn views(devices: Seq<Device>) -> Seq<DeviceView> {
    devices.map_values(|d: Device| d@)
}

/// The ids of a run of devices, in order.
pub open spec fn ids_of(devices: Seq<DeviceView>) -> Seq<u32> {
    devices.map_values(|d: DeviceView| d.id)
}

} // verus!
