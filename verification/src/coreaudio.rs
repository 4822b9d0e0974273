//! The vocabulary of the system's audio property store: the codes that name
//! properties, and the small rules by which raw answers are read.

use crate::device::Channel;
use vstd::prelude::*;

verus! {

pub const kAudioHardwarePropertyDevices: u32 = 1684370979;

pub const kAudioHardwarePropertyDefaultInputDevice: u32 = 1682533920;

pub const kAudioHardwarePropertyDefaultOutputDevice: u32 = 1682929012;

pub const kAudioDevicePropertyDeviceNameCFString: u32 = 1819173229;

pub const kAudioDevicePropertyDeviceUID: u32 = 1969841184;

pub const kAudioObjectPropertyScopeGlobal: u32 = 1735159650;

pub const kAudioDevicePropertyScopeInput: u32 = 1768845428;

pub const kAudioDevicePropertyScopeOutput: u32 = 1869968496;

pub const kAudioDevicePropertyStreams: u32 = 1937009955;

pub const kAudioDevicePropertyVolumeScalar: u32 = 1987013741;

pub const kAudioDevicePropertyMute: u32 = 1836414053;

pub const kAudioObjectPropertyElementMain: u32 = 0;

pub const kAudioObjectSystemObject: u32 = 1;

/// How many bytes one device id takes in the answer to an enumeration.
pub const DEVICE_ID_BYTES: u32 = 4;

/// The address of one property: which property, of which direction, of which
/// sub-channel.
#[derive(Debug, Copy, Clone, PartialEq, Eq, Structural)]
pub struct AudioObjectPropertyAddress {
    pub mSelector: u32,
    pub mScope: u32,
    pub mElement: u32,
}

/// The scope code of a direction.
pub open spec fn scope(channel: Channel) -> u32 {
    match channel {
        Channel::Input => kAudioDevicePropertyScopeInput,
        Channel::Output => kAudioDevicePropertyScopeOutput,
    }
}

/// The selector of the system's default device of a direction.
pub open spec fn default_selector(channel: Channel) -> u32 {
    match channel {
        Channel::Input => kAudioHardwarePropertyDefaultInputDevice,
        Channel::Output => kAudioHardwarePropertyDefaultOutputDevice,
    }
}

/// The indices at which `flags` holds `true`, in rising order.
pub open spec fn set_indices(flags: Seq<bool>) -> Seq<u32>
    decreases flags.len(),
{
    if flags.len() == 0 {
        Seq::empty()
    } else if flags.last() {
        set_indices(flags.drop_last()).push((flags.len() - 1) as u32)
    } else {
        set_indices(flags.drop_last())
    }
}

impl AudioObjectPropertyAddress {
    /// Where the system lists its devices.
    pub fn devices() -> (address: AudioObjectPropertyAddress)
        ensures
            address == (AudioObjectPropertyAddress {
                mSelector: kAudioHardwarePropertyDevices,
                mScope: kAudioObjectPropertyScopeGlobal,
                mElement: kAudioObjectPropertyElementMain,
            }),
    {
        AudioObjectPropertyAddress {
            mSelector: kAudioHardwarePropertyDevices,
            mScope: kAudioObjectPropertyScopeGlobal,
            mElement: kAudioObjectPropertyElementMain,
        }
    }

    /// Where the system names its default device of a direction.
    pub fn default_device(channel: Channel) -> (address: AudioObjectPropertyAddress)
        ensures
            address == (AudioObjectPropertyAddress {
                mSelector: default_selector(channel),
                mScope: kAudioObjectPropertyScopeGlobal,
                mElement: kAudioObjectPropertyElementMain,
            }),
    {
        let selector = match channel {
            Channel::Input => kAudioHardwarePropertyDefaultInputDevice,
            Channel::Output => kAudioHardwarePropertyDefaultOutputDevice,
        };
        AudioObjectPropertyAddress {
            mSelector: selector,
            mScope: kAudioObjectPropertyScopeGlobal,
            mElement: kAudioObjectPropertyElementMain,
        }
    }

    /// Where a device keeps its display name.
    pub fn name() -> (address: AudioObjectPropertyAddress)
        ensures
            address == (AudioObjectPropertyAddress {
                mSelector: kAudioDevicePropertyDeviceNameCFString,
                mScope: kAudioObjectPropertyScopeGlobal,
                mElement: kAudioObjectPropertyElementMain,
            }),
    {
        AudioObjectPropertyAddress {
            mSelector: kAudioDevicePropertyDeviceNameCFString,
            mScope: kAudioObjectPropertyScopeGlobal,
            mElement: kAudioObjectPropertyElementMain,
        }
    }

    /// Where a device keeps its persistent identifier.
    pub fn uid() -> (address: AudioObjectPropertyAddress)
        ensures
            address == (AudioObjectPropertyAddress {
                mSelector: kAudioDevicePropertyDeviceUID,
                mScope: kAudioObjectPropertyScopeGlobal,
                mElement: kAudioObjectPropertyElementMain,
            }),
    {
        AudioObjectPropertyAddress {
            mSelector: kAudioDevicePropertyDeviceUID,
            mScope: kAudioObjectPropertyScopeGlobal,
            mElement: kAudioObjectPropertyElementMain,
        }
    }

    /// Where a device lists the streams of a direction.
    pub fn streams(channel: Channel) -> (address: AudioObjectPropertyAddress)
        ensures
            address == (AudioObjectPropertyAddress {
                mSelector: kAudioDevicePropertyStreams,
                mScope: scope(channel),
                mElement: kAudioObjectPropertyElementMain,
            }),
    {
        AudioObjectPropertyAddress {
            mSelector: kAudioDevicePropertyStreams,
            mScope: scope_of(channel),
            mElement: kAudioObjectPropertyElementMain,
        }
    }

    /// Where a device keeps the scalar level of one sub-channel of a
    /// direction.
    pub fn volume(channel: Channel, element: u32) -> (address: AudioObjectPropertyAddress)
        ensures
            address == (AudioObjectPropertyAddress {
                mSelector: kAudioDevicePropertyVolumeScalar,
                mScope: scope(channel),
                mElement: element,
            }),
    {
        AudioObjectPropertyAddress {
            mSelector: kAudioDevicePropertyVolumeScalar,
            mScope: scope_of(channel),
            mElement: element,
        }
    }

    /// Where a device keeps the mute flag of a direction.
    pub fn mute(channel: Channel) -> (address: AudioObjectPropertyAddress)
        ensures
            address == (AudioObjectPropertyAddress {
                mSelector: kAudioDevicePropertyMute,
                mScope: scope(channel),
                mElement: kAudioObjectPropertyElementMain,
            }),
    {
        AudioObjectPropertyAddress {
            mSelector: kAudioDevicePropertyMute,
            mScope: scope_of(channel),
            mElement: kAudioObjectPropertyElementMain,
        }
    }
}

/// The scope code of a direction.
pub fn scope_of(channel: Channel) -> (code: u32)
    ensures
        code == scope(channel),
{
    match channel {
        Channel::Input => kAudioDevicePropertyScopeInput,
        Channel::Output => kAudioDevicePropertyScopeOutput,
    }
}

/// How many device ids an enumeration of `bytes` bytes holds.
pub fn device_count(bytes: u32) -> (count: usize)
    ensures
        count == bytes / DEVICE_ID_BYTES,
{
    (bytes / DEVICE_ID_BYTES) as usize
}

/// The sub-channel whose level stands for a direction: the first that has a
/// level at all. `present` says of each sub-channel whether it has one.
pub fn first_present(present: &Vec<bool>) -> (found: Option<usize>)
    ensures
        match found {
            Some(i) => i < present.len() && present[i as int] && forall|j: int|
                0 <= j < i ==> !present[j],
            None => forall|j: int| 0 <= j < present.len() ==> !present[j],
        },
{
    let mut i: usize = 0;
    while i < present.len()
        invariant
            0 <= i <= present.len(),
            forall|j: int| 0 <= j < i ==> !present[j],
        decreases present.len() - i,
    {
        if present[i] {
            return Some(i);
        }
        i += 1;
    }
    None
}

/// The sub-channels that a level is written to: all that can be set, in
/// rising order. `settable` says of each sub-channel whether it can.
pub fn settable_elements(settable: &Vec<bool>) -> (elements: Vec<u32>)
    requires
        settable.len() <= u32::MAX,
    ensures
        elements@ == set_indices(settable@),
{
    let mut elements: Vec<u32> = Vec::new();
    let mut i: usize = 0;
    assert(settable@.take(0) =~= Seq::<bool>::empty());
    while i < settable.len()
        invariant
            0 <= i <= settable.len(),
            settable.len() <= u32::MAX,
            elements@ == set_indices(settable@.take(i as int)),
        decreases settable.len() - i,
    {
        assert(settable@.take(i + 1).drop_last() =~= settable@.take(i as int));
        assert(settable@.take(i + 1).last() == settable@[i as int]);
        if settable[i] {
            elements.push(i as u32);
        }
        i += 1;
    }
    assert(settable@.take(i as int) =~= settable@);
    elements
}

/// Whether a raw mute property says that the direction is muted.
pub fn mute_flag(raw: u32) -> (muted: bool)
    ensures
        muted == (raw == 1),
{
    raw == 1
}

/// The raw value that sets or clears a mute property.
pub fn mute_value(muted: bool) -> (raw: u32)
    ensures
        raw == if muted {
            1u32
        } else {
            0u32
        },
{
    if muted {
        1
    } else {
        0
    }
}

} // verus!
