//! The engine: a cache of the system's audio devices, kept in step with
//! snapshots of the system.

pub use crate::device::{Channel, Device, Volume};
use crate::device::{ids_of, views, DeviceView};
use crate::level::{shift, ZERO};
use crate::model::{
    added, channel_state, commands, commands_for, device_after, entries, entry, flagged, index_of,
    kept, lemma_added_contains, lemma_concat_contains, lemma_index_of, lemma_index_of_at,
    lemma_kept_contains, lemma_listing, lemma_muted_ids_contains, lemma_refreshed_wf, level_rule,
    listing, move_plan, moved, muted_after, muted_ids, next_ids, reading_of, refreshed,
    reselected, seeded, synced, taken_over, takeover, takeovers, toggle_plan, AudioView,
};
use crate::order::{display_order, names_of, positions};
use crate::snapshot::{live_ids, reading_views, Command, Plan, Probe, Reading, Snapshot};
use vstd::prelude::*;

verus! {

/// The cached model of the system's audio devices.
#[derive(Debug)]
pub struct AudioState {
    active_input: Option<usize>,
    active_output: Option<usize>,
    devices: Vec<Device>,
    mutes: Vec<u32>,
}

/// Why a refresh did not take place.
#[derive(Debug, Clone, Copy, PartialEq, Eq, Structural)]
pub enum RefreshError {
    /// The system could not enumerate its devices.
    Enumeration,
}

impl View for AudioState {
    type V = AudioView;

    closed spec fn view(&self) -> AudioView {
        AudioView {
            devices: views(self.devices@),
            muted: Set::new(|id: u32| self.mutes@.contains(id)),
            active_input: index_view(self.active_input),
            active_output: index_view(self.active_output),
        }
    }
}

/// A remembered index as contracts see it.
pub open spec fn index_view(active: Option<usize>) -> Option<int> {
    match active {
        Some(i) => Some(i as int),
        None => None,
    }
}

/// Index of the first cached device with the given id.
fn find_device(devices: &Vec<Device>, id: u32) -> (found: Option<usize>)
    ensures
        match found {
            Some(i) => i < devices.len() && devices[i as int].id == id && index_of(
                ids_of(views(devices@)),
                id,
            ) == Some(i as int),
            None => index_of(ids_of(views(devices@)), id) is None,
        },
{
    let ghost ids = ids_of(views(devices@));
    let mut i: usize = 0;
    while i < devices.len()
        invariant
            0 <= i <= devices.len(),
            ids == ids_of(views(devices@)),
            forall|j: int| 0 <= j < i ==> ids[j] != id,
        decreases devices.len() - i,
    {
        if devices[i].id == id {
            proof {
                lemma_index_of(ids, id);
                assert(ids[i as int] == id);
            }
            return Some(i);
        }
        i += 1;
    }
    proof {
        lemma_index_of(ids, id);
    }
    None
}

/// Index of the first reading with the given id.
fn find_reading(readings: &Vec<Reading>, id: u32) -> (found: Option<usize>)
    ensures
        match found {
            Some(i) => i < readings.len() && readings[i as int].id == id && index_of(
                live_ids(reading_views(readings@)),
                id,
            ) == Some(i as int),
            None => index_of(live_ids(reading_views(readings@)), id) is None,
        },
{
    let ghost ids = live_ids(reading_views(readings@));
    let mut i: usize = 0;
    while i < readings.len()
        invariant
            0 <= i <= readings.len(),
            ids == live_ids(reading_views(readings@)),
            forall|j: int| 0 <= j < i ==> ids[j] != id,
        decreases readings.len() - i,
    {
        if readings[i].id == id {
            proof {
                lemma_index_of(ids, id);
                assert(ids[i as int] == id);
            }
            return Some(i);
        }
        i += 1;
    }
    proof {
        lemma_index_of(ids, id);
    }
    None
}

/// Tells whether `id` is among `ids`.
fn holds(ids: &Vec<u32>, id: u32) -> (found: bool)
    ensures
        found == ids@.contains(id),
{
    let mut i: usize = 0;
    while i < ids.len()
        invariant
            0 <= i <= ids.len(),
            forall|j: int| 0 <= j < i ==> ids@[j] != id,
        decreases ids.len() - i,
    {
        if ids[i] == id {
            return true;
        }
        i += 1;
    }
    false
}

/// Takes a freshly read level into a volume, and judges the device's
/// membership in the mute set by it: a level above zero releases a device
/// that was held silent before the refresh, a level of zero captures one
/// that was not.
fn update_channel(
    volume: &mut Volume,
    muted: &mut bool,
    level: u32,
    was_muted: bool,
    keep_cache: bool,
)
    ensures
        *final(volume) == synced(*old(volume), Some(level), keep_cache),
        *final(muted) == if level > ZERO && was_muted {
            false
        } else if level == ZERO && !was_muted {
            true
        } else {
            *old(muted)
        },
{
    volume.enabled = true;
    volume.level = level;
    if !keep_cache {
        volume.cache = level;
    }
    if level > ZERO && was_muted {
        *muted = false;
    } else if level == ZERO && !was_muted {
        *muted = true;
    }
}

/// Takes one direction over where the system's own mute flag is set: the
/// level read becomes the restore point, the level drops to zero, and the
/// writes that zero the system's level and clear its flag are queued.
fn take_over(
    volume: &mut Volume,
    id: u32,
    channel: Channel,
    probe: Probe,
    commands: &mut Vec<Command>,
) -> (taken: bool)
    ensures
        taken == probe.flagged(),
        *final(volume) == taken_over(*old(volume), probe),
        final(commands)@ == old(commands)@ + takeover(id, channel, probe),
{
    match probe.mute {
        Some(true) => {
            commands.push(Command::SetLevel { id, channel, level: ZERO });
            volume.cache = volume.level;
            volume.level = ZERO;
            commands.push(Command::SetMute { id, channel, muted: false });
            assert(commands@ =~= old(commands)@ + takeover(id, channel, probe));
            true
        },
        _ => {
            assert(commands@ =~= old(commands)@ + takeover(id, channel, probe));
            false
        },
    }
}

/// The workaround check on one device: each direction whose own flag the
/// system reports set is taken over, input before output, and the device
/// then counts as held silent.
fn mute_check(
    device: &mut Device,
    reading: &Reading,
    muted: &mut bool,
    commands: &mut Vec<Command>,
)
    requires
        old(device).id == reading.id,
    ensures
        final(device)@ == (DeviceView {
            input: taken_over(old(device).input, reading.input),
            output: taken_over(old(device).output, reading.output),
            ..old(device)@
        }),
        *final(muted) == (*old(muted) || flagged(reading@)),
        final(commands)@ == old(commands)@ + takeovers(reading@),
{
    let id = device.id;
    let taken_in = take_over(&mut device.input, id, Channel::Input, reading.input, commands);
    let taken_out = take_over(&mut device.output, id, Channel::Output, reading.output, commands);
    if taken_in || taken_out {
        *muted = true;
    }
    assert(commands@ =~= old(commands)@ + takeovers(reading@));
}

/// The volume of a direction of a device seen for the first time.
fn seed(level: Option<u32>) -> (volume: Volume)
    ensures
        volume == seeded(level),
{
    match level {
        Some(l) => Volume { enabled: true, level: l, cache: l },
        None => Volume { enabled: false, level: ZERO, cache: ZERO },
    }
}

/// The entries of a device list as contracts see them.
pub open spec fn entry_views(list: Seq<(bool, bool, bool, &Device)>) -> Seq<
    (bool, bool, bool, DeviceView),
> {
    list.map_values(|e: (bool, bool, bool, &Device)| (e.0, e.1, e.2, e.3@))
}

/// Tells whether the remembered default is the index `k`.
fn points_at(active: Option<usize>, k: usize) -> (hit: bool)
    ensures
        hit == (index_view(active) == Some(k as int)),
{
    match active {
        Some(i) => i == k,
        None => false,
    }
}

impl AudioState {
    /// An engine that knows no device yet. The first `update` fills it.
    pub fn new() -> (audio: AudioState)
        ensures
            audio@.wf(),
            audio@.devices == Seq::<DeviceView>::empty(),
            audio@.muted == Set::<u32>::empty(),
            audio@.active_input is None,
            audio@.active_output is None,
    {
        let audio = AudioState {
            active_input: None,
            active_output: None,
            devices: Vec::new(),
            mutes: Vec::new(),
        };
        assert(audio@.devices =~= Seq::<DeviceView>::empty());
        assert(audio@.muted =~= Set::<u32>::empty());
        audio
    }

    /// Brings the cache in step with a snapshot of the system.
    ///
    /// Devices that the snapshot no longer enumerates leave the cache and
    /// the mute set. Devices that it still enumerates get their levels read
    /// anew; unless `preserve_cache` is set, the restore point follows the
    /// level. A direction whose level the snapshot does not hold counts as
    /// disabled until the next refresh. Devices seen for the first time are
    /// appended in the order of
    /// the enumeration. Every direction whose own mute flag the system
    /// reports set is taken over, and the writes that this takes are
    /// returned for the caller to perform, in order. Last, the default
    /// devices are resolved; a default that is not cached leaves the
    /// remembered one as it was.
    ///
    /// A snapshot without an enumeration is refused and leaves the cache as
    /// it was.
    pub fn update(&mut self, os: &Snapshot, preserve_cache: bool) -> (outcome: Result<
        Vec<Command>,
        RefreshError,
    >)
        requires
            old(self)@.wf(),
            os@.wf(),
        ensures
            final(self)@.wf(),
            match outcome {
                Ok(writes) => {
                    &&& os@.devices is Some
                    &&& final(self)@ == refreshed(old(self)@, os@, preserve_cache)
                    &&& writes@ == commands(old(self)@, os@)
                },
                Err(_) => os@.devices is None && final(self)@ == old(self)@,
            },
    {
        let readings = match &os.devices {
            Some(readings) => readings,
            None => {
                return Err(RefreshError::Enumeration);
            },
        };
        let ghost before = self@;
        let ghost known = ids_of(before.devices);
        let ghost seen = reading_views(readings@);
        let ghost live = live_ids(seen);
        let ghost cached = self.devices@;
        assert(os@.devices == Some(seen));
        let mut writes: Vec<Command> = Vec::new();
        let mut mutes: Vec<u32> = Vec::new();
        let mut i: usize = 0;
        let ghost mut j: int = 0;
        assert(known.take(0) =~= Seq::<u32>::empty());
        assert(ids_of(views(self.devices@.take(0))) =~= Seq::<u32>::empty());
        while i < self.devices.len()
            invariant
                0 <= i <= self.devices.len(),
                0 <= j <= cached.len(),
                self.devices.len() - i == cached.len() - j,
                forall|k: int| i <= k < self.devices.len() ==> self.devices@[k] == cached[k - i + j],
                ids_of(views(self.devices@.take(i as int))) == kept(known.take(j), live),
                forall|k: int|
                    0 <= k < i ==> (#[trigger] self.devices@[k])@ == device_after(
                        before.devices,
                        seen,
                        self.devices@[k].id,
                        preserve_cache,
                    ),
                mutes@ == muted_ids(kept(known.take(j), live), before, seen),
                writes@ == commands_for(kept(known.take(j), live), seen),
                self.mutes == old(self).mutes,
                self.active_input == old(self).active_input,
                self.active_output == old(self).active_output,
                before == old(self)@,
                before.wf(),
                known == ids_of(before.devices),
                cached == old(self).devices@,
                seen == reading_views(readings@),
                live == live_ids(seen),
            decreases cached.len() - j,
        {
            let id = self.devices[i].id;
            let ghost front = kept(known.take(j), live);
            proof {
                assert(self.devices@[i as int] == cached[j]);
                assert(known[j] == id);
                assert(known.take(j + 1).drop_last() =~= known.take(j));
                assert(known.take(j + 1).last() == id);
                lemma_index_of_at(known, j);
                lemma_index_of(live, id);
            }
            match find_reading(readings, id) {
                Some(k) => {
                    let reading = &readings[k];
                    let was_muted = holds(&self.mutes, id);
                    let mut muted = was_muted;
                    let ghost device = self.devices@[i as int]@;
                    assert(device == before.devices[j]);
                    assert(reading@ == reading_of(seen, id));
                    match reading.input.level {
                        Some(level) => update_channel(
                            &mut self.devices[i].input,
                            &mut muted,
                            level,
                            was_muted,
                            preserve_cache,
                        ),
                        None => {
                            self.devices[i].input.enabled = false;
                        },
                    }
                    match reading.output.level {
                        Some(level) => update_channel(
                            &mut self.devices[i].output,
                            &mut muted,
                            level,
                            was_muted,
                            preserve_cache,
                        ),
                        None => {
                            self.devices[i].output.enabled = false;
                        },
                    }
                    assert(muted == level_rule(was_muted, reading@));
                    assert(self.devices@[i as int].id == reading.id);
                    mute_check(&mut self.devices[i], reading, &mut muted, &mut writes);
                    if muted {
                        mutes.push(id);
                    }
                    proof {
                        assert(known.contains(id));
                        assert(was_muted == before.muted.contains(id));
                        assert(muted == muted_after(before, seen, id));
                        assert(kept(known.take(j + 1), live) == front.push(id));
                        assert(front.push(id).drop_last() =~= front);
                        assert(self.devices@[i as int]@ == device_after(
                            before.devices,
                            seen,
                            id,
                            preserve_cache,
                        ));
                        assert(ids_of(views(self.devices@.take(i + 1))) =~= ids_of(
                            views(self.devices@.take(i as int)),
                        ).push(id));
                    }
                    i += 1;
                },
                None => {
                    self.devices.remove(i);
                    proof {
                        assert(!live.contains(id));
                        assert(kept(known.take(j + 1), live) == front);
                    }
                },
            }
            proof {
                j = j + 1;
            }
        }
        proof {
            assert(known.take(j) =~= known);
            assert(self.devices@.take(i as int) =~= self.devices@);
            assert(live.take(0) =~= Seq::<u32>::empty());
            assert(kept(known, live) + added(known, live.take(0)) =~= kept(known, live));
        }
        let mut k: usize = 0;
        while k < readings.len()
            invariant
                0 <= k <= readings.len(),
                ids_of(views(self.devices@)) == kept(known, live) + added(known, live.take(k as int)),
                forall|p: int|
                    0 <= p < self.devices.len() ==> (#[trigger] self.devices@[p])@ == device_after(
                        before.devices,
                        seen,
                        self.devices@[p].id,
                        preserve_cache,
                    ),
                mutes@ == muted_ids(
                    kept(known, live) + added(known, live.take(k as int)),
                    before,
                    seen,
                ),
                writes@ == commands_for(kept(known, live) + added(known, live.take(k as int)), seen),
                self.mutes == old(self).mutes,
                self.active_input == old(self).active_input,
                self.active_output == old(self).active_output,
                before == old(self)@,
                before.wf(),
                known == ids_of(before.devices),
                seen == reading_views(readings@),
                live == live_ids(seen),
            decreases readings.len() - k,
        {
            let reading = &readings[k];
            let id = reading.id;
            let ghost so_far = kept(known, live) + added(known, live.take(k as int));
            proof {
                assert(live[k as int] == id);
                assert(live.contains(id));
                assert(live.take(k + 1).drop_last() =~= live.take(k as int));
                assert(live.take(k + 1).last() == id);
                lemma_kept_contains(known, live, id);
                lemma_added_contains(known, live.take(k as int), id);
                lemma_concat_contains(kept(known, live), added(known, live.take(k as int)), id);
                lemma_index_of(so_far, id);
            }
            if find_device(&self.devices, id).is_none() {
                proof {
                    assert(!known.contains(id));
                    assert(!live.take(k as int).contains(id));
                    lemma_index_of(live, id);
                    let first = index_of(live, id).unwrap();
                    if first < k {
                        assert(live.take(k as int)[first] == id);
                    }
                    assert(first == k);
                    assert(seen[k as int] == reading@);
                    assert(reading@ == reading_of(seen, id));
                    lemma_index_of(known, id);
                }
                let mut device = Device {
                    id,
                    uid: reading.uid.clone(),
                    name: reading.name.clone(),
                    input: seed(reading.input.level),
                    output: seed(reading.output.level),
                };
                let mut muted = false;
                mute_check(&mut device, reading, &mut muted, &mut writes);
                let ghost arrived = device@;
                self.devices.push(device);
                if muted {
                    mutes.push(id);
                }
                proof {
                    assert(arrived == device_after(before.devices, seen, id, preserve_cache));
                    assert(muted == muted_after(before, seen, id));
                    let next = kept(known, live) + added(known, live.take(k + 1));
                    assert(next =~= so_far.push(id));
                    assert(next.drop_last() =~= so_far);
                    assert(ids_of(views(self.devices@)) =~= so_far.push(id));
                }
            } else {
                proof {
                    assert(added(known, live.take(k + 1)) == added(known, live.take(k as int)));
                }
            }
            k += 1;
        }
        let ghost ids = next_ids(known, live);
        proof {
            assert(live.take(k as int) =~= live);
            assert(ids_of(views(self.devices@)) == ids);
        }
        self.mutes = mutes;
        if let Some(found) = find_device(&self.devices, os.default_input) {
            self.active_input = Some(found);
        }
        if let Some(found) = find_device(&self.devices, os.default_output) {
            self.active_output = Some(found);
        }
        proof {
            let after = refreshed(before, os@, preserve_cache);
            assert(self@.devices =~= after.devices) by {
                assert forall|p: int| 0 <= p < ids.len() implies self@.devices[p]
                    == after.devices[p] by {
                    assert(ids[p] == self.devices@[p].id);
                }
            }
            assert(self@.muted =~= after.muted) by {
                assert forall|id: u32| self@.muted.contains(id) <==> after.muted.contains(id) by {
                    lemma_muted_ids_contains(ids, before, seen, id);
                }
            }
            assert(self@.active_input == reselected(ids, os.default_input, before.active_input));
            assert(self@.active_output == reselected(
                ids,
                os.default_output,
                before.active_output,
            ));
            assert(self@ == after);
            lemma_refreshed_wf(before, os@, preserve_cache);
        }
        Ok(writes)
    }

    /// The device list for display: for every cached device whether it is
    /// the default input, whether it is the default output, whether the
    /// engine holds it silent, and the device; sorted by name, devices of
    /// the same name in the order in which they were first seen.
    pub fn device_list(&self) -> (list: Vec<(bool, bool, bool, &Device)>)
        ensures
            entry_views(list@) == listing(self@),
    {
        let order = display_order(&self.devices);
        let ghost arranged = positions(order@);
        let mut list: Vec<(bool, bool, bool, &Device)> = Vec::new();
        let mut p: usize = 0;
        while p < order.len()
            invariant
                0 <= p <= order.len(),
                arranged == positions(order@),
                crate::order::is_display_order(names_of(views(self.devices@)), arranged),
                entry_views(list@) == entries(self@, arranged.take(p as int)),
            decreases order.len() - p,
        {
            let k = order[p];
            assert(arranged[p as int] == k);
            let device = &self.devices[k];
            let row = (
                points_at(self.active_input, k),
                points_at(self.active_output, k),
                holds(&self.mutes, device.id),
                device,
            );
            let ghost listed = list@;
            list.push(row);
            proof {
                assert(self@.devices[k as int] == device@);
                assert(entry(self@, k as int) == (row.0, row.1, row.2, row.3@));
                assert(arranged.take(p + 1) =~= arranged.take(p as int).push(k as int));
                assert(entry_views(list@) =~= entry_views(listed).push(entry(self@, k as int)));
                assert(entries(self@, arranged.take(p + 1)) =~= entries(
                    self@,
                    arranged.take(p as int),
                ).push(entry(self@, k as int)));
            }
            p += 1;
        }
        proof {
            assert(arranged.take(p as int) =~= arranged);
            lemma_listing(self@, arranged);
        }
        list
    }

    /// The input level of the device `id` and whether the engine holds the
    /// device silent; `None` where the device is not cached or has no input.
    pub fn input(&self, id: &u32) -> (state: Option<(u32, bool)>)
        ensures
            state == channel_state(self@, *id, Channel::Input),
    {
        self.channel(*id, Channel::Input)
    }

    /// The output level of the device `id` and whether the engine holds the
    /// device silent; `None` where the device is not cached or has no
    /// output.
    pub fn output(&self, id: &u32) -> (state: Option<(u32, bool)>)
        ensures
            state == channel_state(self@, *id, Channel::Output),
    {
        self.channel(*id, Channel::Output)
    }

    fn channel(&self, id: u32, channel: Channel) -> (state: Option<(u32, bool)>)
        ensures
            state == channel_state(self@, id, channel),
    {
        match find_device(&self.devices, id) {
            Some(k) => {
                let volume = self.devices[k].volume(channel);
                if volume.enabled {
                    Some((volume.level, holds(&self.mutes, id)))
                } else {
                    None
                }
            },
            None => None,
        }
    }

    /// The index that commands on the given direction act on.
    fn selected(&self, channel: Channel) -> (found: Option<usize>)
        ensures
            match found {
                Some(k) => k < self.devices.len() && self@.selected(channel) == Some(k as int),
                None => self@.selected(channel) is None,
            },
    {
        let active = match channel {
            Channel::Input => self.active_input,
            Channel::Output => self.active_output,
        };
        match active {
            Some(k) => if k < self.devices.len() {
                Some(k)
            } else {
                None
            },
            None => None,
        }
    }

    /// Moves the level of the selected device of the given direction by
    /// `amount` millionths of full scale, clamped to full scale, and says
    /// what the caller has to write and that a refresh has to follow in
    /// which the restore point follows the level. With no device selected
    /// nothing changes and nothing is to be done.
    pub fn move_volume(&mut self, channel: Channel, amount: i32) -> (plan: Plan)
        requires
            old(self)@.wf(),
        ensures
            final(self)@.wf(),
            final(self)@ == moved(old(self)@, channel, amount),
            plan == move_plan(old(self)@, channel, amount),
    {
        let k = match self.selected(channel) {
            Some(k) => k,
            None => {
                return Plan::Idle;
            },
        };
        let volume = self.devices[k].volume(channel);
        if !volume.enabled {
            return Plan::Sync { write: None, preserve_cache: false };
        }
        let next = shift(volume.level, amount);
        let id = self.devices[k].id;
        let moved_volume = Volume { enabled: true, level: next, cache: next };
        match channel {
            Channel::Input => {
                self.devices[k].input = moved_volume;
            },
            Channel::Output => {
                self.devices[k].output = moved_volume;
            },
        }
        proof {
            let after = moved(old(self)@, channel, amount);
            assert(self@.devices =~= after.devices);
            assert(ids_of(self@.devices) =~= ids_of(old(self)@.devices));
        }
        Plan::Sync {
            write: Some(Command::SetLevel { id, channel, level: next }),
            preserve_cache: false,
        }
    }

    /// Says what the caller has to write to toggle the workaround mute of
    /// the selected device of the given direction: the restore point where
    /// the engine holds the device silent, zero where it does not; and that
    /// a refresh has to follow that keeps the restore point. With no device
    /// selected, or the direction not enabled on it, nothing is to be done.
    pub fn toggle_mute(&self, channel: Channel) -> (plan: Plan)
        ensures
            plan == toggle_plan(self@, channel),
    {
        let k = match self.selected(channel) {
            Some(k) => k,
            None => {
                return Plan::Idle;
            },
        };
        let volume = self.devices[k].volume(channel);
        if !volume.enabled {
            return Plan::Idle;
        }
        let id = self.devices[k].id;
        let level = if holds(&self.mutes, id) {
            volume.cache
        } else {
            ZERO
        };
        Plan::Sync { write: Some(Command::SetLevel { id, channel, level }), preserve_cache: true }
    }
}

} // verus!
