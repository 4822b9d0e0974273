//! The mathematical model of the engine: what a refresh makes of a cached
//! state and a snapshot, stated over views.

use crate::device::{ids_of, Channel, DeviceView, Volume};
use crate::level::{shifted, ZERO};
use crate::order::{
    arrangement, is_display_order, lemma_display_order_exists, lemma_display_order_unique,
    names_of, precedes,
};
use crate::snapshot::{live_ids, Command, Plan, Probe, ReadingView, SnapshotView};
use vstd::prelude::*;

verus! {

/// The engine's state as contracts see it.
pub struct AudioView {
    /// The cached devices in insertion order.
    pub devices: Seq<DeviceView>,
    /// Ids of the devices the engine holds silent.
    pub muted: Set<u32>,
    /// Index of the default input device, as last resolved.
    pub active_input: Option<int>,
    /// Index of the default output device, as last resolved.
    pub active_output: Option<int>,
}

impl AudioView {
    /// No id is cached twice, every level lies within full scale, and only
    /// cached devices are held silent.
    pub open spec fn wf(self) -> bool {
        &&& ids_of(self.devices).no_duplicates()
        &&& forall|i: int| 0 <= i < self.devices.len() ==> (#[trigger] self.devices[i]).wf()
        &&& forall|id: u32| self.muted.contains(id) ==> ids_of(self.devices).contains(id)
    }

    /// The remembered default index of the given direction.
    pub open spec fn active(self, channel: Channel) -> Option<int> {
        match channel {
            Channel::Input => self.active_input,
            Channel::Output => self.active_output,
        }
    }

    /// The index that commands on the given direction act on: the remembered
    /// default, as long as a device stands there.
    pub open spec fn selected(self, channel: Channel) -> Option<int> {
        match self.active(channel) {
            Some(i) => if 0 <= i < self.devices.len() {
                Some(i)
            } else {
                None
            },
            None => None,
        }
    }
}

/// Index of the first occurrence of `id` in `ids`.
pub open spec fn index_of(ids: Seq<u32>, id: u32) -> Option<int>
    decreases ids.len(),
{
    if ids.len() == 0 {
        None
    } else {
        match index_of(ids.drop_last(), id) {
            Some(i) => Some(i),
            None => if ids.last() == id {
                Some(ids.len() - 1)
            } else {
                None
            },
        }
    }
}

/// The first reading that carries `id`.
pub open spec fn reading_of(readings: Seq<ReadingView>, id: u32) -> ReadingView
    recommends
        live_ids(readings).contains(id),
{
    readings[index_of(live_ids(readings), id).unwrap()]
}

/// The cached ids that are still enumerated, in cached order.
pub open spec fn kept(known: Seq<u32>, live: Seq<u32>) -> Seq<u32>
    decreases known.len(),
{
    if known.len() == 0 {
        Seq::empty()
    } else if live.contains(known.last()) {
        kept(known.drop_last(), live).push(known.last())
    } else {
        kept(known.drop_last(), live)
    }
}

/// The enumerated ids that are not cached, each once, in order of first
/// appearance.
pub open spec fn added(known: Seq<u32>, live: Seq<u32>) -> Seq<u32>
    decreases live.len(),
{
    if live.len() == 0 {
        Seq::empty()
    } else if known.contains(live.last()) || live.drop_last().contains(live.last()) {
        added(known, live.drop_last())
    } else {
        added(known, live.drop_last()).push(live.last())
    }
}

/// The ids cached after a refresh: the survivors in their old order, then the
/// arrivals in the order the system enumerates them.
pub open spec fn next_ids(known: Seq<u32>, live: Seq<u32>) -> Seq<u32> {
    kept(known, live) + added(known, live)
}

/// A volume after the system was asked for its level anew. A level that was
/// read is taken, and the restore point follows it unless it is kept. Where
/// none could be read, the direction counts as disabled until the next
/// refresh, and level and restore point stay as they are.
pub open spec fn synced(volume: Volume, level: Option<u32>, keep_cache: bool) -> Volume {
    match level {
        Some(l) => Volume {
            enabled: true,
            level: l,
            cache: if keep_cache {
                volume.cache
            } else {
                l
            },
        },
        None => Volume { enabled: false, level: volume.level, cache: volume.cache },
    }
}

/// The volume of a direction of a device seen for the first time.
pub open spec fn seeded(level: Option<u32>) -> Volume {
    match level {
        Some(l) => Volume { enabled: true, level: l, cache: l },
        None => Volume { enabled: false, level: ZERO, cache: ZERO },
    }
}

/// A volume after the workaround check: where the system's own mute flag is
/// set, the level becomes the restore point and the level drops to zero.
pub open spec fn taken_over(volume: Volume, probe: Probe) -> Volume {
    if probe.flagged() {
        Volume { enabled: volume.enabled, level: ZERO, cache: volume.level }
    } else {
        volume
    }
}

/// A cached device after a refresh that still enumerates it.
pub open spec fn resynced(device: DeviceView, reading: ReadingView, keep_cache: bool) -> DeviceView {
    DeviceView {
        id: device.id,
        uid: device.uid,
        name: device.name,
        input: taken_over(synced(device.input, reading.input.level, keep_cache), reading.input),
        output: taken_over(
            synced(device.output, reading.output.level, keep_cache),
            reading.output,
        ),
    }
}

/// The device made of a reading whose id was not cached.
pub open spec fn discovered(reading: ReadingView) -> DeviceView {
    DeviceView {
        id: reading.id,
        uid: reading.uid,
        name: reading.name,
        input: taken_over(seeded(reading.input.level), reading.input),
        output: taken_over(seeded(reading.output.level), reading.output),
    }
}

/// The device that stands for `id` after a refresh.
pub open spec fn device_after(
    devices: Seq<DeviceView>,
    readings: Seq<ReadingView>,
    id: u32,
    keep_cache: bool,
) -> DeviceView
    recommends
        live_ids(readings).contains(id),
{
    match index_of(ids_of(devices), id) {
        Some(k) => resynced(devices[k], reading_of(readings, id), keep_cache),
        None => discovered(reading_of(readings, id)),
    }
}

/// Some direction reads a level above zero.
pub open spec fn raised(reading: ReadingView) -> bool {
    ||| reading.input.level matches Some(l) && l > ZERO
    ||| reading.output.level matches Some(l) && l > ZERO
}

/// Some direction reads a level of exactly zero.
pub open spec fn silent(reading: ReadingView) -> bool {
    reading.input.level == Some(ZERO) || reading.output.level == Some(ZERO)
}

/// Whether a device that was cached before stays or becomes held silent by
/// its levels alone: a raised level releases it, a zero level captures it.
/// Both directions are judged against the membership before the refresh.
pub open spec fn level_rule(was_muted: bool, reading: ReadingView) -> bool {
    if was_muted {
        !raised(reading)
    } else {
        silent(reading)
    }
}

/// The system's own mute flag is set on some direction.
pub open spec fn flagged(reading: ReadingView) -> bool {
    reading.input.flagged() || reading.output.flagged()
}

/// Whether the enumerated device `id` is held silent after a refresh.
pub open spec fn muted_after(state: AudioView, readings: Seq<ReadingView>, id: u32) -> bool
    recommends
        live_ids(readings).contains(id),
{
    let reading = reading_of(readings, id);
    flagged(reading) || (ids_of(state.devices).contains(id) && level_rule(
        state.muted.contains(id),
        reading,
    ))
}

/// The writes that take one direction over: zero the level, then clear the
/// system's own flag.
pub open spec fn takeover(id: u32, channel: Channel, probe: Probe) -> Seq<Command> {
    if probe.flagged() {
        seq![
            Command::SetLevel { id, channel, level: ZERO },
            Command::SetMute { id, channel, muted: false },
        ]
    } else {
        Seq::empty()
    }
}

/// The writes that the workaround check asks for on one device: input
/// first, then output, each direction judged by its own flag.
pub open spec fn takeovers(reading: ReadingView) -> Seq<Command> {
    takeover(reading.id, Channel::Input, reading.input) + takeover(
        reading.id,
        Channel::Output,
        reading.output,
    )
}

/// The writes for a run of enumerated ids, device by device.
pub open spec fn commands_for(ids: Seq<u32>, readings: Seq<ReadingView>) -> Seq<Command>
    decreases ids.len(),
{
    if ids.len() == 0 {
        Seq::empty()
    } else {
        commands_for(ids.drop_last(), readings) + takeovers(reading_of(readings, ids.last()))
    }
}

/// Those of a run of enumerated ids that are held silent after a refresh,
/// in the same order.
pub open spec fn muted_ids(ids: Seq<u32>, state: AudioView, readings: Seq<ReadingView>) -> Seq<u32>
    decreases ids.len(),
{
    if ids.len() == 0 {
        Seq::empty()
    } else if muted_after(state, readings, ids.last()) {
        muted_ids(ids.drop_last(), state, readings).push(ids.last())
    } else {
        muted_ids(ids.drop_last(), state, readings)
    }
}

/// The remembered default after a refresh: the index of the system's default
/// where it is cached, else what was remembered before.
pub open spec fn reselected(ids: Seq<u32>, default_id: u32, before: Option<int>) -> Option<int> {
    match index_of(ids, default_id) {
        Some(i) => Some(i),
        None => before,
    }
}

/// The state after a refresh against a snapshot that enumerates devices.
pub open spec fn refreshed(state: AudioView, os: SnapshotView, keep_cache: bool) -> AudioView
    recommends
        os.devices is Some,
{
    let readings = os.devices.unwrap();
    let ids = next_ids(ids_of(state.devices), live_ids(readings));
    AudioView {
        devices: ids.map_values(|id: u32| device_after(state.devices, readings, id, keep_cache)),
        muted: Set::new(|id: u32| ids.contains(id) && muted_after(state, readings, id)),
        active_input: reselected(ids, os.default_input, state.active_input),
        active_output: reselected(ids, os.default_output, state.active_output),
    }
}

/// The writes that a refresh asks for.
pub open spec fn commands(state: AudioView, os: SnapshotView) -> Seq<Command>
    recommends
        os.devices is Some,
{
    let readings = os.devices.unwrap();
    commands_for(next_ids(ids_of(state.devices), live_ids(readings)), readings)
}

/// What the listing shows of one device: whether it is the default input,
/// whether it is the default output, whether it is held silent, and the
/// device itself.
pub open spec fn entry(state: AudioView, k: int) -> (bool, bool, bool, DeviceView) {
    (
        state.active_input == Some(k),
        state.active_output == Some(k),
        state.muted.contains(state.devices[k].id),
        state.devices[k],
    )
}

/// The entries of the devices at the given indices, in that order.
pub open spec fn entries(state: AudioView, order: Seq<int>) -> Seq<(bool, bool, bool, DeviceView)> {
    order.map_values(|k: int| entry(state, k))
}

/// The one arrangement of the cached devices for display.
pub open spec fn display_order_of(names: Seq<Seq<char>>) -> Seq<int> {
    choose|order: Seq<int>| is_display_order(names, order)
}

/// The device list: one entry for every cached device, sorted by name, equal
/// names in insertion order.
pub open spec fn listing(state: AudioView) -> Seq<(bool, bool, bool, DeviceView)> {
    entries(state, display_order_of(names_of(state.devices)))
}

/// The level and mute state of one direction of the device `id`, where the
/// device is cached and the direction is enabled on it.
pub open spec fn channel_state(state: AudioView, id: u32, channel: Channel) -> Option<(u32, bool)> {
    match index_of(ids_of(state.devices), id) {
        Some(k) => if state.devices[k].volume(channel).enabled {
            Some((state.devices[k].volume(channel).level, state.muted.contains(id)))
        } else {
            None
        },
        None => None,
    }
}

/// The state after a volume command: the selected device's level and restore
/// point move by `amount`, clamped to full scale, where the direction is
/// enabled on it.
pub open spec fn moved(state: AudioView, channel: Channel, amount: i32) -> AudioView {
    match state.selected(channel) {
        Some(k) => {
            let volume = state.devices[k].volume(channel);
            if volume.enabled {
                let next = shifted(volume.level, amount);
                AudioView {
                    devices: state.devices.update(
                        k,
                        state.devices[k].with_volume(
                            channel,
                            Volume { enabled: true, level: next, cache: next },
                        ),
                    ),
                    ..state
                }
            } else {
                state
            }
        },
        None => state,
    }
}

/// What a volume command asks of the caller: write the new level where the
/// direction is enabled, then refresh and let the restore point follow.
pub open spec fn move_plan(state: AudioView, channel: Channel, amount: i32) -> Plan {
    match state.selected(channel) {
        Some(k) => {
            let volume = state.devices[k].volume(channel);
            Plan::Sync {
                write: if volume.enabled {
                    Some(
                        Command::SetLevel {
                            id: state.devices[k].id,
                            channel,
                            level: shifted(volume.level, amount),
                        },
                    )
                } else {
                    None
                },
                preserve_cache: false,
            }
        },
        None => Plan::Idle,
    }
}

/// What a mute toggle asks of the caller: write the restore point back where
/// the device is held silent, zero where it is not, then refresh and keep
/// the restore point.
pub open spec fn toggle_plan(state: AudioView, channel: Channel) -> Plan {
    match state.selected(channel) {
        Some(k) => {
            let volume = state.devices[k].volume(channel);
            if volume.enabled {
                Plan::Sync {
                    write: Some(
                        Command::SetLevel {
                            id: state.devices[k].id,
                            channel,
                            level: if state.muted.contains(state.devices[k].id) {
                                volume.cache
                            } else {
                                ZERO
                            },
                        },
                    ),
                    preserve_cache: true,
                }
            } else {
                Plan::Idle
            }
        },
        None => Plan::Idle,
    }
}

/// The device list holds every cached device once, and each entry is listed
/// before the ones that follow it: its name comes first, or the names are
/// the same and it was cached first.
pub proof fn lemma_listing_sorted(state: AudioView)
    ensures
        is_display_order(names_of(state.devices), display_order_of(names_of(state.devices))),
        listing(state).len() == state.devices.len(),
        forall|p: int|
            0 <= p < listing(state).len() ==> #[trigger] listing(state)[p] == entry(
                state,
                display_order_of(names_of(state.devices))[p],
            ),
        forall|p: int, q: int|
            0 <= p < q < listing(state).len() ==> precedes(
                names_of(state.devices),
                #[trigger] display_order_of(names_of(state.devices))[p],
                #[trigger] display_order_of(names_of(state.devices))[q],
            ),
{
    let names = names_of(state.devices);
    lemma_display_order_exists(names);
    assert(is_display_order(names, arrangement(names, names.len())));
}

/// Any display order of the cached devices yields the device list.
pub proof fn lemma_listing(state: AudioView, order: Seq<int>)
    requires
        is_display_order(names_of(state.devices), order),
    ensures
        listing(state) == entries(state, order),
{
    lemma_display_order_unique(
        names_of(state.devices),
        order,
        display_order_of(names_of(state.devices)),
    );
}

/// `index_of` finds the first occurrence, and only fails where there is none.
pub proof fn lemma_index_of(ids: Seq<u32>, id: u32)
    ensures
        match index_of(ids, id) {
            Some(i) => 0 <= i < ids.len() && ids[i] == id && forall|j: int|
                0 <= j < i ==> ids[j] != id,
            None => !ids.contains(id),
        },
    decreases ids.len(),
{
    if ids.len() > 0 {
        let front = ids.drop_last();
        lemma_index_of(front, id);
        if let Some(i) = index_of(front, id) {
            assert(ids[i] == front[i]);
            assert forall|j: int| 0 <= j < i implies ids[j] != id by {
                assert(ids[j] == front[j]);
            }
        }
        if index_of(front, id) is None {
            if ids.last() != id {
                assert forall|j: int| 0 <= j < ids.len() implies ids[j] != id by {
                    if j < ids.len() - 1 {
                        assert(ids.drop_last()[j] == ids[j]);
                        assert(ids.drop_last().contains(ids[j]));
                    }
                }
            } else {
                assert forall|j: int| 0 <= j < ids.len() - 1 implies ids[j] != id by {
                    assert(ids.drop_last()[j] == ids[j]);
                    assert(ids.drop_last().contains(ids[j]));
                }
            }
        }
    }
}

/// Where no id occurs twice, `index_of` finds every position.
pub proof fn lemma_index_of_at(ids: Seq<u32>, k: int)
    requires
        ids.no_duplicates(),
        0 <= k < ids.len(),
    ensures
        index_of(ids, ids[k]) == Some(k),
{
    lemma_index_of(ids, ids[k]);
    assert(ids.contains(ids[k]));
}

/// An id is kept exactly when it is both cached and enumerated.
pub proof fn lemma_kept_contains(known: Seq<u32>, live: Seq<u32>, id: u32)
    ensures
        kept(known, live).contains(id) <==> known.contains(id) && live.contains(id),
    decreases known.len(),
{
    if known.len() > 0 {
        let front = known.drop_last();
        lemma_kept_contains(front, live, id);
        lemma_contains_last(known, id);
        if live.contains(known.last()) {
            lemma_contains_last(kept(known, live), id);
            assert(kept(known, live).drop_last() =~= kept(front, live));
        }
    }
}

/// An id is added exactly when it is enumerated and not cached.
pub proof fn lemma_added_contains(known: Seq<u32>, live: Seq<u32>, id: u32)
    ensures
        added(known, live).contains(id) <==> live.contains(id) && !known.contains(id),
    decreases live.len(),
{
    if live.len() > 0 {
        let front = live.drop_last();
        lemma_added_contains(known, front, id);
        lemma_contains_last(live, id);
        if !(known.contains(live.last()) || front.contains(live.last())) {
            lemma_contains_last(added(known, live), id);
            assert(added(known, live).drop_last() =~= added(known, front));
        }
    }
}

/// Membership in a non-empty sequence, split at its last element.
pub proof fn lemma_contains_last(s: Seq<u32>, id: u32)
    requires
        s.len() > 0,
    ensures
        s.contains(id) <==> s.drop_last().contains(id) || s.last() == id,
{
    if s.contains(id) {
        let i = choose|i: int| 0 <= i < s.len() && s[i] == id;
        if i < s.len() - 1 {
            assert(s.drop_last()[i] == id);
        }
    }
    if s.drop_last().contains(id) {
        let i = choose|i: int| 0 <= i < s.drop_last().len() && s.drop_last()[i] == id;
        assert(s[i] == id);
    }
    if s.last() == id {
        assert(s[s.len() - 1] == id);
    }
}

/// The ids after a refresh are exactly the enumerated ones.
pub proof fn lemma_next_ids_contains(known: Seq<u32>, live: Seq<u32>, id: u32)
    ensures
        next_ids(known, live).contains(id) <==> live.contains(id),
{
    lemma_kept_contains(known, live, id);
    lemma_added_contains(known, live, id);
    lemma_concat_contains(kept(known, live), added(known, live), id);
}

/// Membership in a concatenation.
pub proof fn lemma_concat_contains(a: Seq<u32>, b: Seq<u32>, id: u32)
    ensures
        (a + b).contains(id) <==> a.contains(id) || b.contains(id),
{
    if (a + b).contains(id) {
        let i = choose|i: int| 0 <= i < (a + b).len() && (a + b)[i] == id;
        if i < a.len() {
            assert(a[i] == id);
        } else {
            assert(b[i - a.len()] == id);
        }
    }
    if a.contains(id) {
        let i = choose|i: int| 0 <= i < a.len() && a[i] == id;
        assert((a + b)[i] == id);
    }
    if b.contains(id) {
        let i = choose|i: int| 0 <= i < b.len() && b[i] == id;
        assert((a + b)[a.len() + i] == id);
    }
}

/// Pushing an id that is not yet there keeps a sequence free of duplicates.
pub proof fn lemma_push_no_duplicates(s: Seq<u32>, id: u32)
    requires
        s.no_duplicates(),
        !s.contains(id),
    ensures
        s.push(id).no_duplicates(),
{
    assert forall|i: int, j: int|
        0 <= i < s.push(id).len() && 0 <= j < s.push(id).len() && i != j implies s.push(id)[i]
        != s.push(id)[j] by {
        if i < s.len() {
            assert(s.contains(s[i]));
        }
        if j < s.len() {
            assert(s.contains(s[j]));
        }
    }
}

/// No id is cached twice after a refresh.
pub proof fn lemma_next_ids_no_duplicates(known: Seq<u32>, live: Seq<u32>)
    requires
        known.no_duplicates(),
    ensures
        kept(known, live).no_duplicates(),
        added(known, live).no_duplicates(),
        next_ids(known, live).no_duplicates(),
{
    lemma_kept_no_duplicates(known, live);
    lemma_added_no_duplicates(known, live);
    let a = kept(known, live);
    let b = added(known, live);
    assert forall|i: int, j: int|
        0 <= i < (a + b).len() && 0 <= j < (a + b).len() && i != j implies (a + b)[i] != (a
        + b)[j] by {
        if i < a.len() && j >= a.len() {
            lemma_kept_contains(known, live, a[i]);
            lemma_added_contains(known, live, b[j - a.len()]);
            assert(a.contains(a[i]));
            assert(b.contains(b[j - a.len()]));
        }
        if j < a.len() && i >= a.len() {
            lemma_kept_contains(known, live, a[j]);
            lemma_added_contains(known, live, b[i - a.len()]);
            assert(a.contains(a[j]));
            assert(b.contains(b[i - a.len()]));
        }
    }
}

proof fn lemma_kept_no_duplicates(known: Seq<u32>, live: Seq<u32>)
    requires
        known.no_duplicates(),
    ensures
        kept(known, live).no_duplicates(),
    decreases known.len(),
{
    if known.len() > 0 {
        let front = known.drop_last();
        lemma_kept_no_duplicates(front, live);
        if live.contains(known.last()) {
            lemma_kept_contains(front, live, known.last());
            if front.contains(known.last()) {
                let i = choose|i: int| 0 <= i < front.len() && front[i] == known.last();
                assert(known[i] == known[known.len() - 1]);
            }
            lemma_push_no_duplicates(kept(front, live), known.last());
        }
    }
}

proof fn lemma_added_no_duplicates(known: Seq<u32>, live: Seq<u32>)
    ensures
        added(known, live).no_duplicates(),
    decreases live.len(),
{
    if live.len() > 0 {
        let front = live.drop_last();
        lemma_added_no_duplicates(known, front);
        if !(known.contains(live.last()) || front.contains(live.last())) {
            lemma_added_contains(known, front, live.last());
            lemma_push_no_duplicates(added(known, front), live.last());
        }
    }
}

/// An id is among the muted ids of a run exactly when it is in the run and
/// held silent.
pub proof fn lemma_muted_ids_contains(
    ids: Seq<u32>,
    state: AudioView,
    readings: Seq<ReadingView>,
    id: u32,
)
    ensures
        muted_ids(ids, state, readings).contains(id) <==> ids.contains(id) && muted_after(
            state,
            readings,
            id,
        ),
    decreases ids.len(),
{
    if ids.len() > 0 {
        let front = ids.drop_last();
        lemma_muted_ids_contains(front, state, readings, id);
        lemma_contains_last(ids, id);
        if muted_after(state, readings, ids.last()) {
            lemma_contains_last(muted_ids(ids, state, readings), id);
            assert(muted_ids(ids, state, readings).drop_last() =~= muted_ids(
                front,
                state,
                readings,
            ));
        }
    }
}

/// The reading found for an enumerated id is one of the readings, and
/// carries that id.
pub proof fn lemma_reading_of(readings: Seq<ReadingView>, id: u32)
    requires
        live_ids(readings).contains(id),
    ensures
        index_of(live_ids(readings), id) is Some,
        0 <= index_of(live_ids(readings), id).unwrap() < readings.len(),
        reading_of(readings, id).id == id,
{
    lemma_index_of(live_ids(readings), id);
}

/// A level read within full scale keeps a volume within it.
pub proof fn lemma_volume_wf(volume: Volume, probe: Probe, keep_cache: bool)
    requires
        volume.wf(),
        probe.wf(),
    ensures
        taken_over(synced(volume, probe.level, keep_cache), probe).wf(),
{
}

/// The device that stands for an enumerated id is well-formed and carries
/// that id.
pub proof fn lemma_device_after(
    devices: Seq<DeviceView>,
    readings: Seq<ReadingView>,
    id: u32,
    keep_cache: bool,
)
    requires
        live_ids(readings).contains(id),
        forall|i: int| 0 <= i < devices.len() ==> (#[trigger] devices[i]).wf(),
        forall|i: int| 0 <= i < readings.len() ==> (#[trigger] readings[i]).wf(),
    ensures
        device_after(devices, readings, id, keep_cache).wf(),
        device_after(devices, readings, id, keep_cache).id == id,
{
    lemma_reading_of(readings, id);
    lemma_index_of(ids_of(devices), id);
    let reading = reading_of(readings, id);
    assert(reading.wf());
    match index_of(ids_of(devices), id) {
        Some(k) => {
            assert(devices[k].wf());
            lemma_volume_wf(devices[k].input, reading.input, keep_cache);
            lemma_volume_wf(devices[k].output, reading.output, keep_cache);
        },
        None => {},
    }
}

/// The ids of the refreshed devices are the ids chosen for them.
pub proof fn lemma_refreshed_ids(state: AudioView, os: SnapshotView, keep_cache: bool)
    requires
        state.wf(),
        os.wf(),
        os.devices is Some,
    ensures
        ids_of(refreshed(state, os, keep_cache).devices) == next_ids(
            ids_of(state.devices),
            live_ids(os.devices.unwrap()),
        ),
{
    let readings = os.devices.unwrap();
    let ids = next_ids(ids_of(state.devices), live_ids(readings));
    let after = refreshed(state, os, keep_cache);
    assert forall|i: int| 0 <= i < ids.len() implies (#[trigger] after.devices[i]).id == ids[i] by {
        assert(ids.contains(ids[i]));
        lemma_next_ids_contains(ids_of(state.devices), live_ids(readings), ids[i]);
        lemma_device_after(state.devices, readings, ids[i], keep_cache);
    }
    assert(ids_of(after.devices) =~= ids);
}

/// A refresh keeps the state well-formed.
pub proof fn lemma_refreshed_wf(state: AudioView, os: SnapshotView, keep_cache: bool)
    requires
        state.wf(),
        os.wf(),
        os.devices is Some,
    ensures
        refreshed(state, os, keep_cache).wf(),
{
    let readings = os.devices.unwrap();
    let ids = next_ids(ids_of(state.devices), live_ids(readings));
    let after = refreshed(state, os, keep_cache);
    lemma_refreshed_ids(state, os, keep_cache);
    lemma_next_ids_no_duplicates(ids_of(state.devices), live_ids(readings));
    assert forall|i: int| 0 <= i < after.devices.len() implies (#[trigger] after.devices[i]).wf() by {
        assert(ids.contains(ids[i]));
        lemma_next_ids_contains(ids_of(state.devices), live_ids(readings), ids[i]);
        lemma_device_after(state.devices, readings, ids[i], keep_cache);
    }
}

} // verus!
