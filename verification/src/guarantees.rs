//! What the engine guarantees across calls, proved over the model.

use crate::device::{ids_of, Channel, Volume};
use crate::level::{lemma_shifted_times, shifted_times, FULL, ZERO};
use crate::model::{
    added, channel_state, commands, commands_for, device_after, discovered, entry, flagged,
    index_of, kept, lemma_index_of, lemma_index_of_at, lemma_next_ids_contains,
    lemma_next_ids_no_duplicates, lemma_reading_of, lemma_refreshed_ids, lemma_refreshed_wf,
    moved, next_ids, reading_of, refreshed, resynced, seeded, synced, taken_over, takeovers,
    toggle_plan, AudioView,
};
use crate::snapshot::{live_ids, Command, Plan, Probe, ReadingView, SnapshotView};
use crate::system::{
    lemma_written_commands, obeyed, settled, settled_probe, written, written_all,
};
use vstd::prelude::*;

verus! {

/// Whether every restore point of a direction that the system can read
/// equals the level of that direction.
pub open spec fn restore_points_current(state: AudioView, os: SnapshotView) -> bool
    recommends
        os.devices is Some,
{
    forall|i: int, channel: Channel|
        0 <= i < state.devices.len() && reading_of(os.devices.unwrap(), state.devices[i].id).probe(
            channel,
        ).level is Some ==> (#[trigger] state.devices[i].volume(channel)).cache
            == state.devices[i].volume(channel).level
}

/// Where every cached id is enumerated, all of them are kept.
proof fn lemma_kept_all(known: Seq<u32>, live: Seq<u32>)
    requires
        forall|i: int| 0 <= i < known.len() ==> live.contains(#[trigger] known[i]),
    ensures
        kept(known, live) == known,
    decreases known.len(),
{
    if known.len() > 0 {
        let front = known.drop_last();
        assert forall|i: int| 0 <= i < front.len() implies live.contains(#[trigger] front[i]) by {
            assert(front[i] == known[i]);
        }
        lemma_kept_all(front, live);
        assert(live.contains(known[known.len() - 1]));
        assert(front.push(known.last()) =~= known);
    } else {
        assert(known =~= Seq::<u32>::empty());
    }
}

/// Where every enumerated id is cached, none is added.
proof fn lemma_added_none(known: Seq<u32>, live: Seq<u32>)
    requires
        forall|i: int| 0 <= i < live.len() ==> known.contains(#[trigger] live[i]),
    ensures
        added(known, live) == Seq::<u32>::empty(),
    decreases live.len(),
{
    if live.len() > 0 {
        let front = live.drop_last();
        assert forall|i: int| 0 <= i < front.len() implies known.contains(#[trigger] front[i]) by {
            assert(front[i] == live[i]);
        }
        lemma_added_none(known, front);
        assert(known.contains(live[live.len() - 1]));
    }
}

/// Where the system reports its own mute flag set on no device, a refresh
/// asks for no write: the workaround acts on a flag that is seen set, never
/// on a device merely being held silent.
pub proof fn lemma_clear_flags_ask_nothing(state: AudioView, os: SnapshotView)
    requires
        os.devices is Some,
        forall|i: int|
            0 <= i < os.devices.unwrap().len() ==> !flagged(#[trigger] os.devices.unwrap()[i]),
    ensures
        commands(state, os) == Seq::<Command>::empty(),
{
    let readings = os.devices.unwrap();
    let known = ids_of(state.devices);
    let live = live_ids(readings);
    let ids = next_ids(known, live);
    assert forall|i: int| 0 <= i < ids.len() implies !flagged(
        reading_of(readings, #[trigger] ids[i]),
    ) by {
        assert(ids.contains(ids[i]));
        lemma_next_ids_contains(known, live, ids[i]);
        lemma_reading_of(readings, ids[i]);
    }
    lemma_commands_none(ids, readings);
}

/// Where the system's own mute flag is set on none of the devices, the
/// workaround check asks for no write.
proof fn lemma_commands_none(ids: Seq<u32>, readings: Seq<ReadingView>)
    requires
        forall|i: int| 0 <= i < ids.len() ==> !flagged(reading_of(readings, #[trigger] ids[i])),
    ensures
        commands_for(ids, readings) == Seq::<Command>::empty(),
    decreases ids.len(),
{
    if ids.len() > 0 {
        let front = ids.drop_last();
        assert forall|i: int| 0 <= i < front.len() implies !flagged(
            reading_of(readings, #[trigger] front[i]),
        ) by {
            assert(front[i] == ids[i]);
        }
        lemma_commands_none(front, readings);
        assert(!flagged(reading_of(readings, ids[ids.len() - 1])));
        assert(takeovers(reading_of(readings, ids.last())) =~= Seq::<Command>::empty());
        assert(commands_for(ids, readings) =~= Seq::<Command>::empty());
    }
}

/// Writes change neither which device a reading is of nor its names.
proof fn lemma_written_keeps_id(reading: ReadingView, writes: Seq<Command>)
    ensures
        written_all(reading, writes).id == reading.id,
        written_all(reading, writes).uid == reading.uid,
        written_all(reading, writes).name == reading.name,
    decreases writes.len(),
{
    if writes.len() > 0 {
        lemma_written_keeps_id(reading, writes.drop_last());
    }
}

/// After a run of writes the system enumerates the same ids, and reports of
/// each what the writes made of its earlier report.
proof fn lemma_reading_after(readings: Seq<ReadingView>, writes: Seq<Command>, id: u32)
    requires
        live_ids(readings).contains(id),
    ensures
        live_ids(readings.map_values(|r: ReadingView| written_all(r, writes))) == live_ids(
            readings,
        ),
        reading_of(readings.map_values(|r: ReadingView| written_all(r, writes)), id)
            == written_all(reading_of(readings, id), writes),
{
    let after = readings.map_values(|r: ReadingView| written_all(r, writes));
    assert forall|i: int| 0 <= i < readings.len() implies live_ids(after)[i] == live_ids(
        readings,
    )[i] by {
        lemma_written_keeps_id(readings[i], writes);
    }
    assert(live_ids(after) =~= live_ids(readings));
    lemma_reading_of(readings, id);
}

/// A volume that a refresh has brought in step stays as it is when the
/// settled system is read again.
proof fn lemma_volume_settles(before: Volume, probe: Probe, second_keep: bool)
    requires
        probe.level matches Some(l) ==> before.enabled && (if probe.flagged() {
            before.level == ZERO
        } else {
            before.level == l
        }),
        probe.level is None ==> !before.enabled,
        second_keep || (probe.level is Some ==> before.cache == before.level),
    ensures
        ({
            let again = settled_probe(probe, probe.flagged());
            taken_over(synced(before, again.level, second_keep), again) == before
        }),
{
}

/// A second refresh against the system as the first one left it, with no
/// other change in between, asks for no write and leaves the cached devices
/// and both remembered defaults as the first one made them.
///
/// A refresh that lets the restore points follow the levels does move a
/// restore point that differs from its level; so the second refresh either
/// keeps the restore points, or they are all current after the first.
pub proof fn lemma_refresh_twice(
    state: AudioView,
    os: SnapshotView,
    first_keep: bool,
    second_keep: bool,
)
    requires
        state.wf(),
        os.wf(),
        os.devices is Some,
        second_keep || restore_points_current(refreshed(state, os, first_keep), os),
    ensures
        ({
            let once = refreshed(state, os, first_keep);
            let left = obeyed(os, commands(state, os));
            let twice = refreshed(once, left, second_keep);
            &&& commands(once, left) == Seq::<Command>::empty()
            &&& twice.devices == once.devices
            &&& twice.active_input == once.active_input
            &&& twice.active_output == once.active_output
        }),
{
    let readings = os.devices.unwrap();
    let known = ids_of(state.devices);
    let live = live_ids(readings);
    let ids = next_ids(known, live);
    let once = refreshed(state, os, first_keep);
    let writes = commands(state, os);
    let left = obeyed(os, writes);
    let readings2 = left.devices.unwrap();
    let twice = refreshed(once, left, second_keep);

    lemma_refreshed_ids(state, os, first_keep);
    lemma_refreshed_wf(state, os, first_keep);
    lemma_next_ids_no_duplicates(known, live);
    assert(ids_of(once.devices) == ids);

    assert forall|i: int| 0 <= i < ids.len() implies live.contains(#[trigger] ids[i]) by {
        assert(ids.contains(ids[i]));
        lemma_next_ids_contains(known, live, ids[i]);
    }
    assert forall|i: int| 0 <= i < live.len() implies ids.contains(#[trigger] live[i]) by {
        assert(live.contains(live[i]));
        lemma_next_ids_contains(known, live, live[i]);
    }
    if live.len() > 0 {
        lemma_reading_after(readings, writes, live[0]);
    }
    assert(live_ids(readings2) =~= live) by {
        if live.len() == 0 {
            assert(live_ids(readings2).len() == 0);
        }
    }
    lemma_kept_all(ids, live);
    lemma_added_none(ids, live);
    assert(next_ids(ids, live) =~= ids);

    assert forall|i: int| 0 <= i < ids.len() implies {
        &&& !flagged(reading_of(readings2, #[trigger] ids[i]))
        &&& device_after(once.devices, readings2, ids[i], second_keep) == once.devices[i]
    } by {
        let id = ids[i];
        let seen = reading_of(readings, id);
        lemma_reading_after(readings, writes, id);
        lemma_written_commands(seen, ids, readings);
        lemma_reading_of(readings, id);
        assert(ids.contains(id));
        let again = reading_of(readings2, id);
        assert(again == settled(seen, seen));
        lemma_index_of_at(ids, i);
        let device = once.devices[i];
        assert(device == device_after(state.devices, readings, id, first_keep));
        assert(device.volume(Channel::Input) == device.input);
        assert(device.volume(Channel::Output) == device.output);
        assert(seen.probe(Channel::Input) == seen.input);
        assert(seen.probe(Channel::Output) == seen.output);
        lemma_volume_settles(device.input, seen.input, second_keep);
        lemma_volume_settles(device.output, seen.output, second_keep);
    }
    lemma_commands_none(ids, readings2);
    assert(twice.devices =~= once.devices);
}

/// Where the system reports its own mute flag set on a direction of an
/// enumerated device, a refresh takes the direction over: the engine holds
/// the device silent, the cached level is zero, the restore point is the
/// level that was read, and once the writes are performed the system reads
/// a clear flag and a level of zero.
pub proof fn lemma_flag_is_taken_over(
    state: AudioView,
    os: SnapshotView,
    keep_cache: bool,
    id: u32,
    channel: Channel,
)
    requires
        state.wf(),
        os.wf(),
        os.devices is Some,
        live_ids(os.devices.unwrap()).contains(id),
        reading_of(os.devices.unwrap(), id).probe(channel).flagged(),
    ensures
        ({
            let seen = reading_of(os.devices.unwrap(), id).probe(channel);
            let once = refreshed(state, os, keep_cache);
            let left = obeyed(os, commands(state, os));
            let k = index_of(ids_of(once.devices), id);
            let after = reading_of(left.devices.unwrap(), id).probe(channel);
            &&& once.muted.contains(id)
            &&& k is Some
            &&& once.devices[k.unwrap()].id == id
            &&& once.devices[k.unwrap()].volume(channel).level == ZERO
            &&& seen.level matches Some(l) ==> once.devices[k.unwrap()].volume(channel).cache == l
            &&& after.mute == Some(false)
            &&& seen.level is Some ==> after.level == Some(ZERO)
        }),
{
    let readings = os.devices.unwrap();
    let known = ids_of(state.devices);
    let live = live_ids(readings);
    let ids = next_ids(known, live);
    let once = refreshed(state, os, keep_cache);
    let writes = commands(state, os);
    lemma_refreshed_ids(state, os, keep_cache);
    lemma_next_ids_no_duplicates(known, live);
    lemma_next_ids_contains(known, live, id);
    lemma_index_of(ids, id);
    lemma_index_of(known, id);
    lemma_reading_after(readings, writes, id);
    assert forall|i: int| 0 <= i < ids.len() implies live.contains(#[trigger] ids[i]) by {
        assert(ids.contains(ids[i]));
        lemma_next_ids_contains(known, live, ids[i]);
    }
    lemma_written_commands(reading_of(readings, id), ids, readings);
    lemma_reading_of(readings, id);
}

/// Toggling mute twice gives the level back: where the selected device is
/// not held silent, the first toggle writes zero; after the refresh that
/// follows it, the second toggle writes the restore point as it was before
/// the first, and the system then reads exactly that level.
///
/// In between, the system changes in nothing but the write: it still
/// enumerates the device as the default of the direction, and its own mute
/// flag of the direction stays clear.
pub proof fn lemma_toggle_twice(state: AudioView, os: SnapshotView, channel: Channel)
    requires
        state.wf(),
        os.wf(),
        os.devices is Some,
        state.selected(channel) is Some,
        state.devices[state.selected(channel).unwrap()].volume(channel).enabled,
        !state.muted.contains(state.devices[state.selected(channel).unwrap()].id),
        live_ids(os.devices.unwrap()).contains(
            state.devices[state.selected(channel).unwrap()].id,
        ),
        os.default_device(channel) == state.devices[state.selected(channel).unwrap()].id,
        reading_of(
            os.devices.unwrap(),
            state.devices[state.selected(channel).unwrap()].id,
        ).probe(channel).level is Some,
        !reading_of(
            os.devices.unwrap(),
            state.devices[state.selected(channel).unwrap()].id,
        ).probe(channel).flagged(),
    ensures
        ({
            let device = state.devices[state.selected(channel).unwrap()];
            let mute = Command::SetLevel { id: device.id, channel, level: ZERO };
            let restore = Command::SetLevel {
                id: device.id,
                channel,
                level: device.volume(channel).cache,
            };
            let silenced = obeyed(os, seq![mute]);
            let held = refreshed(state, silenced, true);
            let restored = obeyed(silenced, seq![restore]);
            &&& toggle_plan(state, channel) == Plan::Sync { write: Some(mute), preserve_cache: true }
            &&& held.muted.contains(device.id)
            &&& toggle_plan(held, channel) == Plan::Sync {
                write: Some(restore),
                preserve_cache: true,
            }
            &&& reading_of(restored.devices.unwrap(), device.id).probe(channel).level == Some(
                device.volume(channel).cache,
            )
        }),
{
    let k = state.selected(channel).unwrap();
    let device = state.devices[k];
    let id = device.id;
    let mute = Command::SetLevel { id, channel, level: ZERO };
    let restore = Command::SetLevel { id, channel, level: device.volume(channel).cache };
    let readings = os.devices.unwrap();
    let silenced = obeyed(os, seq![mute]);
    let quiet = silenced.devices.unwrap();
    let held = refreshed(state, silenced, true);
    let known = ids_of(state.devices);
    let live = live_ids(readings);
    let ids = next_ids(known, live);
    let seen = reading_of(readings, id);

    lemma_reading_after(readings, seq![mute], id);
    lemma_reading_of(readings, id);
    assert(live_ids(quiet) == live);
    assert(seq![mute].drop_last() =~= Seq::<Command>::empty());
    assert(written_all(seen, seq![mute]) == written(seen, mute)) by {
        assert(written_all(seen, Seq::<Command>::empty()) == seen);
        assert(seq![mute].last() == mute);
    }
    let heard = reading_of(quiet, id);
    assert(heard == written(seen, mute));
    assert(heard.probe(channel).level == Some(ZERO));

    assert(forall|i: int| 0 <= i < quiet.len() ==> (#[trigger] quiet[i]).wf()) by {
        assert forall|i: int| 0 <= i < quiet.len() implies (#[trigger] quiet[i]).wf() by {
            assert(readings[i].wf());
            assert(written_all(readings[i], seq![mute]) == written(readings[i], mute)) by {
                assert(written_all(readings[i], Seq::<Command>::empty()) == readings[i]);
                assert(seq![mute].last() == mute);
            }
        }
    }
    assert(silenced.wf());
    lemma_refreshed_ids(state, silenced, true);
    lemma_next_ids_no_duplicates(known, live);
    lemma_next_ids_contains(known, live, id);
    lemma_index_of(ids, id);
    assert(known[k] == id);
    assert(known.contains(id));
    lemma_index_of_at(known, k);
    let at = index_of(ids, id).unwrap();
    assert(held.active(channel) == Some(at));
    assert(held.devices[at] == resynced(device, heard, true));
    assert(held.muted.contains(id));

    let restored = obeyed(silenced, seq![restore]);
    lemma_reading_after(quiet, seq![restore], id);
    assert(seq![restore].drop_last() =~= Seq::<Command>::empty());
    assert(written_all(heard, seq![restore]) == written(heard, restore)) by {
        assert(written_all(heard, Seq::<Command>::empty()) == heard);
        assert(seq![restore].last() == restore);
    }
}

/// A device that the system no longer enumerates leaves the cache and the
/// mute set with the next refresh.
pub proof fn lemma_device_leaves(state: AudioView, os: SnapshotView, keep_cache: bool, id: u32)
    requires
        state.wf(),
        os.wf(),
        os.devices is Some,
        !live_ids(os.devices.unwrap()).contains(id),
    ensures
        !ids_of(refreshed(state, os, keep_cache).devices).contains(id),
        !refreshed(state, os, keep_cache).muted.contains(id),
        channel_state(refreshed(state, os, keep_cache), id, Channel::Input) is None,
        channel_state(refreshed(state, os, keep_cache), id, Channel::Output) is None,
{
    let known = ids_of(state.devices);
    let live = live_ids(os.devices.unwrap());
    lemma_refreshed_ids(state, os, keep_cache);
    lemma_next_ids_contains(known, live, id);
    lemma_index_of(next_ids(known, live), id);
}

/// A device that the system enumerates and the cache does not hold is made
/// from what the system reports of it alone: in each direction the restore
/// point is the level just read, and so is the level unless the direction
/// was taken over.
pub proof fn lemma_device_arrives(state: AudioView, os: SnapshotView, keep_cache: bool, id: u32)
    requires
        state.wf(),
        os.wf(),
        os.devices is Some,
        live_ids(os.devices.unwrap()).contains(id),
        !ids_of(state.devices).contains(id),
    ensures
        ({
            let seen = reading_of(os.devices.unwrap(), id);
            let once = refreshed(state, os, keep_cache);
            let k = index_of(ids_of(once.devices), id);
            &&& k is Some
            &&& once.devices[k.unwrap()] == discovered(seen)
            &&& discovered(seen).id == id
            &&& forall|channel: Channel|
                (#[trigger] discovered(seen).volume(channel)).cache == seeded(
                    seen.probe(channel).level,
                ).level
            &&& forall|channel: Channel|
                !seen.probe(channel).flagged() ==> (#[trigger] discovered(seen).volume(
                    channel,
                )).level == seeded(seen.probe(channel).level).level
        }),
{
    let readings = os.devices.unwrap();
    let known = ids_of(state.devices);
    let live = live_ids(readings);
    let ids = next_ids(known, live);
    lemma_refreshed_ids(state, os, keep_cache);
    lemma_next_ids_contains(known, live, id);
    lemma_index_of(ids, id);
    lemma_index_of(known, id);
    lemma_reading_of(readings, id);
}

/// A device that left and comes back is cached anew: what was cached of it
/// before it left has no part in what is cached of it now.
pub proof fn lemma_device_returns(
    state: AudioView,
    without: SnapshotView,
    with: SnapshotView,
    first_keep: bool,
    second_keep: bool,
    id: u32,
)
    requires
        state.wf(),
        without.wf(),
        with.wf(),
        without.devices is Some,
        with.devices is Some,
        !live_ids(without.devices.unwrap()).contains(id),
        live_ids(with.devices.unwrap()).contains(id),
    ensures
        ({
            let gone = refreshed(state, without, first_keep);
            let back = refreshed(gone, with, second_keep);
            let k = index_of(ids_of(back.devices), id);
            &&& !ids_of(gone.devices).contains(id)
            &&& !gone.muted.contains(id)
            &&& k is Some
            &&& back.devices[k.unwrap()] == discovered(reading_of(with.devices.unwrap(), id))
        }),
{
    lemma_device_leaves(state, without, first_keep, id);
    lemma_refreshed_wf(state, without, first_keep);
    lemma_device_arrives(refreshed(state, without, first_keep), with, second_keep, id);
}

/// Where the system's default device of a direction is not in the cache
/// after a refresh, the refresh leaves the remembered default of that
/// direction, and with it the marker in every entry of the device list, as
/// it was.
pub proof fn lemma_default_absent(
    state: AudioView,
    os: SnapshotView,
    keep_cache: bool,
    channel: Channel,
)
    requires
        state.wf(),
        os.wf(),
        os.devices is Some,
        !ids_of(refreshed(state, os, keep_cache).devices).contains(os.default_device(channel)),
    ensures
        refreshed(state, os, keep_cache).active(channel) == state.active(channel),
        forall|k: int|
            channel == Channel::Input ==> (#[trigger] entry(
                refreshed(state, os, keep_cache),
                k,
            )).0 == entry(state, k).0,
        forall|k: int|
            channel == Channel::Output ==> (#[trigger] entry(
                refreshed(state, os, keep_cache),
                k,
            )).1 == entry(state, k).1,
{
    let known = ids_of(state.devices);
    let live = live_ids(os.devices.unwrap());
    lemma_refreshed_ids(state, os, keep_cache);
    lemma_index_of(next_ids(known, live), os.default_device(channel));
}

/// The state after the same volume command was given `times` times in a
/// row.
pub open spec fn moved_times(state: AudioView, channel: Channel, amount: i32, times: nat)
    -> AudioView
    decreases times,
{
    if times == 0 {
        state
    } else {
        moved(moved_times(state, channel, amount, (times - 1) as nat), channel, amount)
    }
}

/// Volume commands never drive a level out of full scale, however large the
/// amount: given over and over, they move the selected level to what one
/// move by the whole distance reaches, so the level runs into the bound it
/// moves towards and stays there.
pub proof fn lemma_move_volume_repeated(
    state: AudioView,
    channel: Channel,
    amount: i32,
    times: nat,
)
    requires
        state.wf(),
        state.selected(channel) is Some,
        state.devices[state.selected(channel).unwrap()].volume(channel).enabled,
    ensures
        ({
            let k = state.selected(channel).unwrap();
            let start = state.devices[k].volume(channel).level;
            let after = moved_times(state, channel, amount, times);
            let level = after.devices[k].volume(channel).level;
            &&& after.wf()
            &&& after.selected(channel) == Some(k)
            &&& after.devices[k].volume(channel).enabled
            &&& level == shifted_times(start, amount, times)
            &&& ZERO <= level <= FULL
            &&& amount > 0 && times * amount >= FULL ==> level == FULL
            &&& amount < 0 && times * amount <= -FULL ==> level == ZERO
            &&& times > 0 ==> after.devices[k].volume(channel).cache == level
        }),
    decreases times,
{
    let k = state.selected(channel).unwrap();
    let start = state.devices[k].volume(channel).level;
    assert(state.devices[k].wf());
    lemma_shifted_times(start, amount, times);
    if times > 0 {
        lemma_move_volume_repeated(state, channel, amount, (times - 1) as nat);
        let before = moved_times(state, channel, amount, (times - 1) as nat);
        let after = moved(before, channel, amount);
        assert(ids_of(after.devices) =~= ids_of(before.devices));
        assert forall|i: int| 0 <= i < after.devices.len() implies (#[trigger] after.devices[i]).wf() by {
            if i != k {
                assert(before.devices[i].wf());
            } else {
                assert(before.devices[k].wf());
            }
        }
    }
}

} // verus!
