//! A model of how the system answers the engine's writes: a property that a
//! device has takes the value written to it, and nothing else changes. The
//! engine never relies on it; it serves to state what a refresh achieves.

use crate::device::Channel;
use crate::level::ZERO;
use crate::model::{commands_for, lemma_index_of, reading_of, takeover, takeovers};
use crate::snapshot::{live_ids, Command, Probe, ReadingView, SnapshotView};
use vstd::prelude::*;

verus! {

/// The same reading with another report on the given direction.
pub open spec fn with_probe(reading: ReadingView, channel: Channel, probe: Probe) -> ReadingView {
    match channel {
        Channel::Input => ReadingView { input: probe, ..reading },
        Channel::Output => ReadingView { output: probe, ..reading },
    }
}

/// What the system reports of a device after one write.
pub open spec fn written(reading: ReadingView, command: Command) -> ReadingView {
    match command {
        Command::SetLevel { id, channel, level } => {
            let probe = reading.probe(channel);
            if reading.id == id && probe.level is Some {
                with_probe(reading, channel, Probe { level: Some(level), mute: probe.mute })
            } else {
                reading
            }
        },
        Command::SetMute { id, channel, muted } => {
            let probe = reading.probe(channel);
            if reading.id == id && probe.mute is Some {
                with_probe(reading, channel, Probe { level: probe.level, mute: Some(muted) })
            } else {
                reading
            }
        },
    }
}

/// What the system reports of a device after a run of writes.
pub open spec fn written_all(reading: ReadingView, commands: Seq<Command>) -> ReadingView
    decreases commands.len(),
{
    if commands.len() == 0 {
        reading
    } else {
        written(written_all(reading, commands.drop_last()), commands.last())
    }
}

/// The snapshot that the system gives after a run of writes.
pub open spec fn obeyed(os: SnapshotView, commands: Seq<Command>) -> SnapshotView {
    SnapshotView {
        devices: match os.devices {
            Some(readings) => Some(readings.map_values(|r: ReadingView| written_all(r, commands))),
            None => None,
        },
        default_input: os.default_input,
        default_output: os.default_output,
    }
}

/// A report on one direction after the engine took the direction over, or
/// left it alone: a level that can be read is zero, and the flag is clear.
pub open spec fn settled_probe(probe: Probe, taken: bool) -> Probe {
    if taken {
        Probe {
            level: if probe.level is Some {
                Some(ZERO)
            } else {
                None
            },
            mute: if probe.mute is Some {
                Some(false)
            } else {
                None
            },
        }
    } else {
        probe
    }
}

/// A reading after the writes that the workaround check asks for on seeing
/// `seen` of the same device.
pub open spec fn settled(reading: ReadingView, seen: ReadingView) -> ReadingView {
    ReadingView {
        id: reading.id,
        uid: reading.uid,
        name: reading.name,
        input: settled_probe(reading.input, seen.input.flagged()),
        output: settled_probe(reading.output, seen.output.flagged()),
    }
}

/// Writes one after the other are the writes of the concatenation.
pub proof fn lemma_written_concat(reading: ReadingView, a: Seq<Command>, b: Seq<Command>)
    ensures
        written_all(reading, a + b) == written_all(written_all(reading, a), b),
    decreases b.len(),
{
    if b.len() == 0 {
        assert(a + b =~= a);
    } else {
        assert((a + b).drop_last() =~= a + b.drop_last());
        assert((a + b).last() == b.last());
        lemma_written_concat(reading, a, b.drop_last());
    }
}

/// The writes that take one direction over settle that direction, on the
/// device they are meant for.
pub proof fn lemma_written_takeover(reading: ReadingView, id: u32, channel: Channel, probe: Probe)
    ensures
        written_all(reading, takeover(id, channel, probe)) == if reading.id == id {
            with_probe(reading, channel, settled_probe(reading.probe(channel), probe.flagged()))
        } else {
            reading
        },
{
    let writes = takeover(id, channel, probe);
    if probe.flagged() {
        let zero = Command::SetLevel { id, channel, level: ZERO };
        let clear = Command::SetMute { id, channel, muted: false };
        assert(writes.drop_last() =~= seq![zero]);
        assert(writes.last() == clear);
        assert(seq![zero].drop_last() =~= Seq::<Command>::empty());
        assert(seq![zero].last() == zero);
        assert(written_all(reading, Seq::<Command>::empty()) == reading);
        assert(written_all(reading, seq![zero]) == written(reading, zero));
        assert(written_all(reading, writes) == written(written(reading, zero), clear));
    } else {
        assert(with_probe(reading, channel, reading.probe(channel)) == reading);
    }
}

/// The writes of the workaround check on one device settle that device.
pub proof fn lemma_written_takeovers(reading: ReadingView, seen: ReadingView)
    ensures
        written_all(reading, takeovers(seen)) == if reading.id == seen.id {
            settled(reading, seen)
        } else {
            reading
        },
{
    let first = takeover(seen.id, Channel::Input, seen.input);
    let second = takeover(seen.id, Channel::Output, seen.output);
    lemma_written_concat(reading, first, second);
    lemma_written_takeover(reading, seen.id, Channel::Input, seen.input);
    lemma_written_takeover(written_all(reading, first), seen.id, Channel::Output, seen.output);
}

/// The writes of a refresh settle every enumerated device they are about
/// and leave the others alone.
pub proof fn lemma_written_commands(reading: ReadingView, ids: Seq<u32>, readings: Seq<ReadingView>)
    requires
        forall|i: int| 0 <= i < ids.len() ==> live_ids(readings).contains(#[trigger] ids[i]),
    ensures
        written_all(reading, commands_for(ids, readings)) == if ids.contains(reading.id) {
            settled(reading, reading_of(readings, reading.id))
        } else {
            reading
        },
    decreases ids.len(),
{
    if ids.len() > 0 {
        let front = ids.drop_last();
        let seen = reading_of(readings, ids.last());
        assert forall|i: int| 0 <= i < front.len() implies live_ids(readings).contains(
            #[trigger] front[i],
        ) by {
            assert(front[i] == ids[i]);
        }
        lemma_written_commands(reading, front, readings);
        lemma_written_concat(reading, commands_for(front, readings), takeovers(seen));
        lemma_written_takeovers(written_all(reading, commands_for(front, readings)), seen);
        crate::model::lemma_contains_last(ids, reading.id);
        assert(live_ids(readings).contains(ids[ids.len() - 1]));
        lemma_index_of(live_ids(readings), ids.last());
        assert(seen.id == ids.last());
    }
}

} // verus!
