use audioctl::audio::{AudioState, Channel, RefreshError};
use audioctl::level::{shift, FULL, ZERO};
use audioctl::snapshot::{Command, Plan, Probe, Reading, Snapshot};

/// A stand-in for the system: it answers a write by taking the value, where
/// the device has the property at all.
struct FakeSystem {
    devices: Vec<Reading>,
    default_input: u32,
    default_output: u32,
}

impl FakeSystem {
    fn new(devices: Vec<Reading>, default_input: u32, default_output: u32) -> FakeSystem {
        FakeSystem { devices, default_input, default_output }
    }

    fn snapshot(&self) -> Snapshot {
        Snapshot {
            devices: Some(self.devices.clone()),
            default_input: self.default_input,
            default_output: self.default_output,
        }
    }

    fn probe_mut(&mut self, id: u32, channel: Channel) -> Vec<&mut Probe> {
        self.devices
            .iter_mut()
            .filter(|d| d.id == id)
            .map(|d| match channel {
                Channel::Input => &mut d.input,
                Channel::Output => &mut d.output,
            })
            .collect()
    }

    fn perform(&mut self, command: Command) {
        match command {
            Command::SetLevel { id, channel, level } => {
                for probe in self.probe_mut(id, channel) {
                    if probe.level.is_some() {
                        probe.level = Some(level);
                    }
                }
            }
            Command::SetMute { id, channel, muted } => {
                for probe in self.probe_mut(id, channel) {
                    if probe.mute.is_some() {
                        probe.mute = Some(muted);
                    }
                }
            }
        }
    }

    fn probe(&self, id: u32, channel: Channel) -> Probe {
        let reading = self.devices.iter().find(|d| d.id == id).unwrap();
        match channel {
            Channel::Input => reading.input,
            Channel::Output => reading.output,
        }
    }

    fn refresh(&mut self, audio: &mut AudioState, preserve_cache: bool) -> Vec<Command> {
        let writes = audio.update(&self.snapshot(), preserve_cache).unwrap();
        for write in writes.iter() {
            self.perform(*write);
        }
        writes
    }

    fn run(&mut self, audio: &mut AudioState, plan: Plan) {
        if let Plan::Sync { write, preserve_cache } = plan {
            if let Some(command) = write {
                self.perform(command);
            }
            self.refresh(audio, preserve_cache);
        }
    }
}

fn probe(level: Option<u32>, mute: Option<bool>) -> Probe {
    Probe { level, mute }
}

fn absent() -> Probe {
    Probe { level: None, mute: None }
}

fn reading(id: u32, name: &str, input: Probe, output: Probe) -> Reading {
    Reading { id, uid: format!("uid-{}", id), name: name.to_string(), input, output }
}

fn ids(audio: &AudioState) -> Vec<u32> {
    let mut ids: Vec<u32> = audio.device_list().iter().map(|e| e.3.id).collect();
    ids.sort();
    ids
}

fn cached(audio: &AudioState, id: u32) -> audioctl::audio::Device {
    audio.device_list().iter().find(|e| e.3.id == id).unwrap().3.clone()
}

fn muted(audio: &AudioState, id: u32) -> bool {
    audio.device_list().iter().find(|e| e.3.id == id).unwrap().2
}

fn two_devices() -> FakeSystem {
    FakeSystem::new(
        vec![
            reading(
                1,
                "Speakers",
                probe(Some(500_000), Some(false)),
                probe(Some(300_000), Some(false)),
            ),
            reading(2, "Microphone", probe(Some(0), None), absent()),
        ],
        2,
        1,
    )
}

#[test]
fn a_new_engine_knows_nothing() {
    let audio = AudioState::new();
    assert!(audio.device_list().is_empty());
    assert_eq!(audio.input(&1), None);
    assert_eq!(audio.output(&1), None);
    assert_eq!(audio.toggle_mute(Channel::Input), Plan::Idle);
    assert_eq!(audio.toggle_mute(Channel::Output), Plan::Idle);
}

#[test]
fn two_devices_are_listed_by_name() {
    let mut os = two_devices();
    let mut audio = AudioState::new();
    let writes = os.refresh(&mut audio, false);
    assert_eq!(writes, Vec::<Command>::new());

    let list = audio.device_list();
    assert_eq!(list.len(), 2);
    assert_eq!(list[0].3.id, 2);
    assert_eq!(list[0].3.name, "Microphone");
    assert_eq!(list[0].3.uid, "uid-2");
    assert_eq!((list[0].0, list[0].1, list[0].2), (true, false, false));
    assert_eq!(list[1].3.id, 1);
    assert_eq!((list[1].0, list[1].1, list[1].2), (false, true, false));

    assert_eq!(audio.input(&1), Some((500_000, false)));
    assert_eq!(audio.output(&1), Some((300_000, false)));
    assert_eq!(audio.output(&2), None);
    assert_eq!(audio.input(&2), Some((0, false)));
    assert_eq!(audio.input(&3), None);
}

#[test]
fn a_missing_enumeration_is_refused_and_changes_nothing() {
    let mut os = two_devices();
    let mut audio = AudioState::new();
    os.refresh(&mut audio, false);
    let broken = Snapshot { devices: None, default_input: 1, default_output: 2 };
    assert_eq!(audio.update(&broken, false), Err(RefreshError::Enumeration));
    assert_eq!(ids(&audio), vec![1, 2]);
    assert_eq!(audio.input(&1), Some((500_000, false)));
    let list = audio.device_list();
    assert_eq!((list[0].0, list[0].1), (true, false));
    assert_eq!((list[1].0, list[1].1), (false, true));
}

#[test]
fn a_snapshot_with_a_level_above_full_scale_is_not_valid() {
    let fine = two_devices().snapshot();
    assert!(fine.is_valid());
    let mut wrong = two_devices();
    wrong.devices[1].input.level = Some(FULL + 1);
    assert!(!wrong.snapshot().is_valid());
    wrong.devices[1].input.level = Some(FULL);
    assert!(wrong.snapshot().is_valid());
    let none = Snapshot { devices: None, default_input: 0, default_output: 0 };
    assert!(none.is_valid());
}

#[test]
fn refreshing_twice_changes_nothing_the_second_time() {
    let mut os = FakeSystem::new(
        vec![
            reading(
                1,
                "Headset",
                probe(Some(500_000), Some(true)),
                probe(Some(300_000), Some(false)),
            ),
            reading(2, "Microphone", probe(Some(0), None), absent()),
        ],
        2,
        1,
    );
    let mut audio = AudioState::new();
    let first = os.refresh(&mut audio, false);
    assert_eq!(first.len(), 2);
    let devices: Vec<_> = audio.device_list().iter().map(|e| e.3.clone()).collect();
    let marks: Vec<_> = audio.device_list().iter().map(|e| (e.0, e.1)).collect();

    let second = os.refresh(&mut audio, true);
    assert_eq!(second, Vec::<Command>::new());
    let again: Vec<_> = audio.device_list().iter().map(|e| e.3.clone()).collect();
    let marks_again: Vec<_> = audio.device_list().iter().map(|e| (e.0, e.1)).collect();
    assert_eq!(again, devices);
    assert_eq!(marks_again, marks);
}

#[test]
fn a_refresh_that_moves_restore_points_forgets_a_taken_over_level() {
    let mut os = FakeSystem::new(
        vec![reading(1, "Headset", probe(Some(500_000), Some(true)), absent())],
        1,
        1,
    );
    let mut audio = AudioState::new();
    os.refresh(&mut audio, false);
    assert_eq!(cached(&audio, 1).input.cache, 500_000);
    os.refresh(&mut audio, false);
    assert_eq!(cached(&audio, 1).input.cache, 0);
    assert_eq!(cached(&audio, 1).input.level, 0);
}

#[test]
fn a_set_mute_flag_is_taken_over() {
    let mut os = FakeSystem::new(
        vec![reading(
            7,
            "Headset",
            probe(Some(640_000), Some(false)),
            probe(Some(300_000), Some(false)),
        )],
        7,
        7,
    );
    let mut audio = AudioState::new();
    os.refresh(&mut audio, false);
    assert!(!muted(&audio, 7));

    os.devices[0].input.mute = Some(true);
    let writes = os.refresh(&mut audio, true);
    assert_eq!(
        writes,
        vec![
            Command::SetLevel { id: 7, channel: Channel::Input, level: ZERO },
            Command::SetMute { id: 7, channel: Channel::Input, muted: false },
        ]
    );
    assert_eq!(os.probe(7, Channel::Input), probe(Some(0), Some(false)));
    assert_eq!(os.probe(7, Channel::Output), probe(Some(300_000), Some(false)));
    assert!(muted(&audio, 7));
    let device = cached(&audio, 7);
    assert_eq!(device.input.cache, 640_000);
    assert_eq!(device.input.level, 0);
    assert_eq!(device.output.level, 300_000);
    assert_eq!(audio.input(&7), Some((0, true)));

    let again = os.refresh(&mut audio, true);
    assert_eq!(again, Vec::<Command>::new());
    assert_eq!(cached(&audio, 7).input.cache, 640_000);
}

#[test]
fn both_directions_are_taken_over_each_by_its_own_flag() {
    let mut os = FakeSystem::new(
        vec![reading(
            7,
            "Headset",
            probe(Some(640_000), Some(true)),
            probe(Some(300_000), Some(true)),
        )],
        7,
        7,
    );
    let mut audio = AudioState::new();
    let writes = os.refresh(&mut audio, false);
    assert_eq!(
        writes,
        vec![
            Command::SetLevel { id: 7, channel: Channel::Input, level: 0 },
            Command::SetMute { id: 7, channel: Channel::Input, muted: false },
            Command::SetLevel { id: 7, channel: Channel::Output, level: 0 },
            Command::SetMute { id: 7, channel: Channel::Output, muted: false },
        ]
    );
    let device = cached(&audio, 7);
    assert_eq!((device.input.level, device.input.cache), (0, 640_000));
    assert_eq!((device.output.level, device.output.cache), (0, 300_000));
    assert!(muted(&audio, 7));
}

#[test]
fn only_the_flagged_direction_is_taken_over() {
    let mut os = FakeSystem::new(
        vec![reading(
            7,
            "Headset",
            probe(Some(640_000), Some(false)),
            probe(Some(300_000), Some(true)),
        )],
        7,
        7,
    );
    let mut audio = AudioState::new();
    let writes = os.refresh(&mut audio, false);
    assert_eq!(
        writes,
        vec![
            Command::SetLevel { id: 7, channel: Channel::Output, level: 0 },
            Command::SetMute { id: 7, channel: Channel::Output, muted: false },
        ]
    );
    let device = cached(&audio, 7);
    assert_eq!((device.input.level, device.input.cache), (640_000, 640_000));
    assert_eq!((device.output.level, device.output.cache), (0, 300_000));
}

#[test]
fn toggling_mute_twice_restores_the_level() {
    let mut os = FakeSystem::new(
        vec![reading(3, "Microphone", probe(Some(420_000), Some(false)), absent())],
        3,
        0,
    );
    let mut audio = AudioState::new();
    os.refresh(&mut audio, false);
    assert_eq!(cached(&audio, 3).input.cache, 420_000);

    let first = audio.toggle_mute(Channel::Input);
    assert_eq!(
        first,
        Plan::Sync {
            write: Some(Command::SetLevel { id: 3, channel: Channel::Input, level: 0 }),
            preserve_cache: true,
        }
    );
    os.run(&mut audio, first);
    assert_eq!(os.probe(3, Channel::Input).level, Some(0));
    assert_eq!(audio.input(&3), Some((0, true)));
    assert_eq!(cached(&audio, 3).input.cache, 420_000);

    let second = audio.toggle_mute(Channel::Input);
    assert_eq!(
        second,
        Plan::Sync {
            write: Some(Command::SetLevel { id: 3, channel: Channel::Input, level: 420_000 }),
            preserve_cache: true,
        }
    );
    os.run(&mut audio, second);
    assert_eq!(os.probe(3, Channel::Input).level, Some(420_000));
    assert_eq!(audio.input(&3), Some((420_000, false)));
}

#[test]
fn toggling_mute_restores_the_level_on_a_device_with_both_directions() {
    let mut os = FakeSystem::new(
        vec![reading(
            3,
            "Headset",
            probe(Some(420_000), Some(false)),
            probe(Some(300_000), Some(false)),
        )],
        3,
        3,
    );
    let mut audio = AudioState::new();
    os.refresh(&mut audio, false);
    let first = audio.toggle_mute(Channel::Input);
    os.run(&mut audio, first);
    assert_eq!(audio.input(&3), Some((0, true)));
    let second = audio.toggle_mute(Channel::Input);
    os.run(&mut audio, second);
    assert_eq!(os.probe(3, Channel::Input).level, Some(420_000));
    assert_eq!(audio.input(&3), Some((420_000, false)));
}

#[test]
fn toggle_mute_does_nothing_for_a_direction_that_is_not_there() {
    let mut os = two_devices();
    os.default_output = 2;
    let mut audio = AudioState::new();
    os.refresh(&mut audio, false);
    assert_eq!(audio.output(&2), None);
    assert_eq!(audio.toggle_mute(Channel::Output), Plan::Idle);
}

#[test]
fn move_volume_does_nothing_without_a_selected_device() {
    let mut os = two_devices();
    os.default_input = 99;
    os.default_output = 98;
    let mut audio = AudioState::new();
    os.refresh(&mut audio, false);
    assert_eq!(audio.move_volume(Channel::Input, 100_000), Plan::Idle);
    assert_eq!(audio.move_volume(Channel::Output, -100_000), Plan::Idle);
    assert_eq!(audio.toggle_mute(Channel::Input), Plan::Idle);
    assert_eq!(audio.input(&1), Some((500_000, false)));
}

#[test]
fn move_volume_refreshes_without_a_write_where_the_direction_is_not_there() {
    let mut os = two_devices();
    os.default_output = 2;
    let mut audio = AudioState::new();
    os.refresh(&mut audio, false);
    assert_eq!(
        audio.move_volume(Channel::Output, 100_000),
        Plan::Sync { write: None, preserve_cache: false }
    );
    assert_eq!(audio.output(&2), None);
}

#[test]
fn move_volume_writes_the_new_level_and_moves_the_restore_point() {
    let mut os = two_devices();
    let mut audio = AudioState::new();
    os.refresh(&mut audio, false);
    let plan = audio.move_volume(Channel::Output, 100_000);
    assert_eq!(
        plan,
        Plan::Sync {
            write: Some(Command::SetLevel { id: 1, channel: Channel::Output, level: 400_000 }),
            preserve_cache: false,
        }
    );
    assert_eq!(audio.output(&1), Some((400_000, false)));
    assert_eq!(cached(&audio, 1).output.cache, 400_000);
    os.run(&mut audio, plan);
    assert_eq!(os.probe(1, Channel::Output).level, Some(400_000));
    assert_eq!(audio.output(&1), Some((400_000, false)));
    assert_eq!(cached(&audio, 1).output.cache, 400_000);
    assert_eq!(audio.input(&1), Some((500_000, false)));
}

#[test]
fn move_volume_stays_within_full_scale() {
    let mut os = two_devices();
    let mut audio = AudioState::new();
    os.refresh(&mut audio, false);
    let mut seen = Vec::new();
    for _ in 0..9 {
        let plan = audio.move_volume(Channel::Output, 100_000);
        os.run(&mut audio, plan);
        seen.push(audio.output(&1).unwrap().0);
    }
    assert_eq!(
        seen,
        vec![400_000, 500_000, 600_000, 700_000, 800_000, 900_000, FULL, FULL, FULL]
    );
    let plan = audio.move_volume(Channel::Output, i32::MAX);
    os.run(&mut audio, plan);
    assert_eq!(audio.output(&1), Some((FULL, false)));
    let plan = audio.move_volume(Channel::Output, i32::MIN);
    os.run(&mut audio, plan);
    assert_eq!(audio.output(&1).unwrap().0, ZERO);
    let plan = audio.move_volume(Channel::Output, -1);
    os.run(&mut audio, plan);
    assert_eq!(audio.output(&1).unwrap().0, ZERO);
}

#[test]
fn shift_clamps_the_sum() {
    assert_eq!(shift(500_000, 100_000), 600_000);
    assert_eq!(shift(500_000, -100_000), 400_000);
    assert_eq!(shift(950_000, 100_000), FULL);
    assert_eq!(shift(50_000, -100_000), ZERO);
    assert_eq!(shift(0, i32::MIN), ZERO);
    assert_eq!(shift(FULL, i32::MAX), FULL);
    assert_eq!(shift(u32::MAX, 0), FULL);
    assert_eq!(shift(u32::MAX, i32::MIN), FULL);
    assert_eq!(shift(0, 0), 0);
}

#[test]
fn a_device_that_leaves_is_forgotten() {
    let mut os = FakeSystem::new(
        vec![
            reading(1, "Speakers", absent(), probe(Some(300_000), Some(false))),
            reading(2, "Microphone", probe(Some(420_000), Some(true)), absent()),
        ],
        2,
        1,
    );
    let mut audio = AudioState::new();
    os.refresh(&mut audio, false);
    assert!(muted(&audio, 2));
    assert_eq!(cached(&audio, 2).input.cache, 420_000);

    let gone = os.devices.remove(1);
    os.refresh(&mut audio, true);
    assert_eq!(ids(&audio), vec![1]);
    assert_eq!(audio.input(&2), None);
    assert!(audio.device_list().iter().all(|e| !e.2));

    let mut back = gone;
    back.input = probe(Some(250_000), Some(false));
    os.devices.push(back);
    os.refresh(&mut audio, true);
    assert_eq!(ids(&audio), vec![1, 2]);
    let device = cached(&audio, 2);
    assert_eq!((device.input.level, device.input.cache), (250_000, 250_000));
    assert!(device.input.enabled);
    assert!(!device.output.enabled);
    assert!(!muted(&audio, 2));
}

#[test]
fn an_absent_default_leaves_the_markers_as_they_were() {
    let mut os = two_devices();
    let mut audio = AudioState::new();
    os.refresh(&mut audio, false);
    os.default_input = 40;
    os.default_output = 41;
    os.refresh(&mut audio, false);
    let list = audio.device_list();
    assert_eq!((list[0].3.id, list[0].0, list[0].1), (2, true, false));
    assert_eq!((list[1].3.id, list[1].0, list[1].1), (1, false, true));

    os.default_input = 1;
    os.refresh(&mut audio, false);
    let list = audio.device_list();
    assert_eq!((list[0].3.id, list[0].0, list[0].1), (2, false, false));
    assert_eq!((list[1].3.id, list[1].0, list[1].1), (1, true, true));
}

#[test]
fn a_remembered_default_that_points_past_the_devices_selects_nothing() {
    let mut os = FakeSystem::new(
        vec![
            reading(1, "Speakers", absent(), probe(Some(300_000), Some(false))),
            reading(2, "Microphone", probe(Some(420_000), Some(false)), absent()),
        ],
        2,
        1,
    );
    let mut audio = AudioState::new();
    os.refresh(&mut audio, false);
    os.devices.remove(1);
    os.default_input = 2;
    os.refresh(&mut audio, false);
    assert_eq!(ids(&audio), vec![1]);
    assert_eq!(audio.toggle_mute(Channel::Input), Plan::Idle);
    assert_eq!(audio.move_volume(Channel::Input, 100_000), Plan::Idle);
}

#[test]
fn an_id_enumerated_twice_is_cached_once_from_its_first_reading() {
    let os = FakeSystem::new(
        vec![
            reading(5, "First", probe(Some(100_000), None), absent()),
            reading(5, "Second", probe(Some(900_000), Some(true)), absent()),
            reading(6, "Other", absent(), probe(Some(1), None)),
        ],
        5,
        6,
    );
    let mut audio = AudioState::new();
    let writes = audio.update(&os.snapshot(), false).unwrap();
    assert_eq!(writes, Vec::<Command>::new());
    assert_eq!(ids(&audio), vec![5, 6]);
    assert_eq!(cached(&audio, 5).name, "First");
    assert_eq!(audio.input(&5), Some((100_000, false)));

    let writes = audio.update(&os.snapshot(), false).unwrap();
    assert_eq!(writes, Vec::<Command>::new());
    assert_eq!(ids(&audio), vec![5, 6]);
    assert_eq!(audio.input(&5), Some((100_000, false)));
}

#[test]
fn survivors_keep_their_order_and_arrivals_follow() {
    let mut os = FakeSystem::new(
        vec![
            reading(1, "same", absent(), absent()),
            reading(2, "same", absent(), absent()),
            reading(3, "same", absent(), absent()),
        ],
        3,
        1,
    );
    let mut audio = AudioState::new();
    os.refresh(&mut audio, false);
    let order: Vec<u32> = audio.device_list().iter().map(|e| e.3.id).collect();
    assert_eq!(order, vec![1, 2, 3]);

    os.devices = vec![
        reading(9, "same", absent(), absent()),
        reading(3, "same", absent(), absent()),
        reading(8, "same", absent(), absent()),
        reading(1, "same", absent(), absent()),
    ];
    os.refresh(&mut audio, false);
    let list = audio.device_list();
    let order: Vec<u32> = list.iter().map(|e| e.3.id).collect();
    assert_eq!(order, vec![1, 3, 9, 8]);
    let marks: Vec<(bool, bool)> = list.iter().map(|e| (e.0, e.1)).collect();
    assert_eq!(marks, vec![(false, true), (true, false), (false, false), (false, false)]);
}

#[test]
fn a_name_is_kept_until_the_device_is_discovered_again() {
    let mut os = two_devices();
    let mut audio = AudioState::new();
    os.refresh(&mut audio, false);
    os.devices[0].name = "Renamed".to_string();
    os.refresh(&mut audio, false);
    assert_eq!(cached(&audio, 1).name, "Speakers");
}

#[test]
fn a_level_that_cannot_be_read_disables_the_direction_until_it_can() {
    let mut os = two_devices();
    let mut audio = AudioState::new();
    os.refresh(&mut audio, false);
    os.devices[0].output.level = None;
    os.refresh(&mut audio, false);
    assert_eq!(audio.output(&1), None);
    assert_eq!(audio.input(&1), Some((500_000, false)));
    let device = cached(&audio, 1);
    assert!(!device.output.enabled);
    assert_eq!((device.output.level, device.output.cache), (300_000, 300_000));
    assert_eq!(audio.toggle_mute(Channel::Output), Plan::Idle);

    os.devices[0].output.level = Some(200_000);
    os.refresh(&mut audio, true);
    assert_eq!(audio.output(&1), Some((200_000, false)));
    assert_eq!(cached(&audio, 1).output.cache, 300_000);

    os.devices[1].output.level = Some(10);
    os.refresh(&mut audio, false);
    assert_eq!(audio.output(&2), Some((10, false)));
}

#[test]
fn levels_decide_who_is_held_silent() {
    let mut os = FakeSystem::new(
        vec![reading(1, "Microphone", probe(Some(500_000), None), absent())],
        1,
        0,
    );
    let mut audio = AudioState::new();
    os.refresh(&mut audio, true);
    assert!(!muted(&audio, 1));
    os.devices[0].input.level = Some(0);
    os.refresh(&mut audio, true);
    assert!(muted(&audio, 1));
    assert_eq!(cached(&audio, 1).input.cache, 500_000);
    os.refresh(&mut audio, true);
    assert!(muted(&audio, 1));
    os.devices[0].input.level = Some(1);
    os.refresh(&mut audio, true);
    assert!(!muted(&audio, 1));
    assert_eq!(audio.input(&1), Some((1, false)));
}

#[test]
fn a_silent_device_seen_for_the_first_time_is_not_held_yet() {
    let mut os = two_devices();
    let mut audio = AudioState::new();
    os.refresh(&mut audio, false);
    assert_eq!(audio.input(&2), Some((0, false)));
    os.refresh(&mut audio, false);
    assert_eq!(audio.input(&2), Some((0, true)));
}

#[test]
fn the_restore_point_follows_the_level_unless_it_is_preserved() {
    let mut os = two_devices();
    let mut audio = AudioState::new();
    os.refresh(&mut audio, false);
    os.devices[0].output.level = Some(800_000);
    os.refresh(&mut audio, true);
    let device = cached(&audio, 1);
    assert_eq!((device.output.level, device.output.cache), (800_000, 300_000));
    os.refresh(&mut audio, false);
    let device = cached(&audio, 1);
    assert_eq!((device.output.level, device.output.cache), (800_000, 800_000));
}
