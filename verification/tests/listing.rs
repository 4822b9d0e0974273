use audioctl::audio::AudioState;
use audioctl::order::comes_before;
use audioctl::snapshot::{Probe, Reading, Snapshot};

fn named(id: u32, name: &str) -> Reading {
    Reading {
        id,
        uid: String::new(),
        name: name.to_string(),
        input: Probe { level: None, mute: None },
        output: Probe { level: None, mute: None },
    }
}

fn listed(names: &[&str]) -> Vec<(u32, String)> {
    let devices = names.iter().enumerate().map(|(i, n)| named(i as u32 + 1, n)).collect();
    let os = Snapshot { devices: Some(devices), default_input: 0, default_output: 0 };
    let mut audio = AudioState::new();
    audio.update(&os, false).unwrap();
    audio.device_list().iter().map(|e| (e.3.id, e.3.name.clone())).collect()
}

fn pairs(list: &[(u32, &str)]) -> Vec<(u32, String)> {
    list.iter().map(|(id, name)| (*id, name.to_string())).collect()
}

#[test]
fn names_are_ordered_character_by_character() {
    assert!(comes_before("a", "b"));
    assert!(!comes_before("b", "a"));
    assert!(!comes_before("a", "a"));
    assert!(comes_before("", "a"));
    assert!(!comes_before("a", ""));
    assert!(!comes_before("", ""));
    assert!(comes_before("abc", "abd"));
    assert!(comes_before("ab", "abc"));
    assert!(!comes_before("abc", "ab"));
    assert!(comes_before("B", "a"));
    assert!(comes_before("Z", "a"));
    assert!(comes_before("a", "\u{e9}"));
    assert!(comes_before("z", "\u{e9}"));
    assert!(comes_before("\u{e9}", "\u{4e2d}"));
    assert!(comes_before("\u{ffff}", "\u{10000}"));
    assert!(!comes_before("\u{10000}", "\u{ffff}"));
}

#[test]
fn the_order_of_names_is_the_order_of_strings() {
    let names = ["", "a", "B", "ab", "abc", "b", "\u{e9}", "\u{4e2d}", "\u{ffff}", "\u{10000}", " "];
    for a in names.iter() {
        for b in names.iter() {
            assert_eq!(comes_before(a, b), a < b, "{:?} {:?}", a, b);
        }
    }
}

#[test]
fn the_list_is_sorted_by_name() {
    assert_eq!(
        listed(&["Speakers", "Microphone", "Headset", "AirPods"]),
        pairs(&[(4, "AirPods"), (3, "Headset"), (2, "Microphone"), (1, "Speakers")])
    );
}

#[test]
fn equal_names_stay_in_insertion_order() {
    assert_eq!(
        listed(&["b", "a", "b", "a", "b"]),
        pairs(&[(2, "a"), (4, "a"), (1, "b"), (3, "b"), (5, "b")])
    );
}

#[test]
fn a_list_in_order_stays_as_it_is() {
    assert_eq!(listed(&["a", "b", "c"]), pairs(&[(1, "a"), (2, "b"), (3, "c")]));
    assert_eq!(listed(&["c", "b", "a"]), pairs(&[(3, "a"), (2, "b"), (1, "c")]));
    assert_eq!(listed(&[]), pairs(&[]));
    assert_eq!(listed(&["only"]), pairs(&[(1, "only")]));
}

#[test]
fn the_list_agrees_with_a_stable_sort() {
    let names = ["delta", "Alpha", "", "charlie", "alpha", "delta", "bravo", "Alpha", "zulu", ""];
    let mut expected: Vec<(u32, String)> =
        names.iter().enumerate().map(|(i, n)| (i as u32 + 1, n.to_string())).collect();
    expected.sort_by_key(|(_, name)| name.clone());
    assert_eq!(listed(&names), expected);
}
