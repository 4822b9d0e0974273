use audioctl::audio::Channel;
use audioctl::coreaudio::{
    device_count, first_present, mute_flag, mute_value, scope_of, settable_elements,
    AudioObjectPropertyAddress,
};

fn address(selector: u32, scope: u32, element: u32) -> AudioObjectPropertyAddress {
    AudioObjectPropertyAddress { mSelector: selector, mScope: scope, mElement: element }
}

fn code(text: &str) -> u32 {
    let bytes = text.as_bytes();
    assert_eq!(bytes.len(), 4);
    u32::from_be_bytes([bytes[0], bytes[1], bytes[2], bytes[3]])
}

#[test]
fn directions_have_their_scope() {
    assert_eq!(scope_of(Channel::Input), code("inpt"));
    assert_eq!(scope_of(Channel::Output), code("outp"));
}

#[test]
fn properties_have_their_address() {
    assert_eq!(AudioObjectPropertyAddress::devices(), address(code("dev#"), code("glob"), 0));
    assert_eq!(
        AudioObjectPropertyAddress::default_device(Channel::Input),
        address(code("dIn "), code("glob"), 0)
    );
    assert_eq!(
        AudioObjectPropertyAddress::default_device(Channel::Output),
        address(code("dOut"), code("glob"), 0)
    );
    assert_eq!(AudioObjectPropertyAddress::name(), address(code("lnam"), code("glob"), 0));
    assert_eq!(AudioObjectPropertyAddress::uid(), address(code("uid "), code("glob"), 0));
    assert_eq!(
        AudioObjectPropertyAddress::streams(Channel::Input),
        address(code("stm#"), code("inpt"), 0)
    );
    assert_eq!(
        AudioObjectPropertyAddress::streams(Channel::Output),
        address(code("stm#"), code("outp"), 0)
    );
    assert_eq!(
        AudioObjectPropertyAddress::volume(Channel::Input, 2),
        address(code("volm"), code("inpt"), 2)
    );
    assert_eq!(
        AudioObjectPropertyAddress::volume(Channel::Output, 0),
        address(code("volm"), code("outp"), 0)
    );
    assert_eq!(
        AudioObjectPropertyAddress::mute(Channel::Input),
        address(code("mute"), code("inpt"), 0)
    );
    assert_eq!(
        AudioObjectPropertyAddress::mute(Channel::Output),
        address(code("mute"), code("outp"), 0)
    );
}

#[test]
fn an_enumeration_holds_four_bytes_for_each_device() {
    assert_eq!(device_count(0), 0);
    assert_eq!(device_count(3), 0);
    assert_eq!(device_count(4), 1);
    assert_eq!(device_count(23), 5);
    assert_eq!(device_count(u32::MAX), 1_073_741_823);
}

#[test]
fn the_first_sub_channel_with_a_level_stands_for_the_direction() {
    assert_eq!(first_present(&vec![]), None);
    assert_eq!(first_present(&vec![false, false]), None);
    assert_eq!(first_present(&vec![true]), Some(0));
    assert_eq!(first_present(&vec![false, true, true]), Some(1));
    assert_eq!(first_present(&vec![false, false, false, true]), Some(3));
}

#[test]
fn every_settable_sub_channel_is_written() {
    assert_eq!(settable_elements(&vec![]), Vec::<u32>::new());
    assert_eq!(settable_elements(&vec![false, false]), Vec::<u32>::new());
    assert_eq!(settable_elements(&vec![true, true, true]), vec![0, 1, 2]);
    assert_eq!(settable_elements(&vec![false, true, false, true]), vec![1, 3]);
}

#[test]
fn only_one_means_muted() {
    assert!(mute_flag(1));
    assert!(!mute_flag(0));
    assert!(!mute_flag(2));
    assert!(!mute_flag(u32::MAX));
    assert_eq!(mute_value(true), 1);
    assert_eq!(mute_value(false), 0);
    assert!(mute_flag(mute_value(true)));
    assert!(!mute_flag(mute_value(false)));
}
