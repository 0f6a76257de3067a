//! Which endpoint a source opens, and what becomes of one that is gone.
use obs_rs::audio::device::{
    device_available, pick, same_device, AudioDeviceTarget, AudioSourceKind, NO_DEFAULT_DEVICE,
};
use obs_rs::audio::graph::AudioSourceSnapshot;
use obs_rs::audio::level::AudioSourceId;

fn source(kind: AudioSourceKind, device: Option<&str>) -> AudioSourceSnapshot {
    AudioSourceSnapshot {
        id: AudioSourceId(1),
        name: "test".to_owned(),
        kind,
        device: device.map(str::to_owned),
        gain: 0,
        muted: false,
        monitored: false,
    }
}

fn device(id: &str, kind: AudioSourceKind, is_default: bool) -> AudioDeviceTarget {
    AudioDeviceTarget { id: id.to_owned(), name: id.to_owned(), kind, is_default }
}

fn openable(devices: &[AudioDeviceTarget], source: &AudioSourceSnapshot) -> bool {
    let devices = devices.to_vec();
    let available = device_available(&devices, source.kind, &source.device);
    // Picking is refused exactly where no endpoint is said to be there.
    assert_eq!(pick(&devices, &source.device, source.kind).is_ok(), available);
    available
}

#[test]
fn audio_a_source_with_no_device_needs_a_default_of_its_kind() {
    let mic = device("mic", AudioSourceKind::Input, true);
    let speakers = device("speakers", AudioSourceKind::Output, true);

    assert!(openable(&[mic.clone(), speakers.clone()], &source(AudioSourceKind::Input, None)));
    // Only playback endpoints: an input source has nothing to open.
    assert!(!openable(&[speakers], &source(AudioSourceKind::Input, None)));
    assert!(!openable(&[], &source(AudioSourceKind::Input, None)));
}

#[test]
fn audio_a_stored_device_counts_without_being_the_default() {
    let devices = [
        device("built-in", AudioSourceKind::Input, true),
        device("usb", AudioSourceKind::Input, false),
    ];
    assert!(openable(&devices, &source(AudioSourceKind::Input, Some("usb"))));
}

#[test]
fn audio_a_stored_device_that_is_gone_falls_back_like_pick_does() {
    let devices = [device("built-in", AudioSourceKind::Input, true)];
    assert!(openable(&devices, &source(AudioSourceKind::Input, Some("unplugged"))));

    // ...and with nothing of that kind left, neither of them can.
    let devices = [device("speakers", AudioSourceKind::Output, true)];
    assert!(!openable(&devices, &source(AudioSourceKind::Input, Some("unplugged"))));
}

#[test]
fn audio_endpoints_with_no_default_are_only_openable_by_name() {
    let devices = [device("usb", AudioSourceKind::Input, false)];
    assert!(openable(&devices, &source(AudioSourceKind::Input, Some("usb"))));
    assert!(!openable(&devices, &source(AudioSourceKind::Input, None)));
}

#[test]
fn device_a_source_with_no_device_needs_a_default_of_its_kind() {
    let mic = device("mic", AudioSourceKind::Input, true);
    let speakers = device("speakers", AudioSourceKind::Output, true);

    assert!(openable(&[mic.clone(), speakers.clone()], &source(AudioSourceKind::Input, None)));
    // Only playback endpoints: an input source has nothing to open.
    assert!(!openable(&[speakers], &source(AudioSourceKind::Input, None)));
    assert!(!openable(&[], &source(AudioSourceKind::Input, None)));
}

#[test]
fn device_a_stored_device_counts_without_being_the_default() {
    let devices = [
        device("built-in", AudioSourceKind::Input, true),
        device("usb", AudioSourceKind::Input, false),
    ];
    assert!(openable(&devices, &source(AudioSourceKind::Input, Some("usb"))));
}

#[test]
fn device_a_stored_device_that_is_gone_falls_back_like_pick_does() {
    let devices = [device("built-in", AudioSourceKind::Input, true)];
    assert!(openable(&devices, &source(AudioSourceKind::Input, Some("unplugged"))));

    // ...and with nothing of that kind left, neither of them can.
    let devices = [device("speakers", AudioSourceKind::Output, true)];
    assert!(!openable(&devices, &source(AudioSourceKind::Input, Some("unplugged"))));
}

#[test]
fn device_endpoints_with_no_default_are_only_openable_by_name() {
    let devices = [device("usb", AudioSourceKind::Input, false)];
    assert!(openable(&devices, &source(AudioSourceKind::Input, Some("usb"))));
    assert!(!openable(&devices, &source(AudioSourceKind::Input, None)));
}

/// The stored endpoint is taken before the default, wherever each stands.
#[test]
fn the_stored_endpoint_is_picked_before_the_default() {
    let devices = vec![
        device("built-in", AudioSourceKind::Input, true),
        device("speakers", AudioSourceKind::Output, true),
        device("usb", AudioSourceKind::Input, false),
    ];
    let stored = Some("usb".to_owned());
    assert_eq!(pick(&devices, &stored, AudioSourceKind::Input), Ok(2));
    let gone = Some("unplugged".to_owned());
    assert_eq!(pick(&devices, &gone, AudioSourceKind::Input), Ok(0));
    assert_eq!(pick(&devices, &None, AudioSourceKind::Output), Ok(1));
}

/// An id that is there under the other kind is there: it is picked, and the
/// source is called openable.
#[test]
fn a_stored_id_of_the_other_kind_is_openable_where_it_is_picked() {
    let devices = [device("speakers", AudioSourceKind::Output, false)];
    let stored = source(AudioSourceKind::Input, Some("speakers"));
    assert!(openable(&devices, &stored));
    assert_eq!(pick(&devices.to_vec(), &stored.device, stored.kind), Ok(0));
}

#[test]
fn nothing_is_picked_where_there_is_no_default() {
    let devices = vec![device("speakers", AudioSourceKind::Output, true)];
    assert_eq!(
        pick(&devices, &None, AudioSourceKind::Input),
        Err(NO_DEFAULT_DEVICE.to_owned())
    );
}

#[test]
fn naming_nothing_twice_is_naming_the_same() {
    assert!(same_device(&None, &None));
    assert!(same_device(&Some("usb".to_owned()), &Some("usb".to_owned())));
    assert!(!same_device(&Some("usb".to_owned()), &Some("mic".to_owned())));
    assert!(!same_device(&Some("usb".to_owned()), &None));
}
