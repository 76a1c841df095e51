use rusty_tuber::audio::{
    device_lines, list_input_devices, needs_device_names, negotiate_config, pick_device,
    stream_tries, DevicePick, EnvelopeControl, PickError, RateRange,
};
use rusty_tuber::binary32::Binary32;
use rusty_tuber::config::{AudioMode, AudioSettings};

fn num(v: f32) -> Binary32 {
    Binary32::from_bits(v.to_bits())
}

fn settings(device: &str, mode: AudioMode) -> AudioSettings {
    AudioSettings::with_defaults(
        44100,
        None,
        None,
        None,
        None,
        Some(mode),
        Some(device.to_string()),
    )
}

fn names() -> Vec<Option<String>> {
    vec![
        Some("pipewire".into()),
        None,
        Some("Speaker.Monitor".into()),
        Some("sink.monitor".into()),
    ]
}

#[test]
fn devices_are_described_and_listed() {
    let d = list_input_devices(&names(), Some("pipewire"));
    assert_eq!(d[1].name, "<unknown>");
    assert!(d[0].is_default && !d[0].is_monitor);
    assert!(d[2].is_monitor && !d[2].is_default);
    assert_eq!(
        device_lines(&d),
        vec![
            "Input devices (mark the one you want with [audio].device):",
            "  [default]pipewire",
            "  <unknown>",
            "  [loopback]Speaker.Monitor",
            "  [loopback]sink.monitor",
        ]
    );
    let d = list_input_devices(&names(), Some("sink.monitor"));
    assert_eq!(
        device_lines(&d)[4],
        "  [default] [loopback]sink.monitor"
    );
    assert_eq!(device_lines(&vec![]), vec!["No input devices found."]);
}

#[test]
fn configured_device_must_match_exactly() {
    let s = settings("sink.monitor", AudioMode::Input);
    assert!(needs_device_names(&s));
    assert_eq!(pick_device(&s, &names(), true), Ok(DevicePick::Listed(3)));
    let s = settings("SINK.monitor", AudioMode::Loopback);
    assert_eq!(pick_device(&s, &names(), true), Err(PickError::NotFound));
    assert_eq!(
        PickError::NotFound.message("\"x\""),
        "audio device not found: \"x\". Run `rusty-tuber --list-audio-devices` to see options."
    );
}

#[test]
fn mode_picks_the_default_or_a_monitor() {
    let s = settings("", AudioMode::Input);
    assert!(!needs_device_names(&s));
    assert_eq!(
        pick_device(&s, &vec![], true),
        Ok(DevicePick::SystemDefault)
    );
    assert_eq!(pick_device(&s, &vec![], false), Err(PickError::NoDefault));
    assert_eq!(
        PickError::NoDefault.message(""),
        "no default input device available"
    );
    let s = settings("", AudioMode::Loopback);
    assert_eq!(pick_device(&s, &names(), false), Ok(DevicePick::Listed(2)));
    assert_eq!(
        pick_device(&s, &vec![None, Some("mic".into())], true),
        Err(PickError::NoMonitor)
    );
    assert!(PickError::NoMonitor
        .message("")
        .starts_with("no loopback (monitor) device found."));
}

#[test]
fn first_matching_range_is_negotiated() {
    let r = |float_samples, min, max| RateRange {
        float_samples,
        min,
        max,
    };
    let ranges = vec![
        r(false, 8000, 96000),
        r(true, 48000, 96000),
        r(true, 8000, 44100),
        r(true, 44100, 44100),
    ];
    assert_eq!(negotiate_config(&ranges, 44100), Some(2));
    assert_eq!(negotiate_config(&ranges, 48000), Some(1));
    assert_eq!(negotiate_config(&ranges, 192000), None);
}

#[test]
fn fixed_buffer_is_tried_first() {
    let mut s = settings("", AudioMode::Input);
    let (a, b) = stream_tries(&s);
    assert_eq!(a.buffer, Some(256));
    assert_eq!(b.buffer, None);
    assert_eq!((a.sample_rate, b.sample_rate), (44100, 44100));
    s.buffer_size = Some(0);
    assert_eq!(stream_tries(&s).0.buffer, Some(1));
}

#[test]
fn envelope_attacks_and_releases() {
    let mut e = EnvelopeControl::new(num(6.0), num(110.0));
    assert_eq!(e.get(), (num(6.0), num(110.0)));
    assert_eq!(e.time_constant(num(0.5), num(0.1)), num(6.0));
    assert_eq!(e.time_constant(num(0.1), num(0.5)), num(110.0));
    assert_eq!(e.time_constant(num(0.1), num(0.1)), num(110.0));
    e.set(num(0.0), num(f32::NAN));
    assert_eq!(e.get().0, num(0.0));
    assert_eq!(e.time_constant(num(0.5), num(0.1)), num(0.1));
    assert_eq!(e.time_constant(num(0.1), num(0.5)), num(0.1));
}
