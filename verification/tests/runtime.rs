use rusty_tuber::assets::AssetCatalog;
use rusty_tuber::config::ColourError;
use rusty_tuber::protocol::{EyeLayers, EyeState, LayerCatalog, MouthState};
use rusty_tuber::runtime::{initial_request, resting_emotion, webcam_start, WebcamStart};
use rusty_tuber::textmap::TextMap;

#[test]
fn unknown_resting_emotion_falls_back() {
    let mut c = LayerCatalog::default();
    c.emotions.insert("calm".into(), EyeLayers::default());
    let c = AssetCatalog(c);
    assert_eq!(resting_emotion("", &c), (String::new(), false));
    assert_eq!(resting_emotion("Calm", &c), ("Calm".into(), false));
    assert_eq!(resting_emotion("wild", &c), (String::new(), true));
}

#[test]
fn renderer_starts_at_rest() {
    let r = initial_request(3);
    assert_eq!(r.emotion, None);
    assert_eq!(r.mouth, MouthState::Closed);
    assert_eq!(r.eyes, EyeState::Open);
    assert_eq!(r.anim_frames, vec![0, 0, 0]);
    assert_eq!(r.version, 0);
}

#[test]
fn webcam_starts_with_device_and_colour() {
    let dev = || Some("/dev/video2".to_string());
    assert!(matches!(
        webcam_start(false, dev(), Ok([1, 2, 3])),
        WebcamStart::Off
    ));
    assert!(matches!(
        webcam_start(true, None, Err(ColourError::Shape)),
        WebcamStart::NoDevice
    ));
    assert!(matches!(
        webcam_start(true, dev(), Err(ColourError::Digits)),
        WebcamStart::BadColour(ColourError::Digits)
    ));
    match webcam_start(true, dev(), Ok([1, 2, 3])) {
        WebcamStart::On { device, colour } => {
            assert_eq!(device, "/dev/video2");
            assert_eq!(colour, [1, 2, 3]);
        }
        other => panic!("unexpected {other:?}"),
    }
}

#[test]
fn map_keeps_key_order() {
    let mut m: TextMap<u32> = TextMap::new();
    for (k, v) in [("b", 1), ("a", 2), ("c", 3), ("b", 4), ("", 5)] {
        m.insert(k.into(), v);
    }
    let keys: Vec<&String> = (0..m.len()).map(|i| m.key_at(i)).collect();
    assert_eq!(keys, ["", "a", "b", "c"]);
    assert_eq!(m.get("b"), Some(&4));
    assert_eq!(*m.value_at(0), 5);
    assert!(m.contains_key("c") && !m.contains_key("d"));
    assert_eq!(m.clone().get("a"), Some(&2));
}
