use rusty_tuber::binary32::Binary32;
use rusty_tuber::config::{
    AppConfig, AudioMode, AudioSettings, BlinkSettings, ColourError, ConfigError, EngineSettings,
    LatencyMode, ThresholdError, ThresholdSettings, WebcamFormat, WebcamSettings,
};
use rusty_tuber::protocol::MouthState;
use rusty_tuber::textmap::TextMap;
use toml::{Table, Value};

fn num(v: f32) -> Binary32 {
    Binary32::from_bits(v.to_bits())
}

fn float(v: &Value) -> Binary32 {
    match v {
        Value::Float(f) => num(*f as f32),
        Value::Integer(i) => num(*i as f32),
        other => panic!("expected a number, got {other:?}"),
    }
}

fn text(t: &Table, key: &str) -> Option<String> {
    t.get(key).map(|v| v.as_str().unwrap().to_string())
}

fn number(t: &Table, key: &str) -> Option<Binary32> {
    t.get(key).map(float)
}

fn whole(t: &Table, key: &str) -> Option<u32> {
    t.get(key).map(|v| v.as_integer().unwrap() as u32)
}

fn flag(t: &Table, key: &str) -> Option<bool> {
    t.get(key).map(|v| v.as_bool().unwrap())
}

fn section(t: &Table, key: &str) -> Table {
    t.get(key)
        .map(|v| v.as_table().unwrap().clone())
        .unwrap_or_default()
}

/// Reads the settings out of a TOML document and validates them.
fn from_toml_str(raw: &str) -> Result<AppConfig, ConfigError> {
    let doc: Table = raw.parse().expect("toml");
    let a = section(&doc, "audio");
    let t = section(&doc, "thresholds");
    let e = section(&doc, "engine");
    let b = section(&doc, "blink");
    let w = section(&doc, "webcam");
    let mut timers = TextMap::new();
    for (k, v) in section(&doc, "timers") {
        timers.insert(k, float(&v));
    }
    let cfg = AppConfig {
        audio: AudioSettings::with_defaults(
            whole(&a, "sample_rate").unwrap(),
            whole(&a, "buffer_size"),
            text(&a, "latency").map(|s| LatencyMode::from_name(&s).unwrap()),
            number(&a, "attack_ms"),
            number(&a, "release_ms"),
            text(&a, "mode").map(|s| AudioMode::from_name(&s).unwrap()),
            text(&a, "device"),
        ),
        thresholds: ThresholdSettings {
            partial: number(&t, "partial").unwrap(),
            medium: number(&t, "medium").unwrap(),
            open: number(&t, "open").unwrap(),
            enabled: t
                .get("enabled")
                .map(|v| {
                    v.as_array()
                        .unwrap()
                        .iter()
                        .map(|s| s.as_str().unwrap().to_string())
                        .collect()
                })
                .unwrap_or_default(),
        },
        engine: EngineSettings::with_defaults(
            text(&e, "default_emotion"),
            text(&e, "asset_root").unwrap(),
        ),
        timers,
        blink: BlinkSettings::with_defaults(
            flag(&b, "enabled"),
            number(&b, "min_interval"),
            number(&b, "max_interval"),
            number(&b, "duration"),
            number(&b, "double_chance"),
        ),
        webcam: WebcamSettings::with_defaults(
            flag(&w, "enabled"),
            text(&w, "device"),
            whole(&w, "output_size"),
            text(&w, "background"),
            text(&w, "background_image"),
            text(&w, "format").map(|s| WebcamFormat::from_name(&s).unwrap()),
            whole(&w, "fps"),
            flag(&w, "steady"),
        ),
    };
    cfg.validate()?;
    Ok(cfg)
}

fn message(e: &ConfigError) -> String {
    let shown = e
        .numbers()
        .iter()
        .map(|n| format!("{}", f32::from_bits(n.to_bits())))
        .collect();
    e.message(&shown)
}

fn value(n: Binary32) -> f32 {
    f32::from_bits(n.to_bits())
}

const MINIMAL: &str = r#"
[audio]
sample_rate = 44100
latency = "low"

[thresholds]
partial = 0.02
medium = 0.08
open = 0.18

[engine]
default_emotion = "calm"
asset_root = "./assets"
"#;

#[test]
fn parses_minimal_config() {
    let cfg = from_toml_str(MINIMAL).expect("valid config");
    assert_eq!(cfg.engine.default_emotion, "calm");
    assert_eq!(cfg.audio.mode, AudioMode::Input);
    assert_eq!(cfg.audio.latency, LatencyMode::Low);
    assert_eq!(cfg.audio.effective_buffer_size(), 256);
    assert!((value(cfg.audio.attack_ms) - 6.0).abs() < 1e-6); // default applied
    assert!(cfg.audio.device.is_empty());
    assert!(cfg.timers.len() == 0); // default empty
}

#[test]
fn rejects_non_monotonic_thresholds() {
    let raw = MINIMAL.replacen("open = 0.18", "open = 0.05", 1);
    let err = from_toml_str(&raw).unwrap_err();
    let msg = message(&err);
    assert!(msg.contains("partial < medium < open"), "{msg}");
    assert_eq!(
        msg,
        "[thresholds] must satisfy partial < medium < open (got partial=0.02, medium=0.08, open=0.05)"
    );
}

#[test]
fn rejects_bad_envelope() {
    let raw = MINIMAL.replacen("[audio]", "[audio]\nattack_ms = 0.0", 1);
    let err = from_toml_str(&raw).unwrap_err();
    assert!(message(&err).contains("attack_ms"));
    assert_eq!(
        message(&err),
        "[audio] attack_ms/release_ms must be finite and in [0.1, 2000] ms (got 0)"
    );
    let raw = MINIMAL.replacen("[audio]", "[audio]\nrelease_ms = 2001", 1);
    assert!(message(&from_toml_str(&raw).unwrap_err()).contains("(got 2001)"));
}

#[test]
fn rejects_nonpositive_timer() {
    let raw = format!("{MINIMAL}\n[timers]\nsurprised = 0\n");
    let err = from_toml_str(&raw).unwrap_err();
    assert!(message(&err).contains("surprised"));
    assert_eq!(
        message(&err),
        "[timers].surprised must be a positive finite number (got 0)"
    );
}

#[test]
fn parses_loopback_mode_and_timers() {
    let raw = r#"
[audio]
sample_rate = 48000
latency = "stable"
attack_ms = 4.0
release_ms = 90.0
mode = "loopback"
device = "alsa_output.pci-0000_00_1b.0.analog-stereo.monitor"

[thresholds]
partial = 0.01
medium = 0.05
open = 0.12

[engine]
default_emotion = ""
asset_root = "./assets"

[timers]
surprised = 2.5
"#;
    let cfg = from_toml_str(raw).expect("valid");
    assert_eq!(cfg.audio.mode, AudioMode::Loopback);
    assert_eq!(cfg.audio.sample_rate, 48000);
    assert_eq!(cfg.audio.latency, LatencyMode::Stable);
    assert_eq!(cfg.audio.effective_buffer_size(), 1024);
    assert_eq!(cfg.timers.get("surprised"), Some(&num(2.5)));
}

#[test]
fn blink_defaults_when_section_absent() {
    let cfg = from_toml_str(MINIMAL).unwrap();
    assert!(cfg.blink.enabled);
    assert_eq!(value(cfg.blink.min_interval), 2.5);
    assert_eq!(value(cfg.blink.max_interval), 6.0);
    assert!((value(cfg.blink.duration) - 0.12).abs() < 1e-6);
    assert_eq!(cfg.blink, BlinkSettings::default());
    assert_eq!(value(cfg.blink.double_chance), 0.15);
}

#[test]
fn blink_partial_section_uses_field_defaults() {
    let raw = format!("{MINIMAL}\n[blink]\nenabled = false\nmin_interval = 3.0\n");
    let cfg = from_toml_str(&raw).unwrap();
    assert!(!cfg.blink.enabled);
    assert_eq!(value(cfg.blink.min_interval), 3.0);
    // omitted fields keep defaults
    assert_eq!(value(cfg.blink.max_interval), 6.0);
    assert!((value(cfg.blink.duration) - 0.12).abs() < 1e-6);
}

#[test]
fn blink_rejects_bad_ranges() {
    let mk = |toml: &str| from_toml_str(&format!("{MINIMAL}\n{toml}"));
    assert!(mk("[blink]\nmin_interval = 5.0\nmax_interval = 2.0\n").is_err());
    assert!(mk("[blink]\nduration = 0.0\n").is_err());
    assert!(mk("[blink]\ndouble_chance = 2.0\n").is_err());
}

#[test]
fn each_check_has_its_message() {
    let with = |from: &str, to: &str| {
        message(&from_toml_str(&MINIMAL.replacen(from, to, 1)).unwrap_err())
    };
    let also = |toml: &str| message(&from_toml_str(&format!("{MINIMAL}\n{toml}")).unwrap_err());
    assert_eq!(
        with("partial = 0.02", "partial = -0.02"),
        "[thresholds] values must be non-negative finite numbers"
    );
    assert_eq!(
        with("sample_rate = 44100", "sample_rate = 0"),
        "[audio].sample_rate must be non-zero"
    );
    assert_eq!(
        with("latency = \"low\"", "buffer_size = 0"),
        "[audio].buffer_size must be non-zero"
    );
    assert_eq!(
        also("[blink]\nmin_interval = 0.0\n"),
        "[blink].min_interval must be positive and finite"
    );
    assert_eq!(
        also("[blink]\nmin_interval = 5.0\nmax_interval = 2.5\n"),
        "[blink].max_interval (2.5) must be >= min_interval (5)"
    );
    assert_eq!(
        also("[blink]\nduration = inf\n"),
        "[blink].duration must be positive and finite"
    );
    assert_eq!(
        also("[blink]\ndouble_chance = -0.1\n"),
        "[blink].double_chance must be in [0.0, 1.0]"
    );
    assert_eq!(
        also("[webcam]\noutput_size = 511\n"),
        "[webcam].output_size must be even for yuyv"
    );
    // What is not a number is not below the least interval.
    assert!(from_toml_str(&format!("{MINIMAL}\n[blink]\nmax_interval = nan\n")).is_ok());
    assert!(from_toml_str(&format!(
        "{MINIMAL}\n[webcam]\noutput_size = 511\nformat = \"bgr4\"\n"
    ))
    .is_ok());
}

#[test]
fn webcam_defaults() {
    let w = from_toml_str(MINIMAL).unwrap().webcam;
    assert!(!w.enabled);
    assert_eq!(w.device, "");
    assert_eq!(w.output_size, 512);
    assert_eq!(w.background, "#00ff00");
    assert_eq!(w.background_image, "");
    assert_eq!(w.format, WebcamFormat::Yuyv);
    assert_eq!(w.fps, 30);
    assert!(w.steady);
    let d = WebcamSettings::default();
    assert_eq!((d.output_size, d.background.as_str()), (512, "#00ff00"));
}

fn colour(s: &str) -> Result<[u8; 3], ColourError> {
    let w = WebcamSettings {
        background: s.into(),
        ..WebcamSettings::default()
    };
    w.background_rgb()
}

#[test]
fn background_colours_parse() {
    assert_eq!(colour("#00ff00").unwrap(), [0, 255, 0]);
    assert_eq!(colour("1a2B3c").unwrap(), [0x1a, 0x2b, 0x3c]);
    assert_eq!(colour("###ffffff").unwrap(), [255, 255, 255]);
    assert!(matches!(colour("+f+0+a"), Err(ColourError::Digits)));
    assert!(matches!(colour("#fff"), Err(ColourError::Shape)));
    assert!(matches!(colour(""), Err(ColourError::Shape)));
    assert!(matches!(colour("#00ff000"), Err(ColourError::Shape)));
    assert!(matches!(colour("#00gg00"), Err(ColourError::Digits)));
    assert!(matches!(colour("\u{e9}0000"), Err(ColourError::Digits)));
    assert!(matches!(colour("\u{20ac}\u{20ac}\u{20ac}"), Err(ColourError::Shape)));
    assert_eq!(
        ColourError::Shape.message("\"#fff\""),
        "[webcam].background must be #rrggbb (got \"#fff\")"
    );
    assert_eq!(
        ColourError::Digits.message("\"x\""),
        "invalid digit found in string"
    );
    // Six bytes whose second pair begins inside a character.
    assert!(matches!(colour("#a\u{e9}aaa"), Err(ColourError::Digits)));
}

#[test]
fn thresholds_give_a_mouth_config() {
    let t = |names: &[&str], open: f32| ThresholdSettings {
        partial: num(0.02),
        medium: num(0.08),
        open: num(open),
        enabled: names.iter().map(|s| s.to_string()).collect(),
    };
    let c = t(&[], 0.18).to_mouth_config().unwrap();
    assert_eq!(c.enabled, [true; 4]);
    assert_eq!(c.open, num(0.18));
    let c = t(&["Partial", "OPEN", "partial"], 0.18)
        .to_mouth_config()
        .unwrap();
    assert_eq!(c.enabled, [false, true, false, true]);
    assert!(c.is_enabled(MouthState::Open));
    match t(&["open", "grin", "frown"], 0.18).to_mouth_config() {
        Err(ThresholdError::UnknownLevel(s)) => {
            assert_eq!(s, "grin");
            assert_eq!(
                ThresholdError::UnknownLevel(s).message(&vec![], "\"grin\""),
                "unknown mouth level in [thresholds].enabled: \"grin\" (expected closed|partial|medium|open)"
            );
        }
        other => panic!("expected an unknown level, got {other:?}"),
    }
    // Validation of the file lets a threshold over one pass; the mouth does not.
    match t(&[], 1.5).to_mouth_config() {
        Err(ThresholdError::Refused(e)) => assert_eq!(
            ThresholdError::Refused(e).message(&vec!["1.5".into()], ""),
            "[thresholds] thresholds must be finite and in [0.0, 1.0] (got 1.5)"
        ),
        other => panic!("expected a refusal, got {other:?}"),
    }
}

#[test]
fn names_of_presets() {
    assert_eq!(LatencyMode::Low.name(), "low");
    assert_eq!(LatencyMode::Stable.name(), "stable");
    assert_eq!(LatencyMode::from_name("Low"), None);
    assert_eq!(AudioMode::from_name("loopback"), Some(AudioMode::Loopback));
    assert_eq!(AudioMode::from_name(""), None);
    assert_eq!(WebcamFormat::from_name("bgr4"), Some(WebcamFormat::Bgr4));
    assert_eq!(WebcamFormat::from_name("rgb"), None);
    assert_eq!(LatencyMode::default(), LatencyMode::Low);
    assert_eq!(AudioMode::default(), AudioMode::Input);
    assert_eq!(WebcamFormat::default(), WebcamFormat::Yuyv);
}
