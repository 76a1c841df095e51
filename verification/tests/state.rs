use rusty_tuber::assets::AssetCatalog;
use rusty_tuber::binary32::Binary32;
use rusty_tuber::protocol::{
    EnvelopeConfig, EyeLayers, EyeState, LayerCatalog, MouthConfig, MouthLayers, MouthState,
    ServerMessage,
};
use rusty_tuber::state::{
    volume_to_mouth, Effect, RenderRequest, StateCommand, StateMachine, VOLUME_BROADCAST_INTERVAL,
};
use rusty_tuber::textmap::TextMap;
use std::sync::Arc;

const MS: u64 = 1_000_000;

fn num(v: f32) -> Binary32 {
    Binary32::from_bits(v.to_bits())
}

fn setup() -> AssetCatalog {
    let mut emotions = TextMap::new();
    emotions.insert(
        "surprised".into(),
        EyeLayers {
            open: Some("eyes/surprised/open.png".into()),
            closed: Some("eyes/surprised/closed.png".into()),
        },
    );
    emotions.insert(
        "flat".into(),
        EyeLayers {
            open: Some("eyes/flat/open.png".into()),
            closed: None,
        },
    );
    AssetCatalog(LayerCatalog {
        base: vec!["base/body.png".into()],
        mouths: MouthLayers {
            closed: Some("mouths/closed.png".into()),
            partial: Some("mouths/partial.png".into()),
            medium: Some("mouths/medium.png".into()),
            open: Some("mouths/open.png".into()),
        },
        default_eyes: EyeLayers {
            open: Some("eyes/open.png".into()),
            closed: Some("eyes/closed.png".into()),
        },
        emotions,
    })
}

fn mouth_config() -> MouthConfig {
    MouthConfig::all_enabled(num(0.02), num(0.08), num(0.18))
}

fn harness_with(anim_count: usize) -> StateMachine {
    let mut timers = TextMap::new();
    timers.insert("surprised".into(), num(0.1));
    StateMachine::new(
        Arc::new(setup()),
        mouth_config(),
        timers,
        String::new(),
        anim_count,
        0,
    )
}

fn harness() -> StateMachine {
    harness_with(0)
}

#[derive(Debug)]
struct S {
    emotion: String,
    mouth: MouthState,
    eyes: EyeState,
    volume: f32,
    eyes_frame: String,
    mouth_frame: String,
}

fn unwrap_state(msg: &ServerMessage) -> S {
    match msg {
        ServerMessage::StateUpdate {
            emotion,
            mouth,
            eyes,
            volume,
            eyes_frame,
            mouth_frame,
            ..
        } => S {
            emotion: emotion.clone(),
            mouth: *mouth,
            eyes: *eyes,
            volume: f32::from_bits(volume.to_bits()),
            eyes_frame: eyes_frame.clone(),
            mouth_frame: mouth_frame.clone(),
        },
        other => panic!("expected StateUpdate, got {other:?}"),
    }
}

fn broadcasts(effects: &[Effect]) -> Vec<&ServerMessage> {
    effects
        .iter()
        .filter_map(|e| match e {
            Effect::Broadcast(m) => Some(m),
            _ => None,
        })
        .collect()
}

fn state_of(effects: &[Effect]) -> S {
    unwrap_state(broadcasts(effects).last().expect("a broadcast"))
}

fn render_of(effects: &[Effect]) -> Option<&RenderRequest> {
    effects.iter().find_map(|e| match e {
        Effect::Render(r) => Some(r),
        _ => None,
    })
}

#[test]
fn volume_maps_to_mouth_and_broadcasts_layers() {
    let mut m = harness();
    let e = m.handle(StateCommand::SetVolume(num(0.5)), MS); // above open(0.18) -> Open
    let s = state_of(&e);
    assert_eq!(s.mouth, MouthState::Open);
    assert_eq!(s.eyes, EyeState::Open);
    // Resting state uses default eyes + the resolved mouth layer.
    assert_eq!(s.eyes_frame, "/frames/eyes/open.png");
    assert_eq!(s.mouth_frame, "/frames/mouths/open.png");
}

#[test]
fn disabling_closed_makes_partial_the_resting_mouth() {
    let cfg = MouthConfig {
        enabled: [false, true, true, true],
        partial: num(0.02),
        medium: num(0.08),
        open: num(0.18),
    };
    // silence -> partial (resting), never closed
    assert_eq!(volume_to_mouth(num(0.0), &cfg), MouthState::Partial);
    assert_eq!(volume_to_mouth(num(0.01), &cfg), MouthState::Partial);
    // crosses medium
    assert_eq!(volume_to_mouth(num(0.09), &cfg), MouthState::Medium);
    // crosses open
    assert_eq!(volume_to_mouth(num(0.5), &cfg), MouthState::Open);
}

#[test]
fn volume_thresholds_engage_exactly() {
    let cfg = mouth_config();
    assert_eq!(volume_to_mouth(num(0.0199), &cfg), MouthState::Closed);
    assert_eq!(volume_to_mouth(num(0.02), &cfg), MouthState::Partial);
    assert_eq!(volume_to_mouth(num(0.08), &cfg), MouthState::Medium);
    assert_eq!(volume_to_mouth(num(0.18), &cfg), MouthState::Open);
    assert_eq!(volume_to_mouth(num(f32::NAN), &cfg), MouthState::Closed);
    let skip = MouthConfig {
        enabled: [true, false, true, false],
        ..cfg
    };
    assert_eq!(volume_to_mouth(num(0.05), &skip), MouthState::Closed);
    assert_eq!(volume_to_mouth(num(1.0), &skip), MouthState::Medium);
    let none = MouthConfig {
        enabled: [false; 4],
        ..cfg
    };
    assert_eq!(volume_to_mouth(num(1.0), &none), MouthState::Closed);
    let only_open = MouthConfig {
        enabled: [false, false, false, true],
        ..cfg
    };
    assert_eq!(volume_to_mouth(num(0.0), &only_open), MouthState::Open);
}

#[test]
fn emotion_swaps_eye_layer_and_timer_reverts() {
    let mut m = harness();
    let e = m.handle(StateCommand::TriggerEmotion("surprised".into()), MS);
    let s = state_of(&e);
    assert_eq!(s.emotion, "surprised");
    assert_eq!(s.eyes_frame, "/frames/eyes/surprised/open.png");
    // Mouth layer is shared across emotions.
    assert_eq!(s.mouth_frame, "/frames/mouths/closed.png");

    // The timer is 0.1 s; when it fires the default eyes are back.
    let token = match &e[0] {
        Effect::ArmTimer { secs, token } => {
            assert_eq!(*secs, num(0.1));
            *token
        }
        other => panic!("expected a timer, got {other:?}"),
    };
    let e = m.handle(StateCommand::TimerClear(token), 250 * MS);
    assert_eq!(state_of(&e).eyes_frame, "/frames/eyes/open.png");
}

#[test]
fn stale_timer_does_not_clobber_newer_emotion() {
    let mut m = harness();
    let e = m.handle(StateCommand::TriggerEmotion("surprised".into()), MS);
    let token = match &e[0] {
        Effect::ArmTimer { token, .. } => *token,
        other => panic!("expected a timer, got {other:?}"),
    };
    let e = m.handle(StateCommand::TriggerEmotion("flat".into()), 2 * MS);
    assert_eq!(state_of(&e).emotion, "flat");
    // "flat" has no timer.
    assert!(!e.iter().any(|x| matches!(x, Effect::ArmTimer { .. })));

    assert!(m
        .handle(StateCommand::TimerClear(token), 250 * MS)
        .is_empty());
    let e = m.handle(StateCommand::ClearMouthOverride, 251 * MS);
    assert_eq!(
        state_of(&e).emotion,
        "flat",
        "newer emotion must remain in effect"
    );
}

#[test]
fn manual_clear_override_returns_to_default() {
    let mut m = harness();
    m.handle(StateCommand::TriggerEmotion("surprised".into()), MS);
    m.handle(StateCommand::SetDefault("flat".into()), 2 * MS);
    let e = m.handle(StateCommand::ClearOverride, 3 * MS);
    let s = state_of(&e);
    assert_eq!(s.emotion, "flat");
    assert_eq!(s.eyes_frame, "/frames/eyes/flat/open.png");
}

#[test]
fn mouth_override_ignores_mic() {
    let mut m = harness();
    let e = m.handle(StateCommand::SetVolume(num(0.5)), MS);
    assert_eq!(state_of(&e).mouth, MouthState::Open);

    let e = m.handle(StateCommand::SetMouthOverride(MouthState::Closed), 2 * MS);
    let s = state_of(&e);
    assert_eq!(s.mouth, MouthState::Closed);
    assert_eq!(s.mouth_frame, "/frames/mouths/closed.png");

    let later = 2 * MS + VOLUME_BROADCAST_INTERVAL + 20 * MS;
    let e = m.handle(StateCommand::SetVolume(num(0.5)), later);
    let s = state_of(&e);
    assert_eq!(s.mouth, MouthState::Closed, "override must win over mic");
    assert!((s.volume - 0.5).abs() < 1e-9);
}

#[test]
fn blink_swaps_eye_layer_to_closed() {
    let mut m = harness();
    m.handle(StateCommand::SetVolume(num(0.5)), MS); // mouth Open

    let s = state_of(&m.handle(StateCommand::BlinkClose, 2 * MS));
    assert_eq!(s.eyes, EyeState::Closed);
    assert_eq!(s.eyes_frame, "/frames/eyes/closed.png");

    let s = state_of(&m.handle(StateCommand::BlinkOpen, 3 * MS));
    assert_eq!(s.eyes, EyeState::Open);
    assert_eq!(s.eyes_frame, "/frames/eyes/open.png");
}

#[test]
fn emotion_without_blink_art_does_not_change_frame() {
    let mut m = harness();
    // "flat" has only open.png; a blink must not change the visible frame.
    m.handle(StateCommand::TriggerEmotion("flat".into()), MS);
    assert!(
        m.handle(StateCommand::BlinkClose, 2 * MS).is_empty(),
        "no broadcast when blink has no effect"
    );
}

#[test]
fn eyes_override_masks_blink() {
    let mut m = harness();
    m.handle(StateCommand::SetVolume(num(0.5)), MS);

    m.handle(StateCommand::SetEyesOverride(EyeState::Open), 2 * MS);
    assert!(
        m.handle(StateCommand::BlinkClose, 3 * MS).is_empty(),
        "override must mask the blink"
    );

    let s = state_of(&m.handle(StateCommand::SetEyesOverride(EyeState::Closed), 4 * MS));
    assert_eq!(s.eyes, EyeState::Closed);
    let s = state_of(&m.handle(StateCommand::ClearEyesOverride, 5 * MS));
    assert_eq!(s.eyes, EyeState::Open);
}

fn unwrap_override_flags(msg: &ServerMessage) -> (bool, bool, bool) {
    match msg {
        ServerMessage::StateUpdate {
            overridden,
            mouth_overridden,
            eyes_overridden,
            ..
        } => (*overridden, *mouth_overridden, *eyes_overridden),
        other => panic!("expected StateUpdate, got {other:?}"),
    }
}

#[test]
fn override_flags_are_broadcast_per_channel() {
    let mut m = harness();
    let mut flags = |cmd: StateCommand, now: u64| {
        let e = m.handle(cmd, now * MS);
        let b = broadcasts(&e);
        unwrap_override_flags(b.last().unwrap())
    };

    let (emotion_ovr, mouth_ovr, eyes_ovr) = flags(StateCommand::SetVolume(num(0.5)), 1);
    assert!(!emotion_ovr && !mouth_ovr && !eyes_ovr);

    let (_, mouth_ovr, eyes_ovr) = flags(StateCommand::SetMouthOverride(MouthState::Open), 2);
    assert!(mouth_ovr);
    assert!(!eyes_ovr);

    let (emotion_ovr, mouth_ovr, _) = flags(StateCommand::TriggerEmotion("surprised".into()), 3);
    assert!(emotion_ovr);
    assert!(mouth_ovr);

    let (_, _, eyes_ovr) = flags(StateCommand::SetEyesOverride(EyeState::Closed), 4);
    assert!(eyes_ovr);

    let (_, mouth_ovr, eyes_ovr) = flags(StateCommand::ClearMouthOverride, 5);
    assert!(!mouth_ovr);
    assert!(eyes_ovr);
}

#[test]
fn volume_drift_is_throttled_to_the_interval() {
    let mut m = harness();
    let sent = 10 * MS;
    assert_eq!(m.handle(StateCommand::SetVolume(num(0.5)), sent).len(), 2);
    // Nothing visible changes: silent until the interval has passed.
    assert!(m.handle(StateCommand::SetVolume(num(0.6)), sent).is_empty());
    assert!(m
        .handle(
            StateCommand::SetVolume(num(0.7)),
            sent + VOLUME_BROADCAST_INTERVAL - 1
        )
        .is_empty());
    let e = m.handle(
        StateCommand::SetVolume(num(0.8)),
        sent + VOLUME_BROADCAST_INTERVAL,
    );
    // A meter refresh, but no render.
    assert_eq!(e.len(), 1);
    assert!((state_of(&e).volume - 0.8).abs() < 1e-9);
    // A visible change goes out at once.
    let e = m.handle(
        StateCommand::SetVolume(num(0.0)),
        sent + VOLUME_BROADCAST_INTERVAL + 1,
    );
    assert_eq!(state_of(&e).mouth, MouthState::Closed);
    assert!(render_of(&e).is_some());
    // A clock that stands still or runs back is no refresh.
    assert!(m.handle(StateCommand::SetVolume(num(0.01)), 0).is_empty());
}

#[test]
fn volume_is_clamped() {
    let mut m = harness();
    let s = state_of(&m.handle(StateCommand::SetVolume(num(7.0)), MS));
    assert_eq!(s.volume, 1.0);
    let s = state_of(&m.handle(StateCommand::SetVolume(num(-3.0)), 2 * MS));
    assert_eq!(s.volume, 0.0);
}

#[test]
fn renders_are_numbered_and_skip_repeats() {
    let mut m = harness();
    let e = m.handle(StateCommand::ClearOverride, MS);
    let r = render_of(&e).unwrap();
    assert_eq!(r.version, 1);
    assert_eq!(r.emotion, None);
    assert_eq!(r.mouth, MouthState::Closed);
    // The same picture is announced, not rendered.
    let e = m.handle(StateCommand::ClearOverride, 2 * MS);
    assert_eq!(e.len(), 1);
    assert!(render_of(&e).is_none());
    let e = m.handle(StateCommand::TriggerEmotion("surprised".into()), 3 * MS);
    let r = render_of(&e).unwrap();
    assert_eq!(r.version, 2);
    assert_eq!(r.emotion.as_deref(), Some("surprised"));
}

#[test]
fn animation_renders_only_at_rest() {
    let mut m = harness_with(2);
    let e = m.handle(StateCommand::AnimFrame { instance: 1, frame: 3 }, MS);
    assert_eq!(render_of(&e).unwrap().anim_frames, vec![0, 3]);
    // Out of range: ignored.
    assert!(m
        .handle(StateCommand::AnimFrame { instance: 2, frame: 1 }, MS)
        .is_empty());
    // Talking: frames advance unseen, and renders carry none.
    let e = m.handle(StateCommand::SetMouthOverride(MouthState::Open), 2 * MS);
    assert!(render_of(&e).unwrap().anim_frames.is_empty());
    assert!(m
        .handle(StateCommand::AnimFrame { instance: 0, frame: 1 }, 3 * MS)
        .is_empty());
    // A broadcast while talking does not render because of them.
    let e = m.handle(StateCommand::ClearOverride, 4 * MS);
    assert!(render_of(&e).is_none());
    // Back at rest they show.
    let e = m.handle(StateCommand::ClearMouthOverride, 5 * MS);
    assert_eq!(render_of(&e).unwrap().anim_frames, vec![1, 3]);
}

#[test]
fn mouth_config_change_moves_the_resting_mouth() {
    let mut m = harness();
    let cfg = MouthConfig {
        enabled: [false, true, true, true],
        ..mouth_config()
    };
    let e = m.handle(StateCommand::SetMouthConfig(cfg), MS);
    let b = broadcasts(&e);
    assert!(matches!(
        b[0],
        ServerMessage::MouthConfigUpdate { config } if config.enabled == [false, true, true, true]
    ));
    assert_eq!(unwrap_state(b[1]).mouth, MouthState::Partial);
}

#[test]
fn envelope_change_is_applied_and_told() {
    let mut m = harness();
    let cfg = EnvelopeConfig {
        attack_ms: num(3.0),
        release_ms: num(50.0),
    };
    let e = m.handle(StateCommand::SetEnvelope(cfg), MS);
    assert_eq!(e.len(), 2);
    assert!(matches!(&e[0], Effect::ApplyEnvelope(c) if *c == cfg));
    assert!(
        matches!(&e[1], Effect::Broadcast(ServerMessage::EnvelopeUpdate { config }) if *config == cfg)
    );
    assert!(m.handle(StateCommand::Shutdown, 2 * MS).is_empty());
}

#[test]
fn empty_catalog_shows_empty_frames() {
    let mut m = StateMachine::new(
        Arc::new(AssetCatalog(LayerCatalog::default())),
        mouth_config(),
        TextMap::new(),
        String::new(),
        0,
        0,
    );
    let e = m.handle(StateCommand::ClearOverride, MS);
    let s = state_of(&e);
    assert_eq!((s.eyes_frame.as_str(), s.mouth_frame.as_str()), ("", ""));
    // Nothing to draw: the picture is the one that was there from the start.
    assert!(render_of(&e).is_none());
}

#[test]
fn timers_of_older_emotions_are_void_for_good() {
    let mut m = harness();
    m.handle(StateCommand::TriggerEmotion("surprised".into()), 0);
    m.handle(StateCommand::ClearOverride, MS);
    m.handle(StateCommand::SetVolume(num(0.5)), 2 * MS);
    m.handle(StateCommand::TriggerEmotion("flat".into()), 3 * MS);
    m.handle(StateCommand::BlinkClose, 4 * MS);
    assert!(m.handle(StateCommand::TimerClear(1), 5 * MS).is_empty());
    let s = state_of(&m.handle(StateCommand::ClearMouthOverride, 6 * MS));
    assert_eq!(s.emotion, "flat");
    let s = state_of(&m.handle(StateCommand::TimerClear(2), 7 * MS));
    assert_eq!(s.emotion, "");
    // The mouth still follows the volume that came in first.
    assert_eq!(s.mouth, MouthState::Open);
}

#[test]
fn timers_count_in_any_case() {
    let mut timers = TextMap::new();
    timers.insert("FLAT".into(), num(0.2));
    timers.insert("surprised".into(), num(0.1));
    let mut m = StateMachine::new(
        Arc::new(setup()),
        mouth_config(),
        timers,
        String::new(),
        0,
        0,
    );
    let armed = |effects: &[Effect]| {
        effects.iter().find_map(|e| match e {
            Effect::ArmTimer { secs, token } => Some((*secs, *token)),
            _ => None,
        })
    };
    let e = m.handle(StateCommand::TriggerEmotion("Surprised".into()), 0);
    assert_eq!(armed(&e), Some((num(0.1), 1)));
    assert_eq!(state_of(&e).eyes_frame, "/frames/eyes/surprised/open.png");
    let e = m.handle(StateCommand::TriggerEmotion("flat".into()), MS);
    assert_eq!(armed(&e), Some((num(0.2), 2)));
    let e = m.handle(StateCommand::TriggerEmotion("calm".into()), 2 * MS);
    assert_eq!(armed(&e), None);
    assert_eq!(
        state_of(&m.handle(StateCommand::TimerClear(3), 3 * MS)).emotion,
        ""
    );
}

#[test]
fn commands_can_be_cloned_and_compared() {
    let c = StateCommand::TriggerEmotion("flat".into());
    assert_eq!(c.clone(), c);
    assert_eq!(
        StateCommand::SetVolume(num(0.0)),
        StateCommand::SetVolume(num(-0.0))
    );
    let nan = StateCommand::SetVolume(num(f32::NAN));
    assert_ne!(nan.clone(), nan);
    let mut m = harness();
    let effects = m.handle(StateCommand::SetMouthOverride(MouthState::Open), 0);
    let r = render_of(&effects).unwrap().clone();
    assert_eq!((r.mouth, r.version), (MouthState::Open, 1));
    let told = broadcasts(&effects)[0].clone();
    assert_eq!(unwrap_state(&told).mouth, MouthState::Open);
}
