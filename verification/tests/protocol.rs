use rusty_tuber::binary32::{Binary32, INFINITY, ONE, SIGN};
use rusty_tuber::protocol::{
    EnvelopeConfig, EyeLayers, EyeState, LayerCatalog, MouthConfig, MouthConfigError, MouthLayers,
    MouthState,
};

fn num(v: f32) -> Binary32 {
    Binary32::from_bits(v.to_bits())
}

fn shown(v: &Vec<Binary32>) -> Vec<String> {
    v.iter()
        .map(|n| format!("{}", f32::from_bits(n.to_bits())))
        .collect()
}

#[test]
fn mouth_state_serializes_lowercase() {
    assert_eq!(MouthState::Medium.name(), "medium");
    assert_eq!(
        MouthState::from_str_ci("PARTIAL"),
        Some(MouthState::Partial)
    );
}

#[test]
fn mouth_config_validates_order_and_enablement() {
    assert!(MouthConfig::all_enabled(num(0.02), num(0.08), num(0.18))
        .validate()
        .is_ok());
    // equal thresholds rejected
    assert!(MouthConfig::all_enabled(num(0.05), num(0.05), num(0.1))
        .validate()
        .is_err());
    // nothing enabled rejected
    assert!(MouthConfig {
        enabled: [false; 4],
        partial: num(0.02),
        medium: num(0.08),
        open: num(0.18),
    }
    .validate()
    .is_err());
}

#[test]
fn mouth_config_errors_and_texts() {
    let none = MouthConfig {
        enabled: [false; 4],
        partial: num(0.02),
        medium: num(0.08),
        open: num(0.18),
    }
    .validate()
    .unwrap_err();
    assert_eq!(none, MouthConfigError::NothingEnabled);
    assert_eq!(
        none.message(&shown(&none.numbers())),
        "at least one mouth level must be enabled"
    );
    let high = MouthConfig::all_enabled(num(0.1), num(0.5), num(1.5))
        .validate()
        .unwrap_err();
    assert_eq!(high, MouthConfigError::OutOfRange { value: num(1.5) });
    assert_eq!(
        high.message(&shown(&high.numbers())),
        "thresholds must be finite and in [0.0, 1.0] (got 1.5)"
    );
    let order = MouthConfig::all_enabled(num(0.5), num(0.25), num(0.75))
        .validate()
        .unwrap_err();
    assert_eq!(
        order.message(&shown(&order.numbers())),
        "thresholds must satisfy partial < medium < open (got partial=0.5, medium=0.25, open=0.75)"
    );
    for bad in [f32::NAN, f32::INFINITY, -0.001] {
        assert!(MouthConfig::all_enabled(num(bad), num(0.5), num(0.6))
            .validate()
            .is_err());
    }
    // The ends of the range are fine, and a negative zero is zero.
    assert!(MouthConfig::all_enabled(num(-0.0), num(0.5), num(1.0))
        .validate()
        .is_ok());
}

#[test]
fn envelope_bounds_are_inclusive() {
    let ok = |a: f32, r: f32| {
        EnvelopeConfig {
            attack_ms: num(a),
            release_ms: num(r),
        }
        .validate()
        .is_ok()
    };
    assert!(ok(0.1, 2000.0));
    assert!(ok(6.0, 110.0));
    assert!(!ok(0.099, 110.0));
    assert!(!ok(6.0, 2000.1));
    assert!(!ok(f32::NAN, 110.0));
    let e = EnvelopeConfig {
        attack_ms: num(6.0),
        release_ms: num(2500.0),
    }
    .validate()
    .unwrap_err();
    assert_eq!(e.value, num(2500.0));
    assert_eq!(
        e.message("2500"),
        "attack_ms/release_ms must be in [0.1, 2000] ms (got 2500)"
    );
}

#[test]
fn names_and_levels_agree() {
    let all = [
        (MouthState::Closed, "closed"),
        (MouthState::Partial, "partial"),
        (MouthState::Medium, "medium"),
        (MouthState::Open, "open"),
    ];
    for (i, (m, name)) in all.iter().enumerate() {
        assert_eq!(m.level() as usize, i);
        assert_eq!(m.name(), *name);
        assert_eq!(MouthState::from_str_ci(&name.to_uppercase()), Some(*m));
    }
    assert_eq!(MouthState::from_str_ci("grin"), None);
    assert_eq!(EyeState::from_str_ci("Closed"), Some(EyeState::Closed));
    assert_eq!(EyeState::from_str_ci("OPEN"), Some(EyeState::Open));
    assert_eq!(EyeState::from_str_ci("half"), None);
    assert_eq!(EyeState::default(), EyeState::Open);
}

#[test]
fn thresholds_by_level() {
    let c = MouthConfig::all_enabled(num(0.1), num(0.2), num(0.3));
    assert_eq!(c.threshold(MouthState::Closed), None);
    assert_eq!(c.threshold(MouthState::Partial), Some(num(0.1)));
    assert_eq!(c.threshold(MouthState::Medium), Some(num(0.2)));
    assert_eq!(c.threshold(MouthState::Open), Some(num(0.3)));
    let c = MouthConfig {
        enabled: [false, true, false, true],
        ..c
    };
    assert!(!c.is_enabled(MouthState::Closed));
    assert!(c.is_enabled(MouthState::Partial));
    assert!(!c.is_enabled(MouthState::Medium));
    assert!(c.is_enabled(MouthState::Open));
}

#[test]
fn empty_layers_by_default() {
    let m = MouthLayers::default();
    assert!(m.closed.is_none() && m.partial.is_none() && m.medium.is_none() && m.open.is_none());
    let e = EyeLayers::default();
    assert!(e.open.is_none() && e.closed.is_none());
    let c = LayerCatalog::default();
    assert!(c.base.is_empty() && c.emotions.len() == 0);
}

#[test]
fn cloned_catalog_holds_the_same() {
    let mut c = LayerCatalog::default();
    c.base.push("base/a.png".into());
    c.mouths.closed = Some("mouths/closed.png".into());
    c.emotions.insert(
        "happy".into(),
        EyeLayers {
            open: Some("eyes/happy/open.png".into()),
            closed: None,
        },
    );
    let d = c.clone();
    assert_eq!(d.base, c.base);
    assert_eq!(d.mouths.closed, c.mouths.closed);
    assert_eq!(
        d.emotions.get("happy").unwrap().open.as_deref(),
        Some("eyes/happy/open.png")
    );
}

#[test]
fn numbers_compare_as_single_precision_does() {
    let values = [
        0.0f32,
        -0.0,
        1.0,
        -1.0,
        0.1,
        1e-45,
        -1e-45,
        3.4e38,
        f32::MAX,
        f32::MIN,
        f32::MIN_POSITIVE,
        f32::INFINITY,
        f32::NEG_INFINITY,
        f32::NAN,
        2000.0,
    ];
    for &a in &values {
        assert_eq!(num(a).is_finite(), a.is_finite());
        let clamped = f32::from_bits(num(a).clamp_unit().to_bits());
        let expected = a.clamp(0.0, 1.0);
        assert!(clamped.to_bits() == expected.to_bits() || (a.is_nan() && clamped.is_nan()));
        for &b in &values {
            assert_eq!(num(a).less(num(b)), a < b, "{a} < {b}");
            assert_eq!(num(a).at_most(num(b)), a <= b, "{a} <= {b}");
            assert_eq!(
                num(a).within(0, b.to_bits()),
                (0.0..=b).contains(&a),
                "{a} in 0..={b}"
            );
        }
    }
    assert_eq!(f32::from_bits(ONE), 1.0);
    assert_eq!(f32::from_bits(INFINITY), f32::INFINITY);
    assert_eq!(f32::from_bits(SIGN).to_bits(), (-0.0f32).to_bits());
}

#[test]
fn numbers_compare_as_numbers() {
    let n = |v: f32| Binary32::from_bits(v.to_bits());
    assert_eq!(n(0.0), n(-0.0));
    assert_ne!(n(f32::NAN), n(f32::NAN));
    assert_ne!(n(0.5), n(-0.5));
    let zero = MouthConfig::all_enabled(n(0.0), n(0.1), n(0.2));
    let minus = MouthConfig::all_enabled(n(-0.0), n(0.1), n(0.2));
    assert_eq!(zero, minus);
    let e = EnvelopeConfig {
        attack_ms: n(f32::NAN),
        release_ms: n(1.0),
    };
    assert_ne!(e, e);
}
