use rusty_tuber::binary32::Binary32;
use rusty_tuber::compositor::AnimSchedulerConfig;
use rusty_tuber::config::BlinkSettings;
use rusty_tuber::schedule::{
    anim_count, anim_timers, next_frame, BlinkCycle, Nap, RenderLimiter, RenderStats,
};
use rusty_tuber::state::StateCommand;

#[test]
fn renders_are_coalesced() {
    let mut g = RenderLimiter::new(30);
    assert_eq!(g.wait(0), None);
    assert!(g.pass(0));
    assert!(!g.pass(0));
    g.rendered(100);
    assert_eq!(g.wait(129), Some(130));
    assert_eq!(g.wait(130), None);
    assert!(g.pass(1));
    assert!(g.pass(0));
}

#[test]
fn single_blink_closes_then_opens() {
    let (mut c, nap) = BlinkCycle::start(&BlinkSettings::default()).unwrap();
    assert_eq!(nap, Nap::Interval);
    assert!(!c.wants_draw());
    assert_eq!(c.step(false), (StateCommand::BlinkClose, Nap::Blink));
    assert!(c.wants_draw());
    assert_eq!(c.step(false), (StateCommand::BlinkOpen, Nap::Interval));
    assert_eq!(c.step(true), (StateCommand::BlinkClose, Nap::Blink));
}

#[test]
fn double_blink_has_a_short_pause() {
    let (mut c, _) = BlinkCycle::start(&BlinkSettings::default()).unwrap();
    c.step(false);
    assert_eq!(c.step(true), (StateCommand::BlinkOpen, Nap::TwoBlinks));
    assert_eq!(c.step(true), (StateCommand::BlinkClose, Nap::Blink));
    assert!(!c.wants_draw());
    // The second half never doubles again.
    assert_eq!(c.step(true), (StateCommand::BlinkOpen, Nap::Interval));
}

#[test]
fn disabled_blinks_never_start() {
    let cfg = BlinkSettings {
        enabled: false,
        ..BlinkSettings::default()
    };
    assert!(BlinkCycle::start(&cfg).is_none());
}

fn group(instances: usize, frames: usize, min: f32) -> AnimSchedulerConfig {
    AnimSchedulerConfig {
        instances,
        frames,
        min_interval: Binary32::from_bits(min.to_bits()),
        max_interval: Binary32::from_bits(1.0f32.to_bits()),
    }
}

#[test]
fn instances_are_numbered_over_all_groups() {
    let groups = vec![group(2, 3, 0.1), group(0, 9, 0.2), group(1, 4, 0.3)];
    assert_eq!(anim_count(&groups), 3);
    let t = anim_timers(&groups);
    assert_eq!(t.len(), 3);
    assert_eq!(
        t.iter().map(|x| (x.instance, x.frames)).collect::<Vec<_>>(),
        vec![(0, 3), (1, 3), (2, 4)]
    );
    assert_eq!(f32::from_bits(t[2].min_interval.to_bits()), 0.3);
    assert_eq!(anim_count(&vec![]), 0);
}

#[test]
fn frames_go_round() {
    let mut f = 0;
    let mut seen = Vec::new();
    for _ in 0..5 {
        f = next_frame(f, 3);
        seen.push(f);
    }
    assert_eq!(seen, vec![1, 2, 0, 1, 2]);
    assert_eq!(next_frame(0, 1), 0);
    assert_eq!(next_frame(0, 0), 0);
}

#[test]
fn renders_are_summed_up_every_sixty() {
    let mut s = RenderStats::new();
    for i in 1..60 {
        assert_eq!(s.record(i), None);
    }
    let sum = s.record(7).unwrap();
    assert_eq!((sum.renders, sum.max_render_us, sum.since_summary), (60, 59, 60));
    assert_eq!(s.record(3), None);
    assert_eq!((s.renders, s.max_render_us, s.since_summary), (61, 3, 1));
}
