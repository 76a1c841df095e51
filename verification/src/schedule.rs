//! When things happen: the render limiter, the blink cycle and the animation
//! timers.
use crate::binary32::Binary32;
use crate::compositor::AnimSchedulerConfig;
use crate::config::BlinkSettings;
use crate::state::StateCommand;
use vstd::prelude::*;

verus! {

// ---------------------------------------------------------------------------
// Renders
// ---------------------------------------------------------------------------
/// Keeps renders from coming too often and from repeating a version. Times are
/// nanoseconds of a monotonic clock.
#[derive(Debug, Clone, Copy, PartialEq, Eq, Structural)]
pub struct RenderLimiter {
    pub min_interval: u64,
    pub last_version: u64,
    pub ready_at: Option<u64>,
}

impl RenderLimiter {
    /// A limiter that has let nothing through yet.
    pub fn new(min_interval: u64) -> (r: RenderLimiter)
        ensures
            r.min_interval == min_interval,
            r.last_version == u64::MAX,
            r.ready_at is None,
    {
        RenderLimiter { min_interval, last_version: u64::MAX, ready_at: None }
    }

    /// The time to wait for before the next render, if it is still to come.
    pub fn wait(&self, now: u64) -> (r: Option<u64>)
        ensures
            match r {
                Some(t) => self.ready_at == Some(t) && now < t,
                None => self.ready_at matches Some(t) ==> now >= t,
            },
    {
        match self.ready_at {
            Some(t) => if now < t {
                Some(t)
            } else {
                None
            },
            None => None,
        }
    }

    /// The version is not the one that was rendered last.
    pub open spec fn passes(self, version: u64) -> bool {
        version != self.last_version
    }

    /// The limiter after a version came to it.
    pub open spec fn after(self, version: u64) -> RenderLimiter {
        RenderLimiter { last_version: version, ..self }
    }

    /// True if the version is to be rendered: it is not the one that was
    /// rendered last.
    pub fn pass(&mut self, version: u64) -> (r: bool)
        ensures
            r == old(self).passes(version),
            *final(self) == old(self).after(version),
    {
        if version == self.last_version {
            return false;
        }
        self.last_version = version;
        true
    }

    /// Notes that a render ended at `now`.
    pub fn rendered(&mut self, now: u64)
        requires
            now + old(self).min_interval <= u64::MAX,
        ensures
            *final(self) == (RenderLimiter {
                ready_at: Some((now + old(self).min_interval) as u64),
                ..*old(self)
            }),
    {
        self.ready_at = Some(now + self.min_interval);
    }
}

/// A version that was rendered is not rendered again at once.
pub proof fn version_passes_once(limiter: RenderLimiter, version: u64)
    ensures
        !limiter.after(version).passes(version),
{
}

/// Renders between two summaries.
pub const RENDER_SUMMARY_EVERY: u64 = 60;

/// How rendering goes: the renders so far, and the longest one since the last
/// summary.
#[derive(Debug, Clone, Copy, PartialEq, Eq, Structural)]
pub struct RenderStats {
    pub renders: u64,
    pub max_render_us: u128,
    pub since_summary: u64,
}

impl RenderStats {
    /// No renders yet.
    pub fn new() -> (r: RenderStats)
        ensures
            r == (RenderStats { renders: 0, max_render_us: 0, since_summary: 0 }),
    {
        RenderStats { renders: 0, max_render_us: 0, since_summary: 0 }
    }

    /// The statistics after one more render.
    pub open spec fn counted(self, us: u128) -> RenderStats {
        RenderStats {
            renders: (self.renders + 1) as u64,
            max_render_us: if us > self.max_render_us {
                us
            } else {
                self.max_render_us
            },
            since_summary: (self.since_summary + 1) as u64,
        }
    }

    /// Counts a render that took `us` microseconds. Every sixty renders it
    /// gives the statistics to report, and the count and the longest time
    /// start over.
    pub fn record(&mut self, us: u128) -> (r: Option<RenderStats>)
        requires
            old(self).renders < u64::MAX,
            old(self).since_summary < u64::MAX,
        ensures
            ({
                let s = old(self).counted(us);
                if s.since_summary >= RENDER_SUMMARY_EVERY {
                    &&& r == Some(s)
                    &&& *final(self) == (RenderStats { max_render_us: 0, since_summary: 0, ..s })
                } else {
                    &&& r is None
                    &&& *final(self) == s
                }
            }),
            r is Some <==> old(self).since_summary + 1 >= 60,
    {
        self.renders = self.renders + 1;
        if us > self.max_render_us {
            self.max_render_us = us;
        }
        self.since_summary = self.since_summary + 1;
        if self.since_summary >= RENDER_SUMMARY_EVERY {
            let s = *self;
            self.since_summary = 0;
            self.max_render_us = 0;
            Some(s)
        } else {
            None
        }
    }
}

// ---------------------------------------------------------------------------
// Blinks
// ---------------------------------------------------------------------------
/// Where a blink cycle stands.
#[derive(Debug, Clone, Copy, PartialEq, Eq, Structural)]
pub enum BlinkPhase {
    /// The eyes are open until the next blink.
    Waiting,
    /// The eyes are closed; `second` in the second half of a double blink.
    Shut { second: bool },
    /// The eyes are open between the halves of a double blink.
    Between,
}

/// How long to sleep before the next step.
#[derive(Debug, Clone, Copy, PartialEq, Eq, Structural)]
pub enum Nap {
    /// A time drawn between the two intervals of the settings.
    Interval,
    /// The duration of a blink.
    Blink,
    /// Twice the duration of a blink.
    TwoBlinks,
}

/// What a step of the blink cycle does: the eyes close or open, then a nap.
#[derive(Debug, Clone, Copy, PartialEq, Eq, Structural)]
pub struct BlinkStep {
    pub close: bool,
    pub nap: Nap,
}

/// The blink cycle.
#[derive(Debug, Clone, Copy, PartialEq, Eq, Structural)]
pub struct BlinkCycle {
    pub phase: BlinkPhase,
}

impl BlinkPhase {
    /// The step after a nap, and the phase it leads to. `double` says whether
    /// a second blink was drawn; it counts only when the first one ends.
    pub open spec fn after_nap(self, double: bool) -> (BlinkPhase, BlinkStep) {
        match self {
            BlinkPhase::Waiting => (
                BlinkPhase::Shut { second: false },
                BlinkStep { close: true, nap: Nap::Blink },
            ),
            BlinkPhase::Shut { second } => if !second && double {
                (BlinkPhase::Between, BlinkStep { close: false, nap: Nap::TwoBlinks })
            } else {
                (BlinkPhase::Waiting, BlinkStep { close: false, nap: Nap::Interval })
            },
            BlinkPhase::Between => (
                BlinkPhase::Shut { second: true },
                BlinkStep { close: true, nap: Nap::Blink },
            ),
        }
    }

    /// The eyes are closed.
    pub open spec fn shut(self) -> bool {
        self is Shut
    }
}

impl BlinkCycle {
    /// The cycle for the settings, which begins with a nap of an interval;
    /// none where blinks are disabled.
    pub fn start(cfg: &BlinkSettings) -> (r: Option<(BlinkCycle, Nap)>)
        ensures
            r == (if cfg.enabled {
                Some((BlinkCycle { phase: BlinkPhase::Waiting }, Nap::Interval))
            } else {
                None
            }),
    {
        if cfg.enabled {
            Some((BlinkCycle { phase: BlinkPhase::Waiting }, Nap::Interval))
        } else {
            None
        }
    }

    /// True if the next step asks whether to blink twice.
    pub fn wants_draw(&self) -> (r: bool)
        ensures
            r == (self.phase == BlinkPhase::Shut { second: false }),
            !r ==> self.phase.after_nap(true) == self.phase.after_nap(false),
    {
        match self.phase {
            BlinkPhase::Shut { second } => !second,
            _ => false,
        }
    }

    /// The command to send after a nap, and the nap to take then.
    pub fn step(&mut self, double: bool) -> (r: (StateCommand, Nap))
        ensures
            final(self).phase == old(self).phase.after_nap(double).0,
            r.0 == (if old(self).phase.after_nap(double).1.close {
                StateCommand::BlinkClose
            } else {
                StateCommand::BlinkOpen
            }),
            r.1 == old(self).phase.after_nap(double).1.nap,
    {
        match self.phase {
            BlinkPhase::Waiting => {
                self.phase = BlinkPhase::Shut { second: false };
                (StateCommand::BlinkClose, Nap::Blink)
            },
            BlinkPhase::Shut { second } => {
                if !second && double {
                    self.phase = BlinkPhase::Between;
                    (StateCommand::BlinkOpen, Nap::TwoBlinks)
                } else {
                    self.phase = BlinkPhase::Waiting;
                    (StateCommand::BlinkOpen, Nap::Interval)
                }
            },
            BlinkPhase::Between => {
                self.phase = BlinkPhase::Shut { second: true };
                (StateCommand::BlinkClose, Nap::Blink)
            },
        }
    }
}

/// Closing and opening alternate: a step closes the eyes exactly when they
/// were open.
pub proof fn blinks_alternate(p: BlinkPhase, double: bool)
    ensures
        p.after_nap(double).1.close == !p.shut(),
        p.after_nap(double).0.shut() == !p.shut(),
{
}

/// A cycle takes two steps, or four with a double blink, whatever is drawn in
/// the second half.
pub proof fn blink_cycle_closes(a: bool, b: bool, c: bool, d: bool)
    ensures
        ({
            let p1 = BlinkPhase::Waiting.after_nap(a).0;
            let p2 = p1.after_nap(b).0;
            let p4 = p2.after_nap(c).0.after_nap(d).0;
            &&& !b ==> p2 == BlinkPhase::Waiting
            &&& b ==> p2 == BlinkPhase::Between && p4 == BlinkPhase::Waiting
        }),
{
}

// ---------------------------------------------------------------------------
// Animations
// ---------------------------------------------------------------------------
/// The timer of one animation instance.
#[derive(Debug, Clone, Copy, PartialEq)]
pub struct AnimTimer {
    /// The instance, counted over all groups.
    pub instance: usize,
    pub frames: usize,
    pub min_interval: Binary32,
    pub max_interval: Binary32,
}

/// How many instances the first `n` groups have.
pub open spec fn instances_before(c: Seq<AnimSchedulerConfig>, n: int) -> int
    decreases n,
{
    if n <= 0 {
        0
    } else {
        instances_before(c, n - 1) + c[n - 1].instances
    }
}

/// How many instances all groups have.
pub open spec fn instance_count(c: Seq<AnimSchedulerConfig>) -> int {
    instances_before(c, c.len() as int)
}

/// The group that an instance, counted over all groups, belongs to.
pub open spec fn in_group(c: Seq<AnimSchedulerConfig>, g: int, i: int) -> bool {
    0 <= g < c.len() && instances_before(c, g) <= i < instances_before(c, g + 1)
}

/// The timer is that of instance `i`, with the parameters of its group.
pub open spec fn timer_of(c: Seq<AnimSchedulerConfig>, i: int, t: AnimTimer) -> bool {
    &&& t.instance == i
    &&& exists|g: int| #[trigger]
        in_group(c, g, i) && t.frames == c[g].frames && t.min_interval == c[g].min_interval
            && t.max_interval == c[g].max_interval
}

proof fn instances_grow(c: Seq<AnimSchedulerConfig>, a: int, b: int)
    requires
        a <= b <= c.len(),
    ensures
        0 <= instances_before(c, a) <= instances_before(c, b),
    decreases b,
{
    if b > 0 {
        if a < b {
            instances_grow(c, a, b - 1);
        } else {
            instances_grow(c, b - 1, b - 1);
        }
    }
}

/// Counts the instances of all groups.
pub fn anim_count(c: &Vec<AnimSchedulerConfig>) -> (r: usize)
    requires
        instance_count(c@) <= usize::MAX,
    ensures
        r == instance_count(c@),
{
    let mut n: usize = 0;
    let mut i: usize = 0;
    while i < c.len()
        invariant
            i <= c@.len(),
            n == instances_before(c@, i as int),
            instance_count(c@) <= usize::MAX,
        decreases c@.len() - i,
    {
        proof {
            instances_grow(c@, i + 1, c@.len() as int);
        }
        n = n + c[i].instances;
        i = i + 1;
    }
    n
}

/// Lists the timers of all instances: one for each, numbered through.
pub fn anim_timers(c: &Vec<AnimSchedulerConfig>) -> (r: Vec<AnimTimer>)
    requires
        instance_count(c@) <= usize::MAX,
    ensures
        r@.len() == instance_count(c@),
        forall|i: int| 0 <= i < r@.len() ==> timer_of(c@, i, #[trigger] r@[i]),
{
    let mut out: Vec<AnimTimer> = Vec::new();
    let mut g: usize = 0;
    while g < c.len()
        invariant
            g <= c@.len(),
            out@.len() == instances_before(c@, g as int),
            instance_count(c@) <= usize::MAX,
            forall|i: int| 0 <= i < out@.len() ==> timer_of(c@, i, #[trigger] out@[i]),
        decreases c@.len() - g,
    {
        let cfg = c[g];
        proof {
            instances_grow(c@, g + 1, c@.len() as int);
        }
        let mut k: usize = 0;
        while k < cfg.instances
            invariant
                k <= cfg.instances,
                g < c@.len(),
                cfg == c@[g as int],
                out@.len() == instances_before(c@, g as int) + k,
                instances_before(c@, g + 1) <= usize::MAX,
                instances_before(c@, g as int) >= 0,
                forall|i: int| 0 <= i < out@.len() ==> timer_of(c@, i, #[trigger] out@[i]),
            decreases cfg.instances - k,
        {
            let t = AnimTimer {
                instance: out.len(),
                frames: cfg.frames,
                min_interval: cfg.min_interval,
                max_interval: cfg.max_interval,
            };
            assert(in_group(c@, g as int, out@.len() as int));
            assert(timer_of(c@, out@.len() as int, t));
            out.push(t);
            k = k + 1;
        }
        g = g + 1;
        proof {
            instances_grow(c@, g as int, g as int);
        }
    }
    out
}

/// The frame after `frame` in a cycle of `frames`.
pub open spec fn frame_after(frame: int, frames: int) -> int {
    let n = if frames < 1 {
        1
    } else {
        frames
    };
    (frame + 1) % n
}

/// The frame after `frame` in a cycle of `frames`; a cycle has at least one.
pub fn next_frame(frame: usize, frames: usize) -> (r: usize)
    requires
        frame < frames || frame == 0,
    ensures
        r == frame_after(frame as int, frames as int),
        r < frames || r == 0,
{
    let n: usize = if frames < 1 {
        1
    } else {
        frames
    };
    (frame + 1) % n
}

/// `k` steps from `frame` on.
pub open spec fn frame_in(frame: int, frames: int, k: nat) -> int
    decreases k,
{
    if k == 0 {
        frame
    } else {
        frame_after(frame_in(frame, frames, (k - 1) as nat), frames)
    }
}

proof fn frames_advance(frame: int, frames: int, k: nat)
    requires
        0 <= frame < frames,
    ensures
        frame_in(frame, frames, k) == (frame + k) % frames,
    decreases k,
{
    if k > 0 {
        frames_advance(frame, frames, (k - 1) as nat);
        vstd::arithmetic::div_mod::lemma_add_mod_noop(frame + k - 1, 1, frames);
        vstd::arithmetic::div_mod::lemma_mod_twice(frame + k - 1, frames);
        if frames > 1 {
            vstd::arithmetic::div_mod::lemma_small_mod(1, frames as nat);
        }
    } else {
        vstd::arithmetic::div_mod::lemma_small_mod(frame as nat, frames as nat);
    }
}

/// Frames come round: after as many steps as there are frames, the first one
/// shows again, and in between every step shows another one.
pub proof fn frames_come_round(frame: int, frames: int)
    requires
        0 <= frame < frames,
    ensures
        frame_in(frame, frames, frames as nat) == frame,
        frames > 1 ==> frame_after(frame, frames) != frame,
{
    frames_advance(frame, frames, frames as nat);
    vstd::arithmetic::div_mod::lemma_mod_add_multiples_vanish(frame, frames);
    vstd::arithmetic::div_mod::lemma_small_mod(frame as nat, frames as nat);
    if frames > 1 && frame + 1 < frames {
        vstd::arithmetic::div_mod::lemma_small_mod((frame + 1) as nat, frames as nat);
    }
    if frame + 1 == frames {
        vstd::arithmetic::div_mod::lemma_mod_self_0(frames);
    }
}

/// A version passes exactly when it is not the one before it, and passing it
/// changes neither the interval nor the time of the next render.
pub proof fn other_versions_pass(limiter: RenderLimiter, a: u64, b: u64)
    ensures
        limiter.after(a).passes(b) <==> a != b,
        limiter.after(a).min_interval == limiter.min_interval,
        limiter.after(a).ready_at == limiter.ready_at,
{
}

/// Every render counts once, and the longest time is kept.
pub proof fn every_render_counts_once(s: RenderStats, us: u128)
    requires
        s.renders < u64::MAX,
        s.since_summary < u64::MAX,
    ensures
        ({
            let t = s.counted(us);
            &&& t.renders == s.renders + 1
            &&& t.since_summary == s.since_summary + 1
            &&& t.max_render_us >= s.max_render_us
            &&& t.max_render_us >= us
            &&& t.max_render_us == s.max_render_us || t.max_render_us == us
        }),
{
}

/// The eyes stay shut for one blink, open between the halves of a double blink
/// for two, and open until the next blink for an interval.
pub proof fn naps_fit_the_phase(p: BlinkPhase, double: bool)
    ensures
        ({
            let (next, step) = p.after_nap(double);
            &&& next is Shut <==> step.nap == Nap::Blink
            &&& next is Between <==> step.nap == Nap::TwoBlinks
            &&& next is Waiting <==> step.nap == Nap::Interval
        }),
{
}

/// The instances of a group follow those of the groups before it: each group
/// adds as many as it has.
pub proof fn groups_follow_each_other(c: Seq<AnimSchedulerConfig>, g: int)
    requires
        0 <= g < c.len(),
    ensures
        instances_before(c, 0) == 0,
        instances_before(c, g + 1) == instances_before(c, g) + c[g].instances,
        instance_count(c) == instances_before(c, c.len() as int),
{
}

/// The timer of every instance of every group has the times and the number of
/// frames of its own group.
pub proof fn timers_have_their_groups_times(
    c: Seq<AnimSchedulerConfig>,
    t: AnimTimer,
    g: int,
    k: int,
)
    requires
        0 <= g < c.len(),
        0 <= k < c[g].instances,
        timer_of(c, instances_before(c, g) + k, t),
    ensures
        t.instance == instances_before(c, g) + k,
        t.frames == c[g].frames,
        t.min_interval == c[g].min_interval,
        t.max_interval == c[g].max_interval,
{
    let i = instances_before(c, g) + k;
    let h = choose|h: int| #[trigger]
        in_group(c, h, i) && t.frames == c[h].frames && t.min_interval == c[h].min_interval
            && t.max_interval == c[h].max_interval;
    if h < g {
        instances_grow(c, h + 1, g);
    } else if g < h {
        instances_grow(c, g + 1, h);
    }
}

/// The next frame is the one after, and after the last one the first.
pub proof fn frames_go_one_by_one(frame: int, frames: int)
    requires
        0 <= frame < frames,
    ensures
        frame + 1 < frames ==> frame_after(frame, frames) == frame + 1,
        frame + 1 == frames ==> frame_after(frame, frames) == 0,
{
    if frame + 1 < frames {
        vstd::arithmetic::div_mod::lemma_small_mod((frame + 1) as nat, frames as nat);
    } else {
        vstd::arithmetic::div_mod::lemma_mod_self_0(frames);
    }
}

} // verus!
