//! Avatar state machine: the single source of truth for what the avatar shows.
//!
//! [`StateMachine::handle`] takes one [`StateCommand`] at a time and answers
//! with the effects to perform: messages to broadcast, renders to request,
//! revert timers to arm. A revert timer carries the token that was current
//! when it was armed, and its clear is honoured only if the token still
//! matches, so a newer emotion cannot be undone by a stale timer.
//!
//! Volume-only drift is throttled, and a render is requested only when a
//! visible layer changes.
use crate::assets::AssetCatalog;
use crate::binary32;
use crate::binary32::Binary32;
use crate::buffers::{copy_range, filled};
use crate::protocol::{
    AvatarModel, EnvelopeConfig, EyeState, MessageModel, MouthConfig, MouthState, ServerMessage,
};
use crate::text;
use crate::textmap::TextMap;
use std::sync::Arc;
use vstd::prelude::*;

verus! {

/// Least time between volume-only broadcasts, in nanoseconds.
pub const VOLUME_BROADCAST_INTERVAL: u64 = 50_000_000;

/// Commands accepted by the state machine.
#[derive(Debug, Clone, PartialEq)]
pub enum StateCommand {
    /// Smoothed volume, from the audio analyser.
    SetVolume(Binary32),
    /// An emotion was requested. The caller has checked that it is known.
    TriggerEmotion(String),
    /// The emotion override was dropped.
    ClearOverride,
    /// The resting emotion was changed.
    SetDefault(String),
    /// A mouth shape was forced, whatever the microphone says.
    SetMouthOverride(MouthState),
    /// The forced mouth shape was released.
    ClearMouthOverride,
    /// The mouth-level configuration was changed.
    SetMouthConfig(MouthConfig),
    /// The audio envelope was changed.
    SetEnvelope(EnvelopeConfig),
    /// The blink scheduler closed the eyes.
    BlinkClose,
    /// The blink scheduler opened the eyes.
    BlinkOpen,
    /// The eyes were forced open or closed; blinks have no effect meanwhile.
    SetEyesOverride(EyeState),
    /// The forced eye state was released.
    ClearEyesOverride,
    /// The animation scheduler advanced an instance to a new frame.
    AnimFrame { instance: usize, frame: usize },
    /// A revert timer fired. Applied only if `token` is the active one.
    TimerClear(u64),
    /// Stop.
    Shutdown,
}

/// State snapshot for the renderer.
#[derive(Debug, Clone)]
pub struct RenderRequest {
    pub emotion: Option<String>,
    pub mouth: MouthState,
    pub eyes: EyeState,
    pub anim_frames: Vec<usize>,
    pub version: u64,
}

/// What a [`RenderRequest`] asks for.
#[verifier::ext_equal]
pub struct RenderModel {
    pub emotion: Option<Seq<char>>,
    pub mouth: MouthState,
    pub eyes: EyeState,
    pub anim_frames: Seq<usize>,
    pub version: u64,
}

impl View for RenderRequest {
    type V = RenderModel;

    open spec fn view(&self) -> RenderModel {
        RenderModel {
            emotion: text::opt_text(self.emotion),
            mouth: self.mouth,
            eyes: self.eyes,
            anim_frames: self.anim_frames@,
            version: self.version,
        }
    }
}

/// What the surroundings have to do after a command.
#[derive(Debug)]
pub enum Effect {
    /// Send the message to every observer.
    Broadcast(ServerMessage),
    /// Post the request to the renderer.
    Render(RenderRequest),
    /// After `secs` seconds, send `TimerClear(token)`.
    ArmTimer { secs: Binary32, token: u64 },
    /// Hand the envelope to the running audio analysis.
    ApplyEnvelope(EnvelopeConfig),
}

/// What an [`Effect`] asks for.
pub enum EffectModel {
    Broadcast(MessageModel),
    Render(RenderModel),
    ArmTimer { secs: Binary32, token: u64 },
    ApplyEnvelope(EnvelopeConfig),
}

impl View for Effect {
    type V = EffectModel;

    open spec fn view(&self) -> EffectModel {
        match *self {
            Effect::Broadcast(m) => EffectModel::Broadcast(m@),
            Effect::Render(r) => EffectModel::Render(r@),
            Effect::ArmTimer { secs, token } => EffectModel::ArmTimer { secs, token },
            Effect::ApplyEnvelope(c) => EffectModel::ApplyEnvelope(c),
        }
    }
}

/// The effects as they are seen from outside.
pub open spec fn effects(v: Seq<Effect>) -> Seq<EffectModel> {
    v.map_values(|e: Effect| e@)
}

// ---------------------------------------------------------------------------
// Volume to mouth
// ---------------------------------------------------------------------------
/// The lowest enabled level, or `Closed` if none is.
pub open spec fn resting_level(cfg: MouthConfig) -> MouthState {
    if cfg.has(MouthState::Closed) {
        MouthState::Closed
    } else if cfg.has(MouthState::Partial) {
        MouthState::Partial
    } else if cfg.has(MouthState::Medium) {
        MouthState::Medium
    } else if cfg.has(MouthState::Open) {
        MouthState::Open
    } else {
        MouthState::Closed
    }
}

/// The volume engages the level: it is enabled, above the resting level, and
/// its threshold is reached.
pub open spec fn engaged(cfg: MouthConfig, level: MouthState, v: Binary32) -> bool {
    &&& cfg.has(level)
    &&& level.rank() > resting_level(cfg).rank()
    &&& cfg.threshold_of(level) matches Some(th) && th.le(v)
}

/// The mouth for a volume: the highest engaged level, else the resting one.
pub open spec fn mouth_for(v: Binary32, cfg: MouthConfig) -> MouthState {
    if engaged(cfg, MouthState::Open, v) {
        MouthState::Open
    } else if engaged(cfg, MouthState::Medium, v) {
        MouthState::Medium
    } else if engaged(cfg, MouthState::Partial, v) {
        MouthState::Partial
    } else {
        resting_level(cfg)
    }
}

fn resting(cfg: &MouthConfig) -> (r: MouthState)
    ensures
        r == resting_level(*cfg),
{
    if cfg.is_enabled(MouthState::Closed) {
        MouthState::Closed
    } else if cfg.is_enabled(MouthState::Partial) {
        MouthState::Partial
    } else if cfg.is_enabled(MouthState::Medium) {
        MouthState::Medium
    } else if cfg.is_enabled(MouthState::Open) {
        MouthState::Open
    } else {
        MouthState::Closed
    }
}

/// Maps a smoothed volume to a mouth level.
///
/// The lowest enabled level is the resting mouth; each higher enabled level
/// engages when the volume reaches its threshold. Disabled levels are skipped,
/// so turning off `closed` makes `partial` the resting mouth.
pub fn volume_to_mouth(v: Binary32, cfg: &MouthConfig) -> (r: MouthState)
    ensures
        r == mouth_for(v, *cfg),
{
    let descending: [MouthState; 3] = [MouthState::Open, MouthState::Medium, MouthState::Partial];
    let rest = resting(cfg);
    let mut i: usize = 0;
    while i < 3
        invariant
            i <= 3,
            descending@ == seq![MouthState::Open, MouthState::Medium, MouthState::Partial],
            rest == resting_level(*cfg),
            forall|j: int| 0 <= j < i ==> !engaged(*cfg, #[trigger] descending@[j], v),
        decreases 3 - i,
    {
        let l = descending[i];
        if l.level() > rest.level() && cfg.is_enabled(l) {
            if let Some(th) = cfg.threshold(l) {
                if th.at_most(v) {
                    assert(engaged(*cfg, l, v));
                    assert(i >= 1 ==> !engaged(*cfg, descending@[0], v));
                    assert(i >= 2 ==> !engaged(*cfg, descending@[1], v));
                    return l;
                }
            }
        }
        i = i + 1;
    }
    assert(!engaged(*cfg, descending@[0], v) && !engaged(*cfg, descending@[1], v) && !engaged(
        *cfg,
        descending@[2],
        v,
    ));
    rest
}

/// A louder volume never gives a less open mouth.
pub proof fn louder_opens_wider(a: Binary32, b: Binary32, cfg: MouthConfig)
    requires
        a.le(b),
    ensures
        mouth_for(a, cfg).rank() <= mouth_for(b, cfg).rank(),
{
}

/// Each level goes by its own threshold: it shows exactly when it is enabled,
/// the volume reaches its threshold (or no lower level is enabled, so that it
/// rests), and the volume reaches the threshold of no enabled level above it.
pub proof fn each_level_goes_by_its_own_threshold(v: Binary32, cfg: MouthConfig)
    ensures
        ({
            let (closed, partial) = (cfg.enabled@[0], cfg.enabled@[1]);
            let (medium, open) = (cfg.enabled@[2], cfg.enabled@[3]);
            let m = mouth_for(v, cfg);
            &&& m == MouthState::Open <==> open && (cfg.open.le(v) || !(closed || partial
                || medium))
            &&& m == MouthState::Medium <==> medium && !(open && cfg.open.le(v)) && (cfg.medium.le(
                v,
            ) || !(closed || partial))
            &&& m == MouthState::Partial <==> partial && !(open && cfg.open.le(v)) && !(medium
                && cfg.medium.le(v)) && (cfg.partial.le(v) || !closed)
        }),
{
    assert(cfg.has(MouthState::Closed) == cfg.enabled@[0]);
    assert(cfg.has(MouthState::Partial) == cfg.enabled@[1]);
    assert(cfg.has(MouthState::Medium) == cfg.enabled@[2]);
    assert(cfg.has(MouthState::Open) == cfg.enabled@[3]);
}

/// With a lower level to rest at, the mouth opens as far as an enabled level or
/// further exactly when the volume reaches that level's threshold or the one of
/// an enabled level above it.
pub proof fn reached_levels_open_the_mouth(v: Binary32, cfg: MouthConfig)
    requires
        cfg.enabled@[0],
    ensures
        ({
            let partial = cfg.enabled@[1] && cfg.partial.le(v);
            let medium = cfg.enabled@[2] && cfg.medium.le(v);
            let open = cfg.enabled@[3] && cfg.open.le(v);
            let m = mouth_for(v, cfg);
            &&& m is Open <==> open
            &&& m is Open || m is Medium <==> open || medium
            &&& m is Open || m is Medium || m is Partial <==> open || medium || partial
        }),
{
    each_level_goes_by_its_own_threshold(v, cfg);
}

/// A disabled level is never shown while any level is enabled.
pub proof fn only_enabled_levels_show(v: Binary32, cfg: MouthConfig)
    requires
        cfg.verdict() != Err::<(), _>(crate::protocol::MouthConfigError::NothingEnabled),
    ensures
        cfg.has(mouth_for(v, cfg)),
{
    assert(cfg.has(MouthState::Closed) == cfg.enabled@[0]);
    assert(cfg.has(MouthState::Partial) == cfg.enabled@[1]);
    assert(cfg.has(MouthState::Medium) == cfg.enabled@[2]);
    assert(cfg.has(MouthState::Open) == cfg.enabled@[3]);
}

/// Below every threshold the mouth rests.
pub proof fn silence_rests(v: Binary32, cfg: MouthConfig)
    requires
        v.lt(cfg.partial),
        v.lt(cfg.medium),
        v.lt(cfg.open),
    ensures
        mouth_for(v, cfg) == resting_level(cfg),
{
}

/// With `closed` disabled and `partial` enabled, `partial` is the resting
/// mouth and `closed` is never shown.
pub proof fn partial_rests_without_closed(v: Binary32, cfg: MouthConfig)
    requires
        !cfg.has(MouthState::Closed),
        cfg.has(MouthState::Partial),
    ensures
        resting_level(cfg) == MouthState::Partial,
        mouth_for(v, cfg) != MouthState::Closed,
{
}

// ---------------------------------------------------------------------------
// The model
// ---------------------------------------------------------------------------
/// The state of the avatar and of its observers.
#[verifier::ext_equal]
pub struct Model {
    pub catalog: AssetCatalog,
    pub mouth_config: MouthConfig,
    /// Seconds after which an emotion reverts, under lower-case names.
    pub timers: Map<Seq<char>, Binary32>,
    pub default_emotion: Seq<char>,
    pub emotion_override: Option<Seq<char>>,
    pub mouth_override: Option<MouthState>,
    pub eyes_override: Option<EyeState>,
    /// The mouth that the microphone asks for.
    pub mouth: MouthState,
    /// The eyes that the blink scheduler asks for.
    pub eyes: EyeState,
    pub volume: Binary32,
    /// The token of the latest triggered emotion.
    pub token: u64,
    /// The version of the latest render request.
    pub version: u64,
    /// What the latest state broadcast showed, and when it was sent.
    pub sent_emotion: Seq<char>,
    pub sent_mouth: MouthState,
    pub sent_eyes: EyeState,
    pub sent_at: u64,
    /// Eye frame, mouth frame and animation version of the latest render.
    pub frame_key: (Seq<char>, Seq<char>, u64),
    /// The current frame of each animation instance.
    pub anim_frames: Seq<usize>,
    pub anim_version: u64,
}

/// A counter's next value; it starts over after the largest.
pub open spec fn next_count(n: u64) -> u64 {
    if n == u64::MAX {
        0
    } else {
        (n + 1) as u64
    }
}

/// The emotion whose eyes to show; none where the name is empty.
pub open spec fn named_emotion(e: Seq<char>) -> Option<Seq<char>> {
    if e.len() == 0 {
        None
    } else {
        Some(e)
    }
}

/// A frame's URL, empty where there is no frame.
pub open spec fn url_or_empty(o: Option<Seq<char>>) -> Seq<char> {
    match o {
        Some(s) => s,
        None => seq![],
    }
}

impl Model {
    /// The emotion in effect: the override, else the resting emotion.
    pub open spec fn shown_emotion(self) -> Seq<char> {
        match self.emotion_override {
            Some(e) => e,
            None => self.default_emotion,
        }
    }

    /// The mouth in effect: the override, else the microphone's.
    pub open spec fn shown_mouth(self) -> MouthState {
        match self.mouth_override {
            Some(m) => m,
            None => self.mouth,
        }
    }

    /// The eyes in effect: the override, else the blink scheduler's.
    pub open spec fn shown_eyes(self) -> EyeState {
        match self.eyes_override {
            Some(e) => e,
            None => self.eyes,
        }
    }

    /// The URL of the eye layer in effect.
    pub open spec fn eyes_frame(self) -> Seq<char> {
        url_or_empty(
            self.catalog.eyes_url(named_emotion(self.shown_emotion()), self.shown_eyes()),
        )
    }

    /// The URL of the mouth layer in effect.
    pub open spec fn mouth_frame(self) -> Seq<char> {
        url_or_empty(self.catalog.mouth_url(self.shown_mouth()))
    }

    /// What observers are told of the state.
    pub open spec fn snapshot(self) -> AvatarModel {
        AvatarModel {
            emotion: self.shown_emotion(),
            mouth: self.shown_mouth(),
            eyes: self.shown_eyes(),
            volume: self.volume,
            overridden: self.emotion_override is Some || self.mouth_override is Some
                || self.eyes_override is Some,
            mouth_overridden: self.mouth_override is Some,
            eyes_overridden: self.eyes_override is Some,
            eyes_frame: self.eyes_frame(),
            mouth_frame: self.mouth_frame(),
            default_emotion: self.default_emotion,
        }
    }

    /// The avatar is at rest: animation overlays show only then.
    pub open spec fn at_rest(self) -> bool {
        self.shown_mouth() == MouthState::Closed
    }

    /// What identifies the picture to draw. Frames that animations step
    /// through count only at rest.
    pub open spec fn picture(self) -> (Seq<char>, Seq<char>, u64) {
        (
            self.eyes_frame(),
            self.mouth_frame(),
            if self.at_rest() {
                self.anim_version
            } else {
                self.frame_key.2
            },
        )
    }

    /// The render request of the given version.
    pub open spec fn request(self, version: u64) -> RenderModel {
        RenderModel {
            emotion: named_emotion(self.shown_emotion()),
            mouth: self.shown_mouth(),
            eyes: self.shown_eyes(),
            anim_frames: if self.at_rest() {
                self.anim_frames
            } else {
                seq![]
            },
            version,
        }
    }

    /// The state after telling observers of it at time `now`.
    pub open spec fn announced(self, now: u64) -> Model {
        let told = Model {
            sent_emotion: self.shown_emotion(),
            sent_mouth: self.shown_mouth(),
            sent_eyes: self.shown_eyes(),
            sent_at: now,
            ..self
        };
        if self.picture() != self.frame_key {
            Model { frame_key: self.picture(), version: next_count(self.version), ..told }
        } else {
            told
        }
    }

    /// The effects of telling observers of the state: a state update, and a
    /// render if the picture changed.
    pub open spec fn announcement(self) -> Seq<EffectModel> {
        let told = EffectModel::Broadcast(MessageModel::State(self.snapshot()));
        if self.picture() != self.frame_key {
            seq![told, EffectModel::Render(self.request(next_count(self.version)))]
        } else {
            seq![told]
        }
    }

    /// Some visible part differs from what was sent last.
    pub open spec fn differs_from_sent(self) -> bool {
        self.shown_emotion() != self.sent_emotion || self.shown_mouth() != self.sent_mouth
            || self.shown_eyes() != self.sent_eyes
    }

    /// At least the throttle interval has passed since the last broadcast.
    pub open spec fn refresh_due(self, now: u64) -> bool {
        now >= self.sent_at + VOLUME_BROADCAST_INTERVAL
    }

    /// The state with a new volume and the mouth that follows from it.
    pub open spec fn heard(self, v: Binary32) -> Model {
        let volume = v.unit_clamped();
        Model { volume, mouth: mouth_for(volume, self.mouth_config), ..self }
    }

    /// The state with a new mouth configuration.
    pub open spec fn reconfigured(self, config: MouthConfig) -> Model {
        Model { mouth_config: config, mouth: mouth_for(self.volume, config), ..self }
    }

    /// The state after a blink event, before anyone is told.
    pub open spec fn blinked(self, eyes: EyeState) -> Model {
        Model { eyes, ..self }
    }

    /// The state with an animation instance moved to a frame.
    pub open spec fn animated(self, instance: usize, frame: usize) -> Model {
        Model {
            anim_frames: self.anim_frames.update(instance as int, frame),
            anim_version: next_count(self.anim_version),
            ..self
        }
    }

    /// The state with an emotion triggered.
    pub open spec fn triggered(self, emotion: Seq<char>) -> Model {
        Model { emotion_override: Some(emotion), token: next_count(self.token), ..self }
    }

    /// The state and the effects after a command at time `now`.
    pub open spec fn step(self, cmd: StateCommand, now: u64) -> (Model, Seq<EffectModel>) {
        match cmd {
            StateCommand::SetVolume(v) => {
                let m = self.heard(v);
                if m.differs_from_sent() || m.refresh_due(now) {
                    (m.announced(now), m.announcement())
                } else {
                    (m, seq![])
                }
            },
            StateCommand::TriggerEmotion(emotion) => {
                let m = self.triggered(emotion@);
                let key = text::lowered(emotion@);
                let timer = if self.timers.dom().contains(key) {
                    seq![EffectModel::ArmTimer { secs: self.timers[key], token: m.token }]
                } else {
                    seq![]
                };
                (m.announced(now), timer + m.announcement())
            },
            StateCommand::ClearOverride => {
                let m = Model { emotion_override: None, ..self };
                (m.announced(now), m.announcement())
            },
            StateCommand::TimerClear(token) => {
                if token == self.token {
                    let m = Model { emotion_override: None, ..self };
                    (m.announced(now), m.announcement())
                } else {
                    (self, seq![])
                }
            },
            StateCommand::SetDefault(emotion) => {
                let m = Model { default_emotion: emotion@, ..self };
                (m.announced(now), m.announcement())
            },
            StateCommand::SetMouthOverride(mouth) => {
                let m = Model { mouth_override: Some(mouth), ..self };
                (m.announced(now), m.announcement())
            },
            StateCommand::ClearMouthOverride => {
                let m = Model { mouth_override: None, ..self };
                (m.announced(now), m.announcement())
            },
            StateCommand::SetMouthConfig(config) => {
                let m = self.reconfigured(config);
                (
                    m.announced(now),
                    seq![EffectModel::Broadcast(MessageModel::MouthConfig(config))]
                        + m.announcement(),
                )
            },
            StateCommand::SetEnvelope(config) => (
                self,
                seq![
                    EffectModel::ApplyEnvelope(config),
                    EffectModel::Broadcast(MessageModel::Envelope(config)),
                ],
            ),
            StateCommand::BlinkClose => self.blink_step(EyeState::Closed, now),
            StateCommand::BlinkOpen => self.blink_step(EyeState::Open, now),
            StateCommand::SetEyesOverride(eyes) => {
                let m = Model { eyes_override: Some(eyes), ..self };
                (m.announced(now), m.announcement())
            },
            StateCommand::ClearEyesOverride => {
                let m = Model { eyes_override: None, ..self };
                (m.announced(now), m.announcement())
            },
            StateCommand::AnimFrame { instance, frame } => {
                if instance < self.anim_frames.len() {
                    let m = self.animated(instance, frame);
                    if m.at_rest() {
                        (m.announced(now), m.announcement())
                    } else {
                        (m, seq![])
                    }
                } else {
                    (self, seq![])
                }
            },
            StateCommand::Shutdown => (self, seq![]),
        }
    }

    /// A blink event: masked by an eyes override, and silent where it does not
    /// change the visible eye layer.
    pub open spec fn blink_step(self, eyes: EyeState, now: u64) -> (Model, Seq<EffectModel>) {
        if self.eyes_override is Some {
            (self, seq![])
        } else {
            let m = self.blinked(eyes);
            if m.eyes_frame() != self.eyes_frame() {
                (m.announced(now), m.announcement())
            } else {
                (m, seq![])
            }
        }
    }
}

/// The first `n` of the timers, under the lower-case forms of their names; of
/// two names that differ in case only, the later one counts.
pub open spec fn timers_by_name(l: Seq<(Seq<char>, Binary32)>, n: int) -> Map<Seq<char>, Binary32>
    decreases n,
{
    if n <= 0 {
        Map::empty()
    } else {
        timers_by_name(l, n - 1).insert(text::lowered(l[n - 1].0), l[n - 1].1)
    }
}

/// The state before the first command.
pub open spec fn initial(
    catalog: AssetCatalog,
    mouth_config: MouthConfig,
    timers: Map<Seq<char>, Binary32>,
    default_emotion: Seq<char>,
    anim_count: nat,
    now: u64,
) -> Model {
    Model {
        catalog,
        mouth_config,
        timers,
        default_emotion,
        emotion_override: None,
        mouth_override: None,
        eyes_override: None,
        mouth: MouthState::Closed,
        eyes: EyeState::Open,
        volume: Binary32 { bits: 0 },
        token: 0,
        version: 0,
        sent_emotion: default_emotion,
        sent_mouth: MouthState::Closed,
        sent_eyes: EyeState::Open,
        sent_at: now,
        frame_key: (seq![], seq![], 0),
        anim_frames: Seq::new(anim_count, |i: int| 0usize),
        anim_version: 0,
    }
}

// ---------------------------------------------------------------------------
// The machine
// ---------------------------------------------------------------------------
/// The owner of the avatar state.
#[derive(Debug)]
pub struct StateMachine {
    catalog: Arc<AssetCatalog>,
    mouth_config: MouthConfig,
    timers: TextMap<Binary32>,
    default_emotion: String,
    emotion_override: Option<String>,
    mouth_override: Option<MouthState>,
    eyes_override: Option<EyeState>,
    mouth: MouthState,
    eyes: EyeState,
    volume: Binary32,
    active_token: u64,
    render_version: u64,
    last_sent_emotion: String,
    last_sent_mouth: MouthState,
    last_sent_eyes: EyeState,
    last_vol_broadcast: u64,
    last_frame_keys: (String, String, u64),
    anim_frames: Vec<usize>,
    anim_version: u64,
}

impl View for StateMachine {
    type V = Model;

    closed spec fn view(&self) -> Model {
        Model {
            catalog: *self.catalog,
            mouth_config: self.mouth_config,
            timers: self.timers@,
            default_emotion: self.default_emotion@,
            emotion_override: text::opt_text(self.emotion_override),
            mouth_override: self.mouth_override,
            eyes_override: self.eyes_override,
            mouth: self.mouth,
            eyes: self.eyes,
            volume: self.volume,
            token: self.active_token,
            version: self.render_version,
            sent_emotion: self.last_sent_emotion@,
            sent_mouth: self.last_sent_mouth,
            sent_eyes: self.last_sent_eyes,
            sent_at: self.last_vol_broadcast,
            frame_key: (
                self.last_frame_keys.0@,
                self.last_frame_keys.1@,
                self.last_frame_keys.2,
            ),
            anim_frames: self.anim_frames@,
            anim_version: self.anim_version,
        }
    }
}

fn bump(n: u64) -> (r: u64)
    ensures
        r == next_count(n),
{
    if n == u64::MAX {
        0
    } else {
        n + 1
    }
}

fn or_empty(o: Option<String>) -> (r: String)
    ensures
        r@ == url_or_empty(text::opt_text(o)),
{
    match o {
        Some(s) => s,
        None => String::new(),
    }
}

fn named(e: &str) -> (r: Option<&str>)
    ensures
        text::opt_str(r) == named_emotion(e@),
{
    if text::chars_of(e).len() == 0 {
        None
    } else {
        Some(e)
    }
}

/// The timers under the lower-case forms of their names.
fn lower_timers(timers: &TextMap<Binary32>) -> (r: TextMap<Binary32>)
    ensures
        r@ == timers_by_name(timers.listing(), timers.listing().len() as int),
{
    let mut r: TextMap<Binary32> = TextMap::new();
    let n: usize = timers.len();
    let mut i: usize = 0;
    while i < n
        invariant
            i <= n,
            n == timers.listing().len(),
            r@ == timers_by_name(timers.listing(), i as int),
        decreases n - i,
    {
        r.insert(text::to_lower(timers.key_at(i).as_str()), *timers.value_at(i));
        i = i + 1;
    }
    r
}

impl StateMachine {
    /// A machine at rest, with `anim_count` animation instances, at time `now`
    /// (in nanoseconds of a monotonic clock). The names of the timers count in
    /// any ASCII case.
    pub fn new(
        catalog: Arc<AssetCatalog>,
        mouth_config: MouthConfig,
        timers: TextMap<Binary32>,
        default_emotion: String,
        anim_count: usize,
        now: u64,
    ) -> (r: StateMachine)
        ensures
            r@ == initial(
                *catalog,
                mouth_config,
                timers_by_name(timers.listing(), timers.listing().len() as int),
                default_emotion@,
                anim_count as nat,
                now,
            ),
    {
        let sent = default_emotion.clone();
        let r = StateMachine {
            catalog,
            mouth_config,
            timers: lower_timers(&timers),
            default_emotion,
            emotion_override: None,
            mouth_override: None,
            eyes_override: None,
            mouth: MouthState::Closed,
            eyes: EyeState::Open,
            volume: Binary32::from_bits(0),
            active_token: 0,
            render_version: 0,
            last_sent_emotion: sent,
            last_sent_mouth: MouthState::Closed,
            last_sent_eyes: EyeState::Open,
            last_vol_broadcast: now,
            last_frame_keys: (String::new(), String::new(), 0),
            anim_frames: filled(0usize, anim_count),
            anim_version: 0,
        };
        proof {
            reveal_strlit("");
            assert(r@.frame_key.0 =~= seq![]);
            assert(r@ =~= initial(
                *catalog,
                mouth_config,
                timers_by_name(timers.listing(), timers.listing().len() as int),
                default_emotion@,
                anim_count as nat,
                now,
            ));
        }
        r
    }

    fn effective_emotion(&self) -> (r: &str)
        ensures
            r@ == self@.shown_emotion(),
    {
        match &self.emotion_override {
            Some(e) => e.as_str(),
            None => self.default_emotion.as_str(),
        }
    }

    fn effective_mouth(&self) -> (r: MouthState)
        ensures
            r == self@.shown_mouth(),
    {
        match self.mouth_override {
            Some(m) => m,
            None => self.mouth,
        }
    }

    fn effective_eyes(&self) -> (r: EyeState)
        ensures
            r == self@.shown_eyes(),
    {
        match self.eyes_override {
            Some(e) => e,
            None => self.eyes,
        }
    }

    /// The URL of the eye layer in effect.
    fn current_eyes_frame(&self) -> (r: String)
        ensures
            r@ == self@.eyes_frame(),
    {
        or_empty(self.catalog.eyes_frame(named(self.effective_emotion()), self.effective_eyes()))
    }

    /// Tells observers of the current state and requests a render if the
    /// picture changed.
    fn broadcast(&mut self, out: &mut Vec<Effect>, now: u64)
        ensures
            final(self)@ == old(self)@.announced(now),
            effects(final(out)@) == effects(old(out)@) + old(self)@.announcement(),
    {
        let ghost m = self@;
        let ghost sent = effects(out@);
        let emotion = self.effective_emotion().to_owned();
        let mouth = self.effective_mouth();
        let eyes = self.effective_eyes();
        let eyes_frame = self.current_eyes_frame();
        let mouth_frame = or_empty(self.catalog.mouth_frame(mouth));
        let mouth_overridden = self.mouth_override.is_some();
        let eyes_overridden = self.eyes_override.is_some();
        let overridden = self.emotion_override.is_some() || mouth_overridden || eyes_overridden;
        let msg = ServerMessage::StateUpdate {
            emotion: emotion.clone(),
            mouth,
            eyes,
            volume: self.volume,
            overridden,
            mouth_overridden,
            eyes_overridden,
            eyes_frame: eyes_frame.clone(),
            mouth_frame: mouth_frame.clone(),
            default_emotion: self.default_emotion.clone(),
        };
        assert(msg@ == MessageModel::State(m.snapshot()));
        out.push(Effect::Broadcast(msg));
        assert(effects(out@) =~= sent.push(
            EffectModel::Broadcast(MessageModel::State(m.snapshot())),
        ));
        // Animation frames step on unseen while talking; they must not cause
        // renders of the same picture.
        let rest = mouth == MouthState::Closed;
        let anim_version: u64 = if rest {
            self.anim_version
        } else {
            self.last_frame_keys.2
        };
        let same = eyes_frame == self.last_frame_keys.0 && mouth_frame == self.last_frame_keys.1
            && anim_version == self.last_frame_keys.2;
        assert(same <==> m.picture() == m.frame_key);
        if !same {
            self.render_version = bump(self.render_version);
            let anim_frames = if rest {
                copy_range(&self.anim_frames, 0, self.anim_frames.len())
            } else {
                Vec::new()
            };
            let shown = match named(emotion.as_str()) {
                Some(e) => Some(e.to_owned()),
                None => None,
            };
            let request = RenderRequest {
                emotion: shown,
                mouth,
                eyes,
                anim_frames,
                version: self.render_version,
            };
            assert(request@ =~= m.request(next_count(m.version)));
            let ghost before = effects(out@);
            out.push(Effect::Render(request));
            assert(effects(out@) =~= before.push(EffectModel::Render(request@)));
            self.last_frame_keys = (eyes_frame, mouth_frame, anim_version);
        }
        self.last_sent_emotion = emotion;
        self.last_sent_mouth = mouth;
        self.last_sent_eyes = eyes;
        self.last_vol_broadcast = now;
        assert(effects(out@) =~= sent + m.announcement());
        assert(self@ =~= m.announced(now));
    }

    fn set_volume(&mut self, v: Binary32, out: &mut Vec<Effect>, now: u64)
        ensures
            (final(self)@, effects(final(out)@)) == ({
                let s = old(self)@.step(StateCommand::SetVolume(v), now);
                (s.0, effects(old(out)@) + s.1)
            }),
    {
        let ghost m = self@;
        self.volume = v.clamp_unit();
        self.mouth = volume_to_mouth(self.volume, &self.mouth_config);
        assert(self@ =~= m.heard(v));
        let changed = !text::same_text(self.effective_emotion(), self.last_sent_emotion.as_str())
            || self.effective_mouth() != self.last_sent_mouth || self.effective_eyes()
            != self.last_sent_eyes;
        let due = now >= self.last_vol_broadcast && now - self.last_vol_broadcast
            >= VOLUME_BROADCAST_INTERVAL;
        if changed || due {
            self.broadcast(out, now);
        } else {
            assert(effects(out@) =~= effects(out@) + seq![]);
        }
    }

    fn trigger(&mut self, emotion: String, out: &mut Vec<Effect>, now: u64)
        ensures
            (final(self)@, effects(final(out)@)) == ({
                let s = old(self)@.step(StateCommand::TriggerEmotion(emotion), now);
                (s.0, effects(old(out)@) + s.1)
            }),
    {
        let ghost m = self@;
        let ghost sent = effects(out@);
        let key = text::to_lower(emotion.as_str());
        let secs: Option<Binary32> = match self.timers.get(key.as_str()) {
            Some(s) => Some(*s),
            None => None,
        };
        self.active_token = bump(self.active_token);
        if let Some(secs) = secs {
            let arm = Effect::ArmTimer { secs, token: self.active_token };
            out.push(arm);
            assert(effects(out@) =~= sent.push(arm@));
        }
        self.emotion_override = Some(emotion);
        assert(self@ =~= m.triggered(emotion@));
        self.broadcast(out, now);
        assert(effects(out@) =~= sent + m.step(StateCommand::TriggerEmotion(emotion), now).1);
    }

    fn blink(&mut self, eyes: EyeState, out: &mut Vec<Effect>, now: u64)
        ensures
            (final(self)@, effects(final(out)@)) == ({
                let s = old(self)@.blink_step(eyes, now);
                (s.0, effects(old(out)@) + s.1)
            }),
    {
        let ghost m = self@;
        assert(effects(out@) =~= effects(out@) + seq![]);
        if self.eyes_override.is_none() {
            let before = self.current_eyes_frame();
            self.eyes = eyes;
            assert(self@ =~= m.blinked(eyes));
            let after = self.current_eyes_frame();
            if after != before {
                self.broadcast(out, now);
            }
        }
    }

    fn animate(&mut self, instance: usize, frame: usize, out: &mut Vec<Effect>, now: u64)
        ensures
            (final(self)@, effects(final(out)@)) == ({
                let s = old(self)@.step(StateCommand::AnimFrame { instance, frame }, now);
                (s.0, effects(old(out)@) + s.1)
            }),
    {
        let ghost m = self@;
        assert(effects(out@) =~= effects(out@) + seq![]);
        if instance < self.anim_frames.len() {
            self.anim_frames[instance] = frame;
            self.anim_version = bump(self.anim_version);
            assert(self@ =~= m.animated(instance, frame));
            if self.effective_mouth() == MouthState::Closed {
                self.broadcast(out, now);
            }
        }
    }

    /// Applies one command at time `now` (in nanoseconds of a monotonic clock)
    /// and returns the effects to perform, in order.
    pub fn handle(&mut self, cmd: StateCommand, now: u64) -> (r: Vec<Effect>)
        ensures
            final(self)@ == old(self)@.step(cmd, now).0,
            effects(r@) == old(self)@.step(cmd, now).1,
    {
        let ghost m = self@;
        let mut out: Vec<Effect> = Vec::new();
        assert(effects(out@) =~= seq![]);
        assert forall|s: Seq<EffectModel>| #[trigger] (Seq::<EffectModel>::empty() + s) == s by {
            assert(Seq::<EffectModel>::empty() + s =~= s);
        }
        match cmd {
            StateCommand::SetVolume(v) => {
                self.set_volume(v, &mut out, now);
            },
            StateCommand::TriggerEmotion(emotion) => {
                self.trigger(emotion, &mut out, now);
            },
            StateCommand::ClearOverride => {
                self.emotion_override = None;
                assert(self@ =~= (Model { emotion_override: None, ..m }));
                self.broadcast(&mut out, now);
            },
            StateCommand::TimerClear(token) => {
                if token == self.active_token {
                    self.emotion_override = None;
                    assert(self@ =~= (Model { emotion_override: None, ..m }));
                    self.broadcast(&mut out, now);
                }
            },
            StateCommand::SetDefault(emotion) => {
                self.default_emotion = emotion;
                assert(self@ =~= (Model { default_emotion: emotion@, ..m }));
                self.broadcast(&mut out, now);
            },
            StateCommand::SetMouthOverride(mouth) => {
                self.mouth_override = Some(mouth);
                assert(self@ =~= (Model { mouth_override: Some(mouth), ..m }));
                self.broadcast(&mut out, now);
            },
            StateCommand::ClearMouthOverride => {
                self.mouth_override = None;
                assert(self@ =~= (Model { mouth_override: None, ..m }));
                self.broadcast(&mut out, now);
            },
            StateCommand::SetMouthConfig(config) => {
                self.mouth_config = config;
                self.mouth = volume_to_mouth(self.volume, &self.mouth_config);
                assert(self@ =~= m.reconfigured(config));
                out.push(Effect::Broadcast(ServerMessage::MouthConfigUpdate { config }));
                assert(effects(out@) =~= seq![
                    EffectModel::Broadcast(MessageModel::MouthConfig(config)),
                ]);
                self.broadcast(&mut out, now);
            },
            StateCommand::SetEnvelope(config) => {
                out.push(Effect::ApplyEnvelope(config));
                out.push(Effect::Broadcast(ServerMessage::EnvelopeUpdate { config }));
                assert(effects(out@) =~= m.step(cmd, now).1);
            },
            StateCommand::BlinkClose => {
                self.blink(EyeState::Closed, &mut out, now);
            },
            StateCommand::BlinkOpen => {
                self.blink(EyeState::Open, &mut out, now);
            },
            StateCommand::SetEyesOverride(eyes) => {
                self.eyes_override = Some(eyes);
                assert(self@ =~= (Model { eyes_override: Some(eyes), ..m }));
                self.broadcast(&mut out, now);
            },
            StateCommand::ClearEyesOverride => {
                self.eyes_override = None;
                assert(self@ =~= (Model { eyes_override: None, ..m }));
                self.broadcast(&mut out, now);
            },
            StateCommand::AnimFrame { instance, frame } => {
                self.animate(instance, frame, &mut out, now);
            },
            StateCommand::Shutdown => {},
        }
        out
    }
}

// ---------------------------------------------------------------------------
// Laws
// ---------------------------------------------------------------------------
/// A revert timer whose token is not the active one changes nothing and
/// causes nothing.
pub proof fn stale_timer_is_ignored(m: Model, token: u64, now: u64)
    requires
        token != m.token,
    ensures
        m.step(StateCommand::TimerClear(token), now) == (m, Seq::<EffectModel>::empty()),
{
}

/// A newer emotion cannot be undone by the timer of the one before it: after
/// two triggers, the clear of the first one's timer leaves the second in
/// effect.
pub proof fn newer_emotion_outlives_older_timer(
    m: Model,
    first: String,
    second: String,
    t1: u64,
    t2: u64,
    t3: u64,
)
    ensures
        ({
            let one = m.step(StateCommand::TriggerEmotion(first), t1).0;
            let two = one.step(StateCommand::TriggerEmotion(second), t2).0;
            let after = two.step(StateCommand::TimerClear(one.token), t3);
            &&& after == (two, Seq::<EffectModel>::empty())
            &&& two.shown_emotion() == second@
        }),
{
}

/// The state after a list of commands, each with its time.
pub open spec fn run(m: Model, cmds: Seq<(StateCommand, u64)>) -> Model
    decreases cmds.len(),
{
    if cmds.len() == 0 {
        m
    } else {
        run(m, cmds.drop_last()).step(cmds.last().0, cmds.last().1).0
    }
}

/// How many of the commands trigger an emotion.
pub open spec fn triggers(cmds: Seq<(StateCommand, u64)>) -> nat
    decreases cmds.len(),
{
    if cmds.len() == 0 {
        0
    } else if cmds.last().0 is TriggerEmotion {
        triggers(cmds.drop_last()) + 1
    } else {
        triggers(cmds.drop_last())
    }
}

/// The token counts the triggers, and nothing else moves it.
pub proof fn token_counts_triggers(m: Model, cmds: Seq<(StateCommand, u64)>)
    ensures
        run(m, cmds).token == (m.token + triggers(cmds)) % 0x1_0000_0000_0000_0000,
    decreases cmds.len(),
{
    if cmds.len() > 0 {
        token_counts_triggers(m, cmds.drop_last());
    }
}

/// A timer cannot undo an emotion that was triggered after it was armed: the
/// clear of a timer that carries the token of state `m` does nothing once
/// another emotion was triggered, whatever else came in between (short of the
/// token counting all the way round).
pub proof fn old_timers_undo_nothing_newer(m: Model, cmds: Seq<(StateCommand, u64)>, now: u64)
    requires
        0 < triggers(cmds) < 0x1_0000_0000_0000_0000,
    ensures
        run(m, cmds).step(StateCommand::TimerClear(m.token), now) == (
            run(m, cmds),
            Seq::<EffectModel>::empty(),
        ),
{
    token_counts_triggers(m, cmds);
}

/// After a volume or a mouth configuration came in, the microphone's mouth
/// follows from both by the same rule.
pub proof fn mouth_follows_volume_and_config(m: Model, v: Binary32, config: MouthConfig, now: u64)
    ensures
        ({
            let n = m.step(StateCommand::SetVolume(v), now).0;
            n.mouth == mouth_for(n.volume, m.mouth_config) && n.mouth_config == m.mouth_config
        }),
        ({
            let n = m.step(StateCommand::SetMouthConfig(config), now).0;
            n.mouth == mouth_for(m.volume, config) && n.volume == m.volume && n.mouth_config
                == config
        }),
{
}

/// An emotion with a timer reverts, in whatever case it is triggered: the
/// timer armed by the trigger carries the token that the trigger made active,
/// and its clear returns the avatar to the resting emotion.
pub proof fn own_timer_reverts(m: Model, emotion: String, t1: u64, t2: u64)
    requires
        m.timers.dom().contains(text::lowered(emotion@)),
    ensures
        ({
            let (on, armed) = m.step(StateCommand::TriggerEmotion(emotion), t1);
            let off = on.step(StateCommand::TimerClear(on.token), t2).0;
            &&& armed[0] == EffectModel::ArmTimer {
                secs: m.timers[text::lowered(emotion@)],
                token: on.token,
            }
            &&& on.shown_emotion() == emotion@
            &&& off.emotion_override is None
            &&& off.shown_emotion() == m.default_emotion
        }),
{
}

/// Every configured timer is there for every case variant of its name.
pub proof fn timers_count_in_any_case(
    l: Seq<(Seq<char>, Binary32)>,
    n: int,
    i: int,
    emotion: Seq<char>,
)
    requires
        0 <= i < n <= l.len(),
        text::lowered(emotion) == text::lowered(l[i].0),
    ensures
        timers_by_name(l, n).dom().contains(text::lowered(emotion)),
        (forall|j: int| i < j < n ==> text::lowered((#[trigger] l[j]).0) != text::lowered(l[i].0))
            ==> timers_by_name(l, n)[text::lowered(emotion)] == l[i].1,
    decreases n,
{
    if i < n - 1 {
        timers_count_in_any_case(l, n - 1, i, emotion);
        assert(l[n - 1] == l[n - 1]);
    }
}

/// Clearing the override after a trigger returns to the resting emotion.
pub proof fn clear_undoes_trigger(m: Model, emotion: String, t1: u64, t2: u64)
    ensures
        m.step(StateCommand::TriggerEmotion(emotion), t1).0.step(
            StateCommand::ClearOverride,
            t2,
        ).0.shown_emotion() == m.default_emotion,
{
}

/// Releasing a forced mouth shows again what the microphone asks for.
pub proof fn mouth_release_undoes_force(m: Model, mouth: MouthState, t1: u64, t2: u64)
    ensures
        ({
            let forced = m.step(StateCommand::SetMouthOverride(mouth), t1).0;
            let free = forced.step(StateCommand::ClearMouthOverride, t2).0;
            forced.shown_mouth() == mouth && free.shown_mouth() == m.mouth
        }),
{
}

/// Releasing forced eyes shows again what the blink scheduler asks for.
pub proof fn eyes_release_undoes_force(m: Model, eyes: EyeState, t1: u64, t2: u64)
    ensures
        ({
            let forced = m.step(StateCommand::SetEyesOverride(eyes), t1).0;
            let free = forced.step(StateCommand::ClearEyesOverride, t2).0;
            forced.shown_eyes() == eyes && free.shown_eyes() == m.eyes
        }),
{
}

/// A forced mouth wins over the microphone, whatever the volume; the volume
/// itself is still recorded.
pub proof fn mouth_override_wins(m: Model, mouth: MouthState, v: Binary32, now: u64)
    requires
        m.mouth_override == Some(mouth),
    ensures
        ({
            let after = m.step(StateCommand::SetVolume(v), now).0;
            after.shown_mouth() == mouth && after.volume == v.unit_clamped()
        }),
{
}

/// An eyes override masks blinks entirely.
pub proof fn eyes_override_masks_blinks(m: Model, now: u64)
    requires
        m.eyes_override is Some,
    ensures
        m.step(StateCommand::BlinkClose, now) == (m, Seq::<EffectModel>::empty()),
        m.step(StateCommand::BlinkOpen, now) == (m, Seq::<EffectModel>::empty()),
{
}

/// Without an eyes override every blink shows, whatever the emotion: the eyes
/// close and open with the scheduler, nothing else about the avatar moves, and
/// where that changes the eye layer an update tells of the new eyes.
pub proof fn blinks_show_without_an_override(m: Model, now: u64)
    requires
        m.eyes_override is None,
    ensures
        ({
            let (after, e) = m.step(StateCommand::BlinkClose, now);
            &&& after.shown_eyes() == EyeState::Closed
            &&& after.shown_emotion() == m.shown_emotion()
            &&& after.shown_mouth() == m.shown_mouth()
            &&& after.eyes_frame() != m.eyes_frame() ==> e.len() > 0 && e[0] == told_state(
                after.snapshot(),
            ) && after.snapshot().eyes == EyeState::Closed
        }),
        ({
            let (after, e) = m.step(StateCommand::BlinkOpen, now);
            &&& after.shown_eyes() == EyeState::Open
            &&& after.shown_emotion() == m.shown_emotion()
            &&& after.shown_mouth() == m.shown_mouth()
            &&& after.eyes_frame() != m.eyes_frame() ==> e.len() > 0 && e[0] == told_state(
                after.snapshot(),
            ) && after.snapshot().eyes == EyeState::Open
        }),
{
    announcing_changes_nothing_shown(m.blinked(EyeState::Closed), now, 0);
    announcing_changes_nothing_shown(m.blinked(EyeState::Open), now, 0);
}

/// Where the expression in effect has no frame of its own for a blink, a blink
/// is not announced.
pub proof fn blink_without_art_is_silent(m: Model, now: u64)
    requires
        crate::assets::expression(m.catalog.0, named_emotion(m.shown_emotion())).closed is None,
        crate::assets::expression(m.catalog.0, named_emotion(m.shown_emotion())).open is Some,
    ensures
        m.step(StateCommand::BlinkClose, now).1 == Seq::<EffectModel>::empty(),
        m.step(StateCommand::BlinkOpen, now).1 == Seq::<EffectModel>::empty(),
{
}

/// Both states have the same volume, mouth configuration and microphone's
/// mouth.
pub open spec fn same_hearing(a: Model, b: Model) -> bool {
    a.volume == b.volume && a.mouth_config == b.mouth_config && a.mouth == b.mouth
}

/// Both states have the same catalog, timers and number of animation
/// instances.
pub open spec fn same_fixed_parts(a: Model, b: Model) -> bool {
    a.catalog == b.catalog && a.timers == b.timers && a.anim_frames.len() == b.anim_frames.len()
}

/// A command either announces a state `n` of the old version, after effects of
/// other kinds, or causes effects of other kinds only.
proof fn step_shape(m: Model, cmd: StateCommand, now: u64) -> (r: (bool, Seq<EffectModel>, Model))
    ensures
        forall|i: int|
            0 <= i < r.1.len() ==> !((#[trigger] r.1[i]) is Render) && !(r.1[i] matches EffectModel::Broadcast(
                msg,
            ) && msg is State),
        m.step(cmd, now).1 == r.1 + (if r.0 {
            r.2.announcement()
        } else {
            seq![]
        }),
        m.step(cmd, now).0 == (if r.0 {
            r.2.announced(now)
        } else {
            r.2
        }),
        r.2.version == m.version,
        !(cmd is SetVolume) && !(cmd is SetMouthConfig) ==> same_hearing(r.2, m),
        same_fixed_parts(r.2, m),
        is_discrete(cmd) ==> r.0,
{
    let (after, e) = m.step(cmd, now);
    let none = Seq::<EffectModel>::empty();
    let r = match cmd {
        StateCommand::SetVolume(v) => {
            let n = m.heard(v);
            (n.differs_from_sent() || n.refresh_due(now), none, n)
        },
        StateCommand::TriggerEmotion(emotion) => {
            let n = m.triggered(emotion@);
            let key = text::lowered(emotion@);
            let timer = if m.timers.dom().contains(key) {
                seq![EffectModel::ArmTimer { secs: m.timers[key], token: n.token }]
            } else {
                none
            };
            (true, timer, n)
        },
        StateCommand::ClearOverride => (true, none, Model { emotion_override: None, ..m }),
        StateCommand::TimerClear(token) => if token == m.token {
            (true, none, Model { emotion_override: None, ..m })
        } else {
            (false, none, m)
        },
        StateCommand::SetDefault(emotion) => (true, none, Model { default_emotion: emotion@, ..m }),
        StateCommand::SetMouthOverride(mouth) => (
            true,
            none,
            Model { mouth_override: Some(mouth), ..m },
        ),
        StateCommand::ClearMouthOverride => (true, none, Model { mouth_override: None, ..m }),
        StateCommand::SetMouthConfig(config) => (
            true,
            seq![EffectModel::Broadcast(MessageModel::MouthConfig(config))],
            m.reconfigured(config),
        ),
        StateCommand::SetEnvelope(config) => (false, e, m),
        StateCommand::BlinkClose => if m.eyes_override is Some {
            (false, none, m)
        } else {
            let n = m.blinked(EyeState::Closed);
            (n.eyes_frame() != m.eyes_frame(), none, n)
        },
        StateCommand::BlinkOpen => if m.eyes_override is Some {
            (false, none, m)
        } else {
            let n = m.blinked(EyeState::Open);
            (n.eyes_frame() != m.eyes_frame(), none, n)
        },
        StateCommand::SetEyesOverride(eyes) => (true, none, Model { eyes_override: Some(eyes), ..m }),
        StateCommand::ClearEyesOverride => (true, none, Model { eyes_override: None, ..m }),
        StateCommand::AnimFrame { instance, frame } => if instance < m.anim_frames.len() {
            let n = m.animated(instance, frame);
            (n.at_rest(), none, n)
        } else {
            (false, none, m)
        },
        StateCommand::Shutdown => (false, none, m),
    };
    assert(e =~= r.1 + (if r.0 {
        r.2.announcement()
    } else {
        seq![]
    }));
    r
}

/// Telling observers of a state leaves what they are told, and what would be
/// drawn, as it is.
proof fn announcing_changes_nothing_shown(n: Model, now: u64, version: u64)
    ensures
        n.announced(now).snapshot() == n.snapshot(),
        n.announced(now).request(version) == n.request(version),
{
}

proof fn announced_parts(n: Model, now: u64)
    ensures
        ({
            let after = n.announced(now);
            let key = n.picture();
            &&& after.sent_emotion == n.shown_emotion() && after.sent_mouth == n.shown_mouth()
            &&& after.sent_eyes == n.shown_eyes() && after.sent_at == now
            &&& after.frame_key == key
            &&& after.anim_version == n.anim_version && after.token == n.token
            &&& key != n.frame_key ==> after.version == next_count(n.version) && n.announcement()
                == seq![
                told_state(n.snapshot()),
                EffectModel::Render(n.request(next_count(n.version))),
            ]
            &&& key == n.frame_key ==> after.version == n.version && n.announcement() == seq![
                told_state(n.snapshot()),
            ]
        }),
{
}

/// What holds of the effects `e` and the state `after` of any command of the
/// shape that [`step_shape`] finds.
proof fn shaped(
    first: Seq<EffectModel>,
    loud: bool,
    n: Model,
    now: u64,
    e: Seq<EffectModel>,
    after: Model,
)
    requires
        forall|i: int|
            0 <= i < first.len() ==> !((#[trigger] first[i]) is Render) && !(first[i] matches EffectModel::Broadcast(
                msg,
            ) && msg is State),
        e == first + (if loud {
            n.announcement()
        } else {
            seq![]
        }),
        after == (if loud {
            n.announced(now)
        } else {
            n
        }),
    ensures
        forall|i: int, a: AvatarModel|
            0 <= i < e.len() && #[trigger] e[i] == #[trigger] told_state(a) ==> a
                == after.snapshot(),
        forall|i: int|
            0 <= i < e.len() && (#[trigger] e[i]) is Render ==> {
                &&& after.version == next_count(n.version)
                &&& e[i] == EffectModel::Render(after.request(after.version))
            },
        (forall|i: int| 0 <= i < e.len() ==> !((#[trigger] e[i]) is Render)) ==> after.version
            == n.version,
{
    announcing_changes_nothing_shown(n, now, after.version);
    assert forall|i: int, a: AvatarModel|
        0 <= i < e.len() && #[trigger] e[i] == #[trigger] told_state(a) implies a
        == after.snapshot() by {
        if i < first.len() {
            assert(e[i] == first[i]);
        } else {
            assert(n.announcement()[i - first.len()] == e[i]);
        }
    }
    assert forall|i: int| 0 <= i < e.len() && (#[trigger] e[i]) is Render implies after.version
        == next_count(n.version) && e[i] == EffectModel::Render(after.request(after.version)) by {
        if i < first.len() {
            assert(e[i] == first[i]);
        } else {
            assert(n.announcement()[i - first.len()] == e[i]);
        }
    }
    if after.version != n.version {
        assert(n.announcement()[1] is Render);
        assert(e[first.len() as int + 1] == n.announcement()[1]);
    }
}

proof fn announcing_keeps_the_rest(n: Model, loud: bool, now: u64, after: Model, before: Model)
    requires
        after == (if loud {
            n.announced(now)
        } else {
            n
        }),
    ensures
        same_hearing(n, before) ==> same_hearing(after, before),
        same_fixed_parts(n, before) ==> same_fixed_parts(after, before),
{
}

/// Only a volume and a mouth configuration move the microphone's mouth.
pub proof fn nothing_else_moves_the_mouth(m: Model, cmd: StateCommand, now: u64)
    requires
        !(cmd is SetVolume),
        !(cmd is SetMouthConfig),
    ensures
        same_hearing(m.step(cmd, now).0, m),
{
    let (loud, first, n) = step_shape(m, cmd, now);
    announcing_keeps_the_rest(n, loud, now, m.step(cmd, now).0, m);
}

/// The broadcast of a state.
pub open spec fn told_state(a: AvatarModel) -> EffectModel {
    EffectModel::Broadcast(MessageModel::State(a))
}

/// A state update tells exactly the state that the command left behind, and
/// its `overridden` flag is set exactly when some override is.
pub proof fn updates_tell_the_state(m: Model, cmd: StateCommand, now: u64, i: int, a: AvatarModel)
    requires
        0 <= i < m.step(cmd, now).1.len(),
        m.step(cmd, now).1[i] == told_state(a),
    ensures
        a == m.step(cmd, now).0.snapshot(),
        a.overridden == (m.step(cmd, now).0.emotion_override is Some || a.mouth_overridden
            || a.eyes_overridden),
{
    let (loud, first, n) = step_shape(m, cmd, now);
    shaped(first, loud, n, now, m.step(cmd, now).1, m.step(cmd, now).0);
}

/// Volume drift that changes nothing visible within the throttle interval of
/// the last broadcast is not announced; it moves the volume and the
/// microphone's mouth and nothing else.
pub proof fn volume_drift_is_throttled(m: Model, v: Binary32, now: u64)
    requires
        !m.heard(v).differs_from_sent(),
        now < m.sent_at + VOLUME_BROADCAST_INTERVAL,
    ensures
        m.step(StateCommand::SetVolume(v), now) == (m.heard(v), Seq::<EffectModel>::empty()),
{
}

/// Once the throttle interval has passed, or when the visible state changes,
/// a volume is announced.
pub proof fn volume_is_announced_in_time(m: Model, v: Binary32, now: u64)
    requires
        m.heard(v).differs_from_sent() || now >= m.sent_at + VOLUME_BROADCAST_INTERVAL,
    ensures
        m.step(StateCommand::SetVolume(v), now).1.len() > 0,
        m.step(StateCommand::SetVolume(v), now).1[0] == EffectModel::Broadcast(
            MessageModel::State(m.heard(v).snapshot()),
        ),
{
}

/// A picture that was announced is not rendered again while it stays the
/// same: a volume that changes nothing visible causes no render.
pub proof fn volume_drift_never_renders(m: Model, v: Binary32, t1: u64, t2: u64, i: int)
    requires
        ({
            let told = m.announced(t1);
            &&& told.heard(v).shown_mouth() == told.shown_mouth()
            &&& 0 <= i < told.step(StateCommand::SetVolume(v), t2).1.len()
        }),
    ensures
        m.announced(t1).step(StateCommand::SetVolume(v), t2).1[i] is Broadcast,
{
    let told = m.announced(t1);
    assert(told.picture() == told.frame_key);
    assert(told.heard(v).picture() == told.picture());
}

/// While talking, animation frames advance unseen; at rest each advance is
/// announced and rendered with the new frames.
pub proof fn animation_shows_only_at_rest(m: Model, instance: usize, frame: usize, now: u64)
    requires
        instance < m.anim_frames.len(),
    ensures
        !m.at_rest() ==> m.step(StateCommand::AnimFrame { instance, frame }, now)
            == (m.animated(instance, frame), Seq::<EffectModel>::empty()),
        m.at_rest() && next_count(m.anim_version) != m.frame_key.2 ==> ({
            let s = m.step(StateCommand::AnimFrame { instance, frame }, now);
            &&& s.1.len() == 2
            &&& s.1[1] matches EffectModel::Render(r) && r.anim_frames == m.anim_frames.update(
                instance as int,
                frame,
            )
        }),
{
}

/// A render while talking carries no animation frames.
pub proof fn talking_renders_no_animation(
    m: Model,
    cmd: StateCommand,
    now: u64,
    i: int,
    r: RenderModel,
)
    requires
        0 <= i < m.step(cmd, now).1.len(),
        m.step(cmd, now).1[i] == EffectModel::Render(r),
        r.mouth != MouthState::Closed,
    ensures
        r.anim_frames == Seq::<usize>::empty(),
{
    let (loud, first, n) = step_shape(m, cmd, now);
    shaped(first, loud, n, now, m.step(cmd, now).1, m.step(cmd, now).0);
}

/// A render request carries the next version and draws the state that the
/// command left behind; a command without one leaves the version alone.
pub proof fn renders_are_numbered(m: Model, cmd: StateCommand, now: u64)
    ensures
        ({
            let (after, e) = m.step(cmd, now);
            &&& forall|i: int|
                0 <= i < e.len() && (#[trigger] e[i]) is Render ==> {
                    &&& after.version == next_count(m.version)
                    &&& e[i] == EffectModel::Render(after.request(after.version))
                }
            &&& (forall|i: int| 0 <= i < e.len() ==> !((#[trigger] e[i]) is Render)) ==> after.version
                == m.version
        }),
{
    let (loud, first, n) = step_shape(m, cmd, now);
    shaped(first, loud, n, now, m.step(cmd, now).1, m.step(cmd, now).0);
}

/// An animation instance that does not exist is ignored.
pub proof fn unknown_instance_is_ignored(m: Model, instance: usize, frame: usize, now: u64)
    requires
        instance >= m.anim_frames.len(),
    ensures
        m.step(StateCommand::AnimFrame { instance, frame }, now) == (
            m,
            Seq::<EffectModel>::empty(),
        ),
{
}

/// Every volume is kept in `[0, 1]`, unless it is not a number.
pub proof fn volume_stays_in_range(m: Model, v: Binary32, now: u64)
    requires
        !v.is_nan(),
    ensures
        m.step(StateCommand::SetVolume(v), now).0.volume.in_range(0, binary32::ONE),
{
    binary32::clamped_in_unit(v);
}

/// The body never changes, and no command touches the catalog, the timers or
/// the number of animation instances.
pub proof fn fixed_parts_stay(m: Model, cmd: StateCommand, now: u64)
    ensures
        same_fixed_parts(m.step(cmd, now).0, m),
{
    let (loud, first, n) = step_shape(m, cmd, now);
    announcing_keeps_the_rest(n, loud, now, m.step(cmd, now).0, m);
}

/// The commands that a user gives are announced at once, whatever was sent
/// before.
pub open spec fn is_discrete(cmd: StateCommand) -> bool {
    match cmd {
        StateCommand::TriggerEmotion(_)
        | StateCommand::ClearOverride
        | StateCommand::SetDefault(_)
        | StateCommand::SetMouthOverride(_)
        | StateCommand::ClearMouthOverride
        | StateCommand::SetMouthConfig(_)
        | StateCommand::SetEyesOverride(_)
        | StateCommand::ClearEyesOverride => true,
        _ => false,
    }
}

proof fn announcement_is_told(
    first: Seq<EffectModel>,
    n: Model,
    now: u64,
    e: Seq<EffectModel>,
    after: Model,
)
    requires
        e == first + n.announcement(),
        after == n.announced(now),
    ensures
        e.contains(told_state(after.snapshot())),
{
    announcing_changes_nothing_shown(n, now, 0);
    assert(n.announcement()[0] == told_state(n.snapshot()));
    assert(e[first.len() as int] == n.announcement()[0]);
}

/// A discrete command always sends a state update.
pub proof fn discrete_commands_are_announced(m: Model, cmd: StateCommand, now: u64)
    requires
        is_discrete(cmd),
    ensures
        m.step(cmd, now).1.contains(told_state(m.step(cmd, now).0.snapshot())),
{
    let (loud, first, n) = step_shape(m, cmd, now);
    announcement_is_told(first, n, now, m.step(cmd, now).1, m.step(cmd, now).0);
}

/// What shows is what is forced, and without that what the resting emotion,
/// the microphone and the blink scheduler ask for. An update tells of it and of
/// which parts are forced, with the URLs of the layers that the catalog has for
/// it; a render asks for the same, at rest with the animation frames.
pub proof fn what_shows_is_told_and_drawn(m: Model, version: u64)
    ensures
        ({
            let (s, r) = (m.snapshot(), m.request(version));
            let emotion = match m.emotion_override {
                Some(e) => e,
                None => m.default_emotion,
            };
            let mouth = match m.mouth_override {
                Some(o) => o,
                None => m.mouth,
            };
            let eyes = match m.eyes_override {
                Some(o) => o,
                None => m.eyes,
            };
            let expression = if emotion.len() == 0 {
                None
            } else {
                Some(emotion)
            };
            &&& s.emotion == emotion && r.emotion == expression
            &&& s.mouth == mouth && r.mouth == mouth
            &&& s.eyes == eyes && r.eyes == eyes
            &&& s.volume == m.volume && s.default_emotion == m.default_emotion
            &&& s.mouth_overridden == m.mouth_override.is_some()
            &&& s.eyes_overridden == m.eyes_override.is_some()
            &&& s.overridden == (m.emotion_override.is_some() || m.mouth_override.is_some()
                || m.eyes_override.is_some())
            &&& m.catalog.eyes_url(expression, eyes) matches Some(u) ==> s.eyes_frame == u
            &&& m.catalog.eyes_url(expression, eyes) is None ==> s.eyes_frame.len() == 0
            &&& m.catalog.mouth_url(mouth) matches Some(u) ==> s.mouth_frame == u
            &&& m.catalog.mouth_url(mouth) is None ==> s.mouth_frame.len() == 0
            &&& r.version == version
            &&& mouth == MouthState::Closed ==> r.anim_frames == m.anim_frames
            &&& mouth != MouthState::Closed ==> r.anim_frames.len() == 0
        }),
{
}

/// Every part of the state is moved by its own commands only, to what they
/// say, and by all others left as it was.
pub proof fn each_command_moves_its_own_part(m: Model, cmd: StateCommand, now: u64)
    ensures
        ({
            let after = m.step(cmd, now).0;
            &&& after.emotion_override == match cmd {
                StateCommand::TriggerEmotion(e) => Some(e@),
                StateCommand::ClearOverride => None,
                StateCommand::TimerClear(t) => if t == m.token {
                    None
                } else {
                    m.emotion_override
                },
                _ => m.emotion_override,
            }
            &&& after.token == (m.token + (if cmd is TriggerEmotion {
                1int
            } else {
                0int
            })) % 0x1_0000_0000_0000_0000
            &&& after.default_emotion == match cmd {
                StateCommand::SetDefault(e) => e@,
                _ => m.default_emotion,
            }
            &&& after.mouth_override == match cmd {
                StateCommand::SetMouthOverride(o) => Some(o),
                StateCommand::ClearMouthOverride => None,
                _ => m.mouth_override,
            }
            &&& after.eyes_override == match cmd {
                StateCommand::SetEyesOverride(o) => Some(o),
                StateCommand::ClearEyesOverride => None,
                _ => m.eyes_override,
            }
            &&& after.eyes == match cmd {
                StateCommand::BlinkClose if m.eyes_override is None => EyeState::Closed,
                StateCommand::BlinkOpen if m.eyes_override is None => EyeState::Open,
                _ => m.eyes,
            }
            &&& after.mouth_config == match cmd {
                StateCommand::SetMouthConfig(c) => c,
                _ => m.mouth_config,
            }
            &&& after.volume == match cmd {
                StateCommand::SetVolume(v) => v.unit_clamped(),
                _ => m.volume,
            }
            &&& after.mouth == match cmd {
                StateCommand::SetVolume(_) | StateCommand::SetMouthConfig(_) => mouth_for(
                    after.volume,
                    after.mouth_config,
                ),
                _ => m.mouth,
            }
            &&& match cmd {
                StateCommand::AnimFrame { instance, frame } if instance < m.anim_frames.len() =>
                after.anim_frames == m.anim_frames.update(instance as int, frame)
                    && after.anim_version == (m.anim_version + 1) % 0x1_0000_0000_0000_0000,
                _ => after.anim_frames == m.anim_frames && after.anim_version == m.anim_version,
            }
            &&& after.catalog == m.catalog && after.timers == m.timers
        }),
{
    match cmd {
        StateCommand::SetVolume(_) => {},
        StateCommand::TriggerEmotion(_) => {},
        StateCommand::AnimFrame { .. } => {},
        StateCommand::TimerClear(_) => {},
        _ => {},
    }
}

/// `e` and `after` are the effects and the state where, after the effects
/// `first`, the new state is told (if `due`) and drawn (if its picture is new).
#[verifier::opaque]
spec fn in_order(
    m: Model,
    first: Seq<EffectModel>,
    due: bool,
    now: u64,
    after: Model,
    e: Seq<EffectModel>,
) -> bool {
    let none = Seq::<EffectModel>::empty();
    let s = after.snapshot();
    let key = (
        s.eyes_frame,
        s.mouth_frame,
        if s.mouth == MouthState::Closed {
            after.anim_version
        } else {
            m.frame_key.2
        },
    );
    let told = if due {
        seq![told_state(s)]
    } else {
        none
    };
    let drawn = if due && key != m.frame_key {
        seq![EffectModel::Render(after.request(after.version))]
    } else {
        none
    };
    &&& e == first + told + drawn
    &&& after.version == (m.version + drawn.len()) % 0x1_0000_0000_0000_0000
    &&& due ==> after.sent_emotion == s.emotion && after.sent_mouth == s.mouth && after.sent_eyes
        == s.eyes && after.sent_at == now && after.frame_key == key
    &&& !due ==> after.sent_emotion == m.sent_emotion && after.sent_mouth == m.sent_mouth
        && after.sent_eyes == m.sent_eyes && after.sent_at == m.sent_at && after.frame_key
        == m.frame_key
}

/// Both states were last told and drawn alike.
spec fn same_sent(a: Model, b: Model) -> bool {
    a.version == b.version && a.frame_key == b.frame_key && a.sent_emotion == b.sent_emotion
        && a.sent_mouth == b.sent_mouth && a.sent_eyes == b.sent_eyes && a.sent_at == b.sent_at
}

proof fn loud_in_order(
    m: Model,
    n: Model,
    first: Seq<EffectModel>,
    now: u64,
    after: Model,
    e: Seq<EffectModel>,
)
    requires
        same_sent(n, m),
        after == n.announced(now),
        e =~= first + n.announcement(),
    ensures
        in_order(m, first, true, now, after, e),
        after.snapshot() == n.snapshot(),
        after.token == n.token,
{
    reveal(in_order);
    announced_parts(n, now);
    announcing_changes_nothing_shown(n, now, n.announced(now).version);
    let none = Seq::<EffectModel>::empty();
    let s = n.snapshot();
    if n.picture() != n.frame_key {
        let r = EffectModel::Render(n.request(n.announced(now).version));
        assert(first + n.announcement() =~= first + seq![told_state(s)] + seq![r]);
    } else {
        assert(first + n.announcement() =~= first + seq![told_state(s)] + none);
    }
}

proof fn silent_in_order(m: Model, first: Seq<EffectModel>, now: u64, n: Model)
    requires
        same_sent(n, m),
    ensures
        in_order(m, first, false, now, n, first),
{
    reveal(in_order);
    assert(first =~= first + Seq::<EffectModel>::empty() + Seq::<EffectModel>::empty());
}

proof fn volume_in_order(m: Model, v: Binary32, now: u64)
    ensures
        ({
            let (after, e) = m.step(StateCommand::SetVolume(v), now);
            let s = after.snapshot();
            in_order(
                m,
                seq![],
                s.emotion != m.sent_emotion || s.mouth != m.sent_mouth || s.eyes != m.sent_eyes
                    || now - m.sent_at >= 50_000_000,
                now,
                after,
                e,
            )
        }),
{
    let n = m.heard(v);
    let (after, e) = m.step(StateCommand::SetVolume(v), now);
    if n.differs_from_sent() || n.refresh_due(now) {
        loud_in_order(m, n, seq![], now, after, e);
    } else {
        silent_in_order(m, seq![], now, n);
    }
}

proof fn trigger_in_order(m: Model, emotion: String, now: u64)
    ensures
        ({
            let (after, e) = m.step(StateCommand::TriggerEmotion(emotion), now);
            let key = text::lowered(emotion@);
            let first = if m.timers.contains_key(key) {
                seq![EffectModel::ArmTimer { secs: m.timers[key], token: after.token }]
            } else {
                seq![]
            };
            in_order(m, first, true, now, after, e)
        }),
{
    let n = m.triggered(emotion@);
    let key = text::lowered(emotion@);
    let first = if m.timers.contains_key(key) {
        seq![EffectModel::ArmTimer { secs: m.timers[key], token: n.token }]
    } else {
        seq![]
    };
    let (after, e) = m.step(StateCommand::TriggerEmotion(emotion), now);
    loud_in_order(m, n, first, now, after, e);
}

proof fn discrete_in_order(m: Model, cmd: StateCommand, now: u64)
    requires
        is_discrete(cmd),
        !(cmd is TriggerEmotion),
        !(cmd is SetMouthConfig),
    ensures
        in_order(m, seq![], true, now, m.step(cmd, now).0, m.step(cmd, now).1),
{
    let n = match cmd {
        StateCommand::ClearOverride => Model { emotion_override: None, ..m },
        StateCommand::SetDefault(emotion) => Model { default_emotion: emotion@, ..m },
        StateCommand::SetMouthOverride(mouth) => Model { mouth_override: Some(mouth), ..m },
        StateCommand::ClearMouthOverride => Model { mouth_override: None, ..m },
        StateCommand::SetEyesOverride(eyes) => Model { eyes_override: Some(eyes), ..m },
        _ => Model { eyes_override: None, ..m },
    };
    loud_in_order(m, n, seq![], now, m.step(cmd, now).0, m.step(cmd, now).1);
}

proof fn blink_in_order(m: Model, eyes: EyeState, now: u64)
    ensures
        ({
            let (after, e) = m.blink_step(eyes, now);
            in_order(
                m,
                seq![],
                after.snapshot().eyes_frame != m.snapshot().eyes_frame,
                now,
                after,
                e,
            )
        }),
{
    let (after, e) = m.blink_step(eyes, now);
    let n = m.blinked(eyes);
    if m.eyes_override is Some {
        silent_in_order(m, seq![], now, m);
    } else if n.eyes_frame() != m.eyes_frame() {
        loud_in_order(m, n, seq![], now, after, e);
    } else {
        silent_in_order(m, seq![], now, n);
    }
}

proof fn frame_in_order(m: Model, instance: usize, frame: usize, now: u64)
    ensures
        ({
            let (after, e) = m.step(StateCommand::AnimFrame { instance, frame }, now);
            in_order(
                m,
                seq![],
                instance < m.anim_frames.len() && after.snapshot().mouth == MouthState::Closed,
                now,
                after,
                e,
            )
        }),
{
    let (after, e) = m.step(StateCommand::AnimFrame { instance, frame }, now);
    let n = m.animated(instance, frame);
    if instance >= m.anim_frames.len() {
        silent_in_order(m, seq![], now, m);
    } else if n.at_rest() {
        loud_in_order(m, n, seq![], now, after, e);
    } else {
        silent_in_order(m, seq![], now, n);
    }
}

proof fn rest_in_order(m: Model, cmd: StateCommand, now: u64)
    ensures
        ({
            let (after, e) = m.step(cmd, now);
            match cmd {
                StateCommand::SetMouthConfig(c) => in_order(
                    m,
                    seq![EffectModel::Broadcast(MessageModel::MouthConfig(c))],
                    true,
                    now,
                    after,
                    e,
                ),
                StateCommand::SetEnvelope(c) => in_order(
                    m,
                    seq![
                        EffectModel::ApplyEnvelope(c),
                        EffectModel::Broadcast(MessageModel::Envelope(c)),
                    ],
                    false,
                    now,
                    after,
                    e,
                ),
                StateCommand::TimerClear(t) => in_order(m, seq![], t == m.token, now, after, e),
                StateCommand::Shutdown => in_order(m, seq![], false, now, after, e),
                _ => true,
            }
        }),
{
    let (after, e) = m.step(cmd, now);
    match cmd {
        StateCommand::SetMouthConfig(c) => {
            let first = seq![EffectModel::Broadcast(MessageModel::MouthConfig(c))];
            loud_in_order(m, m.reconfigured(c), first, now, after, e);
        },
        StateCommand::TimerClear(t) if t == m.token => {
            loud_in_order(m, Model { emotion_override: None, ..m }, seq![], now, after, e);
        },
        _ => {
            silent_in_order(m, e, now, m);
        },
    }
}

/// The effects of a command, in order: first what belongs to the command alone
/// (the revert timer of an emotion that has one, the new mouth configuration,
/// the new envelope), then, where an update is due, the state that the command
/// left behind, and then a render of it if its picture differs from the one
/// drawn last. A volume is due when the visible state differs from what was
/// told last or fifty milliseconds have passed, a blink when it changes the eye
/// layer, an animation frame at rest, and a revert if it is not stale. What was
/// told and drawn is remembered.
pub proof fn effects_come_in_order(m: Model, cmd: StateCommand, now: u64)
    ensures
        ({
            let (after, e) = m.step(cmd, now);
            let none = Seq::<EffectModel>::empty();
            let first = match cmd {
                StateCommand::TriggerEmotion(n) => if m.timers.contains_key(text::lowered(n@)) {
                    seq![
                        EffectModel::ArmTimer {
                            secs: m.timers[text::lowered(n@)],
                            token: after.token,
                        },
                    ]
                } else {
                    none
                },
                StateCommand::SetMouthConfig(c) => seq![
                    EffectModel::Broadcast(MessageModel::MouthConfig(c)),
                ],
                StateCommand::SetEnvelope(c) => seq![
                    EffectModel::ApplyEnvelope(c),
                    EffectModel::Broadcast(MessageModel::Envelope(c)),
                ],
                _ => none,
            };
            let s = after.snapshot();
            let due = match cmd {
                StateCommand::SetVolume(_) => s.emotion != m.sent_emotion || s.mouth != m.sent_mouth
                    || s.eyes != m.sent_eyes || now - m.sent_at >= 50_000_000,
                StateCommand::BlinkClose | StateCommand::BlinkOpen => s.eyes_frame
                    != m.snapshot().eyes_frame,
                StateCommand::AnimFrame { instance, .. } => instance < m.anim_frames.len()
                    && s.mouth == MouthState::Closed,
                StateCommand::TimerClear(t) => t == m.token,
                StateCommand::SetEnvelope(_) | StateCommand::Shutdown => false,
                _ => true,
            };
            let key = (
                s.eyes_frame,
                s.mouth_frame,
                if s.mouth == MouthState::Closed {
                    after.anim_version
                } else {
                    m.frame_key.2
                },
            );
            let told = if due {
                seq![told_state(s)]
            } else {
                none
            };
            let drawn = if due && key != m.frame_key {
                seq![EffectModel::Render(after.request(after.version))]
            } else {
                none
            };
            &&& e == first + told + drawn
            &&& after.version == (m.version + drawn.len()) % 0x1_0000_0000_0000_0000
            &&& due ==> after.sent_emotion == s.emotion && after.sent_mouth == s.mouth
                && after.sent_eyes == s.eyes && after.sent_at == now && after.frame_key == key
            &&& !due ==> after.sent_emotion == m.sent_emotion && after.sent_mouth == m.sent_mouth
                && after.sent_eyes == m.sent_eyes && after.sent_at == m.sent_at && after.frame_key
                == m.frame_key
        }),
{
    reveal(in_order);
    match cmd {
        StateCommand::SetVolume(v) => {
            volume_in_order(m, v, now);
        },
        StateCommand::TriggerEmotion(emotion) => {
            trigger_in_order(m, emotion, now);
        },
        StateCommand::BlinkClose => {
            blink_in_order(m, EyeState::Closed, now);
        },
        StateCommand::BlinkOpen => {
            blink_in_order(m, EyeState::Open, now);
        },
        StateCommand::AnimFrame { instance, frame } => {
            frame_in_order(m, instance, frame, now);
        },
        StateCommand::SetMouthConfig(_)
        | StateCommand::SetEnvelope(_)
        | StateCommand::TimerClear(_)
        | StateCommand::Shutdown => {
            rest_in_order(m, cmd, now);
        },
        _ => {
            discrete_in_order(m, cmd, now);
        },
    }
}

/// The avatar starts at rest: nothing forced, the resting emotion, the mouth
/// closed, the eyes open, silence, and every animation at its first frame.
pub proof fn avatar_starts_at_rest(
    catalog: AssetCatalog,
    mouth_config: MouthConfig,
    timers: Map<Seq<char>, Binary32>,
    default_emotion: Seq<char>,
    anim_count: nat,
    now: u64,
)
    ensures
        ({
            let m = initial(catalog, mouth_config, timers, default_emotion, anim_count, now);
            let s = m.snapshot();
            &&& s.emotion == default_emotion && s.default_emotion == default_emotion
            &&& s.mouth == MouthState::Closed && s.eyes == EyeState::Open
            &&& s.volume.bits == 0
            &&& !s.overridden && !s.mouth_overridden && !s.eyes_overridden
            &&& m.catalog == catalog && m.mouth_config == mouth_config && m.timers == timers
            &&& m.anim_frames.len() == anim_count
            &&& forall|i: int| 0 <= i < anim_count ==> (#[trigger] m.anim_frames[i]) == 0
            &&& !m.differs_from_sent() && m.sent_at == now
        }),
{
}

/// There are timers for the configured names, in lower case, and for no others.
pub proof fn only_configured_timers_count(l: Seq<(Seq<char>, Binary32)>, n: int, key: Seq<char>)
    requires
        0 <= n <= l.len(),
        timers_by_name(l, n).dom().contains(key),
    ensures
        exists|i: int|
            0 <= i < n && text::lowered((#[trigger] l[i]).0) == key && timers_by_name(l, n)[key]
                == l[i].1,
    decreases n,
{
    if n > 0 {
        if text::lowered(l[n - 1].0) != key {
            only_configured_timers_count(l, n - 1, key);
            let i = choose|i: int|
                0 <= i < n - 1 && text::lowered((#[trigger] l[i]).0) == key && timers_by_name(
                    l,
                    n - 1,
                )[key] == l[i].1;
            assert(l[i] == l[i]);
        } else {
            assert(l[n - 1] == l[n - 1]);
        }
    }
}

/// A request and an effect ask for what they hold, part by part.
pub proof fn effects_ask_for_what_they_hold(e: Effect, r: RenderRequest)
    ensures
        e@ matches EffectModel::Broadcast(m) ==> (e matches Effect::Broadcast(n) && n@ == m),
        e@ matches EffectModel::Render(m) ==> (e matches Effect::Render(n) && n@ == m),
        e@ matches EffectModel::ArmTimer { secs, token } ==> e == (Effect::ArmTimer {
            secs,
            token,
        }),
        e@ matches EffectModel::ApplyEnvelope(c) ==> e == Effect::ApplyEnvelope(c),
        r@.emotion is None <==> r.emotion is None,
        r.emotion matches Some(s) ==> r@.emotion == Some(s@),
        r@.mouth == r.mouth && r@.eyes == r.eyes && r@.version == r.version,
        r@.anim_frames == r.anim_frames@,
{
}

} // verus!
