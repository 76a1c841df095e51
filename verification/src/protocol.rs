//! Avatar domain model: mouth levels, eye state, the layered asset catalog,
//! the tuning types, and the messages exchanged with observers and clients.
//!
//! The avatar is a stack of transparent layers of one canvas size: a static
//! body, an eye layer (`closed` is shown during a blink) and a mouth layer.
//! A mouth level is one of `closed < partial < medium < open`; only `closed`
//! and `open` are required, and the resolver snaps to the nearest available
//! level. An emotion is an optional named set of eye frames.
use crate::binary32::{Binary32, ONE};
use crate::text;
use crate::text::{concat2, concat3, same_text, to_lower};
use crate::textmap::TextMap;
use vstd::prelude::*;

verus! {

// ---------------------------------------------------------------------------
// Mouth levels
// ---------------------------------------------------------------------------
/// The four mouth-aperture levels, ordered from resting to fully open.
#[derive(Debug, Clone, Copy, PartialEq, Eq, Hash, Structural)]
pub enum MouthState {
    Closed,
    Partial,
    Medium,
    Open,
}

impl MouthState {
    /// Numeric rank in `[0, 3]`; higher means more open.
    pub open spec fn rank(self) -> u8 {
        match self {
            MouthState::Closed => 0,
            MouthState::Partial => 1,
            MouthState::Medium => 2,
            MouthState::Open => 3,
        }
    }

    /// The lower-case name used on disk, on the wire and in commands.
    pub open spec fn name_text(self) -> Seq<char> {
        match self {
            MouthState::Closed => "closed"@,
            MouthState::Partial => "partial"@,
            MouthState::Medium => "medium"@,
            MouthState::Open => "open"@,
        }
    }

    /// The level whose name is `s` up to ASCII case.
    pub open spec fn named(s: Seq<char>) -> Option<MouthState> {
        let l = text::lowered(s);
        if l == "closed"@ {
            Some(MouthState::Closed)
        } else if l == "partial"@ {
            Some(MouthState::Partial)
        } else if l == "medium"@ {
            Some(MouthState::Medium)
        } else if l == "open"@ {
            Some(MouthState::Open)
        } else {
            None
        }
    }

    /// Numeric rank in `[0, 3]`; higher means more open.
    pub fn level(self) -> (r: u8)
        ensures
            r == self.rank(),
            r <= 3,
    {
        match self {
            MouthState::Closed => 0,
            MouthState::Partial => 1,
            MouthState::Medium => 2,
            MouthState::Open => 3,
        }
    }

    /// The lower-case name used on disk, on the wire and in commands.
    pub fn name(self) -> (r: &'static str)
        ensures
            r@ == self.name_text(),
    {
        match self {
            MouthState::Closed => "closed",
            MouthState::Partial => "partial",
            MouthState::Medium => "medium",
            MouthState::Open => "open",
        }
    }

    /// Case-insensitive parse of a level name.
    pub fn from_str_ci(s: &str) -> (r: Option<MouthState>)
        ensures
            r == MouthState::named(s@),
    {
        let l = to_lower(s);
        if same_text(l.as_str(), "closed") {
            Some(MouthState::Closed)
        } else if same_text(l.as_str(), "partial") {
            Some(MouthState::Partial)
        } else if same_text(l.as_str(), "medium") {
            Some(MouthState::Medium)
        } else if same_text(l.as_str(), "open") {
            Some(MouthState::Open)
        } else {
            None
        }
    }
}

/// A level's own name parses back to the level, whatever its ASCII case.
pub proof fn mouth_name_parses_back(m: MouthState, s: Seq<char>)
    requires
        text::lowered(s) == m.name_text(),
    ensures
        MouthState::named(s) == Some(m),
{
    reveal_strlit("closed");
    reveal_strlit("partial");
    reveal_strlit("medium");
    reveal_strlit("open");
    assert("closed"@[0] == 'c');
    assert("open"@[0] == 'o');
    assert("partial"@[0] == 'p');
    assert("medium"@[0] == 'm');
}

/// Every level name is its own lower-case form, so a name parses back to its
/// level as it stands.
pub proof fn mouth_names_are_lower_case(m: MouthState)
    ensures
        text::lowered(m.name_text()) == m.name_text(),
        MouthState::named(m.name_text()) == Some(m),
{
    reveal_strlit("closed");
    reveal_strlit("partial");
    reveal_strlit("medium");
    reveal_strlit("open");
    assert(text::lowered(m.name_text()) =~= m.name_text());
    mouth_name_parses_back(m, m.name_text());
}

// ---------------------------------------------------------------------------
// Mouth configuration
// ---------------------------------------------------------------------------
/// Which mouth levels are active and the volume at which each engages.
///
/// `enabled` is indexed by [`MouthState::level`]. The lowest enabled level is
/// the resting mouth; each higher enabled level engages when the volume
/// reaches its threshold. Thresholds stay strictly ordered
/// `partial < medium < open` whichever levels are enabled.
#[derive(Debug, Clone, Copy, PartialEq)]
pub struct MouthConfig {
    pub enabled: [bool; 4],
    pub partial: Binary32,
    pub medium: Binary32,
    pub open: Binary32,
}

/// Why a [`MouthConfig`] is refused.
#[derive(Debug, Clone, Copy, PartialEq)]
pub enum MouthConfigError {
    /// No level is enabled.
    NothingEnabled,
    /// A threshold is not a finite number in `[0, 1]`.
    OutOfRange { value: Binary32 },
    /// The thresholds are not strictly ascending.
    NotAscending { partial: Binary32, medium: Binary32, open: Binary32 },
}

impl MouthConfig {
    /// The level is active.
    pub open spec fn has(self, level: MouthState) -> bool {
        self.enabled@[level.rank() as int]
    }

    /// The threshold of a level; `Closed` has none.
    pub open spec fn threshold_of(self, level: MouthState) -> Option<Binary32> {
        match level {
            MouthState::Partial => Some(self.partial),
            MouthState::Medium => Some(self.medium),
            MouthState::Open => Some(self.open),
            MouthState::Closed => None,
        }
    }

    /// A usable threshold: finite and in `[0, 1]`.
    pub open spec fn usable(v: Binary32) -> bool {
        v.finite() && v.in_range(0, ONE)
    }

    /// What [`MouthConfig::validate`] finds, checking enablement, then each
    /// threshold in turn, then their order.
    pub open spec fn verdict(self) -> Result<(), MouthConfigError> {
        if !(self.enabled@[0] || self.enabled@[1] || self.enabled@[2] || self.enabled@[3]) {
            Err(MouthConfigError::NothingEnabled)
        } else if !MouthConfig::usable(self.partial) {
            Err(MouthConfigError::OutOfRange { value: self.partial })
        } else if !MouthConfig::usable(self.medium) {
            Err(MouthConfigError::OutOfRange { value: self.medium })
        } else if !MouthConfig::usable(self.open) {
            Err(MouthConfigError::OutOfRange { value: self.open })
        } else if !(self.partial.lt(self.medium) && self.medium.lt(self.open)) {
            Err(
                MouthConfigError::NotAscending {
                    partial: self.partial,
                    medium: self.medium,
                    open: self.open,
                },
            )
        } else {
            Ok(())
        }
    }

    /// All four levels enabled with the given thresholds.
    pub fn all_enabled(partial: Binary32, medium: Binary32, open: Binary32) -> (r: MouthConfig)
        ensures
            forall|m: MouthState| r.has(m),
            r.partial == partial,
            r.medium == medium,
            r.open == open,
    {
        MouthConfig { enabled: [true, true, true, true], partial, medium, open }
    }

    /// True if the level is active.
    pub fn is_enabled(&self, level: MouthState) -> (r: bool)
        ensures
            r == self.has(level),
    {
        self.enabled[level.level() as usize]
    }

    /// Activation threshold for a level, or `None` for `Closed`, which is the
    /// default at low volume.
    pub fn threshold(&self, level: MouthState) -> (r: Option<Binary32>)
        ensures
            r == self.threshold_of(level),
    {
        match level {
            MouthState::Partial => Some(self.partial),
            MouthState::Medium => Some(self.medium),
            MouthState::Open => Some(self.open),
            MouthState::Closed => None,
        }
    }

    /// Enforces: at least one level enabled, all thresholds finite and in
    /// `[0, 1]`, strictly ordered `partial < medium < open`.
    pub fn validate(&self) -> (r: Result<(), MouthConfigError>)
        ensures
            r == self.verdict(),
    {
        if !(self.enabled[0] || self.enabled[1] || self.enabled[2] || self.enabled[3]) {
            return Err(MouthConfigError::NothingEnabled);
        }
        let values: [Binary32; 3] = [self.partial, self.medium, self.open];
        let mut i: usize = 0;
        while i < 3
            invariant
                i <= 3,
                values@ == seq![self.partial, self.medium, self.open],
                self.enabled@[0] || self.enabled@[1] || self.enabled@[2] || self.enabled@[3],
                forall|j: int| 0 <= j < i ==> MouthConfig::usable(#[trigger] values@[j]),
            decreases 3 - i,
        {
            let v = values[i];
            if !v.is_finite() || !v.within(0, ONE) {
                return Err(MouthConfigError::OutOfRange { value: v });
            }
            i = i + 1;
        }
        assert(MouthConfig::usable(values@[0]) && MouthConfig::usable(values@[1])
            && MouthConfig::usable(values@[2]));
        if !(self.partial.less(self.medium) && self.medium.less(self.open)) {
            return Err(
                MouthConfigError::NotAscending {
                    partial: self.partial,
                    medium: self.medium,
                    open: self.open,
                },
            );
        }
        Ok(())
    }
}

impl MouthConfigError {
    /// The numbers that the error text mentions, in order.
    pub open spec fn mentioned(self) -> Seq<Binary32> {
        match self {
            MouthConfigError::NothingEnabled => seq![],
            MouthConfigError::OutOfRange { value } => seq![value],
            MouthConfigError::NotAscending { partial, medium, open } => seq![
                partial,
                medium,
                open,
            ],
        }
    }

    /// The error text, given the decimal forms of the numbers it mentions.
    pub open spec fn text(self, shown: Seq<Seq<char>>) -> Seq<char> {
        match self {
            MouthConfigError::NothingEnabled => "at least one mouth level must be enabled"@,
            MouthConfigError::OutOfRange { .. } =>
            "thresholds must be finite and in [0.0, 1.0] (got "@ + shown[0] + ")"@,
            MouthConfigError::NotAscending { .. } =>
            "thresholds must satisfy partial < medium < open (got partial="@ + shown[0]
                + ", medium="@ + shown[1] + ", open="@ + shown[2] + ")"@,
        }
    }

    /// The numbers that the error text mentions, in order.
    pub fn numbers(&self) -> (r: Vec<Binary32>)
        ensures
            r@ == self.mentioned(),
    {
        let mut r: Vec<Binary32> = Vec::new();
        match self {
            MouthConfigError::NothingEnabled => {},
            MouthConfigError::OutOfRange { value } => {
                r.push(*value);
            },
            MouthConfigError::NotAscending { partial, medium, open } => {
                r.push(*partial);
                r.push(*medium);
                r.push(*open);
            },
        }
        assert(r@ =~= self.mentioned());
        r
    }

    /// The error text, given the decimal forms of [`MouthConfigError::numbers`].
    pub fn message(&self, shown: &Vec<String>) -> (r: String)
        requires
            shown@.len() == self.mentioned().len(),
        ensures
            r@ == self.text(text::texts(shown@)),
    {
        match self {
            MouthConfigError::NothingEnabled => "at least one mouth level must be enabled".to_owned(),
            MouthConfigError::OutOfRange { .. } => concat3(
                "thresholds must be finite and in [0.0, 1.0] (got ",
                shown[0].as_str(),
                ")",
            ),
            MouthConfigError::NotAscending { .. } => {
                let mut r = concat2(
                    "thresholds must satisfy partial < medium < open (got partial=",
                    shown[0].as_str(),
                );
                r.append(", medium=");
                r.append(shown[1].as_str());
                r.append(", open=");
                r.append(shown[2].as_str());
                r.append(")");
                r
            },
        }
    }
}

// ---------------------------------------------------------------------------
// Envelope configuration
// ---------------------------------------------------------------------------
/// The bits of `0.1`, the shortest time constant in milliseconds.
pub const MIN_ENVELOPE_MS: u32 = 0x3DCC_CCCD;

/// The bits of `2000.0`, the longest time constant in milliseconds.
pub const MAX_ENVELOPE_MS: u32 = 0x44FA_0000;

/// Audio envelope tuning: `attack_ms` is how fast the mouth opens when talk
/// starts, `release_ms` how gently it closes when talk ends.
#[derive(Debug, Clone, Copy, PartialEq)]
pub struct EnvelopeConfig {
    pub attack_ms: Binary32,
    pub release_ms: Binary32,
}

/// A time constant outside `[0.1, 2000]` ms.
#[derive(Debug, Clone, Copy, PartialEq)]
pub struct EnvelopeError {
    pub value: Binary32,
}

impl EnvelopeConfig {
    /// A usable time constant: finite and in `[0.1, 2000]` ms.
    pub open spec fn usable(v: Binary32) -> bool {
        v.finite() && v.in_range(MIN_ENVELOPE_MS, MAX_ENVELOPE_MS)
    }

    /// What [`EnvelopeConfig::validate`] finds: the first unusable value.
    pub open spec fn verdict(self) -> Result<(), EnvelopeError> {
        if !EnvelopeConfig::usable(self.attack_ms) {
            Err(EnvelopeError { value: self.attack_ms })
        } else if !EnvelopeConfig::usable(self.release_ms) {
            Err(EnvelopeError { value: self.release_ms })
        } else {
            Ok(())
        }
    }

    /// Enforces that both time constants are finite and in `[0.1, 2000]` ms.
    pub fn validate(&self) -> (r: Result<(), EnvelopeError>)
        ensures
            r == self.verdict(),
    {
        let values: [Binary32; 2] = [self.attack_ms, self.release_ms];
        let mut i: usize = 0;
        while i < 2
            invariant
                i <= 2,
                values@ == seq![self.attack_ms, self.release_ms],
                forall|j: int| 0 <= j < i ==> EnvelopeConfig::usable(#[trigger] values@[j]),
            decreases 2 - i,
        {
            let v = values[i];
            if !v.is_finite() || !v.within(MIN_ENVELOPE_MS, MAX_ENVELOPE_MS) {
                return Err(EnvelopeError { value: v });
            }
            i = i + 1;
        }
        assert(EnvelopeConfig::usable(values@[0]) && EnvelopeConfig::usable(values@[1]));
        Ok(())
    }
}

impl EnvelopeError {
    /// The error text, given the decimal form of the refused value.
    pub fn message(&self, shown: &str) -> (r: String)
        ensures
            r@ == "attack_ms/release_ms must be in [0.1, 2000] ms (got "@ + shown@ + ")"@,
    {
        concat3("attack_ms/release_ms must be in [0.1, 2000] ms (got ", shown, ")")
    }
}

// ---------------------------------------------------------------------------
// Eyes
// ---------------------------------------------------------------------------
/// Eye state. `Open` is the resting state; `Closed` is shown during a blink.
#[derive(Debug, Clone, Copy, PartialEq, Eq, Hash, Structural)]
pub enum EyeState {
    Open,
    Closed,
}

impl Default for EyeState {
    fn default() -> (r: EyeState)
        ensures
            r == EyeState::Open,
    {
        EyeState::Open
    }
}

impl EyeState {
    /// The lower-case name used on disk, on the wire and in commands.
    pub open spec fn name_text(self) -> Seq<char> {
        match self {
            EyeState::Open => "open"@,
            EyeState::Closed => "closed"@,
        }
    }

    /// The state whose name is `s` up to ASCII case.
    pub open spec fn named(s: Seq<char>) -> Option<EyeState> {
        let l = text::lowered(s);
        if l == "open"@ {
            Some(EyeState::Open)
        } else if l == "closed"@ {
            Some(EyeState::Closed)
        } else {
            None
        }
    }

    /// Case-insensitive parse of an eye state.
    pub fn from_str_ci(s: &str) -> (r: Option<EyeState>)
        ensures
            r == EyeState::named(s@),
    {
        let l = to_lower(s);
        if same_text(l.as_str(), "open") {
            Some(EyeState::Open)
        } else if same_text(l.as_str(), "closed") {
            Some(EyeState::Closed)
        } else {
            None
        }
    }
}

/// An eye state's own name parses back to the state, whatever its ASCII case.
pub proof fn eye_name_parses_back(e: EyeState, s: Seq<char>)
    requires
        text::lowered(s) == e.name_text(),
    ensures
        EyeState::named(s) == Some(e),
{
    reveal_strlit("closed");
    reveal_strlit("open");
    assert("closed"@[0] == 'c');
    assert("open"@[0] == 'o');
}

// ---------------------------------------------------------------------------
// Layers
// ---------------------------------------------------------------------------
/// A copy of an optional string.
pub fn copy_opt(o: &Option<String>) -> (r: Option<String>)
    ensures
        r == *o,
{
    match o {
        Some(s) => Some(s.clone()),
        None => None,
    }
}

/// The four mouth frames, as paths relative to the asset root.
#[derive(Debug)]
pub struct MouthLayers {
    pub closed: Option<String>,
    pub partial: Option<String>,
    pub medium: Option<String>,
    pub open: Option<String>,
}

impl Default for MouthLayers {
    fn default() -> (r: MouthLayers)
        ensures
            r.closed is None && r.partial is None && r.medium is None && r.open is None,
    {
        MouthLayers { closed: None, partial: None, medium: None, open: None }
    }
}

impl Clone for MouthLayers {
    fn clone(&self) -> (r: MouthLayers)
        ensures
            r == *self,
    {
        MouthLayers {
            closed: copy_opt(&self.closed),
            partial: copy_opt(&self.partial),
            medium: copy_opt(&self.medium),
            open: copy_opt(&self.open),
        }
    }
}

/// The eye frames of one expression: `open` is the resting frame and `closed`
/// (optional) is shown during a blink.
#[derive(Debug)]
pub struct EyeLayers {
    pub open: Option<String>,
    pub closed: Option<String>,
}

impl Default for EyeLayers {
    fn default() -> (r: EyeLayers)
        ensures
            r.open is None && r.closed is None,
    {
        EyeLayers { open: None, closed: None }
    }
}

impl Clone for EyeLayers {
    fn clone(&self) -> (r: EyeLayers)
        ensures
            r == *self,
    {
        EyeLayers { open: copy_opt(&self.open), closed: copy_opt(&self.closed) }
    }
}

/// The resolved asset catalog.
///
/// - `base` is stacked bottom-up and rendered statically.
/// - `default_eyes` is the resting expression.
/// - `emotions` maps an emotion name to its eye frames.
/// - `mouths` is shared across all emotions.
#[derive(Debug)]
pub struct LayerCatalog {
    pub base: Vec<String>,
    pub mouths: MouthLayers,
    pub default_eyes: EyeLayers,
    pub emotions: TextMap<EyeLayers>,
}

impl LayerCatalog {
    /// Both catalogs hold the same layers.
    pub open spec fn same_layers(self, other: LayerCatalog) -> bool {
        &&& self.base@ == other.base@
        &&& self.mouths == other.mouths
        &&& self.default_eyes == other.default_eyes
        &&& self.emotions.listing() == other.emotions.listing()
    }
}

impl Default for LayerCatalog {
    fn default() -> (r: LayerCatalog)
        ensures
            r.base@.len() == 0,
            r.mouths.closed is None && r.mouths.partial is None && r.mouths.medium is None
                && r.mouths.open is None,
            r.default_eyes.open is None && r.default_eyes.closed is None,
            r.emotions.listing().len() == 0,
    {
        LayerCatalog {
            base: Vec::new(),
            mouths: MouthLayers::default(),
            default_eyes: EyeLayers::default(),
            emotions: TextMap::new(),
        }
    }
}

impl Clone for LayerCatalog {
    fn clone(&self) -> (r: LayerCatalog)
        ensures
            r.same_layers(*self),
    {
        let mut base: Vec<String> = Vec::new();
        let mut i: usize = 0;
        while i < self.base.len()
            invariant
                i <= self.base@.len(),
                base@ == self.base@.take(i as int),
            decreases self.base@.len() - i,
        {
            base.push(self.base[i].clone());
            assert(self.base@.take(i + 1) =~= self.base@.take(i as int).push(self.base@[i as int]));
            i = i + 1;
        }
        assert(self.base@.take(i as int) =~= self.base@);
        let emotions = self.emotions.clone();
        assert(emotions.listing() =~= self.emotions.listing());
        LayerCatalog {
            base,
            mouths: self.mouths.clone(),
            default_eyes: self.default_eyes.clone(),
            emotions,
        }
    }
}

// ---------------------------------------------------------------------------
// Messages
// ---------------------------------------------------------------------------
/// What an observer sees of the avatar at one moment.
pub struct AvatarModel {
    pub emotion: Seq<char>,
    pub mouth: MouthState,
    pub eyes: EyeState,
    pub volume: Binary32,
    pub overridden: bool,
    pub mouth_overridden: bool,
    pub eyes_overridden: bool,
    pub eyes_frame: Seq<char>,
    pub mouth_frame: Seq<char>,
    pub default_emotion: Seq<char>,
}

/// Messages to observers of the avatar.
#[derive(Debug, Clone)]
pub enum ServerMessage {
    /// Sent first to every new client.
    Welcome {
        catalog: LayerCatalog,
        default_emotion: String,
        mouth_config: MouthConfig,
        envelope: EnvelopeConfig,
        latency: String,
        frame_width: u32,
        frame_height: u32,
    },
    /// Authoritative avatar state, posted on every visible change and
    /// throttled for volume-only drift.
    StateUpdate {
        emotion: String,
        mouth: MouthState,
        eyes: EyeState,
        volume: Binary32,
        overridden: bool,
        mouth_overridden: bool,
        eyes_overridden: bool,
        eyes_frame: String,
        mouth_frame: String,
        default_emotion: String,
    },
    /// Posted when the mouth-level configuration changes.
    MouthConfigUpdate { config: MouthConfig },
    /// Posted when the audio envelope changes.
    EnvelopeUpdate { config: EnvelopeConfig },
    /// Reply to a client whose request was refused.
    Error { message: String },
}

/// What a [`ServerMessage`] says.
pub enum MessageModel {
    Welcome {
        catalog: LayerCatalog,
        default_emotion: Seq<char>,
        mouth_config: MouthConfig,
        envelope: EnvelopeConfig,
        latency: Seq<char>,
        frame_width: u32,
        frame_height: u32,
    },
    State(AvatarModel),
    MouthConfig(MouthConfig),
    Envelope(EnvelopeConfig),
    Error(Seq<char>),
}

impl View for ServerMessage {
    type V = MessageModel;

    open spec fn view(&self) -> MessageModel {
        match *self {
            ServerMessage::Welcome {
                catalog,
                default_emotion,
                mouth_config,
                envelope,
                latency,
                frame_width,
                frame_height,
            } => MessageModel::Welcome {
                catalog,
                default_emotion: default_emotion@,
                mouth_config,
                envelope,
                latency: latency@,
                frame_width,
                frame_height,
            },
            ServerMessage::StateUpdate {
                emotion,
                mouth,
                eyes,
                volume,
                overridden,
                mouth_overridden,
                eyes_overridden,
                eyes_frame,
                mouth_frame,
                default_emotion,
            } => MessageModel::State(
                AvatarModel {
                    emotion: emotion@,
                    mouth,
                    eyes,
                    volume,
                    overridden,
                    mouth_overridden,
                    eyes_overridden,
                    eyes_frame: eyes_frame@,
                    mouth_frame: mouth_frame@,
                    default_emotion: default_emotion@,
                },
            ),
            ServerMessage::MouthConfigUpdate { config } => MessageModel::MouthConfig(config),
            ServerMessage::EnvelopeUpdate { config } => MessageModel::Envelope(config),
            ServerMessage::Error { message } => MessageModel::Error(message@),
        }
    }
}

/// The latest avatar state, as recorded for later queries.
#[derive(Debug)]
pub struct AvatarSnapshot {
    pub emotion: String,
    pub mouth: MouthState,
    pub eyes: EyeState,
    pub volume: Binary32,
    pub overridden: bool,
    pub mouth_overridden: bool,
    pub eyes_overridden: bool,
    pub eyes_frame: String,
    pub mouth_frame: String,
    pub default_emotion: String,
}

impl View for AvatarSnapshot {
    type V = AvatarModel;

    open spec fn view(&self) -> AvatarModel {
        AvatarModel {
            emotion: self.emotion@,
            mouth: self.mouth,
            eyes: self.eyes,
            volume: self.volume,
            overridden: self.overridden,
            mouth_overridden: self.mouth_overridden,
            eyes_overridden: self.eyes_overridden,
            eyes_frame: self.eyes_frame@,
            mouth_frame: self.mouth_frame@,
            default_emotion: self.default_emotion@,
        }
    }
}

impl Clone for AvatarSnapshot {
    fn clone(&self) -> (r: AvatarSnapshot)
        ensures
            r == *self,
    {
        AvatarSnapshot {
            emotion: self.emotion.clone(),
            mouth: self.mouth,
            eyes: self.eyes,
            volume: self.volume,
            overridden: self.overridden,
            mouth_overridden: self.mouth_overridden,
            eyes_overridden: self.eyes_overridden,
            eyes_frame: self.eyes_frame.clone(),
            mouth_frame: self.mouth_frame.clone(),
            default_emotion: self.default_emotion.clone(),
        }
    }
}

/// Requests from a control client.
#[derive(Debug, Clone)]
pub enum ClientMessage {
    Hello,
    TriggerEmotion { emotion: String },
    SetDefault { emotion: String },
    ClearOverride,
    SetMouthOverride { mouth: MouthState },
    ClearMouthOverride,
    SetMouthConfig { config: MouthConfig },
    SetEnvelope { config: EnvelopeConfig },
    SetEyesOverride { eyes: EyeState },
    ClearEyesOverride,
}

// ---------------------------------------------------------------------------
// Laws
// ---------------------------------------------------------------------------
/// A text names a mouth level exactly when it is the level's name up to ASCII
/// case.
pub proof fn only_level_names_are_levels(s: Seq<char>)
    ensures
        MouthState::named(s) == Some(MouthState::Closed) <==> text::lowered(s) == "closed"@,
        MouthState::named(s) == Some(MouthState::Partial) <==> text::lowered(s) == "partial"@,
        MouthState::named(s) == Some(MouthState::Medium) <==> text::lowered(s) == "medium"@,
        MouthState::named(s) == Some(MouthState::Open) <==> text::lowered(s) == "open"@,
{
    reveal_strlit("closed");
    reveal_strlit("partial");
    reveal_strlit("medium");
    reveal_strlit("open");
    assert("closed"@[0] == 'c' && "open"@[0] == 'o' && "partial"@[0] == 'p' && "medium"@[0]
        == 'm');
}

/// A text names an eye state exactly when it is the state's name up to ASCII
/// case.
pub proof fn only_eye_names_are_eyes(s: Seq<char>)
    ensures
        EyeState::named(s) == Some(EyeState::Open) <==> text::lowered(s) == "open"@,
        EyeState::named(s) == Some(EyeState::Closed) <==> text::lowered(s) == "closed"@,
{
    reveal_strlit("closed");
    reveal_strlit("open");
    assert("closed"@[0] == 'c' && "open"@[0] == 'o');
}

/// The levels stand in the order of their aperture, one place apart.
pub proof fn levels_ascend()
    ensures
        MouthState::Closed.rank() == 0,
        MouthState::Partial.rank() == MouthState::Closed.rank() + 1,
        MouthState::Medium.rank() == MouthState::Partial.rank() + 1,
        MouthState::Open.rank() == MouthState::Medium.rank() + 1,
{
}

/// The bits of the numbers from zero to one, either zero among them.
proof fn unit_bits(v: Binary32)
    ensures
        MouthConfig::usable(v) <==> v.bits <= 0x3F80_0000 || v.bits == 0x8000_0000,
{
    crate::binary32::order_is_by_the_bits(Binary32 { bits: 0 }, v);
    crate::binary32::order_is_by_the_bits(v, Binary32 { bits: 0 });
    crate::binary32::order_is_by_the_bits(v, Binary32 { bits: ONE });
    crate::binary32::order_is_by_the_bits(Binary32 { bits: ONE }, v);
}

/// A mouth configuration is accepted exactly when some level is enabled, every
/// threshold is a number from zero to one, and they ascend; and each error
/// names what is wrong, in this order.
pub proof fn mouth_configs_are_judged_in_order(c: MouthConfig)
    ensures
        ({
            let unit = |v: Binary32| v.bits <= 0x3F80_0000 || v.bits == 0x8000_0000;
            let some = c.enabled@[0] || c.enabled@[1] || c.enabled@[2] || c.enabled@[3];
            let all = unit(c.partial) && unit(c.medium) && unit(c.open);
            let ascending = c.partial.lt(c.medium) && c.medium.lt(c.open);
            &&& c.verdict() is Ok <==> some && all && ascending
            &&& c.verdict() == Err::<(), _>(MouthConfigError::NothingEnabled) <==> !some
            &&& c.verdict() matches Err(MouthConfigError::OutOfRange { value }) ==> some && !unit(
                value,
            ) && value == (if !unit(c.partial) {
                c.partial
            } else if !unit(c.medium) {
                c.medium
            } else {
                c.open
            })
            &&& c.verdict() matches Err(
                MouthConfigError::NotAscending { partial, medium, open },
            ) ==> some && all && !ascending && partial == c.partial && medium == c.medium && open
                == c.open
        }),
{
    unit_bits(c.partial);
    unit_bits(c.medium);
    unit_bits(c.open);
}

proof fn envelope_bits(v: Binary32)
    ensures
        EnvelopeConfig::usable(v) <==> 0x3DCC_CCCD <= v.bits <= 0x44FA_0000,
{
    crate::binary32::order_is_by_the_bits(Binary32 { bits: MIN_ENVELOPE_MS }, v);
    crate::binary32::order_is_by_the_bits(v, Binary32 { bits: MIN_ENVELOPE_MS });
    crate::binary32::order_is_by_the_bits(v, Binary32 { bits: MAX_ENVELOPE_MS });
}

/// An envelope is accepted exactly when both times lie between a tenth of a
/// millisecond and two seconds; the error gives the first that does not.
pub proof fn envelopes_are_judged_in_order(c: EnvelopeConfig)
    ensures
        ({
            let usable = |v: Binary32| 0x3DCC_CCCD <= v.bits <= 0x44FA_0000;
            &&& c.verdict() is Ok <==> usable(c.attack_ms) && usable(c.release_ms)
            &&& c.verdict() matches Err(e) ==> !usable(e.value) && e.value == (if !usable(
                c.attack_ms,
            ) {
                c.attack_ms
            } else {
                c.release_ms
            })
        }),
{
    envelope_bits(c.attack_ms);
    envelope_bits(c.release_ms);
}

/// A copy of a catalog has the same frames everywhere.
pub proof fn copies_show_the_same(a: LayerCatalog, b: LayerCatalog)
    requires
        a.same_layers(b),
    ensures
        a.base@ == b.base@,
        a.mouths.closed == b.mouths.closed && a.mouths.partial == b.mouths.partial
            && a.mouths.medium == b.mouths.medium && a.mouths.open == b.mouths.open,
        a.default_eyes.open == b.default_eyes.open && a.default_eyes.closed
            == b.default_eyes.closed,
        a.emotions@ == b.emotions@,
{
}

/// The text of an error mentions every number that it is about, in order.
pub proof fn mouth_errors_mention_the_values(e: MouthConfigError, shown: Seq<Seq<char>>, i: int)
    requires
        shown.len() == e.mentioned().len(),
    ensures
        0 <= i < shown.len() ==> text::occurs(e.text(shown), shown[i]),
        e is NothingEnabled ==> e.mentioned().len() == 0,
        e matches MouthConfigError::OutOfRange { value } ==> e.mentioned() == seq![value],
        e matches MouthConfigError::NotAscending { partial, medium, open } ==> e.mentioned()
            == seq![partial, medium, open],
{
    match e {
        MouthConfigError::OutOfRange { .. } => {
            text::parts_occur(
                "thresholds must be finite and in [0.0, 1.0] (got "@,
                shown[0],
                ")"@,
            );
        },
        MouthConfigError::NotAscending { .. } => {
            let a = "thresholds must satisfy partial < medium < open (got partial="@;
            let (b, c) = (", medium="@, ", open="@);
            let all = a + shown[0] + b + shown[1] + c + shown[2] + ")"@;
            text::parts_occur(a, shown[0], b + shown[1] + c + shown[2] + ")"@);
            text::parts_occur(a + shown[0] + b, shown[1], c + shown[2] + ")"@);
            text::parts_occur(a + shown[0] + b + shown[1] + c, shown[2], ")"@);
            assert(all =~= a + shown[0] + (b + shown[1] + c + shown[2] + ")"@));
            assert(all =~= a + shown[0] + b + shown[1] + (c + shown[2] + ")"@));
            assert(i == 0 || i == 1 || i == 2 || i < 0 || i >= 3);
        },
        _ => {},
    }
}

/// A message says what it holds, part by part.
pub proof fn messages_say_what_they_hold(m: ServerMessage, a: AvatarModel)
    ensures
        m@ == MessageModel::State(a) ==> (m matches ServerMessage::StateUpdate {
            emotion,
            mouth,
            eyes,
            volume,
            overridden,
            mouth_overridden,
            eyes_overridden,
            eyes_frame,
            mouth_frame,
            default_emotion,
        } && {
            &&& emotion@ == a.emotion && default_emotion@ == a.default_emotion
            &&& mouth == a.mouth && eyes == a.eyes && volume == a.volume
            &&& overridden == a.overridden
            &&& mouth_overridden == a.mouth_overridden && eyes_overridden == a.eyes_overridden
            &&& eyes_frame@ == a.eyes_frame && mouth_frame@ == a.mouth_frame
        }),
        m@ matches MessageModel::MouthConfig(c) ==> m == (ServerMessage::MouthConfigUpdate {
            config: c,
        }),
        m@ matches MessageModel::Envelope(c) ==> m == (ServerMessage::EnvelopeUpdate { config: c }),
        m@ matches MessageModel::Error(s) ==> (m matches ServerMessage::Error { message } && message@
            == s),
        m@ matches MessageModel::Welcome { default_emotion, latency, frame_width, frame_height, .. }
            ==> (m matches ServerMessage::Welcome {
            default_emotion: d,
            latency: l,
            frame_width: w,
            frame_height: h,
            ..
        } && d@ == default_emotion && l@ == latency && w == frame_width && h == frame_height),
{
}

/// A snapshot says what it holds, part by part.
pub proof fn snapshots_say_what_they_hold(s: AvatarSnapshot)
    ensures
        s@.emotion == s.emotion@ && s@.default_emotion == s.default_emotion@,
        s@.mouth == s.mouth && s@.eyes == s.eyes && s@.volume == s.volume,
        s@.overridden == s.overridden,
        s@.mouth_overridden == s.mouth_overridden && s@.eyes_overridden == s.eyes_overridden,
        s@.eyes_frame == s.eyes_frame@ && s@.mouth_frame == s.mouth_frame@,
{
}

} // verus!
