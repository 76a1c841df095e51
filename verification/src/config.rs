//! Strongly-typed configuration.
//!
//! The structs mirror the configuration file; keys that may be left out are
//! filled in by the `with_defaults` functions, and [`AppConfig::validate`]
//! enforces what must hold of the values.
use crate::binary32::{Binary32, ONE};
use crate::buffers::copy_range;
use crate::protocol::{MouthConfig, MouthConfigError, MouthState, MAX_ENVELOPE_MS, MIN_ENVELOPE_MS};
use crate::text;
use crate::text::{chars_of, concat2, concat3, parse_hex_pair, same_text};
use crate::textmap::TextMap;
use vstd::prelude::*;

verus! {

// ---------------------------------------------------------------------------
// Settings
// ---------------------------------------------------------------------------
/// Where the audio comes from.
#[derive(Debug, Clone, Copy, PartialEq, Eq, Structural)]
pub enum AudioMode {
    /// A microphone or another input device.
    Input,
    /// A monitor of the system output.
    Loopback,
}

impl Default for AudioMode {
    fn default() -> (r: AudioMode)
        ensures
            r == AudioMode::Input,
    {
        AudioMode::Input
    }
}

impl AudioMode {
    /// The mode with the given name.
    pub fn from_name(s: &str) -> (r: Option<AudioMode>)
        ensures
            r == (if s@ == "input"@ {
                Some(AudioMode::Input)
            } else if s@ == "loopback"@ {
                Some(AudioMode::Loopback)
            } else {
                None
            }),
    {
        if same_text(s, "input") {
            Some(AudioMode::Input)
        } else if same_text(s, "loopback") {
            Some(AudioMode::Loopback)
        } else {
            None
        }
    }
}

/// Audio latency preset: `Low` uses small buffers for a snappy mouth, `Stable`
/// larger ones for setups that glitch with small buffers.
#[derive(Debug, Clone, Copy, PartialEq, Eq, Structural)]
pub enum LatencyMode {
    Low,
    Stable,
}

impl Default for LatencyMode {
    fn default() -> (r: LatencyMode)
        ensures
            r == LatencyMode::Low,
    {
        LatencyMode::Low
    }
}

impl LatencyMode {
    /// Frames per buffer of the preset.
    pub open spec fn frames(self) -> u32 {
        match self {
            LatencyMode::Low => 256,
            LatencyMode::Stable => 1024,
        }
    }

    /// Preferred frame count per buffer of the preset.
    pub fn buffer_size(self) -> (r: u32)
        ensures
            r == self.frames(),
    {
        match self {
            LatencyMode::Low => 256,
            LatencyMode::Stable => 1024,
        }
    }

    /// The name of the preset.
    pub open spec fn name_text(self) -> Seq<char> {
        match self {
            LatencyMode::Low => "low"@,
            LatencyMode::Stable => "stable"@,
        }
    }

    /// The name of the preset.
    pub fn name(self) -> (r: &'static str)
        ensures
            r@ == self.name_text(),
    {
        match self {
            LatencyMode::Low => "low",
            LatencyMode::Stable => "stable",
        }
    }

    /// The preset with the given name.
    pub fn from_name(s: &str) -> (r: Option<LatencyMode>)
        ensures
            r == (if s@ == "low"@ {
                Some(LatencyMode::Low)
            } else if s@ == "stable"@ {
                Some(LatencyMode::Stable)
            } else {
                None
            }),
    {
        if same_text(s, "low") {
            Some(LatencyMode::Low)
        } else if same_text(s, "stable") {
            Some(LatencyMode::Stable)
        } else {
            None
        }
    }
}

/// The bits of `6.0`, the default attack in milliseconds.
pub const DEFAULT_ATTACK_MS: u32 = 0x40C0_0000;

/// The bits of `110.0`, the default release in milliseconds.
pub const DEFAULT_RELEASE_MS: u32 = 0x42DC_0000;

/// The value given, or the default.
pub open spec fn given<T>(o: Option<T>, default: T) -> T {
    match o {
        Some(v) => v,
        None => default,
    }
}

/// A number given, or the default one.
fn number(o: Option<Binary32>, default: u32) -> (r: Binary32)
    ensures
        r == given(o, Binary32 { bits: default }),
{
    match o {
        Some(v) => v,
        None => Binary32::from_bits(default),
    }
}

/// A text given, or the default one.
pub open spec fn given_text(o: Option<String>, default: Seq<char>) -> Seq<char> {
    match o {
        Some(s) => s@,
        None => default,
    }
}

fn text_or(o: Option<String>, default: &str) -> (r: String)
    ensures
        r@ == given_text(o, default@),
{
    match o {
        Some(s) => s,
        None => default.to_owned(),
    }
}

fn flag_or(o: Option<bool>, default: bool) -> (r: bool)
    ensures
        r == given(o, default),
{
    match o {
        Some(v) => v,
        None => default,
    }
}

/// Audio capture settings.
#[derive(Debug, Clone)]
pub struct AudioSettings {
    pub sample_rate: u32,
    /// Explicit buffer size; the latency preset decides where there is none.
    pub buffer_size: Option<u32>,
    pub latency: LatencyMode,
    /// Envelope attack in milliseconds.
    pub attack_ms: Binary32,
    /// Envelope release in milliseconds.
    pub release_ms: Binary32,
    pub mode: AudioMode,
    /// Device name; empty selects the system default.
    pub device: String,
}

impl AudioSettings {
    /// The settings with defaults for what is left out.
    pub fn with_defaults(
        sample_rate: u32,
        buffer_size: Option<u32>,
        latency: Option<LatencyMode>,
        attack_ms: Option<Binary32>,
        release_ms: Option<Binary32>,
        mode: Option<AudioMode>,
        device: Option<String>,
    ) -> (r: AudioSettings)
        ensures
            r.sample_rate == sample_rate,
            r.buffer_size == buffer_size,
            r.latency == given(latency, LatencyMode::Low),
            r.attack_ms == given(attack_ms, Binary32 { bits: DEFAULT_ATTACK_MS }),
            r.release_ms == given(release_ms, Binary32 { bits: DEFAULT_RELEASE_MS }),
            r.mode == given(mode, AudioMode::Input),
            r.device@ == given_text(device, ""@),
    {
        let latency = match latency {
            Some(l) => l,
            None => LatencyMode::default(),
        };
        let mode = match mode {
            Some(m) => m,
            None => AudioMode::default(),
        };
        AudioSettings {
            sample_rate,
            buffer_size,
            latency,
            attack_ms: number(attack_ms, DEFAULT_ATTACK_MS),
            release_ms: number(release_ms, DEFAULT_RELEASE_MS),
            mode,
            device: text_or(device, ""),
        }
    }

    /// The buffer size asked for: an explicit one, else the preset's.
    pub open spec fn buffer_frames(self) -> u32 {
        given(self.buffer_size, self.latency.frames())
    }

    /// The buffer size asked for: an explicit one, else the preset's.
    pub fn effective_buffer_size(&self) -> (r: u32)
        ensures
            r == self.buffer_frames(),
    {
        match self.buffer_size {
            Some(n) => n,
            None => self.latency.buffer_size(),
        }
    }
}

/// Mouth thresholds and active levels.
#[derive(Debug, Clone)]
pub struct ThresholdSettings {
    pub partial: Binary32,
    pub medium: Binary32,
    pub open: Binary32,
    /// The active mouth levels by name; empty means all four.
    pub enabled: Vec<String>,
}

/// Why the thresholds give no mouth configuration.
#[derive(Debug)]
pub enum ThresholdError {
    /// No mouth level has this name.
    UnknownLevel(String),
    /// The configuration is refused.
    Refused(MouthConfigError),
}

impl ThresholdError {
    /// The error text, given the numbers it mentions in decimal form and the
    /// name it mentions in quotes.
    pub open spec fn text(self, shown: Seq<Seq<char>>, quoted: Seq<char>) -> Seq<char> {
        match self {
            ThresholdError::UnknownLevel(_) =>
            "unknown mouth level in [thresholds].enabled: "@ + quoted
                + " (expected closed|partial|medium|open)"@,
            ThresholdError::Refused(e) => "[thresholds] "@ + e.text(shown),
        }
    }

    /// The error text, given the decimal forms of the refused configuration's
    /// numbers and the unknown name in quotes.
    pub fn message(&self, shown: &Vec<String>, quoted: &str) -> (r: String)
        requires
            self matches ThresholdError::Refused(e) ==> shown@.len() == e.mentioned().len(),
        ensures
            r@ == self.text(text::texts(shown@), quoted@),
    {
        match self {
            ThresholdError::UnknownLevel(_) => concat3(
                "unknown mouth level in [thresholds].enabled: ",
                quoted,
                " (expected closed|partial|medium|open)",
            ),
            ThresholdError::Refused(e) => {
                let m = e.message(shown);
                concat2("[thresholds] ", m.as_str())
            },
        }
    }
}

/// Some of the names is that of the level.
pub open spec fn names_level(names: Seq<String>, level: MouthState) -> bool {
    exists|i: int| 0 <= i < names.len() && MouthState::named((#[trigger] names[i])@) == Some(level)
}

/// The levels that the names enable: all where there are no names.
pub open spec fn enables(names: Seq<String>, level: MouthState) -> bool {
    names.len() == 0 || names_level(names, level)
}

/// The first of the names that is no level's name.
pub open spec fn unknown_level(names: Seq<String>) -> Option<String>
    decreases names.len(),
{
    if names.len() == 0 {
        None
    } else if let Some(s) = unknown_level(names.drop_last()) {
        Some(s)
    } else if MouthState::named(names.last()@) is None {
        Some(names.last())
    } else {
        None
    }
}

proof fn unknown_level_stays(names: Seq<String>, n: int)
    requires
        0 <= n <= names.len(),
        unknown_level(names.take(n)) is Some,
    ensures
        unknown_level(names) == unknown_level(names.take(n)),
    decreases names.len() - n,
{
    if n < names.len() {
        assert(names.take(n + 1).drop_last() =~= names.take(n));
        unknown_level_stays(names, n + 1);
    } else {
        assert(names.take(n) =~= names);
    }
}

impl ThresholdSettings {
    /// `c` has the thresholds and the active levels of the settings.
    pub open spec fn gives(self, c: MouthConfig) -> bool {
        &&& c.partial == self.partial
        &&& c.medium == self.medium
        &&& c.open == self.open
        &&& forall|l: MouthState| #[trigger] c.has(l) == enables(self.enabled@, l)
    }

    /// Builds the mouth configuration, checking the level names and then the
    /// configuration.
    pub fn to_mouth_config(&self) -> (r: Result<MouthConfig, ThresholdError>)
        ensures
            match r {
                Ok(c) => {
                    &&& unknown_level(self.enabled@) is None
                    &&& self.gives(c)
                    &&& c.verdict() is Ok
                },
                Err(ThresholdError::UnknownLevel(s)) => unknown_level(self.enabled@) == Some(s),
                Err(ThresholdError::Refused(e)) => {
                    &&& unknown_level(self.enabled@) is None
                    &&& exists|c: MouthConfig| self.gives(c) && #[trigger] c.verdict() == Err::<
                        (),
                        _,
                    >(e)
                },
            },
    {
        let n: usize = self.enabled.len();
        let mut enabled: [bool; 4] = [n == 0, n == 0, n == 0, n == 0];
        let ghost names = self.enabled@;
        let mut i: usize = 0;
        assert(names.take(0) =~= Seq::<String>::empty());
        while i < n
            invariant
                i <= n,
                n == names.len(),
                names == self.enabled@,
                unknown_level(names.take(i as int)) is None,
                forall|l: MouthState|
                    enabled@[#[trigger] l.rank() as int] == (n == 0 || names_level(
                        names.take(i as int),
                        l,
                    )),
            decreases n - i,
        {
            assert(names.take(i + 1).drop_last() =~= names.take(i as int));
            match MouthState::from_str_ci(self.enabled[i].as_str()) {
                Some(level) => {
                    let ghost before = enabled@;
                    let k: usize = level.level() as usize;
                    enabled[k] = true;
                    proof {
                        let (a, b) = (names.take(i as int), names.take(i + 1));
                        assert forall|l: MouthState|
                            enabled@[#[trigger] l.rank() as int] == (n == 0 || names_level(b, l)) by {
                            if l == level {
                                assert(b[i as int] == names[i as int]);
                                assert(names_level(b, l));
                            } else {
                                assert(l.rank() != level.rank());
                                assert(enabled@[l.rank() as int] == before[l.rank() as int]);
                                if names_level(a, l) {
                                    let j = choose|j: int|
                                        0 <= j < a.len() && MouthState::named((#[trigger] a[j])@)
                                            == Some(l);
                                    assert(b[j] == a[j]);
                                }
                                if names_level(b, l) {
                                    let j = choose|j: int|
                                        0 <= j < b.len() && MouthState::named((#[trigger] b[j])@)
                                            == Some(l);
                                    assert(j < i);
                                    assert(a[j] == b[j]);
                                }
                            }
                        }
                    }
                },
                None => {
                    proof {
                        unknown_level_stays(names, i + 1);
                    }
                    return Err(ThresholdError::UnknownLevel(self.enabled[i].clone()));
                },
            }
            i = i + 1;
        }
        let cfg = MouthConfig {
            enabled,
            partial: self.partial,
            medium: self.medium,
            open: self.open,
        };
        proof {
            assert(names.take(i as int) =~= names);
            assert forall|l: MouthState| #[trigger] cfg.has(l) == enables(names, l) by {
                assert(cfg.has(l) == enabled@[l.rank() as int]);
            }
        }
        match cfg.validate() {
            Ok(()) => Ok(cfg),
            Err(e) => {
                assert(self.gives(cfg) && cfg.verdict() == Err::<(), _>(e));
                Err(ThresholdError::Refused(e))
            },
        }
    }
}

/// The settings fix what the configuration is judged by.
pub proof fn thresholds_fix_the_verdict(s: ThresholdSettings, a: MouthConfig, b: MouthConfig)
    requires
        s.gives(a),
        s.gives(b),
    ensures
        a.verdict() == b.verdict(),
{
    assert(a.has(MouthState::Closed) == b.has(MouthState::Closed));
    assert(a.has(MouthState::Partial) == b.has(MouthState::Partial));
    assert(a.has(MouthState::Medium) == b.has(MouthState::Medium));
    assert(a.has(MouthState::Open) == b.has(MouthState::Open));
}

/// Where the art is, and the resting emotion.
#[derive(Debug, Clone)]
pub struct EngineSettings {
    /// Resting emotion; empty means the default eyes.
    pub default_emotion: String,
    pub asset_root: String,
}

impl EngineSettings {
    /// The settings with defaults for what is left out.
    pub fn with_defaults(default_emotion: Option<String>, asset_root: String) -> (r: EngineSettings)
        ensures
            r.default_emotion@ == given_text(default_emotion, ""@),
            r.asset_root == asset_root,
    {
        EngineSettings { default_emotion: text_or(default_emotion, ""), asset_root }
    }
}

/// The bits of `2.5`, the default least time between blinks in seconds.
pub const DEFAULT_BLINK_MIN: u32 = 0x4020_0000;

/// The bits of `6.0`, the default greatest time between blinks in seconds.
pub const DEFAULT_BLINK_MAX: u32 = 0x40C0_0000;

/// The bits of `0.12`, the default duration of a blink in seconds.
pub const DEFAULT_BLINK_DURATION: u32 = 0x3DF5_C28F;

/// The bits of `0.15`, the default chance of a double blink.
pub const DEFAULT_DOUBLE_CHANCE: u32 = 0x3E19_999A;

/// Blink scheduler settings. The time between blinks is drawn between the two
/// intervals.
#[derive(Debug, Clone, Copy, PartialEq)]
pub struct BlinkSettings {
    pub enabled: bool,
    pub min_interval: Binary32,
    pub max_interval: Binary32,
    pub duration: Binary32,
    pub double_chance: Binary32,
}

impl BlinkSettings {
    /// The settings with defaults for what is left out.
    pub fn with_defaults(
        enabled: Option<bool>,
        min_interval: Option<Binary32>,
        max_interval: Option<Binary32>,
        duration: Option<Binary32>,
        double_chance: Option<Binary32>,
    ) -> (r: BlinkSettings)
        ensures
            r.enabled == given(enabled, true),
            r.min_interval == given(min_interval, Binary32 { bits: DEFAULT_BLINK_MIN }),
            r.max_interval == given(max_interval, Binary32 { bits: DEFAULT_BLINK_MAX }),
            r.duration == given(duration, Binary32 { bits: DEFAULT_BLINK_DURATION }),
            r.double_chance == given(double_chance, Binary32 { bits: DEFAULT_DOUBLE_CHANCE }),
    {
        BlinkSettings {
            enabled: flag_or(enabled, true),
            min_interval: number(min_interval, DEFAULT_BLINK_MIN),
            max_interval: number(max_interval, DEFAULT_BLINK_MAX),
            duration: number(duration, DEFAULT_BLINK_DURATION),
            double_chance: number(double_chance, DEFAULT_DOUBLE_CHANCE),
        }
    }
}

impl Default for BlinkSettings {
    fn default() -> (r: BlinkSettings)
        ensures
            r.enabled,
            r.min_interval.bits == DEFAULT_BLINK_MIN,
            r.max_interval.bits == DEFAULT_BLINK_MAX,
            r.duration.bits == DEFAULT_BLINK_DURATION,
            r.double_chance.bits == DEFAULT_DOUBLE_CHANCE,
    {
        BlinkSettings::with_defaults(None, None, None, None, None)
    }
}

/// Pixel format of the virtual webcam.
#[derive(Debug, Clone, Copy, PartialEq, Eq, Structural)]
pub enum WebcamFormat {
    /// Packed 4:2:2, two bytes per pixel; every consumer takes it.
    Yuyv,
    /// Blue, green, red and a filler byte.
    Bgr4,
}

impl Default for WebcamFormat {
    fn default() -> (r: WebcamFormat)
        ensures
            r == WebcamFormat::Yuyv,
    {
        WebcamFormat::Yuyv
    }
}

impl WebcamFormat {
    /// The format with the given name.
    pub fn from_name(s: &str) -> (r: Option<WebcamFormat>)
        ensures
            r == (if s@ == "yuyv"@ {
                Some(WebcamFormat::Yuyv)
            } else if s@ == "bgr4"@ {
                Some(WebcamFormat::Bgr4)
            } else {
                None
            }),
    {
        if same_text(s, "yuyv") {
            Some(WebcamFormat::Yuyv)
        } else if same_text(s, "bgr4") {
            Some(WebcamFormat::Bgr4)
        } else {
            None
        }
    }
}

/// The default square edge of the output in pixels.
pub const DEFAULT_OUTPUT_SIZE: u32 = 512;

/// The default frame rate of the webcam.
pub const DEFAULT_FPS: u32 = 30;

/// Virtual webcam settings. The avatar is composited over `background`, or
/// over `background_image` where that is not empty.
#[derive(Debug, Clone)]
pub struct WebcamSettings {
    pub enabled: bool,
    /// Device path; empty means the first suitable device.
    pub device: String,
    /// Square edge that every layer is scaled to.
    pub output_size: u32,
    /// Hex colour that fills transparent areas.
    pub background: String,
    /// Image that fills transparent areas; empty means the colour.
    pub background_image: String,
    pub format: WebcamFormat,
    pub fps: u32,
    /// Write at a constant rate, rather than on change only.
    pub steady: bool,
}

impl WebcamSettings {
    /// The settings with defaults for what is left out.
    pub fn with_defaults(
        enabled: Option<bool>,
        device: Option<String>,
        output_size: Option<u32>,
        background: Option<String>,
        background_image: Option<String>,
        format: Option<WebcamFormat>,
        fps: Option<u32>,
        steady: Option<bool>,
    ) -> (r: WebcamSettings)
        ensures
            r.enabled == given(enabled, false),
            r.device@ == given_text(device, ""@),
            r.output_size == given(output_size, DEFAULT_OUTPUT_SIZE),
            r.background@ == given_text(background, "#00ff00"@),
            r.background_image@ == given_text(background_image, ""@),
            r.format == given(format, WebcamFormat::Yuyv),
            r.fps == given(fps, DEFAULT_FPS),
            r.steady == given(steady, true),
    {
        let output_size: u32 = match output_size {
            Some(n) => n,
            None => DEFAULT_OUTPUT_SIZE,
        };
        let fps: u32 = match fps {
            Some(n) => n,
            None => DEFAULT_FPS,
        };
        let format = match format {
            Some(f) => f,
            None => WebcamFormat::default(),
        };
        WebcamSettings {
            enabled: flag_or(enabled, false),
            device: text_or(device, ""),
            output_size,
            background: text_or(background, "#00ff00"),
            background_image: text_or(background_image, ""),
            format,
            fps,
            steady: flag_or(steady, true),
        }
    }
}

impl Default for WebcamSettings {
    fn default() -> (r: WebcamSettings)
        ensures
            !r.enabled,
            r.device@ == ""@,
            r.output_size == DEFAULT_OUTPUT_SIZE,
            r.background@ == "#00ff00"@,
            r.background_image@ == ""@,
            r.format == WebcamFormat::Yuyv,
            r.fps == DEFAULT_FPS,
            r.steady,
    {
        WebcamSettings::with_defaults(None, None, None, None, None, None, None, None)
    }
}

// ---------------------------------------------------------------------------
// The background colour
// ---------------------------------------------------------------------------
/// Why a background colour is refused.
#[derive(Debug)]
pub enum ColourError {
    /// It does not have six digits.
    Shape,
    /// It has something other than hexadecimal digits.
    Digits,
}

/// What is left of a text after its leading `#` signs.
pub open spec fn without_hashes(s: Seq<char>) -> Seq<char>
    decreases s.len(),
{
    if s.len() > 0 && s[0] == '#' {
        without_hashes(s.drop_first())
    } else {
        s
    }
}

/// How many bytes a character takes in UTF-8.
pub open spec fn char_bytes(c: char) -> nat {
    if (c as u32) < 0x80 {
        1
    } else if (c as u32) < 0x800 {
        2
    } else if (c as u32) < 0x1_0000 {
        3
    } else {
        4
    }
}

/// How many bytes a text takes in UTF-8.
pub open spec fn text_bytes(s: Seq<char>) -> nat
    decreases s.len(),
{
    if s.len() == 0 {
        0
    } else {
        text_bytes(s.drop_last()) + char_bytes(s.last())
    }
}

/// The colour that a text of hexadecimal digits stands for.
pub open spec fn colour_of(s: Seq<char>) -> Result<[u8; 3], ColourError> {
    let hex = without_hashes(s);
    if text_bytes(hex) != 6 {
        Err(ColourError::Shape)
    } else if hex.len() != 6 {
        Err(ColourError::Digits)
    } else {
        match (
            text::hex_pair(hex[0], hex[1]),
            text::hex_pair(hex[2], hex[3]),
            text::hex_pair(hex[4], hex[5]),
        ) {
            (Some(r), Some(g), Some(b)) => Ok([r, g, b]),
            _ => Err(ColourError::Digits),
        }
    }
}

impl ColourError {
    /// The error text, given the colour in quotes.
    pub fn message(&self, quoted: &str) -> (r: String)
        ensures
            r@ == match *self {
                ColourError::Shape => "[webcam].background must be #rrggbb (got "@ + quoted@
                    + ")"@,
                ColourError::Digits => "invalid digit found in string"@,
            },
    {
        match self {
            ColourError::Shape => concat3(
                "[webcam].background must be #rrggbb (got ",
                quoted,
                ")",
            ),
            ColourError::Digits => "invalid digit found in string".to_owned(),
        }
    }
}

/// The characters after the leading `#` signs.
fn skip_hashes(s: &str) -> (r: Vec<char>)
    ensures
        r@ == without_hashes(s@),
{
    let chars = chars_of(s);
    let mut i: usize = 0;
    assert(s@.skip(0) =~= s@);
    while i < chars.len() && chars[i] == '#'
        invariant
            i <= chars@.len(),
            chars@ == s@,
            without_hashes(s@) == without_hashes(s@.skip(i as int)),
        decreases chars@.len() - i,
    {
        assert(s@.skip(i as int).drop_first() =~= s@.skip(i + 1));
        i = i + 1;
    }
    let out = copy_range(&chars, i, chars.len());
    assert(out@ =~= s@.skip(i as int));
    out
}

/// How many bytes a character takes in UTF-8.
fn bytes_of(c: char) -> (r: u64)
    ensures
        r == char_bytes(c),
        1 <= r <= 4,
{
    let u: u32 = c as u32;
    if u < 0x80 {
        1
    } else if u < 0x800 {
        2
    } else if u < 0x1_0000 {
        3
    } else {
        4
    }
}

proof fn text_bytes_split(s: Seq<char>, k: int)
    requires
        0 <= k <= s.len(),
    ensures
        text_bytes(s.take(k)) + (s.len() - k) <= text_bytes(s),
    decreases s.len() - k,
{
    if k == s.len() {
        assert(s.take(k) =~= s);
    } else {
        text_bytes_split(s, k + 1);
        assert(s.take(k + 1).drop_last() =~= s.take(k));
    }
}

/// The length in bytes, if it is at most six.
fn measure(s: &Vec<char>) -> (r: Option<u64>)
    ensures
        match r {
            Some(n) => n == text_bytes(s@) && n <= 6,
            None => text_bytes(s@) > 6,
        },
{
    let mut n: u64 = 0;
    let mut i: usize = 0;
    assert(s@.take(0) =~= Seq::<char>::empty());
    while i < s.len()
        invariant
            i <= s@.len(),
            n == text_bytes(s@.take(i as int)),
            n <= 6,
        decreases s@.len() - i,
    {
        assert(s@.take(i + 1).drop_last() =~= s@.take(i as int));
        n = n + bytes_of(s[i]);
        i = i + 1;
        if n > 6 {
            proof {
                text_bytes_split(s@, i as int);
            }
            return None;
        }
    }
    assert(s@.take(i as int) =~= s@);
    Some(n)
}

impl WebcamSettings {
    /// Parses `background`, a `#rrggbb` hex string, into red, green and blue.
    pub fn background_rgb(&self) -> (r: Result<[u8; 3], ColourError>)
        ensures
            match (r, colour_of(self.background@)) {
                (Ok(a), Ok(b)) => a@ == b@,
                (Err(a), Err(b)) => a == b,
                _ => false,
            },
    {
        let hex = skip_hashes(self.background.as_str());
        match measure(&hex) {
            Some(n) => {
                if n != 6 {
                    return Err(ColourError::Shape);
                }
            },
            None => {
                return Err(ColourError::Shape);
            },
        }
        if hex.len() != 6 {
            return Err(ColourError::Digits);
        }
        match (
            parse_hex_pair(hex[0], hex[1]),
            parse_hex_pair(hex[2], hex[3]),
            parse_hex_pair(hex[4], hex[5]),
        ) {
            (Some(r), Some(g), Some(b)) => Ok([r, g, b]),
            _ => Err(ColourError::Digits),
        }
    }
}

/// Six hexadecimal digits in either case, with or without a `#` sign before
/// them, are a colour: two digits for each channel.
pub proof fn six_digits_are_a_colour(hex: Seq<char>)
    requires
        hex.len() == 6,
        forall|i: int| 0 <= i < 6 ==> text::hex_digit(#[trigger] hex[i]) is Some,
    ensures
        colour_of(hex) matches Ok(c) && c@ == seq![
            text::hex_pair(hex[0], hex[1])->0,
            text::hex_pair(hex[2], hex[3])->0,
            text::hex_pair(hex[4], hex[5])->0,
        ],
        colour_of(seq!['#'] + hex) == colour_of(hex),
{
    assert(text::hex_digit(hex[0]) is Some && text::hex_digit(hex[1]) is Some && text::hex_digit(
        hex[2],
    ) is Some && text::hex_digit(hex[3]) is Some && text::hex_digit(hex[4]) is Some
        && text::hex_digit(hex[5]) is Some);
    digits_take_one_byte(hex);
    assert((seq!['#'] + hex).drop_first() =~= hex);
    assert(without_hashes(seq!['#'] + hex) == without_hashes(hex));
    let c = colour_of(hex)->Ok_0;
    assert(c@ =~= seq![
        text::hex_pair(hex[0], hex[1])->0,
        text::hex_pair(hex[2], hex[3])->0,
        text::hex_pair(hex[4], hex[5])->0,
    ]);
}

proof fn digits_take_one_byte(s: Seq<char>)
    requires
        forall|i: int| 0 <= i < s.len() ==> text::hex_digit(#[trigger] s[i]) is Some,
    ensures
        text_bytes(s) == s.len(),
    decreases s.len(),
{
    if s.len() > 0 {
        assert forall|i: int| 0 <= i < s.drop_last().len() implies text::hex_digit(
            #[trigger] s.drop_last()[i],
        ) is Some by {
            assert(s.drop_last()[i] == s[i]);
        }
        digits_take_one_byte(s.drop_last());
        assert(text::hex_digit(s[s.len() - 1]) is Some);
    }
}

// ---------------------------------------------------------------------------
// Validation
// ---------------------------------------------------------------------------
/// Top-level configuration.
#[derive(Debug, Clone)]
pub struct AppConfig {
    pub audio: AudioSettings,
    pub thresholds: ThresholdSettings,
    pub engine: EngineSettings,
    /// Emotion name to auto-revert time in seconds. Other emotions stay until
    /// they are cleared.
    pub timers: TextMap<Binary32>,
    pub blink: BlinkSettings,
    pub webcam: WebcamSettings,
}

/// Why a configuration is refused.
#[derive(Debug)]
pub enum ConfigError {
    ThresholdOrder { partial: Binary32, medium: Binary32, open: Binary32 },
    ThresholdValue,
    Envelope { value: Binary32 },
    SampleRate,
    BufferSize,
    Timer { name: String, secs: Binary32 },
    BlinkMin,
    BlinkMax { max: Binary32, min: Binary32 },
    BlinkDuration,
    DoubleChance,
    OddOutputSize,
}

/// A [`ConfigError`] with its texts as sequences.
pub enum ConfigDefect {
    ThresholdOrder(Binary32, Binary32, Binary32),
    ThresholdValue,
    Envelope(Binary32),
    SampleRate,
    BufferSize,
    Timer(Seq<char>, Binary32),
    BlinkMin,
    BlinkMax(Binary32, Binary32),
    BlinkDuration,
    DoubleChance,
    OddOutputSize,
}

impl View for ConfigError {
    type V = ConfigDefect;

    open spec fn view(&self) -> ConfigDefect {
        match *self {
            ConfigError::ThresholdOrder { partial, medium, open } => ConfigDefect::ThresholdOrder(
                partial,
                medium,
                open,
            ),
            ConfigError::ThresholdValue => ConfigDefect::ThresholdValue,
            ConfigError::Envelope { value } => ConfigDefect::Envelope(value),
            ConfigError::SampleRate => ConfigDefect::SampleRate,
            ConfigError::BufferSize => ConfigDefect::BufferSize,
            ConfigError::Timer { name, secs } => ConfigDefect::Timer(name@, secs),
            ConfigError::BlinkMin => ConfigDefect::BlinkMin,
            ConfigError::BlinkMax { max, min } => ConfigDefect::BlinkMax(max, min),
            ConfigError::BlinkDuration => ConfigDefect::BlinkDuration,
            ConfigError::DoubleChance => ConfigDefect::DoubleChance,
            ConfigError::OddOutputSize => ConfigDefect::OddOutputSize,
        }
    }
}

/// The number zero.
pub open spec fn zero() -> Binary32 {
    Binary32 { bits: 0 }
}

/// The number is finite and greater than zero.
pub open spec fn positive(v: Binary32) -> bool {
    v.finite() && !v.le(zero())
}

fn is_positive(v: Binary32) -> (r: bool)
    ensures
        r == positive(v),
{
    v.is_finite() && !v.at_most(Binary32::from_bits(0))
}

/// The first of the timers whose time is not positive.
pub open spec fn bad_timer(l: Seq<(Seq<char>, Binary32)>, n: int) -> Option<(Seq<char>, Binary32)>
    decreases n,
{
    if n <= 0 {
        None
    } else if let Some(t) = bad_timer(l, n - 1) {
        Some(t)
    } else if !positive(l[n - 1].1) {
        Some(l[n - 1])
    } else {
        None
    }
}

proof fn bad_timer_stays(l: Seq<(Seq<char>, Binary32)>, n: int, m: int)
    requires
        n <= m,
        bad_timer(l, n) is Some,
    ensures
        bad_timer(l, m) == bad_timer(l, n),
    decreases m - n,
{
    if n < m {
        bad_timer_stays(l, n, m - 1);
    }
}

/// No bad timer means that every timer's time is positive.
pub proof fn good_timers_are_positive(l: Seq<(Seq<char>, Binary32)>, n: int, i: int)
    requires
        bad_timer(l, n) is None,
        0 <= i < n,
    ensures
        positive(l[i].1),
    decreases n,
{
    if i < n - 1 {
        good_timers_are_positive(l, n - 1, i);
    }
}

/// A threshold is finite and not negative.
pub open spec fn good_threshold(v: Binary32) -> bool {
    v.finite() && !v.lt(zero())
}

/// An envelope time is finite and in `[0.1, 2000]` milliseconds.
pub open spec fn good_envelope(v: Binary32) -> bool {
    v.finite() && v.in_range(MIN_ENVELOPE_MS, MAX_ENVELOPE_MS)
}

impl AppConfig {
    /// The first thing that is wrong with the configuration.
    pub open spec fn defect(self) -> Option<ConfigDefect> {
        let t = self.thresholds;
        let b = self.blink;
        let timers = self.timers.listing();
        if !(t.partial.lt(t.medium) && t.medium.lt(t.open)) {
            Some(ConfigDefect::ThresholdOrder(t.partial, t.medium, t.open))
        } else if !(good_threshold(t.partial) && good_threshold(t.medium) && good_threshold(
            t.open,
        )) {
            Some(ConfigDefect::ThresholdValue)
        } else if !good_envelope(self.audio.attack_ms) {
            Some(ConfigDefect::Envelope(self.audio.attack_ms))
        } else if !good_envelope(self.audio.release_ms) {
            Some(ConfigDefect::Envelope(self.audio.release_ms))
        } else if self.audio.sample_rate == 0 {
            Some(ConfigDefect::SampleRate)
        } else if self.audio.buffer_frames() == 0 {
            Some(ConfigDefect::BufferSize)
        } else if let Some(timer) = bad_timer(timers, timers.len() as int) {
            Some(ConfigDefect::Timer(timer.0, timer.1))
        } else if !positive(b.min_interval) {
            Some(ConfigDefect::BlinkMin)
        } else if b.max_interval.lt(b.min_interval) {
            Some(ConfigDefect::BlinkMax(b.max_interval, b.min_interval))
        } else if !positive(b.duration) {
            Some(ConfigDefect::BlinkDuration)
        } else if !b.double_chance.in_range(0, ONE) {
            Some(ConfigDefect::DoubleChance)
        } else if self.webcam.format == WebcamFormat::Yuyv && self.webcam.output_size % 2 != 0 {
            Some(ConfigDefect::OddOutputSize)
        } else {
            None
        }
    }

    fn threshold_ok(v: Binary32) -> (r: bool)
        ensures
            r == good_threshold(v),
    {
        v.is_finite() && !v.less(Binary32::from_bits(0))
    }

    fn envelope_ok(v: Binary32) -> (r: bool)
        ensures
            r == good_envelope(v),
    {
        v.is_finite() && v.within(MIN_ENVELOPE_MS, MAX_ENVELOPE_MS)
    }

    fn find_bad_timer(&self) -> (r: Option<ConfigError>)
        ensures
            ({
                let l = self.timers.listing();
                match r {
                    Some(e) => bad_timer(l, l.len() as int) matches Some(t) && e@
                        == ConfigDefect::Timer(t.0, t.1),
                    None => bad_timer(l, l.len() as int) is None,
                }
            }),
    {
        let ghost timers = self.timers.listing();
        let n: usize = self.timers.len();
        let mut i: usize = 0;
        while i < n
            invariant
                i <= n,
                n == timers.len(),
                timers == self.timers.listing(),
                bad_timer(timers, i as int) is None,
            decreases n - i,
        {
            let secs = *self.timers.value_at(i);
            if !is_positive(secs) {
                proof {
                    bad_timer_stays(timers, i + 1, n as int);
                }
                let e = ConfigError::Timer { name: self.timers.key_at(i).clone(), secs };
                return Some(e);
            }
            i = i + 1;
        }
        None
    }

    /// Enforces what must hold of the values. Does not look at the assets.
    pub fn validate(&self) -> (r: Result<(), ConfigError>)
        ensures
            match r {
                Ok(()) => self.defect() is None,
                Err(e) => self.defect() == Some(e@),
            },
    {
        let t = &self.thresholds;
        if !(t.partial.less(t.medium) && t.medium.less(t.open)) {
            return Err(
                ConfigError::ThresholdOrder { partial: t.partial, medium: t.medium, open: t.open },
            );
        }
        if !(AppConfig::threshold_ok(t.partial) && AppConfig::threshold_ok(t.medium)
            && AppConfig::threshold_ok(t.open)) {
            return Err(ConfigError::ThresholdValue);
        }
        if !AppConfig::envelope_ok(self.audio.attack_ms) {
            return Err(ConfigError::Envelope { value: self.audio.attack_ms });
        }
        if !AppConfig::envelope_ok(self.audio.release_ms) {
            return Err(ConfigError::Envelope { value: self.audio.release_ms });
        }
        if self.audio.sample_rate == 0 {
            return Err(ConfigError::SampleRate);
        }
        if self.audio.effective_buffer_size() == 0 {
            return Err(ConfigError::BufferSize);
        }
        if let Some(e) = self.find_bad_timer() {
            return Err(e);
        }
        let b = &self.blink;
        if !is_positive(b.min_interval) {
            return Err(ConfigError::BlinkMin);
        }
        if b.max_interval.less(b.min_interval) {
            return Err(ConfigError::BlinkMax { max: b.max_interval, min: b.min_interval });
        }
        if !is_positive(b.duration) {
            return Err(ConfigError::BlinkDuration);
        }
        if !b.double_chance.within(0, ONE) {
            return Err(ConfigError::DoubleChance);
        }
        if self.webcam.format == WebcamFormat::Yuyv && self.webcam.output_size % 2 != 0 {
            return Err(ConfigError::OddOutputSize);
        }
        Ok(())
    }
}

impl ConfigError {
    /// The numbers that the error text mentions, in order.
    pub open spec fn mentioned(self) -> Seq<Binary32> {
        match self {
            ConfigError::ThresholdOrder { partial, medium, open } => seq![partial, medium, open],
            ConfigError::Envelope { value } => seq![value],
            ConfigError::Timer { secs, .. } => seq![secs],
            ConfigError::BlinkMax { max, min } => seq![max, min],
            _ => seq![],
        }
    }

    /// The error text, given the decimal forms of the numbers it mentions.
    pub open spec fn text(self, shown: Seq<Seq<char>>) -> Seq<char> {
        match self {
            ConfigError::ThresholdOrder { .. } =>
            "[thresholds] must satisfy partial < medium < open (got partial="@ + shown[0]
                + ", medium="@ + shown[1] + ", open="@ + shown[2] + ")"@,
            ConfigError::ThresholdValue =>
            "[thresholds] values must be non-negative finite numbers"@,
            ConfigError::Envelope { .. } =>
            "[audio] attack_ms/release_ms must be finite and in [0.1, 2000] ms (got "@ + shown[0]
                + ")"@,
            ConfigError::SampleRate => "[audio].sample_rate must be non-zero"@,
            ConfigError::BufferSize => "[audio].buffer_size must be non-zero"@,
            ConfigError::Timer { name, .. } => "[timers]."@ + name@
                + " must be a positive finite number (got "@ + shown[0] + ")"@,
            ConfigError::BlinkMin => "[blink].min_interval must be positive and finite"@,
            ConfigError::BlinkMax { .. } => "[blink].max_interval ("@ + shown[0]
                + ") must be >= min_interval ("@ + shown[1] + ")"@,
            ConfigError::BlinkDuration => "[blink].duration must be positive and finite"@,
            ConfigError::DoubleChance => "[blink].double_chance must be in [0.0, 1.0]"@,
            ConfigError::OddOutputSize => "[webcam].output_size must be even for yuyv"@,
        }
    }

    /// The numbers that the error text mentions, in order.
    pub fn numbers(&self) -> (r: Vec<Binary32>)
        ensures
            r@ == self.mentioned(),
    {
        let mut r: Vec<Binary32> = Vec::new();
        match self {
            ConfigError::ThresholdOrder { partial, medium, open } => {
                r.push(*partial);
                r.push(*medium);
                r.push(*open);
            },
            ConfigError::Envelope { value } => {
                r.push(*value);
            },
            ConfigError::Timer { secs, .. } => {
                r.push(*secs);
            },
            ConfigError::BlinkMax { max, min } => {
                r.push(*max);
                r.push(*min);
            },
            _ => {},
        }
        assert(r@ =~= self.mentioned());
        r
    }

    /// The error text, given the decimal forms of [`ConfigError::numbers`].
    pub fn message(&self, shown: &Vec<String>) -> (r: String)
        requires
            shown@.len() == self.mentioned().len(),
        ensures
            r@ == self.text(text::texts(shown@)),
    {
        match self {
            ConfigError::ThresholdOrder { .. } => {
                let mut s = concat2(
                    "[thresholds] must satisfy partial < medium < open (got partial=",
                    shown[0].as_str(),
                );
                s.append(", medium=");
                s.append(shown[1].as_str());
                s.append(", open=");
                s.append(shown[2].as_str());
                s.append(")");
                s
            },
            ConfigError::ThresholdValue =>
            "[thresholds] values must be non-negative finite numbers".to_owned(),
            ConfigError::Envelope { .. } => concat3(
                "[audio] attack_ms/release_ms must be finite and in [0.1, 2000] ms (got ",
                shown[0].as_str(),
                ")",
            ),
            ConfigError::SampleRate => "[audio].sample_rate must be non-zero".to_owned(),
            ConfigError::BufferSize => "[audio].buffer_size must be non-zero".to_owned(),
            ConfigError::Timer { name, .. } => {
                let mut s = concat3(
                    "[timers].",
                    name.as_str(),
                    " must be a positive finite number (got ",
                );
                s.append(shown[0].as_str());
                s.append(")");
                s
            },
            ConfigError::BlinkMin => "[blink].min_interval must be positive and finite".to_owned(),
            ConfigError::BlinkMax { .. } => {
                let mut s = concat3(
                    "[blink].max_interval (",
                    shown[0].as_str(),
                    ") must be >= min_interval (",
                );
                s.append(shown[1].as_str());
                s.append(")");
                s
            },
            ConfigError::BlinkDuration => "[blink].duration must be positive and finite".to_owned(),
            ConfigError::DoubleChance => "[blink].double_chance must be in [0.0, 1.0]".to_owned(),
            ConfigError::OddOutputSize => "[webcam].output_size must be even for yuyv".to_owned(),
        }
    }
}

// ---------------------------------------------------------------------------
// Laws
// ---------------------------------------------------------------------------
/// A configuration without defect has ascending thresholds, a positive time
/// for every timer, blink times that can be drawn, and an output that the
/// webcam format can carry.
pub proof fn sound_config(c: AppConfig, k: Seq<char>)
    requires
        c.defect() is None,
        crate::textmap::ascending(c.timers.listing()),
        c.timers@.dom().contains(k),
    ensures
        c.thresholds.partial.lt(c.thresholds.medium),
        c.thresholds.medium.lt(c.thresholds.open),
        positive(c.timers@[k]),
        positive(c.blink.min_interval),
        !c.blink.max_interval.lt(c.blink.min_interval),
        positive(c.blink.duration),
        c.audio.buffer_frames() > 0,
        c.webcam.format == WebcamFormat::Yuyv ==> c.webcam.output_size % 2 == 0,
{
    let l = c.timers.listing();
    let i = choose|i: int| 0 <= i < l.len() && (#[trigger] l[i]).0 == k;
    crate::textmap::listing_entry(l, i);
    good_timers_are_positive(l, l.len() as int, i);
}

/// What is given wins over the default, which stands in for what is not.
pub proof fn given_values_win<T>(v: T, default: T, s: String, text: Seq<char>)
    ensures
        given(Some(v), default) == v,
        given(None, default) == default,
        given_text(Some(s), text) == s@,
        given_text(None, text) == text,
{
}

/// An explicit buffer size wins; the presets stand for 256 and 1024 frames.
pub proof fn buffer_size_in_use(a: AudioSettings)
    ensures
        a.buffer_size matches Some(n) ==> a.buffer_frames() == n,
        a.buffer_size is None && a.latency == LatencyMode::Low ==> a.buffer_frames() == 256,
        a.buffer_size is None && a.latency == LatencyMode::Stable ==> a.buffer_frames() == 1024,
{
}

proof fn unknown_level_is_first(names: Seq<String>, i: int)
    requires
        0 <= i < names.len(),
        MouthState::named(names[i]@) is None,
        forall|j: int| 0 <= j < i ==> MouthState::named((#[trigger] names[j])@) is Some,
    ensures
        unknown_level(names) == Some(names[i]),
    decreases names.len(),
{
    let rest = names.drop_last();
    if i < names.len() - 1 {
        assert forall|j: int| 0 <= j < i implies MouthState::named((#[trigger] rest[j])@) is Some by {
            assert(rest[j] == names[j]);
        }
        unknown_level_is_first(rest, i);
    } else {
        no_unknown_level(rest);
    }
}

proof fn no_unknown_level(names: Seq<String>)
    requires
        forall|j: int| 0 <= j < names.len() ==> MouthState::named((#[trigger] names[j])@) is Some,
    ensures
        unknown_level(names) is None,
    decreases names.len(),
{
    if names.len() > 0 {
        let rest = names.drop_last();
        assert forall|j: int| 0 <= j < rest.len() implies MouthState::named(
            (#[trigger] rest[j])@,
        ) is Some by {
            assert(rest[j] == names[j]);
        }
        no_unknown_level(rest);
        assert(MouthState::named(names[names.len() - 1]@) is Some);
    }
}

/// The first name that is no level's is reported, and nothing where every name
/// is a level's.
pub proof fn first_unknown_level_is_reported(names: Seq<String>, i: int)
    ensures
        (forall|j: int| 0 <= j < names.len() ==> MouthState::named((#[trigger] names[j])@) is Some)
            ==> unknown_level(names) is None,
        0 <= i < names.len() && MouthState::named(names[i]@) is None && (forall|j: int|
            0 <= j < i ==> MouthState::named((#[trigger] names[j])@) is Some) ==> unknown_level(
            names,
        ) == Some(names[i]),
{
    if forall|j: int| 0 <= j < names.len() ==> MouthState::named((#[trigger] names[j])@) is Some {
        no_unknown_level(names);
    }
    if 0 <= i < names.len() && MouthState::named(names[i]@) is None && (forall|j: int|
        0 <= j < i ==> MouthState::named((#[trigger] names[j])@) is Some) {
        unknown_level_is_first(names, i);
    }
}

/// The thresholds are taken as they are; without names every level is active,
/// and otherwise those that some name stands for, and no others.
pub proof fn named_levels_are_active(s: ThresholdSettings, c: MouthConfig, i: int)
    requires
        s.gives(c),
    ensures
        c.partial == s.partial && c.medium == s.medium && c.open == s.open,
        s.enabled@.len() == 0 ==> c.enabled@[0] && c.enabled@[1] && c.enabled@[2] && c.enabled@[3],
        0 <= i < s.enabled@.len() ==> {
            let name = text::lowered(s.enabled@[i]@);
            &&& name == "closed"@ ==> c.enabled@[0]
            &&& name == "partial"@ ==> c.enabled@[1]
            &&& name == "medium"@ ==> c.enabled@[2]
            &&& name == "open"@ ==> c.enabled@[3]
        },
        s.enabled@.len() > 0 ==> {
            &&& c.enabled@[0] ==> exists|j: int|
                0 <= j < s.enabled@.len() && text::lowered((#[trigger] s.enabled@[j])@)
                    == "closed"@
            &&& c.enabled@[1] ==> exists|j: int|
                0 <= j < s.enabled@.len() && text::lowered((#[trigger] s.enabled@[j])@)
                    == "partial"@
            &&& c.enabled@[2] ==> exists|j: int|
                0 <= j < s.enabled@.len() && text::lowered((#[trigger] s.enabled@[j])@)
                    == "medium"@
            &&& c.enabled@[3] ==> exists|j: int|
                0 <= j < s.enabled@.len() && text::lowered((#[trigger] s.enabled@[j])@) == "open"@
        },
{
    assert(c.has(MouthState::Closed) == c.enabled@[0]);
    assert(c.has(MouthState::Partial) == c.enabled@[1]);
    assert(c.has(MouthState::Medium) == c.enabled@[2]);
    assert(c.has(MouthState::Open) == c.enabled@[3]);
    let n = s.enabled@;
    if 0 <= i < n.len() {
        crate::protocol::only_level_names_are_levels(n[i]@);
    }
    assert forall|l: MouthState| n.len() > 0 && #[trigger] names_level(n, l) implies exists|j: int|
        0 <= j < n.len() && text::lowered((#[trigger] n[j])@) == l.name_text() by {
        let j = choose|j: int| 0 <= j < n.len() && MouthState::named((#[trigger] n[j])@) == Some(l);
        crate::protocol::only_level_names_are_levels(n[j]@);
    }
    assert(enables(n, MouthState::Closed) == c.enabled@[0]);
    assert(enables(n, MouthState::Partial) == c.enabled@[1]);
    assert(enables(n, MouthState::Medium) == c.enabled@[2]);
    assert(enables(n, MouthState::Open) == c.enabled@[3]);
}

/// All leading `#` signs are left out of a colour, and nothing else.
pub proof fn only_leading_hashes_go(s: Seq<char>)
    ensures
        ({
            let t = without_hashes(s);
            let k = s.len() - t.len();
            &&& 0 <= k
            &&& t == s.skip(k)
            &&& forall|i: int| 0 <= i < k ==> #[trigger] s[i] == '#'
            &&& t.len() > 0 ==> t[0] != '#'
        }),
    decreases s.len(),
{
    if s.len() > 0 && s[0] == '#' {
        let rest = s.drop_first();
        only_leading_hashes_go(rest);
        let t = without_hashes(s);
        let k = s.len() - t.len();
        assert(rest.skip(k - 1) =~= s.skip(k));
        assert forall|i: int| 0 <= i < k implies #[trigger] s[i] == '#' by {
            if i > 0 {
                assert(rest[i - 1] == s[i]);
            }
        }
    } else {
        assert(s.skip(0) =~= s);
    }
}

/// A colour has six hexadecimal digits and nothing else.
pub proof fn colours_have_six_digits(s: Seq<char>)
    requires
        colour_of(s) is Ok,
    ensures
        without_hashes(s).len() == 6,
        forall|i: int| 0 <= i < 6 ==> text::hex_digit(#[trigger] without_hashes(s)[i]) is Some,
{
    let h = without_hashes(s);
    text::hexadecimal_digits(h[0], h[1]);
    text::hexadecimal_digits(h[2], h[3]);
    text::hexadecimal_digits(h[4], h[5]);
    assert forall|i: int| 0 <= i < 6 implies text::hex_digit(#[trigger] h[i]) is Some by {
        assert(i == 0 || i == 1 || i == 2 || i == 3 || i == 4 || i == 5);
    }
}

proof fn positive_bits(v: Binary32)
    ensures
        positive(v) <==> 0 < v.bits < 0x7F80_0000,
        good_threshold(v) <==> v.bits < 0x7F80_0000 || v.bits == 0x8000_0000,
        good_envelope(v) <==> 0x3DCC_CCCD <= v.bits <= 0x44FA_0000,
        v.in_range(0, ONE) <==> v.bits <= 0x3F80_0000 || v.bits == 0x8000_0000,
{
    crate::binary32::order_is_by_the_bits(v, zero());
    crate::binary32::order_is_by_the_bits(zero(), v);
    crate::binary32::order_is_by_the_bits(v, Binary32 { bits: ONE });
    crate::binary32::order_is_by_the_bits(v, Binary32 { bits: MIN_ENVELOPE_MS });
    crate::binary32::order_is_by_the_bits(Binary32 { bits: MIN_ENVELOPE_MS }, v);
    crate::binary32::order_is_by_the_bits(v, Binary32 { bits: MAX_ENVELOPE_MS });
}

proof fn bad_timer_is_bad(l: Seq<(Seq<char>, Binary32)>, n: int)
    requires
        0 <= n <= l.len(),
    ensures
        bad_timer(l, n) matches Some(t) ==> !positive(t.1) && exists|i: int|
            0 <= i < n && #[trigger] l[i] == t && forall|j: int|
                0 <= j < i ==> positive((#[trigger] l[j]).1),
        bad_timer(l, n) is None ==> forall|i: int| 0 <= i < n ==> positive((#[trigger] l[i]).1),
    decreases n,
{
    if n > 0 {
        bad_timer_is_bad(l, n - 1);
        if bad_timer(l, n - 1) is None && !positive(l[n - 1].1) {
            assert(l[n - 1] == bad_timer(l, n)->0);
        }
    }
}

/// A configuration is accepted exactly when the thresholds ascend and are not
/// negative, the envelope times lie between a tenth of a millisecond and two
/// seconds, the sample rate and the buffer are not zero, every timer and the
/// blink times are positive and finite, the greatest blink interval is not less
/// than the least, the chance of a double blink lies between zero and one, and
/// a picture for YUYV has an even edge.
pub proof fn configs_are_accepted_exactly_when_sound(c: AppConfig)
    ensures
        ({
            let (t, b, a) = (c.thresholds, c.blink, c.audio);
            let l = c.timers.listing();
            let plus = |v: Binary32| 0 < v.bits < 0x7F80_0000;
            let not_negative = |v: Binary32| v.bits < 0x7F80_0000 || v.bits == 0x8000_0000;
            let time = |v: Binary32| 0x3DCC_CCCD <= v.bits <= 0x44FA_0000;
            c.defect() is None <==> {
                &&& t.partial.lt(t.medium) && t.medium.lt(t.open)
                &&& not_negative(t.partial) && not_negative(t.medium) && not_negative(t.open)
                &&& time(a.attack_ms) && time(a.release_ms)
                &&& a.sample_rate != 0
                &&& a.buffer_size != Some(0u32)
                &&& forall|i: int| 0 <= i < l.len() ==> plus((#[trigger] l[i]).1)
                &&& plus(b.min_interval) && plus(b.duration)
                &&& !b.max_interval.lt(b.min_interval)
                &&& b.double_chance.bits <= 0x3F80_0000 || b.double_chance.bits == 0x8000_0000
                &&& c.webcam.format == WebcamFormat::Yuyv ==> c.webcam.output_size % 2 == 0
            }
        }),
{
    let (t, b, a) = (c.thresholds, c.blink, c.audio);
    let l = c.timers.listing();
    positive_bits(t.partial);
    positive_bits(t.medium);
    positive_bits(t.open);
    positive_bits(a.attack_ms);
    positive_bits(a.release_ms);
    positive_bits(b.min_interval);
    positive_bits(b.duration);
    positive_bits(b.double_chance);
    buffer_size_in_use(a);
    assert forall|i: int| 0 <= i < l.len() implies (positive((#[trigger] l[i]).1) <==> 0
        < l[i].1.bits < 0x7F80_0000) by {
        positive_bits(l[i].1);
    }
    bad_timer_is_bad(l, l.len() as int);
}

/// What a refused configuration is refused for is true of it, and comes after
/// all that is checked before it.
pub proof fn refusals_are_true_of_the_config(c: AppConfig)
    ensures
        ({
            let (t, b, a) = (c.thresholds, c.blink, c.audio);
            let ascending = t.partial.lt(t.medium) && t.medium.lt(t.open);
            let time = |v: Binary32| 0x3DCC_CCCD <= v.bits <= 0x44FA_0000;
            let times = time(a.attack_ms) && time(a.release_ms);
            match c.defect() {
                Some(ConfigDefect::ThresholdOrder(x, y, z)) => !ascending && x == t.partial && y
                    == t.medium && z == t.open,
                Some(ConfigDefect::ThresholdValue) => ascending && (t.partial.bits > 0x8000_0000
                    || t.open.bits == 0x7F80_0000),
                Some(ConfigDefect::Envelope(v)) => ascending && !time(v) && v == (if !time(
                    a.attack_ms,
                ) {
                    a.attack_ms
                } else {
                    a.release_ms
                }),
                Some(ConfigDefect::SampleRate) => times && a.sample_rate == 0,
                Some(ConfigDefect::BufferSize) => times && a.sample_rate != 0 && a.buffer_size
                    == Some(0u32),
                Some(ConfigDefect::Timer(name, secs)) => {
                    &&& times && a.sample_rate != 0 && a.buffer_size != Some(0u32)
                    &&& !(0 < secs.bits < 0x7F80_0000)
                    &&& exists|i: int|
                        0 <= i < c.timers.listing().len() && #[trigger] c.timers.listing()[i] == (
                            name,
                            secs,
                        )
                },
                Some(ConfigDefect::BlinkMin) => times && !(0 < b.min_interval.bits < 0x7F80_0000),
                Some(ConfigDefect::BlinkMax(max, min)) => times && max == b.max_interval && min
                    == b.min_interval && max.lt(min) && 0 < min.bits < 0x7F80_0000,
                Some(ConfigDefect::BlinkDuration) => times && !b.max_interval.lt(b.min_interval)
                    && !(0 < b.duration.bits < 0x7F80_0000),
                Some(ConfigDefect::DoubleChance) => times && 0 < b.duration.bits < 0x7F80_0000
                    && !(b.double_chance.bits <= 0x3F80_0000 || b.double_chance.bits
                    == 0x8000_0000),
                Some(ConfigDefect::OddOutputSize) => times && 0 < b.duration.bits < 0x7F80_0000
                    && c.webcam.format == WebcamFormat::Yuyv && c.webcam.output_size % 2 == 1,
                None => true,
            }
        }),
{
    let (t, b, a) = (c.thresholds, c.blink, c.audio);
    let l = c.timers.listing();
    positive_bits(t.partial);
    positive_bits(t.medium);
    positive_bits(t.open);
    positive_bits(a.attack_ms);
    positive_bits(a.release_ms);
    positive_bits(b.min_interval);
    positive_bits(b.duration);
    positive_bits(b.double_chance);
    buffer_size_in_use(a);
    crate::binary32::order_is_by_the_bits(t.partial, t.medium);
    crate::binary32::order_is_by_the_bits(t.medium, t.partial);
    crate::binary32::order_is_by_the_bits(t.medium, t.open);
    crate::binary32::order_is_by_the_bits(t.open, t.medium);
    bad_timer_is_bad(l, l.len() as int);
    if bad_timer(l, l.len() as int) is Some {
        let t = bad_timer(l, l.len() as int)->0;
        positive_bits(t.1);
    }
}

/// The values that stand in for what a configuration leaves out: an attack of
/// 6 and a release of 110 milliseconds, blinks of 0.12 seconds 2.5 to 6 seconds
/// apart with a chance of 0.15 for a second one, and a picture of 512 by 512
/// pixels 30 times a second.
pub proof fn defaults_in_use()
    ensures
        DEFAULT_ATTACK_MS == 0x40C0_0000,
        DEFAULT_RELEASE_MS == 0x42DC_0000,
        DEFAULT_BLINK_MIN == 0x4020_0000,
        DEFAULT_BLINK_MAX == 0x40C0_0000,
        DEFAULT_BLINK_DURATION == 0x3DF5_C28F,
        DEFAULT_DOUBLE_CHANCE == 0x3E19_999A,
        DEFAULT_OUTPUT_SIZE == 512,
        DEFAULT_FPS == 30,
        LatencyMode::Low.name_text() == "low"@,
        LatencyMode::Stable.name_text() == "stable"@,
{
}

/// The text of an error mentions every number that it is about, and the name of
/// the timer.
pub proof fn errors_mention_the_values(e: ConfigError, shown: Seq<Seq<char>>, i: int)
    requires
        shown.len() == e.mentioned().len(),
    ensures
        0 <= i < shown.len() ==> text::occurs(e.text(shown), shown[i]),
        e matches ConfigError::Timer { name, .. } ==> text::occurs(e.text(shown), name@),
        e matches ConfigError::ThresholdOrder { partial, medium, open } ==> e.mentioned() == seq![
            partial,
            medium,
            open,
        ],
        e matches ConfigError::Envelope { value } ==> e.mentioned() == seq![value],
        e matches ConfigError::Timer { secs, .. } ==> e.mentioned() == seq![secs],
        e matches ConfigError::BlinkMax { max, min } ==> e.mentioned() == seq![max, min],
{
    match e {
        ConfigError::ThresholdOrder { .. } => {
            let a = "[thresholds] must satisfy partial < medium < open (got partial="@;
            let (b, c) = (", medium="@, ", open="@);
            let all = a + shown[0] + b + shown[1] + c + shown[2] + ")"@;
            text::parts_occur(a, shown[0], b + shown[1] + c + shown[2] + ")"@);
            text::parts_occur(a + shown[0] + b, shown[1], c + shown[2] + ")"@);
            text::parts_occur(a + shown[0] + b + shown[1] + c, shown[2], ")"@);
            assert(all =~= a + shown[0] + (b + shown[1] + c + shown[2] + ")"@));
            assert(all =~= a + shown[0] + b + shown[1] + (c + shown[2] + ")"@));
            assert(i == 0 || i == 1 || i == 2 || i < 0 || i >= 3);
        },
        ConfigError::Envelope { .. } => {
            text::parts_occur(
                "[audio] attack_ms/release_ms must be finite and in [0.1, 2000] ms (got "@,
                shown[0],
                ")"@,
            );
        },
        ConfigError::Timer { name, .. } => {
            let (a, b) = ("[timers]."@, " must be a positive finite number (got "@);
            text::parts_occur(a, name@, b + shown[0] + ")"@);
            text::parts_occur(a + name@ + b, shown[0], ")"@);
            assert(a + name@ + b + shown[0] + ")"@ =~= a + name@ + (b + shown[0] + ")"@));
        },
        ConfigError::BlinkMax { .. } => {
            let (a, b) = ("[blink].max_interval ("@, ") must be >= min_interval ("@);
            text::parts_occur(a, shown[0], b + shown[1] + ")"@);
            text::parts_occur(a + shown[0] + b, shown[1], ")"@);
            assert(a + shown[0] + b + shown[1] + ")"@ =~= a + shown[0] + (b + shown[1] + ")"@));
            assert(i == 0 || i == 1 || i < 0 || i >= 2);
        },
        _ => {},
    }
}

/// The text for thresholds that are no good quotes the name that is no level's,
/// or says why the configuration is refused.
pub proof fn threshold_errors_give_their_reason(
    e: ThresholdError,
    shown: Seq<Seq<char>>,
    quoted: Seq<char>,
)
    ensures
        e is UnknownLevel ==> text::occurs(e.text(shown, quoted), quoted),
        e matches ThresholdError::Refused(why) ==> text::occurs(
            e.text(shown, quoted),
            why.text(shown),
        ),
{
    text::parts_occur(
        "unknown mouth level in [thresholds].enabled: "@,
        quoted,
        " (expected closed|partial|medium|open)"@,
    );
    if e is Refused {
        text::parts_occur("[thresholds] "@, e->Refused_0.text(shown), seq![]);
    }
}

/// An error is of the kind that it says, and holds the values that it says.
pub proof fn errors_hold_what_they_say(e: ConfigError)
    ensures
        e@ matches ConfigDefect::ThresholdOrder(a, b, c) ==> e == (ConfigError::ThresholdOrder {
            partial: a,
            medium: b,
            open: c,
        }),
        e@ is ThresholdValue <==> e is ThresholdValue,
        e@ matches ConfigDefect::Envelope(v) ==> e == (ConfigError::Envelope { value: v }),
        e@ is SampleRate <==> e is SampleRate,
        e@ is BufferSize <==> e is BufferSize,
        e@ matches ConfigDefect::Timer(n, s) ==> (e matches ConfigError::Timer { name, secs }
            && name@ == n && secs == s),
        e@ is BlinkMin <==> e is BlinkMin,
        e@ matches ConfigDefect::BlinkMax(a, b) ==> e == (ConfigError::BlinkMax { max: a, min: b }),
        e@ is BlinkDuration <==> e is BlinkDuration,
        e@ is DoubleChance <==> e is DoubleChance,
        e@ is OddOutputSize <==> e is OddOutputSize,
{
}

proof fn ascii_takes_one_byte(s: Seq<char>)
    requires
        forall|i: int| 0 <= i < s.len() ==> (#[trigger] s[i] as u32) < 0x80,
    ensures
        text_bytes(s) == s.len(),
    decreases s.len(),
{
    if s.len() > 0 {
        let rest = s.drop_last();
        assert forall|i: int| 0 <= i < rest.len() implies (#[trigger] rest[i] as u32) < 0x80 by {
            assert(rest[i] == s[i]);
        }
        ascii_takes_one_byte(rest);
        assert((s[s.len() - 1] as u32) < 0x80);
    }
}

/// A colour in ASCII that does not have six characters is refused for its
/// shape, and one with six of which some is no hexadecimal digit for that.
pub proof fn colours_are_refused_for_a_reason(s: Seq<char>)
    requires
        forall|i: int|
            0 <= i < without_hashes(s).len() ==> (#[trigger] without_hashes(s)[i] as u32) < 0x80,
    ensures
        colour_of(s) == Err::<[u8; 3], _>(ColourError::Shape) <==> without_hashes(s).len() != 6,
        colour_of(s) == Err::<[u8; 3], _>(ColourError::Digits) <==> without_hashes(s).len() == 6
            && exists|i: int|
            0 <= i < 6 && text::hex_digit(#[trigger] without_hashes(s)[i]) is None,
{
    let h = without_hashes(s);
    ascii_takes_one_byte(h);
    if h.len() == 6 {
        text::hexadecimal_digits(h[0], h[1]);
        text::hexadecimal_digits(h[2], h[3]);
        text::hexadecimal_digits(h[4], h[5]);
        if exists|i: int| 0 <= i < 6 && text::hex_digit(#[trigger] h[i]) is None {
            let i = choose|i: int| 0 <= i < 6 && text::hex_digit(#[trigger] h[i]) is None;
            assert(i == 0 || i == 1 || i == 2 || i == 3 || i == 4 || i == 5);
        }
    }
}

} // verus!
