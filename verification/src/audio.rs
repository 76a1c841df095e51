//! Audio capture decisions: which device to open, how to configure it, and
//! how fast the envelope follows the signal.
//!
//! - A configured device name must match exactly.
//! - In input mode the system default input is used.
//! - In loopback mode it is the first device whose name contains "monitor".
use crate::binary32::Binary32;
use crate::config::{AudioMode, AudioSettings};
use crate::protocol::{EnvelopeConfig, MIN_ENVELOPE_MS};
use crate::text;
use crate::text::{concat2, concat3, contains, same_text, to_lower};
use vstd::prelude::*;

verus! {

// ---------------------------------------------------------------------------
// Listing devices
// ---------------------------------------------------------------------------
/// An input device.
#[derive(Debug)]
pub struct DeviceInfo {
    pub name: String,
    pub is_monitor: bool,
    pub is_default: bool,
}

/// A device's name, or a stand-in where it cannot be had.
pub open spec fn shown_name(name: Option<String>) -> Seq<char> {
    match name {
        Some(s) => s@,
        None => "<unknown>"@,
    }
}

/// The name is that of a monitor of the system output.
pub open spec fn names_monitor(name: Seq<char>) -> bool {
    text::occurs(text::lowered(name), "monitor"@)
}

fn is_monitor_name(name: &str) -> (r: bool)
    ensures
        r == names_monitor(name@),
{
    let l = to_lower(name);
    contains(l.as_str(), "monitor")
}

/// `d` describes the device with the given name.
pub open spec fn describes(d: DeviceInfo, name: Option<String>, default: Option<Seq<char>>) -> bool {
    &&& d.name@ == shown_name(name)
    &&& d.is_monitor == names_monitor(shown_name(name))
    &&& d.is_default == (default == Some(shown_name(name)))
}

/// Describes the input devices with the given names, in order.
pub fn list_input_devices(names: &Vec<Option<String>>, default_name: Option<&str>) -> (r: Vec<
    DeviceInfo,
>)
    ensures
        r@.len() == names@.len(),
        forall|i: int|
            0 <= i < r@.len() ==> describes(
                #[trigger] r@[i],
                names@[i],
                text::opt_str(default_name),
            ),
{
    let mut out: Vec<DeviceInfo> = Vec::new();
    let mut i: usize = 0;
    while i < names.len()
        invariant
            i <= names@.len(),
            out@.len() == i,
            forall|j: int|
                0 <= j < i ==> describes(
                    #[trigger] out@[j],
                    names@[j],
                    text::opt_str(default_name),
                ),
        decreases names@.len() - i,
    {
        let name = match &names[i] {
            Some(s) => s.clone(),
            None => "<unknown>".to_owned(),
        };
        let is_monitor = is_monitor_name(name.as_str());
        let is_default = match default_name {
            Some(d) => same_text(d, name.as_str()),
            None => false,
        };
        out.push(DeviceInfo { name, is_monitor, is_default });
        i = i + 1;
    }
    out
}

/// The line that lists a device.
pub open spec fn device_line(d: DeviceInfo) -> Seq<char> {
    (if d.is_default && d.is_monitor {
        "  [default] [loopback]"@
    } else if d.is_default {
        "  [default]"@
    } else if d.is_monitor {
        "  [loopback]"@
    } else {
        "  "@
    }) + d.name@
}

/// The lines that list the devices.
pub open spec fn listing(devices: Seq<DeviceInfo>) -> Seq<Seq<char>> {
    if devices.len() == 0 {
        seq!["No input devices found."@]
    } else {
        seq!["Input devices (mark the one you want with [audio].device):"@] + devices.map_values(
            |d: DeviceInfo| device_line(d),
        )
    }
}

/// Lists the devices, marking the default one and the monitors.
pub fn device_lines(devices: &Vec<DeviceInfo>) -> (r: Vec<String>)
    ensures
        text::texts(r@) == listing(devices@),
{
    let mut out: Vec<String> = Vec::new();
    if devices.len() == 0 {
        out.push("No input devices found.".to_owned());
        assert(text::texts(out@) =~= listing(devices@));
        return out;
    }
    out.push("Input devices (mark the one you want with [audio].device):".to_owned());
    let mut i: usize = 0;
    while i < devices.len()
        invariant
            i <= devices@.len(),
            out@.len() == i + 1,
            out@[0]@ == "Input devices (mark the one you want with [audio].device):"@,
            forall|j: int| 0 <= j < i ==> (#[trigger] out@[j + 1])@ == device_line(devices@[j]),
        decreases devices@.len() - i,
    {
        let d = &devices[i];
        let flags = if d.is_default && d.is_monitor {
            "  [default] [loopback]"
        } else if d.is_default {
            "  [default]"
        } else if d.is_monitor {
            "  [loopback]"
        } else {
            "  "
        };
        let ghost before = out@;
        out.push(concat2(flags, d.name.as_str()));
        proof {
            assert forall|j: int| 0 <= j < i + 1 implies (#[trigger] out@[j + 1])@ == device_line(
                devices@[j],
            ) by {
                if j < i {
                    assert(out@[j + 1] == before[j + 1]);
                }
            }
        }
        i = i + 1;
    }
    proof {
        let t = text::texts(out@);
        let l = listing(devices@);
        assert forall|k: int| 0 <= k < t.len() implies t[k] == l[k] by {
            if k > 0 {
                assert(out@[(k - 1) + 1]@ == device_line(devices@[k - 1]));
            }
        }
        assert(t =~= l);
    }
    out
}

// ---------------------------------------------------------------------------
// Picking a device
// ---------------------------------------------------------------------------
/// The device to open.
#[derive(Debug, Clone, Copy, PartialEq, Eq, Structural)]
pub enum DevicePick {
    /// The input device at this place in the list.
    Listed(usize),
    /// The system default input.
    SystemDefault,
}

/// Why there is no device to open.
#[derive(Debug, Clone, Copy, PartialEq, Eq, Structural)]
pub enum PickError {
    /// No input device has the configured name.
    NotFound,
    /// There is no default input.
    NoDefault,
    /// No input device is a monitor.
    NoMonitor,
}

impl PickError {
    /// The error text, given the configured name in quotes.
    pub open spec fn text(self, quoted: Seq<char>) -> Seq<char> {
        match self {
            PickError::NotFound => "audio device not found: "@ + quoted
                + ". Run `rusty-tuber --list-audio-devices` to see options."@,
            PickError::NoDefault => "no default input device available"@,
            PickError::NoMonitor =>
            "no loopback (monitor) device found. Run `rusty-tuber --list-audio-devices`; PipeWire sink monitors appear as inputs ending in '.monitor'. If none is listed, create one with `pw-loopback -m '[Capture]' &` or pick a specific device name."@,
        }
    }

    /// The error text, given the configured name in quotes.
    pub fn message(&self, quoted: &str) -> (r: String)
        ensures
            r@ == self.text(quoted@),
    {
        match self {
            PickError::NotFound => concat3(
                "audio device not found: ",
                quoted,
                ". Run `rusty-tuber --list-audio-devices` to see options.",
            ),
            PickError::NoDefault => "no default input device available".to_owned(),
            PickError::NoMonitor =>
            "no loopback (monitor) device found. Run `rusty-tuber --list-audio-devices`; PipeWire sink monitors appear as inputs ending in '.monitor'. If none is listed, create one with `pw-loopback -m '[Capture]' &` or pick a specific device name.".to_owned(),
        }
    }
}

/// The device at place `i` has the name asked for, or, where none is, is a
/// monitor. A device whose name cannot be had is never picked.
pub open spec fn suits(names: Seq<Option<String>>, device: Seq<char>, i: int) -> bool {
    match names[i] {
        Some(n) => if device.len() > 0 {
            n@ == device
        } else {
            names_monitor(n@)
        },
        None => false,
    }
}

/// `i` is the first device that suits.
pub open spec fn first_suiting(names: Seq<Option<String>>, device: Seq<char>, i: int) -> bool {
    &&& 0 <= i < names.len()
    &&& suits(names, device, i)
    &&& forall|j: int| 0 <= j < i ==> !(#[trigger] suits(names, device, j))
}

fn find_suiting(names: &Vec<Option<String>>, device: &str) -> (r: Option<usize>)
    ensures
        match r {
            Some(i) => first_suiting(names@, device@, i as int),
            None => forall|j: int| 0 <= j < names@.len() ==> !(#[trigger] suits(names@, device@, j)),
        },
{
    let mut i: usize = 0;
    while i < names.len()
        invariant
            i <= names@.len(),
            forall|j: int| 0 <= j < i ==> !(#[trigger] suits(names@, device@, j)),
        decreases names@.len() - i,
    {
        let fit = match &names[i] {
            Some(n) => if device.is_empty() {
                is_monitor_name(n.as_str())
            } else {
                same_text(n.as_str(), device)
            },
            None => false,
        };
        assert(fit == suits(names@, device@, i as int));
        if fit {
            return Some(i);
        }
        i = i + 1;
    }
    None
}

/// True if the names of the input devices are needed to pick one.
pub fn needs_device_names(audio: &AudioSettings) -> (r: bool)
    ensures
        r == (audio.device@.len() > 0 || audio.mode == AudioMode::Loopback),
{
    !audio.device.as_str().is_empty() || audio.mode == AudioMode::Loopback
}

/// Picks the device to open, given the names of the input devices and whether
/// there is a default input.
pub fn pick_device(audio: &AudioSettings, names: &Vec<Option<String>>, has_default: bool) -> (r:
    Result<DevicePick, PickError>)
    ensures
        ({
            let listed = audio.device@.len() > 0 || audio.mode == AudioMode::Loopback;
            match r {
                Ok(DevicePick::Listed(i)) => listed && first_suiting(
                    names@,
                    audio.device@,
                    i as int,
                ),
                Ok(DevicePick::SystemDefault) => !listed && has_default,
                Err(PickError::NoDefault) => !listed && !has_default,
                Err(e) => {
                    &&& listed
                    &&& e == (if audio.device@.len() > 0 {
                        PickError::NotFound
                    } else {
                        PickError::NoMonitor
                    })
                    &&& forall|j: int|
                        0 <= j < names@.len() ==> !(#[trigger] suits(names@, audio.device@, j))
                },
            }
        }),
{
    if !audio.device.as_str().is_empty() {
        return match find_suiting(names, audio.device.as_str()) {
            Some(i) => Ok(DevicePick::Listed(i)),
            None => Err(PickError::NotFound),
        };
    }
    match audio.mode {
        AudioMode::Input => if has_default {
            Ok(DevicePick::SystemDefault)
        } else {
            Err(PickError::NoDefault)
        },
        AudioMode::Loopback => match find_suiting(names, audio.device.as_str()) {
            Some(i) => Ok(DevicePick::Listed(i)),
            None => Err(PickError::NoMonitor),
        },
    }
}

// ---------------------------------------------------------------------------
// Configuring the stream
// ---------------------------------------------------------------------------
/// A range of sample rates that a device supports.
#[derive(Debug, Clone, Copy, PartialEq, Eq, Structural)]
pub struct RateRange {
    /// The samples are single-precision numbers.
    pub float_samples: bool,
    pub min: u32,
    pub max: u32,
}

impl RateRange {
    /// The range has the preferred samples and holds the rate.
    pub open spec fn offers(self, rate: u32) -> bool {
        self.float_samples && self.min <= rate <= self.max
    }
}

/// Picks the first range with single-precision samples that holds the wanted
/// rate. Where there is none, the device's default configuration is used.
pub fn negotiate_config(ranges: &Vec<RateRange>, want: u32) -> (r: Option<usize>)
    ensures
        match r {
            Some(i) => {
                &&& i < ranges@.len()
                &&& ranges@[i as int].offers(want)
                &&& forall|j: int| 0 <= j < i ==> !(#[trigger] ranges@[j]).offers(want)
            },
            None => forall|j: int| 0 <= j < ranges@.len() ==> !(#[trigger] ranges@[j]).offers(want),
        },
{
    let mut i: usize = 0;
    while i < ranges.len()
        invariant
            i <= ranges@.len(),
            forall|j: int| 0 <= j < i ==> !(#[trigger] ranges@[j]).offers(want),
        decreases ranges@.len() - i,
    {
        let g = ranges[i];
        if g.float_samples && g.min <= want && want <= g.max {
            return Some(i);
        }
        i = i + 1;
    }
    None
}

/// A stream configuration to try: the buffer size, or `None` for the device's
/// own, and the sample rate.
#[derive(Debug, Clone, Copy, PartialEq, Eq, Structural)]
pub struct StreamTry {
    pub buffer: Option<u32>,
    pub sample_rate: u32,
}

/// The configurations to try in turn: first a fixed buffer of the asked size
/// (at least one frame), then the device's own buffer size.
pub fn stream_tries(audio: &AudioSettings) -> (r: (StreamTry, StreamTry))
    ensures
        r.0.buffer == Some(
            if audio.buffer_frames() == 0 {
                1
            } else {
                audio.buffer_frames()
            },
        ),
        r.0.sample_rate == audio.sample_rate,
        r.1.buffer is None,
        r.1.sample_rate == audio.sample_rate,
{
    let asked: u32 = audio.effective_buffer_size();
    let preferred: u32 = if asked == 0 {
        1
    } else {
        asked
    };
    (
        StreamTry { buffer: Some(preferred), sample_rate: audio.sample_rate },
        StreamTry { buffer: None, sample_rate: audio.sample_rate },
    )
}

// ---------------------------------------------------------------------------
// The envelope
// ---------------------------------------------------------------------------
/// The time constant for a level `raw` after a smoothed level `prev`: the
/// attack where the level rises, else the release, and never under a tenth of
/// a millisecond.
pub open spec fn follow_time(raw: Binary32, prev: Binary32, cfg: EnvelopeConfig) -> Binary32 {
    let t = if prev.lt(raw) {
        cfg.attack_ms
    } else {
        cfg.release_ms
    };
    if t.is_nan() || t.lt(Binary32 { bits: MIN_ENVELOPE_MS }) {
        Binary32 { bits: MIN_ENVELOPE_MS }
    } else {
        t
    }
}

/// The envelope tuning in use. It has one owner and cannot be copied, so there
/// is never a second one that misses a change; threads that share the tuning
/// keep its two numbers between them and make a control of what they find.
#[derive(Debug)]
pub struct EnvelopeControl {
    attack_ms: Binary32,
    release_ms: Binary32,
}

impl View for EnvelopeControl {
    type V = EnvelopeConfig;

    closed spec fn view(&self) -> EnvelopeConfig {
        EnvelopeConfig { attack_ms: self.attack_ms, release_ms: self.release_ms }
    }
}

impl EnvelopeControl {
    /// A control with the given time constants.
    pub fn new(attack_ms: Binary32, release_ms: Binary32) -> (r: EnvelopeControl)
        ensures
            r@ == (EnvelopeConfig { attack_ms, release_ms }),
    {
        EnvelopeControl { attack_ms, release_ms }
    }

    /// The attack and the release in use.
    pub fn get(&self) -> (r: (Binary32, Binary32))
        ensures
            r == (self@.attack_ms, self@.release_ms),
    {
        (self.attack_ms, self.release_ms)
    }

    /// Sets the attack and the release.
    pub fn set(&mut self, attack_ms: Binary32, release_ms: Binary32)
        ensures
            final(self)@ == (EnvelopeConfig { attack_ms, release_ms }),
    {
        self.attack_ms = attack_ms;
        self.release_ms = release_ms;
    }

    /// Picks the time constant in milliseconds with which the envelope follows
    /// a level `raw` after a smoothed level `prev`.
    pub fn time_constant(&self, raw: Binary32, prev: Binary32) -> (r: Binary32)
        ensures
            r == follow_time(raw, prev, self@),
    {
        let t = if prev.less(raw) {
            self.attack_ms
        } else {
            self.release_ms
        };
        let least = Binary32::from_bits(MIN_ENVELOPE_MS);
        if least.at_most(t) {
            t
        } else {
            least
        }
    }
}

/// With a valid envelope, a rising level is followed with the attack time and
/// any other with the release time, as they are configured.
pub proof fn envelope_is_asymmetric(raw: Binary32, prev: Binary32, cfg: EnvelopeConfig)
    requires
        cfg.verdict() is Ok,
    ensures
        prev.lt(raw) ==> follow_time(raw, prev, cfg) == cfg.attack_ms,
        !prev.lt(raw) ==> follow_time(raw, prev, cfg) == cfg.release_ms,
{
}

/// A rising level is followed with the attack time and any other with the
/// release time, neither of them ever under a tenth of a millisecond.
pub proof fn envelope_follows_the_level(raw: Binary32, prev: Binary32, cfg: EnvelopeConfig)
    ensures
        ({
            let least = Binary32 { bits: 0x3DCC_CCCD };
            let t = follow_time(raw, prev, cfg);
            &&& prev.lt(raw) && least.le(cfg.attack_ms) ==> t == cfg.attack_ms
            &&& !prev.lt(raw) && least.le(cfg.release_ms) ==> t == cfg.release_ms
            &&& prev.lt(raw) && !least.le(cfg.attack_ms) ==> t == least
            &&& !prev.lt(raw) && !least.le(cfg.release_ms) ==> t == least
        }),
{
}

/// A configured device is picked by its exact name; without one, the first
/// whose name has "monitor" in it, in any case. A device without a name is
/// never picked.
pub proof fn devices_suit_by_name(names: Seq<Option<String>>, device: Seq<char>, i: int)
    ensures
        names[i] is None ==> !suits(names, device, i),
        names[i] matches Some(n) ==> {
            &&& device.len() > 0 ==> (suits(names, device, i) <==> n@ == device)
            &&& device.len() == 0 ==> (suits(names, device, i) <==> exists|k: int|
                #[trigger] text::occurs_at(text::lowered(n@), "monitor"@, k))
        },
{
}

/// A device is listed under its own name, or a stand-in, as a monitor if its
/// name has "monitor" in it, in any case, and as the default one if it has that
/// one's name.
pub proof fn devices_are_described_by_name(
    d: DeviceInfo,
    name: Option<String>,
    default: Option<Seq<char>>,
)
    requires
        describes(d, name, default),
    ensures
        name matches Some(n) ==> d.name@ == n@,
        name is None ==> d.name@ == "<unknown>"@,
        d.is_monitor <==> exists|k: int|
            #[trigger] text::occurs_at(text::lowered(d.name@), "monitor"@, k),
        d.is_default <==> default == Some(d.name@),
{
}

/// A line of the list ends with the device's name, behind two spaces and the
/// marks that apply.
pub proof fn listed_lines_are_marked(d: DeviceInfo)
    ensures
        ({
            let line = device_line(d);
            let k = line.len() - d.name@.len();
            &&& line.skip(k) == d.name@
            &&& !d.is_default && !d.is_monitor ==> line.take(k) == "  "@
            &&& d.is_default && !d.is_monitor ==> line.take(k) == "  [default]"@
            &&& !d.is_default && d.is_monitor ==> line.take(k) == "  [loopback]"@
            &&& d.is_default && d.is_monitor ==> line.take(k) == "  [default] [loopback]"@
        }),
{
    let line = device_line(d);
    let k = line.len() - d.name@.len();
    assert(line.skip(k) =~= d.name@);
    assert(line =~= line.take(k) + d.name@);
    assert(d.is_default && d.is_monitor ==> line.take(k) =~= "  [default] [loopback]"@);
    assert(d.is_default && !d.is_monitor ==> line.take(k) =~= "  [default]"@);
    assert(!d.is_default && d.is_monitor ==> line.take(k) =~= "  [loopback]"@);
    assert(!d.is_default && !d.is_monitor ==> line.take(k) =~= "  "@);
}

/// Every device has its line, in order, below the heading.
pub proof fn every_device_is_listed(devices: Seq<DeviceInfo>, i: int)
    requires
        0 <= i < devices.len(),
    ensures
        listing(devices).len() == devices.len() + 1,
        listing(devices)[i + 1] == device_line(devices[i]),
{
}

/// A range offers a rate exactly when it has single-precision samples and the
/// rate lies between its ends.
pub proof fn ranges_offer_what_they_hold(r: RateRange, rate: u32)
    ensures
        r.offers(rate) <==> r.float_samples && r.min <= rate && rate <= r.max,
{
}

/// The text for a device that was not found mentions its name.
pub proof fn missing_devices_are_named(e: PickError, quoted: Seq<char>)
    ensures
        e == PickError::NotFound ==> text::occurs(e.text(quoted), quoted),
{
    text::parts_occur(
        "audio device not found: "@,
        quoted,
        ". Run `rusty-tuber --list-audio-devices` to see options."@,
    );
}

/// Of the devices that suit, the first is picked.
pub proof fn first_suiting_device_is_picked(
    names: Seq<Option<String>>,
    device: Seq<char>,
    i: int,
    j: int,
)
    requires
        first_suiting(names, device, i),
    ensures
        0 <= i < names.len(),
        suits(names, device, i),
        0 <= j < names.len() && suits(names, device, j) ==> i <= j,
{
}

} // verus!
