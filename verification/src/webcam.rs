//! Virtual webcam sink: what is written to a v4l2loopback device.
//!
//! The frame is composited over a background, as video devices carry no alpha,
//! and packed in one of two pixel formats. The device is set up by two
//! requests, one for the format and one for the frame interval.
use crate::buffers::filled;
use crate::config::WebcamFormat;
use crate::images;
use crate::images::{load_image, ImageFault};
use crate::lanes::{bits_and, bits_or, minus, plus, shift_left, shift_right, times};
use crate::pixels;
use crate::pixels::{mix_byte, Frame};
use crate::text;
use crate::text::{concat2, concat3, contains, strip_prefix, to_lower, words};
use vstd::arithmetic::div_mod::lemma_fundamental_div_mod_converse;
use vstd::prelude::*;

verus! {

// ---------------------------------------------------------------------------
// Device requests
// ---------------------------------------------------------------------------
pub const V4L2_BUF_TYPE_VIDEO_OUTPUT: u32 = 2;

pub const V4L2_FIELD_NONE: u32 = 1;

pub const V4L2_COLORSPACE_SRGB: u32 = 8;

/// The bytes `BGR4` as a little-endian number.
pub const V4L2_PIX_FMT_BGR32: u32 = 0x3452_4742;

/// The bytes `YUYV` as a little-endian number.
pub const V4L2_PIX_FMT_YUYV: u32 = 0x5659_5559;

/// The driver supports a time per frame.
pub const V4L2_CAP_TIMEPERFRAME: u32 = 0x1000;

/// Read-write request 5 of type `V` with 208 bytes: set the format.
pub const VIDIOC_S_FMT: u64 = 0xC0D0_5605;

/// Read-write request 22 of type `V` with 204 bytes: set the parameters.
pub const VIDIOC_S_PARM: u64 = 0xC0CC_5616;

/// The number of a device request: two bits of direction, fourteen of size,
/// eight of type and eight of number.
pub open spec fn request_number(dir: u32, type_: u8, nr: u32, size: u32) -> int {
    (dir % 4) * 0x4000_0000 + (size % 0x4000) * 0x1_0000 + type_ * 0x100 + nr % 0x100
}

/// Builds the number of a device request.
pub fn ioc(dir: u32, type_: u8, nr: u32, size: u32) -> (r: u64)
    ensures
        r == request_number(dir, type_, nr, size),
{
    proof {
        assert(((dir & 0x3) as u64) << 30 | ((size & 0x3FFF) as u64) << 16 | (type_ as u64) << 8 | (
        nr & 0xFF) as u64 == (dir % 4) * 0x4000_0000 + (size % 0x4000) * 0x1_0000 + type_ * 0x100
            + nr % 0x100) by (bit_vector);
    }
    ((dir & 0x3) as u64) << 30 | ((size & 0x3FFF) as u64) << 16 | (type_ as u64) << 8 | (nr
        & 0xFF) as u64
}

/// The two requests have the numbers that their parts make up.
pub proof fn request_numbers_match()
    ensures
        VIDIOC_S_FMT == request_number(3, 0x56, 5, 208),
        VIDIOC_S_PARM == request_number(3, 0x56, 22, 204),
{
}

/// Byte `i` of a number in little-endian order.
pub open spec fn le_byte(v: u32, i: int) -> u8 {
    if i == 0 {
        (v % 0x100) as u8
    } else if i == 1 {
        (v / 0x100 % 0x100) as u8
    } else if i == 2 {
        (v / 0x1_0000 % 0x100) as u8
    } else {
        (v / 0x100_0000) as u8
    }
}

/// The buffer with a number put at an offset, in little-endian order.
pub open spec fn with_u32(buf: Seq<u8>, offset: int, v: u32) -> Seq<u8> {
    Seq::new(
        buf.len(),
        |i: int|
            if offset <= i < offset + 4 {
                le_byte(v, i - offset)
            } else {
                buf[i]
            },
    )
}

/// Puts a number at an offset, in little-endian order.
fn write_u32(buf: &mut Vec<u8>, offset: usize, val: u32)
    requires
        offset + 4 <= old(buf).len(),
    ensures
        final(buf)@ == with_u32(old(buf)@, offset as int, val),
{
    let ghost before = buf@;
    buf[offset] = (val % 0x100) as u8;
    buf[offset + 1] = (val / 0x100 % 0x100) as u8;
    buf[offset + 2] = (val / 0x1_0000 % 0x100) as u8;
    buf[offset + 3] = (val / 0x100_0000) as u8;
    assert(buf@ =~= with_u32(before, offset as int, val));
}

impl WebcamFormat {
    /// Bytes per pixel.
    pub open spec fn depth(self) -> u32 {
        match self {
            WebcamFormat::Yuyv => 2,
            WebcamFormat::Bgr4 => 4,
        }
    }

    /// The code that the device knows the format by.
    pub open spec fn code(self) -> u32 {
        match self {
            WebcamFormat::Yuyv => V4L2_PIX_FMT_YUYV,
            WebcamFormat::Bgr4 => V4L2_PIX_FMT_BGR32,
        }
    }
}

/// The buffer of the format request: type, width, height, pixel format, field,
/// bytes per line, bytes per image and colour space; zero elsewhere.
pub open spec fn format_buffer(width: u32, height: u32, format: WebcamFormat) -> Seq<u8> {
    let z = Seq::new(208, |i: int| 0u8);
    let b = with_u32(z, 0, V4L2_BUF_TYPE_VIDEO_OUTPUT);
    let b = with_u32(b, 8, width);
    let b = with_u32(b, 12, height);
    let b = with_u32(b, 16, format.code());
    let b = with_u32(b, 20, V4L2_FIELD_NONE);
    let b = with_u32(b, 24, (width * format.depth()) as u32);
    let b = with_u32(b, 28, (width * height * format.depth()) as u32);
    with_u32(b, 32, V4L2_COLORSPACE_SRGB)
}

/// Builds the buffer of the format request.
pub fn format_request(width: u32, height: u32, format: WebcamFormat) -> (r: Vec<u8>)
    requires
        width * format.depth() <= u32::MAX,
        width * height * format.depth() <= u32::MAX,
    ensures
        r@ == format_buffer(width, height, format),
        r@.len() == 208,
{
    proof {
        assert(0 <= width * height && width * height <= width * height * 2 && width * height
            <= width * height * 4) by (nonlinear_arith)
            requires
                width >= 0,
                height >= 0,
        ;
    }
    let (code, line, image): (u32, u32, u32) = match format {
        WebcamFormat::Yuyv => (V4L2_PIX_FMT_YUYV, width * 2, width * height * 2),
        WebcamFormat::Bgr4 => (V4L2_PIX_FMT_BGR32, width * 4, width * height * 4),
    };
    let mut fmt = filled(0u8, 208);
    write_u32(&mut fmt, 0, V4L2_BUF_TYPE_VIDEO_OUTPUT);
    write_u32(&mut fmt, 8, width);
    write_u32(&mut fmt, 12, height);
    write_u32(&mut fmt, 16, code);
    write_u32(&mut fmt, 20, V4L2_FIELD_NONE);
    write_u32(&mut fmt, 24, line);
    write_u32(&mut fmt, 28, image);
    write_u32(&mut fmt, 32, V4L2_COLORSPACE_SRGB);
    fmt
}

/// True if the sizes in the format request fit their fields.
pub fn format_fits(width: u32, height: u32, format: WebcamFormat) -> (r: bool)
    ensures
        r == (width * format.depth() <= u32::MAX && width * height * format.depth() <= u32::MAX),
{
    let depth: u128 = match format {
        WebcamFormat::Yuyv => 2,
        WebcamFormat::Bgr4 => 4,
    };
    proof {
        assert(0 <= width * height <= 0xFFFF_FFFF * 0xFFFF_FFFF) by (nonlinear_arith)
            requires
                0 <= width <= 0xFFFF_FFFF,
                0 <= height <= 0xFFFF_FFFF,
        ;
    }
    let max: u128 = 0xFFFF_FFFF;
    (width as u128) * depth <= max && (width as u128) * (height as u128) * depth <= max
}

/// The buffer of the parameter request: type, capability and the time per
/// frame as a fraction; zero elsewhere. A rate of zero counts as one.
pub open spec fn interval_buffer(fps: u32) -> Seq<u8> {
    let z = Seq::new(204, |i: int| 0u8);
    let b = with_u32(z, 0, V4L2_BUF_TYPE_VIDEO_OUTPUT);
    let b = with_u32(b, 4, V4L2_CAP_TIMEPERFRAME);
    let b = with_u32(b, 12, 1);
    with_u32(
        b,
        16,
        if fps == 0 {
            1
        } else {
            fps
        },
    )
}

/// Builds the buffer of the parameter request, which advertises the frame
/// interval.
pub fn interval_request(fps: u32) -> (r: Vec<u8>)
    ensures
        r@ == interval_buffer(fps),
        r@.len() == 204,
{
    let mut parm = filled(0u8, 204);
    write_u32(&mut parm, 0, V4L2_BUF_TYPE_VIDEO_OUTPUT);
    write_u32(&mut parm, 4, V4L2_CAP_TIMEPERFRAME);
    write_u32(&mut parm, 12, 1);
    write_u32(
        &mut parm,
        16,
        if fps == 0 {
            1
        } else {
            fps
        },
    );
    parm
}

// ---------------------------------------------------------------------------
// Choosing the device
// ---------------------------------------------------------------------------
/// A video device as the system lists it.
#[derive(Debug)]
pub struct VideoNode {
    /// The entry's name, such as `video2`.
    pub entry: String,
    /// The device's name; empty if it cannot be read.
    pub name: String,
    /// The device hangs on a physical bus.
    pub has_bus: bool,
}

/// The number of a video device.
pub open spec fn node_of(n: VideoNode) -> Option<Seq<char>> {
    text::without_prefix(n.entry@, "video"@)
}

/// The name says that the device is a loopback device.
pub open spec fn named_loopback(n: VideoNode) -> bool {
    let l = text::lowered(n.name@);
    text::occurs(l, "v4l2loopback"@) || text::occurs(l, "dummy video"@)
}

/// A named device without a bus: a virtual one.
pub open spec fn virtual_device(n: VideoNode) -> bool {
    !n.has_bus && text::words_of(n.name@).len() > 0
}

/// The first video device that is named as a loopback device, or, if `named`
/// is not asked for, that is a virtual one.
pub open spec fn first_device(nodes: Seq<VideoNode>, named: bool) -> Option<Seq<char>>
    decreases nodes.len(),
{
    if nodes.len() == 0 {
        None
    } else if node_of(nodes[0]) is Some && (if named {
        named_loopback(nodes[0])
    } else {
        virtual_device(nodes[0])
    }) {
        Some("/dev/video"@ + node_of(nodes[0])->0)
    } else {
        first_device(nodes.drop_first(), named)
    }
}

/// The device to use: the configured one, else the first named as a loopback
/// device, else the first virtual one.
pub open spec fn chosen_device(configured: Seq<char>, nodes: Seq<VideoNode>) -> Option<Seq<char>> {
    if configured.len() > 0 {
        Some(configured)
    } else {
        crate::assets::or_else(first_device(nodes, true), first_device(nodes, false))
    }
}

fn scan_devices(nodes: &Vec<VideoNode>, named: bool) -> (r: Option<String>)
    ensures
        text::opt_text(r) == first_device(nodes@, named),
{
    let mut i: usize = 0;
    assert(nodes@.skip(0) =~= nodes@);
    while i < nodes.len()
        invariant
            i <= nodes@.len(),
            first_device(nodes@, named) == first_device(nodes@.skip(i as int), named),
        decreases nodes@.len() - i,
    {
        assert(nodes@.skip(i as int).drop_first() =~= nodes@.skip(i + 1));
        let n = &nodes[i];
        if let Some(number) = strip_prefix(n.entry.as_str(), "video") {
            let suits = if named {
                let l = to_lower(n.name.as_str());
                contains(l.as_str(), "v4l2loopback") || contains(l.as_str(), "dummy video")
            } else {
                let w = words(n.name.as_str());
                assert(text::texts(w@).len() == w@.len());
                !n.has_bus && w.len() > 0
            };
            if suits {
                return Some(concat2("/dev/video", number.as_str()));
            }
        }
        i = i + 1;
    }
    None
}

/// Resolves the webcam device: the configured path, else the first of `nodes`
/// whose name mentions v4l2loopback or "Dummy video", else the first named one
/// without a bus (virtual devices have none, real webcams do).
pub fn find_device(configured: &str, nodes: &Vec<VideoNode>) -> (r: Option<String>)
    ensures
        text::opt_text(r) == chosen_device(configured@, nodes@),
{
    if !configured.is_empty() {
        return Some(configured.to_owned());
    }
    match scan_devices(nodes, true) {
        Some(d) => Some(d),
        None => scan_devices(nodes, false),
    }
}

// ---------------------------------------------------------------------------
// Background
// ---------------------------------------------------------------------------
/// What the avatar is composited onto.
#[derive(Debug)]
pub enum Background {
    /// A colour that a consumer can key out.
    Solid([u8; 3]),
    /// The bytes of an RGBA image of the frame's size.
    Image(Vec<u8>),
}

/// Why a background image cannot be used.
#[derive(Debug)]
pub struct BackgroundError {
    pub path: String,
    pub fault: ImageFault,
}

impl BackgroundError {
    /// The error text.
    pub open spec fn text(self) -> Seq<char> {
        match self.fault {
            ImageFault::Unreadable(cause) | ImageFault::Undecodable(cause) => "loading background image "@ + self.path@ + ": "@
                + cause@,
            ImageFault::Empty => "background image "@ + self.path@ + " is empty"@,
            ImageFault::TooLarge => "cannot scale background image "@ + self.path@,
        }
    }

    /// The error text.
    pub fn message(&self) -> (r: String)
        ensures
            r@ == self.text(),
    {
        match &self.fault {
            ImageFault::Unreadable(cause) | ImageFault::Undecodable(cause) => {
                let mut s = concat3("loading background image ", self.path.as_str(), ": ");
                s.append(cause.as_str());
                s
            },
            ImageFault::Empty => concat3("background image ", self.path.as_str(), " is empty"),
            ImageFault::TooLarge => concat2("cannot scale background image ", self.path.as_str()),
        }
    }
}

impl Background {
    /// Resolves the configured background: the colour where `image_path` is
    /// empty, else the image, of which `content` was read, scaled to a square
    /// of `size` pixels.
    pub fn load(
        image_path: &str,
        solid: [u8; 3],
        size: u32,
        content: &Result<Vec<u8>, String>,
    ) -> (r: Result<Background, BackgroundError>)
        ensures
            image_path@.len() == 0 ==> r == Ok::<Background, BackgroundError>(
                Background::Solid(solid),
            ),
            image_path@.len() > 0 ==> {
                let fault = images::image_fault(image_path@, *content, Some(size), true);
                match r {
                    Ok(Background::Image(bytes)) => {
                        &&& fault is None
                        &&& bytes@.len() == size * size * 4
                        &&& exists|out: pixels::Pic|
                            images::fitted(
                                images::picture_in(image_path@, *content)->0,
                                Some(size),
                                out,
                            ) && #[trigger] out.rgba == bytes@
                    },
                    Ok(Background::Solid(_)) => false,
                    Err(e) => fault == Some(e.fault.kind()) && e.path@ == image_path@,
                }
            },
    {
        if image_path.is_empty() {
            return Ok(Background::Solid(solid));
        }
        match load_image(image_path, content, Some(size), true) {
            Ok(img) => {
                let ghost out = img@;
                assert(out.width == size && out.height == size);
                assert(out.rgba == img.rgba@);
                Ok(Background::Image(img.rgba))
            },
            Err(fault) => Err(BackgroundError { path: image_path.to_owned(), fault }),
        }
    }
}

impl Background {
    /// The background covers `n` pixels.
    pub open spec fn covers(self, n: int) -> bool {
        self matches Background::Image(b) ==> b@.len() >= n * 4
    }

    /// Channel `c` (red, green, blue) behind pixel `p`.
    pub open spec fn behind(self, p: int, c: int) -> u8 {
        match self {
            Background::Solid(colour) => colour@[c],
            Background::Image(b) => b@[4 * p + c],
        }
    }

    /// True if the background covers `n` pixels.
    pub fn is_large_enough(&self, n: usize) -> (r: bool)
        ensures
            r == self.covers(n as int),
    {
        match self {
            Background::Solid(_) => true,
            Background::Image(b) => b.len() as u128 >= (n as u128) * 4,
        }
    }
}

/// Channel `c` of pixel `p` of an RGBA frame over the background.
pub open spec fn flat(rgba: Seq<u8>, bg: Background, p: int, c: int) -> u8 {
    pixels::mix(rgba[4 * p + 3], rgba[4 * p + c], bg.behind(p, c))
}

// ---------------------------------------------------------------------------
// BGRX
// ---------------------------------------------------------------------------
/// Byte `i` of the packed frame: blue, green, red and a byte of ones.
pub open spec fn bgrx_byte(rgba: Seq<u8>, bg: Background, i: int) -> u8 {
    if i % 4 == 3 {
        255
    } else {
        flat(rgba, bg, i / 4, 2 - i % 4)
    }
}

/// The frame over the background, packed as blue, green, red and filler.
pub open spec fn bgrx(rgba: Seq<u8>, bg: Background, pixels: nat) -> Seq<u8> {
    Seq::new(4 * pixels, |i: int| bgrx_byte(rgba, bg, i))
}

/// The bytes up to `n` are packed.
spec fn packed(out: Seq<u8>, rgba: Seq<u8>, bg: Background, n: int) -> bool {
    forall|i: int| 0 <= i < 4 * n ==> (#[trigger] out[i]) == bgrx_byte(rgba, bg, i)
}

/// The four bytes in one lane.
fn join_bytes(r: u8, g: u8, b: u8, a: u8) -> (v: u32)
    ensures
        v == (r as u32) | (g as u32) << 8 | (b as u32) << 16 | (a as u32) << 24,
{
    (r as u32) | (g as u32) << 8 | (b as u32) << 16 | (a as u32) << 24
}

/// Each byte comes back out of a lane.
proof fn lane_parts(r: u8, g: u8, b: u8, a: u8, v: u32)
    requires
        v == (r as u32) | (g as u32) << 8 | (b as u32) << 16 | (a as u32) << 24,
    ensures
        v >> 24 == a as u32,
        (v >> 16) & 255u32 == b as u32,
        (v >> 8) & 255u32 == g as u32,
        v & 255u32 == r as u32,
        v % 0x100 == r,
        v / 0x100 % 0x100 == g,
        v / 0x1_0000 % 0x100 == b,
        v / 0x100_0000 == a,
{
    assert(v >> 24 == a as u32 && (v >> 16) & 255u32 == b as u32 && (v >> 8) & 255u32 == g as u32
        && v & 255u32 == r as u32 && v % 0x100 == r && v / 0x100 % 0x100 == g && v / 0x1_0000
        % 0x100 == b && v / 0x100_0000 == a) by (bit_vector)
        requires
            v == (r as u32) | (g as u32) << 8 | (b as u32) << 16 | (a as u32) << 24,
    ;
}

/// Eight copies of a number.
fn splat(n: u32) -> (r: [u32; 8])
    ensures
        forall|i: int| 0 <= i < 8 ==> r@[i] == n,
{
    [n, n, n, n, n, n, n, n]
}

/// One channel of eight pixels over a backdrop: `a`, `s` and `d` hold bytes.
fn blend_lanes(a: [u32; 8], s: [u32; 8], d: u8) -> (r: [u32; 8])
    requires
        forall|i: int| 0 <= i < 8 ==> a@[i] <= 255 && s@[i] <= 255,
    ensures
        forall|i: int|
            0 <= i < 8 ==> (#[trigger] r@[i]) == pixels::mix(a@[i] as u8, s@[i] as u8, d),
{
    let inv = minus(splat(255), a);
    let back = splat(d as u32);
    let sum = plus(times(a, s), times(inv, back));
    let r = shift_right(plus(plus(sum, shift_right(sum, 8)), splat(1)), 8);
    proof {
        assert forall|i: int| 0 <= i < 8 implies (#[trigger] r@[i]) == pixels::mix(
            a@[i] as u8,
            s@[i] as u8,
            d,
        ) by {
            let (x, y) = (a@[i] as u8, s@[i] as u8);
            pixels::mix_bound(x, y, d);
            assert(0 <= x * y <= 65025 && 0 <= (255 - x) * d <= 65025) by (nonlinear_arith)
                requires
                    0 <= x <= 255,
                    0 <= y <= 255,
                    0 <= d <= 255,
            ;
            assert(inv@[i] == 255 - x);
            assert(a@[i] * s@[i] == x * y);
            assert(inv@[i] * back@[i] == (255 - x) * d);
            assert(sum@[i] == x * y + (255 - x) * d);
            pixels::shift_divides(sum@[i]);
        }
    }
    r
}

/// Packs eight pixels from pixel `base` on.
fn pack_eight(rgba: &Vec<u8>, bg: [u8; 3], base: usize, out: &mut Vec<u8>)
    requires
        (base + 8) * 4 <= rgba.len(),
        (base + 8) * 4 <= old(out).len(),
        packed(old(out)@, rgba@, Background::Solid(bg), base as int),
    ensures
        final(out).len() == old(out).len(),
        packed(final(out)@, rgba@, Background::Solid(bg), base + 8),
{
    let ghost n = out@.len();
    let ghost back = Background::Solid(bg);
    let mut px: [u32; 8] = splat(0);
    let mut k: usize = 0;
    while k < 8
        invariant
            k <= 8,
            (base + 8) * 4 <= rgba@.len(),
            rgba@.len() <= usize::MAX,
            forall|i: int|
                0 <= i < k ==> (#[trigger] px@[i]) == (rgba@[4 * (base + i)] as u32) | (rgba@[4 * (
                base + i) + 1] as u32) << 8 | (rgba@[4 * (base + i) + 2] as u32) << 16 | (rgba@[4
                    * (base + i) + 3] as u32) << 24,
        decreases 8 - k,
    {
        let j: usize = (base + k) * 4;
        px[k] = join_bytes(rgba[j], rgba[j + 1], rgba[j + 2], rgba[j + 3]);
        k = k + 1;
    }
    let ff = splat(255);
    let a = shift_right(px, 24);
    let b = bits_and(shift_right(px, 16), ff);
    let g = bits_and(shift_right(px, 8), ff);
    let r = bits_and(px, ff);
    proof {
        assert forall|i: int| 0 <= i < 8 implies {
            &&& (#[trigger] a@[i]) == rgba@[4 * (base + i) + 3]
            &&& b@[i] == rgba@[4 * (base + i) + 2]
            &&& g@[i] == rgba@[4 * (base + i) + 1]
            &&& r@[i] == rgba@[4 * (base + i)]
            &&& a@[i] <= 255 && b@[i] <= 255 && g@[i] <= 255 && r@[i] <= 255
        } by {
            let p = 4 * (base + i);
            lane_parts(rgba@[p], rgba@[p + 1], rgba@[p + 2], rgba@[p + 3], px@[i]);
        }
    }
    let red = blend_lanes(a, r, bg[0]);
    let green = blend_lanes(a, g, bg[1]);
    let blue = blend_lanes(a, b, bg[2]);
    let lanes = bits_or(
        bits_or(bits_or(blue, shift_left(green, 8)), shift_left(red, 16)),
        shift_left(ff, 24),
    );
    let ghost start = out@;
    let mut k: usize = 0;
    while k < 8
        invariant
            k <= 8,
            out@.len() == n,
            n <= usize::MAX,
            (base + 8) * 4 <= n,
            back == Background::Solid(bg),
            packed(out@, rgba@, back, base + k),
            forall|i: int|
                0 <= i < 8 ==> {
                    &&& (#[trigger] lanes@[i]) == (blue@[i] as u8 as u32) | (green@[i] as u8 as u32)
                        << 8 | (red@[i] as u8 as u32) << 16 | (255u8 as u32) << 24
                    &&& blue@[i] as u8 == flat(rgba@, back, base + i, 2)
                    &&& green@[i] as u8 == flat(rgba@, back, base + i, 1)
                    &&& red@[i] as u8 == flat(rgba@, back, base + i, 0)
                },
        decreases 8 - k,
    {
        let j: usize = (base + k) * 4;
        let v: u32 = lanes[k];
        let ghost before = out@;
        proof {
            assert(lanes@[k as int] == v);
            lane_parts(
                blue@[k as int] as u8,
                green@[k as int] as u8,
                red@[k as int] as u8,
                255u8,
                v,
            );
        }
        write_u32(out, j, v);
        proof {
            assert forall|i: int| 0 <= i < 4 * (base + k + 1) implies (#[trigger] out@[i])
                == bgrx_byte(rgba@, back, i) by {
                if i < 4 * (base + k) {
                    assert(out@[i] == before[i]);
                } else {
                    assert(i / 4 == base + k);
                }
            }
        }
        k = k + 1;
    }
}

/// Packs one pixel.
fn pack_one(rgba: &Vec<u8>, back: [u8; 3], p: usize, out: &mut Vec<u8>)
    requires
        (p + 1) * 4 <= rgba.len(),
        (p + 1) * 4 <= old(out).len(),
    ensures
        final(out).len() == old(out).len(),
        forall|i: int|
            0 <= i < old(out).len() && !(4 * p <= i < 4 * p + 4) ==> (#[trigger] final(out)@[i])
                == old(out)@[i],
        final(out)@[4 * p] == pixels::mix(rgba@[4 * p + 3], rgba@[4 * p + 2], back@[2]),
        final(out)@[4 * p + 1] == pixels::mix(rgba@[4 * p + 3], rgba@[4 * p + 1], back@[1]),
        final(out)@[4 * p + 2] == pixels::mix(rgba@[4 * p + 3], rgba@[4 * p], back@[0]),
        final(out)@[4 * p + 3] == 255,
{
    let j: usize = p * 4;
    let a = rgba[j + 3];
    let red = mix_byte(a, rgba[j], back[0]);
    let green = mix_byte(a, rgba[j + 1], back[1]);
    let blue = mix_byte(a, rgba[j + 2], back[2]);
    out[j] = blue;
    out[j + 1] = green;
    out[j + 2] = red;
    out[j + 3] = 255;
}

proof fn one_more_packed(before: Seq<u8>, out: Seq<u8>, rgba: Seq<u8>, bg: Background, p: int)
    requires
        0 <= p,
        packed(before, rgba, bg, p),
        before.len() == out.len(),
        4 * p + 4 <= out.len(),
        forall|i: int| 0 <= i < before.len() && !(4 * p <= i < 4 * p + 4) ==> (#[trigger] out[i])
            == before[i],
        out[4 * p] == flat(rgba, bg, p, 2),
        out[4 * p + 1] == flat(rgba, bg, p, 1),
        out[4 * p + 2] == flat(rgba, bg, p, 0),
        out[4 * p + 3] == 255,
    ensures
        packed(out, rgba, bg, p + 1),
{
    assert forall|i: int| 0 <= i < 4 * (p + 1) implies (#[trigger] out[i]) == bgrx_byte(
        rgba,
        bg,
        i,
    ) by {
        if i >= 4 * p {
            assert(i / 4 == p);
            assert(i == 4 * p || i == 4 * p + 1 || i == 4 * p + 2 || i == 4 * p + 3);
        }
    }
}

/// Gives the buffer `n` bytes.
fn set_size(out: &mut Vec<u8>, n: usize)
    ensures
        final(out).len() == n,
{
    if out.len() != n {
        out.resize(n, 0);
    }
}

fn rgba_to_bgra_solid(frame: &Frame, bg: [u8; 3], out: &mut Vec<u8>)
    requires
        frame@.full(),
    ensures
        final(out)@ == bgrx(
            frame.rgba@,
            Background::Solid(bg),
            (frame.width * frame.height) as nat,
        ),
{
    let ghost back = Background::Solid(bg);
    let len: usize = frame.rgba.len();
    let n: usize = len / 4;
    assert(n == frame.width * frame.height);
    set_size(out, len);
    let chunks: usize = n / 8;
    let mut c: usize = 0;
    while c < chunks
        invariant
            c <= chunks,
            chunks == n / 8,
            len == 4 * n,
            len == frame.rgba@.len(),
            out@.len() == len,
            back == Background::Solid(bg),
            packed(out@, frame.rgba@, back, 8 * c),
        decreases chunks - c,
    {
        pack_eight(&frame.rgba, bg, c * 8, out);
        c = c + 1;
    }
    let mut i: usize = chunks * 8;
    while i < n
        invariant
            i <= n,
            len == 4 * n,
            len == frame.rgba@.len(),
            out@.len() == len,
            back == Background::Solid(bg),
            packed(out@, frame.rgba@, back, i as int),
        decreases n - i,
    {
        let ghost before = out@;
        pack_one(&frame.rgba, bg, i, out);
        proof {
            one_more_packed(before, out@, frame.rgba@, back, i as int);
        }
        i = i + 1;
    }
    assert(out@ =~= bgrx(frame.rgba@, back, n as nat));
}

fn rgba_to_bgra_image(frame: &Frame, bg: &Vec<u8>, out: &mut Vec<u8>)
    requires
        frame@.full(),
        bg.len() >= frame.rgba.len(),
    ensures
        final(out)@ == bgrx(
            frame.rgba@,
            Background::Image(*bg),
            (frame.width * frame.height) as nat,
        ),
{
    let ghost back = Background::Image(*bg);
    let len: usize = frame.rgba.len();
    let n: usize = len / 4;
    assert(n == frame.width * frame.height);
    set_size(out, len);
    let mut i: usize = 0;
    while i < n
        invariant
            i <= n,
            len == 4 * n,
            len == frame.rgba@.len(),
            bg@.len() >= len,
            out@.len() == len,
            back == Background::Image(*bg),
            packed(out@, frame.rgba@, back, i as int),
        decreases n - i,
    {
        let ghost before = out@;
        let j: usize = i * 4;
        pack_one(&frame.rgba, [bg[j], bg[j + 1], bg[j + 2]], i, out);
        proof {
            one_more_packed(before, out@, frame.rgba@, back, i as int);
        }
        i = i + 1;
    }
    assert(out@ =~= bgrx(frame.rgba@, back, n as nat));
}

/// Composites the frame over the background and packs it as blue, green, red
/// and a filler byte.
pub fn rgba_to_bgra(frame: &Frame, bg: &Background, out: &mut Vec<u8>)
    requires
        frame@.full(),
        bg.covers(frame.width * frame.height),
    ensures
        final(out)@ == bgrx(frame.rgba@, *bg, (frame.width * frame.height) as nat),
{
    match bg {
        Background::Solid(c) => rgba_to_bgra_solid(frame, *c, out),
        Background::Image(b) => rgba_to_bgra_image(frame, b, out),
    }
}

// ---------------------------------------------------------------------------
// YUYV
// ---------------------------------------------------------------------------
/// Luma of a colour: BT.601, full range.
pub open spec fn luma(r: u8, g: u8, b: u8) -> u8 {
    ((77 * r + 150 * g + 29 * b + 128) / 256) as u8
}

/// Blue-difference chroma of a colour.
pub open spec fn chroma_blue(r: u8, g: u8, b: u8) -> int {
    (-43 * r - 84 * g + 127 * b + 128) / 256 + 128
}

/// Red-difference chroma of a colour.
pub open spec fn chroma_red(r: u8, g: u8, b: u8) -> int {
    (127 * r - 106 * g - 21 * b + 128) / 256 + 128
}

/// The chroma values fill a byte without clamping.
pub proof fn chroma_is_a_byte(r: u8, g: u8, b: u8)
    ensures
        0 <= chroma_blue(r, g, b) <= 255,
        0 <= chroma_red(r, g, b) <= 255,
{
}

/// Luma of pixel `p` over the background.
pub open spec fn pixel_luma(rgba: Seq<u8>, bg: Background, p: int) -> u8 {
    luma(flat(rgba, bg, p, 0), flat(rgba, bg, p, 1), flat(rgba, bg, p, 2))
}

/// Blue-difference chroma of pixel `p` over the background.
pub open spec fn pixel_blue(rgba: Seq<u8>, bg: Background, p: int) -> int {
    chroma_blue(flat(rgba, bg, p, 0), flat(rgba, bg, p, 1), flat(rgba, bg, p, 2))
}

/// Red-difference chroma of pixel `p` over the background.
pub open spec fn pixel_red(rgba: Seq<u8>, bg: Background, p: int) -> int {
    chroma_red(flat(rgba, bg, p, 0), flat(rgba, bg, p, 1), flat(rgba, bg, p, 2))
}

/// Byte `i` of the packed frame. Two neighbouring pixels share four bytes:
/// luma, blue difference, luma, red difference; the differences are averaged.
pub open spec fn yuyv_byte(rgba: Seq<u8>, bg: Background, i: int) -> u8 {
    let p = 2 * (i / 4);
    if i % 4 == 0 {
        pixel_luma(rgba, bg, p)
    } else if i % 4 == 1 {
        ((pixel_blue(rgba, bg, p) + pixel_blue(rgba, bg, p + 1) + 1) / 2) as u8
    } else if i % 4 == 2 {
        pixel_luma(rgba, bg, p + 1)
    } else {
        ((pixel_red(rgba, bg, p) + pixel_red(rgba, bg, p + 1) + 1) / 2) as u8
    }
}

/// The frame over the background, packed two bytes per pixel.
pub open spec fn yuyv(rgba: Seq<u8>, bg: Background, pixels: nat) -> Seq<u8> {
    Seq::new(2 * pixels, |i: int| yuyv_byte(rgba, bg, i))
}

/// Luma and both chroma values of a colour.
fn to_yuv(r: u8, g: u8, b: u8) -> (o: (u8, u32, u32))
    ensures
        o.0 == luma(r, g, b),
        o.1 == chroma_blue(r, g, b),
        o.2 == chroma_red(r, g, b),
        o.1 <= 255,
        o.2 <= 255,
{
    let (r, g, b): (u32, u32, u32) = (r as u32, g as u32, b as u32);
    let y: u32 = (77 * r + 150 * g + 29 * b + 128) / 256;
    // The offset of 128 is added before the division, as 128 times 256.
    let cb: u32 = (32896 + 127 * b - 43 * r - 84 * g) / 256;
    let cr: u32 = (32896 + 127 * r - 106 * g - 21 * b) / 256;
    (y as u8, cb, cr)
}

/// One pixel over a backdrop, as luma and both chroma values.
fn flat_yuv(rgba: &Vec<u8>, p: usize, back: [u8; 3]) -> (o: (u8, u32, u32))
    requires
        (p + 1) * 4 <= rgba.len(),
    ensures
        ({
            let a = rgba@[4 * p + 3];
            let r = pixels::mix(a, rgba@[4 * p], back@[0]);
            let g = pixels::mix(a, rgba@[4 * p + 1], back@[1]);
            let b = pixels::mix(a, rgba@[4 * p + 2], back@[2]);
            &&& o.0 == luma(r, g, b)
            &&& o.1 == chroma_blue(r, g, b)
            &&& o.2 == chroma_red(r, g, b)
        }),
        o.1 <= 255,
        o.2 <= 255,
{
    let j: usize = p * 4;
    let a = rgba[j + 3];
    let r = mix_byte(a, rgba[j], back[0]);
    let g = mix_byte(a, rgba[j + 1], back[1]);
    let b = mix_byte(a, rgba[j + 2], back[2]);
    to_yuv(r, g, b)
}

/// The colour behind a pixel.
fn backdrop(bg: &Background, p: usize) -> (r: [u8; 3])
    requires
        bg.covers(p + 1),
    ensures
        r@[0] == bg.behind(p as int, 0),
        r@[1] == bg.behind(p as int, 1),
        r@[2] == bg.behind(p as int, 2),
{
    match bg {
        Background::Solid(c) => *c,
        Background::Image(b) => {
            assert(4 * (p + 1) <= b.len());
            let j: usize = p * 4;
            [b[j], b[j + 1], b[j + 2]]
        },
    }
}

/// Composites the frame over the background and packs it as YUYV. Two pixels
/// of a row share their chroma, so the width must be even.
pub fn rgba_to_yuyv(frame: &Frame, bg: &Background, out: &mut Vec<u8>)
    requires
        frame@.full(),
        frame.width % 2 == 0,
        bg.covers(frame.width * frame.height),
    ensures
        final(out)@ == yuyv(frame.rgba@, *bg, (frame.width * frame.height) as nat),
{
    let len: usize = frame.rgba.len();
    let pairs: usize = len / 8;
    let ghost n = frame.width * frame.height;
    proof {
        let half = frame.width / 2;
        assert(frame.width * frame.height == 2 * (half * frame.height)) by (nonlinear_arith)
            requires
                frame.width == 2 * half,
        ;
        assert(len == 8 * (half * frame.height));
    }
    assert(n == 2 * pairs);
    set_size(out, pairs * 4);
    let mut m: usize = 0;
    while m < pairs
        invariant
            m <= pairs,
            len == 8 * pairs,
            len == frame.rgba@.len(),
            bg.covers(2 * pairs),
            out@.len() == 4 * pairs,
            forall|i: int|
                0 <= i < 4 * m ==> (#[trigger] out@[i]) == yuyv_byte(frame.rgba@, *bg, i),
        decreases pairs - m,
    {
        let ghost before = out@;
        let p: usize = 2 * m;
        let one = flat_yuv(&frame.rgba, p, backdrop(bg, p));
        let two = flat_yuv(&frame.rgba, p + 1, backdrop(bg, p + 1));
        let o: usize = 4 * m;
        out[o] = one.0;
        out[o + 1] = ((one.1 + two.1 + 1) / 2) as u8;
        out[o + 2] = two.0;
        out[o + 3] = ((one.2 + two.2 + 1) / 2) as u8;
        proof {
            assert forall|i: int| 0 <= i < 4 * (m + 1) implies (#[trigger] out@[i]) == yuyv_byte(
                frame.rgba@,
                *bg,
                i,
            ) by {
                if i < 4 * m {
                    assert(out@[i] == before[i]);
                } else {
                    assert(i / 4 == m);
                    assert(i == 4 * m || i == 4 * m + 1 || i == 4 * m + 2 || i == 4 * m + 3);
                }
            }
        }
        m = m + 1;
    }
    assert(out@ =~= yuyv(frame.rgba@, *bg, n as nat));
}

// ---------------------------------------------------------------------------
// Write statistics
// ---------------------------------------------------------------------------
/// How a write to the device ended.
#[derive(Debug, Clone, Copy, PartialEq, Eq, Structural)]
pub enum WriteOutcome {
    /// So many bytes were written.
    Wrote(usize),
    /// The device could not take the frame now.
    WouldBlock,
    /// The write failed.
    Failed,
}

/// Frames between two summaries.
pub const SUMMARY_EVERY: u64 = 60;

/// Write behaviour of the device: whole frames written, frames skipped, and
/// the longest write since the last summary.
#[derive(Debug, Clone, Copy, PartialEq, Eq, Structural)]
pub struct WriteStats {
    pub written: u64,
    pub skipped: u64,
    pub max_write_us: u128,
    pub since_summary: u64,
}

impl WriteStats {
    /// No writes yet.
    pub fn new() -> (r: WriteStats)
        ensures
            r == (WriteStats { written: 0, skipped: 0, max_write_us: 0, since_summary: 0 }),
    {
        WriteStats { written: 0, skipped: 0, max_write_us: 0, since_summary: 0 }
    }

    /// The statistics after one more write. Only a whole frame counts as
    /// written.
    pub open spec fn counted(self, outcome: WriteOutcome, frame_len: usize, us: u128) -> WriteStats {
        let whole = outcome == WriteOutcome::Wrote(frame_len);
        WriteStats {
            written: if whole {
                (self.written + 1) as u64
            } else {
                self.written
            },
            skipped: if whole {
                self.skipped
            } else {
                (self.skipped + 1) as u64
            },
            max_write_us: if us > self.max_write_us {
                us
            } else {
                self.max_write_us
            },
            since_summary: (self.since_summary + 1) as u64,
        }
    }

    /// Counts a write of a frame of `frame_len` bytes that took `us`
    /// microseconds. Every sixty writes it gives the statistics to report, and
    /// the count and the longest time start over.
    pub fn record(&mut self, outcome: WriteOutcome, frame_len: usize, us: u128) -> (r: Option<
        WriteStats,
    >)
        requires
            old(self).written < u64::MAX,
            old(self).skipped < u64::MAX,
            old(self).since_summary < u64::MAX,
        ensures
            ({
                let s = old(self).counted(outcome, frame_len, us);
                if s.since_summary >= SUMMARY_EVERY {
                    &&& r == Some(s)
                    &&& *final(self) == (WriteStats { max_write_us: 0, since_summary: 0, ..s })
                } else {
                    &&& r is None
                    &&& *final(self) == s
                }
            }),
            r is Some <==> old(self).since_summary + 1 >= 60,
    {
        let whole = match outcome {
            WriteOutcome::Wrote(n) => n == frame_len,
            WriteOutcome::WouldBlock => false,
            WriteOutcome::Failed => false,
        };
        if whole {
            self.written = self.written + 1;
        } else {
            self.skipped = self.skipped + 1;
        }
        if us > self.max_write_us {
            self.max_write_us = us;
        }
        self.since_summary = self.since_summary + 1;
        if self.since_summary >= SUMMARY_EVERY {
            let s = *self;
            self.since_summary = 0;
            self.max_write_us = 0;
            Some(s)
        } else {
            None
        }
    }
}

// ---------------------------------------------------------------------------
// Laws
// ---------------------------------------------------------------------------
/// An opaque pixel keeps its colour, whatever the background; a transparent
/// one shows the background.
pub proof fn opaque_keeps_transparent_shows(rgba: Seq<u8>, bg: Background, p: int, c: int)
    ensures
        rgba[4 * p + 3] == 255 ==> flat(rgba, bg, p, c) == rgba[4 * p + c],
        rgba[4 * p + 3] == 0 ==> flat(rgba, bg, p, c) == bg.behind(p, c),
{
    pixels::mix_ends(rgba[4 * p + c], bg.behind(p, c));
}

/// A background image of one colour gives the same bytes as that colour.
pub proof fn uniform_image_equals_solid(rgba: Seq<u8>, image: Vec<u8>, colour: [u8; 3], n: nat)
    requires
        forall|p: int, c: int|
            #![trigger image@[4 * p + c]]
            0 <= p < n && 0 <= c < 3 ==> image@[4 * p + c] == colour@[c],
    ensures
        bgrx(rgba, Background::Image(image), n) == bgrx(rgba, Background::Solid(colour), n),
        n % 2 == 0 ==> yuyv(rgba, Background::Image(image), n) == yuyv(
            rgba,
            Background::Solid(colour),
            n,
        ),
{
    let (a, b) = (Background::Image(image), Background::Solid(colour));
    assert forall|p: int, c: int| 0 <= p < n && 0 <= c < 3 implies #[trigger] flat(rgba, a, p, c)
        == flat(rgba, b, p, c) by {
        assert(image@[4 * p + c] == colour@[c]);
    }
    assert forall|i: int| 0 <= i < 4 * n implies bgrx_byte(rgba, a, i) == bgrx_byte(rgba, b, i) by {
        if i % 4 != 3 {
            assert(flat(rgba, a, i / 4, 2 - i % 4) == flat(rgba, b, i / 4, 2 - i % 4));
        }
    }
    assert(bgrx(rgba, a, n) =~= bgrx(rgba, b, n));
    if n % 2 == 0 {
        assert forall|i: int| 0 <= i < 2 * n implies yuyv_byte(rgba, a, i) == yuyv_byte(
            rgba,
            b,
            i,
        ) by {
            let p = 2 * (i / 4);
            assert(0 <= p && p + 1 < n);
            assert(flat(rgba, a, p, 0) == flat(rgba, b, p, 0));
            assert(flat(rgba, a, p, 1) == flat(rgba, b, p, 1));
            assert(flat(rgba, a, p, 2) == flat(rgba, b, p, 2));
            assert(flat(rgba, a, p + 1, 0) == flat(rgba, b, p + 1, 0));
            assert(flat(rgba, a, p + 1, 1) == flat(rgba, b, p + 1, 1));
            assert(flat(rgba, a, p + 1, 2) == flat(rgba, b, p + 1, 2));
        }
        assert(yuyv(rgba, a, n) =~= yuyv(rgba, b, n));
    }
}

/// Every pixel of a frame that is packed as BGRX is its own pixel blended over
/// its own pixel of the background: the colour channels stand in the order
/// blue, green, red, each the weighted mean of the two, rounded down, and a
/// byte of ones fills up. Where the frame is transparent, the background shows,
/// byte for byte; where it is opaque, the frame.
pub proof fn each_pixel_blends_over_its_own_backdrop(
    rgba: Seq<u8>,
    bg: Background,
    n: nat,
    p: int,
    c: int,
)
    requires
        0 <= p < n,
        0 <= c < 3,
    ensures
        ({
            let out = bgrx(rgba, bg, n);
            let o = out[4 * p + 2 - c];
            let (a, s) = (rgba[4 * p + 3], rgba[4 * p + c]);
            let d = match bg {
                Background::Solid(colour) => colour@[c],
                Background::Image(bytes) => bytes@[4 * p + c],
            };
            &&& out.len() == 4 * n
            &&& 255 * o <= a * s + (255 - a) * d < 255 * o + 255
            &&& a == 0 ==> o == d
            &&& a == 255 ==> o == s
            &&& out[4 * p + 3] == 255
        }),
{
    let d = bg.behind(p, c);
    pixels::mix_bound(rgba[4 * p + 3], rgba[4 * p + c], d);
    pixels::mix_ends(rgba[4 * p + c], d);
    let i = 4 * p + 2 - c;
    assert(i / 4 == p && i % 4 == 2 - c);
    assert((4 * p + 3) % 4 == 3);
}

/// Luma and chroma are those of BT.601 in full range: the weighted sums of the
/// channels in units of 1/256, rounded to the nearest whole, chroma around 128.
pub proof fn colours_have_bt601_values(r: u8, g: u8, b: u8)
    ensures
        256 * luma(r, g, b) <= 77 * r + 150 * g + 29 * b + 128 < 256 * luma(r, g, b) + 256,
        256 * (chroma_blue(r, g, b) - 128) <= 127 * b - 84 * g - 43 * r + 128 < 256 * (chroma_blue(
            r,
            g,
            b,
        ) - 128) + 256,
        256 * (chroma_red(r, g, b) - 128) <= 127 * r - 106 * g - 21 * b + 128 < 256 * (chroma_red(
            r,
            g,
            b,
        ) - 128) + 256,
{
}

/// A pair of pixels is packed as YUYV from what a viewer would see of them:
/// with the colours `x` and `y` of the two pixels over their own pixels of the
/// background, the four bytes are the luma of `x`, the mean blue difference,
/// the luma of `y` and the mean red difference, by the weights of BT.601. The
/// results are the differences of each pixel, blue and red.
pub proof fn each_pair_is_packed_by_its_colours(
    rgba: Seq<u8>,
    bg: Background,
    n: nat,
    m: int,
    x: Seq<u8>,
    y: Seq<u8>,
) -> (r: ((int, int), (int, int)))
    requires
        0 <= m,
        2 * m + 1 < n,
        forall|c: int|
            0 <= c < 3 ==> {
                let (a, s) = (rgba[8 * m + 3], rgba[8 * m + c]);
                let d = match bg {
                    Background::Solid(colour) => colour@[c],
                    Background::Image(bytes) => bytes@[8 * m + c],
                };
                255 * (#[trigger] x[c]) <= a * s + (255 - a) * d < 255 * x[c] + 255
            },
        forall|c: int|
            0 <= c < 3 ==> {
                let (a, s) = (rgba[8 * m + 7], rgba[8 * m + 4 + c]);
                let d = match bg {
                    Background::Solid(colour) => colour@[c],
                    Background::Image(bytes) => bytes@[8 * m + 4 + c],
                };
                255 * (#[trigger] y[c]) <= a * s + (255 - a) * d < 255 * y[c] + 255
            },
    ensures
        ({
            let out = yuyv(rgba, bg, n);
            let ((bx, by), (rx, ry)) = r;
            &&& out.len() == 2 * n
            &&& 256 * out[4 * m] <= 77 * x[0] + 150 * x[1] + 29 * x[2] + 128 < 256 * out[4 * m]
                + 256
            &&& 256 * out[4 * m + 2] <= 77 * y[0] + 150 * y[1] + 29 * y[2] + 128 < 256 * out[4 * m
                + 2] + 256
            &&& 256 * (bx - 128) <= 127 * x[2] - 84 * x[1] - 43 * x[0] + 128 < 256 * (bx - 128)
                + 256
            &&& 256 * (by - 128) <= 127 * y[2] - 84 * y[1] - 43 * y[0] + 128 < 256 * (by - 128)
                + 256
            &&& 256 * (rx - 128) <= 127 * x[0] - 106 * x[1] - 21 * x[2] + 128 < 256 * (rx - 128)
                + 256
            &&& 256 * (ry - 128) <= 127 * y[0] - 106 * y[1] - 21 * y[2] + 128 < 256 * (ry - 128)
                + 256
            &&& 2 * out[4 * m + 1] <= bx + by + 1 < 2 * out[4 * m + 1] + 2
            &&& 2 * out[4 * m + 3] <= rx + ry + 1 < 2 * out[4 * m + 3] + 2
        }),
{
    let (p, q) = (2 * m, 2 * m + 1);
    assert forall|c: int| 0 <= c < 3 implies flat(rgba, bg, p, c) == #[trigger] x[c] by {
        pixels::mix_bound(rgba[4 * p + 3], rgba[4 * p + c], bg.behind(p, c));
    }
    assert forall|c: int| 0 <= c < 3 implies flat(rgba, bg, q, c) == #[trigger] y[c] by {
        pixels::mix_bound(rgba[4 * q + 3], rgba[4 * q + c], bg.behind(q, c));
    }
    colours_have_bt601_values(x[0], x[1], x[2]);
    colours_have_bt601_values(y[0], y[1], y[2]);
    chroma_is_a_byte(x[0], x[1], x[2]);
    chroma_is_a_byte(y[0], y[1], y[2]);
    assert((4 * m) / 4 == m && (4 * m + 1) / 4 == m && (4 * m + 2) / 4 == m && (4 * m + 3) / 4
        == m);
    let out = yuyv(rgba, bg, n);
    assert(out[4 * m] == yuyv_byte(rgba, bg, 4 * m));
    assert(out[4 * m + 1] == yuyv_byte(rgba, bg, 4 * m + 1));
    assert(out[4 * m + 2] == yuyv_byte(rgba, bg, 4 * m + 2));
    assert(out[4 * m + 3] == yuyv_byte(rgba, bg, 4 * m + 3));
    (
        (chroma_blue(x[0], x[1], x[2]), chroma_blue(y[0], y[1], y[2])),
        (chroma_red(x[0], x[1], x[2]), chroma_red(y[0], y[1], y[2])),
    )
}

/// The number that four bytes from an offset on stand for, the lowest first.
pub open spec fn number_at(buf: Seq<u8>, offset: int) -> int {
    buf[offset] + 0x100 * buf[offset + 1] + 0x1_0000 * buf[offset + 2] + 0x100_0000 * buf[offset
        + 3]
}

proof fn number_is_put(buf: Seq<u8>, offset: int, v: u32, at: int)
    requires
        0 <= offset,
        offset + 4 <= buf.len(),
        0 <= at,
        at + 4 <= buf.len(),
    ensures
        number_at(with_u32(buf, offset, v), offset) == v,
        at + 4 <= offset || offset + 4 <= at ==> number_at(with_u32(buf, offset, v), at)
            == number_at(buf, at),
{
    let after = with_u32(buf, offset, v);
    assert(after[offset] == v % 0x100);
    assert(after[offset + 1] == v / 0x100 % 0x100);
    assert(after[offset + 2] == v / 0x1_0000 % 0x100);
    assert(after[offset + 3] == v / 0x100_0000);
}

/// The format request carries, where the device looks for them: a video
/// output, the size, the pixel format, no interlacing, the bytes of a line and
/// of an image, and the sRGB colour space. All other bytes are zero.
pub proof fn format_request_is_read_back(width: u32, height: u32, format: WebcamFormat)
    requires
        width * format.depth() <= u32::MAX,
        width * height * format.depth() <= u32::MAX,
    ensures
        ({
            let buf = format_buffer(width, height, format);
            let yuyv = format == WebcamFormat::Yuyv;
            &&& buf.len() == 208
            &&& number_at(buf, 0) == 2
            &&& number_at(buf, 8) == width
            &&& number_at(buf, 12) == height
            &&& number_at(buf, 16) == if yuyv {
                0x5659_5559int
            } else {
                0x3452_4742int
            }
            &&& number_at(buf, 20) == 1
            &&& number_at(buf, 24) == width * (if yuyv {
                2int
            } else {
                4int
            })
            &&& number_at(buf, 28) == width * height * (if yuyv {
                2int
            } else {
                4int
            })
            &&& number_at(buf, 32) == 8
            &&& forall|i: int| 4 <= i < 8 || 36 <= i < 208 ==> (#[trigger] buf[i]) == 0
        }),
{
    assert(0 <= width * height) by (nonlinear_arith)
        requires
            width >= 0,
            height >= 0,
    ;
    let b0 = with_u32(Seq::new(208, |i: int| 0u8), 0, V4L2_BUF_TYPE_VIDEO_OUTPUT);
    let b1 = with_u32(b0, 8, width);
    let b2 = with_u32(b1, 12, height);
    let b3 = with_u32(b2, 16, format.code());
    let b4 = with_u32(b3, 20, V4L2_FIELD_NONE);
    let line = (width * format.depth()) as u32;
    let image = (width * height * format.depth()) as u32;
    let b5 = with_u32(b4, 24, line);
    let b6 = with_u32(b5, 28, image);
    number_is_put(Seq::new(208, |i: int| 0u8), 0, V4L2_BUF_TYPE_VIDEO_OUTPUT, 0);
    number_is_put(b0, 8, width, 0);
    number_is_put(b1, 12, height, 0);
    number_is_put(b1, 12, height, 8);
    number_is_put(b2, 16, format.code(), 0);
    number_is_put(b2, 16, format.code(), 8);
    number_is_put(b2, 16, format.code(), 12);
    number_is_put(b3, 20, V4L2_FIELD_NONE, 0);
    number_is_put(b3, 20, V4L2_FIELD_NONE, 8);
    number_is_put(b3, 20, V4L2_FIELD_NONE, 12);
    number_is_put(b3, 20, V4L2_FIELD_NONE, 16);
    number_is_put(b4, 24, line, 0);
    number_is_put(b4, 24, line, 8);
    number_is_put(b4, 24, line, 12);
    number_is_put(b4, 24, line, 16);
    number_is_put(b4, 24, line, 20);
    number_is_put(b5, 28, image, 0);
    number_is_put(b5, 28, image, 8);
    number_is_put(b5, 28, image, 12);
    number_is_put(b5, 28, image, 16);
    number_is_put(b5, 28, image, 20);
    number_is_put(b5, 28, image, 24);
    number_is_put(b6, 32, V4L2_COLORSPACE_SRGB, 0);
    number_is_put(b6, 32, V4L2_COLORSPACE_SRGB, 8);
    number_is_put(b6, 32, V4L2_COLORSPACE_SRGB, 12);
    number_is_put(b6, 32, V4L2_COLORSPACE_SRGB, 16);
    number_is_put(b6, 32, V4L2_COLORSPACE_SRGB, 20);
    number_is_put(b6, 32, V4L2_COLORSPACE_SRGB, 24);
    number_is_put(b6, 32, V4L2_COLORSPACE_SRGB, 28);
}

/// The parameter request carries a video output, the capability of a time per
/// frame, and that time as one over the rate, where a rate of zero counts as
/// one. All other bytes are zero.
pub proof fn interval_request_is_read_back(fps: u32)
    ensures
        ({
            let buf = interval_buffer(fps);
            &&& buf.len() == 204
            &&& number_at(buf, 0) == 2
            &&& number_at(buf, 4) == 0x1000
            &&& number_at(buf, 12) == 1
            &&& fps > 0 ==> number_at(buf, 16) == fps
            &&& fps == 0 ==> number_at(buf, 16) == 1
            &&& forall|i: int| 8 <= i < 12 || 20 <= i < 204 ==> (#[trigger] buf[i]) == 0
        }),
{
    let z = Seq::new(204, |i: int| 0u8);
    let rate: u32 = if fps == 0 {
        1
    } else {
        fps
    };
    let b0 = with_u32(z, 0, V4L2_BUF_TYPE_VIDEO_OUTPUT);
    let b1 = with_u32(b0, 4, V4L2_CAP_TIMEPERFRAME);
    let b2 = with_u32(b1, 12, 1);
    number_is_put(z, 0, V4L2_BUF_TYPE_VIDEO_OUTPUT, 0);
    number_is_put(b0, 4, V4L2_CAP_TIMEPERFRAME, 0);
    number_is_put(b1, 12, 1, 0);
    number_is_put(b1, 12, 1, 4);
    number_is_put(b2, 16, rate, 0);
    number_is_put(b2, 16, rate, 4);
    number_is_put(b2, 16, rate, 12);
}

/// The device is the first that suits: of the listed devices, one is taken
/// only if its entry is `video` with a number, it is named as a loopback device
/// (or, where that is not asked for, is named and has no bus), and none before
/// it is so; nothing is taken only if none is so.
pub proof fn first_suitable_device_is_taken(nodes: Seq<VideoNode>, named: bool, i: int)
    requires
        0 <= i < nodes.len(),
    ensures
        ({
            let suits = |n: VideoNode|
                "video"@.is_prefix_of(n.entry@) && (if named {
                    text::occurs(text::lowered(n.name@), "v4l2loopback"@) || text::occurs(
                        text::lowered(n.name@),
                        "dummy video"@,
                    )
                } else {
                    !n.has_bus && text::words_of(n.name@).len() > 0
                });
            let first = suits(nodes[i]) && forall|j: int|
                0 <= j < i ==> !suits(#[trigger] nodes[j]);
            &&& first ==> first_device(nodes, named) == Some(
                "/dev/video"@ + nodes[i].entry@.skip(5),
            )
            &&& first_device(nodes, named) is None ==> !suits(nodes[i])
        }),
    decreases nodes.len(),
{
    reveal_strlit("video");
    assert forall|n: VideoNode| (#[trigger] node_of(n)) is Some == "video"@.is_prefix_of(
        n.entry@,
    ) by {
        if n.entry@.len() >= 5 {
            assert(n.entry@.subrange(0, 5) =~= n.entry@.take(5));
        }
    }
    assert(node_of(nodes[i]) is Some == "video"@.is_prefix_of(nodes[i].entry@));
    assert(node_of(nodes[0]) is Some == "video"@.is_prefix_of(nodes[0].entry@));
    if i > 0 {
        assert(nodes[0] == nodes[0]);
        let rest = nodes.drop_first();
        assert forall|j: int| 0 <= j < i - 1 implies rest[j] == #[trigger] nodes[j + 1] by {}
        first_suitable_device_is_taken(rest, named, i - 1);
        assert(rest[i - 1] == nodes[i]);
    }
}

/// The configured device wins; without one, a device that is named as a
/// loopback device wins over every virtual one.
pub proof fn device_preference(configured: Seq<char>, nodes: Seq<VideoNode>)
    ensures
        configured.len() > 0 ==> chosen_device(configured, nodes) == Some(configured),
        configured.len() == 0 && first_device(nodes, true) is Some ==> chosen_device(
            configured,
            nodes,
        ) == first_device(nodes, true),
        configured.len() == 0 && first_device(nodes, true) is None ==> chosen_device(
            configured,
            nodes,
        ) == first_device(nodes, false),
{
}

/// Every write counts once, as written if the whole frame went out and as
/// skipped otherwise, and the longest time is kept.
pub proof fn every_write_counts_once(s: WriteStats, outcome: WriteOutcome, len: usize, us: u128)
    requires
        s.written < u64::MAX,
        s.skipped < u64::MAX,
        s.since_summary < u64::MAX,
    ensures
        ({
            let t = s.counted(outcome, len, us);
            &&& t.written + t.skipped == s.written + s.skipped + 1
            &&& t.written == s.written + 1 <==> (outcome matches WriteOutcome::Wrote(n) && n == len)
            &&& t.written >= s.written
            &&& t.skipped >= s.skipped
            &&& t.since_summary == s.since_summary + 1
            &&& t.max_write_us >= s.max_write_us
            &&& t.max_write_us >= us
            &&& t.max_write_us == s.max_write_us || t.max_write_us == us
        }),
{
}

/// White has the greatest luma, black the least, and greys have neutral
/// chroma.
pub proof fn grey_is_neutral(v: u8)
    ensures
        luma(255, 255, 255) == 255,
        luma(0, 0, 0) == 0,
        luma(v, v, v) == v,
        chroma_blue(v, v, v) == 128,
        chroma_red(v, v, v) == 128,
{
}

/// A packed frame has four bytes per pixel in one format and two in the other,
/// as the format request announces.
pub proof fn packed_sizes(rgba: Seq<u8>, bg: Background, n: nat)
    ensures
        bgrx(rgba, bg, n).len() == n * WebcamFormat::Bgr4.depth(),
        yuyv(rgba, bg, n).len() == n * WebcamFormat::Yuyv.depth(),
{
    assert(WebcamFormat::Bgr4.depth() == 4 && WebcamFormat::Yuyv.depth() == 2);
}

/// The text of an error mentions the background's path, and the cause where one
/// is known.
pub proof fn background_errors_mention_the_file(e: BackgroundError)
    ensures
        text::occurs(e.text(), e.path@),
        e.fault matches ImageFault::Unreadable(cause) ==> text::occurs(e.text(), cause@),
        e.fault matches ImageFault::Undecodable(cause) ==> text::occurs(e.text(), cause@),
{
    let none = Seq::<char>::empty();
    match e.fault {
        ImageFault::Unreadable(cause) | ImageFault::Undecodable(cause) => {
            let a = "loading background image "@;
            text::parts_occur(a, e.path@, ": "@ + cause@);
            text::parts_occur(a + e.path@ + ": "@, cause@, none);
            assert(a + e.path@ + ": "@ + cause@ =~= a + e.path@ + (": "@ + cause@));
        },
        ImageFault::Empty => {
            text::parts_occur("background image "@, e.path@, " is empty"@);
        },
        ImageFault::TooLarge => {
            text::parts_occur("cannot scale background image "@, e.path@, none);
        },
    }
}

/// The number of a request holds, from the top, the direction, the size, the
/// type and the number, each in its own bits.
pub proof fn request_numbers_have_four_fields(dir: u32, type_: u8, nr: u32, size: u32)
    ensures
        ({
            let n = request_number(dir, type_, nr, size);
            &&& n / 0x4000_0000 == dir % 4
            &&& n / 0x1_0000 % 0x4000 == size % 0x4000
            &&& n / 0x100 % 0x100 == type_
            &&& n % 0x100 == nr % 0x100
        }),
{
    let (d, z) = ((dir % 4) as int, (size % 0x4000) as int);
    let (t, q) = (type_ as int, (nr % 0x100) as int);
    let n = request_number(dir, type_, nr, size);
    lemma_fundamental_div_mod_converse(n, 0x100, d * 0x40_0000 + z * 0x100 + t, q);
    lemma_fundamental_div_mod_converse(n / 0x100, 0x100, d * 0x4000 + z, t);
    lemma_fundamental_div_mod_converse(n, 0x1_0000, d * 0x4000 + z, t * 0x100 + q);
    lemma_fundamental_div_mod_converse(n / 0x1_0000, 0x4000, d, z);
    lemma_fundamental_div_mod_converse(n, 0x4000_0000, d, z * 0x1_0000 + t * 0x100 + q);
}

/// A colour covers every frame, and an image every frame that has no more
/// pixels.
pub proof fn backgrounds_cover_frames(colour: [u8; 3], image: Vec<u8>, n: int)
    ensures
        Background::Solid(colour).covers(n),
        Background::Image(image).covers(n) <==> image@.len() >= 4 * n,
{
}

} // verus!
