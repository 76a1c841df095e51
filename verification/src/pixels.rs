//! RGBA frames and the alpha-over blend.
use vstd::arithmetic::div_mod::{lemma_fundamental_div_mod, lemma_fundamental_div_mod_converse};
use vstd::prelude::*;

verus! {

/// A composited RGBA frame: `width * height * 4` bytes, straight alpha,
/// row-major from the top.
#[derive(Debug, Clone)]
pub struct Frame {
    pub width: u32,
    pub height: u32,
    pub rgba: Vec<u8>,
}

/// What a [`Frame`] shows.
#[verifier::ext_equal]
pub struct Pic {
    pub width: u32,
    pub height: u32,
    pub rgba: Seq<u8>,
}

impl View for Frame {
    type V = Pic;

    open spec fn view(&self) -> Pic {
        Pic { width: self.width, height: self.height, rgba: self.rgba@ }
    }
}

impl Pic {
    /// There are four bytes for each pixel.
    pub open spec fn full(self) -> bool {
        self.rgba.len() == self.width * self.height * 4
    }

    /// The alpha byte of the pixel in column `x` of row `y`.
    pub open spec fn alpha(self, x: int, y: int) -> u8 {
        self.rgba[(y * self.width + x) * 4 + 3]
    }

    /// The four bytes of the pixel in column `x` of row `y`.
    pub open spec fn pixel(self, x: int, y: int) -> Seq<u8> {
        self.rgba.subrange((y * self.width + x) * 4, (y * self.width + x) * 4 + 4)
    }

    /// The pixel is inside the picture and not fully transparent.
    pub open spec fn shows(self, x: int, y: int) -> bool {
        0 <= x < self.width && 0 <= y < self.height && self.alpha(x, y) != 0
    }

    /// Some pixel of the column shows.
    pub open spec fn column_shows(self, x: int) -> bool {
        exists|y: int| self.shows(x, y)
    }

    /// Some pixel of the row shows.
    pub open spec fn row_shows(self, y: int) -> bool {
        exists|x: int| self.shows(x, y)
    }
}

// ---------------------------------------------------------------------------
// Blending
// ---------------------------------------------------------------------------
/// The channel value of a source `s` with alpha `a` over a backdrop `d`.
pub open spec fn mix(a: u8, s: u8, d: u8) -> u8 {
    ((a * s + (255 - a) * d) / 255) as u8
}

/// The sum under the division stays within the range of two bytes.
pub proof fn mix_bound(a: u8, s: u8, d: u8)
    ensures
        0 <= a * s + (255 - a) * d <= 65025,
        0 <= (a * s + (255 - a) * d) / 255 <= 255,
        mix(a, s, d) == (a * s + (255 - a) * d) / 255,
{
    assert(0 <= a * s + (255 - a) * d <= 65025) by (nonlinear_arith)
        requires
            0 <= a <= 255,
            0 <= s <= 255,
            0 <= d <= 255,
    ;
}

/// An opaque source hides the backdrop, a transparent one leaves it.
pub proof fn mix_ends(s: u8, d: u8)
    ensures
        mix(255, s, d) == s,
        mix(0, s, d) == d,
{
    mix_bound(255, s, d);
    mix_bound(0, s, d);
}

/// A channel value over an equal backdrop stays.
pub proof fn mix_same(a: u8, s: u8)
    ensures
        mix(a, s, s) == s,
{
    assert(a * s + (255 - a) * s == 255 * s) by (nonlinear_arith);
}

/// Division by 255 without a division: `(x + (x >> 8) + 1) >> 8` is `x / 255`
/// on `[0, 65025]`.
pub proof fn shift_divides(x: u32)
    requires
        x <= 65025,
    ensures
        x + (x >> 8) + 1 <= 0xFFFF_FFFF,
        ((x + (x >> 8) + 1) as u32) >> 8 == x / 255,
{
    assert(x + (x >> 8) + 1 <= 0xFFFF_FFFF && ((x + (x >> 8) + 1) as u32) >> 8 == x / 255)
        by (bit_vector)
        requires
            x <= 65025,
    ;
}

/// `sum / 255`, exactly.
pub fn div255(sum: u32) -> (r: u32)
    requires
        sum <= 65025,
    ensures
        r == sum / 255,
        r <= 255,
{
    proof {
        shift_divides(sum);
    }
    (sum + (sum >> 8) + 1) >> 8
}

/// The channel value of a source `s` with alpha `a` over a backdrop `d`.
pub fn mix_byte(a: u8, s: u8, d: u8) -> (r: u8)
    ensures
        r == mix(a, s, d),
{
    proof {
        mix_bound(a, s, d);
        assert(0 <= a * s <= 65025 && 0 <= (255 - a) * d <= 65025) by (nonlinear_arith)
            requires
                0 <= a <= 255,
                0 <= s <= 255,
                0 <= d <= 255,
        ;
    }
    let sum: u32 = (a as u32) * (s as u32) + (255 - a as u32) * (d as u32);
    div255(sum) as u8
}

// ---------------------------------------------------------------------------
// Bounding boxes
// ---------------------------------------------------------------------------
/// Half-open pixel rectangle `[x0, x1) x [y0, y1)`.
#[derive(Debug, Clone, Copy, PartialEq, Eq, Structural)]
pub struct BBox {
    pub x0: u32,
    pub y0: u32,
    pub x1: u32,
    pub y1: u32,
}

impl BBox {
    /// The rectangle holds no pixel.
    pub open spec fn empty(self) -> bool {
        self.x0 >= self.x1 || self.y0 >= self.y1
    }

    /// The rectangle holds the pixel in column `x` of row `y`.
    pub open spec fn holds(self, x: int, y: int) -> bool {
        self.x0 <= x < self.x1 && self.y0 <= y < self.y1
    }
}

/// `b` is the smallest rectangle that holds every pixel that shows; for a
/// fully transparent picture it is the rectangle of zeros.
pub open spec fn is_opaque_box(pic: Pic, b: BBox) -> bool {
    if exists|x: int, y: int| pic.shows(x, y) {
        &&& b.x0 < b.x1 <= pic.width
        &&& b.y0 < b.y1 <= pic.height
        &&& forall|x: int, y: int| #[trigger] pic.shows(x, y) ==> b.holds(x, y)
        &&& pic.column_shows(b.x0 as int)
        &&& pic.column_shows(b.x1 - 1)
        &&& pic.row_shows(b.y0 as int)
        &&& pic.row_shows(b.y1 - 1)
    } else {
        b == BBox { x0: 0, y0: 0, x1: 0, y1: 0 }
    }
}

/// A picture has one smallest rectangle.
pub proof fn opaque_box_unique(pic: Pic, a: BBox, b: BBox)
    requires
        is_opaque_box(pic, a),
        is_opaque_box(pic, b),
    ensures
        a == b,
{
    if exists|x: int, y: int| pic.shows(x, y) {
        let (ax1, bx1, ay1, by1) = (a.x1 - 1, b.x1 - 1, a.y1 - 1, b.y1 - 1);
        let ya0 = choose|y: int| pic.shows(a.x0 as int, y);
        let yb0 = choose|y: int| pic.shows(b.x0 as int, y);
        let ya1 = choose|y: int| pic.shows(ax1, y);
        let yb1 = choose|y: int| pic.shows(bx1, y);
        let xa0 = choose|x: int| pic.shows(x, a.y0 as int);
        let xb0 = choose|x: int| pic.shows(x, b.y0 as int);
        let xa1 = choose|x: int| pic.shows(x, ay1);
        let xb1 = choose|x: int| pic.shows(x, by1);
        assert(b.holds(a.x0 as int, ya0) && a.holds(b.x0 as int, yb0));
        assert(b.holds(a.x1 - 1, ya1) && a.holds(b.x1 - 1, yb1));
        assert(b.holds(xa0, a.y0 as int) && a.holds(xb0, b.y0 as int));
        assert(b.holds(xa1, a.y1 - 1) && a.holds(xb1, b.y1 - 1));
    }
}

/// A pixel inside a `w` by `h` picture has its bytes inside the buffer.
pub proof fn pixel_in_bounds(w: int, h: int, x: int, y: int)
    requires
        0 <= x < w,
        0 <= y < h,
    ensures
        0 <= y * w + x,
        (y * w + x) * 4 + 4 <= w * h * 4,
        y * w <= h * w,
{
    assert(y * w + w <= h * w) by (nonlinear_arith)
        requires
            0 <= y,
            y + 1 <= h,
            0 <= w,
    ;
    assert(0 <= y * w) by (nonlinear_arith)
        requires
            0 <= y,
            0 <= w,
    ;
    assert(w * h * 4 == (h * w) * 4) by (nonlinear_arith);
}

/// Finds the smallest rectangle that holds every pixel that is not fully
/// transparent.
pub fn opaque_bbox(img: &Frame) -> (r: BBox)
    requires
        img@.full(),
    ensures
        is_opaque_box(img@, r),
{
    let (w, h): (u32, u32) = (img.width, img.height);
    let mut x0: u32 = w;
    let mut y0: u32 = h;
    let mut x1: u32 = 0;
    let mut y1: u32 = 0;
    let ghost pic = img@;
    let ghost mut any = false;
    let n: usize = img.rgba.len();
    let mut y: u32 = 0;
    let mut p: usize = 0;
    while y < h
        invariant
            y <= h,
            w == img.width,
            h == img.height,
            pic == img@,
            pic.full(),
            n == pic.rgba.len(),
            p == y * w,
            any == (exists|u: int, v: int| pic.shows(u, v) && v < y),
            !any ==> x0 == w && y0 == h && x1 == 0 && y1 == 0,
            any ==> {
                &&& x0 < x1 <= w
                &&& y0 < y1 <= y
                &&& pic.column_shows(x0 as int)
                &&& pic.column_shows(x1 - 1)
                &&& pic.row_shows(y0 as int)
                &&& pic.row_shows(y1 - 1)
            },
            forall|u: int, v: int|
                #![trigger pic.shows(u, v)]
                pic.shows(u, v) && v < y ==> x0 <= u < x1 && y0 <= v < y1,
        decreases h - y,
    {
        let mut x: u32 = 0;
        while x < w
            invariant
                x <= w,
                y < h,
                w == img.width,
                h == img.height,
                pic == img@,
                pic.full(),
                n == pic.rgba.len(),
                p == y * w + x,
                any == (exists|u: int, v: int| pic.shows(u, v) && (v < y || (v == y && u < x))),
                !any ==> x0 == w && y0 == h && x1 == 0 && y1 == 0,
                any ==> {
                    &&& x0 < x1 <= w
                    &&& y0 < y1 <= y + 1
                    &&& pic.column_shows(x0 as int)
                    &&& pic.column_shows(x1 - 1)
                    &&& pic.row_shows(y0 as int)
                    &&& pic.row_shows(y1 - 1)
                },
                forall|u: int, v: int|
                    #![trigger pic.shows(u, v)]
                    pic.shows(u, v) && (v < y || (v == y && u < x)) ==> x0 <= u < x1 && y0 <= v
                        < y1,
            decreases w - x,
        {
            proof {
                pixel_in_bounds(w as int, h as int, x as int, y as int);
            }
            let a = img.rgba[p * 4 + 3];
            assert(a == pic.alpha(x as int, y as int));
            if a != 0 {
                assert(pic.shows(x as int, y as int));
                if x < x0 {
                    x0 = x;
                }
                if x >= x1 {
                    x1 = x + 1;
                }
                if y < y0 {
                    y0 = y;
                }
                y1 = y + 1;
                proof {
                    any = true;
                }
            } else {
                assert(!pic.shows(x as int, y as int));
            }
            x = x + 1;
            p = p + 1;
        }
        proof {
            pixel_rows_step(w as int, y as int);
        }
        y = y + 1;
    }
    if x0 >= x1 || y0 >= y1 {
        BBox { x0: 0, y0: 0, x1: 0, y1: 0 }
    } else {
        BBox { x0, y0, x1, y1 }
    }
}

proof fn pixel_rows_step(w: int, y: int)
    ensures
        y * w + w == (y + 1) * w,
{
    assert(y * w + w == (y + 1) * w) by (nonlinear_arith);
}

// ---------------------------------------------------------------------------
// Alpha-over
// ---------------------------------------------------------------------------
/// Pixel `p` of `top` laid over pixel `p` of `bottom`: transparent pixels leave
/// the backdrop, others are mixed with it and become opaque.
pub open spec fn laid(bottom: Seq<u8>, top: Seq<u8>, p: int) -> Seq<u8> {
    let a = top[4 * p + 3];
    if a == 0 {
        bottom
    } else {
        bottom.update(4 * p, mix(a, top[4 * p], bottom[4 * p])).update(
            4 * p + 1,
            mix(a, top[4 * p + 1], bottom[4 * p + 1]),
        ).update(4 * p + 2, mix(a, top[4 * p + 2], bottom[4 * p + 2])).update(4 * p + 3, 255)
    }
}

/// The pixels `from..to` of `top` laid over those of `bottom`, in order.
pub open spec fn laid_run(bottom: Seq<u8>, top: Seq<u8>, from: int, to: int) -> Seq<u8>
    decreases to - from,
{
    if from >= to {
        bottom
    } else {
        laid(laid_run(bottom, top, from, to - 1), top, to - 1)
    }
}

/// The columns `x0..x1` of the rows `y0..y1` laid over `bottom`, where both
/// buffers are taken to have rows of `w` pixels.
pub open spec fn laid_rows(
    bottom: Seq<u8>,
    top: Seq<u8>,
    w: int,
    x0: int,
    x1: int,
    y0: int,
    y1: int,
) -> Seq<u8>
    decreases y1 - y0,
{
    if y0 >= y1 {
        bottom
    } else {
        laid_run(
            laid_rows(bottom, top, w, x0, x1, y0, y1 - 1),
            top,
            (y1 - 1) * w + x0,
            (y1 - 1) * w + x1,
        )
    }
}

/// The part of `top` inside the rectangle laid over `bottom`.
pub open spec fn overlaid_box(bottom: Seq<u8>, top: Seq<u8>, w: int, b: BBox) -> Seq<u8> {
    if b.empty() {
        bottom
    } else {
        laid_rows(bottom, top, w, b.x0 as int, b.x1 as int, b.y0 as int, b.y1 as int)
    }
}

/// With rows of `w` pixels, the rectangle lies inside a buffer of `len` bytes.
pub open spec fn box_fits(b: BBox, w: int, len: int) -> bool {
    b.empty() || ((b.y1 - 1) * w + b.x1) * 4 <= len
}

/// True if, with rows of `w` pixels, the rectangle lies inside a buffer of
/// `len` bytes.
pub fn fits_in(b: BBox, w: u32, len: usize) -> (r: bool)
    ensures
        r == box_fits(b, w as int, len as int),
{
    if b.x0 >= b.x1 || b.y0 >= b.y1 {
        return true;
    }
    proof {
        assert(0 <= (b.y1 - 1) * w <= 0xFFFF_FFFE * 0xFFFF_FFFF) by (nonlinear_arith)
            requires
                1 <= b.y1 <= 0xFFFF_FFFF,
                0 <= w <= 0xFFFF_FFFF,
        ;
    }
    let end: u128 = ((b.y1 - 1) as u128) * (w as u128) + (b.x1 as u128);
    end * 4 <= len as u128
}

proof fn laid_run_len(bottom: Seq<u8>, top: Seq<u8>, from: int, to: int)
    requires
        0 <= from,
        4 * to <= bottom.len(),
    ensures
        laid_run(bottom, top, from, to).len() == bottom.len(),
    decreases to - from,
{
    if from < to {
        laid_run_len(bottom, top, from, to - 1);
    }
}

proof fn laid_rows_len(
    bottom: Seq<u8>,
    top: Seq<u8>,
    w: int,
    x0: int,
    x1: int,
    y0: int,
    y1: int,
)
    requires
        0 <= x0 <= x1,
        0 <= w,
        0 <= y0,
        y0 < y1 ==> ((y1 - 1) * w + x1) * 4 <= bottom.len(),
    ensures
        laid_rows(bottom, top, w, x0, x1, y0, y1).len() == bottom.len(),
    decreases y1 - y0,
{
    if y0 < y1 {
        assert(0 <= (y1 - 1) * w && (y1 - 2) * w + w == (y1 - 1) * w) by (nonlinear_arith)
            requires
                1 <= y1,
                0 <= w,
        ;
        laid_rows_len(bottom, top, w, x0, x1, y0, y1 - 1);
        laid_run_len(
            laid_rows(bottom, top, w, x0, x1, y0, y1 - 1),
            top,
            (y1 - 1) * w + x0,
            (y1 - 1) * w + x1,
        );
    }
}

/// Laying a layer over a buffer keeps the buffer's size.
pub proof fn overlay_keeps_size(bottom: Seq<u8>, top: Seq<u8>, w: int, b: BBox)
    requires
        0 <= w,
        box_fits(b, w, bottom.len() as int),
    ensures
        overlaid_box(bottom, top, w, b).len() == bottom.len(),
{
    if !b.empty() {
        laid_rows_len(bottom, top, w, b.x0 as int, b.x1 as int, b.y0 as int, b.y1 as int);
    }
}

/// Lays the part of `top` inside the rectangle over `bottom`. Transparent
/// pixels are skipped, opaque ones copied, others mixed.
pub fn overlay_bbox(bottom: &mut Vec<u8>, top: &Vec<u8>, b: BBox, width: u32)
    requires
        box_fits(b, width as int, old(bottom).len() as int),
        box_fits(b, width as int, top.len() as int),
    ensures
        final(bottom)@ == overlaid_box(old(bottom)@, top@, width as int, b),
{
    if b.x0 >= b.x1 || b.y0 >= b.y1 {
        return;
    }
    let ghost before = bottom@;
    let ghost w = width as int;
    let n: usize = bottom.len();
    let m: usize = top.len();
    let mut y: u32 = b.y0;
    while y < b.y1
        invariant
            b.y0 <= y <= b.y1,
            b.x0 < b.x1,
            w == width,
            n == bottom@.len(),
            m == top@.len(),
            ((b.y1 - 1) * w + b.x1) * 4 <= n,
            ((b.y1 - 1) * w + b.x1) * 4 <= m,
            bottom@ == laid_rows(
                before,
                top@,
                w,
                b.x0 as int,
                b.x1 as int,
                b.y0 as int,
                y as int,
            ),
        decreases b.y1 - y,
    {
        proof {
            assert(0 <= y * w <= (b.y1 - 1) * w) by (nonlinear_arith)
                requires
                    0 <= y <= b.y1 - 1,
                    0 <= w,
            ;
        }
        let row: usize = (y as usize) * (width as usize);
        let ghost rows = bottom@;
        let mut x: u32 = b.x0;
        while x < b.x1
            invariant
                b.x0 <= x <= b.x1,
                n == bottom@.len(),
                m == top@.len(),
                (row + b.x1) * 4 <= n,
                (row + b.x1) * 4 <= m,
                bottom@ == laid_run(rows, top@, row + b.x0, row + x),
            decreases b.x1 - x,
        {
            let ghost run = bottom@;
            let i: usize = (row + x as usize) * 4;
            let a = top[i + 3];
            proof {
                mix_ends(top@[i as int], run[i as int]);
                mix_ends(top@[i + 1], run[i + 1]);
                mix_ends(top@[i + 2], run[i + 2]);
            }
            if a == 255 {
                bottom[i] = top[i];
                bottom[i + 1] = top[i + 1];
                bottom[i + 2] = top[i + 2];
                bottom[i + 3] = 255;
            } else if a != 0 {
                bottom[i] = mix_byte(a, top[i], bottom[i]);
                bottom[i + 1] = mix_byte(a, top[i + 1], bottom[i + 1]);
                bottom[i + 2] = mix_byte(a, top[i + 2], bottom[i + 2]);
                bottom[i + 3] = 255;
            }
            assert(bottom@ =~= laid(run, top@, row + x));
            x = x + 1;
        }
        y = y + 1;
    }
}

// ---------------------------------------------------------------------------
// What an overlay does to each byte
// ---------------------------------------------------------------------------
/// Byte `i` of `top` laid over byte `i` of `bottom`, under the alpha of the
/// pixel that the byte belongs to.
pub open spec fn over_byte(bottom: Seq<u8>, top: Seq<u8>, i: int) -> u8 {
    let a = top[4 * (i / 4) + 3];
    if a == 0 {
        bottom[i]
    } else if i % 4 == 3 {
        255
    } else {
        mix(a, top[i], bottom[i])
    }
}

proof fn laid_run_byte(bottom: Seq<u8>, top: Seq<u8>, from: int, to: int, i: int)
    requires
        0 <= from,
        4 * to <= bottom.len(),
        4 * to <= top.len(),
        0 <= i < bottom.len(),
    ensures
        laid_run(bottom, top, from, to)[i] == if from <= i / 4 < to {
            over_byte(bottom, top, i)
        } else {
            bottom[i]
        },
    decreases to - from,
{
    if from < to {
        let p = to - 1;
        laid_run_byte(bottom, top, from, p, i);
        laid_run_len(bottom, top, from, p);
        let run = laid_run(bottom, top, from, p);
        if i / 4 == p {
            assert(i == 4 * p || i == 4 * p + 1 || i == 4 * p + 2 || i == 4 * p + 3);
            assert(run[i] == bottom[i]);
        } else {
            assert(i < 4 * p || i > 4 * p + 3);
        }
    }
}

proof fn laid_rows_byte(
    bottom: Seq<u8>,
    top: Seq<u8>,
    w: int,
    x0: int,
    x1: int,
    y0: int,
    y1: int,
    i: int,
)
    requires
        0 <= x0 < x1 <= w,
        0 <= y0,
        y0 < y1 ==> ((y1 - 1) * w + x1) * 4 <= bottom.len(),
        y0 < y1 ==> ((y1 - 1) * w + x1) * 4 <= top.len(),
        0 <= i < bottom.len(),
    ensures
        laid_rows(bottom, top, w, x0, x1, y0, y1)[i] == if y0 <= (i / 4) / w < y1 && x0 <= (i / 4)
            % w < x1 {
            over_byte(bottom, top, i)
        } else {
            bottom[i]
        },
    decreases y1 - y0,
{
    if y0 < y1 {
        let y = y1 - 1;
        let p = i / 4;
        let from = y * w + x0;
        let to = y * w + x1;
        assert(0 <= y * w && (y - 1) * w + w == y * w) by (nonlinear_arith)
            requires
                0 <= y,
                0 <= w,
        ;
        laid_rows_byte(bottom, top, w, x0, x1, y0, y, i);
        laid_rows_len(bottom, top, w, x0, x1, y0, y);
        let rows = laid_rows(bottom, top, w, x0, x1, y0, y);
        laid_run_byte(rows, top, from, to, i);
        lemma_fundamental_div_mod(p, w);
        let (q, r) = (p / w, p % w);
        assert(0 <= r < w) by (nonlinear_arith)
            requires
                r == p % w,
                w > 0,
        ;
        if from <= p < to {
            lemma_fundamental_div_mod_converse(p, w, y, p - y * w);
            assert(rows[i] == bottom[i]);
        } else if q == y {
            assert(w * q == y * w) by (nonlinear_arith)
                requires
                    q == y,
            ;
            assert(!(x0 <= r < x1));
        }
    }
}

/// Cropping to the rectangle of visible pixels loses nothing: laying a layer
/// over a canvas of the same width changes every byte of the overlap as if the
/// whole layer were blended, and no byte beyond it.
pub proof fn cropping_loses_nothing(bottom: Seq<u8>, pic: Pic, b: BBox, i: int)
    requires
        pic.full(),
        is_opaque_box(pic, b),
        box_fits(b, pic.width as int, bottom.len() as int),
        0 <= i < bottom.len(),
    ensures
        overlaid_box(bottom, pic.rgba, pic.width as int, b)[i] == if i < pic.rgba.len() {
            over_byte(bottom, pic.rgba, i)
        } else {
            bottom[i]
        },
{
    let w = pic.width as int;
    let h = pic.height as int;
    let p = i / 4;
    if !b.empty() {
        pixel_in_bounds(w, h, b.x1 - 1, b.y1 - 1);
        laid_rows_byte(
            bottom,
            pic.rgba,
            w,
            b.x0 as int,
            b.x1 as int,
            b.y0 as int,
            b.y1 as int,
            i,
        );
    }
    if i < pic.rgba.len() {
        assert(w > 0 && h > 0) by (nonlinear_arith)
            requires
                0 <= i < w * h * 4,
                w >= 0,
                h >= 0,
        ;
        let (x, y) = (p % w, p / w);
        lemma_fundamental_div_mod(p, w);
        assert(p < w * h) by (nonlinear_arith)
            requires
                i < w * h * 4,
                p == i / 4,
        ;
        assert(0 <= x < w && 0 <= y < h) by (nonlinear_arith)
            requires
                w > 0,
                0 <= p < w * h,
                x == p % w,
                y == p / w,
        ;
        assert(y * w == w * y) by (nonlinear_arith);
        assert(pic.alpha(x, y) == pic.rgba[4 * p + 3]);
        if b.empty() || !b.holds(x, y) {
            assert(!pic.shows(x, y));
        }
    } else if !b.empty() {
        let (x, y) = (p % w, p / w);
        if b.holds(x, y) {
            lemma_fundamental_div_mod(p, w);
            assert(y * w == w * y) by (nonlinear_arith);
            pixel_in_bounds(w, h, x, y);
            assert(false);
        }
    }
}

/// `above` is what shows of `below` under a layer with as many pixels: each
/// byte of a transparent pixel stays, and each other pixel becomes opaque, its
/// channels the means of both, weighted by its alpha and rounded down.
pub open spec fn lies_over(below: Seq<u8>, layer: Seq<u8>, above: Seq<u8>) -> bool {
    &&& above.len() == below.len()
    &&& forall|i: int|
        0 <= i < below.len() ==> {
            let a = layer[4 * (i / 4) + 3];
            &&& a == 0 ==> (#[trigger] above[i]) == below[i]
            &&& a != 0 && i % 4 == 3 ==> above[i] == 255
            &&& a != 0 && i % 4 != 3 ==> 255 * above[i] <= a * layer[i] + (255 - a) * below[i]
                < 255 * above[i] + 255
        }
}

/// A layer over a canvas of its size blends every pixel with the one below it.
pub proof fn whole_layer_is_blended(bottom: Seq<u8>, pic: Pic, b: BBox)
    requires
        pic.full(),
        is_opaque_box(pic, b),
        bottom.len() == pic.rgba.len(),
    ensures
        lies_over(bottom, pic.rgba, overlaid_box(bottom, pic.rgba, pic.width as int, b)),
{
    let w = pic.width as int;
    if !b.empty() {
        pixel_in_bounds(w, pic.height as int, b.x1 - 1, b.y1 - 1);
    }
    let above = overlaid_box(bottom, pic.rgba, w, b);
    overlay_keeps_size(bottom, pic.rgba, w, b);
    assert forall|i: int| 0 <= i < bottom.len() implies {
        let a = pic.rgba[4 * (i / 4) + 3];
        &&& a == 0 ==> (#[trigger] above[i]) == bottom[i]
        &&& a != 0 && i % 4 == 3 ==> above[i] == 255
        &&& a != 0 && i % 4 != 3 ==> 255 * above[i] <= a * pic.rgba[i] + (255 - a) * bottom[i]
            < 255 * above[i] + 255
    } by {
        cropping_loses_nothing(bottom, pic, b, i);
        mix_bound(pic.rgba[4 * (i / 4) + 3], pic.rgba[i], bottom[i]);
    }
}

/// Where an opaque pixel lies over another, it replaces it; what is below a
/// transparent one shows.
pub proof fn ends_of_lying_over(below: Seq<u8>, layer: Seq<u8>, above: Seq<u8>, i: int)
    requires
        lies_over(below, layer, above),
        0 <= i < below.len(),
    ensures
        layer[4 * (i / 4) + 3] == 0 ==> above[i] == below[i],
        layer[4 * (i / 4) + 3] == 255 ==> above[i] == layer[i],
{
    if i % 4 == 3 {
        assert(i == 4 * (i / 4) + 3);
    }
}

/// On a canvas with rows of `w` pixels, a layer changes only the pixels inside
/// its rectangle, and blends each of those with the one below it.
pub proof fn only_the_rectangle_is_blended(
    bottom: Seq<u8>,
    top: Seq<u8>,
    w: int,
    b: BBox,
    i: int,
)
    requires
        !b.empty(),
        b.x1 <= w,
        box_fits(b, w, bottom.len() as int),
        box_fits(b, w, top.len() as int),
        0 <= i < bottom.len(),
    ensures
        ({
            let out = overlaid_box(bottom, top, w, b)[i];
            let (x, y) = ((i / 4) % w, (i / 4) / w);
            let inside = b.x0 <= x < b.x1 && b.y0 <= y < b.y1;
            let a = top[4 * (i / 4) + 3];
            &&& !inside || a == 0 ==> out == bottom[i]
            &&& inside && a != 0 && i % 4 == 3 ==> out == 255
            &&& inside && a != 0 && i % 4 != 3 ==> 255 * out <= a * top[i] + (255 - a) * bottom[i]
                < 255 * out + 255
        }),
{
    laid_rows_byte(
        bottom,
        top,
        w,
        b.x0 as int,
        b.x1 as int,
        b.y0 as int,
        b.y1 as int,
        i,
    );
    mix_bound(top[4 * (i / 4) + 3], top[i], bottom[i]);
}

/// A fully transparent layer changes nothing.
pub proof fn transparent_layer_is_invisible(bottom: Seq<u8>, pic: Pic, b: BBox, w: int)
    requires
        is_opaque_box(pic, b),
        forall|x: int, y: int| !pic.shows(x, y),
    ensures
        overlaid_box(bottom, pic.rgba, w, b) == bottom,
{
}

/// An opaque pixel of a layer replaces what is below it.
pub proof fn opaque_pixel_wins(bottom: Seq<u8>, top: Seq<u8>, i: int)
    requires
        0 <= i < bottom.len(),
        top[4 * (i / 4) + 3] == 255,
        0 <= i < top.len(),
    ensures
        over_byte(bottom, top, i) == top[i],
{
    mix_ends(top[i], bottom[i]);
    if i % 4 == 3 {
        assert(i == 4 * (i / 4) + 3);
    }
}

} // verus!
