//! Decoding, scaling and stacking of images, by way of the `image` crate.
use crate::buffers::{copy_range, filled};
use crate::pixels;
use crate::pixels::{Frame, Pic};
use crate::text;
use crate::text::{chars_of, find_last, string_of};
use vstd::prelude::*;

verus! {

// ---------------------------------------------------------------------------
// Calls into the image crate
// ---------------------------------------------------------------------------
/// The picture in a file with the given extension and bytes, as `image`
/// decodes it and converts it to eight-bit RGBA: width, height and bytes.
pub uninterp spec fn decoded_rgba8(ext: Seq<char>, bytes: Seq<u8>) -> Option<(u32, u32, Seq<u8>)>;

/// `image::ImageReader::decode` with the format that
/// `image::ImageFormat::from_extension` gives, then
/// `image::DynamicImage::to_rgba8`. The picture depends on the extension and
/// the bytes alone and has four bytes for each pixel. The text of an error is
/// left open.
#[verifier::external_body]
fn decode_rgba8(ext: &str, bytes: &Vec<u8>) -> (r: Result<Frame, String>)
    ensures
        match r {
            Ok(f) => f@.full() && decoded_rgba8(ext@, bytes@) == Some((f.width, f.height, f.rgba@)),
            Err(_) => decoded_rgba8(ext@, bytes@) is None,
        },
{
    let mut reader = image::ImageReader::new(std::io::Cursor::new(bytes.as_slice()));
    if let Some(format) = image::ImageFormat::from_extension(ext) {
        reader.set_format(format);
    }
    match reader.decode() {
        Ok(img) => {
            let rgba = img.to_rgba8();
            Ok(Frame { width: rgba.width(), height: rgba.height(), rgba: rgba.into_raw() })
        },
        Err(e) => Err(e.to_string()),
    }
}

/// The new side, and the buffers that scaling a picture of width `w` to `s` by
/// `s` needs, stay within what single precision can count and a buffer can
/// hold.
pub open spec fn resizable(w: u32, s: u32) -> bool {
    &&& s <= 0x100_0000
    &&& w * s * 16 <= isize::MAX
    &&& s * s * 4 <= isize::MAX
}

/// Scaling a `w` by `h` picture with the bytes `img` to `size` by `size` with
/// `image::imageops::resize` and the Lanczos3 filter can give the bytes `out`.
/// The filter rests on the sine function of the machine, so two machines may
/// give two outcomes for one picture.
pub uninterp spec fn lanczos3_outcome(
    w: u32,
    h: u32,
    img: Seq<u8>,
    size: u32,
    out: Seq<u8>,
) -> bool;

/// `image::imageops::resize` with the Lanczos3 filter: a picture of the new
/// size, which is one of the outcomes that scaling this picture to this size
/// can have, and a copy where the size stays. Which outcomes those are is only
/// named.
#[verifier::external_body]
fn resize_lanczos3(img: &Frame, size: u32) -> (r: Frame)
    requires
        img@.full(),
        resizable(img.width, size),
    ensures
        r.width == size,
        r.height == size,
        r@.full(),
        lanczos3_outcome(img.width, img.height, img.rgba@, size, r.rgba@),
        img.width == size && img.height == size ==> r@ == img@,
{
    let src: image::ImageBuffer<image::Rgba<u8>, &[u8]> =
        image::ImageBuffer::from_raw(img.width, img.height, img.rgba.as_slice()).unwrap();
    let out = image::imageops::resize(&src, size, size, image::imageops::FilterType::Lanczos3);
    Frame { width: out.width(), height: out.height(), rgba: out.into_raw() }
}

/// The bytes of a `bw` by `bh` picture after `image::imageops::overlay` put a
/// `tw` by `th` picture on it, corner on corner.
pub uninterp spec fn blended_over(
    bw: u32,
    bh: u32,
    bottom: Seq<u8>,
    tw: u32,
    th: u32,
    top: Seq<u8>,
) -> Seq<u8>;

/// `out` has the pixels of `bottom` outside of `top` and under its transparent
/// pixels, and the pixels of `top` where they are opaque.
pub open spec fn keeps_or_covers(bottom: Pic, top: Pic, out: Pic) -> bool {
    forall|x: int, y: int|
        0 <= x < bottom.width && 0 <= y < bottom.height ==> {
            let covered = x < top.width && y < top.height;
            &&& !covered || top.alpha(x, y) == 0 ==> (#[trigger] out.pixel(x, y)) == bottom.pixel(
                x,
                y,
            )
            &&& covered && top.alpha(x, y) == 255 ==> out.pixel(x, y) == top.pixel(x, y)
        }
}

/// `image::imageops::overlay` at the origin. Pixels outside the overlap and
/// under transparent pixels stay, opaque pixels replace what is below them;
/// how a translucent pixel mixes with the backdrop is only named.
#[verifier::external_body]
fn overlay_at_origin(bottom: Frame, top: &Frame) -> (r: Frame)
    requires
        bottom@.full(),
        top@.full(),
    ensures
        r.width == bottom.width,
        r.height == bottom.height,
        r@.full(),
        r.rgba@ == blended_over(
            bottom.width,
            bottom.height,
            bottom.rgba@,
            top.width,
            top.height,
            top.rgba@,
        ),
        keeps_or_covers(bottom@, top@, r@),
{
    let mut canvas: image::RgbaImage =
        image::ImageBuffer::from_raw(bottom.width, bottom.height, bottom.rgba).unwrap();
    let layer: image::ImageBuffer<image::Rgba<u8>, &[u8]> =
        image::ImageBuffer::from_raw(top.width, top.height, top.rgba.as_slice()).unwrap();
    image::imageops::overlay(&mut canvas, &layer, 0, 0);
    Frame { width: canvas.width(), height: canvas.height(), rgba: canvas.into_raw() }
}

// ---------------------------------------------------------------------------
// Fitting
// ---------------------------------------------------------------------------
/// True if a picture of width `w` can be scaled to `s` by `s`.
pub fn can_resize(w: u32, s: u32) -> (r: bool)
    ensures
        r == resizable(w, s),
{
    if s > 0x100_0000 {
        return false;
    }
    proof {
        assert(0 <= w * s <= 0xFFFF_FFFF * 0x100_0000 && 0 <= s * s <= 0x100_0000 * 0x100_0000)
            by (nonlinear_arith)
            requires
                0 <= w <= 0xFFFF_FFFF,
                0 <= s <= 0x100_0000,
        ;
    }
    let between: u128 = (w as u128) * (s as u128) * 16;
    let out: u128 = (s as u128) * (s as u128) * 4;
    between <= isize::MAX as u128 && out <= isize::MAX as u128
}

/// The output size asks for another size than the picture has.
pub open spec fn needs_resize(pic: Pic, size: Option<u32>) -> bool {
    match size {
        Some(s) => s != pic.width || s != pic.height,
        None => false,
    }
}

/// The picture can be brought to the output size.
pub open spec fn can_fit(pic: Pic, size: Option<u32>) -> bool {
    needs_resize(pic, size) ==> resizable(pic.width, size->0)
}

/// `out` is the picture brought to the output size: the picture itself where
/// it has that size already or none is asked for, else an outcome of scaling
/// it.
pub open spec fn fitted(pic: Pic, size: Option<u32>, out: Pic) -> bool {
    &&& out.full()
    &&& if needs_resize(pic, size) {
        &&& out.width == size->0
        &&& out.height == size->0
        &&& lanczos3_outcome(pic.width, pic.height, pic.rgba, size->0, out.rgba)
    } else {
        out == pic
    }
}

/// Scales a layer to the output size; a layer that has it stays as it is.
pub fn fit(img: Frame, output_size: Option<u32>) -> (r: Frame)
    requires
        img@.full(),
        can_fit(img@, output_size),
    ensures
        fitted(img@, output_size, r@),
{
    match output_size {
        Some(s) => if s != img.width || s != img.height {
            resize_lanczos3(&img, s)
        } else {
            img
        },
        None => img,
    }
}

/// True if the picture can be brought to the output size.
fn fit_possible(img: &Frame, output_size: Option<u32>) -> (r: bool)
    ensures
        r == can_fit(img@, output_size),
{
    match output_size {
        Some(s) => (s == img.width && s == img.height) || can_resize(img.width, s),
        None => true,
    }
}

// ---------------------------------------------------------------------------
// Image files
// ---------------------------------------------------------------------------
/// The part of a path after the last slash.
pub open spec fn file_name(path: Seq<char>) -> Seq<char> {
    match text::rfind(path, '/') {
        Some(i) => path.skip(i + 1),
        None => path,
    }
}

/// The extension of a path's file name, empty if it has none. A leading dot
/// starts no extension.
pub open spec fn extension(path: Seq<char>) -> Seq<char> {
    let name = file_name(path);
    match text::rfind(name, '.') {
        Some(i) => if i == 0 || name == seq!['.', '.'] {
            seq![]
        } else {
            name.skip(i + 1)
        },
        None => seq![],
    }
}

/// The extension of a path's file name, empty if it has none.
pub fn extension_of(path: &str) -> (r: String)
    ensures
        r@ == extension(path@),
{
    let chars = chars_of(path);
    let from: usize = match find_last(&chars, '/') {
        Some(i) => i + 1,
        None => 0,
    };
    let name = copy_range(&chars, from, chars.len());
    assert(name@ =~= file_name(path@));
    match find_last(&name, '.') {
        Some(d) => {
            let dots = name.len() == 2 && name[0] == '.' && name[1] == '.';
            assert(dots <==> name@ == seq!['.', '.']) by {
                if dots {
                    assert(name@ =~= seq!['.', '.']);
                }
            }
            if d == 0 || dots {
                String::new()
            } else {
                assert(name@.subrange(d + 1, name@.len() as int) =~= name@.skip(d + 1));
                string_of(&name, d + 1, name.len())
            }
        },
        None => String::new(),
    }
}

/// Why an image file gives no picture.
#[derive(Debug)]
pub enum ImageFault {
    /// It cannot be read; the text says why.
    Unreadable(String),
    /// It cannot be decoded; the text says why.
    Undecodable(String),
    /// It has no pixels.
    Empty,
    /// It cannot be scaled to the output size.
    TooLarge,
}

/// The kinds of faults, with the texts that are given, not found.
pub enum FaultKind {
    Unreadable(Seq<char>),
    Undecodable,
    Empty,
    TooLarge,
}

impl ImageFault {
    /// The kind of the fault.
    pub open spec fn kind(self) -> FaultKind {
        match self {
            ImageFault::Unreadable(cause) => FaultKind::Unreadable(cause@),
            ImageFault::Undecodable(_) => FaultKind::Undecodable,
            ImageFault::Empty => FaultKind::Empty,
            ImageFault::TooLarge => FaultKind::TooLarge,
        }
    }
}

/// The picture in the file at `path`, of which `content` was read.
pub open spec fn picture_in(path: Seq<char>, content: Result<Vec<u8>, String>) -> Option<Pic> {
    match content {
        Ok(bytes) => match decoded_rgba8(extension(path), bytes@) {
            Some(p) => Some(Pic { width: p.0, height: p.1, rgba: p.2 }),
            None => None,
        },
        Err(_) => None,
    }
}

/// Why the file gives no picture of the output size. A picture without pixels
/// is a fault only where `filled` asks for some.
pub open spec fn image_fault(
    path: Seq<char>,
    content: Result<Vec<u8>, String>,
    size: Option<u32>,
    filled: bool,
) -> Option<FaultKind> {
    match picture_in(path, content) {
        Some(pic) => if filled && (pic.width == 0 || pic.height == 0) {
            Some(FaultKind::Empty)
        } else if !can_fit(pic, size) {
            Some(FaultKind::TooLarge)
        } else {
            None
        },
        None => Some(
            match content {
                Ok(_) => FaultKind::Undecodable,
                Err(cause) => FaultKind::Unreadable(cause@),
            },
        ),
    }
}

/// Decodes the file at `path`, of which `content` was read (or the reason why
/// it could not be), and scales the picture to the output size.
pub fn load_image(
    path: &str,
    content: &Result<Vec<u8>, String>,
    output_size: Option<u32>,
    filled: bool,
) -> (r: Result<Frame, ImageFault>)
    ensures
        match r {
            Ok(f) => {
                &&& image_fault(path@, *content, output_size, filled) is None
                &&& fitted(picture_in(path@, *content)->0, output_size, f@)
            },
            Err(e) => image_fault(path@, *content, output_size, filled) == Some(e.kind()),
        },
{
    let bytes = match content {
        Ok(bytes) => bytes,
        Err(cause) => {
            return Err(ImageFault::Unreadable(cause.clone()));
        },
    };
    let ext = extension_of(path);
    let img = match decode_rgba8(ext.as_str(), bytes) {
        Ok(img) => img,
        Err(cause) => {
            return Err(ImageFault::Undecodable(cause));
        },
    };
    if filled && (img.width == 0 || img.height == 0) {
        return Err(ImageFault::Empty);
    }
    if !fit_possible(&img, output_size) {
        return Err(ImageFault::TooLarge);
    }
    Ok(fit(img, output_size))
}

// ---------------------------------------------------------------------------
// Stacking
// ---------------------------------------------------------------------------
/// The pictures blended in order onto a transparent canvas of the given size.
pub open spec fn stacked(w: u32, h: u32, pics: Seq<Pic>) -> Seq<u8>
    decreases pics.len(),
{
    if pics.len() == 0 {
        Seq::new((w * h * 4) as nat, |i: int| 0u8)
    } else {
        let top = pics.last();
        blended_over(w, h, stacked(w, h, pics.drop_last()), top.width, top.height, top.rgba)
    }
}

/// The picture leaves what is below it at this place: it does not reach there,
/// or its pixel is transparent.
pub open spec fn clear_at(pic: Pic, x: int, y: int) -> bool {
    !(x < pic.width && y < pic.height) || pic.alpha(x, y) == 0
}

/// What shows at a place, looking down from the last picture: the first pixel
/// that is not transparent, if it is opaque; a transparent black one where
/// there is none. A translucent pixel on the way gives `None`.
pub open spec fn seen_at(pics: Seq<Pic>, x: int, y: int) -> Option<Seq<u8>>
    decreases pics.len(),
{
    if pics.len() == 0 {
        Some(seq![0u8, 0u8, 0u8, 0u8])
    } else if clear_at(pics.last(), x, y) {
        seen_at(pics.drop_last(), x, y)
    } else if pics.last().alpha(x, y) == 255 {
        Some(pics.last().pixel(x, y))
    } else {
        None
    }
}

/// Wherever no translucent pixel comes in between, `out` shows what is seen
/// looking down on the pictures.
pub open spec fn shows_stack(pics: Seq<Pic>, out: Pic) -> bool {
    forall|x: int, y: int|
        0 <= x < out.width && 0 <= y < out.height && seen_at(pics, x, y) is Some
            ==> #[trigger] out.pixel(x, y) == seen_at(pics, x, y)->0
}

proof fn empty_canvas_shows(w: u32, h: u32, canvas: Pic)
    requires
        canvas.width == w,
        canvas.height == h,
        canvas.rgba == Seq::new((w * h * 4) as nat, |i: int| 0u8),
    ensures
        shows_stack(seq![], canvas),
{
    assert forall|x: int, y: int| 0 <= x < w && 0 <= y < h implies #[trigger] canvas.pixel(x, y)
        == seq![0u8, 0u8, 0u8, 0u8] by {
        pixels::pixel_in_bounds(w as int, h as int, x, y);
        assert(canvas.pixel(x, y) =~= seq![0u8, 0u8, 0u8, 0u8]);
    }
}

proof fn one_more_shows(below: Seq<Pic>, canvas: Pic, top: Pic, out: Pic)
    requires
        shows_stack(below, canvas),
        keeps_or_covers(canvas, top, out),
        out.width == canvas.width,
        out.height == canvas.height,
    ensures
        shows_stack(below.push(top), out),
{
    let pics = below.push(top);
    assert(pics.drop_last() =~= below);
    assert forall|x: int, y: int|
        0 <= x < out.width && 0 <= y < out.height && seen_at(
            pics,
            x,
            y,
        ) is Some implies #[trigger] out.pixel(x, y) == seen_at(pics, x, y)->0 by {
        if clear_at(top, x, y) {
            assert(out.pixel(x, y) == canvas.pixel(x, y));
        }
    }
}

/// Blends the frames in order onto a transparent canvas of the size of the
/// first one.
pub fn stack(frames: &Vec<&Frame>) -> (r: Frame)
    requires
        frames@.len() > 0,
        forall|i: int| 0 <= i < frames@.len() ==> (#[trigger] frames@[i])@.full(),
    ensures
        r.width == frames@[0].width,
        r.height == frames@[0].height,
        r@.full(),
        r.rgba@ == stacked(r.width, r.height, frames@.map_values(|f: &Frame| f@)),
        shows_stack(frames@.map_values(|f: &Frame| f@), r@),
{
    let (w, h): (u32, u32) = (frames[0].width, frames[0].height);
    let n: usize = frames[0].rgba.len();
    let rgba = filled(0u8, n);
    let ghost all = frames@.map_values(|f: &Frame| f@);
    let mut canvas = Frame { width: w, height: h, rgba };
    assert(frames@[0]@.full());
    assert(canvas.rgba@ =~= stacked(w, h, all.take(0)));
    proof {
        assert(all.take(0) =~= seq![]);
        empty_canvas_shows(w, h, canvas@);
    }
    let mut i: usize = 0;
    while i < frames.len()
        invariant
            i <= frames@.len(),
            all == frames@.map_values(|f: &Frame| f@),
            forall|j: int| 0 <= j < frames@.len() ==> (#[trigger] frames@[j])@.full(),
            canvas.width == w,
            canvas.height == h,
            canvas@.full(),
            canvas.rgba@ == stacked(w, h, all.take(i as int)),
            shows_stack(all.take(i as int), canvas@),
        decreases frames@.len() - i,
    {
        assert(all.take(i + 1).drop_last() =~= all.take(i as int));
        assert(all.take(i + 1).last() == frames@[i as int]@);
        let ghost below = canvas@;
        canvas = overlay_at_origin(canvas, frames[i]);
        proof {
            assert(all.take(i + 1) =~= all.take(i as int).push(frames@[i as int]@));
            one_more_shows(all.take(i as int), below, frames@[i as int]@, canvas@);
        }
        i = i + 1;
    }
    assert(all.take(i as int) =~= all);
    canvas
}

// ---------------------------------------------------------------------------
// Laws
// ---------------------------------------------------------------------------
/// The extension of a file is what stands behind the last dot of its name,
/// whatever directory it is in; a name without a dot, or with a leading one
/// only, has none.
pub proof fn extension_is_behind_the_last_dot(dir: Seq<char>, stem: Seq<char>, ext: Seq<char>)
    requires
        stem.len() > 0,
        forall|i: int| 0 <= i < stem.len() ==> #[trigger] stem[i] != '/',
        forall|i: int| 0 <= i < ext.len() ==> #[trigger] ext[i] != '/' && ext[i] != '.',
        ext.len() > 0,
    ensures
        extension(stem + seq!['.'] + ext) == ext,
        extension(dir + seq!['/'] + (stem + seq!['.'] + ext)) == ext,
        extension(dir + seq!['/'] + ext).len() == 0,
        extension(seq!['.'] + ext).len() == 0,
        extension(seq!['.', '.']).len() == 0,
{
    let name = stem + seq!['.'] + ext;
    assert forall|i: int| 0 <= i < name.len() implies #[trigger] name[i] != '/' by {
        if i < stem.len() {
            assert(name[i] == stem[i]);
        } else if i > stem.len() {
            assert(name[i] == ext[i - stem.len() - 1]);
        }
    }
    name_is_behind_the_slash(dir, name);
    name_is_behind_the_slash(dir, ext);
    let n = stem.len() as int;
    text::rfind_is_greatest(name, '.', name.len() as int);
    assert(name[n] == '.');
    assert forall|i: int| n < i < name.len() implies name[i] != '.' by {
        assert(name[i] == ext[i - n - 1]);
    }
    assert(name.skip(n + 1) =~= ext);
    assert(name[n + 1] == ext[0]);
    text::rfind_is_greatest(ext, '.', ext.len() as int);
    let hidden = seq!['.'] + ext;
    assert forall|i: int| 0 <= i < hidden.len() implies #[trigger] hidden[i] != '/' && (i > 0
        ==> hidden[i] != '.') by {
        if i > 0 {
            assert(hidden[i] == ext[i - 1]);
        }
    }
    name_is_behind_the_slash(dir, hidden);
    text::rfind_is_greatest(hidden, '.', hidden.len() as int);
    name_is_behind_the_slash(dir, seq!['.', '.']);
}

proof fn name_is_behind_the_slash(dir: Seq<char>, name: Seq<char>)
    requires
        forall|i: int| 0 <= i < name.len() ==> #[trigger] name[i] != '/',
    ensures
        file_name(name) == name,
        file_name(dir + seq!['/'] + name) == name,
{
    let s = dir + seq!['/'] + name;
    let n = dir.len() as int;
    text::rfind_is_greatest(name, '/', name.len() as int);
    text::rfind_is_greatest(s, '/', s.len() as int);
    assert(s[n] == '/');
    assert forall|i: int| n < i < s.len() implies s[i] != '/' by {
        assert(s[i] == name[i - n - 1]);
    }
    assert(s.skip(n + 1) =~= name);
}

/// A file gives a picture exactly when it was read and decoded, has pixels
/// where some are asked for, and can be brought to the output size; otherwise
/// the fault says which of these failed first.
pub proof fn faults_say_what_failed(
    path: Seq<char>,
    content: Result<Vec<u8>, String>,
    size: Option<u32>,
    filled: bool,
)
    ensures
        content matches Err(cause) ==> image_fault(path, content, size, filled) == Some(
            FaultKind::Unreadable(cause@),
        ),
        content matches Ok(bytes) ==> match decoded_rgba8(extension(path), bytes@) {
            None => image_fault(path, content, size, filled) == Some(FaultKind::Undecodable),
            Some((w, h, rgba)) => {
                let empty = filled && (w == 0 || h == 0);
                let fits = size is None || (w == size->0 && h == size->0) || resizable(w, size->0);
                let fault = image_fault(path, content, size, filled);
                &&& fault == Some(FaultKind::Empty) <==> empty
                &&& fault == Some(FaultKind::TooLarge) <==> !empty && !fits
                &&& fault is None <==> !empty && fits
                &&& picture_in(path, content) == Some(Pic { width: w, height: h, rgba })
            },
        },
{
}

/// A picture that has the output size, or where none is asked for, stays as it
/// is; any other becomes a square of that size.
pub proof fn fitting_gives_the_output_size(pic: Pic, size: Option<u32>, out: Pic)
    requires
        fitted(pic, size, out),
    ensures
        size is None ==> out == pic,
        size matches Some(s) ==> out.width == s && out.height == s && out.rgba.len() == s * s * 4,
        size matches Some(s) ==> (pic.width == s && pic.height == s ==> out == pic),
{
}

/// In a stack of pictures an opaque pixel shows, unless a later picture covers
/// it; where every picture is clear, the canvas stays transparent.
pub proof fn uncovered_pictures_show(pics: Seq<Pic>, out: Pic, k: int, x: int, y: int)
    requires
        shows_stack(pics, out),
        0 <= x < out.width,
        0 <= y < out.height,
    ensures
        0 <= k < pics.len() && x < pics[k].width && y < pics[k].height && pics[k].alpha(x, y) == 255
            && (forall|j: int|
            k < j < pics.len() ==> {
                ||| (#[trigger] pics[j]).width <= x
                ||| pics[j].height <= y
                ||| pics[j].alpha(x, y) == 0
            }) ==> out.pixel(x, y) == pics[k].pixel(x, y),
        (forall|j: int|
            0 <= j < pics.len() ==> {
                ||| (#[trigger] pics[j]).width <= x
                ||| pics[j].height <= y
                ||| pics[j].alpha(x, y) == 0
            }) ==> out.pixel(x, y) == seq![0u8, 0u8, 0u8, 0u8],
{
    if 0 <= k < pics.len() && x < pics[k].width && y < pics[k].height && pics[k].alpha(x, y) == 255
        && (forall|j: int|
        k < j < pics.len() ==> {
            ||| (#[trigger] pics[j]).width <= x
            ||| pics[j].height <= y
            ||| pics[j].alpha(x, y) == 0
        }) {
        seen_through(pics, k, x, y);
        assert(out.pixel(x, y) == seen_at(pics, x, y)->0);
    }
    if forall|j: int|
        0 <= j < pics.len() ==> {
            ||| (#[trigger] pics[j]).width <= x
            ||| pics[j].height <= y
            ||| pics[j].alpha(x, y) == 0
        } {
        seen_through(pics, -1, x, y);
        assert(out.pixel(x, y) == seen_at(pics, x, y)->0);
    }
}

proof fn seen_through(pics: Seq<Pic>, k: int, x: int, y: int)
    requires
        -1 <= k < pics.len(),
        k >= 0 ==> x < pics[k].width && y < pics[k].height && pics[k].alpha(x, y) == 255,
        forall|j: int|
            k < j < pics.len() ==> {
                ||| (#[trigger] pics[j]).width <= x
                ||| pics[j].height <= y
                ||| pics[j].alpha(x, y) == 0
            },
    ensures
        k >= 0 ==> seen_at(pics, x, y) == Some(pics[k].pixel(x, y)),
        k < 0 ==> seen_at(pics, x, y) == Some(seq![0u8, 0u8, 0u8, 0u8]),
    decreases pics.len(),
{
    if pics.len() > 0 && k < pics.len() - 1 {
        let rest = pics.drop_last();
        assert(pics[pics.len() - 1] == pics.last());
        assert forall|j: int| k < j < rest.len() implies {
            ||| (#[trigger] rest[j]).width <= x
            ||| rest[j].height <= y
            ||| rest[j].alpha(x, y) == 0
        } by {
            assert(rest[j] == pics[j]);
        }
        seen_through(rest, k, x, y);
    }
}

/// Pictures of ordinary width can be scaled to any ordinary size.
pub proof fn ordinary_sizes_can_be_scaled(w: u32, s: u32)
    requires
        w <= 8192,
        s <= 8192,
    ensures
        resizable(w, s),
{
    assert(w * s <= 0x400_0000 && s * s <= 0x400_0000) by (nonlinear_arith)
        requires
            0 <= w <= 8192,
            0 <= s <= 8192,
    ;
}

/// Each picture of a stack is blended over those before it, from a transparent
/// canvas on.
pub proof fn stacks_grow_upwards(w: u32, h: u32, pics: Seq<Pic>, top: Pic)
    ensures
        stacked(w, h, pics.push(top)) == blended_over(
            w,
            h,
            stacked(w, h, pics),
            top.width,
            top.height,
            top.rgba,
        ),
        stacked(w, h, Seq::empty()) == Seq::new((w * h * 4) as nat, |i: int| 0u8),
{
    assert(pics.push(top).drop_last() =~= pics);
}

/// A fault is of the kind that it says.
pub proof fn faults_are_of_their_kind(f: ImageFault)
    ensures
        f.kind() matches FaultKind::Unreadable(cause) ==> (f matches ImageFault::Unreadable(s)
            && s@ == cause),
        f.kind() is Undecodable <==> f is Undecodable,
        f.kind() is Empty <==> f is Empty,
        f.kind() is TooLarge <==> f is TooLarge,
{
}

} // verus!
