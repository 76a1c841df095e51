//! Avatar compositor: what the avatar looks like at any moment.
//!
//! All layers are decoded once. [`Compositor::render`] lays the eye layer, the
//! mouth layer, the animation overlays and the idle overlay, in this order,
//! over the static body. Animation overlays show only while the mouth is
//! closed.
use crate::assets::{join_path, AssetCatalog};
use crate::binary32::Binary32;
use crate::buffers::copy_range;
use crate::images;
use crate::images::{load_image, stack, FaultKind, ImageFault};
use crate::pixels;
use crate::pixels::{fits_in, opaque_bbox, overlay_bbox, BBox, Pic};
use crate::protocol::{EyeLayers, EyeState, LayerCatalog, MouthState};
use crate::text;
use crate::text::{concat2, concat3, decimal, replace_all, same_text, strip_prefix};
use crate::textmap::TextMap;
use std::sync::Arc;
use vstd::prelude::*;

pub use crate::pixels::Frame;

verus! {

// ---------------------------------------------------------------------------
// Layers
// ---------------------------------------------------------------------------
/// The rectangle of the pixels of a picture that are not fully transparent.
pub open spec fn box_of(pic: Pic) -> BBox {
    choose|b: BBox| pixels::is_opaque_box(pic, b)
}

/// A layer laid over a canvas with rows of `w` pixels.
pub open spec fn over(canvas: Seq<u8>, layer: Pic, w: u32) -> Seq<u8> {
    pixels::overlaid_box(canvas, layer.rgba, w as int, box_of(layer))
}

/// The visible part of the layer lies inside a canvas of `len` bytes with rows
/// of `w` pixels, and inside the layer when its rows are counted so.
pub open spec fn drawable(layer: Pic, w: u32, len: int) -> bool {
    &&& pixels::box_fits(box_of(layer), w as int, len)
    &&& pixels::box_fits(box_of(layer), w as int, layer.rgba.len() as int)
}

/// The layers laid over the canvas, in order.
pub open spec fn painted(canvas: Seq<u8>, layers: Seq<Pic>, w: u32) -> Seq<u8>
    decreases layers.len(),
{
    if layers.len() == 0 {
        canvas
    } else {
        over(painted(canvas, layers.drop_last(), w), layers.last(), w)
    }
}

/// Every layer can be drawn.
pub open spec fn all_drawable(layers: Seq<Pic>, w: u32, len: int) -> bool {
    forall|i: int| 0 <= i < layers.len() ==> drawable(#[trigger] layers[i], w, len)
}

/// A decoded layer with the rectangle of its visible pixels. Only that part is
/// blended, so a small sprite on a large canvas costs little.
#[derive(Debug)]
pub struct Layer {
    img: Frame,
    bbox: BBox,
}

impl Layer {
    #[verifier::type_invariant]
    spec fn tight(self) -> bool {
        self.img@.full() && pixels::is_opaque_box(self.img@, self.bbox)
    }
}

impl View for Layer {
    type V = Pic;

    closed spec fn view(&self) -> Pic {
        self.img@
    }
}

impl Layer {
    /// The layer that shows `img`.
    pub fn new(img: Frame) -> (r: Layer)
        requires
            img@.full(),
        ensures
            r@ == img@,
    {
        let bbox = opaque_bbox(&img);
        Layer { img, bbox }
    }

    fn frame(&self) -> (r: &Frame)
        ensures
            r@ == self@,
            r@.full(),
    {
        proof {
            use_type_invariant(self);
        }
        &self.img
    }

    fn visible(&self) -> (r: BBox)
        ensures
            r == box_of(self@),
    {
        proof {
            use_type_invariant(self);
            pixels::opaque_box_unique(self@, self.bbox, box_of(self@));
        }
        self.bbox
    }

    /// True if the layer can be drawn on a canvas of `len` bytes with rows of
    /// `w` pixels.
    fn fits(&self, w: u32, len: usize) -> (r: bool)
        ensures
            r == drawable(self@, w, len as int),
    {
        let b = self.visible();
        fits_in(b, w, len) && fits_in(b, w, self.img.rgba.len())
    }
}

/// The pictures of layers that are held by reference.
pub open spec fn pictures(v: Seq<&Layer>) -> Seq<Pic> {
    v.map_values(|l: &Layer| l@)
}

/// The pictures of layers.
pub open spec fn layer_pictures(v: Seq<Layer>) -> Seq<Pic> {
    v.map_values(|l: Layer| l@)
}

// ---------------------------------------------------------------------------
// Which files are layers
// ---------------------------------------------------------------------------
/// An optional path as a list.
pub open spec fn listed(o: Option<String>) -> Seq<Seq<char>> {
    match o {
        Some(s) => seq![s@],
        None => seq![],
    }
}

/// The frames of the first `n` emotions in name order.
pub open spec fn emotion_paths(l: Seq<(Seq<char>, EyeLayers)>, n: int) -> Seq<Seq<char>>
    decreases n,
{
    if n <= 0 {
        seq![]
    } else {
        emotion_paths(l, n - 1) + listed(l[n - 1].1.open) + listed(l[n - 1].1.closed)
    }
}

/// Every path of the catalog: the body, the mouths, the default eyes, then the
/// emotions in name order.
pub open spec fn catalog_paths(c: LayerCatalog) -> Seq<Seq<char>> {
    text::texts(c.base@) + listed(c.mouths.closed) + listed(c.mouths.partial) + listed(
        c.mouths.medium,
    ) + listed(c.mouths.open) + listed(c.default_eyes.open) + listed(c.default_eyes.closed)
        + emotion_paths(c.emotions.listing(), c.emotions.listing().len() as int)
}

/// The paths that are not empty, each where it stands first.
pub open spec fn first_uses(s: Seq<Seq<char>>) -> Seq<Seq<char>>
    decreases s.len(),
{
    if s.len() == 0 {
        seq![]
    } else {
        let before = first_uses(s.drop_last());
        if s.last().len() == 0 || before.contains(s.last()) {
            before
        } else {
            before.push(s.last())
        }
    }
}

/// Every path that is not empty has its first use.
pub proof fn first_uses_miss_nothing(s: Seq<Seq<char>>, i: int)
    requires
        0 <= i < s.len(),
        s[i].len() > 0,
    ensures
        first_uses(s).contains(s[i]),
    decreases s.len(),
{
    let before = first_uses(s.drop_last());
    if i < s.len() - 1 {
        first_uses_miss_nothing(s.drop_last(), i);
        assert(before.contains(s[i]));
        let k = choose|k: int| 0 <= k < before.len() && before[k] == s[i];
        assert(before.push(s.last())[k] == s[i]);
    } else if !before.contains(s.last()) {
        assert(before.push(s.last())[before.len() as int] == s[i]);
    }
}

/// No path is empty, and none is listed twice.
pub proof fn first_uses_are_distinct(s: Seq<Seq<char>>)
    ensures
        first_uses(s).no_duplicates(),
        forall|i: int| 0 <= i < first_uses(s).len() ==> (#[trigger] first_uses(s)[i]).len() > 0,
    decreases s.len(),
{
    if s.len() > 0 {
        first_uses_are_distinct(s.drop_last());
    }
}

fn has_text(v: &Vec<String>, s: &str) -> (r: bool)
    ensures
        r == text::texts(v@).contains(s@),
{
    let mut i: usize = 0;
    while i < v.len()
        invariant
            i <= v@.len(),
            forall|j: int| 0 <= j < i ==> (#[trigger] text::texts(v@)[j]) != s@,
        decreases v@.len() - i,
    {
        if same_text(v[i].as_str(), s) {
            assert(text::texts(v@)[i as int] == s@);
            return true;
        }
        i = i + 1;
    }
    false
}

fn push_text(v: &mut Vec<String>, s: &String)
    ensures
        text::texts(final(v)@) == text::texts(old(v)@).push(s@),
{
    let ghost before = text::texts(v@);
    v.push(s.clone());
    assert(text::texts(v@) =~= before.push(s@));
}

fn push_listed(v: &mut Vec<String>, o: &Option<String>)
    ensures
        text::texts(final(v)@) == text::texts(old(v)@) + listed(*o),
{
    let ghost before = text::texts(v@);
    match o {
        Some(s) => {
            push_text(v, s);
            assert(before.push(s@) =~= before + listed(*o));
        },
        None => {
            assert(before =~= before + listed(*o));
        },
    }
}

/// Lists the layer files that the catalog refers to, each once, in the order
/// in which they are loaded.
pub fn layer_paths(c: &LayerCatalog) -> (r: Vec<String>)
    ensures
        text::texts(r@) == first_uses(catalog_paths(*c)),
{
    let mut all: Vec<String> = Vec::new();
    let mut i: usize = 0;
    assert(text::texts(all@) =~= text::texts(c.base@.take(0)));
    while i < c.base.len()
        invariant
            i <= c.base@.len(),
            text::texts(all@) == text::texts(c.base@.take(i as int)),
        decreases c.base@.len() - i,
    {
        push_text(&mut all, &c.base[i]);
        assert(text::texts(c.base@.take(i + 1)) =~= text::texts(c.base@.take(i as int)).push(
            c.base@[i as int]@,
        ));
        i = i + 1;
    }
    assert(c.base@.take(i as int) =~= c.base@);
    push_listed(&mut all, &c.mouths.closed);
    push_listed(&mut all, &c.mouths.partial);
    push_listed(&mut all, &c.mouths.medium);
    push_listed(&mut all, &c.mouths.open);
    push_listed(&mut all, &c.default_eyes.open);
    push_listed(&mut all, &c.default_eyes.closed);
    let ghost fixed = text::texts(all@);
    let n: usize = c.emotions.len();
    let mut k: usize = 0;
    assert(fixed =~= fixed + emotion_paths(c.emotions.listing(), 0));
    while k < n
        invariant
            k <= n,
            n == c.emotions.listing().len(),
            text::texts(all@) == fixed + emotion_paths(c.emotions.listing(), k as int),
        decreases n - k,
    {
        let set = c.emotions.value_at(k);
        push_listed(&mut all, &set.open);
        push_listed(&mut all, &set.closed);
        assert(text::texts(all@) =~= fixed + emotion_paths(c.emotions.listing(), k + 1));
        k = k + 1;
    }
    assert(text::texts(all@) =~= catalog_paths(*c));
    let mut out: Vec<String> = Vec::new();
    let ghost t = text::texts(all@);
    let mut j: usize = 0;
    assert(text::texts(out@) =~= first_uses(t.take(0)));
    while j < all.len()
        invariant
            j <= all@.len(),
            t == text::texts(all@),
            text::texts(out@) == first_uses(t.take(j as int)),
        decreases all@.len() - j,
    {
        assert(t.take(j + 1).drop_last() =~= t.take(j as int));
        assert(t.take(j + 1).last() == all@[j as int]@);
        if text::chars_of(all[j].as_str()).len() != 0 && !has_text(&out, all[j].as_str()) {
            push_text(&mut out, &all[j]);
        }
        j = j + 1;
    }
    assert(t.take(j as int) =~= t);
    out
}

// ---------------------------------------------------------------------------
// Loading the layers
// ---------------------------------------------------------------------------
/// The first of the files that gives no layer, and why.
pub open spec fn first_fault(
    paths: Seq<Seq<char>>,
    files: Seq<Result<Vec<u8>, String>>,
    size: Option<u32>,
    n: int,
) -> Option<(int, FaultKind)>
    decreases n,
{
    if n <= 0 {
        None
    } else if let Some(f) = first_fault(paths, files, size, n - 1) {
        Some(f)
    } else {
        match images::image_fault(paths[n - 1], files[n - 1], size, true) {
            Some(k) => Some((n - 1, k)),
            None => None,
        }
    }
}

/// The layers are the pictures in the first `n` files, brought to the output
/// size, each under its path.
pub open spec fn holds_layers(
    layers: Map<Seq<char>, Pic>,
    paths: Seq<Seq<char>>,
    files: Seq<Result<Vec<u8>, String>>,
    size: Option<u32>,
    n: int,
) -> bool {
    &&& forall|i: int|
        0 <= i < n ==> layers.dom().contains(#[trigger] paths[i]) && images::fitted(
            images::picture_in(paths[i], files[i])->0,
            size,
            layers[paths[i]],
        )
    &&& forall|k: Seq<char>| #[trigger]
        layers.dom().contains(k) ==> exists|i: int| 0 <= i < n && paths[i] == k
}

/// The pictures under the keys of a map of layers.
pub open spec fn layer_map(m: Map<Seq<char>, Layer>) -> Map<Seq<char>, Pic> {
    Map::new(|k: Seq<char>| m.dom().contains(k), |k: Seq<char>| m[k]@)
}

/// Decodes each layer file; stops at the first that gives no layer.
fn load_layers(paths: &Vec<String>, files: &Vec<Result<Vec<u8>, String>>, size: Option<u32>) -> (r:
    Result<TextMap<Layer>, (usize, ImageFault)>)
    requires
        files@.len() == paths@.len(),
        text::texts(paths@).no_duplicates(),
    ensures
        ({
            let p = text::texts(paths@);
            let n = paths@.len() as int;
            match r {
                Ok(m) => first_fault(p, files@, size, n) is None && holds_layers(
                    layer_map(m@),
                    p,
                    files@,
                    size,
                    n,
                ),
                Err(e) => e.0 < n && first_fault(p, files@, size, n) == Some(
                    (e.0 as int, e.1.kind()),
                ),
            }
        }),
{
    let ghost p = text::texts(paths@);
    let mut m: TextMap<Layer> = TextMap::new();
    let mut i: usize = 0;
    while i < paths.len()
        invariant
            i <= paths@.len(),
            files@.len() == paths@.len(),
            p == text::texts(paths@),
            p.no_duplicates(),
            first_fault(p, files@, size, i as int) is None,
            holds_layers(layer_map(m@), p, files@, size, i as int),
        decreases paths@.len() - i,
    {
        assert(p[i as int] == paths@[i as int]@);
        match load_image(paths[i].as_str(), &files[i], size, true) {
            Ok(f) => {
                let ghost before = layer_map(m@);
                let layer = Layer::new(f);
                m.insert(paths[i].clone(), layer);
                let ghost after = layer_map(m@);
                proof {
                    assert(after =~= before.insert(p[i as int], layer@));
                    assert forall|j: int| 0 <= j < i + 1 implies after.dom().contains(
                        #[trigger] p[j],
                    ) && images::fitted(
                        images::picture_in(p[j], files@[j])->0,
                        size,
                        after[p[j]],
                    ) by {}
                    assert forall|k: Seq<char>| #[trigger] after.dom().contains(k) implies exists|
                        j: int,
                    | 0 <= j < i + 1 && p[j] == k by {
                        if k != p[i as int] {
                            assert(before.dom().contains(k));
                            let j = choose|j: int| 0 <= j < i && p[j] == k;
                            assert(p[j] == k);
                        }
                    }
                }
            },
            Err(fault) => {
                proof {
                    first_fault_stays(p, files@, size, i + 1, paths@.len() as int);
                }
                return Err((i, fault));
            },
        }
        i = i + 1;
    }
    Ok(m)
}

proof fn first_fault_stays(
    paths: Seq<Seq<char>>,
    files: Seq<Result<Vec<u8>, String>>,
    size: Option<u32>,
    n: int,
    m: int,
)
    requires
        n <= m,
        first_fault(paths, files, size, n) is Some,
    ensures
        first_fault(paths, files, size, m) == first_fault(paths, files, size, n),
    decreases m - n,
{
    if n < m {
        first_fault_stays(paths, files, size, n, m - 1);
    }
}

/// The body images that are named, in order.
pub open spec fn named(s: Seq<Seq<char>>) -> Seq<Seq<char>>
    decreases s.len(),
{
    if s.len() == 0 {
        seq![]
    } else if s.last().len() == 0 {
        named(s.drop_last())
    } else {
        named(s.drop_last()).push(s.last())
    }
}

/// The pictures under the given paths.
pub open spec fn under_paths(layers: Map<Seq<char>, Pic>, paths: Seq<Seq<char>>) -> Seq<Pic> {
    paths.map_values(|k: Seq<char>| layers[k])
}

// ---------------------------------------------------------------------------
// Animations
// ---------------------------------------------------------------------------
/// Scheduler parameters of one animation group.
#[derive(Debug, Clone, Copy, PartialEq)]
pub struct AnimSchedulerConfig {
    pub instances: usize,
    pub frames: usize,
    pub min_interval: Binary32,
    pub max_interval: Binary32,
}

/// How many instances a group has where it does not say.
pub const DEFAULT_ANIM_INSTANCES: usize = 1;

/// The bits of `0.1`, the default least interval in seconds.
pub const DEFAULT_ANIM_MIN: u32 = 0x3DCC_CCCD;

/// The bits of `0.5`, the default greatest interval in seconds.
pub const DEFAULT_ANIM_MAX: u32 = 0x3F00_0000;

/// One animation group of a character.
#[derive(Debug)]
pub struct AnimDef {
    pub name: String,
    pub instances: usize,
    pub frames: usize,
    pub file_pattern: String,
    pub min_interval: Binary32,
    pub max_interval: Binary32,
}

/// A frame file: `None` if there is no such file, else what was read of it.
pub type FrameFile = Option<Result<Vec<u8>, String>>;

/// An animation group with what was read of its [`anim_files`], in that order.
#[derive(Debug)]
pub struct AnimGroup {
    pub def: AnimDef,
    pub files: Vec<Vec<FrameFile>>,
}

/// The file of frame `f` of instance `n` (both counted from one).
pub open spec fn frame_name(pattern: Seq<char>, n: nat, f: nat) -> Seq<char> {
    text::replaced(
        text::replaced(pattern, "{n}"@, text::decimal_text(n)),
        "{f}"@,
        text::decimal_text(f),
    )
}

/// The file of frame `f` of instance `n` (both counted from one).
pub fn frame_file(pattern: &str, n: usize, f: usize) -> (r: String)
    ensures
        r@ == frame_name(pattern@, n as nat, f as nat),
{
    proof {
        reveal_strlit("{n}");
        reveal_strlit("{f}");
    }
    let s = replace_all(pattern, "{n}", decimal(n).as_str());
    replace_all(s.as_str(), "{f}", decimal(f).as_str())
}

fn instance_files(def: &AnimDef, n: usize) -> (r: Vec<String>)
    ensures
        r@.len() == def.frames,
        forall|f: int|
            0 <= f < r@.len() ==> (#[trigger] r@[f])@ == frame_name(
                def.file_pattern@,
                n as nat,
                (f + 1) as nat,
            ),
{
    let mut out: Vec<String> = Vec::new();
    let mut f: usize = 0;
    while f < def.frames
        invariant
            f <= def.frames,
            out@.len() == f,
            forall|k: int|
                0 <= k < f ==> (#[trigger] out@[k])@ == frame_name(
                    def.file_pattern@,
                    n as nat,
                    (k + 1) as nat,
                ),
        decreases def.frames - f,
    {
        f = f + 1;
        out.push(frame_file(def.file_pattern.as_str(), n, f));
    }
    out
}

/// The files of a group's frames, for each instance in turn.
pub fn anim_files(def: &AnimDef) -> (r: Vec<Vec<String>>)
    ensures
        r@.len() == def.instances,
        forall|n: int| 0 <= n < r@.len() ==> (#[trigger] r@[n])@.len() == def.frames,
        forall|n: int, f: int|
            0 <= n < r@.len() && 0 <= f < def.frames ==> (#[trigger] r@[n]@[f])@ == frame_name(
                def.file_pattern@,
                (n + 1) as nat,
                (f + 1) as nat,
            ),
{
    let mut out: Vec<Vec<String>> = Vec::new();
    let mut n: usize = 0;
    while n < def.instances
        invariant
            n <= def.instances,
            out@.len() == n,
            forall|k: int| 0 <= k < n ==> (#[trigger] out@[k])@.len() == def.frames,
            forall|k: int, f: int|
                0 <= k < n && 0 <= f < def.frames ==> (#[trigger] out@[k]@[f])@ == frame_name(
                    def.file_pattern@,
                    (k + 1) as nat,
                    (f + 1) as nat,
                ),
        decreases def.instances - n,
    {
        n = n + 1;
        out.push(instance_files(def, n));
    }
    out
}

/// The first bad file among the first `m` frame files of an instance, and why.
pub open spec fn instance_fault(
    pattern: Seq<char>,
    n: nat,
    files: Seq<FrameFile>,
    size: Option<u32>,
    m: int,
) -> Option<(Seq<char>, FaultKind)>
    decreases m,
{
    if m <= 0 {
        None
    } else if let Some(k) = instance_fault(pattern, n, files, size, m - 1) {
        Some(k)
    } else {
        match files[m - 1] {
            Some(content) => {
                let name = frame_name(pattern, n, m as nat);
                match images::image_fault(name, content, size, false) {
                    Some(kind) => Some((name, kind)),
                    None => None,
                }
            },
            None => None,
        }
    }
}

/// `out` are the frames in the first `m` files of an instance; files that are
/// missing are passed over.
pub open spec fn instance_frames(
    pattern: Seq<char>,
    n: nat,
    files: Seq<FrameFile>,
    size: Option<u32>,
    m: int,
    out: Seq<Pic>,
) -> bool
    decreases m,
{
    if m <= 0 {
        out.len() == 0
    } else {
        match files[m - 1] {
            Some(content) => {
                &&& out.len() > 0
                &&& instance_frames(pattern, n, files, size, m - 1, out.drop_last())
                &&& images::fitted(
                    images::picture_in(frame_name(pattern, n, m as nat), content)->0,
                    size,
                    out.last(),
                )
            },
            None => instance_frames(pattern, n, files, size, m - 1, out),
        }
    }
}

/// Some frame file of the instance is there.
pub open spec fn has_frames(files: Seq<FrameFile>) -> bool {
    exists|i: int| 0 <= i < files.len() && (#[trigger] files[i]) is Some
}

/// The first bad file among the first `n` instances of a group, and why.
pub open spec fn group_fault(g: AnimGroup, size: Option<u32>, n: int) -> Option<
    (Seq<char>, FaultKind),
>
    decreases n,
{
    if n <= 0 {
        None
    } else if let Some(k) = group_fault(g, size, n - 1) {
        Some(k)
    } else {
        let files = g.files@[n - 1]@;
        instance_fault(g.def.file_pattern@, n as nat, files, size, files.len() as int)
    }
}

/// `out` are the first `n` instances of a group; one without any frame is left
/// out.
pub open spec fn group_instances(
    g: AnimGroup,
    size: Option<u32>,
    n: int,
    out: Seq<Seq<Pic>>,
) -> bool
    decreases n,
{
    if n <= 0 {
        out.len() == 0
    } else {
        let files = g.files@[n - 1]@;
        if has_frames(files) {
            &&& out.len() > 0
            &&& group_instances(g, size, n - 1, out.drop_last())
            &&& instance_frames(
                g.def.file_pattern@,
                n as nat,
                files,
                size,
                files.len() as int,
                out.last(),
            )
        } else {
            group_instances(g, size, n - 1, out)
        }
    }
}

/// The first bad file among the first `n` groups, and why.
pub open spec fn anim_fault(groups: Seq<AnimGroup>, size: Option<u32>, n: int) -> Option<
    (Seq<char>, FaultKind),
>
    decreases n,
{
    if n <= 0 {
        None
    } else if let Some(k) = anim_fault(groups, size, n - 1) {
        Some(k)
    } else {
        group_fault(groups[n - 1], size, groups[n - 1].files@.len() as int)
    }
}

/// How many of the first `n` instances of a group have frames.
pub open spec fn live_instances(g: AnimGroup, n: int) -> nat
    decreases n,
{
    if n <= 0 {
        0
    } else if has_frames(g.files@[n - 1]@) {
        live_instances(g, n - 1) + 1
    } else {
        live_instances(g, n - 1)
    }
}

/// `out` are the instances of the first `n` groups, group by group.
pub open spec fn all_instances(
    groups: Seq<AnimGroup>,
    size: Option<u32>,
    n: int,
    out: Seq<Seq<Pic>>,
) -> bool
    decreases n,
{
    if n <= 0 {
        out.len() == 0
    } else {
        let g = groups[n - 1];
        let k = out.len() - live_instances(g, g.files@.len() as int);
        &&& k >= 0
        &&& all_instances(groups, size, n - 1, out.take(k))
        &&& group_instances(g, size, g.files@.len() as int, out.skip(k))
    }
}

/// The scheduler parameters of a group.
pub open spec fn config_of(d: AnimDef) -> AnimSchedulerConfig {
    AnimSchedulerConfig {
        instances: d.instances,
        frames: d.frames,
        min_interval: d.min_interval,
        max_interval: d.max_interval,
    }
}

#[derive(Debug)]
struct AnimInstance {
    frames: Vec<Layer>,
}

spec fn instance_pictures(v: Seq<AnimInstance>) -> Seq<Seq<Pic>> {
    v.map_values(|i: AnimInstance| layer_pictures(i.frames@))
}

proof fn instance_fault_stays(
    pattern: Seq<char>,
    n: nat,
    files: Seq<FrameFile>,
    size: Option<u32>,
    a: int,
    b: int,
)
    requires
        a <= b,
        instance_fault(pattern, n, files, size, a) is Some,
    ensures
        instance_fault(pattern, n, files, size, b) == instance_fault(pattern, n, files, size, a),
    decreases b - a,
{
    if a < b {
        instance_fault_stays(pattern, n, files, size, a, b - 1);
    }
}

proof fn group_fault_stays(g: AnimGroup, size: Option<u32>, a: int, b: int)
    requires
        a <= b,
        group_fault(g, size, a) is Some,
    ensures
        group_fault(g, size, b) == group_fault(g, size, a),
    decreases b - a,
{
    if a < b {
        group_fault_stays(g, size, a, b - 1);
    }
}

proof fn anim_fault_stays(groups: Seq<AnimGroup>, size: Option<u32>, a: int, b: int)
    requires
        a <= b,
        anim_fault(groups, size, a) is Some,
    ensures
        anim_fault(groups, size, b) == anim_fault(groups, size, a),
    decreases b - a,
{
    if a < b {
        anim_fault_stays(groups, size, a, b - 1);
    }
}

/// Decodes the frame files of one instance; stops at the first bad one.
fn load_instance(pattern: &str, n: usize, files: &Vec<FrameFile>, size: Option<u32>) -> (r: Result<
    Vec<Layer>,
    (String, ImageFault),
>)
    ensures
        ({
            let m = files@.len() as int;
            match r {
                Ok(v) => {
                    &&& instance_fault(pattern@, n as nat, files@, size, m) is None
                    &&& instance_frames(
                        pattern@,
                        n as nat,
                        files@,
                        size,
                        m,
                        layer_pictures(v@),
                    )
                    &&& has_frames(files@) <==> v@.len() > 0
                },
                Err(e) => instance_fault(pattern@, n as nat, files@, size, m) == Some((e.0@, e.1.kind())),
            }
        }),
{
    let mut out: Vec<Layer> = Vec::new();
    let mut f: usize = 0;
    assert(layer_pictures(out@) =~= seq![]);
    while f < files.len()
        invariant
            f <= files@.len(),
            instance_fault(pattern@, n as nat, files@, size, f as int) is None,
            instance_frames(
                pattern@,
                n as nat,
                files@,
                size,
                f as int,
                layer_pictures(out@),
            ),
            out@.len() > 0 <==> exists|i: int| 0 <= i < f && (#[trigger] files@[i]) is Some,
        decreases files@.len() - f,
    {
        match &files[f] {
            Some(content) => {
                assert(files@[f as int] is Some);
                let name = frame_file(pattern, n, f + 1);
                match load_image(name.as_str(), content, size, false) {
                    Ok(img) => {
                        let ghost before = layer_pictures(out@);
                        let layer = Layer::new(img);
                        out.push(layer);
                        assert(layer_pictures(out@).drop_last() =~= before);
                        assert(layer_pictures(out@).last() == layer@);
                    },
                    Err(fault) => {
                        proof {
                            instance_fault_stays(
                                pattern@,
                                n as nat,
                                files@,
                                size,
                                f + 1,
                                files@.len() as int,
                            );
                        }
                        return Err((name, fault));
                    },
                }
            },
            None => {},
        }
        f = f + 1;
    }
    Ok(out)
}

/// Decodes the instances of one group, leaving out those without frames.
fn load_group(g: &AnimGroup, size: Option<u32>) -> (r: Result<
    Vec<AnimInstance>,
    (String, ImageFault),
>)
    ensures
        ({
            let n = g.files@.len() as int;
            match r {
                Ok(v) => {
                    &&& group_fault(*g, size, n) is None
                    &&& group_instances(*g, size, n, instance_pictures(v@))
                    &&& v@.len() == live_instances(*g, n)
                },
                Err(e) => group_fault(*g, size, n) == Some((e.0@, e.1.kind())),
            }
        }),
{
    let mut out: Vec<AnimInstance> = Vec::new();
    let mut n: usize = 0;
    assert(instance_pictures(out@) =~= seq![]);
    while n < g.files.len()
        invariant
            n <= g.files@.len(),
            group_fault(*g, size, n as int) is None,
            group_instances(*g, size, n as int, instance_pictures(out@)),
            out@.len() == live_instances(*g, n as int),
        decreases g.files@.len() - n,
    {
        match load_instance(g.def.file_pattern.as_str(), n + 1, &g.files[n], size) {
            Ok(frames) => {
                if frames.len() > 0 {
                    let ghost before = instance_pictures(out@);
                    let ghost pics = layer_pictures(frames@);
                    out.push(AnimInstance { frames });
                    assert(instance_pictures(out@).drop_last() =~= before);
                    assert(instance_pictures(out@).last() == pics);
                }
            },
            Err(e) => {
                proof {
                    group_fault_stays(*g, size, n + 1, g.files@.len() as int);
                }
                return Err(e);
            },
        }
        n = n + 1;
    }
    Ok(out)
}

/// Decodes the animation groups in order; stops at the first bad frame file.
fn load_anim(groups: &Vec<AnimGroup>, size: Option<u32>) -> (r: Result<
    (Vec<AnimInstance>, Vec<AnimSchedulerConfig>),
    (String, ImageFault),
>)
    ensures
        ({
            let n = groups@.len() as int;
            match r {
                Ok(v) => {
                    &&& anim_fault(groups@, size, n) is None
                    &&& all_instances(groups@, size, n, instance_pictures(v.0@))
                    &&& v.1@ == groups@.map_values(|g: AnimGroup| config_of(g.def))
                },
                Err(e) => anim_fault(groups@, size, n) == Some((e.0@, e.1.kind())),
            }
        }),
{
    let mut instances: Vec<AnimInstance> = Vec::new();
    let mut configs: Vec<AnimSchedulerConfig> = Vec::new();
    let mut i: usize = 0;
    assert(instance_pictures(instances@) =~= seq![]);
    while i < groups.len()
        invariant
            i <= groups@.len(),
            anim_fault(groups@, size, i as int) is None,
            all_instances(groups@, size, i as int, instance_pictures(instances@)),
            configs@ =~= groups@.take(i as int).map_values(|g: AnimGroup| config_of(g.def)),
        decreases groups@.len() - i,
    {
        let g = &groups[i];
        match load_group(g, size) {
            Ok(mut more) => {
                let ghost before = instance_pictures(instances@);
                let ghost added = instance_pictures(more@);
                instances.append(&mut more);
                proof {
                    let after = instance_pictures(instances@);
                    let k = before.len() as int;
                    assert(after.take(k) =~= before);
                    assert(after.skip(k) =~= added);
                }
            },
            Err(e) => {
                proof {
                    anim_fault_stays(groups@, size, i + 1, groups@.len() as int);
                }
                return Err(e);
            },
        }
        configs.push(
            AnimSchedulerConfig {
                instances: g.def.instances,
                frames: g.def.frames,
                min_interval: g.def.min_interval,
                max_interval: g.def.max_interval,
            },
        );
        i = i + 1;
    }
    assert(groups@.take(i as int) =~= groups@);
    Ok((instances, configs))
}

// ---------------------------------------------------------------------------
// The compositor
// ---------------------------------------------------------------------------
/// The file of the idle overlay.
#[derive(Debug)]
pub struct IdleFile {
    pub path: String,
    pub content: Result<Vec<u8>, String>,
}

/// Why there is no compositor.
#[derive(Debug)]
pub enum CompositorError {
    /// The catalog names no body image.
    NoBase,
    /// A layer file is no good.
    Layer { rel: String, fault: ImageFault },
    /// The animation groups could not be read; the text says why.
    AnimSource(String),
    /// An animation frame is no good.
    AnimFrame { file: String, fault: ImageFault },
    /// The idle overlay could not be looked up; the text says why.
    IdleSource(String),
    /// The idle overlay is no good.
    Idle { path: String, fault: ImageFault },
}

/// What a [`CompositorError`] says, but for the texts of its causes.
pub enum Defect {
    NoBase,
    Layer(Seq<char>, FaultKind),
    AnimSource(Seq<char>),
    AnimFrame(Seq<char>, FaultKind),
    IdleSource(Seq<char>),
    Idle(Seq<char>, FaultKind),
}

impl CompositorError {
    /// What went wrong.
    pub open spec fn defect(self) -> Defect {
        match self {
            CompositorError::NoBase => Defect::NoBase,
            CompositorError::Layer { rel, fault } => Defect::Layer(rel@, fault.kind()),
            CompositorError::AnimSource(s) => Defect::AnimSource(s@),
            CompositorError::AnimFrame { file, fault } => Defect::AnimFrame(file@, fault.kind()),
            CompositorError::IdleSource(s) => Defect::IdleSource(s@),
            CompositorError::Idle { path, fault } => Defect::Idle(path@, fault.kind()),
        }
    }

    /// The error text for the asset root `root`.
    pub open spec fn text(self, root: Seq<char>) -> Seq<char> {
        match self {
            CompositorError::NoBase => "compositor: no base layers decoded"@,
            CompositorError::Layer { rel, fault } => {
                let path = crate::assets::under(root, rel@);
                match fault {
                    ImageFault::Unreadable(cause) | ImageFault::Undecodable(cause) => "compositor: decoding "@ + path + ": "@
                        + cause@,
                    ImageFault::Empty => "compositor: empty image "@ + path,
                    ImageFault::TooLarge => "compositor: cannot scale "@ + path,
                }
            },
            CompositorError::AnimSource(s) => s@,
            CompositorError::AnimFrame { file, fault } => match fault {
                ImageFault::Unreadable(cause) | ImageFault::Undecodable(cause) => cause@,
                ImageFault::Empty => "animation frame "@ + file@ + " is empty"@,
                ImageFault::TooLarge => "cannot scale animation frame "@ + file@,
            },
            CompositorError::IdleSource(s) => s@,
            CompositorError::Idle { path, fault } => match fault {
                ImageFault::Unreadable(cause) | ImageFault::Undecodable(cause) => "decoding idle overlay "@ + path@ + ": "@
                    + cause@,
                ImageFault::Empty => "idle overlay "@ + path@ + " is empty"@,
                ImageFault::TooLarge => "cannot scale idle overlay "@ + path@,
            },
        }
    }

    /// The error text for the asset root `root`.
    pub fn message(&self, root: &str) -> (r: String)
        ensures
            r@ == self.text(root@),
    {
        match self {
            CompositorError::NoBase => "compositor: no base layers decoded".to_owned(),
            CompositorError::Layer { rel, fault } => {
                let path = join_path(root, rel.as_str());
                match fault {
                    ImageFault::Unreadable(cause) | ImageFault::Undecodable(cause) => {
                        let mut s = concat3("compositor: decoding ", path.as_str(), ": ");
                        s.append(cause.as_str());
                        s
                    },
                    ImageFault::Empty => concat2("compositor: empty image ", path.as_str()),
                    ImageFault::TooLarge => concat2("compositor: cannot scale ", path.as_str()),
                }
            },
            CompositorError::AnimSource(s) => s.clone(),
            CompositorError::AnimFrame { file, fault } => match fault {
                ImageFault::Unreadable(cause) | ImageFault::Undecodable(cause) => cause.clone(),
                ImageFault::Empty => concat3("animation frame ", file.as_str(), " is empty"),
                ImageFault::TooLarge => concat2("cannot scale animation frame ", file.as_str()),
            },
            CompositorError::IdleSource(s) => s.clone(),
            CompositorError::Idle { path, fault } => match fault {
                ImageFault::Unreadable(cause) | ImageFault::Undecodable(cause) => {
                    let mut s = concat3("decoding idle overlay ", path.as_str(), ": ");
                    s.append(cause.as_str());
                    s
                },
                ImageFault::Empty => concat3("idle overlay ", path.as_str(), " is empty"),
                ImageFault::TooLarge => concat2("cannot scale idle overlay ", path.as_str()),
            },
        }
    }
}

/// Strips the URL prefix from a resolved layer to get its path in the catalog.
pub open spec fn rel_text(url: Seq<char>) -> Seq<char> {
    let tail = match text::without_prefix(url, "/frames"@) {
        Some(s) => s,
        None => url,
    };
    match text::without_prefix(tail, "/"@) {
        Some(s) => s,
        None => url,
    }
}

/// The path of a layer in the catalog comes back from its URL.
pub proof fn url_gives_back_path(rel: Seq<char>)
    ensures
        rel_text("/frames/"@ + rel) == rel,
{
    reveal_strlit("/frames/");
    reveal_strlit("/frames");
    reveal_strlit("/");
    let url = "/frames/"@ + rel;
    assert(url.subrange(0, 7) =~= "/frames"@);
    assert(url.skip(7).subrange(0, 1) =~= "/"@);
    assert(url.skip(7).skip(1) =~= rel);
}

/// Strips the URL prefix from a resolved layer to get its path in the catalog.
fn rel_of(url: &str) -> (r: String)
    ensures
        r@ == rel_text(url@),
{
    let tail = match strip_prefix(url, "/frames") {
        Some(s) => s,
        None => url.to_owned(),
    };
    match strip_prefix(tail.as_str(), "/") {
        Some(s) => s,
        None => url.to_owned(),
    }
}

/// What a compositor holds.
#[verifier::ext_equal]
pub struct Gallery {
    pub catalog: AssetCatalog,
    pub width: u32,
    pub height: u32,
    /// The body, blended into one canvas.
    pub base: Seq<u8>,
    pub layers: Map<Seq<char>, Pic>,
    /// The frames of each animation instance.
    pub anims: Seq<Seq<Pic>>,
    pub anim_config: Seq<AnimSchedulerConfig>,
    pub idle: Option<Pic>,
}

/// The current frame of each of the first `n` instances: the first frame where
/// none is given, nothing where there is no such frame.
pub open spec fn anim_layers(anims: Seq<Seq<Pic>>, frames: Seq<usize>, n: int) -> Seq<Pic>
    decreases n,
{
    if n <= 0 {
        seq![]
    } else {
        let f = if n - 1 < frames.len() {
            frames[n - 1] as int
        } else {
            0
        };
        let before = anim_layers(anims, frames, n - 1);
        if f < anims[n - 1].len() {
            before.push(anims[n - 1][f])
        } else {
            before
        }
    }
}

impl Gallery {
    /// The layer that a URL resolves to, as a list.
    pub open spec fn resolved(self, url: Option<Seq<char>>) -> Seq<Pic> {
        match url {
            Some(u) => if self.layers.dom().contains(rel_text(u)) {
                seq![self.layers[rel_text(u)]]
            } else {
                seq![]
            },
            None => seq![],
        }
    }

    /// The layers that show in a state, bottom-up.
    pub open spec fn shown(
        self,
        emotion: Option<Seq<char>>,
        mouth: MouthState,
        eyes: EyeState,
        anim_frames: Seq<usize>,
        show_idle: bool,
    ) -> Seq<Pic> {
        let face = self.resolved(self.catalog.eyes_url(emotion, eyes)) + self.resolved(
            self.catalog.mouth_url(mouth),
        );
        let moving = if mouth == MouthState::Closed {
            anim_layers(self.anims, anim_frames, self.anims.len() as int)
        } else {
            seq![]
        };
        let idle = match self.idle {
            Some(pic) => if show_idle {
                seq![pic]
            } else {
                seq![]
            },
            None => seq![],
        };
        face + moving + idle
    }

    /// Every layer that shows in a state lies inside the canvas.
    pub open spec fn can_draw(
        self,
        emotion: Option<Seq<char>>,
        mouth: MouthState,
        eyes: EyeState,
        anim_frames: Seq<usize>,
        show_idle: bool,
    ) -> bool {
        all_drawable(
            self.shown(emotion, mouth, eyes, anim_frames, show_idle),
            self.width,
            self.base.len() as int,
        )
    }

    /// The frame for a state: the layers that show, laid over the body.
    pub open spec fn drawn(
        self,
        emotion: Option<Seq<char>>,
        mouth: MouthState,
        eyes: EyeState,
        anim_frames: Seq<usize>,
        show_idle: bool,
    ) -> Pic {
        Pic {
            width: self.width,
            height: self.height,
            rgba: painted(
                self.base,
                self.shown(emotion, mouth, eyes, anim_frames, show_idle),
                self.width,
            ),
        }
    }
}

/// Decoded layers and the renderer over them.
pub struct Compositor {
    width: u32,
    height: u32,
    base_composited: Vec<u8>,
    layers: TextMap<Layer>,
    catalog: Arc<AssetCatalog>,
    anim_instances: Vec<AnimInstance>,
    anim_config: Vec<AnimSchedulerConfig>,
    idle_layer: Option<Layer>,
}

impl View for Compositor {
    type V = Gallery;

    closed spec fn view(&self) -> Gallery {
        Gallery {
            catalog: *self.catalog,
            width: self.width,
            height: self.height,
            base: self.base_composited@,
            layers: layer_map(self.layers@),
            anims: instance_pictures(self.anim_instances@),
            anim_config: self.anim_config@,
            idle: match self.idle_layer {
                Some(l) => Some(l@),
                None => None,
            },
        }
    }
}

/// The animation groups, as far as they could be read.
pub type AnimSource = Result<Vec<AnimGroup>, String>;

/// The idle overlay, as far as it could be looked up.
pub type IdleSource = Result<Option<IdleFile>, String>;

/// What keeps the compositor from being made: the first thing that is wrong
/// with the body, the layers, the animations and the idle overlay, in turn.
pub open spec fn defect(
    c: LayerCatalog,
    files: Seq<Result<Vec<u8>, String>>,
    anims: AnimSource,
    idle: IdleSource,
    size: Option<u32>,
) -> Option<Defect> {
    let paths = first_uses(catalog_paths(c));
    if named(text::texts(c.base@)).len() == 0 {
        Some(Defect::NoBase)
    } else if let Some(f) = first_fault(paths, files, size, paths.len() as int) {
        Some(Defect::Layer(paths[f.0], f.1))
    } else {
        match anims {
            Err(cause) => Some(Defect::AnimSource(cause@)),
            Ok(groups) => if let Some(k) = anim_fault(groups@, size, groups@.len() as int) {
                Some(Defect::AnimFrame(k.0, k.1))
            } else {
                match idle {
                    Err(cause) => Some(Defect::IdleSource(cause@)),
                    Ok(None) => None,
                    Ok(Some(f)) => match images::image_fault(f.path@, f.content, size, true) {
                        Some(k) => Some(Defect::Idle(f.path@, k)),
                        None => None,
                    },
                }
            },
        }
    }
}

impl Gallery {
    /// The gallery holds what was loaded for the catalog.
    pub open spec fn holds(
        self,
        catalog: AssetCatalog,
        files: Seq<Result<Vec<u8>, String>>,
        anims: AnimSource,
        idle: IdleSource,
        size: Option<u32>,
    ) -> bool {
        let paths = first_uses(catalog_paths(catalog.0));
        let body = under_paths(self.layers, named(text::texts(catalog.0.base@)));
        &&& self.catalog == catalog
        &&& holds_layers(self.layers, paths, files, size, paths.len() as int)
        &&& body.len() > 0
        &&& self.width == body[0].width
        &&& self.height == body[0].height
        &&& self.base == images::stacked(self.width, self.height, body)
        &&& images::shows_stack(
            body,
            Pic { width: self.width, height: self.height, rgba: self.base },
        )
        &&& self.base.len() == self.width * self.height * 4
        &&& anims matches Ok(groups) && {
            &&& all_instances(groups@, size, groups@.len() as int, self.anims)
            &&& self.anim_config == groups@.map_values(|g: AnimGroup| config_of(g.def))
        }
        &&& idle matches Ok(file) && match file {
            Some(f) => self.idle matches Some(pic) && images::fitted(
                images::picture_in(f.path@, f.content)->0,
                size,
                pic,
            ),
            None => self.idle is None,
        }
    }
}

spec fn layers_of(c: &Arc<AssetCatalog>) -> LayerCatalog {
    c.0
}

proof fn named_are_used(c: LayerCatalog, n: int)
    requires
        0 <= n <= c.base@.len(),
    ensures
        forall|i: int|
            0 <= i < named(text::texts(c.base@).take(n)).len() ==> first_uses(
                catalog_paths(c),
            ).contains(#[trigger] named(text::texts(c.base@).take(n))[i]),
    decreases n,
{
    let t = text::texts(c.base@);
    if n > 0 {
        named_are_used(c, n - 1);
        assert(t.take(n).drop_last() =~= t.take(n - 1));
        let last = t[n - 1];
        assert(t.take(n).last() == last);
        if last.len() > 0 {
            assert(catalog_paths(c)[n - 1] == last);
            first_uses_miss_nothing(catalog_paths(c), n - 1);
        }
        let (shorter, longer) = (named(t.take(n - 1)), named(t.take(n)));
        assert forall|i: int| 0 <= i < longer.len() implies first_uses(catalog_paths(c)).contains(
            #[trigger] longer[i],
        ) by {
            if i < shorter.len() {
                assert(longer[i] == shorter[i]);
            }
        }
    }
}

/// The frames of the body in order.
fn base_frames<'a>(c: &LayerCatalog, layers: &'a TextMap<Layer>) -> (r: Vec<&'a Frame>)
    requires
        forall|i: int|
            0 <= i < named(text::texts(c.base@)).len() ==> layers@.dom().contains(
                #[trigger] named(text::texts(c.base@))[i],
            ),
    ensures
        r@.map_values(|f: &Frame| f@) == under_paths(
            layer_map(layers@),
            named(text::texts(c.base@)),
        ),
        forall|i: int| 0 <= i < r@.len() ==> (#[trigger] r@[i])@.full(),
{
    let ghost t = text::texts(c.base@);
    let ghost map = layer_map(layers@);
    let mut out: Vec<&Frame> = Vec::new();
    let mut i: usize = 0;
    assert(t.take(t.len() as int) =~= t);
    assert(out@.map_values(|f: &Frame| f@) =~= under_paths(map, named(t.take(0))));
    while i < c.base.len()
        invariant
            i <= c.base@.len(),
            t == text::texts(c.base@),
            map == layer_map(layers@),
            out@.map_values(|f: &Frame| f@) == under_paths(map, named(t.take(i as int))),
            forall|j: int| 0 <= j < out@.len() ==> (#[trigger] out@[j])@.full(),
            forall|j: int|
                0 <= j < named(t).len() ==> layers@.dom().contains(#[trigger] named(t)[j]),
        decreases c.base@.len() - i,
    {
        assert(t.take(i + 1).drop_last() =~= t.take(i as int));
        let rel = &c.base[i];
        assert(t.take(i + 1).last() == rel@);
        if text::chars_of(rel.as_str()).len() != 0 {
            proof {
                named_prefix(t, i + 1);
                let k = named(t.take(i as int)).len() as int;
                assert(named(t.take(i + 1))[k] == rel@);
                assert(named(t)[k] == rel@);
            }
            match layers.get(rel.as_str()) {
                Some(layer) => {
                    let ghost before = out@.map_values(|f: &Frame| f@);
                    out.push(layer.frame());
                    assert(out@.map_values(|f: &Frame| f@) =~= before.push(layer@));
                    assert(map[rel@] == layer@);
                    assert(under_paths(map, named(t.take(i + 1))) =~= before.push(layer@));
                },
                None => {},
            }
        }
        i = i + 1;
    }
    out
}

proof fn named_prefix(t: Seq<Seq<char>>, n: int)
    requires
        0 <= n <= t.len(),
    ensures
        named(t.take(n)).len() <= named(t).len(),
        forall|k: int|
            0 <= k < named(t.take(n)).len() ==> (#[trigger] named(t.take(n))[k]) == named(t)[k],
    decreases t.len() - n,
{
    if n == t.len() {
        assert(t.take(n) =~= t);
    } else {
        named_prefix(t, n + 1);
        assert(t.take(n + 1).drop_last() =~= t.take(n));
        assert forall|k: int| 0 <= k < named(t.take(n)).len() implies (#[trigger] named(
            t.take(n),
        )[k]) == named(t)[k] by {
            assert(named(t.take(n + 1))[k] == named(t.take(n))[k]);
        }
    }
}

impl Compositor {
    /// Decodes every layer that the catalog refers to.
    ///
    /// `files` holds what was read of each of [`layer_paths`], in that order.
    /// With `output_size` every layer is scaled to that square edge, so that
    /// the whole pipeline runs at that size.
    pub fn new(
        catalog: Arc<AssetCatalog>,
        files: &Vec<Result<Vec<u8>, String>>,
        anims: &AnimSource,
        idle: &IdleSource,
        output_size: Option<u32>,
    ) -> (r: Result<Compositor, CompositorError>)
        requires
            files@.len() == first_uses(catalog_paths(catalog.0)).len(),
        ensures
            match r {
                Ok(c) => {
                    &&& defect(catalog.0, files@, *anims, *idle, output_size) is None
                    &&& c@.holds(*catalog, files@, *anims, *idle, output_size)
                },
                Err(e) => defect(catalog.0, files@, *anims, *idle, output_size) == Some(
                    e.defect(),
                ),
            },
    {
        let ghost cat = layers_of(&catalog);
        let ghost rels = text::texts(cat.base@);
        let has_base = has_named(&catalog.0.base);
        if !has_base {
            return Err(CompositorError::NoBase);
        }
        let paths = layer_paths(&catalog.0);
        proof {
            first_uses_are_distinct(catalog_paths(cat));
            assert(text::texts(paths@).len() == paths@.len());
        }
        let layers = match load_layers(&paths, files, output_size) {
            Ok(m) => m,
            Err(e) => {
                return Err(CompositorError::Layer { rel: paths[e.0].clone(), fault: e.1 });
            },
        };
        proof {
            named_are_used(cat, rels.len() as int);
            assert(rels.take(rels.len() as int) =~= rels);
            assert forall|i: int| 0 <= i < named(rels).len() implies layers@.dom().contains(
                #[trigger] named(rels)[i],
            ) by {
                let p = first_uses(catalog_paths(cat));
                let k = choose|k: int| 0 <= k < p.len() && p[k] == named(rels)[i];
                assert(layer_map(layers@).dom().contains(p[k]));
            }
        }
        let body = base_frames(&catalog.0, &layers);
        let ghost body_pics = body@.map_values(|f: &Frame| f@);
        assert(body_pics.len() == named(rels).len());
        let canvas = stack(&body);
        assert(canvas.width == body_pics[0].width && canvas.height == body_pics[0].height);
        let (anim_instances, anim_config) = match anims {
            Err(cause) => {
                return Err(CompositorError::AnimSource(cause.clone()));
            },
            Ok(groups) => match load_anim(groups, output_size) {
                Ok(v) => v,
                Err(e) => {
                    return Err(CompositorError::AnimFrame { file: e.0, fault: e.1 });
                },
            },
        };
        let idle_layer = match idle {
            Err(cause) => {
                return Err(CompositorError::IdleSource(cause.clone()));
            },
            Ok(None) => None,
            Ok(Some(f)) => match load_image(f.path.as_str(), &f.content, output_size, true) {
                Ok(img) => Some(Layer::new(img)),
                Err(fault) => {
                    return Err(CompositorError::Idle { path: f.path.clone(), fault });
                },
            },
        };
        Ok(
            Compositor {
                width: canvas.width,
                height: canvas.height,
                base_composited: canvas.rgba,
                layers,
                catalog,
                anim_instances,
                anim_config,
                idle_layer,
            },
        )
    }

    /// True if an idle overlay was loaded.
    pub fn has_idle_layer(&self) -> (r: bool)
        ensures
            r == (self@.idle is Some),
    {
        self.idle_layer.is_some()
    }

    /// The scheduler parameters of the animation groups.
    pub fn anim_config(&self) -> (r: &Vec<AnimSchedulerConfig>)
        ensures
            r@ == self@.anim_config,
    {
        &self.anim_config
    }

    fn pick<'a>(&'a self, url: Option<String>, out: &mut Vec<&'a Layer>)
        ensures
            pictures(final(out)@) == pictures(old(out)@) + self@.resolved(text::opt_text(url)),
    {
        let ghost before = pictures(out@);
        assert(before =~= before + seq![]);
        if let Some(u) = url {
            let rel = rel_of(u.as_str());
            if let Some(layer) = self.layers.get(rel.as_str()) {
                out.push(layer);
                assert(pictures(out@) =~= before + seq![layer@]);
            }
        }
    }

    /// The layers that show in a state, bottom-up.
    fn shown_layers<'a>(
        &'a self,
        emotion: Option<&str>,
        mouth: MouthState,
        eyes: EyeState,
        anim_frames: &[usize],
        show_idle: bool,
    ) -> (r: Vec<&'a Layer>)
        ensures
            pictures(r@) == self@.shown(
                text::opt_str(emotion),
                mouth,
                eyes,
                anim_frames@,
                show_idle,
            ),
    {
        let mut out: Vec<&Layer> = Vec::new();
        assert(pictures(out@) =~= seq![]);
        self.pick(self.catalog.eyes_frame(emotion, eyes), &mut out);
        self.pick(self.catalog.mouth_frame(mouth), &mut out);
        let ghost face = pictures(out@);
        assert(face =~= self@.resolved(self@.catalog.eyes_url(text::opt_str(emotion), eyes))
            + self@.resolved(self@.catalog.mouth_url(mouth)));
        let ghost mut moving: Seq<Pic> = seq![];
        assert(face =~= face + moving);
        if mouth == MouthState::Closed {
            let ghost anims = self@.anims;
            let mut i: usize = 0;
            while i < self.anim_instances.len()
                invariant
                    i <= self.anim_instances@.len(),
                    anims == instance_pictures(self.anim_instances@),
                    moving == anim_layers(anims, anim_frames@, i as int),
                    pictures(out@) == face + moving,
                decreases self.anim_instances@.len() - i,
            {
                let f: usize = if i < anim_frames.len() {
                    anim_frames[i]
                } else {
                    0
                };
                let inst = &self.anim_instances[i];
                assert(anims[i as int] == layer_pictures(inst.frames@));
                if f < inst.frames.len() {
                    let ghost before = pictures(out@);
                    out.push(&inst.frames[f]);
                    assert(pictures(out@) =~= before.push(inst.frames@[f as int]@));
                    proof {
                        moving = moving.push(inst.frames@[f as int]@);
                    }
                    assert(pictures(out@) =~= face + moving);
                }
                i = i + 1;
            }
        }
        let ghost lower = pictures(out@);
        assert(lower =~= lower + seq![]);
        if show_idle {
            if let Some(layer) = &self.idle_layer {
                out.push(layer);
                assert(pictures(out@) =~= lower + seq![layer@]);
            }
        }
        out
    }

    /// True if every layer that shows in the state lies inside the canvas, as
    /// it does when all layers share one size.
    pub fn can_render(
        &self,
        emotion: Option<&str>,
        mouth: MouthState,
        eyes: EyeState,
        anim_frames: &[usize],
        show_idle: bool,
    ) -> (r: bool)
        ensures
            r == self@.can_draw(text::opt_str(emotion), mouth, eyes, anim_frames@, show_idle),
    {
        let layers = self.shown_layers(emotion, mouth, eyes, anim_frames, show_idle);
        let ghost pics = pictures(layers@);
        let mut i: usize = 0;
        while i < layers.len()
            invariant
                i <= layers@.len(),
                pics == pictures(layers@),
                pics == self@.shown(
                    text::opt_str(emotion),
                    mouth,
                    eyes,
                    anim_frames@,
                    show_idle,
                ),
                forall|j: int|
                    0 <= j < i ==> drawable(
                        #[trigger] pics[j],
                        self.width,
                        self.base_composited@.len() as int,
                    ),
            decreases layers@.len() - i,
        {
            assert(pics[i as int] == layers@[i as int]@);
            if !layers[i].fits(self.width, self.base_composited.len()) {
                return false;
            }
            i = i + 1;
        }
        true
    }

    /// Composites the avatar for a state: the body, then the eye layer, the
    /// mouth layer, the animation overlays (while the mouth is closed) and, if
    /// asked for, the idle overlay.
    pub fn render(
        &self,
        emotion: Option<&str>,
        mouth: MouthState,
        eyes: EyeState,
        anim_frames: &[usize],
        show_idle: bool,
    ) -> (r: Frame)
        requires
            self@.can_draw(text::opt_str(emotion), mouth, eyes, anim_frames@, show_idle),
        ensures
            r@ == self@.drawn(text::opt_str(emotion), mouth, eyes, anim_frames@, show_idle),
    {
        let layers = self.shown_layers(emotion, mouth, eyes, anim_frames, show_idle);
        let ghost pics = pictures(layers@);
        let ghost base = self.base_composited@;
        let mut rgba = copy_range(&self.base_composited, 0, self.base_composited.len());
        assert(rgba@ =~= base);
        let mut i: usize = 0;
        assert(painted(base, pics.take(0), self.width) == base);
        while i < layers.len()
            invariant
                i <= layers@.len(),
                pics == pictures(layers@),
                all_drawable(pics, self.width, base.len() as int),
                rgba@.len() == base.len(),
                rgba@ == painted(base, pics.take(i as int), self.width),
            decreases layers@.len() - i,
        {
            assert(pics[i as int] == layers@[i as int]@);
            assert(drawable(pics[i as int], self.width, base.len() as int));
            assert(pics.take(i + 1).drop_last() =~= pics.take(i as int));
            let b = layers[i].visible();
            proof {
                pixels::overlay_keeps_size(
                    rgba@,
                    layers@[i as int]@.rgba,
                    self.width as int,
                    b,
                );
            }
            overlay_bbox(&mut rgba, &layers[i].frame().rgba, b, self.width);
            i = i + 1;
        }
        assert(pics.take(i as int) =~= pics);
        Frame { width: self.width, height: self.height, rgba }
    }
}

fn has_named(v: &Vec<String>) -> (r: bool)
    ensures
        r == (named(text::texts(v@)).len() > 0),
{
    let ghost t = text::texts(v@);
    let mut i: usize = 0;
    while i < v.len()
        invariant
            i <= v@.len(),
            t == text::texts(v@),
            named(t.take(i as int)).len() == 0,
        decreases v@.len() - i,
    {
        assert(t.take(i + 1).drop_last() =~= t.take(i as int));
        assert(t.take(i + 1).last() == v@[i as int]@);
        if text::chars_of(v[i].as_str()).len() != 0 {
            proof {
                named_prefix(t, i + 1);
            }
            return true;
        }
        i = i + 1;
    }
    assert(t.take(i as int) =~= t);
    false
}

// ---------------------------------------------------------------------------
// Laws
// ---------------------------------------------------------------------------
/// The least of the numbers `lo..hi` with a property that `w` has.
proof fn least(p: spec_fn(int) -> bool, lo: int, w: int) -> (r: int)
    requires
        lo <= w,
        p(w),
    ensures
        lo <= r <= w,
        p(r),
        forall|i: int| lo <= i < r ==> !(#[trigger] p(i)),
    decreases w - lo,
{
    if exists|i: int| lo <= i < w && #[trigger] p(i) {
        let v = choose|i: int| lo <= i < w && #[trigger] p(i);
        least(p, lo, v)
    } else {
        w
    }
}

/// The greatest of the numbers up to `hi` with a property that `w` has.
proof fn greatest(p: spec_fn(int) -> bool, hi: int, w: int) -> (r: int)
    requires
        w <= hi,
        p(w),
    ensures
        w <= r <= hi,
        p(r),
        forall|i: int| r < i <= hi ==> !(#[trigger] p(i)),
    decreases hi - w,
{
    if exists|i: int| w < i <= hi && #[trigger] p(i) {
        let v = choose|i: int| w < i <= hi && #[trigger] p(i);
        greatest(p, hi, v)
    } else {
        w
    }
}

/// Every picture has a rectangle of visible pixels.
pub proof fn box_exists(pic: Pic)
    ensures
        pixels::is_opaque_box(pic, box_of(pic)),
{
    let (w, h) = (pic.width as int, pic.height as int);
    if exists|x: int, y: int| pic.shows(x, y) {
        let (x, y) = choose|x: int, y: int| pic.shows(x, y);
        let col = |i: int| pic.column_shows(i);
        let row = |i: int| pic.row_shows(i);
        assert(col(x) && row(y));
        let x0 = least(col, 0, x);
        let x1 = greatest(col, w - 1, x) + 1;
        let y0 = least(row, 0, y);
        let y1 = greatest(row, h - 1, y) + 1;
        let b = BBox { x0: x0 as u32, y0: y0 as u32, x1: x1 as u32, y1: y1 as u32 };
        assert forall|u: int, v: int| #[trigger] pic.shows(u, v) implies b.holds(u, v) by {
            assert(col(u) && row(v));
        }
        assert(pixels::is_opaque_box(pic, b));
    } else {
        assert(pixels::is_opaque_box(pic, BBox { x0: 0, y0: 0, x1: 0, y1: 0 }));
    }
}

/// A layer of the size of the canvas can be drawn on it.
pub proof fn same_size_is_drawable(pic: Pic, w: u32, h: u32)
    requires
        pic.full(),
        pic.width == w,
        pic.height == h,
    ensures
        drawable(pic, w, w * h * 4),
{
    box_exists(pic);
    let b = box_of(pic);
    if !b.empty() {
        pixels::pixel_in_bounds(w as int, h as int, b.x1 - 1, b.y1 - 1);
    }
}

/// Drawing on a canvas keeps its size.
proof fn painted_len(canvas: Seq<u8>, layers: Seq<Pic>, w: u32)
    requires
        all_drawable(layers, w, canvas.len() as int),
    ensures
        painted(canvas, layers, w).len() == canvas.len(),
    decreases layers.len(),
{
    if layers.len() > 0 {
        let rest = layers.drop_last();
        assert forall|i: int| 0 <= i < rest.len() implies drawable(
            #[trigger] rest[i],
            w,
            canvas.len() as int,
        ) by {
            assert(rest[i] == layers[i]);
        }
        painted_len(canvas, rest, w);
        assert(drawable(layers[layers.len() - 1], w, canvas.len() as int));
        pixels::overlay_keeps_size(
            painted(canvas, rest, w),
            layers.last().rgba,
            w as int,
            box_of(layers.last()),
        );
    }
}

/// A frame has four bytes for each pixel of the canvas.
pub proof fn frames_are_full(
    g: Gallery,
    emotion: Option<Seq<char>>,
    mouth: MouthState,
    eyes: EyeState,
    anim_frames: Seq<usize>,
    show_idle: bool,
)
    requires
        g.base.len() == g.width * g.height * 4,
        g.can_draw(emotion, mouth, eyes, anim_frames, show_idle),
    ensures
        g.drawn(emotion, mouth, eyes, anim_frames, show_idle).full(),
{
    painted_len(g.base, g.shown(emotion, mouth, eyes, anim_frames, show_idle), g.width);
}

/// Every layer has the size of the canvas.
pub open spec fn uniform(g: Gallery) -> bool {
    &&& g.base.len() == g.width * g.height * 4
    &&& forall|k: Seq<char>| #[trigger] g.layers.dom().contains(k) ==> sized(g, g.layers[k])
    &&& forall|i: int, f: int|
        0 <= i < g.anims.len() && 0 <= f < g.anims[i].len() ==> sized(
            g,
            #[trigger] g.anims[i][f],
        )
    &&& g.idle matches Some(pic) ==> sized(g, pic)
}

/// The picture has the size of the canvas.
pub open spec fn sized(g: Gallery, pic: Pic) -> bool {
    pic.full() && pic.width == g.width && pic.height == g.height
}

proof fn anim_layers_sized(g: Gallery, frames: Seq<usize>, n: int)
    requires
        uniform(g),
        n <= g.anims.len(),
    ensures
        forall|i: int|
            0 <= i < anim_layers(g.anims, frames, n).len() ==> sized(
                g,
                #[trigger] anim_layers(g.anims, frames, n)[i],
            ),
    decreases n,
{
    if n > 0 {
        anim_layers_sized(g, frames, n - 1);
        let before = anim_layers(g.anims, frames, n - 1);
        let after = anim_layers(g.anims, frames, n);
        assert forall|i: int| 0 <= i < after.len() implies sized(g, #[trigger] after[i]) by {
            if i < before.len() {
                assert(after[i] == before[i]);
            }
        }
    }
}

/// When all layers share one size, every state can be drawn.
pub proof fn uniform_layers_always_draw(
    g: Gallery,
    emotion: Option<Seq<char>>,
    mouth: MouthState,
    eyes: EyeState,
    anim_frames: Seq<usize>,
    show_idle: bool,
)
    requires
        uniform(g),
    ensures
        g.can_draw(emotion, mouth, eyes, anim_frames, show_idle),
{
    let all = g.shown(emotion, mouth, eyes, anim_frames, show_idle);
    anim_layers_sized(g, anim_frames, g.anims.len() as int);
    assert forall|i: int| 0 <= i < all.len() implies drawable(
        #[trigger] all[i],
        g.width,
        g.base.len() as int,
    ) by {
        let a = g.resolved(g.catalog.eyes_url(emotion, eyes));
        let b = g.resolved(g.catalog.mouth_url(mouth));
        let c = if mouth == MouthState::Closed {
            anim_layers(g.anims, anim_frames, g.anims.len() as int)
        } else {
            seq![]
        };
        if i < a.len() {
            assert(all[i] == a[i]);
        } else if i < a.len() + b.len() {
            assert(all[i] == b[i - a.len()]);
        } else if i < a.len() + b.len() + c.len() {
            assert(all[i] == c[i - a.len() - b.len()]);
        }
        assert(sized(g, all[i]));
        same_size_is_drawable(all[i], g.width, g.height);
    }
}

/// The picture is a square of the given edge.
spec fn square(s: u32, pic: Pic) -> bool {
    pic.full() && pic.width == s && pic.height == s
}

proof fn fitted_is_square(pic: Pic, s: u32, out: Pic)
    requires
        images::fitted(pic, Some(s), out),
    ensures
        square(s, out),
{
}

proof fn instance_frames_square(
    pattern: Seq<char>,
    n: nat,
    files: Seq<FrameFile>,
    s: u32,
    m: int,
    out: Seq<Pic>,
)
    requires
        instance_frames(pattern, n, files, Some(s), m, out),
    ensures
        forall|f: int| 0 <= f < out.len() ==> square(s, #[trigger] out[f]),
    decreases m,
{
    if m > 0 {
        match files[m - 1] {
            Some(content) => {
                instance_frames_square(pattern, n, files, s, m - 1, out.drop_last());
                fitted_is_square(
                    images::picture_in(frame_name(pattern, n, m as nat), content)->0,
                    s,
                    out.last(),
                );
                assert forall|f: int| 0 <= f < out.len() implies square(s, #[trigger] out[f]) by {
                    if f < out.len() - 1 {
                        assert(out.drop_last()[f] == out[f]);
                    }
                }
            },
            None => {
                instance_frames_square(pattern, n, files, s, m - 1, out);
            },
        }
    }
}

proof fn group_instances_square(g: AnimGroup, s: u32, n: int, out: Seq<Seq<Pic>>)
    requires
        group_instances(g, Some(s), n, out),
    ensures
        forall|i: int, f: int|
            0 <= i < out.len() && 0 <= f < out[i].len() ==> square(s, #[trigger] out[i][f]),
    decreases n,
{
    if n > 0 {
        let files = g.files@[n - 1]@;
        if has_frames(files) {
            group_instances_square(g, s, n - 1, out.drop_last());
            instance_frames_square(
                g.def.file_pattern@,
                n as nat,
                files,
                s,
                files.len() as int,
                out.last(),
            );
            assert forall|i: int, f: int| 0 <= i < out.len() && 0 <= f < out[i].len() implies square(
                s,
                #[trigger] out[i][f],
            ) by {
                if i < out.len() - 1 {
                    assert(out.drop_last()[i] == out[i]);
                    assert(square(s, out.drop_last()[i][f]));
                } else {
                    assert(out.last() == out[i]);
                }
            }
        } else {
            group_instances_square(g, s, n - 1, out);
        }
    }
}

proof fn all_instances_square(groups: Seq<AnimGroup>, s: u32, n: int, out: Seq<Seq<Pic>>)
    requires
        all_instances(groups, Some(s), n, out),
    ensures
        forall|i: int, f: int|
            0 <= i < out.len() && 0 <= f < out[i].len() ==> square(s, #[trigger] out[i][f]),
    decreases n,
{
    if n > 0 {
        let g = groups[n - 1];
        let k = out.len() - live_instances(g, g.files@.len() as int);
        all_instances_square(groups, s, n - 1, out.take(k));
        group_instances_square(g, s, g.files@.len() as int, out.skip(k));
        assert forall|i: int, f: int| 0 <= i < out.len() && 0 <= f < out[i].len() implies square(
            s,
            #[trigger] out[i][f],
        ) by {
            if i < k {
                assert(out.take(k)[i] == out[i]);
                assert(square(s, out.take(k)[i][f]));
            } else {
                assert(out.skip(k)[i - k] == out[i]);
                assert(square(s, out.skip(k)[i - k][f]));
            }
        }
    }
}

/// With an output size every layer, and so the canvas, has that size: whatever
/// the sizes of the art, every state can be drawn.
pub proof fn output_size_always_draws(
    g: Gallery,
    catalog: AssetCatalog,
    files: Seq<Result<Vec<u8>, String>>,
    anims: AnimSource,
    idle: IdleSource,
    s: u32,
)
    requires
        g.holds(catalog, files, anims, idle, Some(s)),
    ensures
        g.width == s,
        g.height == s,
        uniform(g),
        forall|
            emotion: Option<Seq<char>>,
            mouth: MouthState,
            eyes: EyeState,
            anim_frames: Seq<usize>,
            show_idle: bool,
        | #[trigger]
            g.can_draw(emotion, mouth, eyes, anim_frames, show_idle),
{
    let paths = first_uses(catalog_paths(catalog.0));
    let rels = text::texts(catalog.0.base@);
    assert forall|k: Seq<char>| #[trigger] g.layers.dom().contains(k) implies square(
        s,
        g.layers[k],
    ) by {
        let i = choose|i: int| 0 <= i < paths.len() && paths[i] == k;
        fitted_is_square(images::picture_in(paths[i], files[i])->0, s, g.layers[paths[i]]);
    }
    named_are_used(catalog.0, rels.len() as int);
    assert(rels.take(rels.len() as int) =~= rels);
    let first = named(rels)[0];
    assert(under_paths(g.layers, named(rels))[0] == g.layers[first]);
    assert(paths.contains(first));
    let i = choose|i: int| 0 <= i < paths.len() && paths[i] == first;
    assert(g.layers.dom().contains(paths[i]));
    all_instances_square(anims->Ok_0@, s, anims->Ok_0@.len() as int, g.anims);
    assert forall|i: int, f: int|
        0 <= i < g.anims.len() && 0 <= f < g.anims[i].len() implies sized(
        g,
        #[trigger] g.anims[i][f],
    ) by {
        assert(square(s, g.anims[i][f]));
    }
    assert forall|k: Seq<char>| #[trigger] g.layers.dom().contains(k) implies sized(
        g,
        g.layers[k],
    ) by {
        assert(square(s, g.layers[k]));
    }
    assert forall|
        emotion: Option<Seq<char>>,
        mouth: MouthState,
        eyes: EyeState,
        anim_frames: Seq<usize>,
        show_idle: bool,
    | #[trigger] g.can_draw(emotion, mouth, eyes, anim_frames, show_idle) by {
        uniform_layers_always_draw(g, emotion, mouth, eyes, anim_frames, show_idle);
    }
}

/// A layer of the size of the canvas lies over what was drawn before it.
proof fn layer_lies_over(canvas: Seq<u8>, pic: Pic, w: u32, h: u32)
    requires
        pic.full(),
        pic.width == w,
        pic.height == h,
        canvas.len() == w * h * 4,
    ensures
        pixels::lies_over(canvas, pic.rgba, over(canvas, pic, w)),
{
    box_exists(pic);
    pixels::whole_layer_is_blended(canvas, pic, box_of(pic));
}

/// The frame of a gallery whose topmost layer is `top`.
proof fn topmost_lies_over(g: Gallery, lower: Seq<Pic>, top: Pic)
    requires
        uniform(g),
        sized(g, top),
        all_drawable(lower, g.width, g.base.len() as int),
    ensures
        painted(g.base, lower, g.width).len() == g.base.len(),
        pixels::lies_over(
            painted(g.base, lower, g.width),
            top.rgba,
            painted(g.base, lower.push(top), g.width),
        ),
{
    painted_len(g.base, lower, g.width);
    assert(lower.push(top).drop_last() =~= lower);
    layer_lies_over(painted(g.base, lower, g.width), top, g.width, g.height);
}

/// A URL stands for the layer under the path behind its prefix; one without
/// such a layer, or no URL at all, for nothing.
pub proof fn url_finds_its_layer(g: Gallery, rel: Seq<char>)
    ensures
        g.layers.dom().contains(rel) ==> g.resolved(Some("/frames/"@ + rel)) == seq![g.layers[rel]],
        !g.layers.dom().contains(rel) ==> g.resolved(Some("/frames/"@ + rel)) == Seq::<Pic>::empty(),
        g.resolved(None) == Seq::<Pic>::empty(),
{
    url_gives_back_path(rel);
}

/// Without animation overlays and idle overlay a frame is the body, with the
/// eye layer over it and the mouth layer over both, each blended pixel by
/// pixel. The result is what the body and the eyes show together.
pub proof fn eyes_lie_over_the_body_and_the_mouth_over_both(
    g: Gallery,
    emotion: Option<Seq<char>>,
    mouth: MouthState,
    eyes: EyeState,
    anim_frames: Seq<usize>,
    eye_path: Seq<char>,
    mouth_path: Seq<char>,
) -> (face: Seq<u8>)
    requires
        uniform(g),
        mouth != MouthState::Closed || g.anims.len() == 0,
        g.catalog.eyes_url(emotion, eyes) == Some("/frames/"@ + eye_path),
        g.catalog.mouth_url(mouth) == Some("/frames/"@ + mouth_path),
    ensures
        ({
            let frame = g.drawn(emotion, mouth, eyes, anim_frames, false);
            &&& frame.width == g.width
            &&& frame.height == g.height
            &&& if g.layers.dom().contains(eye_path) {
                pixels::lies_over(g.base, g.layers[eye_path].rgba, face)
            } else {
                face == g.base
            }
            &&& if g.layers.dom().contains(mouth_path) {
                pixels::lies_over(face, g.layers[mouth_path].rgba, frame.rgba)
            } else {
                frame.rgba == face
            }
        }),
{
    url_finds_its_layer(g, eye_path);
    url_finds_its_layer(g, mouth_path);
    let lower = g.resolved(g.catalog.eyes_url(emotion, eyes));
    let all = g.shown(emotion, mouth, eyes, anim_frames, false);
    let none = Seq::<Pic>::empty();
    uniform_layers_always_draw(g, emotion, mouth, eyes, anim_frames, false);
    assert(all =~= lower + g.resolved(g.catalog.mouth_url(mouth)));
    assert forall|j: int| 0 <= j < lower.len() implies drawable(
        #[trigger] lower[j],
        g.width,
        g.base.len() as int,
    ) by {
        assert(lower[j] == all[j]);
    }
    if g.layers.dom().contains(eye_path) {
        assert(lower =~= none.push(g.layers[eye_path]));
        topmost_lies_over(g, none, g.layers[eye_path]);
        assert(painted(g.base, none, g.width) == g.base);
    }
    if g.layers.dom().contains(mouth_path) {
        assert(all =~= lower.push(g.layers[mouth_path]));
        topmost_lies_over(g, lower, g.layers[mouth_path]);
    } else {
        assert(all =~= lower);
    }
    painted(g.base, lower, g.width)
}

proof fn fewer_instances(anims: Seq<Seq<Pic>>, more: Seq<Seq<Pic>>, frames: Seq<usize>, n: int)
    requires
        n <= anims.len(),
        n <= more.len(),
        forall|i: int| 0 <= i < n ==> (#[trigger] anims[i]) == more[i],
    ensures
        anim_layers(anims, frames, n) == anim_layers(more, frames, n),
    decreases n,
{
    if n > 0 {
        fewer_instances(anims, more, frames, n - 1);
        assert(anims[n - 1] == more[n - 1]);
    }
}

/// At rest every animation instance is drawn, over those before it: its
/// current frame, or its first where none is given, is one more layer over
/// what the gallery shows without that instance; an instance without such a
/// frame changes nothing.
pub proof fn each_instance_lies_over_those_before(
    g: Gallery,
    emotion: Option<Seq<char>>,
    eyes: EyeState,
    anim_frames: Seq<usize>,
)
    requires
        uniform(g),
        g.anims.len() > 0,
    ensures
        ({
            let k = g.anims.len() - 1;
            let f = if k < anim_frames.len() {
                anim_frames[k] as int
            } else {
                0
            };
            let fewer = Gallery { anims: g.anims.drop_last(), ..g };
            let below = fewer.drawn(emotion, MouthState::Closed, eyes, anim_frames, false);
            let frame = g.drawn(emotion, MouthState::Closed, eyes, anim_frames, false);
            let lower = fewer.shown(emotion, MouthState::Closed, eyes, anim_frames, false);
            let all = g.shown(emotion, MouthState::Closed, eyes, anim_frames, false);
            &&& f < g.anims[k].len() ==> all == lower.push(g.anims[k][f]) && pixels::lies_over(
                below.rgba,
                g.anims[k][f].rgba,
                frame.rgba,
            )
            &&& f >= g.anims[k].len() ==> all == lower && frame == below
        }),
{
    let k = g.anims.len() - 1;
    let f = if k < anim_frames.len() {
        anim_frames[k] as int
    } else {
        0
    };
    let mouth = MouthState::Closed;
    let fewer = Gallery { anims: g.anims.drop_last(), ..g };
    let lower = fewer.shown(emotion, mouth, eyes, anim_frames, false);
    let all = g.shown(emotion, mouth, eyes, anim_frames, false);
    fewer_instances(g.anims, g.anims.drop_last(), anim_frames, k);
    assert(uniform(fewer)) by {
        assert forall|i: int, j: int|
            0 <= i < fewer.anims.len() && 0 <= j < fewer.anims[i].len() implies sized(
            fewer,
            #[trigger] fewer.anims[i][j],
        ) by {
            assert(sized(g, g.anims[i][j]));
        }
    }
    uniform_layers_always_draw(fewer, emotion, mouth, eyes, anim_frames, false);
    if f < g.anims[k].len() {
        assert(all =~= lower.push(g.anims[k][f]));
        assert(sized(g, g.anims[k][f]));
        topmost_lies_over(g, lower, g.anims[k][f]);
    } else {
        assert(all =~= lower);
    }
}

/// The idle overlay, where it is asked for, is blended over all else.
pub proof fn idle_lies_over_the_frame(
    g: Gallery,
    emotion: Option<Seq<char>>,
    mouth: MouthState,
    eyes: EyeState,
    anim_frames: Seq<usize>,
)
    requires
        uniform(g),
        g.idle is Some,
    ensures
        pixels::lies_over(
            g.drawn(emotion, mouth, eyes, anim_frames, false).rgba,
            g.idle->0.rgba,
            g.drawn(emotion, mouth, eyes, anim_frames, true).rgba,
        ),
{
    let lower = g.shown(emotion, mouth, eyes, anim_frames, false);
    uniform_layers_always_draw(g, emotion, mouth, eyes, anim_frames, false);
    assert(g.shown(emotion, mouth, eyes, anim_frames, true) =~= lower.push(g.idle->0));
    topmost_lies_over(g, lower, g.idle->0);
}

/// At rest an opaque pixel of any animation instance's current frame is that
/// pixel of the frame, unless an instance after it or the idle overlay covers
/// it.
pub proof fn uncovered_instances_show(
    g: Gallery,
    emotion: Option<Seq<char>>,
    eyes: EyeState,
    anim_frames: Seq<usize>,
    show_idle: bool,
    k: int,
    i: int,
)
    requires
        uniform(g),
        0 <= k < g.anims.len(),
        0 <= i < g.base.len(),
        ({
            let f = if k < anim_frames.len() {
                anim_frames[k] as int
            } else {
                0
            };
            f < g.anims[k].len() && g.anims[k][f].rgba[4 * (i / 4) + 3] == 255
        }),
        forall|j: int|
            k < j < g.anims.len() ==> {
                let f = if j < anim_frames.len() {
                    anim_frames[j] as int
                } else {
                    0
                };
                f < (#[trigger] g.anims[j]).len() ==> g.anims[j][f].rgba[4 * (i / 4) + 3] == 0
            },
        show_idle && g.idle is Some ==> g.idle->0.rgba[4 * (i / 4) + 3] == 0,
    ensures
        ({
            let f = if k < anim_frames.len() {
                anim_frames[k] as int
            } else {
                0
            };
            g.drawn(emotion, MouthState::Closed, eyes, anim_frames, show_idle).rgba[i]
                == g.anims[k][f].rgba[i]
        }),
    decreases g.anims.len(), show_idle as int,
{
    let mouth = MouthState::Closed;
    let frame = g.drawn(emotion, mouth, eyes, anim_frames, show_idle);
    frame_len(g, emotion, eyes, anim_frames);
    if show_idle {
        uncovered_instances_show(g, emotion, eyes, anim_frames, false, k, i);
        if g.idle is Some {
            idle_lies_over_the_frame(g, emotion, mouth, eyes, anim_frames);
            let below = g.drawn(emotion, mouth, eyes, anim_frames, false);
            pixels::ends_of_lying_over(below.rgba, g.idle->0.rgba, frame.rgba, i);
        } else {
            absent_idle_is_no_op(g, emotion, mouth, eyes, anim_frames);
        }
    } else {
        each_instance_lies_over_those_before(g, emotion, eyes, anim_frames);
        let last = g.anims.len() - 1;
        let f = if last < anim_frames.len() {
            anim_frames[last] as int
        } else {
            0
        };
        let fewer = Gallery { anims: g.anims.drop_last(), ..g };
        let below = fewer.drawn(emotion, mouth, eyes, anim_frames, false);
        assert forall|a: int, b: int|
            0 <= a < fewer.anims.len() && 0 <= b < fewer.anims[a].len() implies sized(
            fewer,
            #[trigger] fewer.anims[a][b],
        ) by {
            assert(sized(g, g.anims[a][b]));
        }
        frame_len(fewer, emotion, eyes, anim_frames);
        if k < last {
            assert forall|j: int| k < j < fewer.anims.len() implies {
                let f = if j < anim_frames.len() {
                    anim_frames[j] as int
                } else {
                    0
                };
                f < (#[trigger] fewer.anims[j]).len() ==> fewer.anims[j][f].rgba[4 * (i / 4) + 3]
                    == 0
            } by {
                assert(fewer.anims[j] == g.anims[j]);
            }
            uncovered_instances_show(fewer, emotion, eyes, anim_frames, false, k, i);
            assert(g.anims[last] == g.anims[last]);
        }
        if f < g.anims[last].len() {
            pixels::ends_of_lying_over(below.rgba, g.anims[last][f].rgba, frame.rgba, i);
        }
    }
}

proof fn frame_len(
    g: Gallery,
    emotion: Option<Seq<char>>,
    eyes: EyeState,
    anim_frames: Seq<usize>,
)
    requires
        uniform(g),
    ensures
        g.drawn(emotion, MouthState::Closed, eyes, anim_frames, false).rgba.len() == g.base.len(),
{
    uniform_layers_always_draw(g, emotion, MouthState::Closed, eyes, anim_frames, false);
    frames_are_full(g, emotion, MouthState::Closed, eyes, anim_frames, false);
}

/// Without an idle overlay, asking for it changes nothing.
pub proof fn absent_idle_is_no_op(
    g: Gallery,
    emotion: Option<Seq<char>>,
    mouth: MouthState,
    eyes: EyeState,
    anim_frames: Seq<usize>,
)
    requires
        g.idle is None,
    ensures
        g.drawn(emotion, mouth, eyes, anim_frames, true) == g.drawn(
            emotion,
            mouth,
            eyes,
            anim_frames,
            false,
        ),
{
}

/// The idle overlay lies on top: where it is opaque, its pixels are the
/// frame's.
pub proof fn idle_lies_on_top(
    g: Gallery,
    emotion: Option<Seq<char>>,
    mouth: MouthState,
    eyes: EyeState,
    anim_frames: Seq<usize>,
    i: int,
)
    requires
        uniform(g),
        g.idle is Some,
        0 <= i < g.base.len(),
        g.idle->0.rgba[4 * (i / 4) + 3] == 255,
    ensures
        g.drawn(emotion, mouth, eyes, anim_frames, true).rgba[i] == g.idle->0.rgba[i],
{
    let pic = g.idle->0;
    let all = g.shown(emotion, mouth, eyes, anim_frames, true);
    let below = all.drop_last();
    assert(all.last() == pic);
    uniform_layers_always_draw(g, emotion, mouth, eyes, anim_frames, true);
    assert forall|j: int| 0 <= j < below.len() implies drawable(
        #[trigger] below[j],
        g.width,
        g.base.len() as int,
    ) by {
        assert(below[j] == all[j]);
    }
    painted_len(g.base, below, g.width);
    same_size_is_drawable(pic, g.width, g.height);
    box_exists(pic);
    let canvas = painted(g.base, below, g.width);
    pixels::cropping_loses_nothing(canvas, pic, box_of(pic), i);
    pixels::opaque_pixel_wins(canvas, pic.rgba, i);
}

/// While the mouth is open in any degree, animation overlays are hidden: the
/// frame does not depend on their frames.
pub proof fn talking_hides_animation(
    g: Gallery,
    emotion: Option<Seq<char>>,
    mouth: MouthState,
    eyes: EyeState,
    a: Seq<usize>,
    b: Seq<usize>,
    show_idle: bool,
)
    requires
        mouth != MouthState::Closed,
    ensures
        g.drawn(emotion, mouth, eyes, a, show_idle) == g.drawn(emotion, mouth, eyes, b, show_idle),
        g.drawn(emotion, mouth, eyes, a, show_idle) == (Gallery { anims: seq![], ..g }).drawn(
            emotion,
            mouth,
            eyes,
            a,
            show_idle,
        ),
{
}

/// Where the mouth layer is opaque its pixels are the frame's, over whatever
/// the eyes and the body show there.
pub proof fn mouth_lies_over_eyes(
    g: Gallery,
    emotion: Option<Seq<char>>,
    mouth: MouthState,
    eyes: EyeState,
    i: int,
)
    requires
        uniform(g),
        mouth != MouthState::Closed || g.anims.len() == 0,
        g.resolved(g.catalog.mouth_url(mouth)).len() == 1,
        0 <= i < g.base.len(),
        g.resolved(g.catalog.mouth_url(mouth))[0].rgba[4 * (i / 4) + 3] == 255,
    ensures
        g.drawn(emotion, mouth, eyes, seq![], false).rgba[i] == g.resolved(
            g.catalog.mouth_url(mouth),
        )[0].rgba[i],
{
    let pic = g.resolved(g.catalog.mouth_url(mouth))[0];
    let all = g.shown(emotion, mouth, eyes, seq![], false);
    let below = all.drop_last();
    assert(all =~= g.resolved(g.catalog.eyes_url(emotion, eyes)) + g.resolved(
        g.catalog.mouth_url(mouth),
    ));
    assert(all.last() == pic);
    uniform_layers_always_draw(g, emotion, mouth, eyes, seq![], false);
    assert forall|j: int| 0 <= j < below.len() implies drawable(
        #[trigger] below[j],
        g.width,
        g.base.len() as int,
    ) by {
        assert(below[j] == all[j]);
    }
    painted_len(g.base, below, g.width);
    same_size_is_drawable(pic, g.width, g.height);
    box_exists(pic);
    let canvas = painted(g.base, below, g.width);
    pixels::cropping_loses_nothing(canvas, pic, box_of(pic), i);
    pixels::opaque_pixel_wins(canvas, pic.rgba, i);
}

proof fn emotion_frames_are_listed(l: Seq<(Seq<char>, EyeLayers)>, n: int, j: int, p: Seq<char>)
    requires
        0 <= j < n <= l.len(),
        text::opt_text(l[j].1.open) == Some(p) || text::opt_text(l[j].1.closed) == Some(p),
    ensures
        emotion_paths(l, n).contains(p),
    decreases n,
{
    let before = emotion_paths(l, n - 1);
    let (open, closed) = (listed(l[n - 1].1.open), listed(l[n - 1].1.closed));
    let all = emotion_paths(l, n);
    if j < n - 1 {
        emotion_frames_are_listed(l, n - 1, j, p);
        let k = choose|k: int| 0 <= k < before.len() && before[k] == p;
        assert(all[k] == p);
    } else if text::opt_text(l[j].1.open) == Some(p) {
        assert(all[before.len() as int] == p);
    } else {
        assert(all[(before.len() + open.len()) as int] == p);
    }
}

/// Every frame that the catalog names is one of the layers to load: each body
/// image, each mouth, and the eyes of every expression.
pub proof fn every_frame_is_a_layer(c: LayerCatalog, p: Seq<char>)
    requires
        p.len() > 0,
        ({
            ||| exists|i: int| 0 <= i < c.base@.len() && (#[trigger] c.base@[i])@ == p
            ||| text::opt_text(c.mouths.closed) == Some(p)
            ||| text::opt_text(c.mouths.partial) == Some(p)
            ||| text::opt_text(c.mouths.medium) == Some(p)
            ||| text::opt_text(c.mouths.open) == Some(p)
            ||| text::opt_text(c.default_eyes.open) == Some(p)
            ||| text::opt_text(c.default_eyes.closed) == Some(p)
            ||| exists|j: int|
                0 <= j < c.emotions.listing().len() && (text::opt_text(
                    (#[trigger] c.emotions.listing()[j]).1.open,
                ) == Some(p) || text::opt_text(c.emotions.listing()[j].1.closed) == Some(p))
        }),
    ensures
        first_uses(catalog_paths(c)).contains(p),
{
    let l = c.emotions.listing();
    let n = l.len() as int;
    let s0 = text::texts(c.base@);
    let s1 = s0 + listed(c.mouths.closed);
    let s2 = s1 + listed(c.mouths.partial);
    let s3 = s2 + listed(c.mouths.medium);
    let s4 = s3 + listed(c.mouths.open);
    let s5 = s4 + listed(c.default_eyes.open);
    let s6 = s5 + listed(c.default_eyes.closed);
    let all = catalog_paths(c);
    assert(all == s6 + emotion_paths(l, n));
    let at = if exists|i: int| 0 <= i < c.base@.len() && (#[trigger] c.base@[i])@ == p {
        let i = choose|i: int| 0 <= i < c.base@.len() && (#[trigger] c.base@[i])@ == p;
        assert(s0[i] == p);
        i
    } else if text::opt_text(c.mouths.closed) == Some(p) {
        s0.len() as int
    } else if text::opt_text(c.mouths.partial) == Some(p) {
        s1.len() as int
    } else if text::opt_text(c.mouths.medium) == Some(p) {
        s2.len() as int
    } else if text::opt_text(c.mouths.open) == Some(p) {
        s3.len() as int
    } else if text::opt_text(c.default_eyes.open) == Some(p) {
        s4.len() as int
    } else if text::opt_text(c.default_eyes.closed) == Some(p) {
        s5.len() as int
    } else {
        let j = choose|j: int|
            0 <= j < l.len() && (text::opt_text((#[trigger] l[j]).1.open) == Some(p)
                || text::opt_text(l[j].1.closed) == Some(p));
        emotion_frames_are_listed(l, n, j, p);
        let k = choose|k: int|
            0 <= k < emotion_paths(l, n).len() && emotion_paths(l, n)[k] == p;
        s6.len() + k
    };
    assert(all[at] == p);
    first_uses_miss_nothing(all, at);
}

/// No path is loaded that is not in the list.
pub proof fn first_uses_add_nothing(s: Seq<Seq<char>>, p: Seq<char>)
    requires
        first_uses(s).contains(p),
    ensures
        s.contains(p),
    decreases s.len(),
{
    if s.len() > 0 {
        let before = first_uses(s.drop_last());
        if before.contains(p) {
            first_uses_add_nothing(s.drop_last(), p);
            let k = choose|k: int| 0 <= k < s.drop_last().len() && s.drop_last()[k] == p;
            assert(s[k] == p);
        } else {
            let k = choose|k: int| 0 <= k < first_uses(s).len() && first_uses(s)[k] == p;
            if k < before.len() {
                assert(before[k] == p);
            }
            assert(s[s.len() - 1] == p);
        }
    }
}

/// The paths of two lists keep their order, and empty ones are passed over.
pub proof fn named_paths_keep_their_order(a: Seq<Seq<char>>, b: Seq<Seq<char>>, p: Seq<char>)
    ensures
        named(a + b) == named(a) + named(b),
        p.len() > 0 ==> named(seq![p]) == seq![p],
        p.len() == 0 ==> named(seq![p]).len() == 0,
    decreases b.len(),
{
    assert(seq![p].drop_last() =~= Seq::<Seq<char>>::empty());
    assert(named(seq![p].drop_last()) =~= Seq::<Seq<char>>::empty());
    assert(p.len() > 0 ==> named(seq![p]) =~= seq![p]);
    if b.len() == 0 {
        assert(a + b =~= a);
        assert(named(a) + named(b) =~= named(a));
    } else {
        named_paths_keep_their_order(a, b.drop_last(), p);
        assert((a + b).drop_last() =~= a + b.drop_last());
        assert((a + b).last() == b.last());
        assert(named(a + b) =~= named(a) + named(b));
    }
}

/// The first layer file that is no good is reported, with its fault, and none
/// where all are good.
pub proof fn first_bad_layer_is_reported(
    paths: Seq<Seq<char>>,
    files: Seq<Result<Vec<u8>, String>>,
    size: Option<u32>,
    n: int,
    i: int,
)
    ensures
        (forall|j: int|
            0 <= j < n ==> images::image_fault(#[trigger] paths[j], files[j], size, true) is None)
            ==> first_fault(paths, files, size, n) is None,
        0 <= i < n && images::image_fault(paths[i], files[i], size, true) is Some && (forall|j: int|
            0 <= j < i ==> images::image_fault(#[trigger] paths[j], files[j], size, true) is None)
            ==> first_fault(paths, files, size, n) == Some(
            (i, images::image_fault(paths[i], files[i], size, true)->0),
        ),
    decreases n,
{
    if n > 0 {
        first_bad_layer_is_reported(paths, files, size, n - 1, i);
        if i == n - 1 {
            first_bad_layer_is_reported(paths, files, size, n - 1, n);
        }
        assert(paths[n - 1] == paths[n - 1]);
    }
}

/// How many of the first `m` frame files are there.
pub open spec fn present(files: Seq<FrameFile>, m: int) -> nat
    decreases m,
{
    if m <= 0 {
        0
    } else if files[m - 1] is Some {
        present(files, m - 1) + 1
    } else {
        present(files, m - 1)
    }
}

/// The frames of an instance are the pictures in its files, in order, with
/// those that are missing passed over and no others.
pub proof fn every_frame_file_is_a_frame(
    pattern: Seq<char>,
    n: nat,
    files: Seq<FrameFile>,
    size: Option<u32>,
    m: int,
    out: Seq<Pic>,
    f: int,
)
    requires
        instance_frames(pattern, n, files, size, m, out),
        0 <= m <= files.len(),
    ensures
        out.len() == present(files, m),
        0 <= f < m ==> (files[f] matches Some(content) ==> {
            &&& present(files, f) < out.len()
            &&& images::fitted(
                images::picture_in(frame_name(pattern, n, (f + 1) as nat), content)->0,
                size,
                out[present(files, f) as int],
            )
        }),
    decreases m,
{
    if m > 0 {
        if files[m - 1] is Some {
            every_frame_file_is_a_frame(pattern, n, files, size, m - 1, out.drop_last(), f);
            if 0 <= f < m - 1 && files[f] is Some {
                let k = present(files, f) as int;
                assert(out.drop_last()[k] == out[k]);
            }
        } else {
            every_frame_file_is_a_frame(pattern, n, files, size, m - 1, out, f);
        }
    }
}

/// The instances of a group are those with a frame, in order, each with its own
/// frames.
pub proof fn every_instance_with_frames_counts(
    g: AnimGroup,
    size: Option<u32>,
    n: int,
    out: Seq<Seq<Pic>>,
    i: int,
)
    requires
        group_instances(g, size, n, out),
        0 <= n <= g.files@.len(),
    ensures
        out.len() == live_instances(g, n),
        0 <= i < n && (exists|f: int|
            0 <= f < g.files@[i]@.len() && (#[trigger] g.files@[i]@[f]) is Some) ==> {
            let files = g.files@[i]@;
            &&& live_instances(g, i) < out.len()
            &&& instance_frames(
                g.def.file_pattern@,
                (i + 1) as nat,
                files,
                size,
                files.len() as int,
                out[live_instances(g, i) as int],
            )
        },
    decreases n,
{
    if n > 0 {
        let files = g.files@[n - 1]@;
        if has_frames(files) {
            every_instance_with_frames_counts(g, size, n - 1, out.drop_last(), i);
            if 0 <= i < n - 1 && has_frames(g.files@[i]@) {
                let k = live_instances(g, i) as int;
                assert(out.drop_last()[k] == out[k]);
            }
        } else {
            every_instance_with_frames_counts(g, size, n - 1, out, i);
        }
        if 0 <= i < n && (exists|f: int|
            0 <= f < g.files@[i]@.len() && (#[trigger] g.files@[i]@[f]) is Some) {
            assert(has_frames(g.files@[i]@));
        }
    }
}

/// An instance counts exactly when some file of it is there.
pub proof fn live_instances_have_a_file(g: AnimGroup, n: int)
    requires
        0 <= n < g.files@.len(),
    ensures
        live_instances(g, 0) == 0,
        live_instances(g, n + 1) == live_instances(g, n) + (if exists|f: int|
            0 <= f < g.files@[n]@.len() && (#[trigger] g.files@[n]@[f]) is Some {
            1int
        } else {
            0int
        }),
{
}

/// How many instances of the first `n` groups have frames.
pub open spec fn live_before(groups: Seq<AnimGroup>, n: int) -> nat
    decreases n,
{
    if n <= 0 {
        0
    } else {
        live_before(groups, n - 1) + live_instances(groups[n - 1], groups[n - 1].files@.len() as int)
    }
}

proof fn live_grows(groups: Seq<AnimGroup>, a: int, b: int)
    requires
        0 <= a <= b,
    ensures
        live_before(groups, a) <= live_before(groups, b),
    decreases b,
{
    if a < b {
        live_grows(groups, a, b - 1);
    }
}

/// The instances of every group are there, group by group.
pub proof fn every_group_is_animated(
    groups: Seq<AnimGroup>,
    size: Option<u32>,
    n: int,
    out: Seq<Seq<Pic>>,
    q: int,
)
    requires
        all_instances(groups, size, n, out),
        0 <= n <= groups.len(),
    ensures
        out.len() == live_before(groups, n),
        0 <= q < n ==> {
            &&& live_before(groups, q + 1) <= out.len()
            &&& group_instances(
                groups[q],
                size,
                groups[q].files@.len() as int,
                out.subrange(live_before(groups, q) as int, live_before(groups, q + 1) as int),
            )
        },
    decreases n,
{
    if n > 0 {
        let g = groups[n - 1];
        let k = out.len() - live_instances(g, g.files@.len() as int);
        every_group_is_animated(groups, size, n - 1, out.take(k), q);
        every_instance_with_frames_counts(g, size, g.files@.len() as int, out.skip(k), 0);
        if q == n - 1 {
            assert(out.subrange(k, out.len() as int) =~= out.skip(k));
        } else if 0 <= q < n - 1 {
            live_grows(groups, q, q + 1);
            live_grows(groups, q + 1, n - 1);
            let (a, b) = (live_before(groups, q) as int, live_before(groups, q + 1) as int);
            assert(out.take(k).subrange(a, b) =~= out.subrange(a, b));
        }
    }
}

proof fn no_instance_fault(
    pattern: Seq<char>,
    n: nat,
    files: Seq<FrameFile>,
    size: Option<u32>,
    m: int,
    f: int,
)
    requires
        0 <= m <= files.len(),
    ensures
        instance_fault(pattern, n, files, size, m) is None && 0 <= f < m ==> (
        files[f] matches Some(content) ==> images::image_fault(
            frame_name(pattern, n, (f + 1) as nat),
            content,
            size,
            false,
        ) is None),
        instance_fault(pattern, n, files, size, m) matches Some(e) ==> exists|i: int|
            0 <= i < m && {
                &&& #[trigger] files[i] matches Some(content)
                &&& e.0 == frame_name(pattern, n, (i + 1) as nat)
                &&& images::image_fault(e.0, content, size, false) == Some(e.1)
            },
    decreases m,
{
    if m > 0 {
        no_instance_fault(pattern, n, files, size, m - 1, f);
        assert(files[m - 1] == files[m - 1]);
    }
}

/// Where no animation frame is at fault, every frame file that is there gives
/// a picture.
pub proof fn sound_animations_have_sound_frames(
    groups: Seq<AnimGroup>,
    size: Option<u32>,
    n: int,
    q: int,
    i: int,
    f: int,
)
    requires
        anim_fault(groups, size, n) is None,
        0 <= q < n <= groups.len(),
        0 <= i < groups[q].files@.len(),
        0 <= f < groups[q].files@[i]@.len(),
    ensures
        groups[q].files@[i]@[f] matches Some(content) ==> images::image_fault(
            frame_name(groups[q].def.file_pattern@, (i + 1) as nat, (f + 1) as nat),
            content,
            size,
            false,
        ) is None,
    decreases n,
{
    if q < n - 1 {
        sound_animations_have_sound_frames(groups, size, n - 1, q, i, f);
    } else {
        let g = groups[q];
        no_group_fault(g, size, g.files@.len() as int, i);
        let files = g.files@[i]@;
        no_instance_fault(
            g.def.file_pattern@,
            (i + 1) as nat,
            files,
            size,
            files.len() as int,
            f,
        );
    }
}

proof fn no_group_fault(g: AnimGroup, size: Option<u32>, n: int, i: int)
    requires
        group_fault(g, size, n) is None,
        0 <= i < n <= g.files@.len(),
    ensures
        instance_fault(
            g.def.file_pattern@,
            (i + 1) as nat,
            g.files@[i]@,
            size,
            g.files@[i]@.len() as int,
        ) is None,
    decreases n,
{
    if i < n - 1 {
        no_group_fault(g, size, n - 1, i);
    }
}

/// An animation is at fault only for a frame file that is there and is no good:
/// the fault names that file and says why.
pub proof fn faulty_animations_name_a_bad_frame(groups: Seq<AnimGroup>, size: Option<u32>, n: int)
    requires
        0 <= n <= groups.len(),
    ensures
        anim_fault(groups, size, n) matches Some(e) ==> exists|q: int, i: int, f: int|
            bad_frame(groups, size, q, i, f, e),
    decreases n,
{
    if n > 0 {
        faulty_animations_name_a_bad_frame(groups, size, n - 1);
        if anim_fault(groups, size, n - 1) is None && anim_fault(groups, size, n) is Some {
            let g = groups[n - 1];
            let e = anim_fault(groups, size, n)->0;
            let i = faulty_instance(g, size, g.files@.len() as int);
            let files = g.files@[i]@;
            no_instance_fault(
                g.def.file_pattern@,
                (i + 1) as nat,
                files,
                size,
                files.len() as int,
                0,
            );
            let f = choose|f: int|
                0 <= f < files.len() && {
                    &&& #[trigger] files[f] matches Some(content)
                    &&& e.0 == frame_name(g.def.file_pattern@, (i + 1) as nat, (f + 1) as nat)
                    &&& images::image_fault(e.0, content, size, false) == Some(e.1)
                };
            assert(bad_frame(groups, size, n - 1, i, f, e));
        }
    }
}

/// Frame `f` of instance `i` of group `q` is there, is called as the fault
/// says, and is no good for the reason it gives.
pub open spec fn bad_frame(
    groups: Seq<AnimGroup>,
    size: Option<u32>,
    q: int,
    i: int,
    f: int,
    e: (Seq<char>, FaultKind),
) -> bool {
    &&& 0 <= q < groups.len()
    &&& 0 <= i < groups[q].files@.len()
    &&& 0 <= f < groups[q].files@[i]@.len()
    &&& e.0 == frame_name(groups[q].def.file_pattern@, (i + 1) as nat, (f + 1) as nat)
    &&& groups[q].files@[i]@[f] matches Some(content) && images::image_fault(
        e.0,
        content,
        size,
        false,
    ) == Some(e.1)
}

proof fn faulty_instance(g: AnimGroup, size: Option<u32>, n: int) -> (i: int)
    requires
        0 <= n <= g.files@.len(),
        group_fault(g, size, n) is Some,
    ensures
        0 <= i < n,
        group_fault(g, size, n) == instance_fault(
            g.def.file_pattern@,
            (i + 1) as nat,
            g.files@[i]@,
            size,
            g.files@[i]@.len() as int,
        ),
    decreases n,
{
    if group_fault(g, size, n - 1) is Some {
        faulty_instance(g, size, n - 1)
    } else {
        n - 1
    }
}

/// A compositor can be made exactly when the catalog names a body image, every
/// layer file gives a picture, the animations could be read and no frame is at
/// fault, and the idle overlay, if there is one, gives a picture too.
pub proof fn compositors_need_sound_files(
    c: LayerCatalog,
    files: Seq<Result<Vec<u8>, String>>,
    anims: AnimSource,
    idle: IdleSource,
    size: Option<u32>,
)
    ensures
        ({
            let paths = first_uses(catalog_paths(c));
            let n = paths.len() as int;
            defect(c, files, anims, idle, size) is None <==> {
                &&& named(text::texts(c.base@)).len() > 0
                &&& first_fault(paths, files, size, n) is None
                &&& anims matches Ok(groups) && anim_fault(
                    groups@,
                    size,
                    groups@.len() as int,
                ) is None
                &&& idle matches Ok(file) && (file matches Some(f) ==> images::image_fault(
                    f.path@,
                    f.content,
                    size,
                    true,
                ) is None)
            }
        }),
{
}

proof fn brace_stands_alone(a: Seq<char>, mark: Seq<char>, b: Seq<char>, with: Seq<char>)
    requires
        mark.len() == 3,
        mark[0] == '{',
        forall|i: int| 0 <= i < a.len() ==> #[trigger] a[i] != '{',
        forall|j: int| !text::occurs_at(b, mark, j),
    ensures
        text::replaced(a + mark + b, mark, with) == a + with + b,
{
    let s = a + mark + b;
    let n = a.len() as int;
    assert(s.subrange(n, n + 3) =~= mark);
    assert(text::occurs_at(s, mark, n));
    assert forall|i: int| 0 <= i < n implies !text::occurs_at(s, mark, i) by {
        assert(s[i] == a[i]);
        if text::occurs_at(s, mark, i) {
            assert(s.subrange(i, i + 3)[0] == s[i]);
        }
    }
    text::occurrences_are_replaced(s, mark, with, n);
    text::occurrences_are_replaced(b, mark, with, 0);
    assert(s.take(n) =~= a);
    assert(s.skip(n + 3) =~= b);
}

proof fn no_brace_no_mark(s: Seq<char>, mark: Seq<char>, k: int)
    requires
        mark.len() == 3,
        mark[0] == '{',
        forall|i: int| 0 <= i < s.len() && i != k ==> #[trigger] s[i] != '{',
        0 <= k && k + 1 < s.len() ==> s[k + 1] != mark[1],
    ensures
        forall|j: int| !text::occurs_at(s, mark, j),
{
    assert forall|j: int| !text::occurs_at(s, mark, j) by {
        if text::occurs_at(s, mark, j) {
            let t = s.subrange(j, j + 3);
            assert(t[0] == s[j] && t[1] == s[j + 1]);
        }
    }
}

/// In a pattern the number of the instance stands for `{n}` and that of the
/// frame for `{f}`; the rest is the file's name as it stands.
pub proof fn patterns_are_filled_in(a: Seq<char>, b: Seq<char>, c: Seq<char>, n: nat, f: nat)
    requires
        forall|i: int| 0 <= i < a.len() ==> #[trigger] a[i] != '{',
        forall|i: int| 0 <= i < b.len() ==> #[trigger] b[i] != '{',
        forall|i: int| 0 <= i < c.len() ==> #[trigger] c[i] != '{',
    ensures
        frame_name(a + "{n}"@ + (b + "{f}"@ + c), n, f) == (a + text::decimal_text(n) + b)
            + text::decimal_text(f) + c,
{
    reveal_strlit("{n}");
    reveal_strlit("{f}");
    let rest = b + "{f}"@ + c;
    let k = b.len() as int;
    assert forall|i: int| 0 <= i < rest.len() && i != k implies #[trigger] rest[i] != '{' by {
        if i < k {
            assert(rest[i] == b[i]);
        } else if i >= k + 3 {
            assert(rest[i] == c[i - k - 3]);
        }
    }
    assert(rest[k + 1] == 'f');
    no_brace_no_mark(rest, "{n}"@, k);
    let dn = text::decimal_text(n);
    brace_stands_alone(a, "{n}"@, rest, dn);
    let head = a + dn + b;
    assert(a + dn + rest =~= head + "{f}"@ + c);
    text::numerals_read_back(n);
    assert forall|i: int| 0 <= i < head.len() implies #[trigger] head[i] != '{' by {
        if i < a.len() {
            assert(head[i] == a[i]);
        } else if i < a.len() + dn.len() {
            assert(head[i] == dn[i - a.len()]);
            assert(text::is_digit(dn[i - a.len()]));
        } else {
            assert(head[i] == b[i - a.len() - dn.len()]);
        }
    }
    no_brace_no_mark(c, "{f}"@, -1);
    brace_stands_alone(head, "{f}"@, c, text::decimal_text(f));
}

/// The scheduler of a group has the numbers and the times of the group.
pub proof fn schedulers_have_their_groups_numbers(d: AnimDef)
    ensures
        config_of(d).instances == d.instances,
        config_of(d).frames == d.frames,
        config_of(d).min_interval == d.min_interval,
        config_of(d).max_interval == d.max_interval,
{
}

/// A layer can be drawn exactly when every pixel of the rectangle of its
/// visible pixels, with rows counted as on the canvas, has its four bytes both
/// on the canvas and in the layer.
pub proof fn drawable_layers_stay_inside(pic: Pic, w: u32, len: int)
    requires
        len >= 0,
        box_of(pic).x1 <= w,
    ensures
        drawable(pic, w, len) <==> forall|x: int, y: int|
            #[trigger] box_of(pic).holds(x, y) ==> (y * w + x) * 4 + 4 <= len && (y * w + x) * 4 + 4
                <= pic.rgba.len(),
{
    let b = box_of(pic);
    if !b.empty() {
        assert(b.holds(b.x1 - 1, b.y1 - 1));
        assert(((b.y1 - 1) * w + (b.x1 - 1)) * 4 + 4 == ((b.y1 - 1) * w + b.x1) * 4);
        assert forall|x: int, y: int| #[trigger] b.holds(x, y) implies (y * w + x) * 4 + 4 <= ((b.y1
            - 1) * w + b.x1) * 4 by {
            assert(y * w <= (b.y1 - 1) * w) by (nonlinear_arith)
                requires
                    y <= b.y1 - 1,
                    w >= 0,
            ;
        }
    }
}

/// A gallery holds what was loaded: the picture of every layer file under its
/// path, the body with the size of its first image, the instances and the
/// scheduler of every animation group, and the idle overlay if there is one.
pub proof fn galleries_hold_what_was_loaded(
    g: Gallery,
    catalog: AssetCatalog,
    files: Seq<Result<Vec<u8>, String>>,
    groups: Vec<AnimGroup>,
    idle: Option<IdleFile>,
    size: Option<u32>,
    i: int,
)
    requires
        g.holds(catalog, files, Ok(groups), Ok(idle), size),
    ensures
        ({
            let paths = first_uses(catalog_paths(catalog.0));
            let body = named(text::texts(catalog.0.base@));
            &&& g.catalog == catalog
            &&& 0 <= i < paths.len() ==> g.layers.dom().contains(paths[i]) && images::fitted(
                images::picture_in(paths[i], files[i])->0,
                size,
                g.layers[paths[i]],
            )
            &&& body.len() > 0
            &&& g.width == g.layers[body[0]].width && g.height == g.layers[body[0]].height
            &&& g.base.len() == g.width * g.height * 4
            &&& all_instances(groups@, size, groups@.len() as int, g.anims)
            &&& g.anim_config.len() == groups@.len()
            &&& 0 <= i < groups@.len() ==> g.anim_config[i] == config_of(groups@[i].def)
            &&& g.idle is Some <==> idle is Some
            &&& idle matches Some(f) ==> images::fitted(
                images::picture_in(f.path@, f.content)->0,
                size,
                g.idle->0,
            )
        }),
{
    let body = named(text::texts(catalog.0.base@));
    assert(under_paths(g.layers, body)[0] == g.layers[body[0]]);
}

/// The body shows the images that the catalog names, in order: an opaque pixel
/// of any of them, unless one named after it covers it.
pub proof fn body_shows_its_images(
    g: Gallery,
    catalog: AssetCatalog,
    files: Seq<Result<Vec<u8>, String>>,
    anims: AnimSource,
    idle: IdleSource,
    size: Option<u32>,
    k: int,
    x: int,
    y: int,
)
    requires
        g.holds(catalog, files, anims, idle, size),
        0 <= x < g.width,
        0 <= y < g.height,
        ({
            let body = named(text::texts(catalog.0.base@));
            &&& 0 <= k < body.len()
            &&& x < g.layers[body[k]].width && y < g.layers[body[k]].height
            &&& g.layers[body[k]].alpha(x, y) == 255
            &&& forall|j: int|
                k < j < body.len() ==> {
                    ||| g.layers[#[trigger] body[j]].width <= x
                    ||| g.layers[body[j]].height <= y
                    ||| g.layers[body[j]].alpha(x, y) == 0
                }
        }),
    ensures
        (Pic { width: g.width, height: g.height, rgba: g.base }).pixel(x, y) == g.layers[named(
            text::texts(catalog.0.base@),
        )[k]].pixel(x, y),
{
    let body = named(text::texts(catalog.0.base@));
    let pics = under_paths(g.layers, body);
    let out = Pic { width: g.width, height: g.height, rgba: g.base };
    assert(pics[k] == g.layers[body[k]]);
    assert forall|j: int| k < j < pics.len() implies {
        ||| (#[trigger] pics[j]).width <= x
        ||| pics[j].height <= y
        ||| pics[j].alpha(x, y) == 0
    } by {
        assert(pics[j] == g.layers[body[j]]);
    }
    images::uncovered_pictures_show(pics, out, k, x, y);
}

/// What stands in for what an animation leaves out: one instance, and 0.1 to
/// 0.5 seconds between two frames.
pub proof fn animation_defaults_in_use()
    ensures
        DEFAULT_ANIM_INSTANCES == 1,
        DEFAULT_ANIM_MIN == 0x3DCC_CCCD,
        DEFAULT_ANIM_MAX == 0x3F00_0000,
{
}

/// The text of an error mentions the file that it is about, and the cause where
/// one is known.
pub proof fn errors_mention_the_file(e: CompositorError, root: Seq<char>)
    ensures
        e matches CompositorError::Layer { rel, fault } ==> {
            let path = crate::assets::under(root, rel@);
            &&& text::occurs(e.text(root), path)
            &&& fault matches ImageFault::Unreadable(cause) ==> text::occurs(e.text(root), cause@)
            &&& fault matches ImageFault::Undecodable(cause) ==> text::occurs(e.text(root), cause@)
        },
        e matches CompositorError::AnimFrame { file, fault } ==> {
            &&& fault is Empty || fault is TooLarge ==> text::occurs(e.text(root), file@)
            &&& fault matches ImageFault::Unreadable(cause) ==> text::occurs(e.text(root), cause@)
            &&& fault matches ImageFault::Undecodable(cause) ==> text::occurs(e.text(root), cause@)
        },
        e matches CompositorError::Idle { path, fault } ==> {
            &&& text::occurs(e.text(root), path@)
            &&& fault matches ImageFault::Unreadable(cause) ==> text::occurs(e.text(root), cause@)
            &&& fault matches ImageFault::Undecodable(cause) ==> text::occurs(e.text(root), cause@)
        },
        e matches CompositorError::AnimSource(s) ==> e.text(root) == s@,
        e matches CompositorError::IdleSource(s) ==> e.text(root) == s@,
{
    let none = Seq::<char>::empty();
    match e {
        CompositorError::Layer { rel, fault } => {
            let path = crate::assets::under(root, rel@);
            match fault {
                ImageFault::Unreadable(cause) | ImageFault::Undecodable(cause) => {
                    let a = "compositor: decoding "@;
                    text::parts_occur(a, path, ": "@ + cause@);
                    text::parts_occur(a + path + ": "@, cause@, none);
                    assert(a + path + ": "@ + cause@ =~= a + path + (": "@ + cause@));
                },
                ImageFault::Empty => {
                    text::parts_occur("compositor: empty image "@, path, none);
                },
                ImageFault::TooLarge => {
                    text::parts_occur("compositor: cannot scale "@, path, none);
                },
            }
        },
        CompositorError::AnimFrame { file, fault } => match fault {
            ImageFault::Unreadable(cause) | ImageFault::Undecodable(cause) => {
                text::parts_occur(none, cause@, none);
                assert(none + cause@ =~= cause@);
            },
            ImageFault::Empty => {
                text::parts_occur("animation frame "@, file@, " is empty"@);
            },
            ImageFault::TooLarge => {
                text::parts_occur("cannot scale animation frame "@, file@, none);
            },
        },
        CompositorError::Idle { path, fault } => match fault {
            ImageFault::Unreadable(cause) | ImageFault::Undecodable(cause) => {
                let a = "decoding idle overlay "@;
                text::parts_occur(a, path@, ": "@ + cause@);
                text::parts_occur(a + path@ + ": "@, cause@, none);
                assert(a + path@ + ": "@ + cause@ =~= a + path@ + (": "@ + cause@));
            },
            ImageFault::Empty => {
                text::parts_occur("idle overlay "@, path@, " is empty"@);
            },
            ImageFault::TooLarge => {
                text::parts_occur("cannot scale idle overlay "@, path@, none);
            },
        },
        _ => {},
    }
}

/// A layer of any size blends each pixel of the rectangle of its visible pixels
/// with the one below it, rows being counted as on the canvas, and touches
/// nothing else.
pub proof fn layers_blend_their_rectangle(canvas: Seq<u8>, pic: Pic, w: u32, i: int)
    requires
        drawable(pic, w, canvas.len() as int),
        !box_of(pic).empty(),
        box_of(pic).x1 <= w,
        0 <= i < canvas.len(),
    ensures
        ({
            let b = box_of(pic);
            let out = over(canvas, pic, w)[i];
            let inside = b.holds((i / 4) % w as int, (i / 4) / w as int);
            let a = pic.rgba[4 * (i / 4) + 3];
            &&& !inside || a == 0 ==> out == canvas[i]
            &&& inside && a != 0 && i % 4 == 3 ==> out == 255
            &&& inside && a != 0 && i % 4 != 3 ==> 255 * out <= a * pic.rgba[i] + (255 - a)
                * canvas[i] < 255 * out + 255
        }),
{
    pixels::only_the_rectangle_is_blended(canvas, pic.rgba, w as int, box_of(pic), i);
}

/// A frame is the body with the layers that show laid over it, one after the
/// other; a layer without a visible pixel changes nothing.
pub proof fn layers_are_laid_one_by_one(
    g: Gallery,
    emotion: Option<Seq<char>>,
    mouth: MouthState,
    eyes: EyeState,
    anim_frames: Seq<usize>,
    show_idle: bool,
    lower: Seq<Pic>,
    top: Pic,
)
    ensures
        ({
            let frame = g.drawn(emotion, mouth, eyes, anim_frames, show_idle);
            let all = g.shown(emotion, mouth, eyes, anim_frames, show_idle);
            &&& frame.width == g.width && frame.height == g.height
            &&& all.len() == 0 ==> frame.rgba == g.base
            &&& all == lower.push(top) ==> frame.rgba == over(
                painted(g.base, lower, g.width),
                top,
                g.width,
            )
        }),
        painted(g.base, Seq::empty(), g.width) == g.base,
        painted(g.base, lower.push(top), g.width) == over(
            painted(g.base, lower, g.width),
            top,
            g.width,
        ),
        (forall|x: int, y: int| !top.shows(x, y)) ==> over(g.base, top, g.width) == g.base,
{
    assert(lower.push(top).drop_last() =~= lower);
    box_exists(top);
}

/// The layers that show, bottom-up: the eyes, the mouth, at rest the current
/// frame of each animation instance, and the idle overlay where it is asked
/// for.
pub proof fn layers_show_in_order(
    g: Gallery,
    emotion: Option<Seq<char>>,
    mouth: MouthState,
    eyes: EyeState,
    anim_frames: Seq<usize>,
)
    ensures
        ({
            let all = g.shown(emotion, mouth, eyes, anim_frames, false);
            let face = g.resolved(g.catalog.eyes_url(emotion, eyes)) + g.resolved(
                g.catalog.mouth_url(mouth),
            );
            let k = g.anims.len() - 1;
            let f = if k < anim_frames.len() {
                anim_frames[k] as int
            } else {
                0
            };
            let fewer = Gallery { anims: g.anims.drop_last(), ..g };
            let lower = fewer.shown(emotion, mouth, eyes, anim_frames, false);
            &&& mouth != MouthState::Closed || g.anims.len() == 0 ==> all == face
            &&& mouth == MouthState::Closed && g.anims.len() > 0 && f < g.anims[k].len() ==> all
                == lower.push(g.anims[k][f])
            &&& mouth == MouthState::Closed && g.anims.len() > 0 && f >= g.anims[k].len() ==> all
                == lower
            &&& g.idle matches Some(pic) ==> g.shown(emotion, mouth, eyes, anim_frames, true)
                == all.push(pic)
            &&& g.idle is None ==> g.shown(emotion, mouth, eyes, anim_frames, true) == all
        }),
{
    let all = g.shown(emotion, mouth, eyes, anim_frames, false);
    let face = g.resolved(g.catalog.eyes_url(emotion, eyes)) + g.resolved(
        g.catalog.mouth_url(mouth),
    );
    if mouth != MouthState::Closed || g.anims.len() == 0 {
        assert(all =~= face);
    } else {
        let k = g.anims.len() - 1;
        let f = if k < anim_frames.len() {
            anim_frames[k] as int
        } else {
            0
        };
        let fewer = Gallery { anims: g.anims.drop_last(), ..g };
        let lower = fewer.shown(emotion, mouth, eyes, anim_frames, false);
        fewer_instances(g.anims, g.anims.drop_last(), anim_frames, k);
        if f < g.anims[k].len() {
            assert(all =~= lower.push(g.anims[k][f]));
        } else {
            assert(all =~= lower);
        }
    }
    if g.idle is Some {
        assert(g.shown(emotion, mouth, eyes, anim_frames, true) =~= all.push(g.idle->0));
    }
}

} // verus!
