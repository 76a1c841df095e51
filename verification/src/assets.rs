//! Layered asset catalog.
//!
//! Builds a [`LayerCatalog`] from what stands under the asset root, and
//! resolves the layer to show for a mouth level or an eye state. All layers
//! share one canvas size.
//!
//! ```text
//! <asset_root>/
//!   base/*.png            static body images, stacked bottom-up in name order
//!   mouths/closed.png     resting mouth                        (required)
//!   mouths/partial.png                                         (optional)
//!   mouths/medium.png                                          (optional)
//!   mouths/open.png       fully open mouth                     (required)
//!   eyes/open.png         resting eyes                         (required)
//!   eyes/closed.png       eyes during a blink                  (optional)
//!   eyes/<emotion>/open.png, closed.png                        (optional)
//! ```
//!
//! A missing mouth level snaps to the nearest one that is there (the less
//! open of two equally near), and an expression without `closed.png` keeps
//! its `open.png` during a blink.
use crate::buffers::copy_range;
use crate::protocol::{EyeLayers, EyeState, LayerCatalog, MouthLayers, MouthState};
use crate::text;
use crate::text::{chars_of, concat2, concat3, string_of, to_lower};
use crate::textmap::TextMap;
use vstd::prelude::*;
use vstd::utf8;

verus! {

/// URL prefix under which the asset root is served.
pub const FRAMES_URL_PREFIX: &'static str = "/frames";

// ---------------------------------------------------------------------------
// What was found on disk
// ---------------------------------------------------------------------------
/// One entry of a directory.
#[derive(Debug)]
pub struct DirEntry {
    /// The file name, as the bytes that the file system holds.
    pub name: Vec<u8>,
    /// The entry is a directory.
    pub is_dir: bool,
    /// The entry is a regular file.
    pub is_file: bool,
    /// The entry is a directory that holds `open.png`.
    pub has_open: bool,
    /// The entry is a directory that holds `closed.png`.
    pub has_closed: bool,
}

/// A directory entry with its name as a sequence of bytes.
pub struct EntryModel {
    pub name: Seq<u8>,
    pub is_dir: bool,
    pub is_file: bool,
    pub has_open: bool,
    pub has_closed: bool,
}

impl View for DirEntry {
    type V = EntryModel;

    open spec fn view(&self) -> EntryModel {
        EntryModel {
            name: self.name@,
            is_dir: self.is_dir,
            is_file: self.is_file,
            has_open: self.has_open,
            has_closed: self.has_closed,
        }
    }
}

/// What reading a directory gave.
#[derive(Debug)]
pub enum Listing {
    /// There is no such directory.
    Missing,
    /// The directory cannot be read; the text says why.
    Failed(String),
    /// The entries, in the order in which the file system gave them.
    Entries(Vec<DirEntry>),
}

impl Listing {
    /// The entries found, in the order found; none where there is no directory.
    pub open spec fn found(self) -> Seq<EntryModel> {
        match self {
            Listing::Entries(v) => v@.map_values(|e: DirEntry| e@),
            _ => seq![],
        }
    }
}

/// What stands under an asset root.
#[derive(Debug)]
pub struct AssetTree {
    pub base: Listing,
    pub mouths: Listing,
    pub eyes: Listing,
    /// `eyes/open.png` exists.
    pub eyes_open: bool,
    /// `eyes/closed.png` exists.
    pub eyes_closed: bool,
}

/// The directories that are read under an asset root.
#[derive(Debug, Clone, Copy, PartialEq, Eq, Structural)]
pub enum AssetDir {
    Base,
    Mouths,
    Eyes,
}

impl AssetDir {
    /// The directory's name.
    pub open spec fn name_text(self) -> Seq<char> {
        match self {
            AssetDir::Base => "base"@,
            AssetDir::Mouths => "mouths"@,
            AssetDir::Eyes => "eyes"@,
        }
    }

    /// The directory's name.
    pub fn name(self) -> (r: &'static str)
        ensures
            r@ == self.name_text(),
    {
        match self {
            AssetDir::Base => "base",
            AssetDir::Mouths => "mouths",
            AssetDir::Eyes => "eyes",
        }
    }
}

/// Why an asset root gives no catalog.
#[derive(Debug)]
pub enum AssetError {
    /// A directory is there and cannot be read.
    Unreadable { dir: AssetDir, cause: String },
    /// `base/` holds no PNG file.
    NoBase,
    /// `eyes/open.png` is missing.
    NoOpenEyes,
    /// `mouths/closed.png` or `mouths/open.png` is missing.
    NoMouthAnchors,
}

impl AssetError {
    /// The error text for the asset root `root`.
    pub open spec fn text(self, root: Seq<char>) -> Seq<char> {
        match self {
            AssetError::Unreadable { dir, cause } => "reading "@ + under(root, dir.name_text())
                + ": "@ + cause@,
            AssetError::NoBase => "no base body images found under "@ + root + "/base/*.png"@,
            AssetError::NoOpenEyes => "eyes/open.png is required under "@ + root
                + " (the resting eyes frame)"@,
            AssetError::NoMouthAnchors =>
            "mouths/closed.png and mouths/open.png are required under "@ + root,
        }
    }

    /// The error text for the asset root `root`.
    pub fn message(&self, root: &str) -> (r: String)
        ensures
            r@ == self.text(root@),
    {
        match self {
            AssetError::Unreadable { dir, cause } => {
                let path = join_path(root, dir.name());
                let mut r = concat3("reading ", path.as_str(), ": ");
                r.append(cause.as_str());
                r
            },
            AssetError::NoBase => concat3("no base body images found under ", root, "/base/*.png"),
            AssetError::NoOpenEyes => concat3(
                "eyes/open.png is required under ",
                root,
                " (the resting eyes frame)",
            ),
            AssetError::NoMouthAnchors => concat2(
                "mouths/closed.png and mouths/open.png are required under ",
                root,
            ),
        }
    }
}

/// The path `name`, taken from the directory `root` unless it is absolute.
pub open spec fn under(root: Seq<char>, name: Seq<char>) -> Seq<char> {
    if name.len() > 0 && name[0] == '/' {
        name
    } else if root.len() == 0 || root.last() == '/' {
        root + name
    } else {
        root + "/"@ + name
    }
}

/// The path `name`, taken from the directory `root` unless it is absolute.
pub fn join_path(root: &str, name: &str) -> (r: String)
    ensures
        r@ == under(root@, name@),
{
    let chars = chars_of(root);
    let rel = chars_of(name);
    if rel.len() > 0 && rel[0] == '/' {
        name.to_owned()
    } else if chars.len() == 0 || chars[chars.len() - 1] == '/' {
        concat2(root, name)
    } else {
        concat3(root, "/", name)
    }
}

// ---------------------------------------------------------------------------
// File names
// ---------------------------------------------------------------------------
/// The text of `bytes` with each part that is not UTF-8 replaced, as
/// `String::from_utf8_lossy` gives it.
pub uninterp spec fn lossy_utf8(bytes: Seq<u8>) -> Seq<char>;

/// `String::from_utf8`: the text that the bytes encode, or `None` if they are
/// not UTF-8.
#[verifier::external_body]
pub(crate) fn utf8_text(bytes: Vec<u8>) -> (r: Option<String>)
    ensures
        r is Some <==> utf8::valid_utf8(bytes@),
        r matches Some(s) ==> s@ == utf8::decode_utf8(bytes@),
{
    String::from_utf8(bytes).ok()
}

/// `String::from_utf8_lossy`: a text for any bytes, the encoded one where they
/// are UTF-8. What stands for the bytes that are not is only named.
#[verifier::external_body]
fn lossy_text(bytes: &Vec<u8>) -> (r: String)
    ensures
        r@ == lossy_utf8(bytes@),
        utf8::valid_utf8(bytes@) ==> r@ == utf8::decode_utf8(bytes@),
{
    String::from_utf8_lossy(bytes).into_owned()
}

/// The names compare byte by byte; a prefix comes first.
pub open spec fn bytes_lt(a: Seq<u8>, b: Seq<u8>) -> bool
    decreases a.len(),
{
    if b.len() == 0 {
        false
    } else if a.len() == 0 {
        true
    } else if a[0] != b[0] {
        a[0] < b[0]
    } else {
        bytes_lt(a.drop_first(), b.drop_first())
    }
}

/// True if the name `a` comes before the name `b`.
fn name_less(a: &Vec<u8>, b: &Vec<u8>) -> (r: bool)
    ensures
        r == bytes_lt(a@, b@),
{
    let mut i: usize = 0;
    assert(a@.skip(0) =~= a@);
    assert(b@.skip(0) =~= b@);
    while i < a.len() && i < b.len()
        invariant
            i <= a@.len(),
            i <= b@.len(),
            bytes_lt(a@, b@) == bytes_lt(a@.skip(i as int), b@.skip(i as int)),
        decreases a@.len() - i,
    {
        assert(a@.skip(i as int).drop_first() =~= a@.skip(i + 1));
        assert(b@.skip(i as int).drop_first() =~= b@.skip(i + 1));
        if a[i] != b[i] {
            return a[i] < b[i];
        }
        i = i + 1;
    }
    i < b.len()
}

/// A name of the form `<stem>.png` with a stem.
pub open spec fn is_png(name: Seq<u8>) -> bool {
    let n = name.len() as int;
    n > 4 && name[n - 4] == 0x2e && name[n - 3] == 0x70 && name[n - 2] == 0x6e && name[n - 1]
        == 0x67
}

/// True if the name has the extension `png`.
fn png_name(name: &Vec<u8>) -> (r: bool)
    ensures
        r == is_png(name@),
{
    let n: usize = name.len();
    n > 4 && name[n - 4] == 0x2e && name[n - 3] == 0x70 && name[n - 2] == 0x6e && name[n - 1]
        == 0x67
}

/// The name is exactly the ASCII text `s`.
pub open spec fn is_name(name: Seq<u8>, s: Seq<char>) -> bool {
    name == utf8::encode_utf8(s)
}

fn name_is(name: &Vec<u8>, s: &str) -> (r: bool)
    ensures
        r == is_name(name@, s@),
{
    let b = s.as_bytes();
    if name.len() != b.len() {
        return false;
    }
    let mut i: usize = 0;
    while i < name.len()
        invariant
            i <= name@.len(),
            name@.len() == b@.len(),
            b@ == utf8::encode_utf8(s@),
            forall|j: int| 0 <= j < i ==> name@[j] == b@[j],
        decreases name@.len() - i,
    {
        if name[i] != b[i] {
            return false;
        }
        i = i + 1;
    }
    assert(name@ =~= b@);
    true
}

/// A path with forward slashes only.
pub open spec fn url_ready(s: Seq<char>) -> Seq<char> {
    s.map_values(
        |c: char|
            if c == '\\' {
                '/'
            } else {
                c
            },
    )
}

fn forward_slashes(s: &str) -> (r: String)
    ensures
        r@ == url_ready(s@),
{
    let chars = chars_of(s);
    let mut out: Vec<char> = Vec::new();
    let mut i: usize = 0;
    while i < chars.len()
        invariant
            i <= chars@.len(),
            chars@ == s@,
            out@ == url_ready(s@.take(i as int)),
        decreases chars@.len() - i,
    {
        assert(s@.take(i + 1) =~= s@.take(i as int).push(s@[i as int]));
        if chars[i] == '\\' {
            out.push('/');
        } else {
            out.push(chars[i]);
        }
        assert(out@ =~= url_ready(s@.take(i + 1)));
        i = i + 1;
    }
    assert(s@.take(i as int) =~= s@);
    assert(out@.subrange(0, out@.len() as int) =~= out@);
    string_of(&out, 0, out.len())
}

/// The path of a body image relative to the asset root. A name that is not
/// UTF-8 is shown alone, with its odd bytes replaced.
pub open spec fn base_path(name: Seq<u8>) -> Seq<char> {
    if utf8::valid_utf8(name) {
        url_ready("base/"@ + utf8::decode_utf8(name))
    } else {
        lossy_utf8(name)
    }
}

fn base_rel(name: &Vec<u8>) -> (r: String)
    ensures
        r@ == base_path(name@),
{
    match utf8_text(copy_range(name, 0, name.len())) {
        Some(s) => {
            let p = concat2("base/", s.as_str());
            forward_slashes(p.as_str())
        },
        None => lossy_text(name),
    }
}

// ---------------------------------------------------------------------------
// Name order
// ---------------------------------------------------------------------------
/// The entries with `e` put after every entry that it does not come before.
pub open spec fn placed(s: Seq<EntryModel>, e: EntryModel) -> Seq<EntryModel>
    decreases s.len(),
{
    if s.len() == 0 {
        seq![e]
    } else if bytes_lt(e.name, s[0].name) {
        seq![e] + s
    } else {
        seq![s[0]] + placed(s.drop_first(), e)
    }
}

/// The entries in name order.
pub open spec fn in_name_order(s: Seq<EntryModel>) -> Seq<EntryModel>
    decreases s.len(),
{
    if s.len() == 0 {
        seq![]
    } else {
        placed(in_name_order(s.drop_last()), s.last())
    }
}

/// Where `placed` puts the entry.
proof fn placed_at(s: Seq<EntryModel>, e: EntryModel, i: int)
    requires
        0 <= i <= s.len(),
        forall|j: int| 0 <= j < i ==> !bytes_lt(e.name, (#[trigger] s[j]).name),
        i < s.len() ==> bytes_lt(e.name, s[i].name),
    ensures
        placed(s, e) == s.insert(i, e),
    decreases s.len(),
{
    if s.len() == 0 {
        assert(placed(s, e) =~= s.insert(i, e));
    } else if i == 0 {
        assert(placed(s, e) =~= s.insert(i, e));
    } else {
        assert(!bytes_lt(e.name, s[0].name));
        let t = s.drop_first();
        assert forall|j: int| 0 <= j < i - 1 implies !bytes_lt(e.name, (#[trigger] t[j]).name) by {
            assert(t[j] == s[j + 1]);
        }
        placed_at(t, e, i - 1);
        assert(placed(s, e) =~= s.insert(i, e));
    }
}

proof fn bytes_lt_irreflexive(a: Seq<u8>)
    ensures
        !bytes_lt(a, a),
    decreases a.len(),
{
    if a.len() > 0 {
        bytes_lt_irreflexive(a.drop_first());
    }
}

proof fn bytes_lt_asymmetric(a: Seq<u8>, b: Seq<u8>)
    requires
        bytes_lt(a, b),
    ensures
        !bytes_lt(b, a),
    decreases a.len(),
{
    if a.len() > 0 && b.len() > 0 && a[0] == b[0] {
        bytes_lt_asymmetric(a.drop_first(), b.drop_first());
    }
}

/// "Not after" is transitive.
proof fn bytes_ge_transitive(a: Seq<u8>, b: Seq<u8>, c: Seq<u8>)
    requires
        !bytes_lt(b, a),
        !bytes_lt(c, b),
    ensures
        !bytes_lt(c, a),
    decreases a.len(),
{
    if a.len() > 0 && b.len() > 0 && c.len() > 0 && a[0] == b[0] && b[0] == c[0] {
        bytes_ge_transitive(a.drop_first(), b.drop_first(), c.drop_first());
    }
}

/// No entry comes before an earlier one.
pub open spec fn name_ordered(s: Seq<EntryModel>) -> bool {
    forall|i: int, j: int|
        0 <= i < j < s.len() ==> !bytes_lt((#[trigger] s[j]).name, (#[trigger] s[i]).name)
}

proof fn placed_keeps_order(s: Seq<EntryModel>, e: EntryModel)
    requires
        name_ordered(s),
    ensures
        name_ordered(placed(s, e)),
        placed(s, e).to_multiset() == s.to_multiset().insert(e),
        placed(s, e).len() == s.len() + 1,
        forall|j: int|
            0 <= j < placed(s, e).len() ==> (#[trigger] placed(s, e)[j] == e || s.contains(
                placed(s, e)[j],
            )),
    decreases s.len(),
{
    broadcast use vstd::seq_lib::group_to_multiset_ensures;

    let p = placed(s, e);
    if s.len() == 0 {
        assert(p =~= s.push(e));
    } else if bytes_lt(e.name, s[0].name) {
        assert forall|i: int, j: int| 0 <= i < j < p.len() implies !bytes_lt(
            (#[trigger] p[j]).name,
            (#[trigger] p[i]).name,
        ) by {
            if i == 0 {
                bytes_lt_asymmetric(e.name, s[0].name);
                if j > 1 {
                    assert(!bytes_lt(s[j - 1].name, s[0].name));
                    bytes_ge_transitive(e.name, s[0].name, s[j - 1].name);
                }
            } else {
                assert(!bytes_lt(s[j - 1].name, s[i - 1].name));
            }
        }
        assert(p =~= s.insert(0, e));
        assert forall|j: int| 0 <= j < p.len() implies (#[trigger] p[j] == e || s.contains(p[j])) by {
            if j > 0 {
                assert(p[j] == s[j - 1]);
            }
        }
    } else {
        let t = s.drop_first();
        assert(name_ordered(t)) by {
            assert forall|i: int, j: int| 0 <= i < j < t.len() implies !bytes_lt(
                (#[trigger] t[j]).name,
                (#[trigger] t[i]).name,
            ) by {
                assert(t[j] == s[j + 1] && t[i] == s[i + 1]);
            }
        }
        placed_keeps_order(t, e);
        let q = placed(t, e);
        assert(p =~= seq![s[0]] + q);
        assert(s =~= seq![s[0]] + t);
        assert(p =~= q.insert(0, s[0]));
        assert(s =~= t.insert(0, s[0]));
        assert(p.to_multiset() =~= s.to_multiset().insert(e));
        assert forall|j: int| 0 <= j < p.len() implies (#[trigger] p[j] == e || s.contains(p[j])) by {
            if j == 0 {
                assert(p[0] == s[0]);
            } else {
                assert(p[j] == q[j - 1]);
                if p[j] != e {
                    let k = choose|k: int| 0 <= k < t.len() && t[k] == q[j - 1];
                    assert(s[k + 1] == p[j]);
                }
            }
        }
        assert forall|i: int, j: int| 0 <= i < j < p.len() implies !bytes_lt(
            (#[trigger] p[j]).name,
            (#[trigger] p[i]).name,
        ) by {
            assert(p[j] == q[j - 1]);
            if i == 0 {
                if q[j - 1] != e {
                    let k = choose|k: int| 0 <= k < t.len() && t[k] == q[j - 1];
                    assert(s[k + 1] == q[j - 1]);
                    assert(!bytes_lt(s[k + 1].name, s[0].name));
                }
            } else {
                assert(p[i] == q[i - 1]);
            }
        }
    }
}

/// Putting entries in name order loses none, adds none, and leaves no entry
/// before one whose name comes first.
pub proof fn name_order_sorts(s: Seq<EntryModel>)
    ensures
        name_ordered(in_name_order(s)),
        in_name_order(s).to_multiset() == s.to_multiset(),
    decreases s.len(),
{
    broadcast use vstd::seq_lib::group_to_multiset_ensures;

    if s.len() > 0 {
        name_order_sorts(s.drop_last());
        placed_keeps_order(in_name_order(s.drop_last()), s.last());
        assert(s =~= s.drop_last().push(s.last()));
    } else {
        assert(s =~= Seq::<EntryModel>::empty());
    }
}

/// The entries of `v` in name order.
fn sort_entries(v: &Vec<DirEntry>) -> (r: Vec<&DirEntry>)
    ensures
        r@.map_values(|e: &DirEntry| e@) == in_name_order(v@.map_values(|e: DirEntry| e@)),
{
    let mut r: Vec<&DirEntry> = Vec::new();
    let ghost all = v@.map_values(|e: DirEntry| e@);
    assert(r@.map_values(|e: &DirEntry| e@) =~= in_name_order(all.take(0)));
    let mut i: usize = 0;
    while i < v.len()
        invariant
            i <= v@.len(),
            all == v@.map_values(|e: DirEntry| e@),
            r@.map_values(|e: &DirEntry| e@) == in_name_order(all.take(i as int)),
        decreases v@.len() - i,
    {
        let ghost before = r@.map_values(|e: &DirEntry| e@);
        let e: &DirEntry = &v[i];
        let mut k: usize = 0;
        while k < r.len() && !name_less(&e.name, &r[k].name)
            invariant
                k <= r@.len(),
                before == r@.map_values(|e: &DirEntry| e@),
                forall|j: int| 0 <= j < k ==> !bytes_lt(e@.name, (#[trigger] before[j]).name),
            decreases r@.len() - k,
        {
            assert(before[k as int].name == r@[k as int].name@);
            k = k + 1;
        }
        proof {
            if k < r@.len() {
                assert(before[k as int].name == r@[k as int].name@);
            }
            placed_at(before, e@, k as int);
            assert(all.take(i + 1).drop_last() =~= all.take(i as int));
        }
        r.insert(k, e);
        assert(r@.map_values(|e: &DirEntry| e@) =~= before.insert(k as int, e@));
        i = i + 1;
    }
    assert(all.take(i as int) =~= all);
    r
}

// ---------------------------------------------------------------------------
// The catalog
// ---------------------------------------------------------------------------
/// The asset catalog.
#[derive(Debug)]
pub struct AssetCatalog(pub LayerCatalog);

impl Clone for AssetCatalog {
    fn clone(&self) -> (r: AssetCatalog)
        ensures
            r.0.same_layers(self.0),
    {
        AssetCatalog(self.0.clone())
    }
}

/// The paths of the body images among entries in name order.
pub open spec fn base_paths(s: Seq<EntryModel>) -> Seq<Seq<char>>
    decreases s.len(),
{
    if s.len() == 0 {
        seq![]
    } else if is_png(s.last().name) {
        base_paths(s.drop_last()).push(base_path(s.last().name))
    } else {
        base_paths(s.drop_last())
    }
}

/// Some entry is a file of that name.
pub open spec fn has_file(s: Seq<EntryModel>, name: Seq<char>) -> bool {
    exists|i: int| 0 <= i < s.len() && !(#[trigger] s[i]).is_dir && is_name(s[i].name, name)
}

/// The mouth file `file`, if it is among the entries.
pub open spec fn mouth_path(s: Seq<EntryModel>, file: Seq<char>) -> Option<Seq<char>> {
    if has_file(s, file) {
        Some("mouths/"@ + file)
    } else {
        None
    }
}

/// The frames of an expression as texts: open, closed.
pub open spec fn eye_texts(e: EyeLayers) -> (Option<Seq<char>>, Option<Seq<char>>) {
    (text::opt_text(e.open), text::opt_text(e.closed))
}

/// The frames in the directory `dir`, given which of them exist. Without
/// `open.png` the set is empty.
pub open spec fn eye_set(dir: Seq<char>, open: bool, closed: bool) -> (
    Option<Seq<char>>,
    Option<Seq<char>>,
) {
    (
        if open {
            Some(url_ready(dir + "/open.png"@))
        } else {
            None
        },
        if open && closed {
            Some(url_ready(dir + "/closed.png"@))
        } else {
            None
        },
    )
}

/// The entry names an emotion: a directory with a UTF-8 name and `open.png`.
pub open spec fn is_emotion(e: EntryModel) -> bool {
    e.is_dir && utf8::valid_utf8(e.name) && e.has_open
}

/// The emotions among entries in name order, under their lower-case names; of
/// two names that differ in case only, the later one counts.
pub open spec fn emotion_sets(s: Seq<EntryModel>) -> Map<
    Seq<char>,
    (Option<Seq<char>>, Option<Seq<char>>),
>
    decreases s.len(),
{
    if s.len() == 0 {
        Map::empty()
    } else if is_emotion(s.last()) {
        let name = utf8::decode_utf8(s.last().name);
        emotion_sets(s.drop_last()).insert(
            text::lowered(name),
            eye_set("eyes/"@ + name, true, s.last().has_closed),
        )
    } else {
        emotion_sets(s.drop_last())
    }
}

/// The map holds the expressions of the model.
pub open spec fn holds_sets(
    m: Map<Seq<char>, EyeLayers>,
    sets: Map<Seq<char>, (Option<Seq<char>>, Option<Seq<char>>)>,
) -> bool {
    &&& m.dom() == sets.dom()
    &&& forall|k: Seq<char>| #[trigger]
        m.dom().contains(k) ==> eye_texts(m[k]) == sets[k]
}

impl AssetTree {
    /// Why the tree gives no catalog, checking the directories in turn and
    /// then the frames that must be there.
    pub open spec fn defect(self) -> Option<AssetError> {
        if let Listing::Failed(cause) = self.base {
            Some(AssetError::Unreadable { dir: AssetDir::Base, cause })
        } else if base_paths(in_name_order(self.base.found())).len() == 0 {
            Some(AssetError::NoBase)
        } else if let Listing::Failed(cause) = self.mouths {
            Some(AssetError::Unreadable { dir: AssetDir::Mouths, cause })
        } else if let Listing::Failed(cause) = self.eyes {
            Some(AssetError::Unreadable { dir: AssetDir::Eyes, cause })
        } else if !self.eyes_open {
            Some(AssetError::NoOpenEyes)
        } else if !has_file(self.mouths.found(), "closed.png"@) || !has_file(
            self.mouths.found(),
            "open.png"@,
        ) {
            Some(AssetError::NoMouthAnchors)
        } else {
            None
        }
    }
}

impl LayerCatalog {
    /// The catalog lists what stands in the tree.
    pub open spec fn describes(self, tree: AssetTree) -> bool {
        &&& text::texts(self.base@) == base_paths(in_name_order(tree.base.found()))
        &&& text::opt_text(self.mouths.closed) == mouth_path(tree.mouths.found(), "closed.png"@)
        &&& text::opt_text(self.mouths.partial) == mouth_path(tree.mouths.found(), "partial.png"@)
        &&& text::opt_text(self.mouths.medium) == mouth_path(tree.mouths.found(), "medium.png"@)
        &&& text::opt_text(self.mouths.open) == mouth_path(tree.mouths.found(), "open.png"@)
        &&& eye_texts(self.default_eyes) == eye_set("eyes"@, tree.eyes_open, tree.eyes_closed)
        &&& holds_sets(self.emotions@, emotion_sets(in_name_order(tree.eyes.found())))
    }

    /// Everything that must be there to draw the avatar in any state.
    pub open spec fn complete(self) -> bool {
        &&& self.base@.len() > 0
        &&& self.mouths.closed is Some
        &&& self.mouths.open is Some
        &&& self.default_eyes.open is Some
        &&& forall|k: Seq<char>| #[trigger]
            self.emotions@.dom().contains(k) ==> self.emotions@[k].open is Some && text::lowered(
                k,
            ) == k
    }
}

fn load_base(listing: &Listing) -> (r: Vec<String>)
    ensures
        text::texts(r@) == base_paths(in_name_order(listing.found())),
{
    let mut out: Vec<String> = Vec::new();
    match listing {
        Listing::Entries(v) => {
            let order = sort_entries(v);
            let ghost m = order@.map_values(|e: &DirEntry| e@);
            let mut i: usize = 0;
            assert(text::texts(out@) =~= base_paths(m.take(0)));
            while i < order.len()
                invariant
                    i <= order@.len(),
                    m == order@.map_values(|e: &DirEntry| e@),
                    text::texts(out@) == base_paths(m.take(i as int)),
                decreases order@.len() - i,
            {
                assert(m.take(i + 1).drop_last() =~= m.take(i as int));
                assert(m[i as int] == order@[i as int]@);
                if png_name(&order[i].name) {
                    let ghost before = text::texts(out@);
                    let p = base_rel(&order[i].name);
                    out.push(p);
                    assert(text::texts(out@) =~= before.push(p@));
                }
                i = i + 1;
            }
            assert(m.take(i as int) =~= m);
        },
        _ => {
            assert(text::texts(out@) =~= base_paths(in_name_order(listing.found())));
        },
    }
    out
}

fn find_mouth(listing: &Listing, file: &str) -> (r: Option<String>)
    ensures
        text::opt_text(r) == mouth_path(listing.found(), file@),
{
    match listing {
        Listing::Entries(v) => {
            let ghost m = listing.found();
            let mut i: usize = 0;
            while i < v.len()
                invariant
                    i <= v@.len(),
                    m == v@.map_values(|e: DirEntry| e@),
                    m == listing.found(),
                    forall|j: int|
                        0 <= j < i ==> (#[trigger] m[j]).is_dir || !is_name(m[j].name, file@),
                decreases v@.len() - i,
            {
                assert(m[i as int] == v@[i as int]@);
                if !v[i].is_dir && name_is(&v[i].name, file) {
                    return Some(concat2("mouths/", file));
                }
                i = i + 1;
            }
            None
        },
        _ => None,
    }
}

fn load_mouths(listing: &Listing) -> (r: MouthLayers)
    ensures
        text::opt_text(r.closed) == mouth_path(listing.found(), "closed.png"@),
        text::opt_text(r.partial) == mouth_path(listing.found(), "partial.png"@),
        text::opt_text(r.medium) == mouth_path(listing.found(), "medium.png"@),
        text::opt_text(r.open) == mouth_path(listing.found(), "open.png"@),
{
    MouthLayers {
        closed: find_mouth(listing, "closed.png"),
        partial: find_mouth(listing, "partial.png"),
        medium: find_mouth(listing, "medium.png"),
        open: find_mouth(listing, "open.png"),
    }
}

/// The frames of one eyes directory, given which of them exist.
fn load_eye_set(dir: &str, open: bool, closed: bool) -> (r: EyeLayers)
    ensures
        eye_texts(r) == eye_set(dir@, open, closed),
{
    let mut layers = EyeLayers::default();
    if open {
        let p = concat2(dir, "/open.png");
        layers.open = Some(forward_slashes(p.as_str()));
    }
    if open && closed {
        let p = concat2(dir, "/closed.png");
        layers.closed = Some(forward_slashes(p.as_str()));
    }
    layers
}

fn load_emotions(listing: &Listing) -> (r: TextMap<EyeLayers>)
    ensures
        holds_sets(r@, emotion_sets(in_name_order(listing.found()))),
{
    let mut out: TextMap<EyeLayers> = TextMap::new();
    match listing {
        Listing::Entries(v) => {
            let order = sort_entries(v);
            let ghost m = order@.map_values(|e: &DirEntry| e@);
            let mut i: usize = 0;
            assert(out@.dom() =~= emotion_sets(m.take(0)).dom());
            while i < order.len()
                invariant
                    i <= order@.len(),
                    m == order@.map_values(|e: &DirEntry| e@),
                    holds_sets(out@, emotion_sets(m.take(i as int))),
                decreases order@.len() - i,
            {
                assert(m.take(i + 1).drop_last() =~= m.take(i as int));
                assert(m[i as int] == order@[i as int]@);
                let e: &DirEntry = order[i];
                if e.is_dir && e.has_open {
                    match utf8_text(copy_range(&e.name, 0, e.name.len())) {
                        Some(name) => {
                            let key = to_lower(name.as_str());
                            let dir = concat2("eyes/", name.as_str());
                            let set = load_eye_set(dir.as_str(), true, e.has_closed);
                            out.insert(key, set);
                            assert(out@.dom() =~= emotion_sets(m.take(i + 1)).dom());
                        },
                        None => {},
                    }
                }
                i = i + 1;
            }
            assert(m.take(i as int) =~= m);
        },
        _ => {
            assert(out@.dom() =~= emotion_sets(in_name_order(listing.found())).dom());
        },
    }
    out
}

/// Every key is in lower case and every expression has its resting frame.
proof fn emotion_sets_complete(s: Seq<EntryModel>, k: Seq<char>)
    requires
        emotion_sets(s).dom().contains(k),
    ensures
        text::lowered(k) == k,
        emotion_sets(s)[k].0 is Some,
    decreases s.len(),
{
    if s.len() > 0 {
        if is_emotion(s.last()) {
            let name = utf8::decode_utf8(s.last().name);
            text::lowered_idempotent(name);
            if k != text::lowered(name) {
                emotion_sets_complete(s.drop_last(), k);
            }
        } else {
            emotion_sets_complete(s.drop_last(), k);
        }
    }
}

/// A catalog made from a tree without defect is complete.
pub proof fn sound_tree_gives_complete_catalog(tree: AssetTree, c: LayerCatalog)
    requires
        tree.defect() is None,
        c.describes(tree),
    ensures
        c.complete(),
{
    assert(text::texts(c.base@).len() == c.base@.len());
    assert forall|k: Seq<char>| #[trigger] c.emotions@.dom().contains(k) implies c.emotions@[k].open
        is Some && text::lowered(k) == k by {
        let s = in_name_order(tree.eyes.found());
        emotion_sets_complete(s, k);
        assert(eye_texts(c.emotions@[k]) == emotion_sets(s)[k]);
    }
}

impl AssetCatalog {
    /// Builds the catalog of the asset root in which `tree` was found.
    pub fn load(tree: &AssetTree) -> (r: Result<AssetCatalog, AssetError>)
        ensures
            match r {
                Ok(c) => tree.defect() is None && c.0.describes(*tree) && c.0.complete(),
                Err(e) => tree.defect() == Some(e),
            },
    {
        if let Listing::Failed(cause) = &tree.base {
            return Err(AssetError::Unreadable { dir: AssetDir::Base, cause: cause.clone() });
        }
        let base = load_base(&tree.base);
        assert(text::texts(base@).len() == base@.len());
        if base.len() == 0 {
            return Err(AssetError::NoBase);
        }
        if let Listing::Failed(cause) = &tree.mouths {
            return Err(AssetError::Unreadable { dir: AssetDir::Mouths, cause: cause.clone() });
        }
        let mouths = load_mouths(&tree.mouths);
        let default_eyes = load_eye_set("eyes", tree.eyes_open, tree.eyes_closed);
        if let Listing::Failed(cause) = &tree.eyes {
            return Err(AssetError::Unreadable { dir: AssetDir::Eyes, cause: cause.clone() });
        }
        let emotions = load_emotions(&tree.eyes);
        if default_eyes.open.is_none() {
            return Err(AssetError::NoOpenEyes);
        }
        if mouths.closed.is_none() || mouths.open.is_none() {
            return Err(AssetError::NoMouthAnchors);
        }
        let c = LayerCatalog { base, mouths, default_eyes, emotions };
        proof {
            sound_tree_gives_complete_catalog(*tree, c);
        }
        Ok(AssetCatalog(c))
    }

    /// The catalog itself.
    pub fn catalog(&self) -> (r: &LayerCatalog)
        ensures
            *r == self.0,
    {
        &self.0
    }

    /// The emotion names, sorted.
    pub fn emotions(&self) -> (r: Vec<&str>)
        ensures
            r@.len() == self.0.emotions.listing().len(),
            forall|i: int|
                0 <= i < r@.len() ==> (#[trigger] r@[i])@ == self.0.emotions.listing()[i].0,
            forall|i: int, j: int|
                0 <= i < j < r@.len() ==> text::text_lt((#[trigger] r@[i])@, (#[trigger] r@[j])@),
            forall|k: Seq<char>| #[trigger]
                self.0.emotions@.dom().contains(k) <==> exists|i: int|
                    0 <= i < r@.len() && (#[trigger] r@[i])@ == k,
    {
        let mut r: Vec<&str> = Vec::new();
        let n: usize = self.0.emotions.len();
        let ghost l = self.0.emotions.listing();
        let mut i: usize = 0;
        while i < n
            invariant
                i <= n,
                n == l.len(),
                l == self.0.emotions.listing(),
                r@.len() == i,
                forall|j: int| 0 <= j < i ==> (#[trigger] r@[j])@ == l[j].0,
            decreases n - i,
        {
            r.push(self.0.emotions.key_at(i).as_str());
            i = i + 1;
        }
        proof {
            assert forall|a: int, b: int| 0 <= a < b < r@.len() implies text::text_lt(
                (#[trigger] r@[a])@,
                (#[trigger] r@[b])@,
            ) by {
                assert(text::text_lt(l[a].0, l[b].0));
            }
            assert forall|k: Seq<char>| #[trigger]
                self.0.emotions@.dom().contains(k) <==> exists|i: int|
                    0 <= i < r@.len() && (#[trigger] r@[i])@ == k by {
                if self.0.emotions@.dom().contains(k) {
                    let i = choose|i: int| 0 <= i < l.len() && (#[trigger] l[i]).0 == k;
                    assert(r@[i]@ == k);
                }
                if exists|i: int| 0 <= i < r@.len() && (#[trigger] r@[i])@ == k {
                    let i = choose|i: int| 0 <= i < r@.len() && (#[trigger] r@[i])@ == k;
                    assert(l[i].0 == k);
                }
            }
        }
        r
    }

    /// True if `emotion`, in any ASCII case, names a known expression.
    pub fn has_emotion(&self, emotion: &str) -> (r: bool)
        ensures
            r == self.0.emotions@.dom().contains(text::lowered(emotion@)),
    {
        let key = to_lower(emotion);
        self.0.emotions.contains_key(key.as_str())
    }

    /// The URL of the frame for a mouth level, if the catalog has any.
    pub open spec fn mouth_url(self, mouth: MouthState) -> Option<Seq<char>> {
        match nearest(self.0.mouths, mouth) {
            Some(rel) => Some("/frames/"@ + rel),
            None => None,
        }
    }

    /// The URL of the frame for an eye state under an emotion, if there is one.
    pub open spec fn eyes_url(self, emotion: Option<Seq<char>>, eyes: EyeState) -> Option<
        Seq<char>,
    > {
        let set = expression(self.0, emotion);
        match or_else(eye_of(set, eyes), eye_of(self.0.default_eyes, eyes)) {
            Some(rel) => Some("/frames/"@ + rel),
            None => None,
        }
    }

    /// Resolves the URL for the current mouth level, snapping to the nearest
    /// frame that is there.
    pub fn mouth_frame(&self, mouth: MouthState) -> (r: Option<String>)
        ensures
            text::opt_text(r) == self.mouth_url(mouth),
    {
        match nearest_mouth(&self.0.mouths, mouth) {
            Some(rel) => Some(frames_url(rel)),
            None => None,
        }
    }

    /// Resolves the URL for the current eye state: the active emotion's frame,
    /// else the default eyes' one.
    pub fn eyes_frame(&self, emotion: Option<&str>, eyes: EyeState) -> (r: Option<String>)
        ensures
            text::opt_text(r) == self.eyes_url(text::opt_str(emotion), eyes),
    {
        let set = eye_set_for(&self.0, emotion);
        match resolve_eye(set, eyes) {
            Some(rel) => Some(frames_url(rel)),
            None => match resolve_eye(&self.0.default_eyes, eyes) {
                Some(rel) => Some(frames_url(rel)),
                None => None,
            },
        }
    }
}

fn frames_url(rel: &str) -> (r: String)
    ensures
        r@ == "/frames/"@ + rel@,
{
    proof {
        reveal_strlit("/frames");
        reveal_strlit("/");
        reveal_strlit("/frames/");
        assert("/frames"@ + "/"@ =~= "/frames/"@);
    }
    concat3(FRAMES_URL_PREFIX, "/", rel)
}

// ---------------------------------------------------------------------------
// Resolution
// ---------------------------------------------------------------------------
/// The first of two that is there.
pub open spec fn or_else<T>(a: Option<T>, b: Option<T>) -> Option<T> {
    if a is Some {
        a
    } else {
        b
    }
}

/// The frame of a mouth level, if it is there.
pub open spec fn level_text(set: MouthLayers, level: int) -> Option<Seq<char>> {
    if level == 0 {
        text::opt_text(set.closed)
    } else if level == 1 {
        text::opt_text(set.partial)
    } else if level == 2 {
        text::opt_text(set.medium)
    } else if level == 3 {
        text::opt_text(set.open)
    } else {
        None
    }
}

/// Level `a` is as good a stand-in for level `d` as level `b`: nearer, or as
/// near and not more open.
pub open spec fn as_good(d: int, a: int, b: int) -> bool {
    let da = if a < d {
        d - a
    } else {
        a - d
    };
    let db = if b < d {
        d - b
    } else {
        b - d
    };
    da < db || (da == db && a <= b)
}

/// The level that stands in for level `d`.
#[verifier::opaque]
pub open spec fn stand_in(set: MouthLayers, d: int) -> Option<int> {
    if exists|l: int| level_text(set, l) is Some {
        Some(
            choose|l: int|
                level_text(set, l) is Some && forall|o: int|
                    (#[trigger] level_text(set, o)) is Some ==> as_good(d, l, o),
        )
    } else {
        None
    }
}

/// The frame shown for a mouth level: the nearest level that has one, the less
/// open of two equally near.
pub open spec fn nearest(set: MouthLayers, mouth: MouthState) -> Option<Seq<char>> {
    match stand_in(set, mouth.rank() as int) {
        Some(l) => level_text(set, l),
        None => None,
    }
}

/// A level with a frame that is as good as any other is the stand-in.
proof fn stand_in_is(set: MouthLayers, d: int, l: int)
    requires
        level_text(set, l) is Some,
        forall|o: int| (#[trigger] level_text(set, o)) is Some ==> as_good(d, l, o),
    ensures
        stand_in(set, d) == Some(l),
{
    reveal(stand_in);
    let m = choose|l: int|
        level_text(set, l) is Some && forall|o: int|
            (#[trigger] level_text(set, o)) is Some ==> as_good(d, l, o);
    assert(level_text(set, m) is Some);
}

/// The stand-in for a level has a frame, and no level with a frame is nearer,
/// or as near and less open. It is missing only where no level has a frame.
pub proof fn stand_in_is_nearest(set: MouthLayers, mouth: MouthState)
    ensures
        match stand_in(set, mouth.rank() as int) {
            Some(l) => {
                &&& 0 <= l <= 3
                &&& level_text(set, l) is Some
                &&& forall|o: int|
                    (#[trigger] level_text(set, o)) is Some ==> as_good(mouth.rank() as int, l, o)
            },
            None => forall|o: int| level_text(set, o) is None,
        },
{
    reveal(stand_in);
    let d = mouth.rank() as int;
    if exists|l: int| level_text(set, l) is Some {
        let w = choose|l: int| level_text(set, l) is Some;
        let l = least_level(set, d, 0, 4, w);
        stand_in_is(set, d, l);
    }
}

/// Among the levels `lo..hi`, one of which has a frame, the best stand-in.
proof fn least_level(set: MouthLayers, d: int, lo: int, hi: int, w: int) -> (l: int)
    requires
        lo <= w < hi,
        level_text(set, w) is Some,
        lo >= 0,
        hi <= 4,
    ensures
        lo <= l < hi,
        level_text(set, l) is Some,
        forall|o: int| lo <= o < hi && (#[trigger] level_text(set, o)) is Some ==> as_good(d, l, o),
    decreases hi - lo,
{
    if hi - lo == 1 {
        w
    } else if level_text(set, lo) is None {
        least_level(set, d, lo + 1, hi, w)
    } else if forall|o: int| lo < o < hi ==> level_text(set, o) is None {
        lo
    } else {
        let v = choose|o: int| lo < o < hi && level_text(set, o) is Some;
        let m = least_level(set, d, lo + 1, hi, v);
        if as_good(d, lo, m) {
            lo
        } else {
            m
        }
    }
}

fn as_str_opt(o: &Option<String>) -> (r: Option<&str>)
    ensures
        text::opt_str(r) == text::opt_text(*o),
{
    match o {
        Some(s) => Some(s.as_str()),
        None => None,
    }
}

fn level_path(set: &MouthLayers, level: u8) -> (r: Option<&str>)
    ensures
        text::opt_str(r) == level_text(*set, level as int),
{
    if level == 0 {
        as_str_opt(&set.closed)
    } else if level == 1 {
        as_str_opt(&set.partial)
    } else if level == 2 {
        as_str_opt(&set.medium)
    } else if level == 3 {
        as_str_opt(&set.open)
    } else {
        None
    }
}

/// Picks the frame for a mouth level, snapping to the nearest level that has
/// one (of two equally near, the less open).
pub fn nearest_mouth(set: &MouthLayers, mouth: MouthState) -> (r: Option<&str>)
    ensures
        text::opt_str(r) == nearest(*set, mouth),
{
    let desired: u8 = mouth.level();
    let ghost d = mouth.rank() as int;
    let mut best: Option<(u8, &str)> = None;
    let ghost mut at: int = 0;
    let mut cand: u8 = 0;
    while cand < 4
        invariant
            cand <= 4,
            desired <= 3,
            d == desired,
            match best {
                Some(b) => {
                    &&& 0 <= at < cand
                    &&& b.0 == if at < d {
                        d - at
                    } else {
                        at - d
                    }
                    &&& level_text(*set, at) == Some(b.1@)
                    &&& forall|o: int|
                        o < cand && (#[trigger] level_text(*set, o)) is Some ==> as_good(d, at, o)
                },
                None => forall|o: int| o < cand ==> level_text(*set, o) is None,
            },
        decreases 4 - cand,
    {
        if let Some(path) = level_path(set, cand) {
            let dist: u8 = if cand < desired {
                desired - cand
            } else {
                cand - desired
            };
            let better = match best {
                None => true,
                Some(b) => dist < b.0,
            };
            if better {
                best = Some((dist, path));
                proof {
                    at = cand as int;
                }
            }
        }
        cand = cand + 1;
    }
    match best {
        Some(b) => {
            proof {
                stand_in_is(*set, d, at);
            }
            Some(b.1)
        },
        None => {
            proof {
                reveal(stand_in);
            }
            None
        },
    }
}

/// The frame of an expression for an eye state: a blink without `closed.png`
/// shows `open.png`.
pub open spec fn eye_of(set: EyeLayers, eyes: EyeState) -> Option<Seq<char>> {
    match eyes {
        EyeState::Open => text::opt_text(set.open),
        EyeState::Closed => or_else(text::opt_text(set.closed), text::opt_text(set.open)),
    }
}

/// Resolves the frame of one expression for an eye state. A blink without
/// `closed.png` falls back to `open.png`, so that the expression stays.
pub fn resolve_eye(set: &EyeLayers, eyes: EyeState) -> (r: Option<&str>)
    ensures
        text::opt_str(r) == eye_of(*set, eyes),
{
    match eyes {
        EyeState::Open => as_str_opt(&set.open),
        EyeState::Closed => match &set.closed {
            Some(s) => Some(s.as_str()),
            None => as_str_opt(&set.open),
        },
    }
}

/// The expression of an emotion, in any ASCII case; the default eyes where
/// there is no such emotion.
pub open spec fn expression(c: LayerCatalog, emotion: Option<Seq<char>>) -> EyeLayers {
    match emotion {
        Some(e) => if c.emotions@.dom().contains(text::lowered(e)) {
            c.emotions@[text::lowered(e)]
        } else {
            c.default_eyes
        },
        None => c.default_eyes,
    }
}

/// The expression of an emotion, else the default eyes.
pub fn eye_set_for<'a>(c: &'a LayerCatalog, emotion: Option<&str>) -> (r: &'a EyeLayers)
    ensures
        *r == expression(*c, text::opt_str(emotion)),
{
    match emotion {
        Some(e) => {
            let key = to_lower(e);
            match c.emotions.get(key.as_str()) {
                Some(set) => set,
                None => &c.default_eyes,
            }
        },
        None => &c.default_eyes,
    }
}

// ---------------------------------------------------------------------------
// The idle overlay
// ---------------------------------------------------------------------------
/// The first entry of `s` that is a PNG file, and `smile.png` where `smile`
/// asks for it.
pub open spec fn first_idle(s: Seq<EntryModel>, smile: bool) -> Option<Seq<u8>>
    decreases s.len(),
{
    if s.len() == 0 {
        None
    } else if s[0].is_file && is_png(s[0].name) && (smile ==> is_name(
        s[0].name,
        "smile.png"@,
    )) {
        Some(s[0].name)
    } else {
        first_idle(s.drop_first(), smile)
    }
}

/// The file of the idle overlay: `smile.png` if it is there, else the first
/// PNG file in name order.
pub open spec fn idle_name(s: Seq<EntryModel>) -> Option<Seq<u8>> {
    or_else(first_idle(in_name_order(s), true), first_idle(in_name_order(s), false))
}

fn find_idle(order: &Vec<&DirEntry>, smile: bool) -> (r: Option<Vec<u8>>)
    ensures
        match r {
            Some(n) => first_idle(order@.map_values(|e: &DirEntry| e@), smile) == Some(n@),
            None => first_idle(order@.map_values(|e: &DirEntry| e@), smile) is None,
        },
{
    let ghost m = order@.map_values(|e: &DirEntry| e@);
    let mut i: usize = 0;
    assert(m.skip(0) =~= m);
    while i < order.len()
        invariant
            i <= order@.len(),
            m == order@.map_values(|e: &DirEntry| e@),
            first_idle(m, smile) == first_idle(m.skip(i as int), smile),
        decreases order@.len() - i,
    {
        assert(m.skip(i as int).drop_first() =~= m.skip(i + 1));
        assert(m.skip(i as int)[0] == order@[i as int]@);
        let e: &DirEntry = order[i];
        if e.is_file && png_name(&e.name) && (!smile || name_is(&e.name, "smile.png")) {
            return Some(copy_range(&e.name, 0, e.name.len()));
        }
        i = i + 1;
    }
    None
}

/// Picks the idle overlay among the entries of `anim/smile`: the file name, or
/// `None` if there is no such directory or no PNG file in it. A directory that
/// cannot be read is an error, given with its cause.
pub fn pick_idle(listing: &Listing) -> (r: Result<Option<Vec<u8>>, String>)
    ensures
        match r {
            Ok(Some(n)) => !(listing is Failed) && idle_name(listing.found()) == Some(n@),
            Ok(None) => !(listing is Failed) && idle_name(listing.found()) is None,
            Err(cause) => *listing == Listing::Failed(cause),
        },
{
    match listing {
        Listing::Missing => Ok(None),
        Listing::Failed(cause) => Err(cause.clone()),
        Listing::Entries(v) => {
            let order = sort_entries(v);
            match find_idle(&order, true) {
                Some(n) => Ok(Some(n)),
                None => Ok(find_idle(&order, false)),
            }
        },
    }
}

// ---------------------------------------------------------------------------
// Laws
// ---------------------------------------------------------------------------
/// A complete catalog has a frame for every mouth level and for every eye
/// state under every emotion, known or not.
pub proof fn complete_catalog_always_resolves(
    c: AssetCatalog,
    mouth: MouthState,
    emotion: Option<Seq<char>>,
    eyes: EyeState,
)
    requires
        c.0.complete(),
    ensures
        c.mouth_url(mouth) is Some,
        c.eyes_url(emotion, eyes) is Some,
{
    assert(level_text(c.0.mouths, 0) is Some);
    stand_in_is_nearest(c.0.mouths, mouth);
}

/// A level with a frame of its own shows that frame.
pub proof fn present_level_shows_itself(set: MouthLayers, mouth: MouthState)
    requires
        level_text(set, mouth.rank() as int) is Some,
    ensures
        nearest(set, mouth) == level_text(set, mouth.rank() as int),
{
    stand_in_is(set, mouth.rank() as int, mouth.rank() as int);
}

/// With the two anchors alone, `partial` shows `closed` and `medium` shows
/// `open`.
pub proof fn two_frame_mouth_snaps(set: MouthLayers)
    requires
        set.closed is Some,
        set.partial is None,
        set.medium is None,
        set.open is Some,
    ensures
        nearest(set, MouthState::Partial) == text::opt_text(set.closed),
        nearest(set, MouthState::Medium) == text::opt_text(set.open),
{
    stand_in_is(set, 1, 0);
    stand_in_is(set, 2, 3);
}

/// An expression without `closed.png` shows the same frame during a blink.
pub proof fn expression_without_blink_art_stays(set: EyeLayers)
    requires
        set.closed is None,
    ensures
        eye_of(set, EyeState::Closed) == eye_of(set, EyeState::Open),
{
}

/// Without `open.png` an expression has no frames at all, not even one for a
/// blink.
pub proof fn eyes_need_their_resting_frame(dir: Seq<char>, closed: bool)
    ensures
        eye_set(dir, false, closed) == (None::<Seq<char>>, None::<Seq<char>>),
{
}

/// A file `smile.png` is the idle overlay, whatever else is there.
pub proof fn smile_comes_first(s: Seq<EntryModel>, i: int)
    requires
        0 <= i < s.len(),
        s[i].is_file,
        is_name(s[i].name, "smile.png"@),
    ensures
        idle_name(s) == Some(s[i].name),
{
    broadcast use vstd::seq_lib::group_to_multiset_ensures;

    let o = in_name_order(s);
    name_order_sorts(s);
    assert(s.to_multiset().contains(s[i]));
    assert(o.to_multiset().contains(s[i]));
    assert(o.contains(s[i]));
    let k = choose|k: int| 0 <= k < o.len() && o[k] == s[i];
    smile_is_png(s[i].name);
    first_idle_finds(o, k);
}

proof fn smile_is_png(name: Seq<u8>)
    requires
        is_name(name, "smile.png"@),
    ensures
        is_png(name),
{
    reveal_strlit("smile.png");
    let t = "smile.png"@;
    assert(t.len() == 9 && t[5] == '.' && t[6] == 'p' && t[7] == 'n' && t[8] == 'g');
    utf8::is_ascii_chars_encode_utf8(t);
}

proof fn first_idle_finds(s: Seq<EntryModel>, k: int)
    requires
        0 <= k < s.len(),
        s[k].is_file,
        is_png(s[k].name),
        is_name(s[k].name, "smile.png"@),
    ensures
        first_idle(s, true) == Some(s[k].name),
    decreases k,
{
    if !(s[0].is_file && is_png(s[0].name) && is_name(s[0].name, "smile.png"@)) {
        assert(s.drop_first()[k - 1] == s[k]);
        first_idle_finds(s.drop_first(), k - 1);
    }
}

/// Emotion names count in any ASCII case.
pub proof fn emotion_case_is_ignored(c: AssetCatalog, a: Seq<char>, b: Seq<char>, eyes: EyeState)
    requires
        text::lowered(a) == text::lowered(b),
    ensures
        c.eyes_url(Some(a), eyes) == c.eyes_url(Some(b), eyes),
{
}

proof fn shows_level(set: MouthLayers, mouth: MouthState, l: int)
    requires
        level_text(set, l) is Some,
        forall|o: int|
            (#[trigger] level_text(set, o)) is Some ==> as_good(mouth.rank() as int, l, o),
    ensures
        nearest(set, mouth) == level_text(set, l),
{
    stand_in_is(set, mouth.rank() as int, l);
}

/// Each mouth level shows its own frame; where that is missing the nearest one
/// that is there, the less open of two equally near.
pub proof fn mouths_show_the_nearest_frame(c: AssetCatalog)
    ensures
        ({
            let m = c.0.mouths;
            let url = |o: Option<String>|
                match o {
                    Some(s) => Some("/frames/"@ + s@),
                    None => None,
                };
            let first = |v: Option<String>, w: Option<String>, x: Option<String>, y: Option<String>|
                if v is Some {
                    url(v)
                } else if w is Some {
                    url(w)
                } else if x is Some {
                    url(x)
                } else {
                    url(y)
                };
            &&& c.mouth_url(MouthState::Closed) == first(m.closed, m.partial, m.medium, m.open)
            &&& c.mouth_url(MouthState::Partial) == first(m.partial, m.closed, m.medium, m.open)
            &&& c.mouth_url(MouthState::Medium) == first(m.medium, m.partial, m.open, m.closed)
            &&& c.mouth_url(MouthState::Open) == first(m.open, m.medium, m.partial, m.closed)
        }),
{
    let m = c.0.mouths;
    stand_in_is_nearest(m, MouthState::Closed);
    stand_in_is_nearest(m, MouthState::Partial);
    stand_in_is_nearest(m, MouthState::Medium);
    stand_in_is_nearest(m, MouthState::Open);
    assert(level_text(m, 0) == text::opt_text(m.closed));
    assert(level_text(m, 1) == text::opt_text(m.partial));
    assert(level_text(m, 2) == text::opt_text(m.medium));
    assert(level_text(m, 3) == text::opt_text(m.open));
    if m.closed is Some {
        shows_level(m, MouthState::Closed, 0);
    } else if m.partial is Some {
        shows_level(m, MouthState::Closed, 1);
    } else if m.medium is Some {
        shows_level(m, MouthState::Closed, 2);
    } else if m.open is Some {
        shows_level(m, MouthState::Closed, 3);
    }
    if m.partial is Some {
        shows_level(m, MouthState::Partial, 1);
    } else if m.closed is Some {
        shows_level(m, MouthState::Partial, 0);
    } else if m.medium is Some {
        shows_level(m, MouthState::Partial, 2);
    } else if m.open is Some {
        shows_level(m, MouthState::Partial, 3);
    }
    if m.medium is Some {
        shows_level(m, MouthState::Medium, 2);
    } else if m.partial is Some {
        shows_level(m, MouthState::Medium, 1);
    } else if m.open is Some {
        shows_level(m, MouthState::Medium, 3);
    } else if m.closed is Some {
        shows_level(m, MouthState::Medium, 0);
    }
    if m.open is Some {
        shows_level(m, MouthState::Open, 3);
    } else if m.medium is Some {
        shows_level(m, MouthState::Open, 2);
    } else if m.partial is Some {
        shows_level(m, MouthState::Open, 1);
    } else if m.closed is Some {
        shows_level(m, MouthState::Open, 0);
    }
}

/// The eyes show the frames of the emotion in effect, in any case of its name;
/// where it is not known, or has none, those of the default eyes. A blink shows
/// the emotion's closed eyes, and its open ones where it has no others.
pub proof fn eyes_show_the_expression(c: AssetCatalog, emotion: Option<Seq<char>>)
    ensures
        ({
            let url = |o: Option<String>|
                match o {
                    Some(s) => Some("/frames/"@ + s@),
                    None => None,
                };
            let d = c.0.default_eyes;
            let known = emotion is Some && c.0.emotions@.dom().contains(text::lowered(emotion->0));
            let set = if known {
                c.0.emotions@[text::lowered(emotion->0)]
            } else {
                d
            };
            &&& c.eyes_url(emotion, EyeState::Open) == if set.open is Some {
                url(set.open)
            } else {
                url(d.open)
            }
            &&& c.eyes_url(emotion, EyeState::Closed) == if set.closed is Some {
                url(set.closed)
            } else if set.open is Some {
                url(set.open)
            } else if d.closed is Some {
                url(d.closed)
            } else {
                url(d.open)
            }
        }),
{
}

/// Names compare at the first byte where they differ; a prefix comes first.
pub proof fn first_differing_byte_decides(a: Seq<u8>, b: Seq<u8>, k: int)
    requires
        0 <= k <= a.len(),
        k <= b.len(),
        forall|i: int| 0 <= i < k ==> #[trigger] a[i] == b[i],
        k == a.len() || k == b.len() || a[k] != b[k],
    ensures
        bytes_lt(a, b) == (k < b.len() && (k == a.len() || a[k] < b[k])),
    decreases k,
{
    if k > 0 {
        assert(a[0] == b[0]);
        let (c, d) = (a.drop_first(), b.drop_first());
        assert forall|i: int| 0 <= i < k - 1 implies #[trigger] c[i] == d[i] by {
            assert(a[i + 1] == b[i + 1]);
        }
        first_differing_byte_decides(c, d, k - 1);
    }
}

proof fn order_keeps_entries(s: Seq<EntryModel>, e: EntryModel)
    ensures
        in_name_order(s).contains(e) <==> s.contains(e),
{
    broadcast use vstd::seq_lib::group_to_multiset_ensures;

    name_order_sorts(s);
    assert(in_name_order(s).contains(e) <==> in_name_order(s).to_multiset().contains(e));
    assert(s.contains(e) <==> s.to_multiset().contains(e));
}

/// The body images of two lists are those of the first and then those of the
/// second.
pub proof fn body_images_keep_their_order(a: Seq<EntryModel>, b: Seq<EntryModel>)
    ensures
        base_paths(a + b) == base_paths(a) + base_paths(b),
    decreases b.len(),
{
    if b.len() == 0 {
        assert(a + b =~= a);
        assert(base_paths(a) + base_paths(b) =~= base_paths(a));
    } else {
        body_images_keep_their_order(a, b.drop_last());
        assert((a + b).drop_last() =~= a + b.drop_last());
        assert((a + b).last() == b.last());
        assert(base_paths(a + b) =~= base_paths(a) + base_paths(b));
    }
}

/// An entry is a body image exactly when its name ends in `.png` behind a stem;
/// its path is its name under `base/`, with forward slashes.
pub proof fn pictures_are_body_images(e: EntryModel)
    ensures
        ({
            let n = e.name.len() as int;
            let png = n > 4 && e.name.skip(n - 4) == seq![0x2eu8, 0x70u8, 0x6eu8, 0x67u8];
            let paths = base_paths(seq![e]);
            &&& !png ==> paths.len() == 0
            &&& png ==> paths.len() == 1
            &&& png && utf8::valid_utf8(e.name) ==> {
                let path = "base/"@ + utf8::decode_utf8(e.name);
                &&& paths[0].len() == path.len()
                &&& forall|i: int|
                    0 <= i < path.len() ==> (#[trigger] paths[0][i]) == (if path[i] == '\\' {
                        '/'
                    } else {
                        path[i]
                    })
            }
            &&& png && !utf8::valid_utf8(e.name) ==> paths[0] == lossy_utf8(e.name)
        }),
{
    let n = e.name.len() as int;
    assert(seq![e].drop_last() =~= Seq::<EntryModel>::empty());
    assert(base_paths(seq![e].drop_last()).len() == 0);
    if n > 4 {
        let tail = e.name.skip(n - 4);
        let dot = seq![0x2eu8, 0x70u8, 0x6eu8, 0x67u8];
        assert(tail[0] == e.name[n - 4] && tail[1] == e.name[n - 3] && tail[2] == e.name[n - 2]
            && tail[3] == e.name[n - 1]);
        if is_png(e.name) {
            assert(tail =~= dot);
        }
    }
}

/// A catalog lists what stands in its tree: each mouth file that is there, the
/// default eyes, of which a blink counts only with the resting frame, and for
/// every directory with a name and a resting frame an emotion under its
/// lower-case name. There are no other emotions.
pub proof fn catalog_lists_what_is_there(tree: AssetTree, c: LayerCatalog)
    requires
        c.describes(tree),
    ensures
        ({
            let there = |file: Seq<char>|
                exists|i: int|
                    0 <= i < tree.mouths.found().len() && !(#[trigger] tree.mouths.found()[i]).is_dir
                        && tree.mouths.found()[i].name == utf8::encode_utf8(file);
            let mouth = |file: Seq<char>|
                if there(file) {
                    Some("mouths/"@ + file)
                } else {
                    None
                };
            &&& text::opt_text(c.mouths.closed) == mouth("closed.png"@)
            &&& text::opt_text(c.mouths.partial) == mouth("partial.png"@)
            &&& text::opt_text(c.mouths.medium) == mouth("medium.png"@)
            &&& text::opt_text(c.mouths.open) == mouth("open.png"@)
            &&& c.default_eyes.open is Some <==> tree.eyes_open
            &&& c.default_eyes.closed is Some <==> tree.eyes_open && tree.eyes_closed
            &&& c.default_eyes.open matches Some(p) ==> p@ == "eyes/open.png"@
            &&& c.default_eyes.closed matches Some(p) ==> p@ == "eyes/closed.png"@
        }),
        forall|i: int|
            0 <= i < tree.eyes.found().len() && (#[trigger] tree.eyes.found()[i]).is_dir
                && utf8::valid_utf8(tree.eyes.found()[i].name) && tree.eyes.found()[i].has_open
                ==> c.emotions@.dom().contains(
                text::lowered(utf8::decode_utf8(tree.eyes.found()[i].name)),
            ),
        forall|k: Seq<char>| #[trigger]
            c.emotions@.dom().contains(k) ==> exists|i: int|
                0 <= i < tree.eyes.found().len() && {
                    let e = #[trigger] tree.eyes.found()[i];
                    let name = utf8::decode_utf8(e.name);
                    &&& e.is_dir && utf8::valid_utf8(e.name) && e.has_open
                    &&& text::lowered(name) == k
                    &&& c.emotions@[k].open matches Some(p) && p@ == url_ready(
                        "eyes/"@ + name + "/open.png"@,
                    )
                    &&& c.emotions@[k].closed is Some <==> e.has_closed
                    &&& c.emotions@[k].closed matches Some(p) ==> p@ == url_ready(
                        "eyes/"@ + name + "/closed.png"@,
                    )
                },
{
    reveal_strlit("eyes");
    reveal_strlit("/open.png");
    reveal_strlit("/closed.png");
    reveal_strlit("eyes/open.png");
    reveal_strlit("eyes/closed.png");
    assert("eyes"@ + "/open.png"@ =~= "eyes/open.png"@);
    assert("eyes"@ + "/closed.png"@ =~= "eyes/closed.png"@);
    assert(url_ready("eyes/open.png"@) =~= "eyes/open.png"@);
    assert(url_ready("eyes/closed.png"@) =~= "eyes/closed.png"@);
    let found = tree.eyes.found();
    let order = in_name_order(found);
    assert(eye_texts(c.default_eyes) == eye_set("eyes"@, tree.eyes_open, tree.eyes_closed));
    assert forall|i: int|
        0 <= i < found.len() && (#[trigger] found[i]).is_dir && utf8::valid_utf8(found[i].name)
            && found[i].has_open implies c.emotions@.dom().contains(
        text::lowered(utf8::decode_utf8(found[i].name)),
    ) by {
        order_keeps_entries(found, found[i]);
        assert(found.contains(found[i]));
        let k = choose|k: int| 0 <= k < order.len() && order[k] == found[i];
        emotions_are_kept(order, k);
    }
    assert forall|k: Seq<char>| #[trigger] c.emotions@.dom().contains(k) implies exists|i: int|
        0 <= i < found.len() && {
            let e = #[trigger] found[i];
            let name = utf8::decode_utf8(e.name);
            &&& e.is_dir && utf8::valid_utf8(e.name) && e.has_open
            &&& text::lowered(name) == k
            &&& c.emotions@[k].open matches Some(p) && p@ == url_ready(
                "eyes/"@ + name + "/open.png"@,
            )
            &&& c.emotions@[k].closed is Some <==> e.has_closed
            &&& c.emotions@[k].closed matches Some(p) ==> p@ == url_ready(
                "eyes/"@ + name + "/closed.png"@,
            )
        } by {
        assert(eye_texts(c.emotions@[k]) == emotion_sets(order)[k]);
        let j = emotions_have_entries(order, k);
        order_keeps_entries(found, order[j]);
        assert(order.contains(order[j]));
        let i = choose|i: int| 0 <= i < found.len() && found[i] == order[j];
        assert(found[i] == order[j]);
    }
}

proof fn emotions_are_kept(s: Seq<EntryModel>, i: int)
    requires
        0 <= i < s.len(),
        is_emotion(s[i]),
    ensures
        emotion_sets(s).dom().contains(text::lowered(utf8::decode_utf8(s[i].name))),
    decreases s.len(),
{
    if i < s.len() - 1 {
        assert(s.drop_last()[i] == s[i]);
        emotions_are_kept(s.drop_last(), i);
    }
}

proof fn emotions_have_entries(s: Seq<EntryModel>, k: Seq<char>) -> (i: int)
    requires
        emotion_sets(s).dom().contains(k),
    ensures
        0 <= i < s.len(),
        is_emotion(s[i]),
        text::lowered(utf8::decode_utf8(s[i].name)) == k,
        emotion_sets(s)[k] == eye_set("eyes/"@ + utf8::decode_utf8(s[i].name), true, s[i].has_closed),
    decreases s.len(),
{
    if is_emotion(s.last()) && text::lowered(utf8::decode_utf8(s.last().name)) == k {
        s.len() - 1
    } else {
        let i = emotions_have_entries(s.drop_last(), k);
        assert(s.drop_last()[i] == s[i]);
        i
    }
}

proof fn body_images_exist(s: Seq<EntryModel>)
    ensures
        base_paths(s).len() > 0 <==> exists|i: int| 0 <= i < s.len() && is_png((#[trigger] s[i]).name),
    decreases s.len(),
{
    if s.len() > 0 {
        let rest = s.drop_last();
        body_images_exist(rest);
        if is_png(s.last().name) {
            assert(is_png(s[s.len() - 1].name));
        }
        if exists|i: int| 0 <= i < rest.len() && is_png((#[trigger] rest[i]).name) {
            let i = choose|i: int| 0 <= i < rest.len() && is_png((#[trigger] rest[i]).name);
            assert(is_png(s[i].name));
        }
        if exists|i: int| 0 <= i < s.len() && is_png((#[trigger] s[i]).name) {
            let i = choose|i: int| 0 <= i < s.len() && is_png((#[trigger] s[i]).name);
            if i < rest.len() {
                assert(rest[i] == s[i]);
            }
        }
    }
}

/// A tree gives a catalog exactly when its directories can be read, it has a
/// body image, the resting eyes, and the closed and the open mouth; otherwise
/// the error names the first of these that fails.
pub proof fn trees_are_judged_in_order(tree: AssetTree)
    ensures
        ({
            let body = exists|i: int|
                0 <= i < tree.base.found().len() && is_png((#[trigger] tree.base.found()[i]).name);
            let there = |file: Seq<char>|
                exists|i: int|
                    0 <= i < tree.mouths.found().len() && !(#[trigger] tree.mouths.found()[i]).is_dir
                        && tree.mouths.found()[i].name == utf8::encode_utf8(file);
            let anchors = there("closed.png"@) && there("open.png"@);
            let readable = !(tree.mouths is Failed) && !(tree.eyes is Failed);
            let ready = !(tree.base is Failed) && body && readable;
            &&& tree.defect() is None <==> ready && tree.eyes_open && anchors
            &&& tree.defect() == Some(AssetError::NoBase) <==> !(tree.base is Failed) && !body
            &&& tree.defect() == Some(AssetError::NoOpenEyes) <==> ready && !tree.eyes_open
            &&& tree.defect() == Some(AssetError::NoMouthAnchors) <==> ready && tree.eyes_open
                && !anchors
            &&& tree.defect() matches Some(AssetError::Unreadable { dir, cause }) ==> match dir {
                AssetDir::Base => tree.base == Listing::Failed(cause),
                AssetDir::Mouths => tree.mouths == Listing::Failed(cause),
                AssetDir::Eyes => tree.eyes == Listing::Failed(cause),
            }
        }),
{
    let found = tree.base.found();
    let order = in_name_order(found);
    body_images_exist(order);
    if exists|i: int| 0 <= i < found.len() && is_png((#[trigger] found[i]).name) {
        let i = choose|i: int| 0 <= i < found.len() && is_png((#[trigger] found[i]).name);
        order_keeps_entries(found, found[i]);
        assert(found.contains(found[i]));
        let k = choose|k: int| 0 <= k < order.len() && order[k] == found[i];
        assert(is_png(order[k].name));
    }
    if exists|i: int| 0 <= i < order.len() && is_png((#[trigger] order[i]).name) {
        let i = choose|i: int| 0 <= i < order.len() && is_png((#[trigger] order[i]).name);
        order_keeps_entries(found, order[i]);
        assert(order.contains(order[i]));
        let k = choose|k: int| 0 <= k < found.len() && found[k] == order[i];
        assert(is_png(found[k].name));
    }
}

proof fn first_idle_is_first(s: Seq<EntryModel>, smile: bool)
    ensures
        match first_idle(s, smile) {
            Some(n) => exists|i: int|
                0 <= i < s.len() && (#[trigger] s[i]).is_file && is_png(s[i].name) && s[i].name == n
                    && (smile ==> is_name(n, "smile.png"@)) && forall|j: int|
                    0 <= j < i && (#[trigger] s[j]).is_file && is_png(s[j].name) ==> smile
                        && !is_name(s[j].name, "smile.png"@),
            None => forall|i: int|
                0 <= i < s.len() && (#[trigger] s[i]).is_file && is_png(s[i].name) ==> smile
                    && !is_name(s[i].name, "smile.png"@),
        },
    decreases s.len(),
{
    if s.len() > 0 {
        let rest = s.drop_first();
        if s[0].is_file && is_png(s[0].name) && (smile ==> is_name(s[0].name, "smile.png"@)) {
            assert(s[0].name == s[0].name);
        } else {
            first_idle_is_first(rest, smile);
            if first_idle(rest, smile) is Some {
                let n = first_idle(rest, smile)->0;
                let i = choose|i: int|
                    0 <= i < rest.len() && (#[trigger] rest[i]).is_file && is_png(rest[i].name)
                        && rest[i].name == n && (smile ==> is_name(n, "smile.png"@)) && forall|
                        j: int,
                    |
                        0 <= j < i && (#[trigger] rest[j]).is_file && is_png(rest[j].name) ==> smile
                            && !is_name(rest[j].name, "smile.png"@);
                assert(s[i + 1] == rest[i]);
                assert forall|j: int|
                    0 <= j < i + 1 && (#[trigger] s[j]).is_file && is_png(s[j].name) implies smile
                    && !is_name(s[j].name, "smile.png"@) by {
                    if j > 0 {
                        assert(rest[j - 1] == s[j]);
                    }
                }
            } else {
                assert forall|i: int|
                    0 <= i < s.len() && (#[trigger] s[i]).is_file && is_png(s[i].name) implies smile
                    && !is_name(s[i].name, "smile.png"@) by {
                    if i > 0 {
                        assert(rest[i - 1] == s[i]);
                    }
                }
            }
        }
    }
}

/// The idle overlay is one of the PNG files, and there is none only where there
/// is no such file. Without `smile.png` it is the first in name order.
pub proof fn idle_overlay_is_the_first_picture(s: Seq<EntryModel>, j: int)
    requires
        0 <= j < s.len(),
        s[j].is_file,
        is_png(s[j].name),
    ensures
        idle_name(s) is Some,
        exists|i: int|
            0 <= i < s.len() && (#[trigger] s[i]).is_file && is_png(s[i].name) && s[i].name
                == idle_name(s)->0,
        !is_name(idle_name(s)->0, "smile.png"@) ==> !bytes_lt(s[j].name, idle_name(s)->0),
{
    let o = in_name_order(s);
    name_order_sorts(s);
    order_keeps_entries(s, s[j]);
    assert(s.contains(s[j]));
    let k = choose|k: int| 0 <= k < o.len() && o[k] == s[j];
    first_idle_is_first(o, true);
    first_idle_is_first(o, false);
    assert(o[k].is_file && is_png(o[k].name));
    let smile = first_idle(o, true) is Some;
    let n = idle_name(s)->0;
    let i = choose|i: int|
        0 <= i < o.len() && (#[trigger] o[i]).is_file && is_png(o[i].name) && o[i].name == n && (
        smile ==> is_name(n, "smile.png"@)) && forall|l: int|
            0 <= l < i && (#[trigger] o[l]).is_file && is_png(o[l].name) ==> smile && !is_name(
                o[l].name,
                "smile.png"@,
            );
    order_keeps_entries(s, o[i]);
    assert(o.contains(o[i]));
    let m = choose|m: int| 0 <= m < s.len() && s[m] == o[i];
    assert(s[m].name == n);
    if !smile {
        assert(i <= k);
        if i < k {
            assert(!bytes_lt(o[k].name, o[i].name));
        } else {
            bytes_lt_irreflexive(n);
        }
    }
}

/// Without a PNG file there is no idle overlay.
pub proof fn no_picture_no_idle_overlay(s: Seq<EntryModel>)
    requires
        forall|i: int| 0 <= i < s.len() ==> !((#[trigger] s[i]).is_file && is_png(s[i].name)),
    ensures
        idle_name(s) is None,
{
    let o = in_name_order(s);
    first_idle_is_first(o, true);
    first_idle_is_first(o, false);
    assert forall|i: int| 0 <= i < o.len() implies !((#[trigger] o[i]).is_file && is_png(
        o[i].name,
    )) by {
        order_keeps_entries(s, o[i]);
        assert(o.contains(o[i]));
        let m = choose|m: int| 0 <= m < s.len() && s[m] == o[i];
        assert(!(s[m].is_file && is_png(s[m].name)));
    }
}

/// A path is taken from a directory with one slash between them, and an
/// absolute path stands alone.
pub proof fn paths_are_taken_from_the_root(root: Seq<char>, name: Seq<char>)
    requires
        name.len() > 0,
    ensures
        name[0] == '/' ==> under(root, name) == name,
        name[0] != '/' && root.len() == 0 ==> under(root, name) == name,
        name[0] != '/' && root.len() > 0 && root.last() == '/' ==> under(root, name) == root + name,
        name[0] != '/' && root.len() > 0 && root.last() != '/' ==> under(root, name) == root.push(
            '/',
        ) + name,
{
    reveal_strlit("/");
    assert(root + "/"@ =~= root.push('/'));
    if root.len() == 0 {
        assert(root + name =~= name);
    }
}

/// The text of an error mentions the asset root, and for a directory that
/// cannot be read its path and the cause.
pub proof fn asset_errors_mention_the_place(e: AssetError, root: Seq<char>)
    ensures
        !(e is Unreadable) ==> text::occurs(e.text(root), root),
        e matches AssetError::Unreadable { dir, cause } ==> {
            let name = match dir {
                AssetDir::Base => "base"@,
                AssetDir::Mouths => "mouths"@,
                AssetDir::Eyes => "eyes"@,
            };
            text::occurs(e.text(root), under(root, name)) && text::occurs(e.text(root), cause@)
        },
{
    match e {
        AssetError::Unreadable { dir, cause } => {
            let path = under(root, dir.name_text());
            text::parts_occur("reading "@, path, ": "@ + cause@);
            text::parts_occur("reading "@ + path + ": "@, cause@, seq![]);
            assert("reading "@ + path + ": "@ + cause@ =~= "reading "@ + path + (": "@ + cause@));
        },
        AssetError::NoBase => {
            text::parts_occur("no base body images found under "@, root, "/base/*.png"@);
        },
        AssetError::NoOpenEyes => {
            text::parts_occur(
                "eyes/open.png is required under "@,
                root,
                " (the resting eyes frame)"@,
            );
        },
        AssetError::NoMouthAnchors => {
            text::parts_occur(
                "mouths/closed.png and mouths/open.png are required under "@,
                root,
                seq![],
            );
        },
    }
}

/// The catalog lists the body images of its tree in name order.
pub proof fn body_images_stand_in_name_order(tree: AssetTree, c: LayerCatalog)
    requires
        c.describes(tree),
    ensures
        text::texts(c.base@) == base_paths(in_name_order(tree.base.found())),
        name_ordered(in_name_order(tree.base.found())),
        in_name_order(tree.base.found()).to_multiset() == tree.base.found().to_multiset(),
{
    name_order_sorts(tree.base.found());
}

} // verus!
