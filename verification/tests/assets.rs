use rusty_tuber::assets::{
    join_path, nearest_mouth, pick_idle, resolve_eye, AssetCatalog, AssetTree, DirEntry, Listing,
    FRAMES_URL_PREFIX,
};
use rusty_tuber::protocol::{EyeLayers, EyeState, MouthLayers, MouthState};

fn file(name: &str) -> DirEntry {
    DirEntry {
        name: name.as_bytes().to_vec(),
        is_dir: false,
        is_file: true,
        has_open: false,
        has_closed: false,
    }
}

fn dir(name: &str, has_open: bool, has_closed: bool) -> DirEntry {
    DirEntry {
        name: name.as_bytes().to_vec(),
        is_dir: true,
        is_file: false,
        has_open,
        has_closed,
    }
}

fn full_tree() -> AssetTree {
    AssetTree {
        base: Listing::Entries(vec![file("body.png")]),
        mouths: Listing::Entries(vec![
            file("open.png"),
            file("closed.png"),
            file("medium.png"),
            file("partial.png"),
        ]),
        eyes: Listing::Entries(vec![
            file("open.png"),
            file("closed.png"),
            dir("happy", true, true),
            dir("angry", true, false),
        ]),
        eyes_open: true,
        eyes_closed: true,
    }
}

fn minimal_tree() -> AssetTree {
    AssetTree {
        base: Listing::Entries(vec![file("body.png")]),
        mouths: Listing::Entries(vec![file("closed.png"), file("open.png")]),
        eyes: Listing::Entries(vec![file("open.png")]),
        eyes_open: true,
        eyes_closed: false,
    }
}

#[test]
fn loads_layered_catalog() {
    let cat = AssetCatalog::load(&full_tree()).unwrap();
    assert_eq!(cat.0.base, vec!["base/body.png".to_string()]);
    // mouths all present
    assert_eq!(cat.0.mouths.partial.as_deref(), Some("mouths/partial.png"));
    // default eyes
    assert_eq!(cat.0.default_eyes.open.as_deref(), Some("eyes/open.png"));
    assert_eq!(
        cat.0.default_eyes.closed.as_deref(),
        Some("eyes/closed.png")
    );
    // emotions
    let emotions: Vec<_> = cat.emotions();
    assert_eq!(emotions, vec!["angry", "happy"]);
    assert!(cat.has_emotion("HAPPY"));
}

#[test]
fn mouth_snaps_to_nearest_when_partial_set() {
    let cat = AssetCatalog::load(&minimal_tree()).unwrap();
    // only closed + open: partial(1) snaps to closed(0), medium(2) to open(3)
    assert_eq!(
        cat.mouth_frame(MouthState::Partial).unwrap(),
        "/frames/mouths/closed.png"
    );
    assert_eq!(
        cat.mouth_frame(MouthState::Medium).unwrap(),
        "/frames/mouths/open.png"
    );
    assert_eq!(
        cat.mouth_frame(MouthState::Open).unwrap(),
        "/frames/mouths/open.png"
    );
}

#[test]
fn eyes_resolve_for_default_and_emotion() {
    let cat = AssetCatalog::load(&full_tree()).unwrap();
    // default eyes
    assert_eq!(
        cat.eyes_frame(None, EyeState::Open).unwrap(),
        "/frames/eyes/open.png"
    );
    assert_eq!(
        cat.eyes_frame(None, EyeState::Closed).unwrap(),
        "/frames/eyes/closed.png"
    );
    // happy emotion
    assert_eq!(
        cat.eyes_frame(Some("happy"), EyeState::Closed).unwrap(),
        "/frames/eyes/happy/closed.png"
    );
    // angry has no closed: a blink falls back to angry open (no visible blink)
    assert_eq!(
        cat.eyes_frame(Some("angry"), EyeState::Closed).unwrap(),
        "/frames/eyes/angry/open.png"
    );
}

#[test]
fn missing_default_eyes_open_is_fatal() {
    let mut t = minimal_tree();
    t.eyes = Listing::Missing;
    t.eyes_open = false;
    let err = AssetCatalog::load(&t).unwrap_err();
    assert!(err.message("/art").contains("eyes/open.png"));
    assert_eq!(
        err.message("/art"),
        "eyes/open.png is required under /art (the resting eyes frame)"
    );
}

#[test]
fn missing_mouth_anchors_is_fatal() {
    let mut t = minimal_tree();
    t.mouths = Listing::Missing;
    let err = AssetCatalog::load(&t).unwrap_err();
    assert!(err.message("/art").contains("mouths/closed.png"));
    assert_eq!(
        err.message("/art"),
        "mouths/closed.png and mouths/open.png are required under /art"
    );
}

#[test]
fn empty_base_is_fatal() {
    let mut t = minimal_tree();
    t.base = Listing::Entries(vec![]);
    let err = AssetCatalog::load(&t).unwrap_err();
    assert!(err.message("/art").contains("base body"));
    assert_eq!(
        err.message("/art"),
        "no base body images found under /art/base/*.png"
    );
}

#[test]
fn unreadable_directories_are_named_in_turn() {
    let denied = || Listing::Failed("Permission denied".into());
    let mut t = minimal_tree();
    t.eyes = denied();
    t.eyes_open = false;
    assert_eq!(
        AssetCatalog::load(&t).unwrap_err().message("/art"),
        "reading /art/eyes: Permission denied"
    );
    t.mouths = denied();
    assert_eq!(
        AssetCatalog::load(&t).unwrap_err().message("/art/"),
        "reading /art/mouths: Permission denied"
    );
    t.base = denied();
    assert_eq!(
        AssetCatalog::load(&t).unwrap_err().message(""),
        "reading base: Permission denied"
    );
}

#[test]
fn base_is_stacked_in_name_order() {
    let mut t = minimal_tree();
    t.base = Listing::Entries(vec![
        file("b.png"),
        file("a.txt"),
        file("a10.png"),
        file("a2.png"),
        file(".png"),
        file("C.png"),
        file("a.PNG"),
        dir("z.png", false, false),
    ]);
    let cat = AssetCatalog::load(&t).unwrap();
    assert_eq!(
        cat.0.base,
        vec![
            "base/C.png",
            "base/a10.png",
            "base/a2.png",
            "base/b.png",
            "base/z.png"
        ]
    );
}

#[test]
fn odd_names_still_give_paths() {
    let mut t = minimal_tree();
    t.base = Listing::Entries(vec![
        file("left\\body.png"),
        DirEntry {
            name: vec![0xff, b'x', b'.', b'p', b'n', b'g'],
            is_dir: false,
            is_file: true,
            has_open: false,
            has_closed: false,
        },
    ]);
    let cat = AssetCatalog::load(&t).unwrap();
    assert_eq!(cat.0.base, vec!["base/left/body.png", "\u{fffd}x.png"]);
}

#[test]
fn directories_are_no_mouths() {
    let mut t = minimal_tree();
    t.mouths = Listing::Entries(vec![dir("closed.png", false, false), file("open.png")]);
    assert!(AssetCatalog::load(&t).is_err());
}

#[test]
fn emotions_count_once_in_any_case() {
    let mut t = minimal_tree();
    t.eyes = Listing::Entries(vec![
        dir("happy", true, true),
        dir("Happy", true, false),
        dir("blank", false, true),
        file("sad"),
        DirEntry {
            name: vec![0xfe],
            is_dir: true,
            is_file: false,
            has_open: true,
            has_closed: true,
        },
    ]);
    let cat = AssetCatalog::load(&t).unwrap();
    assert_eq!(cat.emotions(), vec!["happy"]);
    // "happy" comes after "Happy" in name order, so its frames count.
    assert_eq!(
        cat.eyes_frame(Some("HAPPY"), EyeState::Closed).unwrap(),
        "/frames/eyes/happy/closed.png"
    );
    assert!(!cat.has_emotion("blank"));
    assert_eq!(
        cat.eyes_frame(Some("blank"), EyeState::Open).unwrap(),
        "/frames/eyes/open.png"
    );
}

fn mouths(present: [bool; 4]) -> MouthLayers {
    let name = |i: usize, n: &str| {
        if present[i] {
            Some(n.to_string())
        } else {
            None
        }
    };
    MouthLayers {
        closed: name(0, "0"),
        partial: name(1, "1"),
        medium: name(2, "2"),
        open: name(3, "3"),
    }
}

#[test]
fn nearest_mouth_prefers_the_less_open() {
    let levels = [
        MouthState::Closed,
        MouthState::Partial,
        MouthState::Medium,
        MouthState::Open,
    ];
    for mask in 0..16u32 {
        let present = [mask & 1 != 0, mask & 2 != 0, mask & 4 != 0, mask & 8 != 0];
        let set = mouths(present);
        for (d, level) in levels.iter().enumerate() {
            let best = (0..4usize)
                .filter(|i| present[*i])
                .min_by_key(|i| (i.abs_diff(d), *i));
            assert_eq!(
                nearest_mouth(&set, *level),
                best.map(|i| ["0", "1", "2", "3"][i])
            );
        }
    }
}

#[test]
fn eyes_without_any_frame_resolve_to_none() {
    let e = EyeLayers {
        open: None,
        closed: None,
    };
    assert_eq!(resolve_eye(&e, EyeState::Open), None);
    assert_eq!(resolve_eye(&e, EyeState::Closed), None);
    let e = EyeLayers {
        open: None,
        closed: Some("c".into()),
    };
    assert_eq!(resolve_eye(&e, EyeState::Open), None);
    assert_eq!(resolve_eye(&e, EyeState::Closed), Some("c"));
}

#[test]
fn paths_are_joined_as_the_file_system_does() {
    assert_eq!(join_path("/art", "base"), "/art/base");
    assert_eq!(join_path("/art/", "base"), "/art/base");
    assert_eq!(join_path("", "base"), "base");
    assert_eq!(join_path("/art", "/abs/x.png"), "/abs/x.png");
    assert_eq!(FRAMES_URL_PREFIX, "/frames");
}

#[test]
fn idle_overlay_prefers_smile() {
    let pick = |l: Listing| pick_idle(&l).unwrap().map(|b| String::from_utf8(b).unwrap());
    assert_eq!(pick(Listing::Missing), None);
    assert_eq!(pick(Listing::Entries(vec![file("note.txt")])), None);
    assert_eq!(
        pick(Listing::Entries(vec![
            file("b.png"),
            file("a.png"),
            dir("0.png", false, false)
        ])),
        Some("a.png".into())
    );
    assert_eq!(
        pick(Listing::Entries(vec![
            file("a.png"),
            file("SMILE.png"),
            file("smile.png")
        ])),
        Some("smile.png".into())
    );
    assert_eq!(
        pick(Listing::Entries(vec![
            file("Smile.png"),
            file("A.png"),
            dir("smile.png", false, false)
        ])),
        Some("A.png".into())
    );
    assert_eq!(
        pick_idle(&Listing::Failed("denied".into())).unwrap_err(),
        "denied"
    );
}
