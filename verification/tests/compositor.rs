use rusty_tuber::assets::AssetCatalog;
use rusty_tuber::binary32::Binary32;
use rusty_tuber::compositor::{
    anim_files, frame_file, layer_paths, AnimDef, AnimGroup, Compositor, CompositorError, IdleFile,
    DEFAULT_ANIM_INSTANCES, DEFAULT_ANIM_MAX, DEFAULT_ANIM_MIN,
};
use rusty_tuber::images::{can_resize, extension_of};
use rusty_tuber::protocol::{EyeLayers, EyeState, LayerCatalog, MouthLayers, MouthState};
use std::collections::HashMap;
use std::sync::Arc;

fn png(w: u32, h: u32, rgba: &[u8]) -> Vec<u8> {
    let img = image::RgbaImage::from_raw(w, h, rgba.to_vec()).unwrap();
    let mut out = std::io::Cursor::new(Vec::new());
    img.write_to(&mut out, image::ImageFormat::Png).unwrap();
    out.into_inner()
}

type Files = HashMap<String, Vec<u8>>;

fn fake_files() -> Files {
    let mut f = HashMap::new();
    // Solid red base.
    f.insert(
        "base/body.png".to_string(),
        png(2, 2, &[200u8, 0, 0, 255].repeat(4)),
    );
    // closed mouth: opaque green strip; open: opaque blue strip.
    f.insert(
        "mouths/closed.png".to_string(),
        png(
            2,
            2,
            &[0, 255, 0, 255, 0, 0, 0, 0, 0, 0, 0, 0, 0, 255, 0, 255],
        ),
    );
    f.insert(
        "mouths/open.png".to_string(),
        png(2, 2, &[0, 0, 255, 255].repeat(4)),
    );
    // eyes open: opaque.
    f.insert(
        "eyes/open.png".to_string(),
        png(2, 2, &[255u8, 255, 255, 255].repeat(4)),
    );
    f
}

fn fake_catalog() -> Arc<AssetCatalog> {
    Arc::new(AssetCatalog(LayerCatalog {
        base: vec!["base/body.png".into()],
        mouths: MouthLayers {
            closed: Some("mouths/closed.png".into()),
            partial: None,
            medium: None,
            open: Some("mouths/open.png".into()),
        },
        default_eyes: EyeLayers {
            open: Some("eyes/open.png".into()),
            closed: None,
        },
        emotions: rusty_tuber::textmap::TextMap::new(),
    }))
}

fn read(catalog: &AssetCatalog, files: &Files) -> Vec<Result<Vec<u8>, String>> {
    layer_paths(catalog.catalog())
        .iter()
        .map(|p| files.get(p).cloned().ok_or("No such file".to_string()))
        .collect()
}

fn build(
    catalog: Arc<AssetCatalog>,
    files: &Files,
    anims: Vec<AnimGroup>,
    idle: Option<IdleFile>,
    size: Option<u32>,
) -> Result<Compositor, CompositorError> {
    let contents = read(&catalog, files);
    Compositor::new(catalog, &contents, &Ok(anims), &Ok(idle), size)
}

fn draw(
    c: &Compositor,
    mouth: MouthState,
    eyes: EyeState,
    frames: &[usize],
    idle: bool,
) -> Vec<u8> {
    assert!(c.can_render(None, mouth, eyes, frames, idle));
    c.render(None, mouth, eyes, frames, idle).rgba
}

#[test]
fn render_composites_and_resolves_nearest_mouth() {
    let comp = build(fake_catalog(), &fake_files(), vec![], None, None).unwrap();
    // Mouth=Partial snaps to closed (nearest). The top-left pixel should be
    // the mouth (green) since the mouth is drawn over the white eyes over
    // the red base.
    let frame = comp.render(None, MouthState::Partial, EyeState::Open, &[], false);
    assert_eq!((frame.width, frame.height), (2, 2));
    let p = &frame.rgba[0..4];
    assert_eq!(p, &[0, 255, 0, 255]); // green closed mouth wins
    // Where the mouth is transparent the eyes show.
    assert_eq!(&frame.rgba[4..8], &[255, 255, 255, 255]);
}

fn smile() -> Option<IdleFile> {
    Some(IdleFile {
        path: "anim/smile/smile.png".into(),
        content: Ok(png(2, 2, &[255u8, 255, 0, 255].repeat(4))),
    })
}

#[test]
fn idle_overlay_loads_and_renders_on_top() {
    let comp = build(fake_catalog(), &fake_files(), vec![], smile(), None).unwrap();
    assert!(comp.has_idle_layer());
    // Without idle: closed mouth green wins at (0,0).
    let f1 = draw(&comp, MouthState::Closed, EyeState::Open, &[], false);
    assert_eq!(&f1[0..4], &[0, 255, 0, 255]);
    // With idle: the yellow smile is composited on top of everything.
    let f2 = draw(&comp, MouthState::Closed, EyeState::Open, &[], true);
    assert_eq!(&f2[0..4], &[255, 255, 0, 255]);
}

#[test]
fn idle_overlay_absent_means_feature_inactive() {
    let comp = build(fake_catalog(), &fake_files(), vec![], None, None).unwrap();
    assert!(!comp.has_idle_layer());
    // show_idle=true is a harmless no-op when no layer is loaded.
    let f = draw(&comp, MouthState::Closed, EyeState::Open, &[], true);
    assert_eq!(&f[0..4], &[0, 255, 0, 255]);
}

fn worm_def() -> AnimDef {
    AnimDef {
        name: "worms".into(),
        instances: 2,
        frames: 2,
        file_pattern: "worm{n}-{f}.png".into(),
        min_interval: Binary32::from_bits(DEFAULT_ANIM_MIN),
        max_interval: Binary32::from_bits(DEFAULT_ANIM_MAX),
    }
}

/// A picture with one opaque pixel at the end of the first row.
fn worm(r: u8) -> Option<Result<Vec<u8>, String>> {
    let mut rgba = vec![0u8; 16];
    rgba[4] = r;
    rgba[7] = 255;
    Some(Ok(png(2, 2, &rgba)))
}

#[test]
fn animations_show_their_current_frame_at_rest() {
    let group = AnimGroup {
        def: worm_def(),
        // The second instance has only its second frame.
        files: vec![vec![worm(10), worm(20)], vec![None, None]],
    };
    let comp = build(fake_catalog(), &fake_files(), vec![group], None, None).unwrap();
    let cfg = comp.anim_config();
    assert_eq!(cfg.len(), 1);
    assert_eq!((cfg[0].instances, cfg[0].frames), (2, 2));
    let red = |mouth, frames: &[usize]| draw(&comp, mouth, EyeState::Open, frames, false)[4];
    assert_eq!(red(MouthState::Closed, &[]), 10);
    assert_eq!(red(MouthState::Closed, &[1]), 20);
    // There is no third frame: the eyes show.
    assert_eq!(red(MouthState::Closed, &[2]), 255);
    // Talking hides the animation: the blue mouth shows.
    let f = draw(&comp, MouthState::Open, EyeState::Open, &[1], false);
    assert_eq!(&f[4..8], &[0, 0, 255, 255]);
    // As it does without any frames given.
    assert_eq!(
        f,
        draw(&comp, MouthState::Open, EyeState::Open, &[], false)
    );
}

#[test]
fn animation_frames_are_named_by_pattern() {
    assert_eq!(frame_file("worm{n}-{f}.png", 5, 2), "worm5-2.png");
    assert_eq!(frame_file("{f}{f}.png", 1, 12), "1212.png");
    assert_eq!(frame_file("still.png", 1, 1), "still.png");
    assert_eq!(
        anim_files(&worm_def()),
        vec![
            vec!["worm1-1.png", "worm1-2.png"],
            vec!["worm2-1.png", "worm2-2.png"]
        ]
    );
    assert_eq!(DEFAULT_ANIM_INSTANCES, 1);
    assert_eq!(f32::from_bits(DEFAULT_ANIM_MIN), 0.1);
    assert_eq!(f32::from_bits(DEFAULT_ANIM_MAX), 0.5);
}

#[test]
fn bad_animation_frames_are_errors() {
    let group = AnimGroup {
        def: worm_def(),
        files: vec![
            vec![worm(1), None],
            vec![Some(Err("gone".into())), Some(Ok(vec![]))],
        ],
    };
    let err = match build(fake_catalog(), &fake_files(), vec![group], None, None) {
        Err(e) => e,
        Ok(_) => panic!("expected an error"),
    };
    assert_eq!(err.message("/art"), "gone");
    match err {
        CompositorError::AnimFrame { file, .. } => assert_eq!(file, "worm2-1.png"),
        other => panic!("unexpected {other:?}"),
    }
}

#[test]
fn output_size_scales_every_layer() {
    let comp = build(fake_catalog(), &fake_files(), vec![], smile(), Some(4)).unwrap();
    let f = comp.render(None, MouthState::Open, EyeState::Open, &[], false);
    assert_eq!((f.width, f.height), (4, 4));
    // The open mouth covers everything in one colour, at any size.
    assert_eq!(f.rgba, [0u8, 0, 255, 255].repeat(16));
    // Layers of different sizes fit once they are scaled.
    let mut files = fake_files();
    files.insert(
        "mouths/open.png".into(),
        png(3, 5, &[0, 0, 255, 255].repeat(15)),
    );
    let comp = build(fake_catalog(), &files, vec![], None, Some(4)).unwrap();
    let f = comp.render(None, MouthState::Open, EyeState::Open, &[], false);
    assert_eq!(f.rgba, [0u8, 0, 255, 255].repeat(16));
}

#[test]
fn layers_of_another_size_may_not_fit() {
    let mut files = fake_files();
    files.insert(
        "mouths/open.png".into(),
        png(3, 3, &[0, 0, 255, 255].repeat(9)),
    );
    let comp = build(fake_catalog(), &files, vec![], None, None).unwrap();
    assert!(!comp.can_render(None, MouthState::Open, EyeState::Open, &[], false));
    assert!(comp.can_render(None, MouthState::Closed, EyeState::Open, &[], false));
}

#[test]
fn translucent_layers_are_mixed() {
    let mut files = fake_files();
    files.insert(
        "eyes/open.png".into(),
        png(2, 2, &[100, 50, 30, 128].repeat(4)),
    );
    let comp = build(fake_catalog(), &files, vec![], None, None).unwrap();
    let f = draw(&comp, MouthState::Closed, EyeState::Open, &[], false);
    // The eyes over the red body, at a pixel that the mouth leaves free.
    let mix = |s: u32, d: u32| ((128 * s + 127 * d) / 255) as u8;
    assert_eq!(&f[4..8], &[mix(100, 200), mix(50, 0), mix(30, 0), 255]);
}

#[test]
fn body_images_are_stacked_bottom_up() {
    let mut files = fake_files();
    files.insert(
        "base/hat.png".into(),
        png(
            2,
            2,
            &[1, 2, 3, 255, 9, 9, 9, 0, 9, 9, 9, 0, 9, 9, 9, 0],
        ),
    );
    files.insert("eyes/open.png".into(), png(2, 2, &[0; 16]));
    files.insert("mouths/closed.png".into(), png(2, 2, &[0; 16]));
    let mut cat = fake_catalog().as_ref().clone();
    cat.0.base.push("base/hat.png".into());
    cat.0.base.push("".into());
    let comp = build(Arc::new(cat), &files, vec![], None, None).unwrap();
    let f = draw(&comp, MouthState::Closed, EyeState::Open, &[], false);
    assert_eq!(&f[0..4], &[1, 2, 3, 255]);
    assert_eq!(&f[4..8], &[200, 0, 0, 255]);
}

#[test]
fn emotions_swap_the_eye_layer() {
    let mut files = fake_files();
    files.insert(
        "eyes/happy/open.png".into(),
        png(2, 2, &[7, 8, 9, 255].repeat(4)),
    );
    let mut cat = fake_catalog().as_ref().clone();
    cat.0.emotions.insert(
        "happy".into(),
        EyeLayers {
            open: Some("eyes/happy/open.png".into()),
            closed: None,
        },
    );
    let comp = build(Arc::new(cat), &files, vec![], None, None).unwrap();
    let f = comp.render(
        Some("HAPPY"),
        MouthState::Closed,
        EyeState::Closed,
        &[],
        false,
    );
    assert_eq!(&f.rgba[4..8], &[7, 8, 9, 255]);
}

#[test]
fn layer_paths_are_listed_once_in_order() {
    let mut cat = fake_catalog().as_ref().clone();
    cat.0.base = vec!["b".into(), "".into(), "a".into(), "b".into()];
    cat.0.default_eyes.closed = Some("a".into());
    cat.0.emotions.insert(
        "zeal".into(),
        EyeLayers {
            open: Some("z".into()),
            closed: None,
        },
    );
    cat.0.emotions.insert(
        "awe".into(),
        EyeLayers {
            open: Some("w".into()),
            closed: Some("v".into()),
        },
    );
    assert_eq!(
        layer_paths(&cat.0),
        vec![
            "b",
            "a",
            "mouths/closed.png",
            "mouths/open.png",
            "eyes/open.png",
            "w",
            "v",
            "z"
        ]
    );
}

fn failure(r: Result<Compositor, CompositorError>) -> CompositorError {
    match r {
        Err(e) => e,
        Ok(_) => panic!("expected an error"),
    }
}

#[test]
fn the_first_bad_layer_is_reported() {
    let mut files = fake_files();
    files.remove("eyes/open.png");
    files.insert("mouths/open.png".into(), vec![1, 2, 3]);
    let e = failure(build(fake_catalog(), &files, vec![], None, None));
    assert!(e
        .message("/art")
        .starts_with("compositor: decoding /art/mouths/open.png: "));
    let mut files = fake_files();
    files.remove("eyes/open.png");
    let e = failure(build(fake_catalog(), &files, vec![], None, None));
    assert_eq!(
        e.message("/art"),
        "compositor: decoding /art/eyes/open.png: No such file"
    );
}

#[test]
fn other_failures_are_reported_in_turn() {
    let mut cat = fake_catalog().as_ref().clone();
    cat.0.base = vec!["".into()];
    let e = failure(build(Arc::new(cat), &fake_files(), vec![], None, None));
    assert_eq!(e.message("/art"), "compositor: no base layers decoded");

    let cat = fake_catalog();
    let files = read(&cat, &fake_files());
    let e = failure(Compositor::new(
        cat.clone(),
        &files,
        &Err("parsing character.toml: nope".into()),
        &Err("never asked".into()),
        None,
    ));
    assert_eq!(e.message("/art"), "parsing character.toml: nope");
    let e = failure(Compositor::new(
        cat.clone(),
        &files,
        &Ok(vec![]),
        &Err("reading anim/smile: denied".into()),
        None,
    ));
    assert_eq!(e.message("/art"), "reading anim/smile: denied");
    let idle = Some(IdleFile {
        path: "/art/anim/smile/a.png".into(),
        content: Err("gone".into()),
    });
    let e = failure(Compositor::new(cat, &files, &Ok(vec![]), &Ok(idle), None));
    assert_eq!(
        e.message("/art"),
        "decoding idle overlay /art/anim/smile/a.png: gone"
    );
}

#[test]
fn sizes_beyond_any_buffer_are_refused() {
    let e = failure(build(
        fake_catalog(),
        &fake_files(),
        vec![],
        None,
        Some(u32::MAX),
    ));
    assert_eq!(
        e.message("/art"),
        "compositor: cannot scale /art/base/body.png"
    );
}

#[test]
fn the_extension_decides_the_format() {
    assert_eq!(extension_of("base/body.png"), "png");
    assert_eq!(extension_of("a.b/c"), "");
    assert_eq!(extension_of(".png"), "");
    assert_eq!(extension_of("x/.png"), "");
    assert_eq!(extension_of(".."), "");
    assert_eq!(extension_of("a.tar.gz"), "gz");
    let mut cat = fake_catalog().as_ref().clone();
    cat.0.base = vec!["base/body.gif".into()];
    let mut files = fake_files();
    let body = files["base/body.png"].clone();
    files.insert("base/body.gif".into(), body.clone());
    assert!(build(Arc::new(cat.clone()), &files, vec![], None, None).is_err());
    cat.0.base = vec!["base/body.PNG".into()];
    files.insert("base/body.PNG".into(), body);
    assert!(build(Arc::new(cat), &files, vec![], None, None).is_ok());
}

#[test]
fn scaling_keeps_the_picture() {
    let mut files = fake_files();
    // Blue on the left, green on the right.
    files.insert(
        "mouths/open.png".into(),
        png(
            2,
            2,
            &[0, 0, 255, 255, 0, 255, 0, 255].repeat(2),
        ),
    );
    let comp = build(fake_catalog(), &files, vec![], None, Some(8)).unwrap();
    let f = comp.render(None, MouthState::Open, EyeState::Open, &[], false);
    for y in 0..8 {
        let left = &f.rgba[y * 32..y * 32 + 4];
        let right = &f.rgba[y * 32 + 28..y * 32 + 32];
        assert!(left[2] > 200 && left[1] < 50, "{left:?}");
        assert!(right[1] > 200 && right[2] < 50, "{right:?}");
    }
}

#[test]
fn long_sides_can_be_scaled_down() {
    assert!(can_resize(16_777_217, 1));
    assert!(can_resize(u32::MAX, 512));
    assert!(can_resize(1, 16_777_216));
    assert!(!can_resize(1, 16_777_217));
}
