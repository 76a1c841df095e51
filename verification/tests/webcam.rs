use rusty_tuber::compositor::Frame;
use rusty_tuber::config::WebcamFormat;
use rusty_tuber::webcam::{
    find_device, format_fits, format_request, interval_request, ioc, rgba_to_bgra, rgba_to_yuyv,
    Background, VideoNode, WriteOutcome, WriteStats, SUMMARY_EVERY, VIDIOC_S_FMT, VIDIOC_S_PARM,
};

#[test]
fn bgra_size_matches_and_packs_bgrx() {
    // 2x1 avatar: two opaque pixels -> 2*4 bytes BGRX.
    let frame = Frame {
        width: 2,
        height: 1,
        rgba: vec![10, 20, 30, 255, 40, 50, 60, 255],
    };
    let mut out = Vec::new();
    rgba_to_bgra(&frame, &Background::Solid([0, 0, 0]), &mut out);
    assert_eq!(out.len(), 8);
    // First pixel RGB(10,20,30) -> BGRX = [30,20,10,0xFF].
    assert_eq!(&out[0..4], &[30, 20, 10, 0xFF]);
}

#[test]
fn chroma_bg_fills_transparent_areas() {
    // 1x1 transparent avatar over green bg -> BGRX of green = [0,255,0,0xFF].
    let frame = Frame {
        width: 1,
        height: 1,
        rgba: vec![0, 0, 0, 0],
    };
    let mut out = Vec::new();
    rgba_to_bgra(&frame, &Background::Solid([0, 255, 0]), &mut out);
    assert_eq!(&out[..], &[0, 255, 0, 0xFF]);
}

#[test]
fn ioc_ioctl_constant_matches_known_value() {
    // The format request for a 208-byte struct on 64-bit Linux.
    assert_eq!(VIDIOC_S_FMT, 0xC0D0_5605);
    // The parameter request for a 204-byte struct on 64-bit Linux.
    assert_eq!(VIDIOC_S_PARM, 0xC0CC_5616);
    assert_eq!(ioc(3, b'V', 5, 208), VIDIOC_S_FMT);
    assert_eq!(ioc(3, b'V', 22, 204), VIDIOC_S_PARM);
}

#[test]
fn ioc_keeps_each_field_in_its_bits() {
    assert_eq!(ioc(0, 0, 0, 0), 0);
    assert_eq!(ioc(7, 0xFF, 0x1FF, 0x7FFF), 0xFFFF_FFFF);
    assert_eq!(ioc(4, 0, 0x100, 0x4000), 0);
}

#[test]
fn yuyv_size_is_width_height_times_two() {
    // 4x2 avatar -> 4*2*2 = 16 bytes of YUYV (2 bytes/pixel).
    let frame = Frame {
        width: 4,
        height: 2,
        rgba: vec![0; 4 * 2 * 4],
    };
    let mut out = Vec::new();
    rgba_to_yuyv(&frame, &Background::Solid([0, 0, 0]), &mut out);
    assert_eq!(out.len(), 16);
}

#[test]
fn yuyv_black_and_white_endpoints() {
    // One 2x1 macropixel: opaque black then opaque white over black bg.
    let frame = Frame {
        width: 2,
        height: 1,
        rgba: vec![0, 0, 0, 255, 255, 255, 255, 255],
    };
    let mut out = Vec::new();
    rgba_to_yuyv(&frame, &Background::Solid([0, 0, 0]), &mut out);
    assert_eq!(out.len(), 4);
    assert_eq!(out[0], 0, "Y0 black");
    assert_eq!(out[2], 255, "Y1 white");
    // Pure grey/neutral chroma for black+white averages to 128.
    assert_eq!(out[1], 128, "Cb neutral");
    assert_eq!(out[3], 128, "Cr neutral");
}

#[test]
fn yuyv_transparent_pixel_falls_back_to_chroma_bg() {
    // 2x1 fully transparent avatar over green bg -> both pixels are green.
    let frame = Frame {
        width: 2,
        height: 1,
        rgba: vec![0, 0, 0, 0, 0, 0, 0, 0],
    };
    let mut out = Vec::new();
    rgba_to_yuyv(&frame, &Background::Solid([0, 255, 0]), &mut out);
    assert_eq!(out.len(), 4);
    assert_eq!(out[0], out[2], "identical pixels give identical luma");
    let y_green = ((150 * 255 + 128) >> 8) as u8;
    assert_eq!(out[0], y_green);
}

#[test]
fn yuyv_colours_have_exact_values() {
    // Opaque red and opaque blue in one macropixel.
    let frame = Frame {
        width: 2,
        height: 1,
        rgba: vec![255, 0, 0, 255, 0, 0, 255, 255],
    };
    let mut out = Vec::new();
    rgba_to_yuyv(&frame, &Background::Solid([9, 9, 9]), &mut out);
    let cb = |r: i32, g: i32, b: i32| ((-43 * r - 84 * g + 127 * b + 128) >> 8) + 128;
    let cr = |r: i32, g: i32, b: i32| ((127 * r - 106 * g - 21 * b + 128) >> 8) + 128;
    assert_eq!(out[0], ((77 * 255 + 128) >> 8) as u8);
    assert_eq!(out[2], ((29 * 255 + 128) >> 8) as u8);
    assert_eq!(out[1] as i32, (cb(255, 0, 0) + cb(0, 0, 255) + 1) >> 1);
    assert_eq!(out[3] as i32, (cr(255, 0, 0) + cr(0, 0, 255) + 1) >> 1);
}

#[test]
fn simd_blend_matches_scalar_for_semi_transparent() {
    // 16x1 frame with a mix of alpha values. Every pixel must match the
    // alpha-over formula `(a*src + inv*bg) / 255` (floor).
    let w = 16u32;
    let h = 1u32;
    let n = (w * h) as usize;
    let mut rgba = vec![0u8; n * 4];
    let patterns = [
        [255, 0, 0, 255],
        [0, 0, 0, 0],
        [255, 255, 255, 128],
        [0, 0, 255, 128],
        [123, 200, 50, 200],
        [10, 20, 30, 1],
        [250, 240, 230, 64],
        [0, 0, 0, 254],
    ];
    for i in 0..n {
        let p = patterns[i % patterns.len()];
        rgba[i * 4..i * 4 + 4].copy_from_slice(&p);
    }
    let frame = Frame {
        width: w,
        height: h,
        rgba,
    };
    let bg = [10, 20, 30];
    let mut out = Vec::new();
    rgba_to_bgra(&frame, &Background::Solid(bg), &mut out);

    for i in 0..n {
        let j = i * 4;
        let (r, g, b, a) = (
            out[j + 2] as u32,
            out[j + 1] as u32,
            out[j] as u32,
            frame.rgba[j + 3] as u32,
        );
        let sr = frame.rgba[j] as u32;
        let sg = frame.rgba[j + 1] as u32;
        let sb = frame.rgba[j + 2] as u32;
        let inv = 255 - a;
        let div = |sum: u32| (sum + (sum >> 8) + 1) >> 8;
        let er = div(a * sr + inv * bg[0] as u32);
        let eg = div(a * sg + inv * bg[1] as u32);
        let eb = div(a * sb + inv * bg[2] as u32);
        assert_eq!((r, g, b), (er, eg, eb), "pixel {i} alpha {a}");
        assert_eq!(out[j + 3], 0xFF, "X channel must be saturated");
    }
}

#[test]
fn wide_body_and_tail_agree() {
    // Eleven pixels: eight in one step, three in the tail; all alike.
    let mut rgba = Vec::new();
    for _ in 0..11 {
        rgba.extend_from_slice(&[200, 100, 50, 77]);
    }
    let frame = Frame {
        width: 11,
        height: 1,
        rgba,
    };
    let mut out = vec![1, 2, 3];
    rgba_to_bgra(&frame, &Background::Solid([3, 5, 7]), &mut out);
    assert_eq!(out.len(), 44);
    let first = out[0..4].to_vec();
    assert_eq!(
        first,
        vec![
            ((77 * 50 + 178 * 7) / 255) as u8,
            ((77 * 100 + 178 * 5) / 255) as u8,
            ((77 * 200 + 178 * 3) / 255) as u8,
            255
        ]
    );
    for p in 1..11 {
        assert_eq!(out[p * 4..p * 4 + 4], first[..]);
    }
}

/// A solid-colour RGBA background image of the given size.
fn solid_image(w: u32, h: u32, c: [u8; 3]) -> Vec<u8> {
    let mut buf = Vec::with_capacity((w as usize) * (h as usize) * 4);
    for _ in 0..(w * h) {
        buf.extend_from_slice(&[c[0], c[1], c[2], 255]);
    }
    buf
}

#[test]
fn yuyv_image_matches_solid_when_image_is_uniform_colour() {
    let w = 16u32;
    let h = 2u32;
    let n = (w * h) as usize;
    let mut rgba = vec![0u8; n * 4];
    let patterns = [
        [255, 0, 0, 255],
        [0, 0, 0, 0],
        [255, 255, 255, 128],
        [0, 0, 255, 128],
        [123, 200, 50, 200],
        [10, 20, 30, 1],
        [250, 240, 230, 64],
        [0, 0, 0, 254],
    ];
    for i in 0..n {
        let p = patterns[i % patterns.len()];
        rgba[i * 4..i * 4 + 4].copy_from_slice(&p);
    }
    let frame = Frame {
        width: w,
        height: h,
        rgba,
    };
    let c = [10, 20, 30];

    let mut out_solid = Vec::new();
    rgba_to_yuyv(&frame, &Background::Solid(c), &mut out_solid);
    let mut out_image = Vec::new();
    rgba_to_yuyv(
        &frame,
        &Background::Image(solid_image(w, h, c)),
        &mut out_image,
    );
    assert_eq!(out_solid, out_image);
}

#[test]
fn bgra_image_matches_solid_when_image_is_uniform_colour() {
    let w = 16u32;
    let h = 2u32;
    let n = (w * h) as usize;
    let mut rgba = vec![0u8; n * 4];
    let patterns = [
        [255, 0, 0, 255],
        [0, 0, 0, 0],
        [255, 255, 255, 128],
        [0, 0, 255, 128],
        [123, 200, 50, 200],
        [10, 20, 30, 1],
    ];
    for i in 0..n {
        let p = patterns[i % patterns.len()];
        rgba[i * 4..i * 4 + 4].copy_from_slice(&p);
    }
    let frame = Frame {
        width: w,
        height: h,
        rgba,
    };
    let c = [200, 100, 50];

    let mut out_solid = Vec::new();
    rgba_to_bgra(&frame, &Background::Solid(c), &mut out_solid);
    let mut out_image = Vec::new();
    rgba_to_bgra(
        &frame,
        &Background::Image(solid_image(w, h, c)),
        &mut out_image,
    );
    assert_eq!(out_solid, out_image);
}

#[test]
fn background_load_empty_path_is_solid() {
    let bg = Background::load("", [1, 2, 3], 512, &Err(String::new())).unwrap();
    assert!(matches!(bg, Background::Solid([1, 2, 3])));
}

fn png(w: u32, h: u32, rgba: Vec<u8>) -> Vec<u8> {
    let img = image::RgbaImage::from_raw(w, h, rgba).unwrap();
    let mut out = std::io::Cursor::new(Vec::new());
    img.write_to(&mut out, image::ImageFormat::Png).unwrap();
    out.into_inner()
}

#[test]
fn background_image_of_the_right_size_is_taken_as_it_is() {
    let rgba = vec![1, 2, 3, 255, 4, 5, 6, 255, 7, 8, 9, 255, 10, 11, 12, 255];
    let bg = Background::load("wall.png", [0, 0, 0], 2, &Ok(png(2, 2, rgba.clone()))).unwrap();
    match bg {
        Background::Image(b) => assert_eq!(b, rgba),
        other => panic!("expected an image, got {other:?}"),
    }
}

#[test]
fn background_image_is_scaled_to_the_output() {
    let rgba = [40u8, 50, 60, 255].repeat(6);
    let bg = Background::load("wall.png", [0, 0, 0], 4, &Ok(png(3, 2, rgba))).unwrap();
    match bg {
        // One colour stays one colour.
        Background::Image(b) => assert_eq!(b, [40u8, 50, 60, 255].repeat(16)),
        other => panic!("expected an image, got {other:?}"),
    }
}

#[test]
fn background_errors_say_what_is_wrong() {
    let missing = Background::load("no.png", [0; 3], 4, &Err("No such file".into())).unwrap_err();
    assert_eq!(
        missing.message(),
        "loading background image no.png: No such file"
    );
    let garbage = Background::load("bad.png", [0; 3], 4, &Ok(vec![1, 2, 3])).unwrap_err();
    assert!(garbage.message().starts_with("loading background image bad.png: "));
    let huge = Background::load("w.png", [0; 3], u32::MAX, &Ok(png(1, 1, vec![0; 4]))).unwrap_err();
    assert_eq!(huge.message(), "cannot scale background image w.png");
}

fn node(entry: &str, name: &str, has_bus: bool) -> VideoNode {
    VideoNode {
        entry: entry.into(),
        name: name.into(),
        has_bus,
    }
}

#[test]
fn configured_device_wins() {
    let nodes = vec![node("video0", "v4l2loopback", false)];
    assert_eq!(find_device("/dev/video9", &nodes), Some("/dev/video9".into()));
}

#[test]
fn device_is_detected_by_name_then_by_missing_bus() {
    // A loopback name wins over an earlier virtual device with a label.
    let nodes = vec![
        node("v4l-subdev0", "v4l2loopback", false),
        node("video0", "Integrated Camera\n", true),
        node("video1", "Rusty-Tuber\n", false),
        node("video2", "Dummy Video Device (0x0000)\n", true),
    ];
    assert_eq!(find_device("", &nodes), Some("/dev/video2".into()));
    // Failing that, a named device without a bus.
    assert_eq!(find_device("", &nodes[0..3].iter().map(|n| node(&n.entry, &n.name, n.has_bus)).collect()), Some("/dev/video1".into()));
    // A device without a name is no candidate.
    assert_eq!(find_device("", &vec![node("video3", " \n", false)]), None);
    assert_eq!(find_device("", &vec![]), None);
}

#[test]
fn format_request_fills_the_fields() {
    let b = format_request(512, 256, WebcamFormat::Yuyv);
    assert_eq!(b.len(), 208);
    let at = |i: usize| u32::from_le_bytes([b[i], b[i + 1], b[i + 2], b[i + 3]]);
    assert_eq!(at(0), 2);
    assert_eq!(at(4), 0);
    assert_eq!(at(8), 512);
    assert_eq!(at(12), 256);
    assert_eq!(&b[16..20], b"YUYV");
    assert_eq!(at(20), 1);
    assert_eq!(at(24), 1024);
    assert_eq!(at(28), 512 * 256 * 2);
    assert_eq!(at(32), 8);
    assert!(b[36..].iter().all(|&x| x == 0));
    let b = format_request(3, 2, WebcamFormat::Bgr4);
    assert_eq!(&b[16..20], b"BGR4");
    assert_eq!(b[24], 12);
    assert_eq!(b[28], 24);
    assert!(format_fits(512, 512, WebcamFormat::Bgr4));
    assert!(!format_fits(u32::MAX, 1, WebcamFormat::Yuyv));
    assert!(!format_fits(0x1_0000, 0x1_0000, WebcamFormat::Yuyv));
}

#[test]
fn interval_request_advertises_the_rate() {
    let b = interval_request(30);
    assert_eq!(b.len(), 204);
    assert_eq!(&b[0..4], &[2, 0, 0, 0]);
    assert_eq!(&b[4..8], &[0, 0x10, 0, 0]);
    assert_eq!(&b[12..16], &[1, 0, 0, 0]);
    assert_eq!(&b[16..20], &[30, 0, 0, 0]);
    assert_eq!(interval_request(0)[16], 1);
}

#[test]
fn write_stats_count_and_summarise() {
    let mut s = WriteStats::new();
    for i in 0..SUMMARY_EVERY - 1 {
        let outcome = match i % 4 {
            0 | 1 => WriteOutcome::Wrote(100),
            2 => WriteOutcome::Wrote(99),
            _ => WriteOutcome::WouldBlock,
        };
        assert_eq!(s.record(outcome, 100, i as u128), None);
    }
    let last = s.record(WriteOutcome::Failed, 100, 7).unwrap();
    assert_eq!(last.written + last.skipped, SUMMARY_EVERY);
    assert_eq!(last.written, 30);
    assert_eq!(last.max_write_us, 58);
    assert_eq!(s.max_write_us, 0);
    assert_eq!(s.since_summary, 0);
    assert_eq!(s.written, 30);
}
