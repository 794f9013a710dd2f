//! Planning an import and naming its delays.

use gifkino::import::{
    delays_for_fps, has_extension, import_cap, import_filters, import_size, import_verdict,
    is_still_image, keep_decoding, probe, route, size_presets, ImportPlan, Route, Verdict,
};
use gifkino::settings::Settings;

#[derive(Clone)]
struct Source {
    width: u32,
    height: u32,
    fps: f64,
    duration_s: Option<f64>,
}

#[derive(Clone)]
struct Options {
    max_width: Option<u32>,
    target: Option<(u32, u32)>,
    fps: Option<f64>,
    max_frames: u64,
    max_bytes: u64,
}

const OPTIONS: Options = Options {
    max_width: Some(1280),
    target: None,
    fps: None,
    max_frames: 2000,
    max_bytes: 1_200 << 20,
};

fn estimated(source: &Source, fps: f64) -> Option<u64> {
    source
        .duration_s
        .map(|d| (d * fps).round().max(1.0) as u64)
}

/// The plan and the frame rate it settles on.
fn plan_for(source: &Source, options: &Options) -> (ImportPlan, f64) {
    let (long, short) = if source.width >= source.height {
        (source.width, source.height)
    } else {
        (source.height, source.width)
    };
    let fitted = options.max_width.map_or(0, |max| {
        ((max as f64 / long as f64) * short as f64).round() as u32
    });
    let (width, height) = import_size(
        (source.width, source.height),
        options.target,
        options.max_width,
        fitted,
    );
    let cap = import_cap(width, height, options.max_frames, options.max_bytes);
    let mut fps = options.fps.unwrap_or(source.fps);
    if options.fps.is_none() {
        if let Some(seconds) = source.duration_s.filter(|d| *d > 0.5) {
            fps = fps.min((cap as f64 / seconds).max(2.0));
        }
    }
    let fps = fps.max(1.0);
    let plan = ImportPlan {
        width,
        height,
        expected: estimated(source, fps),
        cap,
    };
    (plan, fps)
}

fn reduced(source: &Source, plan: &ImportPlan, fps: f64) -> bool {
    plan.is_reduced(fps < source.fps - 0.01)
}

fn clip(width: u32, height: u32, fps: f64, duration_s: Option<f64>) -> Source {
    Source {
        width,
        height,
        fps,
        duration_s,
    }
}

#[test]
fn a_long_clip_loses_frame_rate_not_its_ending() {
    let info = clip(1920, 1080, 60.0, Some(120.0));
    let (plan, fps) = plan_for(&info, &OPTIONS);
    assert_eq!((plan.width, plan.height), (1280, 720));
    assert!(
        plan.bytes().expect("a duration") <= OPTIONS.max_bytes,
        "stays inside the RAM budget"
    );
    assert!((2.0..60.0).contains(&fps), "thinned, not frozen: {fps}");
    assert!(!plan.over_budget(), "the whole clip fits");
    assert!(reduced(&info, &plan, fps), "worth warning about");
}

#[test]
fn a_short_clip_keeps_its_frame_rate_and_raises_nothing() {
    let info = clip(640, 480, 30.0, Some(5.0));
    let (plan, fps) = plan_for(&info, &OPTIONS);
    assert_eq!(fps, 30.0);
    assert_eq!(plan.frames(), Some(150));
    assert!(!reduced(&info, &plan, fps));
}

#[test]
fn scaling_alone_is_not_worth_a_dialog() {
    let info = clip(1920, 1080, 24.0, Some(8.0));
    let (plan, fps) = plan_for(&info, &OPTIONS);
    assert_eq!((plan.width, plan.height), (1280, 720));
    assert!(!reduced(&info, &plan, fps));
}

#[test]
fn an_endless_clip_is_capped_but_unknowable() {
    let info = clip(320, 240, 25.0, None);
    let (plan, fps) = plan_for(&info, &OPTIONS);
    assert_eq!(fps, 25.0, "no duration, nothing to thin against");
    assert_eq!(plan.frames(), None);
    assert!(!plan.over_budget(), "nothing to be over budget against");
}

#[test]
fn the_cap_respects_whichever_budget_binds_first() {
    let big = clip(1280, 720, 30.0, Some(600.0));
    let (plan, _) = plan_for(&big, &OPTIONS);
    assert!(
        plan.cap < OPTIONS.max_frames,
        "RAM is the binding limit here"
    );
    assert!(
        plan.cap * 1280 * 720 * 4 <= OPTIONS.max_bytes,
        "the cap is what the budget buys"
    );
    // Ten minutes of 720p will not fit even at the lowest automatic rate,
    // and that is a refusal rather than a silent trim.
    assert!(plan.over_budget());

    let small = clip(160, 120, 30.0, Some(600.0));
    let (plan, _) = plan_for(&small, &OPTIONS);
    assert_eq!(
        plan.cap, OPTIONS.max_frames,
        "the frame count is the binding limit here"
    );
}

#[test]
fn thinning_the_frame_rate_preserves_the_running_time() {
    let info = clip(1920, 1080, 60.0, Some(90.0));
    let (plan, fps) = plan_for(&info, &OPTIONS);
    let marks = (0..plan.frames().expect("a duration"))
        .map(|i| ((i + 1) as f64 * 100.0 / fps).round() as u32)
        .collect();
    let delays = delays_for_fps(&marks);
    let total_cs: u32 = delays.iter().map(|d| *d as u32).sum();
    assert!(
        (total_cs as f64 - 9000.0).abs() <= 100.0,
        "90 s, got {total_cs} cs"
    );
}

#[test]
fn a_chosen_rate_makes_resolution_the_lever() {
    let source = clip(1920, 1080, 60.0, Some(90.0));
    let at = |w: u32, h: u32| {
        plan_for(
            &source,
            &Options {
                target: Some((w, h)),
                fps: Some(4.0),
                ..OPTIONS
            },
        )
    };

    let (big, big_fps) = at(1280, 720);
    let (small, small_fps) = at(480, 270);
    assert_eq!(
        small_fps, big_fps,
        "the rate is the user's, not the budget's"
    );
    assert!(
        small.bytes().expect("a duration") * 4 < big.bytes().expect("a duration"),
        "{:?} vs {:?}",
        small.bytes(),
        big.bytes()
    );
}

#[test]
fn the_budget_comes_from_settings() {
    let source = clip(1920, 1080, 30.0, Some(20.0));
    let at = |mb: u64| {
        let mut settings = Settings::default();
        settings.apply(&format!("max_import_memory_mb = {mb}"));
        plan_for(
            &source,
            &Options {
                target: Some((1280, 720)),
                fps: Some(30.0),
                max_bytes: settings.max_import_bytes,
                ..OPTIONS
            },
        )
        .0
    };
    assert!(at(256).over_budget(), "a tight budget refuses it");
    assert!(!at(4096).over_budget(), "a generous one takes it");
}

#[test]
fn a_custom_size_may_change_the_aspect_ratio() {
    let source = clip(1920, 1080, 30.0, Some(10.0));
    let (plan, _) = plan_for(
        &source,
        &Options {
            target: Some((600, 600)),
            ..OPTIONS
        },
    );
    assert_eq!((plan.width, plan.height), (600, 600));
}

#[test]
fn odd_targets_are_rounded_to_even() {
    let source = clip(1920, 1080, 30.0, Some(10.0));
    let (plan, _) = plan_for(
        &source,
        &Options {
            target: Some((641, 361)),
            ..OPTIONS
        },
    );
    assert_eq!((plan.width % 2, plan.height % 2), (0, 0), "{plan:?}");
    assert_eq!((plan.width, plan.height), (640, 360));
}

#[test]
fn presets_only_offer_sizes_that_fit_inside_the_source() {
    let presets = size_presets(1920, 1080);
    assert_eq!(presets[0], (1280, 720));
    assert!(presets.iter().all(|(w, h)| *w <= 1920 && *h < 1080));
    assert!(presets.iter().all(|(w, h)| w % 2 == 0 && h % 2 == 0));

    assert!(
        size_presets(320, 240).is_empty(),
        "nothing to step down to"
    );
}

/// The extension of a file name, if it has one.
fn extension(name: &str) -> Option<&str> {
    std::path::Path::new(name)
        .extension()
        .and_then(|e| e.to_str())
}

#[test]
fn still_images_bypass_the_import_pipeline() {
    for ext in ["png", "jpg", "jpeg", "PNG", "bmp", "tiff", "webp.png"] {
        assert!(
            is_still_image(extension(&format!("x.{ext}"))),
            "{ext} is a still image"
        );
    }
    for ext in ["gif", "mp4", "mov", "webm", "webp", "mkv", "apng", ""] {
        assert!(
            !is_still_image(extension(&format!("x.{ext}"))),
            "{ext} must take the async LoadAppend path"
        );
    }
    assert!(!is_still_image(extension("noextension")));
}

#[test]
fn each_kind_of_file_has_its_own_decoder() {
    assert_eq!(route(Some("GIF")), Route::Gif);
    assert_eq!(route(Some("png")), Route::Still);
    assert_eq!(route(Some("mkv")), Route::Video);
    assert_eq!(route(None), Route::Video);
    assert!(has_extension(Some("Gif"), "gif") && !has_extension(Some("jif"), "gif"));
}

#[test]
fn a_probe_reads_the_stream_line_by_line() {
    let info = probe("1920\n1080\n30000/1001\n12.5\n").expect("a video stream");
    assert_eq!((info.width, info.height), (1920, 1080));
    assert_eq!(info.rate.as_deref(), Some("30000/1001"));
    assert_eq!(info.duration.as_deref(), Some("12.5"));
    assert!(probe("N/A\n1080\n").is_none(), "no video stream");
    assert!(probe("").is_none());
}

#[test]
fn the_decoder_is_asked_for_what_changes() {
    assert_eq!(import_filters((100, 50), (100, 50), None), None);
    assert_eq!(
        import_filters((100, 50), (50, 25), None).as_deref(),
        Some("scale=50:25")
    );
    assert_eq!(
        import_filters((100, 50), (50, 25), Some("4")).as_deref(),
        Some("scale=50:25,fps=4")
    );
}

#[test]
fn a_decode_ends_in_frames_or_says_why_not() {
    assert_eq!(import_verdict(false, true, 3), Verdict::Done);
    assert_eq!(import_verdict(false, false, 3), Verdict::Failed);
    assert_eq!(import_verdict(true, false, 3), Verdict::Done);
    assert_eq!(import_verdict(false, true, 0), Verdict::Empty);
    assert!(keep_decoding(3, 4, true));
    assert!(!keep_decoding(4, 4, true));
    assert!(!keep_decoding(3, 4, false));
}

#[test]
fn the_long_edge_is_capped_whichever_it_is() {
    let (plan, _) = plan_for(&clip(1080, 1920, 30.0, Some(5.0)), &OPTIONS);
    assert_eq!((plan.width, plan.height), (720, 1280));
    let (plan, _) = plan_for(&clip(1920, 1080, 30.0, Some(5.0)), &OPTIONS);
    assert_eq!((plan.width, plan.height), (1280, 720));
    assert_eq!(import_size((1280, 1280), None, Some(1280), 7), (1280, 1280));
    assert_eq!(import_size((1300, 1300), None, Some(1280), 1280), (1280, 1280));
    assert_eq!(import_size((1081, 1921), None, None, 7), (1081, 1921));
}
