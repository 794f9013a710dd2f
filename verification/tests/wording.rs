//! The window's sentences.

use gifkino::i18n::{parse_po, Catalog};
use gifkino::import::{import_cap, import_size, ImportPlan};
use gifkino::keymap::Keymap;
use gifkino::msg::ScopeChoice;
use gifkino::screen::{expander_label, BandRows};
use gifkino::wording::{
    clock, copied_message, doc_info, export_message, export_name, file_length, frame_scope_summary,
    grip_hint, move_hint, oversize_body, plan_summary, progress_text, range_label, size, size_unit,
    timecode, SizeUnit,
};
use gifkino::work::BusyKind;

fn sized(catalog: &Catalog, bytes: u64) -> String {
    let unit = size_unit(bytes);
    let number = match unit {
        SizeUnit::Gigabytes => format!("{:.1}", bytes as f64 / (1u64 << 30) as f64),
        SizeUnit::Megabytes => format!("{:.0}", bytes as f64 / (1u64 << 20) as f64),
        SizeUnit::Kilobytes => format!("{:.0}", bytes as f64 / 1024.0),
    };
    size(catalog, unit, &number)
}

#[test]
fn frame_scope_summary_names_the_range_or_the_numbers() {
    let c = Catalog::new();
    assert_eq!(
        frame_scope_summary(&c, ScopeChoice::ThisFrame, &vec![3]),
        "Frame",
        "a single frame in scope reads as the plain frame view"
    );
    assert_eq!(
        frame_scope_summary(&c, ScopeChoice::Range, &Vec::new()),
        "Frame",
        "an empty scope falls back the same way"
    );
    assert_eq!(
        frame_scope_summary(&c, ScopeChoice::AllFrames, &(0..12).collect()),
        "All 12 frames selected"
    );
    assert_eq!(
        frame_scope_summary(&c, ScopeChoice::Range, &vec![2, 3, 4, 5]),
        "Frames 3–6 selected",
        "a contiguous run reads as a range, 1-based and inclusive"
    );
    assert_eq!(
        frame_scope_summary(&c, ScopeChoice::Range, &vec![1, 4, 7]),
        "Frames 2, 5, 8 selected",
        "a gappy pick small enough to read spells out the numbers"
    );
    assert_eq!(
        frame_scope_summary(&c, ScopeChoice::Range, &(0..20).step_by(2).collect()),
        "10 frames selected",
        "too many gappy picks to list falls back to a count"
    );
}

const BUDGET: u64 = 1_200 << 20;

/// What an import at a target size makes of a 90 s clip at 60 frames a second,
/// and the rate it ends up at.
fn planned(target: (u32, u32), asked: Option<f64>) -> (ImportPlan, f64) {
    let (width, height) = import_size((1920, 1080), Some(target), Some(1280), 720);
    let cap = import_cap(width, height, 2000, BUDGET);
    let fps = match asked {
        Some(fps) => fps,
        None => 60.0f64.min((cap as f64 / 90.0).max(2.0)),
    }
    .max(1.0);
    let expected = Some((90.0 * fps).round().max(1.0) as u64);
    (
        ImportPlan {
            width,
            height,
            expected,
            cap,
        },
        fps,
    )
}

/// A 90 s clip at 60 frames a second, thinned to fit.
fn plan_1080p60() -> ImportPlan {
    ImportPlan {
        width: 1280,
        height: 720,
        expected: Some(341),
        cap: 341,
    }
}

fn summary(plan: &ImportPlan, fps: f64, source: f64, measured: Option<u64>) -> String {
    let c = Catalog::new();
    let thinned = fps < source - 0.01;
    let shown = format!("{:.0}", if thinned { fps.max(1.0) } else { fps });
    let from = format!("{source:.0}");
    let memory = plan.bytes().map(|b| sized(&c, b));
    let measured = measured.map(|b| sized(&c, b));
    plan_summary(
        &c,
        plan,
        &shown,
        if thinned { Some(&from) } else { None },
        memory.as_deref(),
        measured.as_deref(),
    )
}

#[test]
fn the_warning_says_what_the_file_is() {
    let c = Catalog::new();
    let length = file_length(&c, Some(90));
    let body = oversize_body(&c, "lecture.mp4", &length, 1920, 1080, "60");
    for want in [
        "lecture.mp4",
        "runs 1:30",
        "1920×1080",
        "60 fps",
        "trim or crop",
    ] {
        assert!(body.contains(want), "missing {want:?} in:\n{body}");
    }
}

#[test]
fn a_file_with_no_duration_still_reads_as_a_sentence() {
    let c = Catalog::new();
    let plan = ImportPlan {
        width: 800,
        height: 600,
        expected: None,
        cap: 2000,
    };
    let length = file_length(&c, None);
    assert!(oversize_body(&c, "stream.mkv", &length, 800, 600, "30").contains("no duration"));
    let summary = summary(&plan, 30.0, 30.0, None);
    assert!(summary.contains("no duration"), "{summary}");
    assert!(!summary.contains("memory"), "no invented size: {summary}");
}

#[test]
fn the_preview_tracks_the_chosen_resolution() {
    let (big, big_fps) = planned((1280, 720), None);
    let (small, small_fps) = planned((640, 360), None);
    assert!(big.bytes().unwrap() <= BUDGET && small.bytes().unwrap() <= BUDGET);
    // The budget is a ceiling, not a target: a smaller frame spends the
    // same memory on more frames rather than banking the difference.
    assert!(small_fps > big_fps, "{small_fps} vs {big_fps}");
    assert!(small.frames() > big.frames());

    let summary = summary(&big, big_fps, 60.0, None);
    assert!(summary.contains("frames at"), "{summary}");
    assert!(summary.contains("in memory"), "{summary}");
    assert!(summary.contains("measuring the GIF size"), "{summary}");
    assert!(
        summary.contains("down from 60"),
        "says what it gave up: {summary}"
    );
    assert_eq!(
        summary,
        "341 frames at 4 fps, down from 60 · 1.2 GB in memory · measuring the GIF size…"
    );
}

#[test]
fn an_over_budget_rate_is_refused_rather_than_trimmed() {
    let (plan, fps) = planned((1280, 720), Some(30.0));
    assert_eq!(fps, 30.0, "the rate the user asked for");
    assert!(plan.over_budget());
    assert_eq!(
        plan.frames(),
        Some(2700),
        "the whole clip, not a capped count"
    );

    let summary = summary(&plan, fps, 60.0, None);
    assert!(
        summary.contains("more memory than an import may use"),
        "{summary}"
    );
    assert!(
        summary.contains("smaller size or a lower frame rate"),
        "{summary}"
    );
    assert!(
        !summary.contains("dropped"),
        "nothing is dropped: {summary}"
    );
    assert!(
        !summary.contains("measuring"),
        "not measured either: {summary}"
    );
}

#[test]
fn a_size_is_shown_only_once_it_has_been_measured() {
    let plan = plan_1080p60();
    let pending = summary(&plan, 3.79, 60.0, None);
    assert!(pending.contains("measuring"), "{pending}");
    assert!(!pending.contains("roughly"), "no guess: {pending}");
    assert!(!pending.contains('–'), "no range: {pending}");

    let measured = summary(&plan, 3.79, 60.0, Some(7_340_032));
    assert!(measured.contains("7 MB as a GIF"), "{measured}");
    assert!(!measured.contains("measuring"), "{measured}");
}

#[test]
fn times_are_padded_where_they_are_read_as_columns() {
    assert_eq!(timecode(0), "00:00.0");
    assert_eq!(timecode(6159), "01:01.5");
    assert_eq!(timecode(600_000), "100:00.0");
    assert_eq!(clock(90), "1:30");
    assert_eq!(clock(5), "0:05");
}

#[test]
fn the_bar_says_how_far_it_is() {
    let c = Catalog::new();
    assert_eq!(
        progress_text(&c, BusyKind::Resize, 3, Some(8)),
        "Resizing… 3 / 8 frames"
    );
    assert_eq!(
        progress_text(&c, BusyKind::Import, 3, None),
        "Importing… 3 frames"
    );
    assert_eq!(
        progress_text(&c, BusyKind::Import, 3, Some(0)),
        "Importing… 3 frames"
    );
    assert_eq!(
        progress_text(&c, BusyKind::Shrink, 1, Some(1)),
        "Cropping this frame…"
    );
}

#[test]
fn the_hints_name_the_keys() {
    let c = Catalog::new();
    let keys = Keymap::default();
    assert_eq!(move_hint(&c, &keys), "Drag to move\nAlt+drag: rotate");
    assert_eq!(
        grip_hint(&c, &keys),
        "Drag to resize\nShift: keep the aspect ratio\nCtrl+drag: resize from the center\nAlt+drag: rotate"
    );
}

#[test]
fn the_documents_line_says_how_fresh_its_size_is() {
    let c = Catalog::new();
    assert_eq!(
        doc_info(&c, 8, 6, 2, 1, None, 3),
        "8 × 6 · 2 frames · 1 overlays\nsizing…"
    );
    assert_eq!(
        doc_info(&c, 8, 6, 2, 1, Some((3, "1 KB".into())), 3),
        "8 × 6 · 2 frames · 1 overlays\n≈ 1 KB as a GIF"
    );
    assert_eq!(
        doc_info(&c, 8, 6, 2, 1, Some((2, "1 KB".into())), 3),
        "8 × 6 · 2 frames · 1 overlays\n≈ 1 KB as a GIF (updating…)"
    );
    assert_eq!(
        doc_info(&c, 0, 0, 0, 0, None, 0),
        "0 × 0 · 0 frames · 0 overlays"
    );
}

#[test]
fn picked_frames_are_named_by_their_run_or_their_number() {
    let c = Catalog::new();
    assert_eq!(range_label(&c, &vec![1, 2, 3]).as_deref(), Some("Range 2–4"));
    assert_eq!(range_label(&c, &vec![1, 3]).as_deref(), Some("2 frames"));
    assert_eq!(range_label(&c, &Vec::new()), None);
    assert_eq!(copied_message(&c, 1), "1 frame copied");
    assert_eq!(copied_message(&c, 4), "4 frames copied");
    let rows = BandRows {
        used: 7,
        shown: 5,
        hidden: 2,
    };
    assert_eq!(expander_label(&c, false, rows), "▸ 2 more overlay rows");
    assert_eq!(expander_label(&c, true, rows), "▾ 7 overlay rows");
}

#[test]
fn sentences_are_translated_whole() {
    let german = parse_po("msgid \"Exported to {path} · {size} KB\"\nmsgstr \"{size} KB in {path}\"\n");
    assert_eq!(export_message(&german, "/a.gif", "12"), "12 KB in /a.gif");
    assert_eq!(export_name(Some("clip")), "clip.gif");
    assert_eq!(export_name(None), "export.gif");
    let c = Catalog::new();
    assert_eq!(sized(&c, 3 << 30), "3.0 GB");
    assert_eq!(sized(&c, 2048), "2 KB");
}
