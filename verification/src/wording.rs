//! The window's sentences, built from the catalog.

use vstd::prelude::*;

use crate::actions::Modal;
use crate::i18n::{fill, filled, pair_views, t, tn, translated, Catalog};
use crate::import::ImportPlan;
use crate::keymap::Keymap;
use crate::msg::ScopeChoice;
use crate::text::{chars_of, decimal, decimal_of, extend, text_of};
use crate::work::BusyKind;

verus! {

/// A number in decimal digits.
pub fn number_text(n: u64) -> (r: String)
    ensures
        r@ == decimal(n as nat),
{
    text_of(&decimal_of(n))
}

/// Two texts, one behind the other.
pub fn together(a: &str, b: &str) -> (r: String)
    ensures
        r@ == a@ + b@,
{
    let mut out = chars_of(a);
    extend(&mut out, &chars_of(b));
    text_of(&out)
}

/// A translated template with one value put in.
pub fn fill_one(catalog: &Catalog, template: &str, name: &str, value: &str) -> (r: String)
    requires
        catalog.wf(),
    ensures
        r@ == filled(translated(catalog@, template@), seq![(name@, value@)]),
{
    let values = [(name, value)];
    assert(pair_views(values@) =~= seq![(name@, value@)]);
    fill(t(catalog, template).as_str(), &values)
}

/// A translated template with two values put in, the first one first.
pub fn fill_two(
    catalog: &Catalog,
    template: &str,
    first: (&str, &str),
    second: (&str, &str),
) -> (r: String)
    requires
        catalog.wf(),
    ensures
        r@ == filled(
            translated(catalog@, template@),
            seq![(first.0@, first.1@), (second.0@, second.1@)],
        ),
{
    let values = [first, second];
    assert(pair_views(values@) =~= seq![(first.0@, first.1@), (second.0@, second.1@)]);
    fill(t(catalog, template).as_str(), &values)
}

/// A translated template with three values put in, the first one first.
pub fn fill_three(
    catalog: &Catalog,
    template: &str,
    first: (&str, &str),
    second: (&str, &str),
    third: (&str, &str),
) -> (r: String)
    requires
        catalog.wf(),
    ensures
        r@ == filled(
            translated(catalog@, template@),
            seq![(first.0@, first.1@), (second.0@, second.1@), (third.0@, third.1@)],
        ),
{
    let values = [first, second, third];
    assert(pair_views(values@) =~= seq![
        (first.0@, first.1@),
        (second.0@, second.1@),
        (third.0@, third.1@),
    ]);
    fill(t(catalog, template).as_str(), &values)
}

/// One sentence or another by the count, with the count put in.
pub open spec fn counted_text(
    catalog: Map<Seq<char>, Seq<char>>,
    one: Seq<char>,
    many: Seq<char>,
    n: nat,
) -> Seq<char> {
    filled(
        translated(
            catalog,
            if n == 1 {
                one
            } else {
                many
            },
        ),
        seq![("count"@, decimal(n))],
    )
}

pub fn counted(catalog: &Catalog, one: &str, many: &str, n: usize) -> (r: String)
    requires
        catalog.wf(),
    ensures
        r@ == counted_text(catalog@, one@, many@, n as nat),
{
    let count = number_text(n as u64);
    let values = [("count", count.as_str())];
    assert(pair_views(values@) =~= seq![("count"@, count@)]);
    fill(tn(catalog, one, many, n).as_str(), &values)
}

/// A number of two digits at least.
pub open spec fn two_digits(n: nat) -> Seq<char> {
    if n < 10 {
        seq!['0'] + decimal(n)
    } else {
        decimal(n)
    }
}

fn two_digits_of(n: u64) -> (r: Vec<char>)
    ensures
        r@ == two_digits(n as nat),
{
    let mut r: Vec<char> = Vec::new();
    if n < 10 {
        r.push('0');
    }
    let digits = decimal_of(n);
    extend(&mut r, &digits);
    assert(r@ =~= two_digits(n as nat));
    r
}

/// Hundredths of a second as minutes, seconds and tenths.
pub open spec fn timecode_text(cs: nat) -> Seq<char> {
    two_digits(cs / 6000) + seq![':'] + two_digits((cs / 100) % 60) + seq!['.'] + decimal(
        (cs % 100) / 10,
    )
}

pub fn timecode(cs: u32) -> (r: String)
    ensures
        r@ == timecode_text(cs as nat),
{
    let mut out = two_digits_of((cs / 6000) as u64);
    out.push(':');
    extend(&mut out, &two_digits_of(((cs / 100) % 60) as u64));
    out.push('.');
    extend(&mut out, &decimal_of(((cs % 100) / 10) as u64));
    assert(out@ =~= timecode_text(cs as nat));
    text_of(&out)
}

/// Whole seconds as minutes and seconds.
pub open spec fn clock_text(seconds: nat) -> Seq<char> {
    decimal(seconds / 60) + seq![':'] + two_digits(seconds % 60)
}

pub fn clock(seconds: u64) -> (r: String)
    ensures
        r@ == clock_text(seconds as nat),
{
    let mut out = decimal_of(seconds / 60);
    out.push(':');
    extend(&mut out, &two_digits_of(seconds % 60));
    assert(out@ =~= clock_text(seconds as nat));
    text_of(&out)
}

/// What a number of bytes is told in.
#[derive(Clone, Copy, PartialEq, Eq, Debug, Structural)]
pub enum SizeUnit {
    Gigabytes,
    Megabytes,
    Kilobytes,
}

/// The largest unit there is one of at least; kilobytes for what is less than
/// a megabyte.
pub fn size_unit(bytes: u64) -> (r: SizeUnit)
    ensures
        r == if bytes >= 0x4000_0000 {
            SizeUnit::Gigabytes
        } else if bytes >= 0x10_0000 {
            SizeUnit::Megabytes
        } else {
            SizeUnit::Kilobytes
        },
{
    if bytes >= 0x4000_0000 {
        SizeUnit::Gigabytes
    } else if bytes >= 0x10_0000 {
        SizeUnit::Megabytes
    } else {
        SizeUnit::Kilobytes
    }
}

/// A size: the number of units, already in digits, and the unit.
pub fn size(catalog: &Catalog, unit: SizeUnit, number: &str) -> (r: String)
    requires
        catalog.wf(),
    ensures
        r@ == filled(
            translated(
                catalog@,
                match unit {
                    SizeUnit::Gigabytes => "{n} GB"@,
                    SizeUnit::Megabytes => "{n} MB"@,
                    SizeUnit::Kilobytes => "{n} KB"@,
                },
            ),
            seq![("n"@, number@)],
        ),
{
    match unit {
        SizeUnit::Gigabytes => fill_one(catalog, "{n} GB", "n", number),
        SizeUnit::Megabytes => fill_one(catalog, "{n} MB", "n", number),
        SizeUnit::Kilobytes => fill_one(catalog, "{n} KB", "n", number),
    }
}

/// The frames' numbers, counted from one, with commas between them.
pub open spec fn listed_numbers(frames: Seq<usize>) -> Seq<char>
    decreases frames.len(),
{
    if frames.len() == 0 {
        seq![]
    } else if frames.len() == 1 {
        decimal((frames[0] + 1) as nat)
    } else {
        listed_numbers(frames.drop_last()) + ", "@ + decimal((frames.last() + 1) as nat)
    }
}

fn list_numbers(frames: &Vec<usize>) -> (r: Vec<char>)
    requires
        forall|k: int| 0 <= k < frames@.len() ==> #[trigger] frames@[k] < usize::MAX,
    ensures
        r@ == listed_numbers(frames@),
{
    let mut r: Vec<char> = Vec::new();
    let mut i: usize = 0;
    while i < frames.len()
        invariant
            i <= frames@.len(),
            forall|k: int| 0 <= k < frames@.len() ==> #[trigger] frames@[k] < usize::MAX,
            r@ == listed_numbers(frames@.take(i as int)),
        decreases frames@.len() - i,
    {
        let ghost before = r@;
        assert(frames@.take(i + 1).drop_last() =~= frames@.take(i as int));
        if i > 0 {
            extend(&mut r, &chars_of(", "));
        }
        let at: usize = frames[i];
        extend(&mut r, &decimal_of(at as u64 + 1));
        i = i + 1;
        assert(r@ =~= listed_numbers(frames@.take(i as int)));
    }
    assert(frames@.take(i as int) =~= frames@);
    r
}

/// Whether ascending frames form a run.
pub open spec fn contiguous(frames: Seq<usize>) -> bool {
    frames.last() - frames[0] + 1 == frames.len()
}

/// See `frame_scope_summary`.
pub open spec fn scope_summary(
    catalog: Map<Seq<char>, Seq<char>>,
    scope: ScopeChoice,
    in_scope: Seq<usize>,
) -> Seq<char> {
    if in_scope.len() <= 1 {
        translated(catalog, "Frame"@)
    } else if scope == ScopeChoice::AllFrames {
        filled(
            translated(catalog, "All {count} frames selected"@),
            seq![("count"@, decimal(in_scope.len()))],
        )
    } else if contiguous(in_scope) {
        filled(
            translated(catalog, "Frames {first}–{last} selected"@),
            seq![
                ("first"@, decimal((in_scope[0] + 1) as nat)),
                ("last"@, decimal((in_scope.last() + 1) as nat)),
            ],
        )
    } else if in_scope.len() <= 8 {
        filled(
            translated(catalog, "Frames {numbers} selected"@),
            seq![("numbers"@, listed_numbers(in_scope))],
        )
    } else {
        counted_text(
            catalog,
            "{count} frame selected"@,
            "{count} frames selected"@,
            in_scope.len(),
        )
    }
}

/// The sidebar heading for the frame view: "Frame" for a single frame in
/// scope (or none), or a summary of which frames are once the scope names
/// more than one — the panel this titles trades per-frame overlay editing
/// for a scoped delay edit once that happens. `in_scope` is sorted,
/// deduplicated, already clamped to the document.
pub fn frame_scope_summary(catalog: &Catalog, scope: ScopeChoice, in_scope: &Vec<usize>) -> (r:
    String)
    requires
        catalog.wf(),
        forall|k: int| 0 <= k < in_scope@.len() ==> #[trigger] in_scope@[k] < usize::MAX,
        crate::selection::rising(in_scope@),
    ensures
        r@ == scope_summary(catalog@, scope, in_scope@),
{
    if in_scope.len() <= 1 {
        return t(catalog, "Frame");
    }
    if scope == ScopeChoice::AllFrames {
        let count = number_text(in_scope.len() as u64);
        return fill_one(catalog, "All {count} frames selected", "count", count.as_str());
    }
    let first: usize = in_scope[0];
    let last: usize = in_scope[in_scope.len() - 1];
    assert(in_scope@[0] < in_scope@[in_scope@.len() - 1] < usize::MAX);
    if last - first + 1 == in_scope.len() {
        let from = number_text(first as u64 + 1);
        let to = number_text(last as u64 + 1);
        return fill_two(
            catalog,
            "Frames {first}–{last} selected",
            ("first", from.as_str()),
            ("last", to.as_str()),
        );
    }
    if in_scope.len() <= 8 {
        let numbers = text_of(&list_numbers(in_scope));
        return fill_one(catalog, "Frames {numbers} selected", "numbers", numbers.as_str());
    }
    counted(catalog, "{count} frame selected", "{count} frames selected", in_scope.len())
}

/// What the button for the picked frames says.
pub open spec fn range_text(catalog: Map<Seq<char>, Seq<char>>, picked: Seq<usize>) -> Seq<char> {
    if contiguous(picked) {
        filled(
            translated(catalog, "Range {first}–{last}"@),
            seq![
                ("first"@, decimal((picked[0] + 1) as nat)),
                ("last"@, decimal((picked.last() + 1) as nat)),
            ],
        )
    } else {
        counted_text(catalog, "{count} frame"@, "{count} frames"@, picked.len())
    }
}

/// What the scope button for the picked frames says: the run they form, or how
/// many they are. Frame numbers are 1-based and inclusive.
pub fn range_label(catalog: &Catalog, picked: &Vec<usize>) -> (r: Option<String>)
    requires
        catalog.wf(),
        forall|k: int| 0 <= k < picked@.len() ==> #[trigger] picked@[k] < usize::MAX,
        crate::selection::rising(picked@),
    ensures
        match r {
            Some(text) => picked@.len() > 0 && text@ == range_text(catalog@, picked@),
            None => picked@.len() == 0,
        },
{
    if picked.len() == 0 {
        return None;
    }
    let first: usize = picked[0];
    let last: usize = picked[picked.len() - 1];
    assert(first <= last < usize::MAX) by {
        if picked@.len() > 1 {
            assert(picked@[0] < picked@[picked@.len() - 1]);
        }
    }
    if last - first + 1 == picked.len() {
        let from = number_text(first as u64 + 1);
        let to = number_text(last as u64 + 1);
        Some(
            fill_two(
                catalog,
                "Range {first}–{last}",
                ("first", from.as_str()),
                ("last", to.as_str()),
            ),
        )
    } else {
        Some(counted(catalog, "{count} frame", "{count} frames", picked.len()))
    }
}

/// The template the progress bar fills for a job that can be counted.
pub open spec fn progress_template(kind: BusyKind) -> Seq<char> {
    match kind {
        BusyKind::Import => "Importing… {done} / {total} frames"@,
        BusyKind::Resize => "Resizing… {done} / {total} frames"@,
        BusyKind::Zoom => "Zooming… {done} / {total} frames"@,
        BusyKind::Shrink => "Cropping this frame…"@,
        BusyKind::Crop => "Cropping… {done} / {total} frames"@,
    }
}

/// What the progress bar says. Only the import can lack a total: a container
/// with no duration has nothing to be a fraction of. The frame works always
/// know theirs.
pub fn progress_text(catalog: &Catalog, kind: BusyKind, done: usize, total: Option<usize>) -> (r:
    String)
    requires
        catalog.wf(),
    ensures
        r@ == match total {
            Some(n) if n > 0 => filled(
                translated(catalog@, progress_template(kind)),
                seq![("done"@, decimal(done as nat)), ("total"@, decimal(n as nat))],
            ),
            _ => filled(
                translated(catalog@, "Importing… {done} frames"@),
                seq![("done"@, decimal(done as nat))],
            ),
        },
{
    let so_far = number_text(done as u64);
    match total {
        Some(n) if n > 0 => {
            let all = number_text(n as u64);
            let template: &'static str = match kind {
                BusyKind::Import => "Importing… {done} / {total} frames",
                BusyKind::Resize => "Resizing… {done} / {total} frames",
                BusyKind::Zoom => "Zooming… {done} / {total} frames",
                BusyKind::Shrink => "Cropping this frame…",
                BusyKind::Crop => "Cropping… {done} / {total} frames",
            };
            fill_two(catalog, template, ("done", so_far.as_str()), ("total", all.as_str()))
        },
        _ => fill_one(catalog, "Importing… {done} frames", "done", so_far.as_str()),
    }
}

/// The canvas hint over an overlay's resize grip, built from the keymap rather
/// than typed, so a rebind moves it.
pub fn grip_hint(catalog: &Catalog, keys: &Keymap) -> (r: String)
    requires
        catalog.wf(),
        keys@.wf(),
    ensures
        r@ == filled(
            translated(
                catalog@,
                "Drag to resize\n{aspect}: keep the aspect ratio\n{center}+drag: resize from the center\n{rotate}+drag: rotate"@,
            ),
            seq![
                ("aspect"@, keys@.modals[Modal::KeepAspect.rank()].shown()),
                ("center"@, keys@.modals[Modal::FromCenter.rank()].shown()),
                ("rotate"@, keys@.modals[Modal::Rotate.rank()].shown()),
            ],
        ),
{
    let aspect = keys.mods(Modal::KeepAspect).display();
    let center = keys.mods(Modal::FromCenter).display();
    let rotate = keys.mods(Modal::Rotate).display();
    fill_three(
        catalog,
        "Drag to resize\n{aspect}: keep the aspect ratio\n{center}+drag: resize from the center\n{rotate}+drag: rotate",
        ("aspect", aspect.as_str()),
        ("center", center.as_str()),
        ("rotate", rotate.as_str()),
    )
}

/// The body of an overlay, where a drag moves it and the corners are elsewhere.
pub fn move_hint(catalog: &Catalog, keys: &Keymap) -> (r: String)
    requires
        catalog.wf(),
        keys@.wf(),
    ensures
        r@ == filled(
            translated(catalog@, "Drag to move\n{rotate}+drag: rotate"@),
            seq![("rotate"@, keys@.modals[Modal::Rotate.rank()].shown())],
        ),
{
    let rotate = keys.mods(Modal::Rotate).display();
    fill_one(catalog, "Drag to move\n{rotate}+drag: rotate", "rotate", rotate.as_str())
}

/// The export size as the document's line tells it: none, one that is being
/// measured, one that describes an older revision, or the current one.
pub open spec fn estimate_text(
    catalog: Map<Seq<char>, Seq<char>>,
    estimate: Option<(u64, Seq<char>)>,
    rev: u64,
    count: nat,
) -> Seq<char> {
    match estimate {
        Some((measured, size)) => "\n"@ + filled(
            translated(
                catalog,
                if measured == rev {
                    "≈ {size} as a GIF"@
                } else {
                    "≈ {size} as a GIF (updating…)"@
                },
            ),
            seq![("size"@, size)],
        ),
        None => if count > 0 {
            "\n"@ + translated(catalog, "sizing…"@)
        } else {
            seq![]
        },
    }
}

/// The line under the document: its size, its frames and overlays, and what it
/// would weigh as a GIF. `size` is the measured size, already worded.
pub fn doc_info(
    catalog: &Catalog,
    width: u32,
    height: u32,
    frames: usize,
    overlays: usize,
    estimate: Option<(u64, String)>,
    rev: u64,
) -> (r: String)
    requires
        catalog.wf(),
    ensures
        r@ == filled(
            translated(
                catalog@,
                "{width} × {height} · {frames} frames · {overlays} overlays"@,
            ),
            seq![
                ("width"@, decimal(width as nat)),
                ("height"@, decimal(height as nat)),
                ("frames"@, decimal(frames as nat)),
                ("overlays"@, decimal(overlays as nat)),
            ],
        ) + estimate_text(
            catalog@,
            match estimate {
                Some((rev, size)) => Some((rev, size@)),
                None => None,
            },
            rev,
            frames as nat,
        ),
{
    let w = number_text(width as u64);
    let h = number_text(height as u64);
    let n = number_text(frames as u64);
    let o = number_text(overlays as u64);
    let values = [
        ("width", w.as_str()),
        ("height", h.as_str()),
        ("frames", n.as_str()),
        ("overlays", o.as_str()),
    ];
    assert(pair_views(values@) =~= seq![
        ("width"@, w@),
        ("height"@, h@),
        ("frames"@, n@),
        ("overlays"@, o@),
    ]);
    let head = fill(
        t(catalog, "{width} × {height} · {frames} frames · {overlays} overlays").as_str(),
        &values,
    );
    let tail = match estimate {
        Some((measured, size)) => {
            let told = if measured == rev {
                fill_one(catalog, "≈ {size} as a GIF", "size", size.as_str())
            } else {
                fill_one(catalog, "≈ {size} as a GIF (updating…)", "size", size.as_str())
            };
            together("\n", told.as_str())
        },
        None => if frames > 0 {
            together("\n", t(catalog, "sizing…").as_str())
        } else {
            String::new()
        },
    };
    together(head.as_str(), tail.as_str())
}

/// The import dialog's opening lines: what the file is, and why it cannot come
/// in as it stands. The numbers for a given choice live in the live summary
/// instead. Markup, so the filename stands out from the numbers around it:
/// `name` and `length` come escaped. `length` is what `file_length` says.
pub fn oversize_body(
    catalog: &Catalog,
    name: &str,
    length: &str,
    width: u32,
    height: u32,
    fps: &str,
) -> (r: String)
    requires
        catalog.wf(),
    ensures
        r@ == filled(
            translated(
                catalog@,
                "<b>{name}</b> {length} at {width}×{height}, {fps} fps — more than will fit in memory at full size."@,
            ),
            seq![
                ("name"@, name@),
                ("length"@, length@),
                ("width"@, decimal(width as nat)),
                ("height"@, decimal(height as nat)),
                ("fps"@, fps@),
            ],
        ) + "\n\n"@ + translated(
            catalog@,
            "Pick a smaller size below, or cancel and trim or crop the file first, which gives a better GIF and a much faster import."@,
        ),
{
    let w = number_text(width as u64);
    let h = number_text(height as u64);
    let values = [
        ("name", name),
        ("length", length),
        ("width", w.as_str()),
        ("height", h.as_str()),
        ("fps", fps),
    ];
    assert(pair_views(values@) =~= seq![
        ("name"@, name@),
        ("length"@, length@),
        ("width"@, w@),
        ("height"@, h@),
        ("fps"@, fps@),
    ]);
    let opening = fill(
        t(
            catalog,
            "<b>{name}</b> {length} at {width}×{height}, {fps} fps — more than will fit in memory at full size.",
        ).as_str(),
        &values,
    );
    let advice = t(
        catalog,
        "Pick a smaller size below, or cancel and trim or crop the file first, which gives a better GIF and a much faster import.",
    );
    together(together(opening.as_str(), "\n\n").as_str(), advice.as_str())
}

/// How long the file is, in a phrase.
pub fn file_length(catalog: &Catalog, seconds: Option<u64>) -> (r: String)
    requires
        catalog.wf(),
    ensures
        r@ == match seconds {
            Some(s) => filled(
                translated(catalog@, "runs {duration}"@),
                seq![("duration"@, clock_text(s as nat))],
            ),
            None => translated(catalog@, "has no duration the container will admit to"@),
        },
{
    match seconds {
        Some(s) => fill_one(catalog, "runs {duration}", "duration", clock(s).as_str()),
        None => t(catalog, "has no duration the container will admit to"),
    }
}

/// A frame rate in a phrase: `source` is the file's own rate where it is
/// thinned.
pub open spec fn rate_text(
    catalog: Map<Seq<char>, Seq<char>>,
    fps: Seq<char>,
    source: Option<Seq<char>>,
) -> Seq<char> {
    match source {
        Some(source) => filled(
            translated(catalog, "{fps} fps, down from {source}"@),
            seq![("fps"@, fps), ("source"@, source)],
        ),
        None => filled(translated(catalog, "{fps} fps"@), seq![("fps"@, fps)]),
    }
}

fn rate_phrase(catalog: &Catalog, fps: &str, source: Option<&str>) -> (r: String)
    requires
        catalog.wf(),
    ensures
        r@ == rate_text(
            catalog@,
            fps@,
            match source {
                Some(s) => Some(s@),
                None => None,
            },
        ),
{
    match source {
        Some(source) => fill_two(
            catalog,
            "{fps} fps, down from {source}",
            ("fps", fps),
            ("source", source),
        ),
        None => fill_one(catalog, "{fps} fps", "fps", fps),
    }
}

/// See `plan_summary`.
pub open spec fn plan_text(
    catalog: Map<Seq<char>, Seq<char>>,
    plan: ImportPlan,
    rate: Seq<char>,
    memory: Option<Seq<char>>,
    measured: Option<Seq<char>>,
) -> Seq<char> {
    match plan.expected {
        None => filled(
            translated(
                catalog,
                "{rate}. The container gives no duration, so there is no count to preview."@,
            ),
            seq![("rate"@, rate)],
        ),
        Some(frames) => {
            let head = filled(
                translated(catalog, "{frames} frames at {rate}"@),
                seq![("frames"@, decimal(frames as nat)), ("rate"@, rate)],
            );
            let room = match memory {
                Some(size) => " · "@ + filled(
                    translated(catalog, "{size} in memory"@),
                    seq![("size"@, size)],
                ),
                None => seq![],
            };
            if frames > plan.cap {
                head + room + "\n"@ + translated(
                    catalog,
                    "That is more memory than an import may use. Choose a smaller size or a lower frame rate."@,
                )
            } else {
                head + room + (" · "@ + match measured {
                    Some(size) => filled(
                        translated(catalog, "{size} as a GIF"@),
                        seq![("size"@, size)],
                    ),
                    None => translated(catalog, "measuring the GIF size…"@),
                })
            }
        },
    }
}

/// What a text holds, where there is one.
pub open spec fn text_view(text: Option<&str>) -> Option<Seq<char>> {
    match text {
        Some(s) => Some(s@),
        None => None,
    }
}

/// The live preview under the picker. `source` is the file's own frame rate
/// where the plan thins it; `memory` and `measured` are sizes, already worded.
pub fn plan_summary(
    catalog: &Catalog,
    plan: &ImportPlan,
    fps: &str,
    source: Option<&str>,
    memory: Option<&str>,
    measured: Option<&str>,
) -> (r: String)
    requires
        catalog.wf(),
    ensures
        r@ == plan_text(
            catalog@,
            *plan,
            rate_text(catalog@, fps@, text_view(source)),
            text_view(memory),
            text_view(measured),
        ),
{
    let rate = rate_phrase(catalog, fps, source);
    let frames = match plan.frames() {
        Some(frames) => frames,
        None => {
            return fill_one(
                catalog,
                "{rate}. The container gives no duration, so there is no count to preview.",
                "rate",
                rate.as_str(),
            );
        },
    };
    let count = number_text(frames);
    let head = fill_two(
        catalog,
        "{frames} frames at {rate}",
        ("frames", count.as_str()),
        ("rate", rate.as_str()),
    );
    let room = match memory {
        Some(size) => together(" · ", fill_one(catalog, "{size} in memory", "size", size).as_str()),
        None => String::new(),
    };
    let opening = together(head.as_str(), room.as_str());
    if plan.over_budget() {
        let refusal = t(
            catalog,
            "That is more memory than an import may use. Choose a smaller size or a lower frame rate.",
        );
        return together(together(opening.as_str(), "\n").as_str(), refusal.as_str());
    }
    let told = match measured {
        Some(size) => fill_one(catalog, "{size} as a GIF", "size", size),
        None => t(catalog, "measuring the GIF size…"),
    };
    together(opening.as_str(), together(" · ", told.as_str()).as_str())
}

/// The name an export is offered under: the open file's, with the extension of
/// a GIF.
pub fn export_name(stem: Option<&str>) -> (r: String)
    ensures
        r@ == match stem {
            Some(stem) => stem@ + ".gif"@,
            None => "export.gif"@,
        },
{
    match stem {
        Some(stem) => together(stem, ".gif"),
        None => "export.gif".to_owned(),
    }
}

/// What an export that went well says: `kilobytes` is its size in digits.
pub fn export_message(catalog: &Catalog, path: &str, kilobytes: &str) -> (r: String)
    requires
        catalog.wf(),
    ensures
        r@ == filled(
            translated(catalog@, "Exported to {path} · {size} KB"@),
            seq![("path"@, path@), ("size"@, kilobytes@)],
        ),
{
    fill_two(
        catalog,
        "Exported to {path} · {size} KB",
        ("path", path),
        ("size", kilobytes),
    )
}

/// What the copy of so many frames says.
pub fn copied_message(catalog: &Catalog, copied: usize) -> (r: String)
    requires
        catalog.wf(),
    ensures
        r@ == counted_text(
            catalog@,
            "{count} frame copied"@,
            "{count} frames copied"@,
            copied as nat,
        ),
{
    counted(catalog, "{count} frame copied", "{count} frames copied", copied)
}

} // verus!
