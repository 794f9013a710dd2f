//! How much moves from one frame to the next, and thinning what does not.

use vstd::prelude::*;
use vstd::relations::injective_on;
use vstd::set_lib::{
    lemma_int_range, lemma_len_subset, lemma_map_size, lemma_subset_equality, set_int_range,
};

use crate::document::{total_delay, DocView, Document};
use crate::model::FrameView;
use crate::raster::{Picture, Raster};
use crate::retain::{count_kept, kept_before, lemma_count_kept, lemma_retained_len};
use crate::retain_laws::{
    delays_fit, law_retain_preserves_duration, law_survivors_keep_their_place,
};

verus! {

/// The distance of two color values.
pub open spec fn apart(a: u8, b: u8) -> nat {
    if a >= b {
        (a - b) as nat
    } else {
        (b - a) as nat
    }
}

/// The distance of two pictures' colors over their first `n` pixels, alpha
/// aside.
pub open spec fn difference(a: Seq<u8>, b: Seq<u8>, n: nat) -> nat
    decreases n,
{
    if n == 0 {
        0
    } else {
        let k = (n - 1) * 4;
        difference(a, b, (n - 1) as nat) + apart(a[k], b[k]) + apart(a[k + 1], b[k + 1]) + apart(
            a[k + 2],
            b[k + 2],
        )
    }
}

/// Motion from one thumbnail to the next: the mean color distance in
/// hundredths, or the most there is when they differ in size.
pub open spec fn motion(before: Picture, now: Picture) -> u32 {
    let pixels = now.width * now.height;
    let score = difference(before.data, now.data, pixels as nat) as int * 100 / ((if pixels < 1 {
        1
    } else {
        pixels
    }) * 3);
    if before.width != now.width || before.height != now.height || score > u32::MAX {
        u32::MAX
    } else {
        score as u32
    }
}

/// Motion of every frame. The first has nothing to be compared against.
pub open spec fn scores(frames: Seq<FrameView>) -> Seq<u32> {
    Seq::new(
        frames.len(),
        |i: int|
            if i == 0 {
                u32::MAX
            } else {
                motion(frames[i - 1].thumb, frames[i].thumb)
            },
    )
}

/// Whether frame `j` goes before frame `i`: it moves less, or as little and
/// comes later.
pub open spec fn goes_first(scores: Seq<u32>, j: int, i: int) -> bool {
    scores[j] < scores[i] || (scores[j] == scores[i] && j > i)
}

/// How many of the frames after the first, and below `n`, go before frame
/// `i`.
pub open spec fn rank(scores: Seq<u32>, i: int, n: int) -> nat
    decreases n,
{
    if n <= 1 {
        0
    } else {
        rank(scores, i, n - 1) + if goes_first(scores, n - 1, i) {
            1nat
        } else {
            0nat
        }
    }
}

/// Whether frame `i` is among the `count` frames that move the least. The
/// first frame never is.
pub open spec fn low_motion(scores: Seq<u32>, count: int, i: int) -> bool {
    1 <= i && rank(scores, i, scores.len() as int) < count
}

fn distance(a: u8, b: u8) -> (r: u64)
    ensures
        r == apart(a, b),
        r <= 255,
{
    if a >= b {
        (a - b) as u64
    } else {
        (b - a) as u64
    }
}

fn motion_between(before: &Raster, now: &Raster) -> (r: u32)
    requires
        before.wf(),
        now.wf(),
        now.width <= 0xffff,
    ensures
        r == motion(before@, now@),
{
    if before.width != now.width || before.height != now.height {
        return u32::MAX;
    }
    let ghost pixels = now.width * now.height;
    assert(0 <= pixels <= 0xffff * 0xffff_ffff) by (nonlinear_arith)
        requires
            pixels == now.width * now.height,
            now.width <= 0xffff,
            now.height <= 0xffff_ffff,
    ;
    let count: u64 = now.width as u64 * now.height as u64;
    let mut diff: u64 = 0;
    let mut i: u64 = 0;
    assert(now.data.len() == now.data@.len());
    while i < count
        invariant
            before.wf(),
            now.wf(),
            before.width == now.width,
            before.height == now.height,
            count == now.width * now.height,
            count <= 0xffff * 0xffff_ffff,
            i <= count,
            now.data.len() == count * 4,
            diff == difference(before.data@, now.data@, i as nat),
            diff <= i * 765,
        decreases count - i,
    {
        let k: usize = i as usize * 4;
        diff = diff + distance(before.data[k], now.data[k]) + distance(
            before.data[k + 1],
            now.data[k + 1],
        ) + distance(before.data[k + 2], now.data[k + 2]);
        i = i + 1;
    }
    let least: u64 = if count < 1 {
        1
    } else {
        count
    };
    let score: u128 = diff as u128 * 100 / (least as u128 * 3);
    if score > u32::MAX as u128 {
        u32::MAX
    } else {
        score as u32
    }
}

impl Document {
    /// Motion per frame: how much it differs from the one before it, measured
    /// on the cached thumbnails rather than the full frames. A 72px-wide
    /// thumbnail is enough to tell a static section from a moving one, and it
    /// is three orders of magnitude less work than the real pixels.
    pub fn motion_scores(&self) -> (r: Vec<u32>)
        requires
            self@.frames_sound(),
        ensures
            r@ == scores(self@.frames),
    {
        let mut r: Vec<u32> = Vec::new();
        let mut i: usize = 0;
        while i < self.frames.len()
            invariant
                i <= self.frames@.len(),
                self@.frames_sound(),
                r@.len() == i,
                forall|k: int| 0 <= k < i ==> #[trigger] r@[k] == scores(self@.frames)[k],
            decreases self.frames@.len() - i,
        {
            if i == 0 {
                r.push(u32::MAX);
            } else {
                assert(self@.frames[i as int].wf());
                assert(self@.frames[i - 1].wf());
                r.push(motion_between(&self.frames[i - 1].thumb, &self.frames[i].thumb));
            }
            i = i + 1;
        }
        assert(r@ =~= scores(self@.frames));
        r
    }

    /// Drop the `count` frames that move the least, which is what "smart" means
    /// here: a pause loses frames before a pan does. Duration is preserved, so
    /// the result plays at the same speed with fewer frames in it. Ties break
    /// towards the later frame so a long static run thins from the end rather
    /// than leaving a gap at its start.
    pub fn drop_low_motion(&mut self, count: usize)
        requires
            old(self)@.frames_sound(),
        ensures
            final(self)@ == old(self)@.without(
                |i: int| low_motion(scores(old(self)@.frames), count as int, i),
            ),
    {
        let n: usize = self.frames.len();
        let s = self.motion_scores();
        let mut keep: Vec<bool> = Vec::new();
        let mut i: usize = 0;
        while i < n
            invariant
                i <= n,
                n == s@.len(),
                keep@.len() == i,
                forall|k: int|
                    0 <= k < i ==> #[trigger] keep@[k] == !low_motion(s@, count as int, k),
            decreases n - i,
        {
            let mut before: usize = 0;
            let mut j: usize = 1;
            while j < n
                invariant
                    1 <= j,
                    i < n,
                    j <= n,
                    n == s@.len(),
                    before == rank(s@, i as int, j as int),
                    before < j,
                decreases n - j,
            {
                if s[j] < s[i] || (s[j] == s[i] && j > i) {
                    before = before + 1;
                }
                j = j + 1;
            }
            keep.push(!(1 <= i && before < count));
            i = i + 1;
        }
        assert(keep@ =~= Seq::new(
            old(self)@.frames.len(),
            |i: int|
                !(|i: int| low_motion(scores(old(self)@.frames), count as int, i))(i),
        ));
        self.retain_frames(&keep);
    }
}

/// Whatever the count, thinning leaves the first frame, and dropping none
/// leaves the document as it was.
pub proof fn law_thinning_keeps_the_first_frame(doc: DocView, count: int)
    requires
        doc.frames.len() > 0,
    ensures
        ({
            let after = doc.without(|i: int| low_motion(scores(doc.frames), count, i));
            &&& after.frames.len() > 0
            &&& after.frames[0] == doc.frames[0].with_delay(after.frames[0].delay_cs)
            &&& count <= 0 ==> after == doc
        }),
{
    let keep = Seq::new(
        doc.frames.len(),
        |i: int| !(|i: int| low_motion(scores(doc.frames), count, i))(i),
    );
    assert(keep[0]);
    law_survivors_keep_their_place(doc.frames, keep, 0);
    assert(keep.take(0) =~= Seq::<bool>::empty());
}

/// Of two frames the one that goes first has the lower rank.
proof fn lemma_rank(s: Seq<u32>, i: int, j: int, n: int)
    requires
        1 <= i < s.len(),
        1 <= j < s.len(),
        goes_first(s, i, j),
        n <= s.len(),
    ensures
        i < n ==> rank(s, i, n) < rank(s, j, n),
        rank(s, i, n) <= rank(s, j, n),
    decreases n,
{
    if n > 1 {
        lemma_rank(s, i, j, n - 1);
    }
}

/// No rank is as high as the number of frames there are to rank.
proof fn lemma_rank_bound(s: Seq<u32>, i: int, n: int)
    requires
        1 <= i < s.len(),
        1 <= n <= s.len(),
    ensures
        rank(s, i, n) <= n - 1,
        i < n ==> rank(s, i, n) < n - 1,
    decreases n,
{
    if n > 1 {
        lemma_rank_bound(s, i, n - 1);
    }
}

/// The frames after the first have each rank once, so as many are among the
/// `count` that move the least as there can be.
proof fn lemma_low_count(s: Seq<u32>, count: int)
    requires
        s.len() > 0,
        0 <= count,
    ensures
        ({
            let low = Set::new(|i: int| 0 <= i < s.len() && low_motion(s, count, i));
            low.finite() && low.len() == if count < s.len() - 1 {
                count
            } else {
                s.len() - 1
            }
        }),
{
    let n = s.len() as int;
    let all = set_int_range(1, n);
    let ranks = set_int_range(0, n - 1);
    let f = |i: int| rank(s, i, n) as int;
    lemma_int_range(1, n);
    lemma_int_range(0, n - 1);
    assert forall|i: int, j: int| all.contains(i) && all.contains(j) && #[trigger] f(i)
        == #[trigger] f(j) implies i == j by {
        if i != j {
            if goes_first(s, i, j) {
                lemma_rank(s, i, j, n);
            } else {
                lemma_rank(s, j, i, n);
            }
        }
    }
    let image = all.map(f);
    lemma_map_size(all, image, f);
    assert(image.subset_of(ranks)) by {
        assert forall|r: int| image.contains(r) implies ranks.contains(r) by {
            let i = choose|i: int| all.contains(i) && f(i) == r;
            lemma_rank_bound(s, i, n);
        }
    }
    lemma_subset_equality(image, ranks);
    let low = Set::new(|i: int| 0 <= i < n && low_motion(s, count, i));
    assert(low.subset_of(all));
    lemma_len_subset(low, all);
    let top = if count < n - 1 {
        count
    } else {
        n - 1
    };
    lemma_int_range(0, top);
    let low_image = low.map(f);
    assert(low_image =~= set_int_range(0, top)) by {
        assert forall|r: int| low_image.contains(r) implies 0 <= r < top by {
            let i = choose|i: int| low.contains(i) && f(i) == r;
            lemma_rank_bound(s, i, n);
        }
        assert forall|r: int| 0 <= r < top implies low_image.contains(r) by {
            assert(ranks.contains(r));
            assert(image.contains(r));
            let i = choose|i: int| all.contains(i) && f(i) == r;
            assert(low.contains(i));
        }
    }
    assert(injective_on(f, low)) by {
        assert forall|i: int, j: int| low.contains(i) && low.contains(j) && #[trigger] f(i)
            == #[trigger] f(j) implies i == j by {
            assert(all.contains(i) && all.contains(j));
        }
    }
    lemma_map_size(low, low_image, f);
}

/// Flags that are not set, and those that are, are all the flags.
proof fn lemma_count_unset(keep: Seq<bool>)
    ensures
        ({
            let unset = Set::new(|i: int| 0 <= i < keep.len() && !keep[i]);
            unset.finite() && unset.len() + count_kept(keep) == keep.len()
        }),
    decreases keep.len(),
{
    let unset = Set::new(|i: int| 0 <= i < keep.len() && !keep[i]);
    if keep.len() > 0 {
        let rest = keep.drop_last();
        lemma_count_unset(rest);
        let before = Set::new(|i: int| 0 <= i < rest.len() && !rest[i]);
        let last = keep.len() - 1;
        if keep.last() {
            assert(unset =~= before);
        } else {
            assert(unset =~= before.insert(last));
            assert(!before.contains(last));
        }
    } else {
        assert(unset =~= Set::empty());
    }
}

/// Thinning drops as many frames as asked for, though never the first one, and
/// those that move the least: each that goes moves less than each that stays
/// after the first, or as little and comes later. The others stay in order,
/// changed in nothing but their delays, and the duration stays, where the
/// delays have room.
pub proof fn law_thinning_drops_what_moves_the_least(doc: DocView, count: int)
    requires
        doc.frames.len() > 0,
        0 <= count,
    ensures
        ({
            let s = scores(doc.frames);
            let keep = Seq::new(doc.frames.len(), |i: int| !low_motion(s, count, i));
            let after = doc.without(|i: int| low_motion(s, count, i));
            &&& doc.frames.len() - after.frames.len() == if count < doc.frames.len() - 1 {
                count
            } else {
                doc.frames.len() - 1
            }
            &&& !low_motion(s, count, 0)
            &&& forall|i: int, j: int|
                0 <= i < doc.frames.len() && 1 <= j < doc.frames.len() && #[trigger] low_motion(
                    s,
                    count,
                    i,
                ) && !#[trigger] low_motion(s, count, j) ==> goes_first(s, i, j)
            &&& forall|i: int|
                0 <= i < doc.frames.len() && !#[trigger] low_motion(s, count, i) ==> {
                    let place = kept_before(keep, i) as int;
                    &&& place < after.frames.len()
                    &&& after.frames[place] == doc.frames[i].with_delay(after.frames[place].delay_cs)
                }
            &&& delays_fit(doc.frames, keep) ==> total_delay(after.frames) == total_delay(
                doc.frames,
            )
        }),
{
    let s = scores(doc.frames);
    let n = doc.frames.len() as int;
    let keep = Seq::new(doc.frames.len(), |i: int| !low_motion(s, count, i));
    assert(keep =~= Seq::new(doc.frames.len(), |i: int| !(|i: int| low_motion(s, count, i))(i)));
    lemma_low_count(s, count);
    lemma_count_unset(keep);
    assert(Set::new(|i: int| 0 <= i < keep.len() && !keep[i]) =~= Set::new(
        |i: int| 0 <= i < s.len() && low_motion(s, count, i),
    ));
    lemma_count_kept(keep);
    lemma_retained_len(doc.frames, keep);
    assert forall|i: int, j: int|
        0 <= i < n && 1 <= j < n && #[trigger] low_motion(s, count, i) && !#[trigger] low_motion(
            s,
            count,
            j,
        ) implies goes_first(s, i, j) by {
        if !goes_first(s, i, j) {
            lemma_rank(s, j, i, n);
        }
    }
    let after = doc.without(|i: int| low_motion(s, count, i));
    assert forall|i: int| 0 <= i < n && !#[trigger] low_motion(s, count, i) implies {
        let place = kept_before(keep, i) as int;
        &&& place < after.frames.len()
        &&& after.frames[place] == doc.frames[i].with_delay(after.frames[place].delay_cs)
    } by {
        assert(keep[i]);
        law_survivors_keep_their_place(doc.frames, keep, i);
        lemma_count_kept(keep.take(i));
    }
    if delays_fit(doc.frames, keep) {
        law_retain_preserves_duration(doc.frames, keep);
    }
}

/// Pictures that differ by as much in every color value differ by three times
/// that in a pixel.
proof fn lemma_difference_even(a: Seq<u8>, b: Seq<u8>, n: nat, d: nat)
    requires
        a.len() >= n * 4,
        b.len() >= n * 4,
        forall|k: int|
            0 <= k < n * 4 && k % 4 != 3 ==> (#[trigger] a[k]) - b[k] == d || b[k] - a[k] == d,
    ensures
        difference(a, b, n) == 3 * n * d,
    decreases n,
{
    if n > 0 {
        lemma_difference_even(a, b, (n - 1) as nat, d);
        let k = (n - 1) * 4;
        assert(a[k] - b[k] == d || b[k] - a[k] == d);
        assert(a[k + 1] - b[k + 1] == d || b[k + 1] - a[k + 1] == d);
        assert(a[k + 2] - b[k + 2] == d || b[k + 2] - a[k + 2] == d);
        assert(3 * ((n - 1) as nat) * d + 3 * d == 3 * n * d) by (nonlinear_arith)
            requires
                n > 0,
        ;
    } else {
        assert(3 * n * d == 0) by (nonlinear_arith)
            requires
                n == 0,
        ;
    }
}

/// A frame after the first is compared with the frame just before it: one whose
/// thumbnail differs from that frame's by as much in every color value has a
/// motion of a hundred times that, so none if they are alike, whatever the
/// frames before them look like and whatever their alpha. The first frame, and
/// one whose thumbnail has another size, move the most there is.
pub proof fn law_motion_is_measured_from_the_frame_before(frames: Seq<FrameView>, i: int, d: nat)
    requires
        0 < i < frames.len(),
        frames[i - 1].thumb.wf(),
        frames[i].thumb.wf(),
    ensures
        scores(frames).len() == frames.len(),
        scores(frames)[0] == u32::MAX,
        ({
            let (a, b) = (frames[i - 1].thumb, frames[i].thumb);
            &&& a == b ==> scores(frames)[i] == 0
            &&& a.width != b.width || a.height != b.height ==> scores(frames)[i] == u32::MAX
            &&& a.width == b.width && a.height == b.height && b.width > 0 && b.height > 0 && (
            forall|k: int|
                0 <= k < b.data.len() && k % 4 != 3 ==> (#[trigger] a.data[k]) - b.data[k] == d
                    || b.data[k] - a.data[k] == d) ==> scores(frames)[i] == 100 * d
        }),
{
    let (a, b) = (frames[i - 1].thumb, frames[i].thumb);
    let n = b.width * b.height;
    assert(0 <= n) by (nonlinear_arith)
        requires
            n == b.width * b.height,
    ;
    if a == b {
        lemma_difference_even(a.data, b.data, n as nat, 0);
        assert(3 * n * 0 == 0) by (nonlinear_arith);
        let least = if n < 1 {
            1
        } else {
            n
        };
        assert(0int * 100 / (least * 3) == 0) by (nonlinear_arith)
            requires
                least >= 1,
        ;
    }
    if a.width == b.width && a.height == b.height && b.width > 0 && b.height > 0 && (forall|k: int|
        0 <= k < b.data.len() && k % 4 != 3 ==> (#[trigger] a.data[k]) - b.data[k] == d || b.data[k]
            - a.data[k] == d) {
        assert(n >= 1) by (nonlinear_arith)
            requires
                n == b.width * b.height,
                b.width >= 1,
                b.height >= 1,
        ;
        lemma_difference_even(a.data, b.data, n as nat, d);
        assert((3 * n * d) * 100 / (n * 3) == 100 * d) by (nonlinear_arith)
            requires
                n >= 1,
        ;
        assert(b.data.len() == n * 4);
        assert(a.data[0] - b.data[0] == d || b.data[0] - a.data[0] == d);
    }
}

proof fn lemma_difference_part(a: Seq<u8>, b: Seq<u8>, n: nat, k: int)
    requires
        0 <= k < n * 4,
        k % 4 != 3,
    ensures
        difference(a, b, n) >= apart(a[k], b[k]),
    decreases n,
{
    if k < (n - 1) * 4 {
        lemma_difference_part(a, b, (n - 1) as nat, k);
    }
}

/// A frame that differs from the one just before it in some color value moves,
/// unless the difference is lost in the mean.
pub proof fn law_a_change_is_motion(frames: Seq<FrameView>, i: int, k: int)
    requires
        0 < i < frames.len(),
        frames[i - 1].thumb.wf(),
        frames[i].thumb.wf(),
        0 <= k < frames[i].thumb.data.len(),
        k % 4 != 3,
        ({
            let (a, b) = (frames[i - 1].thumb, frames[i].thumb);
            &&& a.width == b.width && a.height == b.height
            &&& 100 * (a.data[k] - b.data[k]) >= 3 * (b.width * b.height) || 100 * (b.data[k]
                - a.data[k]) >= 3 * (b.width * b.height)
        }),
    ensures
        scores(frames)[i] > 0,
{
    let (a, b) = (frames[i - 1].thumb, frames[i].thumb);
    let n = b.width * b.height;
    assert(b.data.len() == n * 4);
    assert(n >= 1);
    lemma_difference_part(a.data, b.data, n as nat, k);
    let total = difference(a.data, b.data, n as nat) as int;
    assert(total * 100 / (n * 3) >= 1) by (nonlinear_arith)
        requires
            total * 100 >= n * 3,
            n >= 1,
    ;
}

/// How far the colors of the first `n` bytes of two pictures are apart in all,
/// transparency aside.
pub open spec fn color_distance(a: Seq<u8>, b: Seq<u8>, n: nat) -> int
    decreases n,
{
    if n == 0 {
        0
    } else {
        let k = n - 1;
        color_distance(a, b, k as nat) + if k % 4 == 3 {
            0
        } else if a[k] > b[k] {
            a[k] - b[k]
        } else {
            b[k] - a[k]
        }
    }
}

proof fn lemma_color_distance(a: Seq<u8>, b: Seq<u8>, n: nat)
    ensures
        difference(a, b, n) == color_distance(a, b, n * 4),
    decreases n,
{
    if n > 0 {
        let m = (n - 1) as nat;
        lemma_color_distance(a, b, m);
        let k = (m * 4) as int;
        reveal_with_fuel(color_distance, 5);
        assert(color_distance(a, b, (k + 4) as nat) == color_distance(a, b, k as nat) + apart(
            a[k],
            b[k],
        ) + apart(a[k + 1], b[k + 1]) + apart(a[k + 2], b[k + 2]));
    }
}

/// What a frame moves is the mean distance of its colors from those of the frame
/// just before it, in hundredths and rounded down. So a frame that lies a
/// hundredth or more away moves, and only such a frame does, whatever came
/// earlier.
pub proof fn law_motion_is_the_mean_distance(frames: Seq<FrameView>, i: int)
    requires
        0 < i < frames.len(),
        frames[i - 1].thumb.wf(),
        frames[i].thumb.wf(),
        frames[i - 1].thumb.width == frames[i].thumb.width,
        frames[i - 1].thumb.height == frames[i].thumb.height,
        frames[i].thumb.data.len() > 0,
    ensures
        ({
            let (a, b) = (frames[i - 1].thumb, frames[i].thumb);
            let values = 3 * (b.width * b.height);
            let far = 100 * color_distance(a.data, b.data, b.data.len());
            let score = scores(frames)[i];
            &&& score > 0 <==> far >= values
            &&& score * values <= far
            &&& score < u32::MAX ==> far < (score + 1) * values
        }),
{
    let (a, b) = (frames[i - 1].thumb, frames[i].thumb);
    let n = b.width * b.height;
    assert(b.data.len() == n * 4);
    assert(n >= 1);
    lemma_color_distance(a.data, b.data, n as nat);
    let total = difference(a.data, b.data, n as nat) as int;
    let q = total * 100 / (n * 3);
    assert(q * (n * 3) <= total * 100 < (q + 1) * (n * 3)) by (nonlinear_arith)
        requires
            n >= 1,
            q == total * 100 / (n * 3),
    ;
    assert(q >= 1 <==> total * 100 >= n * 3) by (nonlinear_arith)
        requires
            n >= 1,
            q * (n * 3) <= total * 100 < (q + 1) * (n * 3),
    ;
    let score = scores(frames)[i] as int;
    assert(score * (n * 3) <= q * (n * 3)) by (nonlinear_arith)
        requires
            n >= 1,
            score <= q,
    ;
    assert(3 * (b.width * b.height) == n * 3);
}

/// Motion is the same forwards and backwards.
pub proof fn law_motion_goes_both_ways(a: Picture, b: Picture)
    ensures
        motion(a, b) == motion(b, a),
{
    if a.width == b.width && a.height == b.height {
        let n = b.width * b.height;
        assert(0 <= n) by (nonlinear_arith)
            requires
                n == b.width * b.height,
        ;
        lemma_difference_turned(a.data, b.data, n as nat);
    }
}

proof fn lemma_difference_turned(a: Seq<u8>, b: Seq<u8>, n: nat)
    ensures
        difference(a, b, n) == difference(b, a, n),
    decreases n,
{
    if n > 0 {
        lemma_difference_turned(a, b, (n - 1) as nat);
    }
}

} // verus!
