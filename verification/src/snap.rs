//! Canvas guides: the image's edges and centre lines, which an overlay drag
//! pulls onto when it comes within a tolerance — three lines per axis that
//! pull rather than quantize.

use vstd::prelude::*;

use crate::single::{is_number, Single};

verus! {

/// One of the three guides along an axis: the leading edge, the centre line,
/// or the trailing edge of the image.
#[derive(Clone, Copy, PartialEq, Eq, Debug, Structural)]
pub enum Guide {
    Start,
    Center,
    End,
}

impl Guide {
    /// The guides in the order they are tried.
    pub fn all() -> (r: [Guide; 3])
        ensures
            r@ == seq![Guide::Start, Guide::Center, Guide::End],
    {
        let r = [Guide::Start, Guide::Center, Guide::End];
        assert(r@ =~= seq![Guide::Start, Guide::Center, Guide::End]);
        r
    }
}

/// The guide a drag is resting on along each axis, if any: `x` names a
/// vertical line, `y` a horizontal one.
#[derive(Clone, Copy, PartialEq, Eq, Debug, Structural)]
pub struct Guides {
    pub x: Option<Guide>,
    pub y: Option<Guide>,
}

impl Default for Guides {
    fn default() -> (r: Guides)
        ensures
            r == (Guides { x: None, y: None }),
    {
        Guides { x: None, y: None }
    }
}

/// One way to land a span on a guide: how far off it is, and the origin that
/// puts it there.
#[derive(Clone, Copy, Debug)]
pub struct Landing {
    pub guide: Guide,
    pub distance: Single,
    pub origin: Single,
}

/// Where a number stands among the numbers: a magnitude by its bits, a
/// negative number as far below nothing.
pub open spec fn standing(a: Single) -> int {
    if a.bits < 0x8000_0000 {
        a.bits as int
    } else {
        0x8000_0000 - a.bits
    }
}

/// Whether one distance is below another. A NaN holds nothing off.
pub open spec fn nearer(a: Single, b: Single) -> bool {
    !(is_number(a.bits) && is_number(b.bits) && standing(a) >= standing(b))
}

fn is_nearer(a: Single, b: Single) -> (r: bool)
    ensures
        r == nearer(a, b),
{
    if a.bits % 0x8000_0000 > 0x7f80_0000 || b.bits % 0x8000_0000 > 0x7f80_0000 {
        return true;
    }
    match (a.bits < 0x8000_0000, b.bits < 0x8000_0000) {
        (true, true) => a.bits < b.bits,
        (true, false) => false,
        (false, true) => a.bits > 0x8000_0000 || b.bits > 0,
        (false, false) => b.bits < a.bits,
    }
}

/// The landing a span takes: the first of the nearest below the tolerance, from
/// `k` on, where `best` is the one so far.
pub open spec fn taken(landings: Seq<Landing>, k: int, best: Option<int>, reach: Single) -> Option<
    int,
>
    decreases landings.len() - k,
{
    if k < 0 || k >= landings.len() {
        best
    } else if nearer(landings[k].distance, reach) {
        taken(landings, k + 1, Some(k), landings[k].distance)
    } else {
        taken(landings, k + 1, best, reach)
    }
}

/// Along one axis, which of the landings a span takes: the nearest within the
/// tolerance, the first of those that tie. Nothing within it leaves the span
/// where it was.
pub fn snap_extent(landings: &Vec<Landing>, tolerance: Single) -> (r: Option<usize>)
    ensures
        match r {
            Some(i) => i < landings@.len() && taken(landings@, 0, None, tolerance) == Some(
                i as int,
            ),
            None => taken(landings@, 0, None, tolerance) is None,
        },
{
    let mut best: Option<usize> = None;
    let mut reach = tolerance;
    let mut k: usize = 0;
    while k < landings.len()
        invariant
            k <= landings@.len(),
            best matches Some(i) ==> i < landings@.len(),
            taken(landings@, 0, None, tolerance) == taken(
                landings@,
                k as int,
                match best {
                    Some(i) => Some(i as int),
                    None => None,
                },
                reach,
            ),
        decreases landings@.len() - k,
    {
        let distance = landings[k].distance;
        if is_nearer(distance, reach) {
            best = Some(k);
            reach = distance;
        }
        k = k + 1;
    }
    best
}

/// What a span lands on is nearer than the tolerance, and nothing is nearer:
/// a box never jumps past the line the user is actually aiming for.
pub proof fn law_the_nearest_guide_wins(landings: Seq<Landing>, tolerance: Single)
    requires
        is_number(tolerance.bits),
        forall|i: int| 0 <= i < landings.len() ==> is_number((#[trigger] landings[i]).distance.bits),
    ensures
        match taken(landings, 0, None, tolerance) {
            Some(i) => {
                &&& 0 <= i < landings.len()
                &&& standing(landings[i].distance) < standing(tolerance)
                &&& forall|j: int|
                    0 <= j < landings.len() ==> standing(landings[i].distance) <= standing(
                        (#[trigger] landings[j]).distance,
                    )
                &&& forall|j: int|
                    0 <= j < i ==> standing(landings[i].distance) < standing(
                        (#[trigger] landings[j]).distance,
                    )
            },
            None => forall|j: int|
                0 <= j < landings.len() ==> standing(
                    (#[trigger] landings[j]).distance,
                ) >= standing(tolerance),
        },
{
    lemma_taken(landings, 0, None, tolerance, tolerance);
}

proof fn lemma_taken(
    landings: Seq<Landing>,
    k: int,
    best: Option<int>,
    reach: Single,
    tolerance: Single,
)
    requires
        0 <= k <= landings.len(),
        is_number(reach.bits),
        forall|i: int| 0 <= i < landings.len() ==> is_number((#[trigger] landings[i]).distance.bits),
        match best {
            Some(i) => {
                &&& 0 <= i < k
                &&& landings[i].distance == reach
                &&& standing(reach) < standing(tolerance)
                &&& forall|j: int|
                    0 <= j < k ==> standing(reach) <= standing((#[trigger] landings[j]).distance)
                &&& forall|j: int|
                    0 <= j < i ==> standing(reach) < standing((#[trigger] landings[j]).distance)
            },
            None => reach == tolerance && forall|j: int|
                0 <= j < k ==> standing(
                    (#[trigger] landings[j]).distance,
                ) >= standing(tolerance),
        },
    ensures
        match taken(landings, k, best, reach) {
            Some(i) => {
                &&& 0 <= i < landings.len()
                &&& standing(landings[i].distance) < standing(tolerance)
                &&& forall|j: int|
                    0 <= j < landings.len() ==> standing(landings[i].distance) <= standing(
                        (#[trigger] landings[j]).distance,
                    )
                &&& forall|j: int|
                    0 <= j < i ==> standing(landings[i].distance) < standing(
                        (#[trigger] landings[j]).distance,
                    )
            },
            None => forall|j: int|
                0 <= j < landings.len() ==> standing(
                    (#[trigger] landings[j]).distance,
                ) >= standing(tolerance),
        },
    decreases landings.len() - k,
{
    if k < landings.len() {
        assert(is_number(landings[k].distance.bits));
        if nearer(landings[k].distance, reach) {
            lemma_taken(landings, k + 1, Some(k), landings[k].distance, tolerance);
        } else {
            lemma_taken(landings, k + 1, best, reach, tolerance);
        }
    }
}

} // verus!
