//! Folding pieces of one overlay back into one.

use std::ops::Range;

use vstd::prelude::*;

use crate::document::{DocView, Document};
use crate::model::{same_look, Overlay};

verus! {

/// Two overlays paint identically side by side and so are safe to fold into
/// one: same content, same box, same everything but the id and where they
/// sit, and one begins where the other ends.
pub open spec fn joins(a: Overlay, b: Overlay) -> bool {
    (a.range.end == b.range.start || b.range.end == a.range.start) && same_look(a, b)
}

/// The first overlay at or after `from`, other than `i`, that joins overlay
/// `i`, or the length if there is none.
pub open spec fn partner(overlays: Seq<Overlay>, i: int, from: int) -> int
    decreases overlays.len() - from,
{
    if from < 0 || from >= overlays.len() {
        overlays.len() as int
    } else if from != i && joins(overlays[i], overlays[from]) {
        from
    } else {
        partner(overlays, i, from + 1)
    }
}

/// The range over two ranges.
pub open spec fn hull(a: Range<usize>, b: Range<usize>) -> Range<usize> {
    Range {
        start: if a.start <= b.start {
            a.start
        } else {
            b.start
        },
        end: if a.end >= b.end {
            a.end
        } else {
            b.end
        },
    }
}

/// The overlays with `i` and `j` folded into the one with the lower id.
pub open spec fn folded(overlays: Seq<Overlay>, i: int, j: int) -> Seq<Overlay> {
    let (a, b) = (overlays[i], overlays[j]);
    let range = hull(a.range, b.range);
    if a.id.0 <= b.id.0 {
        overlays.update(i, a.on(range)).remove(j)
    } else {
        overlays.update(j, b.on(range)).remove(i)
    }
}

/// The overlays with those from place `i` on folded into what they join: each
/// place in turn takes in partners until none is left for it.
pub open spec fn coalesced(overlays: Seq<Overlay>, i: int) -> Seq<Overlay>
    decreases overlays.len(), overlays.len() - i,
{
    if i < 0 || i >= overlays.len() {
        overlays
    } else {
        let j = partner(overlays, i, 0);
        if 0 <= j < overlays.len() {
            coalesced(folded(overlays, i, j), i)
        } else {
            coalesced(overlays, i + 1)
        }
    }
}

/// `partner` finds a partner.
pub proof fn lemma_partner(overlays: Seq<Overlay>, i: int, from: int)
    requires
        0 <= from <= overlays.len(),
    ensures
        from <= partner(overlays, i, from) <= overlays.len(),
        partner(overlays, i, from) < overlays.len() ==> partner(overlays, i, from) != i && joins(
            overlays[i],
            overlays[partner(overlays, i, from)],
        ),
    decreases overlays.len() - from,
{
    if from < overlays.len() && !(from != i && joins(overlays[i], overlays[from])) {
        lemma_partner(overlays, i, from + 1);
    }
}

impl Document {
    /// The place of the first overlay that joins overlay `i`.
    fn find_partner(&self, i: usize) -> (r: Option<usize>)
        requires
            i < self.overlays@.len(),
        ensures
            match r {
                Some(j) => j < self.overlays@.len() && j == partner(self.overlays@, i as int, 0),
                None => partner(self.overlays@, i as int, 0) == self.overlays@.len(),
            },
    {
        let mut j: usize = 0;
        while j < self.overlays.len()
            invariant
                j <= self.overlays@.len(),
                i < self.overlays@.len(),
                partner(self.overlays@, i as int, 0) == partner(
                    self.overlays@,
                    i as int,
                    j as int,
                ),
            decreases self.overlays@.len() - j,
        {
            if i != j {
                let (a, b) = (&self.overlays[i], &self.overlays[j]);
                if (a.range.end == b.range.start || b.range.end == a.range.start)
                    && Self::overlays_mergeable(a, b) {
                    return Some(j);
                }
            }
            j = j + 1;
        }
        None
    }

    /// Same content, same box, same everything but the id and where they sit.
    pub fn overlays_mergeable(a: &Overlay, b: &Overlay) -> (r: bool)
        ensures
            r == same_look(*a, *b),
    {
        a.looks_like(b)
    }

    /// Fold adjacent overlays back into one where a move split them and they
    /// landed touching and otherwise unchanged. Runs after every
    /// `move_frame`, so a multi-frame drag's per-hop splits in
    /// `move_frames_to` reunite as the frames come back together. Keeps
    /// whichever id is lower — the original overlay, never one of the
    /// clones a split spawns — so a selection open on it survives the drag.
    pub fn coalesce_overlays(&mut self)
        ensures
            final(self)@ == (DocView { overlays: coalesced(old(self)@.overlays, 0), ..old(self)@ }),
            final(self).frames@ == old(self).frames@,
    {
        let mut i: usize = 0;
        while i < self.overlays.len()
            invariant
                coalesced(old(self)@.overlays, 0) == coalesced(self.overlays@, i as int),
                self.frames@ == old(self).frames@,
                self.next_id == old(self).next_id,
            decreases self.overlays@.len(), self.overlays@.len() - i,
        {
            match self.find_partner(i) {
                Some(j) => {
                    proof {
                        lemma_partner(self.overlays@, i as int, 0);
                    }
                    let ghost before = self.overlays@;
                    let (a, b) = (&self.overlays[i], &self.overlays[j]);
                    let start: usize = if a.range.start <= b.range.start {
                        a.range.start
                    } else {
                        b.range.start
                    };
                    let end: usize = if a.range.end >= b.range.end {
                        a.range.end
                    } else {
                        b.range.end
                    };
                    let (keep, drop) = if a.id.0 <= b.id.0 {
                        (i, j)
                    } else {
                        (j, i)
                    };
                    self.overlays[keep].range = start..end;
                    self.overlays.remove(drop);
                    assert(self.overlays@ =~= folded(before, i as int, j as int));
                },
                None => {
                    i = i + 1;
                },
            }
        }
    }
}

} // verus!
