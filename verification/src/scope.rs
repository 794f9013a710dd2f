//! Which frames an operation is about.

use std::ops::Range;

use vstd::prelude::*;

verus! {

/// The indices below `n` that satisfy `p`, in ascending order.
pub open spec fn ascending(n: nat, p: spec_fn(int) -> bool) -> Seq<usize>
    decreases n,
{
    if n == 0 {
        seq![]
    } else {
        let before = ascending((n - 1) as nat, p);
        if p(n - 1) {
            before.push((n - 1) as usize)
        } else {
            before
        }
    }
}

/// Two tests that agree below `n` pick the same indices.
pub proof fn lemma_ascending_same(n: nat, p: spec_fn(int) -> bool, q: spec_fn(int) -> bool)
    requires
        forall|i: int| 0 <= i < n ==> #[trigger] p(i) == q(i),
    ensures
        ascending(n, p) == ascending(n, q),
    decreases n,
{
    if n > 0 {
        lemma_ascending_same((n - 1) as nat, p, q);
    }
}

/// `ascending` is strictly ascending and holds exactly the indices that
/// satisfy the test.
pub proof fn lemma_ascending(n: nat, p: spec_fn(int) -> bool)
    requires
        n <= usize::MAX,
    ensures
        ascending(n, p).len() <= n,
        forall|a: int, b: int|
            0 <= a < b < ascending(n, p).len() ==> ascending(n, p)[a] < ascending(n, p)[b],
        forall|a: int|
            0 <= a < ascending(n, p).len() ==> ascending(n, p)[a] < n && p(
                #[trigger] ascending(n, p)[a] as int,
            ),
        forall|i: usize| i < n && p(i as int) ==> #[trigger] ascending(n, p).contains(i),
    decreases n,
{
    if n > 0 {
        let before = ascending((n - 1) as nat, p);
        lemma_ascending((n - 1) as nat, p);
        assert forall|i: usize| i < n && p(i as int) implies #[trigger] ascending(n, p).contains(
            i,
        ) by {
            if i == n - 1 {
                assert(ascending(n, p)[before.len() as int] == i);
            } else {
                assert(before.contains(i));
                let at = choose|at: int| 0 <= at < before.len() && before[at] == i;
                assert(ascending(n, p)[at] == i);
            }
        }
    }
}

/// Whether `i` is among `picked`.
pub open spec fn picks(picked: Seq<usize>, i: int) -> bool {
    exists|k: int| 0 <= k < picked.len() && #[trigger] picked[k] == i
}

/// One flag per index below `n`: is it among `picked`.
pub fn marks(picked: &Vec<usize>, n: usize) -> (r: Vec<bool>)
    ensures
        r@.len() == n,
        forall|i: int| 0 <= i < n ==> #[trigger] r@[i] == picks(picked@, i),
{
    let mut r: Vec<bool> = vec![false; n];
    let mut k: usize = 0;
    while k < picked.len()
        invariant
            k <= picked@.len(),
            r@.len() == n,
            forall|i: int| 0 <= i < n ==> #[trigger] r@[i] == picks(picked@.take(k as int), i),
        decreases picked@.len() - k,
    {
        let ghost before = r@;
        let at: usize = picked[k];
        if at < n {
            r[at] = true;
        }
        proof {
            assert forall|i: int| 0 <= i < n implies #[trigger] r@[i] == picks(
                picked@.take(k + 1),
                i,
            ) by {
                assert(before[i] == picks(picked@.take(k as int), i));
                if picks(picked@.take(k as int), i) {
                    let w = choose|w: int|
                        0 <= w < picked@.take(k as int).len() && #[trigger] picked@.take(k as int)[w]
                            == i;
                    assert(picked@.take(k + 1)[w] == i);
                }
                if at == i {
                    assert(picked@.take(k + 1)[k as int] == i);
                }
                if picks(picked@.take(k + 1), i) {
                    let w = choose|w: int|
                        0 <= w < picked@.take(k + 1).len() && #[trigger] picked@.take(k + 1)[w] == i;
                    if w < k {
                        assert(picked@.take(k as int)[w] == i);
                    }
                }
            }
        }
        k = k + 1;
    }
    assert(picked@.take(k as int) =~= picked@);
    r
}

/// The indices whose flag is set, in ascending order.
pub fn marked(flags: &Vec<bool>) -> (r: Vec<usize>)
    ensures
        r@ == ascending(flags@.len(), |i: int| flags@[i]),
{
    let mut r: Vec<usize> = Vec::new();
    let mut i: usize = 0;
    while i < flags.len()
        invariant
            i <= flags@.len(),
            r@ == ascending(i as nat, |i: int| flags@[i]),
        decreases flags@.len() - i,
    {
        if flags[i] {
            r.push(i);
        }
        i = i + 1;
    }
    r
}

/// The frames among `picked` that are below `n`: sorted and deduplicated.
pub fn sorted_below(picked: &Vec<usize>, n: usize) -> (r: Vec<usize>)
    ensures
        r@ == ascending(n as nat, |i: int| picks(picked@, i)),
{
    let flags = marks(picked, n);
    let r = marked(&flags);
    proof {
        lemma_ascending_same(n as nat, |i: int| flags@[i], |i: int| picks(picked@, i));
    }
    r
}

/// The toolbar control that gates every operation.
///
/// `Frames` is a set rather than a range because Ctrl+click in the strip picks
/// frames one at a time and they need not touch.
#[derive(Debug)]
pub enum Scope {
    ThisFrame,
    AllFrames,
    Frames(Vec<usize>),
}

impl Scope {
    /// Whether the scope names frame `i`, the playhead being at `playhead`.
    pub open spec fn names(self, playhead: int, i: int) -> bool {
        match self {
            Scope::ThisFrame => i == playhead,
            Scope::AllFrames => true,
            Scope::Frames(picked) => picks(picked@, i),
        }
    }

    /// The frames the scope names out of `frame_count`.
    pub open spec fn frames(self, playhead: int, frame_count: nat) -> Seq<usize> {
        ascending(frame_count, |i: int| self.names(playhead, i))
    }

    /// Frames this scope names: sorted, deduplicated and clamped.
    pub fn resolve(&self, playhead: usize, frame_count: usize) -> (r: Vec<usize>)
        ensures
            r@ == self.frames(playhead as int, frame_count as nat),
    {
        let ghost names = |i: int| self.names(playhead as int, i);
        match self {
            Scope::ThisFrame => {
                let mut flags: Vec<bool> = vec![false; frame_count];
                if playhead < frame_count {
                    flags[playhead] = true;
                }
                proof {
                    lemma_ascending_same(frame_count as nat, |i: int| flags@[i], names);
                }
                marked(&flags)
            },
            Scope::AllFrames => {
                let flags: Vec<bool> = vec![true; frame_count];
                proof {
                    lemma_ascending_same(frame_count as nat, |i: int| flags@[i], names);
                }
                marked(&flags)
            },
            Scope::Frames(picked) => {
                proof {
                    lemma_ascending_same(frame_count as nat, |i: int| picks(picked@, i), names);
                }
                sorted_below(picked, frame_count)
            },
        }
    }

    /// The smallest range covering the scope. Overlays carry a contiguous
    /// range, so a gappy selection widens to span it.
    pub fn span(&self, playhead: usize, frame_count: usize) -> (r: Range<usize>)
        ensures
            r == span_of(self.frames(playhead as int, frame_count as nat)),
    {
        let frames = self.resolve(playhead, frame_count);
        proof {
            lemma_ascending(frame_count as nat, |i: int| self.names(playhead as int, i));
        }
        if frames.len() == 0 {
            0..0
        } else {
            frames[0]..frames[frames.len() - 1] + 1
        }
    }
}

/// The smallest range over frames in ascending order.
pub open spec fn span_of(frames: Seq<usize>) -> Range<usize> {
    if frames.len() == 0 {
        Range { start: 0, end: 0 }
    } else {
        Range { start: frames[0], end: (frames.last() + 1) as usize }
    }
}

impl Clone for Scope {
    fn clone(&self) -> (r: Scope)
        ensures
            forall|playhead: int, i: int| r.names(playhead, i) == self.names(playhead, i),
            r is Frames == self is Frames,
            r is ThisFrame == self is ThisFrame,
            self matches Scope::Frames(a) ==> r matches Scope::Frames(b) && a@ == b@,
    {
        match self {
            Scope::ThisFrame => Scope::ThisFrame,
            Scope::AllFrames => Scope::AllFrames,
            Scope::Frames(picked) => Scope::Frames(copy_indices(picked)),
        }
    }
}

/// A copy of a list of frame indices.
pub fn copy_indices(v: &Vec<usize>) -> (r: Vec<usize>)
    ensures
        r@ == v@,
{
    let mut r: Vec<usize> = Vec::new();
    let mut i: usize = 0;
    while i < v.len()
        invariant
            i <= v@.len(),
            r@ == v@.take(i as int),
        decreases v@.len() - i,
    {
        r.push(v[i]);
        i = i + 1;
    }
    assert(v@.take(i as int) =~= v@);
    r
}

/// What a scope resolves to is strictly ascending, stays below the frame
/// count, and holds a frame exactly when the scope names it.
pub proof fn law_resolve(scope: Scope, playhead: int, frame_count: nat)
    requires
        frame_count <= usize::MAX,
    ensures
        ({
            let r = scope.frames(playhead, frame_count);
            &&& forall|a: int, b: int| 0 <= a < b < r.len() ==> r[a] < r[b]
            &&& forall|a: int| 0 <= a < r.len() ==> #[trigger] r[a] < frame_count
            &&& forall|i: usize|
                #[trigger] r.contains(i) <==> i < frame_count && scope.names(playhead, i as int)
        }),
{
    let p = |i: int| scope.names(playhead, i);
    let r = scope.frames(playhead, frame_count);
    lemma_ascending(frame_count, p);
    assert forall|i: usize| #[trigger] r.contains(i) implies i < frame_count && scope.names(
        playhead,
        i as int,
    ) by {
        let a = choose|a: int| 0 <= a < r.len() && r[a] == i;
        assert(p(r[a] as int));
    }
    assert forall|i: usize| i < frame_count && scope.names(playhead, i as int) implies
        #[trigger] r.contains(i) by {
        assert(p(i as int));
    }
}

/// The span of a scope covers every frame the scope names and is no wider
/// than it has to be: both its ends are named.
pub proof fn law_span(scope: Scope, playhead: int, frame_count: nat)
    requires
        frame_count <= usize::MAX,
    ensures
        ({
            let r = scope.frames(playhead, frame_count);
            let span = span_of(r);
            &&& forall|a: int| 0 <= a < r.len() ==> span.start <= #[trigger] r[a] < span.end
            &&& r.len() > 0 ==> r.contains(span.start) && r.contains((span.end - 1) as usize)
            &&& r.len() == 0 ==> span.start == 0 && span.end == 0
        }),
{
    law_resolve(scope, playhead, frame_count);
    let r = scope.frames(playhead, frame_count);
    if r.len() > 0 {
        assert(r.contains(r[0]));
        assert(r[r.len() - 1] == r.last());
        assert(r.contains(r.last()));
    }
}

} // verus!
