//! Compact representation of a batch of unhardened indexes for address
//! scanning: inclusive ranges, and lists of ranges kept canonical (sorted,
//! with overlapping or adjacent ranges merged), so that membership and
//! ascending iteration are unambiguous.

use vstd::prelude::*;

use crate::indexes::{seg_wf, SegmentIndexes, UnhardenedIndex, ValidationError};

verus! {

/// An inclusive interval of unhardened indexes.
#[derive(Clone, Copy, Debug, PartialEq, Eq, Structural)]
pub struct IndexRange {
    /// The first index covered.
    pub start: UnhardenedIndex,
    /// The last index covered.
    pub end: UnhardenedIndex,
}

impl IndexRange {
    /// Whether the range is well-formed: both bounds in the unhardened
    /// range, start not above end.
    pub open spec fn wf(self) -> bool {
        seg_wf(self.start) && seg_wf(self.end) && self.start.0 <= self.end.0
    }

    /// Whether a value lies in the range.
    pub open spec fn covers(self, v: int) -> bool {
        self.start.0 <= v <= self.end.0
    }

    /// Constructs a range from its inclusive bounds; fails if and only if
    /// the bounds are reversed.
    pub fn with(start: UnhardenedIndex, end: UnhardenedIndex) -> (r: Result<
        IndexRange,
        ValidationError,
    >)
        requires
            seg_wf(start),
            seg_wf(end),
        ensures
            r is Ok <==> start.0 <= end.0,
            r matches Ok(rng) ==> rng == (IndexRange { start, end }) && rng.wf(),
    {
        if start.0 <= end.0 {
            Ok(IndexRange { start, end })
        } else {
            Err(ValidationError::IndexOutOfRange(start.0))
        }
    }

    /// Whether an index lies in the range.
    pub fn contains(&self, idx: UnhardenedIndex) -> (r: bool)
        ensures
            r == self.covers(idx.0 as int),
    {
        self.start.0 <= idx.0 && idx.0 <= self.end.0
    }
}

/// Whether any range of a sequence covers a value.
pub open spec fn covers_by(s: Seq<IndexRange>, v: int) -> bool {
    exists|i: int| 0 <= i < s.len() && (#[trigger] s[i]).covers(v)
}

/// Whether a sequence of ranges is canonical: every range well-formed, and
/// consecutive ranges separated by a gap (no overlap, no adjacency).
pub open spec fn canonical(s: Seq<IndexRange>) -> bool {
    (forall|i: int| 0 <= i < s.len() ==> (#[trigger] s[i]).wf()) && (forall|i: int|
        0 <= i < s.len() - 1 ==> (#[trigger] s[i]).end.0 + 1 < s[i + 1].start.0)
}

/// In a canonical sequence every earlier range ends with a gap before every
/// later range starts.
proof fn lemma_canonical_gap(s: Seq<IndexRange>, j: int, k: int)
    requires
        canonical(s),
        0 <= j < k < s.len(),
    ensures
        s[j].end.0 + 1 < s[k].start.0,
    decreases k - j,
{
    if k > j + 1 {
        lemma_canonical_gap(s, j, k - 1);
        assert(s[k - 1].end.0 + 1 < s[k].start.0);
    }
}

/// Appending a range covers exactly the old values and the new range.
proof fn lemma_covers_push(s: Seq<IndexRange>, x: IndexRange)
    ensures
        forall|v: int|
            #![trigger covers_by(s.push(x), v)]
            #![trigger covers_by(s, v)]
            covers_by(s.push(x), v) <==> covers_by(s, v) || x.covers(v),
{
    assert forall|v: int| covers_by(s.push(x), v) implies covers_by(s, v) || x.covers(v) by {
        let i = choose|i: int| 0 <= i < s.push(x).len() && (#[trigger] s.push(x)[i]).covers(v);
        if i < s.len() {
            assert(s[i].covers(v));
        } else {
            assert(s.push(x)[i] == x);
        }
    }
    assert forall|v: int| covers_by(s, v) || x.covers(v) implies covers_by(s.push(x), v) by {
        if covers_by(s, v) {
            let i = choose|i: int| 0 <= i < s.len() && (#[trigger] s[i]).covers(v);
            assert(s.push(x)[i].covers(v));
        } else {
            assert(s.push(x)[s.len() as int].covers(v));
        }
    }
}

/// Appending a well-formed range after a gap keeps a sequence canonical.
proof fn lemma_canonical_push(s: Seq<IndexRange>, x: IndexRange)
    requires
        canonical(s),
        x.wf(),
        s.len() > 0 ==> s.last().end.0 + 1 < x.start.0,
    ensures
        canonical(s.push(x)),
{
    let t = s.push(x);
    assert forall|i: int| 0 <= i < t.len() implies (#[trigger] t[i]).wf() by {
        if i < s.len() {
            assert(t[i] == s[i]);
        }
    }
    assert forall|i: int| 0 <= i < t.len() - 1 implies (#[trigger] t[i]).end.0 + 1 < t[i
        + 1].start.0 by {
        if i < s.len() - 1 {
            assert(t[i] == s[i] && t[i + 1] == s[i + 1]);
        } else {
            assert(t[i] == s.last() && t[i + 1] == x);
        }
    }
}

/// Whether a value occurs among a sequence of indexes.
pub open spec fn appears(s: Seq<UnhardenedIndex>, w: int) -> bool {
    exists|k: int| 0 <= k < s.len() && (#[trigger] s[k]).0 == w
}

/// Appending an index makes exactly it appear in addition.
proof fn lemma_appears_push(s: Seq<UnhardenedIndex>, x: UnhardenedIndex)
    ensures
        forall|w: int|
            #![trigger appears(s.push(x), w)]
            #![trigger appears(s, w)]
            appears(s.push(x), w) <==> appears(s, w) || x.0 == w,
{
    assert forall|w: int|
        #![trigger appears(s.push(x), w)]
        #![trigger appears(s, w)]
        appears(s.push(x), w) <==> appears(s, w) || x.0 == w by {
        if appears(s.push(x), w) {
            let k = choose|k: int| 0 <= k < s.push(x).len() && (#[trigger] s.push(x)[k]).0 == w;
            if k < s.len() {
                assert(s[k].0 == w);
            }
        }
        if appears(s, w) {
            let k = choose|k: int| 0 <= k < s.len() && (#[trigger] s[k]).0 == w;
            assert(s.push(x)[k].0 == w);
        }
        if x.0 == w {
            assert(s.push(x)[s.len() as int].0 == w);
        }
    }
}

/// An ordered collection of index ranges, kept canonical: ranges are sorted
/// ascending and overlapping or adjacent ranges are merged on insertion, so
/// membership and iteration are unambiguous.
#[derive(Debug, PartialEq, Eq)]
pub struct IndexRangeList(Vec<IndexRange>);

impl View for IndexRangeList {
    type V = Seq<IndexRange>;

    closed spec fn view(&self) -> Seq<IndexRange> {
        self.0@
    }
}

impl IndexRangeList {
    /// Whether the list is canonical.
    pub open spec fn wf(self) -> bool {
        canonical(self@)
    }

    /// Whether the list covers a value.
    pub open spec fn covers_spec(self, v: int) -> bool {
        covers_by(self@, v)
    }

    /// An empty list, covering nothing.
    pub fn empty() -> (r: Self)
        ensures
            r.wf(),
            forall|v: int| !r.covers_spec(v),
            r@.len() == 0,
    {
        IndexRangeList(Vec::new())
    }

    /// The ranges of the list, sorted ascending.
    pub fn ranges(&self) -> (r: &Vec<IndexRange>)
        ensures
            r@ == self@,
    {
        &self.0
    }

    /// Whether an index is covered by the list.
    pub fn contains(&self, idx: UnhardenedIndex) -> (r: bool)
        ensures
            r == self.covers_spec(idx.0 as int),
    {
        let mut i: usize = 0;
        while i < self.0.len()
            invariant
                0 <= i <= self.0@.len(),
                self@ == self.0@,
                forall|k: int| 0 <= k < i ==> !(#[trigger] self@[k]).covers(idx.0 as int),
            decreases self.0@.len() - i,
        {
            if self.0[i].contains(idx) {
                return true;
            }
            i = i + 1;
        }
        false
    }

    /// Inserts a range, merging it with every range it overlaps or touches:
    /// afterwards the list is canonical again and covers exactly the values
    /// it covered before plus the values of the new range.
    #[verifier::rlimit(100)]
    pub fn insert(&mut self, r: IndexRange)
        requires
            old(self).wf(),
            r.wf(),
        ensures
            final(self).wf(),
            forall|v: int|
                final(self).covers_spec(v) <==> old(self).covers_spec(v) || r.covers(v),
    {
        let ghost l = self@;
        let mut out: Vec<IndexRange> = Vec::new();
        let mut cur: IndexRange = r;
        let mut placed: bool = false;
        let n = self.0.len();
        let mut i: usize = 0;
        while i < n
            invariant
                canonical(l),
                n == l.len(),
                self@ == l,
                self.0@ == l,
                r.wf(),
                0 <= i <= n,
                cur.wf(),
                canonical(out@),
                forall|k: int, j: int|
                    0 <= k < out@.len() && i <= j < l.len() ==> (#[trigger] out@[k]).end.0 + 1 < (
                    #[trigger] l[j]).start.0,
                !placed ==> forall|k: int|
                    0 <= k < out@.len() ==> (#[trigger] out@[k]).end.0 + 1 < cur.start.0,
                !placed ==> forall|v: int|
                    #![trigger covers_by(out@, v)]
                    #![trigger covers_by(l.take(i as int), v)]
                    covers_by(out@, v) || cur.covers(v) <==> covers_by(l.take(i as int), v)
                        || r.covers(v),
                placed ==> forall|v: int|
                    #![trigger covers_by(out@, v)]
                    #![trigger covers_by(l.take(i as int), v)]
                    covers_by(out@, v) <==> covers_by(l.take(i as int), v) || r.covers(v),
            decreases n - i,
        {
            let e = self.0[i];
            proof {
                assert(l.take(i as int).push(e) =~= l.take(i as int + 1));
                lemma_covers_push(l.take(i as int), e);
                assert(e.wf());
            }
            if placed {
                proof {
                    lemma_canonical_push(out@, e);
                    lemma_covers_push(out@, e);
                    assert forall|j: int| i as int + 1 <= j < l.len() implies e.end.0 + 1 < (
                    #[trigger] l[j]).start.0 by {
                        lemma_canonical_gap(l, i as int, j);
                    }
                }
                out.push(e);
            } else if e.end.0 + 1 < cur.start.0 {
                proof {
                    lemma_canonical_push(out@, e);
                    lemma_covers_push(out@, e);
                    assert forall|j: int| i as int + 1 <= j < l.len() implies e.end.0 + 1 < (
                    #[trigger] l[j]).start.0 by {
                        lemma_canonical_gap(l, i as int, j);
                    }
                }
                out.push(e);
            } else if cur.end.0 + 1 < e.start.0 {
                proof {
                    lemma_canonical_push(out@, cur);
                    lemma_covers_push(out@, cur);
                    assert forall|j: int| i as int <= j < l.len() implies cur.end.0 + 1 < (
                    #[trigger] l[j]).start.0 by {
                        if j > i as int {
                            lemma_canonical_gap(l, i as int, j);
                        }
                    }
                }
                out.push(cur);
                proof {
                    lemma_canonical_push(out@, e);
                    lemma_covers_push(out@, e);
                    assert forall|j: int| i as int + 1 <= j < l.len() implies e.end.0 + 1 < (
                    #[trigger] l[j]).start.0 by {
                        lemma_canonical_gap(l, i as int, j);
                    }
                }
                out.push(e);
                placed = true;
            } else {
                let ghost oldcur = cur;
                let s = if cur.start.0 <= e.start.0 {
                    cur.start
                } else {
                    e.start
                };
                let t = if cur.end.0 >= e.end.0 {
                    cur.end
                } else {
                    e.end
                };
                cur = IndexRange { start: s, end: t };
                proof {
                    assert forall|v: int| cur.covers(v) <==> oldcur.covers(v) || e.covers(
                        v,
                    ) by {}
                }
            }
            i = i + 1;
        }
        proof {
            assert(l.take(n as int) =~= l);
        }
        if !placed {
            proof {
                lemma_canonical_push(out@, cur);
                lemma_covers_push(out@, cur);
            }
            out.push(cur);
        }
        self.0 = out;
    }

    /// Every index the list covers, in strictly ascending order, each once.
    /// This is the iteration a scanning caller walks for a gap-limit window.
    #[verifier::rlimit(100)]
    pub fn indexes(&self) -> (out: Vec<UnhardenedIndex>)
        requires
            self.wf(),
        ensures
            forall|a: int, b: int| 0 <= a < b < out@.len() ==> out@[a].0 < out@[b].0,
            forall|k: int| 0 <= k < out@.len() ==> seg_wf(#[trigger] out@[k]),
            forall|v: int| #[trigger] self.covers_spec(v) <==> appears(out@, v),
    {
        let ghost l = self@;
        let mut out: Vec<UnhardenedIndex> = Vec::new();
        let n = self.0.len();
        let mut i: usize = 0;
        while i < n
            invariant
                canonical(l),
                self@ == l,
                self.0@ == l,
                n == l.len(),
                0 <= i <= n,
                forall|a: int, b: int| 0 <= a < b < out@.len() ==> out@[a].0 < out@[b].0,
                forall|k: int| 0 <= k < out@.len() ==> seg_wf(#[trigger] out@[k]),
                forall|k: int, j: int|
                    0 <= k < out@.len() && i <= j < l.len() ==> (#[trigger] out@[k]).0 < (
                    #[trigger] l[j]).start.0,
                forall|v: int|
                    #![trigger covers_by(l.take(i as int), v)]
                    #![trigger appears(out@, v)]
                    covers_by(l.take(i as int), v) <==> appears(out@, v),
            decreases n - i,
        {
            let e = self.0[i];
            proof {
                assert(e.wf());
                assert(l.take(i as int).push(e) =~= l.take(i as int + 1));
                lemma_covers_push(l.take(i as int), e);
            }
            let mut v: u32 = e.start.0;
            while v <= e.end.0
                invariant
                    e.wf(),
                    canonical(l),
                    n == l.len(),
                    0 <= i < n,
                    e == l[i as int],
                    e.start.0 <= v <= e.end.0 + 1,
                    forall|a: int, b: int| 0 <= a < b < out@.len() ==> out@[a].0 < out@[b].0,
                    forall|k: int| 0 <= k < out@.len() ==> seg_wf(#[trigger] out@[k]),
                    forall|k: int| 0 <= k < out@.len() ==> (#[trigger] out@[k]).0 < v,
                    forall|k: int, j: int|
                        0 <= k < out@.len() && i < j < l.len() ==> (#[trigger] out@[k]).0 < (
                        #[trigger] l[j]).start.0,
                    forall|w: int|
                        #![trigger covers_by(l.take(i as int), w)]
                        #![trigger appears(out@, w)]
                        covers_by(l.take(i as int), w) || e.start.0 <= w < v <==> appears(
                            out@,
                            w,
                        ),
                decreases e.end.0 + 1 - v,
            {
                let ghost oldout = out@;
                out.push(UnhardenedIndex(v));
                proof {
                    assert(out@ == oldout.push(UnhardenedIndex(v)));
                    lemma_appears_push(oldout, UnhardenedIndex(v));
                    assert forall|j: int| i < j < l.len() implies (v as int) < (
                    #[trigger] l[j]).start.0 by {
                        lemma_canonical_gap(l, i as int, j);
                    }
                }
                v = v + 1;
            }
            proof {
                assert forall|k: int, j: int|
                    0 <= k < out@.len() && i as int + 1 <= j < l.len() implies (
                #[trigger] out@[k]).0 < (#[trigger] l[j]).start.0 by {
                    lemma_canonical_gap(l, i as int, j);
                    assert(out@[k].0 < v);
                    assert(v == e.end.0 + 1);
                }
                assert forall|w: int|
                    #![trigger covers_by(l.take(i as int + 1), w)]
                    #![trigger appears(out@, w)]
                    covers_by(l.take(i as int + 1), w) <==> appears(out@, w) by {
                    assert(v == e.end.0 + 1);
                    assert(covers_by(l.take(i as int + 1), w) <==> covers_by(
                        l.take(i as int),
                        w,
                    ) || e.covers(w));
                    assert(e.covers(w) <==> e.start.0 <= w < v);
                }
            }
            i = i + 1;
        }
        proof {
            assert(l.take(n as int) =~= l);
        }
        out
    }
}

} // verus!
