//! Tunable ranges of a channel: frequency and sample-rate domains.
//!
//! A range is a closed interval of a continuous quantity, held at integer
//! resolution (the unit, hertz or a fraction of it, is the caller's choice).
//! A channel's domain is the union of a list of ranges.

use vstd::prelude::*;

verus! {

/// The mathematical value of a [`Range`]: the closed interval from `lo` to `hi`.
pub struct Interval {
    pub lo: int,
    pub hi: int,
    /// Spacing of the allowed values, 0 for a continuous interval.
    pub step: nat,
}

impl Interval {
    /// The lower end does not exceed the upper end.
    pub open spec fn wf(self) -> bool {
        self.lo <= self.hi
    }

    /// A single fixed value rather than a stretch.
    pub open spec fn is_point(self) -> bool {
        self.lo == self.hi
    }

    /// `x` is a value of the interval.
    pub open spec fn contains(self, x: int) -> bool {
        self.lo <= x <= self.hi
    }

    /// The interval reaches the position `h`, counted in half units: an even
    /// `h` stands for the value `h / 2`, an odd `h` for the open stretch
    /// between the values `(h - 1) / 2` and `(h + 1) / 2`.
    pub open spec fn covers(self, h: int) -> bool {
        2 * self.lo <= h <= 2 * self.hi
    }

    /// `self` lies inside `outer`.
    pub open spec fn within(self, outer: Interval) -> bool {
        outer.lo <= self.lo && self.hi <= outer.hi
    }
}

/// `x` is a value of at least one interval of `s`.
pub open spec fn union_contains(s: Seq<Interval>, x: int) -> bool {
    exists|i: int| 0 <= i < s.len() && #[trigger] s[i].contains(x)
}

/// At least one interval of `s` reaches the half-unit position `h`.
pub open spec fn union_covers(s: Seq<Interval>, h: int) -> bool {
    exists|i: int| 0 <= i < s.len() && #[trigger] s[i].covers(h)
}

/// Both lists describe the same part of the continuum: the same values and
/// the same stretches between neighbouring values.
pub open spec fn same_union(a: Seq<Interval>, b: Seq<Interval>) -> bool {
    forall|h: int| union_covers(a, h) == union_covers(b, h)
}

/// Every interval is well formed.
pub open spec fn all_wf(s: Seq<Interval>) -> bool {
    forall|i: int| 0 <= i < s.len() ==> (#[trigger] s[i]).wf()
}

/// Ascending, with a gap before each next interval: sorted and pairwise
/// disjoint, no two of them even touching.
pub open spec fn canonical(s: Seq<Interval>) -> bool {
    &&& all_wf(s)
    &&& forall|i: int, j: int|
        0 <= i < j < s.len() ==> (#[trigger] s[i]).hi < (#[trigger] s[j]).lo
}

/// Some interval of `parts` lies inside `whole`.
pub open spec fn has_part(parts: Seq<Interval>, whole: Interval) -> bool {
    exists|i: int| 0 <= i < parts.len() && (#[trigger] parts[i]).within(whole)
}

/// `part` lies inside some interval of `s`.
pub open spec fn inside_some(part: Interval, s: Seq<Interval>) -> bool {
    exists|k: int| 0 <= k < s.len() && part.within(#[trigger] s[k])
}

/// All parts inside `whole` have the step `step`.
pub open spec fn parts_share_step(parts: Seq<Interval>, whole: Interval, step: nat) -> bool {
    forall|i: int|
        0 <= i < parts.len() && (#[trigger] parts[i]).within(whole) ==> parts[i].step == step
}

/// Two parts inside `whole` differ in their step.
pub open spec fn parts_differ_in_step(parts: Seq<Interval>, whole: Interval) -> bool {
    exists|i: int, j: int|
        0 <= i < parts.len() && 0 <= j < parts.len() && (#[trigger] parts[i]).within(whole) && (
        #[trigger] parts[j]).within(whole) && parts[i].step != parts[j].step
}

/// `whole` carries the step that its parts agree on, and 0 where they differ.
pub open spec fn step_agrees(parts: Seq<Interval>, whole: Interval) -> bool {
    ||| parts_share_step(parts, whole, whole.step)
    ||| (whole.step == 0 && parts_differ_in_step(parts, whole))
}

/// Every interval of `merged` is made of at least one part and carries the
/// step of its parts, and every part went into one interval of `merged`.
pub open spec fn made_of(parts: Seq<Interval>, merged: Seq<Interval>) -> bool {
    &&& forall|k: int| 0 <= k < merged.len() ==> #[trigger] has_part(parts, merged[k])
    &&& forall|k: int| 0 <= k < merged.len() ==> #[trigger] step_agrees(parts, merged[k])
    &&& forall|i: int| 0 <= i < parts.len() ==> #[trigger] inside_some(parts[i], merged)
}

/// The distance between two values.
pub open spec fn dist(a: int, b: int) -> int {
    if a <= b {
        b - a
    } else {
        a - b
    }
}

/// `y` is the value of the union of `s` closest to `x`, the lower one where
/// two are equally close.
pub open spec fn is_nearest(s: Seq<Interval>, x: int, y: int) -> bool {
    &&& union_contains(s, y)
    &&& forall|z: int|
        union_contains(s, z) ==> dist(x, y) < dist(x, z) || (dist(x, y) == dist(x, z) && y <= z)
}

/// One tunable range: a closed interval with an optional step.
#[derive(Clone, Copy, Debug, PartialEq, Eq)]
pub struct Range {
    minimum: i64,
    maximum: i64,
    step: u64,
}

impl View for Range {
    type V = Interval;

    closed spec fn view(&self) -> Interval {
        Interval { lo: self.minimum as int, hi: self.maximum as int, step: self.step as nat }
    }
}

/// The intervals that a list of ranges stands for, in the list's order.
pub open spec fn intervals(v: Seq<Range>) -> Seq<Interval> {
    Seq::new(v.len(), |i: int| v[i]@)
}

impl Range {
    #[verifier::type_invariant]
    spec fn inv(self) -> bool {
        self.minimum <= self.maximum
    }

    /// A range from `minimum` to `maximum`; `None` where `minimum` exceeds
    /// `maximum`. A `step` of 0 means that every value between the ends is
    /// allowed.
    pub fn new(minimum: i64, maximum: i64, step: u64) -> (r: Option<Range>)
        ensures
            r is Some <==> minimum <= maximum,
            r matches Some(x) ==> x@ == (Interval {
                lo: minimum as int,
                hi: maximum as int,
                step: step as nat,
            }),
    {
        if minimum <= maximum {
            Some(Range { minimum, maximum, step })
        } else {
            None
        }
    }

    /// The range that holds the single value `value`.
    pub fn point(value: i64) -> (r: Range)
        ensures
            r@ == (Interval { lo: value as int, hi: value as int, step: 0 }),
    {
        Range { minimum: value, maximum: value, step: 0 }
    }

    /// The lower end.
    pub fn minimum(&self) -> (m: i64)
        ensures
            m == self@.lo,
            self@.wf(),
    {
        proof {
            use_type_invariant(self);
        }
        self.minimum
    }

    /// The upper end, which is not below the lower end.
    pub fn maximum(&self) -> (m: i64)
        ensures
            m == self@.hi,
            self@.wf(),
    {
        proof {
            use_type_invariant(self);
        }
        self.maximum
    }

    /// The spacing of the allowed values, 0 for a continuous range.
    pub fn step(&self) -> (s: u64)
        ensures
            s == self@.step,
    {
        self.step
    }

    /// Whether the range is a single fixed value, to be shown and read as a
    /// point and not as an interval.
    pub fn is_point(&self) -> (b: bool)
        ensures
            b == self@.is_point(),
    {
        self.minimum == self.maximum
    }

    /// Whether `x` lies in the range, the ends included.
    pub fn contains(&self, x: i64) -> (b: bool)
        ensures
            b == self@.contains(x as int),
    {
        self.minimum <= x && x <= self.maximum
    }
}

/// The intervals `s[a..b]` all have the step `step`.
spec fn steps_equal(s: Seq<Interval>, a: int, b: int, step: nat) -> bool {
    forall|k: int| a <= k < b ==> (#[trigger] s[k]).step == step
}

/// The shape of `out` after `r` was put into the canonical list `acc`: the
/// intervals `acc[a..b]` are those that `r` touches, and `m` replaces them.
spec fn insertion(acc: Seq<Interval>, r: Interval, a: int, b: int, m: Interval, out: Seq<Interval>) -> bool {
    &&& canonical(acc)
    &&& r.wf()
    &&& 0 <= a <= b <= acc.len()
    &&& forall|k: int| 0 <= k < a ==> (#[trigger] acc[k]).hi < r.lo
    &&& forall|k: int| a <= k < b ==> (#[trigger] acc[k]).hi >= r.lo && acc[k].lo <= r.hi
    &&& forall|k: int| b <= k < acc.len() ==> (#[trigger] acc[k]).lo > r.hi
    &&& m.lo == (if a < b && acc[a].lo < r.lo {
        acc[a].lo
    } else {
        r.lo
    })
    &&& m.hi == (if a < b && acc[b - 1].hi > r.hi {
        acc[b - 1].hi
    } else {
        r.hi
    })
    &&& m.step == (if steps_equal(acc, a, b, r.step) {
        r.step
    } else {
        0
    })
    &&& out.len() == acc.len() - (b - a) + 1
    &&& forall|j: int| 0 <= j < a ==> #[trigger] out[j] == acc[j]
    &&& out[a] == m
    &&& forall|j: int| a < j < out.len() ==> #[trigger] out[j] == acc[j - 1 - a + b]
}

/// Where the new interval lies: around `r` and the intervals that `r`
/// touches, clear of all the others.
proof fn lemma_insertion_bounds(acc: Seq<Interval>, r: Interval, a: int, b: int, m: Interval, out: Seq<Interval>)
    requires
        insertion(acc, r, a, b, m, out),
    ensures
        r.within(m),
        forall|k: int| a <= k < b ==> (#[trigger] acc[k]).within(m),
        forall|k: int| 0 <= k < a ==> (#[trigger] acc[k]).hi < m.lo,
        forall|k: int| b <= k < acc.len() ==> (#[trigger] acc[k]).lo > m.hi,
{
    assert forall|k: int| a <= k < b implies (#[trigger] acc[k]).within(m) by {
        assert(acc[a].wf() && acc[b - 1].wf() && acc[k].wf());
        if a < k {
            assert(acc[a].hi < acc[k].lo);
        }
        if k < b - 1 {
            assert(acc[k].hi < acc[b - 1].lo);
        }
    }
    assert forall|k: int| 0 <= k < a implies (#[trigger] acc[k]).hi < m.lo by {
        if a < b {
            assert(acc[k].hi < acc[a].lo);
        }
    }
    assert forall|k: int| b <= k < acc.len() implies (#[trigger] acc[k]).lo > m.hi by {
        if a < b {
            assert(acc[b - 1].hi < acc[k].lo);
        }
    }
}

/// Where an interval above those that `r` touches stands in `out`.
proof fn lemma_insertion_shift(acc: Seq<Interval>, r: Interval, a: int, b: int, m: Interval, out: Seq<Interval>, k: int)
    requires
        insertion(acc, r, a, b, m, out),
        b <= k < acc.len(),
    ensures
        a < k - b + a + 1 < out.len(),
        out[k - b + a + 1] == acc[k],
{
    let j = k - b + a + 1;
    assert(out[j] == acc[j - 1 - a + b]);
}

/// The list stays canonical.
proof fn lemma_insertion_canonical(acc: Seq<Interval>, r: Interval, a: int, b: int, m: Interval, out: Seq<Interval>)
    requires
        insertion(acc, r, a, b, m, out),
    ensures
        canonical(out),
{
    lemma_insertion_bounds(acc, r, a, b, m, out);
    assert forall|j: int| 0 <= j < out.len() implies (#[trigger] out[j]).wf() by {
        if j < a {
            assert(acc[j].wf());
        } else if j > a {
            assert(out[j] == acc[j - 1 - a + b]);
            assert(acc[j - 1 - a + b].wf());
        }
    }
    assert forall|i: int, j: int| 0 <= i < j < out.len() implies (#[trigger] out[i]).hi < (
    #[trigger] out[j]).lo by {
        let ki = if i < a {
            i
        } else {
            i - 1 - a + b
        };
        let kj = j - 1 - a + b;
        if j < a {
            assert(acc[i].hi < acc[j].lo);
        } else if j == a {
            assert(acc[i].hi < m.lo);
        } else if i < a {
            assert(out[j] == acc[kj]);
            assert(acc[i].hi < acc[kj].lo);
        } else if i == a {
            assert(out[j] == acc[kj]);
            assert(acc[kj].lo > m.hi);
        } else {
            assert(out[i] == acc[ki]);
            assert(out[j] == acc[kj]);
            assert(acc[ki].hi < acc[kj].lo);
        }
    }
}

/// The list covers what it covered before, and `r`.
proof fn lemma_insertion_covers(acc: Seq<Interval>, r: Interval, a: int, b: int, m: Interval, out: Seq<Interval>)
    requires
        insertion(acc, r, a, b, m, out),
    ensures
        forall|h: int| union_covers(out, h) == (union_covers(acc, h) || r.covers(h)),
{
    lemma_insertion_bounds(acc, r, a, b, m, out);
    assert forall|h: int| union_covers(out, h) implies union_covers(acc, h) || r.covers(h) by {
        let j = choose|j: int| 0 <= j < out.len() && #[trigger] out[j].covers(h);
        if j < a {
            assert(acc[j].covers(h));
        } else if j > a {
            assert(out[j] == acc[j - 1 - a + b]);
            assert(acc[j - 1 - a + b].covers(h));
        } else if !r.covers(h) {
            if h < 2 * r.lo {
                assert(acc[a].covers(h));
            } else {
                assert(acc[b - 1].covers(h));
            }
        }
    }
    assert forall|h: int| union_covers(acc, h) || r.covers(h) implies union_covers(out, h) by {
        if r.covers(h) {
            assert(out[a].covers(h));
        } else {
            let k = choose|k: int| 0 <= k < acc.len() && #[trigger] acc[k].covers(h);
            if k < a {
                assert(out[k].covers(h));
            } else if k < b {
                assert(acc[k].within(m));
                assert(out[a].covers(h));
            } else {
                lemma_insertion_shift(acc, r, a, b, m, out, k);
                assert(out[k - b + a + 1].covers(h));
            }
        }
    }
}

/// An interval that `r` does not touch keeps exactly its parts.
proof fn lemma_untouched_keeps_parts(
    acc: Seq<Interval>,
    parts: Seq<Interval>,
    r: Interval,
    a: int,
    b: int,
    m: Interval,
    out: Seq<Interval>,
    k: int,
)
    requires
        insertion(acc, r, a, b, m, out),
        made_of(parts, acc),
        0 <= k < a || b <= k < acc.len(),
    ensures
        has_part(parts.push(r), acc[k]),
        step_agrees(parts.push(r), acc[k]),
{
    let n = parts.len() as int;
    let grown = parts.push(r);
    let whole = acc[k];
    assert(whole.wf());
    assert(has_part(parts, whole));
    let p = choose|p: int| 0 <= p < parts.len() && (#[trigger] parts[p]).within(whole);
    assert(grown[p].within(whole));
    assert(step_agrees(parts, whole));
    assert(!r.within(whole));
    if parts_share_step(parts, whole, whole.step) {
        assert forall|i: int| 0 <= i < grown.len() && (#[trigger] grown[i]).within(
            whole,
        ) implies grown[i].step == whole.step by {
            assert(i < n);
            assert(parts[i].within(whole));
        }
    } else {
        let (i, j) = choose|i: int, j: int|
            0 <= i < parts.len() && 0 <= j < parts.len() && (#[trigger] parts[i]).within(whole) && (
            #[trigger] parts[j]).within(whole) && parts[i].step != parts[j].step;
        assert(grown[i].within(whole) && grown[j].within(whole) && grown[i].step != grown[j].step);
    }
}

/// A part inside the new interval lies in an interval that `r` touches.
proof fn lemma_part_of_new(
    acc: Seq<Interval>,
    parts: Seq<Interval>,
    r: Interval,
    a: int,
    b: int,
    m: Interval,
    out: Seq<Interval>,
    i: int,
) -> (k: int)
    requires
        insertion(acc, r, a, b, m, out),
        all_wf(parts),
        made_of(parts, acc),
        0 <= i < parts.len(),
        parts[i].within(m),
    ensures
        a <= k < b,
        parts[i].within(acc[k]),
{
    lemma_insertion_bounds(acc, r, a, b, m, out);
    assert(inside_some(parts[i], acc));
    let k = choose|k: int| 0 <= k < acc.len() && parts[i].within(#[trigger] acc[k]);
    assert(parts[i].wf());
    if k < a {
        assert(acc[k].hi < m.lo);
    } else if k >= b {
        assert(acc[k].lo > m.hi);
    }
    k
}

/// The new interval carries the step of its parts.
proof fn lemma_new_step(
    acc: Seq<Interval>,
    parts: Seq<Interval>,
    r: Interval,
    a: int,
    b: int,
    m: Interval,
    out: Seq<Interval>,
)
    requires
        insertion(acc, r, a, b, m, out),
        all_wf(parts),
        made_of(parts, acc),
    ensures
        step_agrees(parts.push(r), m),
{
    lemma_insertion_bounds(acc, r, a, b, m, out);
    let n = parts.len() as int;
    let grown = parts.push(r);
    assert(grown[n] == r);
    if steps_equal(acc, a, b, r.step) {
        if forall|k: int| a <= k < b ==> parts_share_step(parts, #[trigger] acc[k], acc[k].step) {
            assert forall|i: int| 0 <= i < grown.len() && (#[trigger] grown[i]).within(
                m,
            ) implies grown[i].step == m.step by {
                if i < n {
                    assert(grown[i] == parts[i]);
                    let k = lemma_part_of_new(acc, parts, r, a, b, m, out, i);
                    assert(parts_share_step(parts, acc[k], acc[k].step));
                }
            }
        } else {
            let k = choose|k: int|
                a <= k < b && !parts_share_step(parts, #[trigger] acc[k], acc[k].step);
            assert(step_agrees(parts, acc[k]));
            let (i, j) = choose|i: int, j: int|
                0 <= i < parts.len() && 0 <= j < parts.len() && (#[trigger] parts[i]).within(acc[k])
                    && (#[trigger] parts[j]).within(acc[k]) && parts[i].step != parts[j].step;
            assert(acc[k].within(m));
            assert(grown[i] == parts[i] && grown[j] == parts[j]);
            assert(grown[i].within(m) && grown[j].within(m) && grown[i].step != grown[j].step);
        }
    } else {
        let k = choose|k: int| a <= k < b && (#[trigger] acc[k]).step != r.step;
        assert(acc[k].within(m));
        assert(step_agrees(parts, acc[k]));
        assert(has_part(parts, acc[k]));
        if parts_share_step(parts, acc[k], acc[k].step) {
            let p = choose|p: int| 0 <= p < parts.len() && (#[trigger] parts[p]).within(acc[k]);
            assert(grown[p] == parts[p]);
            assert(grown[p].within(m) && grown[n].within(m) && grown[p].step != grown[n].step);
        } else {
            let (i, j) = choose|i: int, j: int|
                0 <= i < parts.len() && 0 <= j < parts.len() && (#[trigger] parts[i]).within(acc[k])
                    && (#[trigger] parts[j]).within(acc[k]) && parts[i].step != parts[j].step;
            assert(grown[i] == parts[i] && grown[j] == parts[j]);
            assert(grown[i].within(m) && grown[j].within(m) && grown[i].step != grown[j].step);
        }
    }
}

/// Every part, `r` among them, lies in an interval of `out`.
proof fn lemma_parts_stay_inside(
    acc: Seq<Interval>,
    parts: Seq<Interval>,
    r: Interval,
    a: int,
    b: int,
    m: Interval,
    out: Seq<Interval>,
    i: int,
)
    requires
        insertion(acc, r, a, b, m, out),
        made_of(parts, acc),
        0 <= i <= parts.len(),
    ensures
        inside_some(parts.push(r)[i], out),
{
    lemma_insertion_bounds(acc, r, a, b, m, out);
    let grown = parts.push(r);
    if i == parts.len() {
        assert(grown[i].within(out[a]));
    } else {
        assert(grown[i] == parts[i]);
        assert(inside_some(parts[i], acc));
        let k = choose|k: int| 0 <= k < acc.len() && parts[i].within(#[trigger] acc[k]);
        if k < a {
            assert(grown[i].within(out[k]));
        } else if k < b {
            assert(acc[k].within(m));
            assert(grown[i].within(out[a]));
        } else {
            lemma_insertion_shift(acc, r, a, b, m, out, k);
            assert(grown[i].within(out[k - b + a + 1]));
        }
    }
}

/// The list is made of the parts that it was made of before, and of `r`.
proof fn lemma_insertion_made_of(
    acc: Seq<Interval>,
    parts: Seq<Interval>,
    r: Interval,
    a: int,
    b: int,
    m: Interval,
    out: Seq<Interval>,
)
    requires
        insertion(acc, r, a, b, m, out),
        all_wf(parts),
        made_of(parts, acc),
    ensures
        made_of(parts.push(r), out),
{
    let n = parts.len() as int;
    let grown = parts.push(r);
    assert forall|j: int| 0 <= j < out.len() implies has_part(grown, out[j]) && step_agrees(
        grown,
        out[j],
    ) by {
        if j < a {
            assert(out[j] == acc[j]);
            lemma_untouched_keeps_parts(acc, parts, r, a, b, m, out, j);
        } else if j > a {
            assert(out[j] == acc[j - 1 - a + b]);
            lemma_untouched_keeps_parts(acc, parts, r, a, b, m, out, j - 1 - a + b);
        } else {
            lemma_insertion_bounds(acc, r, a, b, m, out);
            assert(grown[n].within(m));
            lemma_new_step(acc, parts, r, a, b, m, out);
        }
    }
    assert forall|i: int| 0 <= i < grown.len() implies inside_some(grown[i], out) by {
        lemma_parts_stay_inside(acc, parts, r, a, b, m, out, i);
    }
}

/// What putting `r` into the canonical list `acc` gives, stated of the
/// result `out`.
spec fn inserted(acc: Seq<Interval>, parts: Seq<Interval>, r: Interval, out: Seq<Interval>) -> bool {
    &&& canonical(out)
    &&& forall|h: int| #[trigger] union_covers(out, h) == (union_covers(acc, h) || r.covers(h))
    &&& made_of(parts.push(r), out)
}

/// A list of the shape `insertion` is what `inserted` asks for.
proof fn lemma_insertion(
    acc: Seq<Interval>,
    parts: Seq<Interval>,
    r: Interval,
    a: int,
    b: int,
    m: Interval,
    out: Seq<Interval>,
)
    requires
        insertion(acc, r, a, b, m, out),
        all_wf(parts),
        made_of(parts, acc),
    ensures
        inserted(acc, parts, r, out),
{
    lemma_insertion_canonical(acc, r, a, b, m, out);
    lemma_insertion_covers(acc, r, a, b, m, out);
    lemma_insertion_made_of(acc, parts, r, a, b, m, out);
}

/// Puts `r` into the canonical list `acc`, joining it with every interval
/// that it overlaps or touches.
fn insert_range(acc: &Vec<Range>, r: Range, Ghost(parts): Ghost<Seq<Interval>>) -> (out: Vec<Range>)
    requires
        canonical(intervals(acc@)),
        all_wf(parts),
        made_of(parts, intervals(acc@)),
    ensures
        inserted(intervals(acc@), parts, r@, intervals(out@)),
{
    proof {
        use_type_invariant(&r);
    }
    let ghost iv = intervals(acc@);
    let n = acc.len();
    let mut out: Vec<Range> = Vec::new();
    let mut i: usize = 0;
    while i < n && acc[i].maximum < r.minimum
        invariant
            i <= n,
            n == acc.len(),
            iv == intervals(acc@),
            out@.len() == i,
            forall|j: int| 0 <= j < i ==> #[trigger] out@[j] == acc@[j],
            forall|k: int| 0 <= k < i ==> (#[trigger] iv[k]).hi < r@.lo,
        decreases n - i,
    {
        out.push(acc[i]);
        i += 1;
    }
    let a = i;
    let mut lo: i64 = r.minimum;
    let mut hi: i64 = r.maximum;
    let mut step: u64 = r.step;
    while i < n && acc[i].minimum <= r.maximum
        invariant
            a <= i <= n,
            n == acc.len(),
            iv == intervals(acc@),
            canonical(iv),
            r@.wf(),
            a < n ==> iv[a as int].hi >= r@.lo,
            forall|k: int| a <= k < i ==> (#[trigger] iv[k]).hi >= r@.lo && iv[k].lo <= r@.hi,
            lo == (if a < i && iv[a as int].lo < r@.lo {
                iv[a as int].lo
            } else {
                r@.lo
            }),
            hi == (if a < i && iv[i - 1].hi > r@.hi {
                iv[i - 1].hi
            } else {
                r@.hi
            }),
            step == (if steps_equal(iv, a as int, i as int, r@.step) {
                r@.step
            } else {
                0
            }),
        decreases n - i,
    {
        let t = acc[i];
        proof {
            assert(iv[i as int] == t@);
            assert(iv[i as int].wf());
            if a < i {
                assert(iv[a as int].hi < iv[i as int].lo);
                assert(iv[i - 1].hi < iv[i as int].lo);
                assert(iv[a as int].wf());
            }
            if steps_equal(iv, a as int, i as int, r@.step) && t@.step == r@.step {
                assert(steps_equal(iv, a as int, i + 1, r@.step));
            } else if !steps_equal(iv, a as int, i as int, r@.step) {
                let k = choose|k: int| a <= k < i && (#[trigger] iv[k]).step != r@.step;
                assert(iv[k].step != r@.step);
                assert(!steps_equal(iv, a as int, i + 1, r@.step));
            } else {
                assert(!steps_equal(iv, a as int, i + 1, r@.step));
            }
        }
        if t.minimum < lo {
            lo = t.minimum;
        }
        if t.maximum > hi {
            hi = t.maximum;
        }
        if t.step != step {
            step = 0;
        }
        i += 1;
    }
    let b = i;
    assert forall|k: int| b <= k < n implies (#[trigger] iv[k]).lo > r@.hi by {
        assert(iv[b as int].wf());
        if b < k {
            assert(iv[b as int].hi < iv[k].lo);
        }
    }
    assert(lo <= hi) by {
        if a < b {
            assert(iv[a as int].wf());
            assert(iv[b - 1].wf());
        }
    }
    let m = Range { minimum: lo, maximum: hi, step };
    out.push(m);
    while i < n
        invariant
            b <= i <= n,
            n == acc.len(),
            out@.len() == a + 1 + (i - b),
            forall|j: int| 0 <= j < a ==> #[trigger] out@[j] == acc@[j],
            out@[a as int] == m,
            forall|j: int| a < j < out@.len() ==> #[trigger] out@[j] == acc@[j - 1 - a + b],
        decreases n - i,
    {
        out.push(acc[i]);
        i += 1;
    }
    proof {
        let ov = intervals(out@);
        assert forall|j: int| 0 <= j < a implies #[trigger] ov[j] == iv[j] by {
            assert(out@[j] == acc@[j]);
        }
        assert forall|j: int| a < j < ov.len() implies #[trigger] ov[j] == iv[j - 1 - a + b] by {
            assert(out@[j] == acc@[j - 1 - a + b]);
        }
        assert(ov[a as int] == m@);
        assert(insertion(iv, r@, a as int, b as int, m@, ov));
        lemma_insertion(iv, parts, r@, a as int, b as int, m@, ov);
    }
    out
}

/// The canonical form of a list of ranges: ascending, pairwise disjoint with
/// a gap between neighbours, and standing for the same union. Ranges that
/// overlap or touch are joined; a joined range keeps the step that its parts
/// share and is continuous (step 0) where they differ.
pub fn merge_ranges(list: &Vec<Range>) -> (out: Vec<Range>)
    ensures
        canonical(intervals(out@)),
        same_union(intervals(out@), intervals(list@)),
        forall|x: int|
            union_contains(intervals(out@), x) == union_contains(intervals(list@), x),
        made_of(intervals(list@), intervals(out@)),
{
    let ghost iv = intervals(list@);
    let mut acc: Vec<Range> = Vec::new();
    let mut n: usize = 0;
    while n < list.len()
        invariant
            n <= list.len(),
            iv == intervals(list@),
            canonical(intervals(acc@)),
            all_wf(iv.take(n as int)),
            forall|h: int| #[trigger]
                union_covers(intervals(acc@), h) == union_covers(iv.take(n as int), h),
            made_of(iv.take(n as int), intervals(acc@)),
        decreases list.len() - n,
    {
        let r = list[n];
        let ghost before = intervals(acc@);
        let ghost seen = iv.take(n as int);
        proof {
            use_type_invariant(&r);
        }
        acc = insert_range(&acc, r, Ghost(seen));
        proof {
            let grown = iv.take(n + 1);
            assert(grown =~= seen.push(r@));
            assert(inserted(before, seen, r@, intervals(acc@)));
            assert forall|h: int| #[trigger]
                union_covers(grown, h) == (union_covers(seen, h) || r@.covers(h)) by {
                if union_covers(grown, h) {
                    let i = choose|i: int| 0 <= i < grown.len() && #[trigger] grown[i].covers(h);
                    if i < n {
                        assert(seen[i].covers(h));
                    }
                }
                if union_covers(seen, h) {
                    let i = choose|i: int| 0 <= i < seen.len() && #[trigger] seen[i].covers(h);
                    assert(grown[i].covers(h));
                }
                if r@.covers(h) {
                    assert(grown[n as int].covers(h));
                }
            }
            assert forall|h: int| #[trigger]
                union_covers(intervals(acc@), h) == union_covers(grown, h) by {
                assert(union_covers(before, h) == union_covers(seen, h));
            }
        }
        n += 1;
    }
    proof {
        assert(iv.take(n as int) =~= iv);
        lemma_covers_gives_contains(intervals(acc@), iv);
    }
    acc
}

/// Lists that stand for the same union hold the same values.
proof fn lemma_covers_gives_contains(a: Seq<Interval>, b: Seq<Interval>)
    requires
        same_union(a, b),
    ensures
        forall|x: int| union_contains(a, x) == union_contains(b, x),
{
    assert forall|x: int| union_contains(a, x) == union_contains(b, x) by {
        lemma_contains_is_covers(a, x);
        lemma_contains_is_covers(b, x);
    }
}

/// A value is in the union where its half-unit position is covered.
proof fn lemma_contains_is_covers(s: Seq<Interval>, x: int)
    ensures
        union_contains(s, x) == union_covers(s, 2 * x),
{
    if union_contains(s, x) {
        let i = choose|i: int| 0 <= i < s.len() && #[trigger] s[i].contains(x);
        assert(s[i].covers(2 * x));
    }
    if union_covers(s, 2 * x) {
        let i = choose|i: int| 0 <= i < s.len() && #[trigger] s[i].covers(2 * x);
        assert(s[i].contains(x));
    }
}

/// Whether `x` is a valid value of the domain: whether it lies in at least
/// one range of the list, a point range counting as its one value.
pub fn ranges_contain(list: &Vec<Range>, x: i64) -> (b: bool)
    ensures
        b == union_contains(intervals(list@), x as int),
{
    let ghost iv = intervals(list@);
    let mut i: usize = 0;
    while i < list.len()
        invariant
            i <= list.len(),
            iv == intervals(list@),
            forall|k: int| 0 <= k < i ==> !(#[trigger] iv[k]).contains(x as int),
        decreases list.len() - i,
    {
        if list[i].contains(x) {
            assert(iv[i as int].contains(x as int));
            return true;
        }
        i += 1;
    }
    false
}

/// The valid value closest to `x`, the lower one where two are equally
/// close; `None` where the list is empty.
pub fn nearest_value(list: &Vec<Range>, x: i64) -> (res: Option<i64>)
    ensures
        res is None <==> list@.len() == 0,
        res matches Some(y) ==> is_nearest(intervals(list@), x as int, y as int),
{
    let ghost iv = intervals(list@);
    let mut best: Option<i64> = None;
    let mut i: usize = 0;
    while i < list.len()
        invariant
            i <= list.len(),
            iv == intervals(list@),
            best is None <==> i == 0,
            best matches Some(y) ==> is_nearest(iv.take(i as int), x as int, y as int),
        decreases list.len() - i,
    {
        let t = list[i];
        proof {
            use_type_invariant(&t);
        }
        let cand: i64 = if x < t.minimum {
            t.minimum
        } else if x > t.maximum {
            t.maximum
        } else {
            x
        };
        let ghost seen = iv.take(i as int);
        let ghost grown = iv.take(i + 1);
        let next: i64 = match best {
            None => cand,
            Some(y) => {
                let dc: i128 = if cand >= x {
                    cand as i128 - x as i128
                } else {
                    x as i128 - cand as i128
                };
                let dy: i128 = if y >= x {
                    y as i128 - x as i128
                } else {
                    x as i128 - y as i128
                };
                if dc < dy || (dc == dy && cand < y) {
                    cand
                } else {
                    y
                }
            },
        };
        proof {
            assert(grown[i as int] == t@);
            assert(t@.contains(cand as int));
            assert forall|k: int| 0 <= k < seen.len() implies #[trigger] seen[k] == grown[k] by {}
            if next == cand {
                assert(grown[i as int].contains(next as int));
            } else {
                let y = best->Some_0;
                let k = choose|k: int| 0 <= k < seen.len() && #[trigger] seen[k].contains(y as int);
                assert(grown[k].contains(next as int));
            }
            assert forall|z: int| union_contains(grown, z) implies dist(x as int, next as int) < dist(
                x as int,
                z,
            ) || (dist(x as int, next as int) == dist(x as int, z) && next <= z) by {
                let k = choose|k: int| 0 <= k < grown.len() && #[trigger] grown[k].contains(z);
                if k < i {
                    assert(seen[k].contains(z));
                    assert(union_contains(seen, z));
                }
            }
        }
        best = Some(next);
        i += 1;
    }
    proof {
        assert(iv.take(i as int) =~= iv);
    }
    best
}

/// A value of the union is its own nearest value.
pub proof fn lemma_member_is_nearest(s: Seq<Interval>, x: int)
    requires
        union_contains(s, x),
    ensures
        is_nearest(s, x, x),
{
}

/// The nearest value is one value: `is_nearest` holds of no two.
pub proof fn lemma_nearest_unique(s: Seq<Interval>, x: int, y1: int, y2: int)
    requires
        is_nearest(s, x, y1),
        is_nearest(s, x, y2),
    ensures
        y1 == y2,
{
}

/// The first interval of a canonical list starts where the union starts.
proof fn lemma_first_is_lowest(a: Seq<Interval>, j: int)
    requires
        canonical(a),
        0 <= j < a.len(),
    ensures
        a[0].lo <= a[j].lo,
        j > 0 ==> a[0].hi < a[j].lo,
{
    assert(a[0].wf());
    if j > 0 {
        assert(a[0].hi < a[j].lo);
    }
}

/// Canonical lists of the same union start with the same interval.
proof fn lemma_same_first(a: Seq<Interval>, b: Seq<Interval>)
    requires
        canonical(a),
        canonical(b),
        same_union(a, b),
        a.len() > 0,
    ensures
        b.len() > 0,
        a[0].lo == b[0].lo,
        a[0].hi == b[0].hi,
{
    assert(a[0].wf());
    assert(a[0].covers(2 * a[0].lo));
    assert(union_covers(a, 2 * a[0].lo));
    assert(union_covers(b, 2 * a[0].lo));
    let j = choose|j: int| 0 <= j < b.len() && #[trigger] b[j].covers(2 * a[0].lo);
    lemma_first_is_lowest(b, j);
    assert(b[0].wf());
    assert(b[0].covers(2 * b[0].lo));
    assert(union_covers(b, 2 * b[0].lo));
    assert(union_covers(a, 2 * b[0].lo));
    let i = choose|i: int| 0 <= i < a.len() && #[trigger] a[i].covers(2 * b[0].lo);
    lemma_first_is_lowest(a, i);
    assert(a[0].lo == b[0].lo);
    if a[0].hi < b[0].hi {
        let h = 2 * a[0].hi + 1;
        assert(b[0].covers(h));
        assert(union_covers(b, h));
        assert(union_covers(a, h));
        let k = choose|k: int| 0 <= k < a.len() && #[trigger] a[k].covers(h);
        lemma_first_is_lowest(a, k);
    }
    if b[0].hi < a[0].hi {
        let h = 2 * b[0].hi + 1;
        assert(a[0].covers(h));
        assert(union_covers(a, h));
        assert(union_covers(b, h));
        let k = choose|k: int| 0 <= k < b.len() && #[trigger] b[k].covers(h);
        lemma_first_is_lowest(b, k);
    }
}

/// What a canonical list covers beyond its first interval is what its rest
/// covers.
proof fn lemma_rest_covers(a: Seq<Interval>, h: int)
    requires
        canonical(a),
        a.len() > 0,
    ensures
        canonical(a.drop_first()),
        union_covers(a.drop_first(), h) == (union_covers(a, h) && !a[0].covers(h)),
{
    let rest = a.drop_first();
    assert forall|i: int| 0 <= i < rest.len() implies (#[trigger] rest[i]).wf() by {
        assert(rest[i] == a[i + 1]);
        assert(a[i + 1].wf());
    }
    assert forall|i: int, j: int| 0 <= i < j < rest.len() implies (#[trigger] rest[i]).hi < (
    #[trigger] rest[j]).lo by {
        assert(rest[i] == a[i + 1] && rest[j] == a[j + 1]);
        assert(a[i + 1].hi < a[j + 1].lo);
    }
    assert(a[0].wf());
    if union_covers(rest, h) {
        let i = choose|i: int| 0 <= i < rest.len() && #[trigger] rest[i].covers(h);
        assert(rest[i] == a[i + 1]);
        assert(a[i + 1].covers(h));
        assert(a[0].hi < a[i + 1].lo);
    }
    if union_covers(a, h) && !a[0].covers(h) {
        let i = choose|i: int| 0 <= i < a.len() && #[trigger] a[i].covers(h);
        assert(rest[i - 1] == a[i]);
        assert(rest[i - 1].covers(h));
    }
}

/// A union has one canonical form: canonical lists that stand for the same
/// union have the same intervals from end to end. So the result of
/// `merge_ranges` depends on the union alone, not on how the ranges were
/// listed, and merging a canonical list changes no end of it.
pub proof fn lemma_canonical_unique(a: Seq<Interval>, b: Seq<Interval>)
    requires
        canonical(a),
        canonical(b),
        same_union(a, b),
    ensures
        a.len() == b.len(),
        forall|i: int| 0 <= i < a.len() ==> (#[trigger] a[i]).lo == b[i].lo && a[i].hi == b[i].hi,
    decreases a.len(),
{
    if a.len() == 0 {
        if b.len() > 0 {
            lemma_same_first(b, a);
        }
    } else {
        lemma_same_first(a, b);
        let ra = a.drop_first();
        let rb = b.drop_first();
        assert forall|h: int| union_covers(ra, h) == union_covers(rb, h) by {
            lemma_rest_covers(a, h);
            lemma_rest_covers(b, h);
            assert(a[0].covers(h) == b[0].covers(h));
        }
        lemma_rest_covers(a, 0);
        lemma_rest_covers(b, 0);
        lemma_canonical_unique(ra, rb);
        assert forall|i: int| 0 <= i < a.len() implies (#[trigger] a[i]).lo == b[i].lo && a[i].hi
            == b[i].hi by {
            if i > 0 {
                assert(ra[i - 1] == a[i]);
                assert(rb[i - 1] == b[i]);
            }
        }
    }
}

/// The step of a merged interval follows from its ends and its parts.
proof fn lemma_step_determined(parts: Seq<Interval>, one: Interval, other: Interval)
    requires
        one.lo == other.lo,
        one.hi == other.hi,
        has_part(parts, one),
        step_agrees(parts, one),
        step_agrees(parts, other),
    ensures
        one.step == other.step,
{
    let p = choose|p: int| 0 <= p < parts.len() && (#[trigger] parts[p]).within(one);
    assert(parts[p].within(other));
    if parts_differ_in_step(parts, one) {
        let (i, j) = choose|i: int, j: int|
            0 <= i < parts.len() && 0 <= j < parts.len() && (#[trigger] parts[i]).within(one) && (
            #[trigger] parts[j]).within(one) && parts[i].step != parts[j].step;
        assert(parts[i].within(other) && parts[j].within(other));
    }
    if parts_differ_in_step(parts, other) {
        let (i, j) = choose|i: int, j: int|
            0 <= i < parts.len() && 0 <= j < parts.len() && (#[trigger] parts[i]).within(other) && (
            #[trigger] parts[j]).within(other) && parts[i].step != parts[j].step;
        assert(parts[i].within(one) && parts[j].within(one));
    }
}

/// What `merge_ranges` promises of its result holds of one list only: two
/// canonical lists that stand for the union of `parts` and are made of
/// `parts` are the same list.
pub proof fn lemma_merge_determined(parts: Seq<Interval>, one: Seq<Interval>, other: Seq<Interval>)
    requires
        canonical(one),
        canonical(other),
        same_union(one, parts),
        same_union(other, parts),
        made_of(parts, one),
        made_of(parts, other),
    ensures
        one == other,
{
    assert forall|h: int| union_covers(one, h) == union_covers(other, h) by {
        assert(union_covers(one, h) == union_covers(parts, h));
        assert(union_covers(other, h) == union_covers(parts, h));
    }
    lemma_canonical_unique(one, other);
    assert forall|i: int| 0 <= i < one.len() implies one[i] == other[i] by {
        assert(has_part(parts, one[i]));
        assert(step_agrees(parts, one[i]));
        assert(step_agrees(parts, other[i]));
        lemma_step_determined(parts, one[i], other[i]);
    }
    assert(one =~= other);
}

} // verus!
