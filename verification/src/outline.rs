//! The outline table: per-segment lists of silhouette marker angles.
//!
//! Angles are held in milliturns (a full turn is `TURN == 1000`), normalized
//! into `[0, TURN)`, split into a "lower" half below `HALF_TURN` and an
//! "upper" half from `HALF_TURN` up, and sorted ascending within each half.
//! A renderer walks all lower halves forward and all upper halves backward
//! to trace a closed silhouette; `outline_trace` yields exactly that order.

use vstd::prelude::*;

verus! {

use crate::chain::{Chain, TURN, HALF_TURN};
use crate::math::euclid_mod;
use vstd::multiset::Multiset;

/// The marker every lower half starts from: a quarter turn.
pub const DEFAULT_LOWER_MARK: i64 = 250;

/// The marker every upper half starts from: three quarters of a turn.
pub const DEFAULT_UPPER_MARK: i64 = 750;

/// The angle `a` brought into `[0, TURN)`.
pub open spec fn norm_angle(a: i64) -> i64 {
    ((a as int) % (TURN as int)) as i64
}

/// Ascending order.
pub open spec fn angles_sorted(s: Seq<i64>) -> bool {
    forall|i: int, j: int| 0 <= i <= j < s.len() ==> s[i] <= s[j]
}

/// The normalized angles of `s` that fall in the lower half `[0, HALF_TURN)`,
/// in input order.
pub open spec fn split_low(s: Seq<i64>) -> Seq<i64>
    decreases s.len(),
{
    if s.len() == 0 {
        Seq::empty()
    } else {
        let rest = split_low(s.drop_last());
        if norm_angle(s.last()) < HALF_TURN {
            rest.push(norm_angle(s.last()))
        } else {
            rest
        }
    }
}

/// The normalized angles of `s` that fall in the upper half
/// `[HALF_TURN, TURN)`, in input order.
pub open spec fn split_high(s: Seq<i64>) -> Seq<i64>
    decreases s.len(),
{
    if s.len() == 0 {
        Seq::empty()
    } else {
        let rest = split_high(s.drop_last());
        if norm_angle(s.last()) >= HALF_TURN {
            rest.push(norm_angle(s.last()))
        } else {
            rest
        }
    }
}

/// Every entry of `split_low` lies in `[0, HALF_TURN)` and every entry of
/// `split_high` in `[HALF_TURN, TURN)`.
pub proof fn lemma_split_ranges(s: Seq<i64>)
    ensures
        forall|i: int|
            0 <= i < split_low(s).len() ==> 0 <= #[trigger] split_low(s)[i] < HALF_TURN,
        forall|i: int|
            0 <= i < split_high(s).len() ==> HALF_TURN <= #[trigger] split_high(s)[i] < TURN,
    decreases s.len(),
{
    if s.len() > 0 {
        lemma_split_ranges(s.drop_last());
        let v = norm_angle(s.last());
        assert(0 <= (s.last() as int) % (TURN as int) < TURN as int);
        let rl = split_low(s.drop_last());
        let rh = split_high(s.drop_last());
        assert forall|i: int| 0 <= i < split_low(s).len() implies 0 <= #[trigger] split_low(
            s,
        )[i] < HALF_TURN by {
            if v < HALF_TURN {
                assert(split_low(s) == rl.push(v));
                if i < rl.len() {
                    assert(split_low(s)[i] == rl[i]);
                }
            } else {
                assert(split_low(s) == rl);
            }
        }
        assert forall|i: int| 0 <= i < split_high(s).len() implies HALF_TURN
            <= #[trigger] split_high(s)[i] < TURN by {
            if v >= HALF_TURN {
                assert(split_high(s) == rh.push(v));
                if i < rh.len() {
                    assert(split_high(s)[i] == rh[i]);
                }
            } else {
                assert(split_high(s) == rh);
            }
        }
    }
}

/// Two sequences with equal multisets hold the same elements, so a range
/// bound on one carries to the other.
pub proof fn lemma_multiset_range(a: Seq<i64>, b: Seq<i64>, lo: int, hi: int)
    requires
        a.to_multiset() == b.to_multiset(),
        forall|j: int| 0 <= j < b.len() ==> lo <= #[trigger] b[j] < hi,
    ensures
        forall|j: int| 0 <= j < a.len() ==> lo <= #[trigger] a[j] < hi,
{
    broadcast use vstd::seq_lib::group_to_multiset_ensures;

    assert forall|j: int| 0 <= j < a.len() implies lo <= #[trigger] a[j] < hi by {
        assert(a.contains(a[j]));
        assert(a.to_multiset().count(a[j]) > 0);
        assert(b.contains(a[j]));
        let k = choose|k: int| 0 <= k < b.len() && b[k] == a[j];
        assert(lo <= b[k] < hi);
    }
}

/// Sort a list of angles ascending.  The result is pinned completely: it is
/// sorted and holds exactly the input's elements, which for a total order
/// determines the sequence.
pub fn sort_angles(input: &Vec<i64>) -> (out: Vec<i64>)
    ensures
        angles_sorted(out@),
        out@.to_multiset() == input@.to_multiset(),
        out@.len() == input@.len(),
{
    broadcast use vstd::seq_lib::group_to_multiset_ensures;
    broadcast use vstd::multiset::group_multiset_axioms;

    let mut rest: Vec<i64> = Vec::new();
    let mut ci: usize = 0;
    while ci < input.len()
        invariant
            ci <= input@.len(),
            rest@ == input@.take(ci as int),
        decreases input@.len() - ci,
    {
        rest.push(input[ci]);
        proof {
            assert(input@.take(ci + 1 as int) =~= input@.take(ci as int).push(input@[ci as int]));
        }
        ci = ci + 1;
    }
    proof {
        assert(input@.take(input@.len() as int) =~= input@);
    }
    let mut out: Vec<i64> = Vec::new();
    let ghost all: Multiset<i64> = rest@.to_multiset();
    proof {
        assert(out@.to_multiset().add(rest@.to_multiset()) =~= all);
    }
    while rest.len() > 0
        invariant
            out@.to_multiset().add(rest@.to_multiset()) == all,
            all == input@.to_multiset(),
            out@.len() + rest@.len() == input@.len(),
            angles_sorted(out@),
            forall|i: int, j: int|
                0 <= i < out@.len() && 0 <= j < rest@.len() ==> out@[i] <= rest@[j],
        decreases rest@.len(),
    {
        let mut m: usize = 0;
        let mut t: usize = 1;
        while t < rest.len()
            invariant
                0 < rest@.len(),
                m < t,
                t <= rest@.len(),
                forall|j: int| 0 <= j < t ==> rest@[m as int] <= #[trigger] rest@[j],
            decreases rest@.len() - t,
        {
            if rest[t] < rest[m] {
                m = t;
            }
            t = t + 1;
        }
        let ghost rest_before: Seq<i64> = rest@;
        let x: i64 = rest.remove(m);
        out.push(x);
        proof {
            broadcast use vstd::seq_lib::group_to_multiset_ensures;
            broadcast use vstd::multiset::group_multiset_axioms;

            assert(rest_before.to_multiset().count(x) > 0) by {
                assert(rest_before[m as int] == x);
                assert(rest_before.contains(x));
            }
            assert(out@.to_multiset().add(rest@.to_multiset()) =~= all);
            assert(forall|j: int|
                0 <= j < rest@.len() ==> x <= #[trigger] rest@[j]) by {
                assert(forall|j: int|
                    0 <= j < rest@.len() ==> rest@[j] == rest_before[if j < m {
                        j
                    } else {
                        j + 1
                    }]);
            }
        }
    }
    proof {
        broadcast use vstd::seq_lib::group_to_multiset_ensures;
        broadcast use vstd::multiset::group_multiset_axioms;

        assert(rest@.to_multiset().len() == 0);
        assert(rest@.to_multiset() =~= Multiset::empty());
        assert(out@.to_multiset() =~= all);
    }
    out
}

/// Normalize one list of angles and split it into its lower and upper
/// halves, in input order.
fn split_angles(ang: &Vec<i64>) -> (r: (Vec<i64>, Vec<i64>))
    requires
        forall|i: int| 0 <= i < ang@.len() ==> #[trigger] ang@[i] > i64::MIN,
    ensures
        r.0@ == split_low(ang@),
        r.1@ == split_high(ang@),
{
    let mut low: Vec<i64> = Vec::new();
    let mut high: Vec<i64> = Vec::new();
    let mut i: usize = 0;
    while i < ang.len()
        invariant
            i <= ang@.len(),
            forall|j: int| 0 <= j < ang@.len() ==> #[trigger] ang@[j] > i64::MIN,
            low@ == split_low(ang@.take(i as int)),
            high@ == split_high(ang@.take(i as int)),
        decreases ang@.len() - i,
    {
        let a: i64 = ang[i];
        let n: i64 = euclid_mod(a, TURN);
        if n < HALF_TURN {
            low.push(n);
        } else {
            high.push(n);
        }
        proof {
            assert(ang@.take(i + 1 as int).drop_last() =~= ang@.take(i as int));
            assert(ang@.take(i + 1 as int).last() == ang@[i as int]);
        }
        i = i + 1;
    }
    proof {
        assert(ang@.take(ang@.len() as int) =~= ang@);
    }
    (low, high)
}

impl Chain {
    /// The outline-table invariant: one angle list per segment on each
    /// side, every angle normalized into `[0, TURN)`, lower halves
    /// strictly below `HALF_TURN`, upper halves at or above it, and both
    /// halves sorted ascending.
    pub open spec fn outline_wf(self) -> bool {
        &&& self.outlines_lower@.len() == self.circles@.len()
        &&& self.outlines_upper@.len() == self.circles@.len()
        &&& forall|i: int|
            0 <= i < self.circles@.len() ==> angles_sorted(
                (#[trigger] self.outlines_lower@[i])@,
            )
        &&& forall|i: int|
            0 <= i < self.circles@.len() ==> angles_sorted(
                (#[trigger] self.outlines_upper@[i])@,
            )
        &&& forall|i: int, j: int|
            0 <= i < self.outlines_lower@.len() && 0 <= j < self.outlines_lower@[i]@.len()
                ==> 0 <= #[trigger] self.outlines_lower@[i]@[j] < HALF_TURN
        &&& forall|i: int, j: int|
            0 <= i < self.outlines_upper@.len() && 0 <= j < self.outlines_upper@[i]@.len()
                ==> HALF_TURN <= #[trigger] self.outlines_upper@[i]@[j] < TURN
    }

    /// The default outline table for `n` segments: one marker in the middle
    /// of each half of each circle (a quarter turn and three quarters).
    pub fn default_outline(n: usize) -> (r: (Vec<Vec<i64>>, Vec<Vec<i64>>))
        ensures
            r.0@.len() == n,
            r.1@.len() == n,
            forall|i: int| 0 <= i < n ==> (#[trigger] r.0@[i])@ =~= seq![DEFAULT_LOWER_MARK],
            forall|i: int| 0 <= i < n ==> (#[trigger] r.1@[i])@ =~= seq![DEFAULT_UPPER_MARK],
    {
        let mut lower: Vec<Vec<i64>> = Vec::new();
        let mut upper: Vec<Vec<i64>> = Vec::new();
        let mut i: usize = 0;
        while i < n
            invariant
                i <= n,
                lower@.len() == i,
                upper@.len() == i,
                forall|j: int| 0 <= j < i ==> (#[trigger] lower@[j])@ =~= seq![DEFAULT_LOWER_MARK],
                forall|j: int| 0 <= j < i ==> (#[trigger] upper@[j])@ =~= seq![DEFAULT_UPPER_MARK],
            decreases n - i,
        {
            let mut l: Vec<i64> = Vec::new();
            l.push(DEFAULT_LOWER_MARK);
            let mut u: Vec<i64> = Vec::new();
            u.push(DEFAULT_UPPER_MARK);
            lower.push(l);
            upper.push(u);
            i = i + 1;
        }
        (lower, upper)
    }

    /// Refine the outline table from per-segment candidate marker angles, in
    /// milliturns.  Each list is normalized into `[0, TURN)`, split at
    /// `HALF_TURN`, and each half sorted ascending; an empty candidate list
    /// leaves that segment's halves as they are, merely sorted.  (With
    /// integer angles no not-a-number filtering is needed.)
    pub fn refine_outline(&mut self, ang: &Vec<Vec<i64>>)
        requires
            old(self).outlines_lower@.len() == old(self).circles@.len(),
            old(self).outlines_upper@.len() == old(self).circles@.len(),
            forall|i: int, j: int|
                0 <= i < ang@.len() && 0 <= j < ang@[i]@.len() ==> #[trigger] ang@[i]@[j]
                    > i64::MIN,
        ensures
            final(self).circles == old(self).circles,
            final(self).outlines_lower@.len() == old(self).outlines_lower@.len(),
            final(self).outlines_upper@.len() == old(self).outlines_upper@.len(),
            forall|i: int|
                0 <= i < old(self).circles@.len() ==> {
                    &&& angles_sorted((#[trigger] final(self).outlines_lower@[i])@)
                    &&& angles_sorted(final(self).outlines_upper@[i]@)
                },
            old(self).outline_wf() ==> final(self).outline_wf(),
            forall|i: int|
                0 <= i < old(self).circles@.len() && i < ang@.len() && ang@[i]@.len() > 0 ==> {
                    &&& (#[trigger] final(self).outlines_lower@[i])@.to_multiset() == split_low(
                        ang@[i]@,
                    ).to_multiset()
                    &&& final(self).outlines_upper@[i]@.to_multiset() == split_high(
                        ang@[i]@,
                    ).to_multiset()
                },
            forall|i: int|
                0 <= i < old(self).circles@.len() && (i >= ang@.len() || ang@[i]@.len() == 0)
                    ==> {
                    &&& (#[trigger] final(self).outlines_lower@[i])@.to_multiset() == old(
                        self,
                    ).outlines_lower@[i]@.to_multiset()
                    &&& final(self).outlines_upper@[i]@.to_multiset() == old(
                        self,
                    ).outlines_upper@[i]@.to_multiset()
                },
    {
        let n: usize = self.circles.len();
        let ghost orig_low: Seq<Vec<i64>> = self.outlines_lower@;
        let ghost orig_up: Seq<Vec<i64>> = self.outlines_upper@;
        let mut i: usize = 0;
        while i < n
            invariant
                i <= n,
                n == self.circles@.len(),
                self.circles == old(self).circles,
                self.outlines_lower@.len() == n,
                self.outlines_upper@.len() == n,
                old(self).outlines_lower@.len() == n,
                old(self).outlines_upper@.len() == n,
                forall|m: int, j: int|
                    0 <= m < ang@.len() && 0 <= j < ang@[m]@.len() ==> #[trigger] ang@[m]@[j]
                        > i64::MIN,
                forall|m: int|
                    i <= m < n ==> #[trigger] self.outlines_lower@[m] == old(
                        self,
                    ).outlines_lower@[m],
                forall|m: int|
                    i <= m < n ==> #[trigger] self.outlines_upper@[m] == old(
                        self,
                    ).outlines_upper@[m],
                forall|m: int|
                    0 <= m < i ==> {
                        &&& angles_sorted((#[trigger] self.outlines_lower@[m])@)
                        &&& angles_sorted(self.outlines_upper@[m]@)
                    },
                forall|m: int|
                    0 <= m < i && m < ang@.len() && ang@[m]@.len() > 0
                        ==> (#[trigger] self.outlines_lower@[m])@.to_multiset() == split_low(
                        ang@[m]@,
                    ).to_multiset(),
                forall|m: int|
                    0 <= m < i && m < ang@.len() && ang@[m]@.len() > 0
                        ==> (#[trigger] self.outlines_upper@[m])@.to_multiset() == split_high(
                        ang@[m]@,
                    ).to_multiset(),
                orig_low == old(self).outlines_lower@,
                orig_up == old(self).outlines_upper@,
                forall|m: int|
                    0 <= m < i && (m >= ang@.len() || ang@[m]@.len() == 0)
                        ==> (#[trigger] self.outlines_lower@[m])@.to_multiset() == (
                        orig_low[m])@.to_multiset(),
                forall|m: int|
                    0 <= m < i && (m >= ang@.len() || ang@[m]@.len() == 0)
                        ==> (#[trigger] self.outlines_upper@[m])@.to_multiset() == (
                        orig_up[m])@.to_multiset(),
            decreases n - i,
        {
            if i < ang.len() && ang[i].len() > 0 {
                let halves: (Vec<i64>, Vec<i64>) = split_angles(&ang[i]);
                let sorted_low: Vec<i64> = sort_angles(&halves.0);
                let sorted_high: Vec<i64> = sort_angles(&halves.1);
                self.outlines_lower[i] = sorted_low;
                self.outlines_upper[i] = sorted_high;
            } else {
                let sorted_low: Vec<i64> = sort_angles(&self.outlines_lower[i]);
                self.outlines_lower[i] = sorted_low;
                let sorted_high: Vec<i64> = sort_angles(&self.outlines_upper[i]);
                self.outlines_upper[i] = sorted_high;
            }
            i = i + 1;
        }
        proof {
            if old(self).outline_wf() {
                assert forall|m: int|
                    0 <= m < self.circles@.len() implies angles_sorted(
                    (#[trigger] self.outlines_upper@[m])@,
                ) by {
                    assert(angles_sorted(self.outlines_lower@[m]@));
                }
                assert forall|m: int, j: int|
                    0 <= m < self.outlines_lower@.len() && 0 <= j
                        < self.outlines_lower@[m]@.len() implies 0
                    <= #[trigger] self.outlines_lower@[m]@[j] < HALF_TURN by {
                    if m < ang@.len() && ang@[m]@.len() > 0 {
                        lemma_split_ranges(ang@[m]@);
                        lemma_multiset_range(
                            self.outlines_lower@[m]@,
                            split_low(ang@[m]@),
                            0,
                            HALF_TURN as int,
                        );
                    } else {
                        lemma_multiset_range(
                            self.outlines_lower@[m]@,
                            orig_low[m]@,
                            0,
                            HALF_TURN as int,
                        );
                    }
                }
                assert forall|m: int, j: int|
                    0 <= m < self.outlines_upper@.len() && 0 <= j
                        < self.outlines_upper@[m]@.len() implies HALF_TURN
                    <= #[trigger] self.outlines_upper@[m]@[j] < TURN by {
                    if m < ang@.len() && ang@[m]@.len() > 0 {
                        lemma_split_ranges(ang@[m]@);
                        lemma_multiset_range(
                            self.outlines_upper@[m]@,
                            split_high(ang@[m]@),
                            HALF_TURN as int,
                            TURN as int,
                        );
                    } else {
                        lemma_multiset_range(
                            self.outlines_upper@[m]@,
                            orig_up[m]@,
                            HALF_TURN as int,
                            TURN as int,
                        );
                    }
                }
            }
        }
    }
}

/// One step of the silhouette walk: the pairs `(segment, angle)` for one
/// segment's list, in list order.
pub open spec fn marks_of(i: int, s: Seq<i64>) -> Seq<(usize, i64)> {
    Seq::new(s.len(), |j: int| (i as usize, s[j]))
}

/// The forward walk over the lower halves of segments `0 .. i`.
pub open spec fn trace_low_upto(lower: Seq<Vec<i64>>, i: int) -> Seq<(usize, i64)>
    decreases i,
{
    if i <= 0 {
        Seq::empty()
    } else {
        trace_low_upto(lower, i - 1) + marks_of(i - 1, lower[i - 1]@)
    }
}

/// The backward walk over the upper halves of segments `n-1 .. n-i`.
pub open spec fn trace_high_downfrom(upper: Seq<Vec<i64>>, i: int) -> Seq<(usize, i64)>
    decreases i,
{
    if i <= 0 {
        Seq::empty()
    } else {
        trace_high_downfrom(upper, i - 1) + marks_of(
            upper.len() - i,
            upper[upper.len() - i]@,
        )
    }
}

impl Chain {
    /// The order in which a renderer walks the outline table to trace a
    /// closed silhouette: forward through every segment's lower half, then
    /// backward through every segment's upper half.  Each pair is a segment
    /// index and a marker angle in milliturns.
    pub fn outline_trace(&self) -> (r: Vec<(usize, i64)>)
        requires
            self.outlines_lower@.len() == self.circles@.len(),
            self.outlines_upper@.len() == self.circles@.len(),
        ensures
            r@ == trace_low_upto(self.outlines_lower@, self.circles@.len() as int)
                + trace_high_downfrom(self.outlines_upper@, self.circles@.len() as int),
    {
        let n: usize = self.circles.len();
        let mut out: Vec<(usize, i64)> = Vec::new();
        let mut i: usize = 0;
        while i < n
            invariant
                i <= n,
                n == self.circles@.len(),
                self.outlines_lower@.len() == n,
                out@ == trace_low_upto(self.outlines_lower@, i as int),
            decreases n - i,
        {
            let mut j: usize = 0;
            let ghost base: Seq<(usize, i64)> = out@;
            while j < self.outlines_lower[i].len()
                invariant
                    i < n,
                    n == self.circles@.len(),
                    self.outlines_lower@.len() == n,
                    j <= self.outlines_lower@[i as int]@.len(),
                    out@ == base + marks_of(i as int, self.outlines_lower@[i as int]@).take(
                        j as int,
                    ),
                decreases self.outlines_lower@[i as int]@.len() - j,
            {
                out.push((i, self.outlines_lower[i][j]));
                proof {
                    assert(marks_of(i as int, self.outlines_lower@[i as int]@).take(
                        j + 1 as int,
                    ) =~= marks_of(i as int, self.outlines_lower@[i as int]@).take(j as int).push(
                        (i, self.outlines_lower@[i as int]@[j as int]),
                    ));
                    assert(out@ =~= base + marks_of(
                        i as int,
                        self.outlines_lower@[i as int]@,
                    ).take(j + 1 as int));
                }
                j = j + 1;
            }
            proof {
                assert(marks_of(i as int, self.outlines_lower@[i as int]@).take(
                    self.outlines_lower@[i as int]@.len() as int,
                ) =~= marks_of(i as int, self.outlines_lower@[i as int]@));
                assert(out@ == trace_low_upto(self.outlines_lower@, i + 1 as int));
            }
            i = i + 1;
        }
        let ghost low_part: Seq<(usize, i64)> = out@;
        let mut b: usize = 0;
        while b < n
            invariant
                b <= n,
                n == self.circles@.len(),
                self.outlines_upper@.len() == n,
                out@ == low_part + trace_high_downfrom(self.outlines_upper@, b as int),
            decreases n - b,
        {
            let idx: usize = n - 1 - b;
            let mut j: usize = 0;
            let ghost base: Seq<(usize, i64)> = out@;
            while j < self.outlines_upper[idx].len()
                invariant
                    b < n,
                    idx == n - 1 - b,
                    n == self.circles@.len(),
                    self.outlines_upper@.len() == n,
                    j <= self.outlines_upper@[idx as int]@.len(),
                    out@ == base + marks_of(idx as int, self.outlines_upper@[idx as int]@).take(
                        j as int,
                    ),
                decreases self.outlines_upper@[idx as int]@.len() - j,
            {
                out.push((idx, self.outlines_upper[idx][j]));
                proof {
                    assert(marks_of(idx as int, self.outlines_upper@[idx as int]@).take(
                        j + 1 as int,
                    ) =~= marks_of(idx as int, self.outlines_upper@[idx as int]@).take(
                        j as int,
                    ).push((idx, self.outlines_upper@[idx as int]@[j as int])));
                    assert(out@ =~= base + marks_of(
                        idx as int,
                        self.outlines_upper@[idx as int]@,
                    ).take(j + 1 as int));
                }
                j = j + 1;
            }
            proof {
                assert(marks_of(idx as int, self.outlines_upper@[idx as int]@).take(
                    self.outlines_upper@[idx as int]@.len() as int,
                ) =~= marks_of(idx as int, self.outlines_upper@[idx as int]@));
                assert(idx as int == self.outlines_upper@.len() - (b + 1));
                assert(out@ == low_part + trace_high_downfrom(
                    self.outlines_upper@,
                    b + 1 as int,
                ));
            }
            b = b + 1;
        }
        out
    }
}

} // verus!
