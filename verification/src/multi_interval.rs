//! An ordered, disjoint union of ranges, with set-style intersection and
//! complement over the extended number line.
//!
//! The representation invariant ([`well_formed`]) keeps the member ranges
//! valid and in ascending order, each one ending no later than the next one
//! begins.  Touching members (an open/closed pair meeting at one value) are
//! deliberately left unmerged: simplification is out of scope.

use crate::extended::{ext_le, Extended};
use crate::interval::{Boundary, Interval, IntervalError};
use vstd::prelude::*;
use vstd::string::StringExecFns;

verus! {

/// The representation invariant of a range union: every member is valid, and
/// each member ends no later than the next one begins.
pub open spec fn well_formed(s: Seq<Interval>) -> bool {
    &&& forall|i: int| 0 <= i < s.len() ==> (#[trigger] s[i]).valid()
    &&& forall|i: int, j: int|
        #![trigger s[i], s[j]]
        0 <= i && j == i + 1 && j < s.len() ==> ext_le(s[i].hi, s[j].lo)
}

/// Every member obeys the producers' convention for infinite endpoints.
pub open spec fn all_respect_infinity(s: Seq<Interval>) -> bool {
    forall|i: int| 0 <= i < s.len() ==> (#[trigger] s[i]).respects_infinity()
}

/// Every member holds at least one value.
pub open spec fn all_nonempty(s: Seq<Interval>) -> bool {
    forall|i: int| 0 <= i < s.len() ==> (#[trigger] s[i]).nonempty()
}

/// The full line `(-Inf, Inf)`: the complement of the empty union.
pub open spec fn full_line() -> Interval {
    (Interval {
        lo_boundary: Boundary::Open,
        lo: Extended::NegInf,
        hi: Extended::PosInf,
        hi_boundary: Boundary::Open,
    })
}

/// The part of the complement below the first member.
pub open spec fn left_tail(first: Interval) -> Interval {
    (Interval {
        lo_boundary: Boundary::Open,
        lo: Extended::NegInf,
        hi: first.lo,
        hi_boundary: first.lo_boundary.spec_inverse(),
    })
}

/// The part of the complement between two adjacent members.
pub open spec fn gap_between(a: Interval, b: Interval) -> Interval {
    (Interval {
        lo_boundary: a.hi_boundary.spec_inverse(),
        lo: a.hi,
        hi: b.lo,
        hi_boundary: b.lo_boundary.spec_inverse(),
    })
}

/// The part of the complement above the last member.
pub open spec fn right_tail(last: Interval) -> Interval {
    (Interval {
        lo_boundary: last.hi_boundary.spec_inverse(),
        lo: last.hi,
        hi: Extended::PosInf,
        hi_boundary: Boundary::Open,
    })
}

/// The complement ranges between adjacent members of a non-empty union.
pub open spec fn gaps(s: Seq<Interval>) -> Seq<Interval>
    recommends
        s.len() >= 1,
{
    Seq::new((s.len() - 1) as nat, |i: int| gap_between(s[i], s[i + 1]))
}

/// What [`MultiInterval::inverse`] returns: the complement of the union over
/// the extended number line, assembled in ascending order from the left
/// tail, the gaps between adjacent members, and the right tail.
pub open spec fn spec_inverse(s: Seq<Interval>) -> Seq<Interval> {
    if s.len() == 0 {
        seq![full_line()]
    } else {
        let left: Seq<Interval> = if s[0].lo is NegInf {
            Seq::empty()
        } else {
            seq![left_tail(s[0])]
        };
        let right: Seq<Interval> = if s[s.len() - 1].hi is PosInf {
            Seq::empty()
        } else {
            seq![right_tail(s[s.len() - 1])]
        };
        left + gaps(s) + right
    }
}

/// The textual notation of a union: its members' notations separated by
/// single spaces.
pub open spec fn spec_union_notation(s: Seq<Interval>) -> Seq<char>
    decreases s.len(),
{
    if s.len() == 0 {
        Seq::empty()
    } else if s.len() == 1 {
        s[0].spec_notation()
    } else {
        spec_union_notation(s.drop_last()) + " "@ + s.last().spec_notation()
    }
}

/// The overlaps of one range with each member of a union, in member order.
pub open spec fn row_intersections(a: Interval, s: Seq<Interval>) -> Seq<Interval>
    decreases s.len(),
{
    if s.len() == 0 {
        Seq::empty()
    } else {
        row_intersections(a, s.drop_last()) + if a.spec_intersects(s.last()) {
            seq![a.spec_intersection(s.last())]
        } else {
            Seq::empty()
        }
    }
}

/// What [`MultiInterval::intersect`] returns when non-empty: every pairwise
/// overlap, walking the first union in order and, within each of its
/// members, the second union in order.
pub open spec fn all_intersections(s1: Seq<Interval>, s2: Seq<Interval>) -> Seq<Interval>
    decreases s1.len(),
{
    if s1.len() == 0 {
        Seq::empty()
    } else {
        all_intersections(s1.drop_last(), s2) + row_intersections(s1.last(), s2)
    }
}

/// An ordered, non-overlapping collection of ranges representing a union of
/// disjoint intervals.  An empty collection is the empty set of values.
#[derive(Debug)]
pub struct MultiInterval {
    intervals: Vec<Interval>,
}

impl View for MultiInterval {
    type V = Seq<Interval>;

    closed spec fn view(&self) -> Seq<Interval> {
        self.intervals@
    }
}

impl Clone for MultiInterval {
    /// A structural copy: the clone holds the same member ranges.
    fn clone(&self) -> (r: Self)
        ensures
            r@ == self@,
    {
        let mut v: Vec<Interval> = Vec::new();
        for k in 0..self.intervals.len()
            invariant
                v@ == self@.take(k as int),
        {
            v.push(self.intervals[k]);
            proof {
                assert(self@.take(k + 1) =~= self@.take(k as int).push(self@[k as int]));
            }
        }
        proof {
            assert(self@.take(self@.len() as int) =~= self@);
        }
        MultiInterval { intervals: v }
    }
}

impl PartialEq for MultiInterval {
    /// Structural equality: same members in the same order.
    fn eq(&self, other: &Self) -> (r: bool) {
        if self.intervals.len() != other.intervals.len() {
            return false;
        }
        for k in 0..self.intervals.len()
            invariant
                self@.len() == other@.len(),
                forall|i: int| 0 <= i < k ==> self@[i] == other@[i],
        {
            if self.intervals[k] != other.intervals[k] {
                return false;
            }
        }
        proof {
            assert(self@ =~= other@);
        }
        true
    }
}

impl vstd::std_specs::cmp::PartialEqSpecImpl for MultiInterval {
    open spec fn obeys_eq_spec() -> bool {
        true
    }

    open spec fn eq_spec(&self, other: &Self) -> bool {
        self@ == other@
    }
}

impl MultiInterval {
    /// The representation invariant, on this value's members.
    pub open spec fn wf(self) -> bool {
        well_formed(self@)
    }

    /// A union holding the one validated range.
    pub fn new(lo_boundary: Boundary, lo: Extended, hi: Extended, hi_boundary: Boundary) -> (r:
        Result<Self, IntervalError>)
        ensures
            ext_le(lo, hi) ==> (r matches Ok(m) && m@ == seq![
                (Interval { lo_boundary, lo, hi, hi_boundary }),
            ] && m.wf()),
            !ext_le(lo, hi) ==> r == Err::<MultiInterval, IntervalError>(
                IntervalError::LoIsGreaterThanHi,
            ),
    {
        match Interval::new(lo_boundary, lo, hi, hi_boundary) {
            Ok(iv) => {
                let mut v: Vec<Interval> = Vec::new();
                v.push(iv);
                proof {
                    assert(v@ =~= seq![iv]);
                }
                Ok(MultiInterval { intervals: v })
            },
            Err(e) => Err(e),
        }
    }

    /// A union holding the one validated closed-closed range.
    pub fn new_closed(lo: Extended, hi: Extended) -> (r: Result<Self, IntervalError>)
        ensures
            ext_le(lo, hi) ==> (r matches Ok(m) && m@ == seq![
                (Interval {
                    lo_boundary: Boundary::Closed,
                    lo,
                    hi,
                    hi_boundary: Boundary::Closed,
                }),
            ] && m.wf()),
            !ext_le(lo, hi) ==> r == Err::<MultiInterval, IntervalError>(
                IntervalError::LoIsGreaterThanHi,
            ),
    {
        Self::new(Boundary::Closed, lo, hi, Boundary::Closed)
    }

    /// A union of the given ranges, accepted only when they satisfy the
    /// representation invariant: each valid, in ascending order, each ending
    /// no later than the next begins.
    pub fn from_intervals(intervals: Vec<Interval>) -> (r: Option<Self>)
        ensures
            well_formed(intervals@) ==> (r matches Some(m) && m@ == intervals@ && m.wf()),
            !well_formed(intervals@) ==> r is None,
    {
        let n = intervals.len();
        for k in 0..n
            invariant
                n == intervals@.len(),
                forall|i: int| 0 <= i < k ==> (#[trigger] intervals@[i]).valid(),
        {
            let iv = intervals[k];
            if !iv.lo.le(&iv.hi) {
                return None;
            }
        }
        if n > 0 {
            for k in 0..n - 1
                invariant
                    n == intervals@.len(),
                    n >= 1,
                    forall|i: int| 0 <= i < intervals@.len() ==> (#[trigger] intervals@[i]).valid(),
                    forall|i: int, j: int|
                        #![trigger intervals@[i], intervals@[j]]
                        0 <= i && j == i + 1 && i < k ==> ext_le(intervals@[i].hi, intervals@[j].lo),
            {
                if !intervals[k].hi.le(&intervals[k + 1].lo) {
                    return None;
                }
            }
        }
        Some(MultiInterval { intervals })
    }

    /// The low endpoint of the first (lowest) member.
    pub fn lowest_lo(&self) -> (r: Extended)
        requires
            self@.len() > 0,
        ensures
            r == self@[0].lo,
    {
        self.intervals[0].lo
    }

    /// The high endpoint of the last (highest) member.
    pub fn highest_hi(&self) -> (r: Extended)
        requires
            self@.len() > 0,
        ensures
            r == self@[self@.len() - 1].hi,
    {
        self.intervals[self.intervals.len() - 1].hi
    }

    /// The low boundary of the first member.
    pub fn lowest_boundary(&self) -> (r: Boundary)
        requires
            self@.len() > 0,
        ensures
            r == self@[0].lo_boundary,
    {
        self.intervals[0].lo_boundary
    }

    /// The high boundary of the last member.
    pub fn highest_boundary(&self) -> (r: Boundary)
        requires
            self@.len() > 0,
        ensures
            r == self@[self@.len() - 1].hi_boundary,
    {
        self.intervals[self.intervals.len() - 1].hi_boundary
    }

    /// The first member, for callers that have not yet moved to the full
    /// union-aware operations.
    #[allow(non_snake_case)]
    pub fn DONOTUSE_get_interval(&self) -> (r: Interval)
        requires
            self@.len() > 0,
        ensures
            r == self@[0],
    {
        self.intervals[0]
    }

    /// Renders the union in the textual notation: its members' notations,
    /// separated by single spaces.
    pub fn to_notation(&self) -> (r: String)
        ensures
            r@ == spec_union_notation(self@),
    {
        let mut s = String::new();
        for k in 0..self.intervals.len()
            invariant
                s@ == spec_union_notation(self@.take(k as int)),
        {
            if k > 0 {
                s.append(" ");
            }
            let t = self.intervals[k].to_notation();
            s.append(t.as_str());
            proof {
                assert(self@.take(k + 1).drop_last() =~= self@.take(k as int));
                assert(self@.take(k + 1).last() == self@[k as int]);
                assert(s@ =~= spec_union_notation(self@.take(k + 1)));
            }
        }
        proof {
            assert(self@.take(self@.len() as int) =~= self@);
        }
        s
    }

    /// The logical complement over the extended number line, assembled in
    /// ascending order: left tail, gaps between adjacent members, right tail.
    pub fn inverse(&self) -> (r: Self)
        requires
            self.wf(),
        ensures
            r@ == spec_inverse(self@),
            r.wf(),
            all_respect_infinity(self@) ==> all_respect_infinity(r@),
    {
        proof {
            lemma_inverse_well_formed(self@);
            if all_respect_infinity(self@) {
                lemma_inverse_respects_infinity(self@);
            }
        }
        let n = self.intervals.len();
        let mut out: Vec<Interval> = Vec::new();
        if n == 0 {
            out.push(
                Interval {
                    lo_boundary: Boundary::Open,
                    lo: Extended::NegInf,
                    hi: Extended::PosInf,
                    hi_boundary: Boundary::Open,
                },
            );
            proof {
                assert(out@ =~= spec_inverse(self@));
            }
            return MultiInterval { intervals: out };
        }
        let first = self.intervals[0];
        if first.lo != Extended::NegInf {
            out.push(
                Interval {
                    lo_boundary: Boundary::Open,
                    lo: Extended::NegInf,
                    hi: first.lo,
                    hi_boundary: first.lo_boundary.inverse(),
                },
            );
        }
        let ghost left_part: Seq<Interval> = out@;
        for k in 0..n - 1
            invariant
                n == self@.len(),
                n >= 1,
                out@ == left_part + gaps(self@).take(k as int),
        {
            let a = self.intervals[k];
            let b = self.intervals[k + 1];
            out.push(
                Interval {
                    lo_boundary: a.hi_boundary.inverse(),
                    lo: a.hi,
                    hi: b.lo,
                    hi_boundary: b.lo_boundary.inverse(),
                },
            );
            proof {
                assert(gaps(self@).take(k + 1) =~= gaps(self@).take(k as int).push(
                    gap_between(self@[k as int], self@[k + 1]),
                ));
            }
        }
        proof {
            assert(gaps(self@).take(n - 1) =~= gaps(self@));
        }
        let last = self.intervals[n - 1];
        if last.hi != Extended::PosInf {
            out.push(
                Interval {
                    lo_boundary: last.hi_boundary.inverse(),
                    lo: last.hi,
                    hi: Extended::PosInf,
                    hi_boundary: Boundary::Open,
                },
            );
        }
        proof {
            assert(out@ =~= spec_inverse(self@));
        }
        MultiInterval { intervals: out }
    }

    /// Whether any member of this union overlaps any member of the other.
    pub fn intersects_with(&self, other: &Self) -> (r: bool)
        ensures
            r == exists|i: int, j: int|
                0 <= i < self@.len() && 0 <= j < other@.len() && (#[trigger] self@[i].spec_intersects(
                    other@[j],
                )),
    {
        for i in 0..self.intervals.len()
            invariant
                forall|i0: int, j0: int|
                    0 <= i0 < i && 0 <= j0 < other@.len() ==> !(#[trigger] self@[i0].spec_intersects(
                        other@[j0],
                    )),
        {
            for j in 0..other.intervals.len()
                invariant
                    0 <= i < self@.len(),
                    forall|i0: int, j0: int|
                        0 <= i0 < i && 0 <= j0 < other@.len() ==> !(
                        #[trigger] self@[i0].spec_intersects(other@[j0])),
                    forall|j0: int|
                        0 <= j0 < j ==> !(#[trigger] self@[i as int].spec_intersects(other@[j0])),
            {
                if self.intervals[i].intersects_with(&other.intervals[j]) {
                    proof {
                        assert(self@[i as int].spec_intersects(other@[j as int]));
                    }
                    return true;
                }
            }
        }
        false
    }

    /// The pairwise intersection of the two unions: every overlap of a member
    /// of this union with a member of the other, in ascending order, or
    /// `None` when no two members overlap.  An empty result is always the
    /// absent value, never a present-but-empty union.
    pub fn intersect(&self, other: &Self) -> (r: Option<Self>)
        requires
            self.wf(),
            other.wf(),
        ensures
            (r is Some) <==> exists|i: int, j: int|
                0 <= i < self@.len() && 0 <= j < other@.len() && (#[trigger] self@[i].spec_intersects(
                    other@[j],
                )),
            (r matches Some(m) ==> m@ == all_intersections(self@, other@) && m.wf()),
    {
        let mut acc: Vec<Interval> = Vec::new();
        for i in 0..self.intervals.len()
            invariant
                self.wf(),
                other.wf(),
                acc@ == all_intersections(self@.take(i as int), other@),
        {
            proof {
                assert(self@[i as int].valid());
            }
            let mut row = intersect_row(&self.intervals[i], &other.intervals);
            acc.append(&mut row);
            proof {
                assert(self@.take(i + 1).drop_last() =~= self@.take(i as int));
                assert(self@.take(i + 1).last() == self@[i as int]);
            }
        }
        proof {
            assert(self@.take(self@.len() as int) =~= self@);
            lemma_all_intersections_empty_iff(self@, other@);
            lemma_all_intersections_well_formed(self@, other@);
        }
        if acc.len() == 0 {
            None
        } else {
            Some(MultiInterval { intervals: acc })
        }
    }
}

/// One row of the pairwise intersection: the given range against every
/// member of `others`, in order.
fn intersect_row(a: &Interval, others: &Vec<Interval>) -> (out: Vec<Interval>)
    requires
        a.valid(),
        well_formed(others@),
    ensures
        out@ == row_intersections(*a, others@),
{
    let mut out: Vec<Interval> = Vec::new();
    for j in 0..others.len()
        invariant
            a.valid(),
            well_formed(others@),
            out@ == row_intersections(*a, others@.take(j as int)),
    {
        proof {
            assert(others@[j as int].valid());
        }
        match a.intersect(&others[j]) {
            Some(iv) => out.push(iv),
            None => {},
        }
        proof {
            assert(others@.take(j + 1).drop_last() =~= others@.take(j as int));
            assert(others@.take(j + 1).last() == others@[j as int]);
        }
    }
    proof {
        assert(others@.take(others@.len() as int) =~= others@);
    }
    out
}

/// Within a well-formed union, every earlier member ends no later than any
/// later member begins.
pub proof fn lemma_member_chain(s: Seq<Interval>, i: int, j: int)
    requires
        well_formed(s),
        0 <= i < j < s.len(),
    ensures
        ext_le(s[i].hi, s[j].lo),
    decreases j - i,
{
    if j > i + 1 {
        lemma_member_chain(s, i, j - 1);
        assert(ext_le(s[j - 1].hi, s[j].lo));
        assert(ext_le(s[j - 1].lo, s[j - 1].hi));
    } else {
        assert(ext_le(s[i].hi, s[j].lo));
    }
}

/// Concatenating two well-formed unions stays well-formed when the left part
/// ends no later than the right part begins.
pub proof fn lemma_well_formed_concat(x: Seq<Interval>, y: Seq<Interval>)
    requires
        well_formed(x),
        well_formed(y),
        x.len() > 0 && y.len() > 0 ==> ext_le(x.last().hi, y[0].lo),
    ensures
        well_formed(x + y),
{
    let t = x + y;
    assert forall|k: int| 0 <= k < t.len() implies (#[trigger] t[k]).valid() by {
        if k < x.len() {
            assert(t[k] == x[k]);
        } else {
            assert(t[k] == y[k - x.len()]);
        }
    }
    assert forall|i: int, j: int|
        #![trigger t[i], t[j]]
        0 <= i && j == i + 1 && j < t.len() implies ext_le(t[i].hi, t[j].lo) by {
        if j < x.len() {
            assert(t[i] == x[i]);
            assert(t[j] == x[j]);
            assert(ext_le(x[i].hi, x[j].lo));
        } else if i < x.len() {
            assert(t[i] == x[i]);
            assert(t[j] == y[0]);
            assert(x[i] == x.last());
        } else {
            assert(t[i] == y[i - x.len()]);
            assert(t[j] == y[j - x.len()]);
            assert(ext_le(y[i - x.len()].hi, y[j - x.len()].lo));
        }
    }
}

/// A union of one valid range is well-formed.
pub proof fn lemma_well_formed_single(iv: Interval)
    requires
        iv.valid(),
    ensures
        well_formed(seq![iv]),
{
    assert forall|i: int| 0 <= i < 1 implies (#[trigger] seq![iv][i]).valid() by {
        assert(seq![iv][i] == iv);
    }
}

/// The gap ranges of a well-formed, non-empty union are well-formed.
pub proof fn lemma_gaps_well_formed(s: Seq<Interval>)
    requires
        well_formed(s),
        s.len() >= 1,
    ensures
        well_formed(gaps(s)),
{
    let g = gaps(s);
    assert forall|k: int| 0 <= k < g.len() implies (#[trigger] g[k]).valid() by {
        assert(g[k] == gap_between(s[k], s[k + 1]));
        assert(ext_le(s[k].hi, s[k + 1].lo));
    }
    assert forall|i: int, j: int|
        #![trigger g[i], g[j]]
        0 <= i && j == i + 1 && j < g.len() implies ext_le(g[i].hi, g[j].lo) by {
        assert(g[i] == gap_between(s[i], s[i + 1]));
        assert(g[j] == gap_between(s[j], s[j + 1]));
        assert(ext_le(s[j].lo, s[j].hi));
    }
}

/// Where each piece of a non-empty union's complement sits: the left tail at
/// index 0 when the union does not begin at negative infinity, then one gap
/// for each adjacent pair of members, then the right tail when the union
/// does not end at positive infinity.
pub proof fn lemma_inverse_shape(s: Seq<Interval>)
    requires
        s.len() > 0,
    ensures
        ({
            let n = s.len() as int;
            let li: int = if s[0].lo is NegInf {
                0
            } else {
                1
            };
            let ri: int = if s[n - 1].hi is PosInf {
                0
            } else {
                1
            };
            let t = spec_inverse(s);
            &&& t.len() == li + n - 1 + ri
            &&& (li == 1 ==> t[0] == left_tail(s[0]))
            &&& forall|j: int| 0 <= j < n - 1 ==> #[trigger] t[li + j] == gap_between(
                s[j],
                s[j + 1],
            )
            &&& (ri == 1 ==> t[t.len() - 1] == right_tail(s[n - 1]))
        }),
{
    let n = s.len() as int;
    let g = gaps(s);
    assert(g.len() == n - 1);
}

/// The complement of a well-formed union whose members respect the infinity
/// convention respects it too.
pub proof fn lemma_inverse_respects_infinity(s: Seq<Interval>)
    requires
        well_formed(s),
        all_respect_infinity(s),
    ensures
        all_respect_infinity(spec_inverse(s)),
{
    let t = spec_inverse(s);
    if s.len() == 0 {
        assert(t[0] == full_line());
        assert(t[0].respects_infinity());
    } else {
        let n = s.len() as int;
        let li: int = if s[0].lo is NegInf {
            0
        } else {
            1
        };
        lemma_inverse_shape(s);
        assert forall|k: int| 0 <= k < t.len() implies (#[trigger] t[k]).respects_infinity() by {
            assert(s[0].respects_infinity());
            assert(s[n - 1].respects_infinity());
            if li == 1 && k == 0 {
                assert(t[k] == left_tail(s[0]));
            } else if k - li < n - 1 {
                let p = k - li;
                assert(t[k] == gap_between(s[p], s[p + 1]));
                assert(s[p].respects_infinity());
                assert(s[p + 1].respects_infinity());
                // A gap endpoint can only sit at an infinity if one of the
                // adjacent members already violated the convention.
                assert(ext_le(s[p].hi, s[p + 1].lo));
            } else {
                assert(t[k] == right_tail(s[n - 1]));
            }
        }
    }
}

/// The complement of a well-formed union is well-formed.
pub proof fn lemma_inverse_well_formed(s: Seq<Interval>)
    requires
        well_formed(s),
    ensures
        well_formed(spec_inverse(s)),
{
    if s.len() == 0 {
        lemma_well_formed_single(full_line());
        assert(spec_inverse(s) == seq![full_line()]);
    } else {
        let n = s.len() as int;
        let left: Seq<Interval> = if s[0].lo is NegInf {
            Seq::empty()
        } else {
            seq![left_tail(s[0])]
        };
        let right: Seq<Interval> = if s[n - 1].hi is PosInf {
            Seq::empty()
        } else {
            seq![right_tail(s[n - 1])]
        };
        let g = gaps(s);
        lemma_gaps_well_formed(s);
        if left.len() > 0 {
            lemma_well_formed_single(left_tail(s[0]));
            assert(left =~= seq![left_tail(s[0])]);
        }
        if right.len() > 0 {
            assert(ext_le(s[n - 1].hi, Extended::PosInf));
            lemma_well_formed_single(right_tail(s[n - 1]));
            assert(right =~= seq![right_tail(s[n - 1])]);
        }
        // Junction between the left tail and the first gap: the first member
        // is valid, so its low endpoint lies no later than its high one.
        if left.len() > 0 && g.len() > 0 {
            assert(g[0] == gap_between(s[0], s[1]));
            assert(ext_le(s[0].lo, s[0].hi));
        }
        lemma_well_formed_concat(left, g);
        let lg = left + g;
        if lg.len() > 0 && right.len() > 0 {
            if g.len() > 0 {
                assert(lg.last() == gap_between(s[n - 2], s[n - 1]));
                assert(ext_le(s[n - 1].lo, s[n - 1].hi));
            } else {
                assert(lg.last() == left_tail(s[0]));
                assert(ext_le(s[0].lo, s[0].hi));
            }
        }
        lemma_well_formed_concat(lg, right);
        assert(spec_inverse(s) == lg + right);
    }
}

/// A row of pairwise overlaps is well-formed and stays inside the range that
/// produced it; when the union is non-empty the overlaps also end no later
/// than the union's last member.
pub proof fn lemma_row_bounds(a: Interval, s: Seq<Interval>)
    requires
        a.valid(),
        well_formed(s),
    ensures
        well_formed(row_intersections(a, s)),
        forall|k: int|
            0 <= k < row_intersections(a, s).len() ==> ext_le(
                a.lo,
                (#[trigger] row_intersections(a, s)[k]).lo,
            ) && ext_le(row_intersections(a, s)[k].hi, a.hi),
        s.len() > 0 ==> forall|k: int|
            0 <= k < row_intersections(a, s).len() ==> ext_le(
                (#[trigger] row_intersections(a, s)[k]).hi,
                s.last().hi,
            ),
    decreases s.len(),
{
    if s.len() == 0 {
    } else {
        let s0 = s.drop_last();
        let b = s.last();
        lemma_row_bounds(a, s0);
        let prev = row_intersections(a, s0);
        let row = row_intersections(a, s);
        // Every earlier overlap ends no later than the previous member does,
        // and the previous member ends no later than `b` begins.
        if s0.len() > 0 {
            assert(s0.last() == s[s.len() - 2]);
            assert(ext_le(s[s.len() - 2].hi, s[s.len() - 1].lo));
            assert(ext_le(s0.last().hi, b.lo));
        }
        assert(ext_le(b.lo, b.hi));
        if a.spec_intersects(b) {
            crate::interval::lemma_intersection_bounds(a, b);
            let r_new = a.spec_intersection(b);
            lemma_well_formed_single(r_new);
            if prev.len() > 0 {
                assert(ext_le(prev.last().hi, s0.last().hi));
                assert(ext_le(b.lo, r_new.lo));
            }
            lemma_well_formed_concat(prev, seq![r_new]);
            assert(row == prev + seq![r_new]);
            assert forall|k: int| 0 <= k < row.len() implies ext_le(
                a.lo,
                (#[trigger] row[k]).lo,
            ) && ext_le(row[k].hi, a.hi) by {
                if k < prev.len() {
                    assert(row[k] == prev[k]);
                } else {
                    assert(row[k] == r_new);
                }
            }
            assert forall|k: int| 0 <= k < row.len() implies ext_le(
                (#[trigger] row[k]).hi,
                b.hi,
            ) by {
                if k < prev.len() {
                    assert(row[k] == prev[k]);
                    assert(ext_le(prev[k].hi, s0.last().hi));
                } else {
                    assert(row[k] == r_new);
                }
            }
        } else {
            assert(row == prev + Seq::<Interval>::empty());
            assert(row =~= prev);
            assert forall|k: int| 0 <= k < row.len() implies ext_le(
                (#[trigger] row[k]).hi,
                b.hi,
            ) by {
                assert(ext_le(prev[k].hi, s0.last().hi));
            }
        }
    }
}

/// The full pairwise intersection of two well-formed unions is well-formed,
/// and (when the first union is non-empty) every overlap ends no later than
/// the first union's last member.
pub proof fn lemma_all_intersections_well_formed(s1: Seq<Interval>, s2: Seq<Interval>)
    requires
        well_formed(s1),
        well_formed(s2),
    ensures
        well_formed(all_intersections(s1, s2)),
        s1.len() > 0 ==> forall|k: int|
            0 <= k < all_intersections(s1, s2).len() ==> ext_le(
                (#[trigger] all_intersections(s1, s2)[k]).hi,
                s1.last().hi,
            ),
    decreases s1.len(),
{
    if s1.len() == 0 {
    } else {
        let s0 = s1.drop_last();
        let a = s1.last();
        lemma_all_intersections_well_formed(s0, s2);
        assert(a.valid());
        lemma_row_bounds(a, s2);
        let prev = all_intersections(s0, s2);
        let row = row_intersections(a, s2);
        let whole = all_intersections(s1, s2);
        assert(whole == prev + row);
        // Junction: the last overlap of the earlier members ends no later
        // than `a` begins, and every overlap with `a` begins there or later.
        if s0.len() > 0 {
            assert(s0.last() == s1[s1.len() - 2]);
            assert(ext_le(s1[s1.len() - 2].hi, s1[s1.len() - 1].lo));
            assert(ext_le(s0.last().hi, a.lo));
        }
        if prev.len() > 0 && row.len() > 0 {
            assert(ext_le(prev.last().hi, s0.last().hi));
            assert(ext_le(a.lo, row[0].lo));
        }
        lemma_well_formed_concat(prev, row);
        assert(ext_le(a.lo, a.hi));
        assert forall|k: int| 0 <= k < whole.len() implies ext_le(
            (#[trigger] whole[k]).hi,
            a.hi,
        ) by {
            if k < prev.len() {
                assert(whole[k] == prev[k]);
                assert(ext_le(prev[k].hi, s0.last().hi));
            } else {
                assert(whole[k] == row[k - prev.len()]);
                assert(ext_le(row[k - prev.len()].hi, a.hi));
            }
        }
    }
}

/// A row of pairwise overlaps is empty exactly when the range overlaps no
/// member of the union.
pub proof fn lemma_row_empty_iff(a: Interval, s: Seq<Interval>)
    ensures
        row_intersections(a, s).len() == 0 <==> forall|j: int|
            0 <= j < s.len() ==> !a.spec_intersects(#[trigger] s[j]),
    decreases s.len(),
{
    if s.len() == 0 {
    } else {
        lemma_row_empty_iff(a, s.drop_last());
        assert(forall|j: int| 0 <= j < s.len() - 1 ==> s.drop_last()[j] == #[trigger] s[j]);
        assert(s.last() == s[s.len() - 1]);
    }
}

/// The full pairwise intersection is empty exactly when no member of the
/// first union overlaps any member of the second.
pub proof fn lemma_all_intersections_empty_iff(s1: Seq<Interval>, s2: Seq<Interval>)
    ensures
        all_intersections(s1, s2).len() == 0 <==> forall|i: int, j: int|
            0 <= i < s1.len() && 0 <= j < s2.len() ==> !(#[trigger] s1[i].spec_intersects(s2[j])),
    decreases s1.len(),
{
    if s1.len() == 0 {
    } else {
        lemma_all_intersections_empty_iff(s1.drop_last(), s2);
        lemma_row_empty_iff(s1.last(), s2);
        assert(forall|i: int| 0 <= i < s1.len() - 1 ==> s1.drop_last()[i] == #[trigger] s1[i]);
        assert(s1.last() == s1[s1.len() - 1]);
    }
}

} // verus!
