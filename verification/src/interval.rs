//! A single contiguous range over the extended number line, with
//! independently open or closed endpoints.
//!
//! The intersection operator is exact about boundaries: two ranges that only
//! touch at a shared endpoint value intersect precisely when both boundaries
//! at that value are closed, and when the surviving endpoint value is a tie,
//! the resulting boundary is closed only when both inputs are closed there.

use crate::extended::{ext_le, ext_lt, extended_text, spec_extended_text, Extended};
use vstd::prelude::*;
use vstd::string::StringExecFns;

verus! {

/// Endpoint inclusivity marker: `Open` excludes the endpoint value, `Closed`
/// includes it.
#[derive(Clone, Copy, Debug, PartialEq, Eq, Structural)]
pub enum Boundary {
    Open,
    Closed,
}

impl Boundary {
    /// What [`Boundary::inverse`] returns.
    pub open spec fn spec_inverse(self) -> Boundary {
        match self {
            Boundary::Open => Boundary::Closed,
            Boundary::Closed => Boundary::Open,
        }
    }

    /// Swaps `Open` and `Closed`.
    pub fn inverse(&self) -> (r: Self)
        ensures
            r == self.spec_inverse(),
    {
        match self {
            Boundary::Open => Boundary::Closed,
            Boundary::Closed => Boundary::Open,
        }
    }
}

/// The one recoverable failure of the algebra: constructing a range whose
/// low endpoint lies above its high endpoint.
#[derive(Clone, Copy, Debug, PartialEq, Eq, Structural)]
pub enum IntervalError {
    LoIsGreaterThanHi,
}

/// One range with boundaries, a low value and a high value.
#[derive(Clone, Copy, Debug, PartialEq, Eq, Structural)]
pub struct Interval {
    pub lo_boundary: Boundary,
    pub lo: Extended,
    pub hi: Extended,
    pub hi_boundary: Boundary,
}

/// The boundary of a surviving endpoint whose value is a tie between the two
/// inputs: closed only when both inputs are closed at that value.
pub open spec fn tie_boundary(a: Boundary, b: Boundary) -> Boundary {
    if a is Closed && b is Closed {
        Boundary::Closed
    } else {
        Boundary::Open
    }
}

impl Interval {
    /// The range invariant: the low endpoint never lies above the high one.
    pub open spec fn valid(self) -> bool {
        ext_le(self.lo, self.hi)
    }

    /// The producers' convention for infinite endpoints: an infinity is never
    /// a closed (includable) endpoint, and no range lies entirely beyond an
    /// infinity.
    pub open spec fn respects_infinity(self) -> bool {
        &&& (self.lo is NegInf ==> self.lo_boundary is Open)
        &&& (self.hi is PosInf ==> self.hi_boundary is Open)
        &&& !(self.hi is NegInf)
        &&& !(self.lo is PosInf)
    }

    /// The range holds at least one value: either it has positive width, or
    /// it is a single point with both boundaries closed.
    pub open spec fn nonempty(self) -> bool {
        ||| ext_lt(self.lo, self.hi)
        ||| (self.lo == self.hi && self.lo_boundary is Closed && self.hi_boundary is Closed)
    }

    /// What [`Interval::contains_point`] returns.
    pub open spec fn spec_contains_point(self, point: Extended) -> bool {
        ||| (ext_lt(self.lo, point) && ext_lt(point, self.hi))
        ||| (self.lo == point && self.lo_boundary is Closed)
        ||| (self.hi == point && self.hi_boundary is Closed)
    }

    /// What [`Interval::intersects_with`] returns: the two ranges fail to
    /// intersect exactly when one lies entirely past the other, counting a
    /// shared endpoint value as past when either boundary there is open.
    pub open spec fn spec_intersects(self, other: Interval) -> bool {
        !({
            ||| ext_lt(other.hi, self.lo)
            ||| ext_lt(self.hi, other.lo)
            ||| (self.lo == other.hi && (self.lo_boundary is Open || other.hi_boundary is Open))
            ||| (other.lo == self.hi && (other.lo_boundary is Open || self.hi_boundary is Open))
        })
    }

    /// The overlap of two intersecting ranges: the greater low endpoint and
    /// the smaller high endpoint, with ties combined by [`tie_boundary`].
    pub open spec fn spec_intersection(self, other: Interval) -> Interval {
        (Interval {
            lo_boundary: if ext_lt(other.lo, self.lo) {
                self.lo_boundary
            } else if ext_lt(self.lo, other.lo) {
                other.lo_boundary
            } else {
                tie_boundary(self.lo_boundary, other.lo_boundary)
            },
            lo: if ext_lt(self.lo, other.lo) {
                other.lo
            } else {
                self.lo
            },
            hi: if ext_lt(other.hi, self.hi) {
                other.hi
            } else {
                self.hi
            },
            hi_boundary: if ext_lt(self.hi, other.hi) {
                self.hi_boundary
            } else if ext_lt(other.hi, self.hi) {
                other.hi_boundary
            } else {
                tie_boundary(self.hi_boundary, other.hi_boundary)
            },
        })
    }

    /// The textual notation of the range: `[` / `(` for the low boundary,
    /// the two endpoint values, `]` / `)` for the high boundary.
    pub open spec fn spec_notation(self) -> Seq<char> {
        (if self.lo_boundary is Open {
            "("@
        } else {
            "["@
        }) + spec_extended_text(self.lo) + ", "@ + spec_extended_text(self.hi) + (
        if self.hi_boundary is Open {
            ")"@
        } else {
            "]"@
        })
    }

    /// Renders the range in the textual notation, e.g. `[5, 10)`.
    pub fn to_notation(&self) -> (r: String)
        ensures
            r@ == self.spec_notation(),
    {
        let mut s = if self.lo_boundary == Boundary::Open {
            "(".to_owned()
        } else {
            "[".to_owned()
        };
        let lo_text = extended_text(&self.lo);
        s.append(lo_text.as_str());
        s.append(", ");
        let hi_text = extended_text(&self.hi);
        s.append(hi_text.as_str());
        s.append(
            if self.hi_boundary == Boundary::Open {
                ")"
            } else {
                "]"
            },
        );
        s
    }

    /// Validated constructor: rejects a range whose low endpoint lies above
    /// its high endpoint, and performs no other normalization.
    pub fn new(lo_boundary: Boundary, lo: Extended, hi: Extended, hi_boundary: Boundary) -> (r:
        Result<Self, IntervalError>)
        ensures
            ext_le(lo, hi) ==> r == Ok::<Interval, IntervalError>(
                Interval { lo_boundary, lo, hi, hi_boundary },
            ),
            !ext_le(lo, hi) ==> r == Err::<Interval, IntervalError>(
                IntervalError::LoIsGreaterThanHi,
            ),
    {
        if hi.lt(&lo) {
            Err(IntervalError::LoIsGreaterThanHi)
        } else {
            Ok(Interval { lo_boundary, lo, hi, hi_boundary })
        }
    }

    /// Convenience constructor for a closed-closed range.
    pub fn new_closed(lo: Extended, hi: Extended) -> (r: Result<Self, IntervalError>)
        ensures
            ext_le(lo, hi) ==> r == Ok::<Interval, IntervalError>(
                Interval {
                    lo_boundary: Boundary::Closed,
                    lo,
                    hi,
                    hi_boundary: Boundary::Closed,
                },
            ),
            !ext_le(lo, hi) ==> r == Err::<Interval, IntervalError>(
                IntervalError::LoIsGreaterThanHi,
            ),
    {
        Self::new(Boundary::Closed, lo, hi, Boundary::Closed)
    }

    /// A single-point closed range; always valid, so no validation is needed.
    pub fn new_closed_point(point: Extended) -> (r: Self)
        ensures
            r == (Interval {
                lo_boundary: Boundary::Closed,
                lo: point,
                hi: point,
                hi_boundary: Boundary::Closed,
            }),
            r.valid(),
    {
        Interval {
            lo_boundary: Boundary::Closed,
            lo: point,
            hi: point,
            hi_boundary: Boundary::Closed,
        }
    }

    /// Whether the range holds the given point.
    pub fn contains_point(&self, point: Extended) -> (r: bool)
        ensures
            r == self.spec_contains_point(point),
    {
        (self.lo.lt(&point) && point.lt(&self.hi)) || (self.lo == point && self.lo_boundary
            == Boundary::Closed) || (self.hi == point && self.hi_boundary == Boundary::Closed)
    }

    /// Whether the two ranges overlap, counting a shared endpoint value only
    /// when both boundaries there are closed.
    pub fn intersects_with(&self, other: &Self) -> (r: bool)
        ensures
            r == self.spec_intersects(*other),
    {
        let doesnt_intersect = (other.hi.lt(&self.lo) || self.hi.lt(&other.lo)) || (self.lo
            == other.hi && (self.lo_boundary == Boundary::Open || other.hi_boundary
            == Boundary::Open)) || (other.lo == self.hi && (other.lo_boundary == Boundary::Open
            || self.hi_boundary == Boundary::Open));
        !doesnt_intersect
    }

    /// The overlap of the two ranges, or `None` when they do not intersect.
    pub fn intersect(&self, other: &Self) -> (r: Option<Self>)
        requires
            self.valid(),
            other.valid(),
        ensures
            self.spec_intersects(*other) ==> r == Some(self.spec_intersection(*other)),
            !self.spec_intersects(*other) ==> r is None,
            r is Some ==> r->Some_0.valid(),
    {
        if !self.intersects_with(other) {
            return None;
        }
        let lo_boundary = if other.lo.lt(&self.lo) {
            self.lo_boundary
        } else if self.lo.lt(&other.lo) {
            other.lo_boundary
        } else if self.lo_boundary == Boundary::Closed && other.lo_boundary == Boundary::Closed {
            Boundary::Closed
        } else {
            Boundary::Open
        };
        let lo = if self.lo.lt(&other.lo) {
            other.lo
        } else {
            self.lo
        };
        let hi = if other.hi.lt(&self.hi) {
            other.hi
        } else {
            self.hi
        };
        let hi_boundary = if self.hi.lt(&other.hi) {
            self.hi_boundary
        } else if other.hi.lt(&self.hi) {
            other.hi_boundary
        } else if self.hi_boundary == Boundary::Closed && other.hi_boundary == Boundary::Closed {
            Boundary::Closed
        } else {
            Boundary::Open
        };
        Some(Interval { lo_boundary, lo, hi, hi_boundary })
    }
}

/// The overlap of two valid, intersecting ranges is itself valid, and lies
/// inside both inputs.
pub proof fn lemma_intersection_bounds(a: Interval, b: Interval)
    requires
        a.valid(),
        b.valid(),
        a.spec_intersects(b),
    ensures
        a.spec_intersection(b).valid(),
        ext_le(a.lo, a.spec_intersection(b).lo),
        ext_le(b.lo, a.spec_intersection(b).lo),
        ext_le(a.spec_intersection(b).hi, a.hi),
        ext_le(a.spec_intersection(b).hi, b.hi),
{
}

/// Touch-exclusion: when two valid ranges share exactly the one endpoint
/// value `a.hi == b.lo`, they intersect precisely when neither boundary at
/// that shared value is open.
pub proof fn lemma_touch_exclusion(a: Interval, b: Interval)
    requires
        a.valid(),
        b.valid(),
        a.hi == b.lo,
        a.lo != b.hi,
    ensures
        a.spec_intersects(b) <==> (a.hi_boundary is Closed && b.lo_boundary is Closed),
        (a.hi_boundary is Closed && b.lo_boundary is Closed && ext_lt(a.lo, a.hi) && ext_lt(
            b.lo,
            b.hi,
        )) ==> a.spec_intersection(b) == (Interval {
            lo_boundary: Boundary::Closed,
            lo: a.hi,
            hi: a.hi,
            hi_boundary: Boundary::Closed,
        }),
{
}

} // verus!
