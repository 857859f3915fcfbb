//! The algebraic laws of the range-union operators, stated over the
//! mathematical model (`Seq<Interval>` and the spec functions of
//! [`crate::multi_interval`]) and proved once for all inputs.

use crate::extended::{ext_le, ext_lt};
use crate::interval::Interval;
use crate::multi_interval::{
    all_intersections, all_nonempty, all_respect_infinity, full_line, gap_between, left_tail,
    lemma_all_intersections_empty_iff, lemma_inverse_shape, lemma_member_chain, right_tail,
    row_intersections, spec_inverse, well_formed,
};
use vstd::prelude::*;

verus! {

/// Double complement: complementing a union twice restores it exactly, for
/// any well-formed union whose members respect the infinity convention.
pub proof fn lemma_inverse_involution(s: Seq<Interval>)
    requires
        well_formed(s),
        all_respect_infinity(s),
    ensures
        spec_inverse(spec_inverse(s)) == s,
{
    let t = spec_inverse(s);
    if s.len() == 0 {
        assert(t == seq![full_line()]);
        assert(t[0].lo is NegInf);
        assert(t[t.len() - 1].hi is PosInf);
        assert(spec_inverse(t) =~= s);
    } else {
        let n = s.len() as int;
        let li: int = if s[0].lo is NegInf {
            0
        } else {
            1
        };
        let ri: int = if s[n - 1].hi is PosInf {
            0
        } else {
            1
        };
        lemma_inverse_shape(s);
        assert(s[0].respects_infinity());
        assert(s[n - 1].respects_infinity());
        if t.len() == 0 {
            // Only possible for the full line itself: one member, both ends
            // infinite, both boundaries open by the convention.
            assert(li == 0 && ri == 0 && n == 1);
            assert(s[0] == full_line());
            assert(spec_inverse(t) =~= s);
        } else {
            let m = t.len() as int;
            // The first piece of the complement begins at negative infinity
            // exactly when the union itself did not.
            if li == 1 {
                assert(t[0] == left_tail(s[0]));
                assert(t[0].lo is NegInf);
            } else {
                if n >= 2 {
                    assert(t[0] == gap_between(s[0], s[1]));
                } else {
                    assert(ri == 1);
                    assert(t[0] == right_tail(s[0]));
                }
                assert(t[0].lo == s[0].hi);
                assert(!(t[0].lo is NegInf));
            }
            // The last piece ends at positive infinity exactly when the
            // union itself did not.
            if ri == 1 {
                assert(t[m - 1] == right_tail(s[n - 1]));
                assert(t[m - 1].hi is PosInf);
            } else {
                if n >= 2 {
                    assert(t[m - 1] == t[li + (n - 2)]);
                    assert(t[m - 1] == gap_between(s[n - 2], s[n - 1]));
                } else {
                    assert(li == 1);
                    assert(t[m - 1] == left_tail(s[0]));
                }
                assert(t[m - 1].hi == s[n - 1].lo);
                assert(!(t[m - 1].hi is PosInf));
            }
            lemma_inverse_shape(t);
            let lu: int = if t[0].lo is NegInf {
                0
            } else {
                1
            };
            let ru: int = if t[m - 1].hi is PosInf {
                0
            } else {
                1
            };
            assert(lu == 1 - li);
            assert(ru == 1 - ri);
            let u = spec_inverse(t);
            assert(u.len() == lu + m - 1 + ru);
            assert(u.len() == n);
            assert forall|k: int| 0 <= k < n implies u[k] == s[k] by {
                if lu == 1 && k == 0 {
                    // The left tail of the second complement rebuilds the
                    // first member, which began at negative infinity.
                    assert(u[0] == left_tail(t[0]));
                    if n >= 2 {
                        assert(t[0] == t[li + 0]);
                        assert(t[0] == gap_between(s[0], s[1]));
                    } else {
                        assert(t[0] == right_tail(s[n - 1]));
                    }
                    assert(t[0].lo == s[0].hi);
                    assert(t[0].lo_boundary == s[0].hi_boundary.spec_inverse());
                    assert(u[0].hi == s[0].hi);
                    assert(u[0].hi_boundary == s[0].hi_boundary);
                    assert(s[0].lo is NegInf);
                    assert(s[0].lo_boundary is Open);
                    assert(u[0] == s[0]);
                } else if ru == 1 && k == n - 1 {
                    // The right tail of the second complement rebuilds the
                    // last member, which ended at positive infinity.
                    assert(u[k] == u[u.len() - 1]);
                    assert(u[k] == right_tail(t[m - 1]));
                    if n >= 2 {
                        assert(t[m - 1] == t[li + (n - 2)]);
                        assert(t[m - 1] == gap_between(s[n - 2], s[n - 1]));
                    } else {
                        assert(t[m - 1] == left_tail(s[0]));
                    }
                    assert(t[m - 1].hi == s[n - 1].lo);
                    assert(t[m - 1].hi_boundary == s[n - 1].lo_boundary.spec_inverse());
                    assert(u[k].lo == s[n - 1].lo);
                    assert(u[k].lo_boundary == s[n - 1].lo_boundary);
                    assert(s[n - 1].hi is PosInf);
                    assert(s[n - 1].hi_boundary is Open);
                    assert(u[k] == s[n - 1]);
                } else {
                    // A gap of the second complement rebuilds one member of
                    // the original union.
                    let j = k - lu;
                    assert(0 <= j < m - 1);
                    assert(u[lu + j] == gap_between(t[j], t[j + 1]));
                    // t[j]'s high side carries s[k]'s low side.
                    if li == 1 && j == 0 {
                        assert(t[j] == left_tail(s[0]));
                        assert(k == 0);
                        assert(t[j].hi == s[k].lo);
                        assert(t[j].hi_boundary == s[k].lo_boundary.spec_inverse());
                    } else {
                        assert(t[j] == t[li + (j - li)]);
                        assert(0 <= j - li < n - 1);
                        assert(t[j] == gap_between(s[j - li], s[j - li + 1]));
                        assert(j - li + 1 == k);
                        assert(t[j].hi == s[k].lo);
                        assert(t[j].hi_boundary == s[k].lo_boundary.spec_inverse());
                    }
                    // t[j + 1]'s low side carries s[k]'s high side.
                    if ri == 1 && j + 1 == m - 1 {
                        assert(t[j + 1] == right_tail(s[n - 1]));
                        assert(k == n - 1);
                        assert(t[j + 1].lo == s[k].hi);
                        assert(t[j + 1].lo_boundary == s[k].hi_boundary.spec_inverse());
                    } else {
                        assert(t[j + 1] == t[li + (j + 1 - li)]);
                        assert(0 <= j + 1 - li < n - 1);
                        assert(t[j + 1] == gap_between(s[j + 1 - li], s[j + 2 - li]));
                        assert(j + 1 - li == k);
                        assert(t[j + 1].lo == s[k].hi);
                        assert(t[j + 1].lo_boundary == s[k].hi_boundary.spec_inverse());
                    }
                    assert(u[k] == s[k]);
                }
            }
            assert(u =~= s);
        }
    }
}

/// The full line absorbs intersection: any valid range that respects the
/// infinity convention overlaps `(-Inf, Inf)`, and the overlap is the range
/// itself.
pub proof fn lemma_full_line_absorbs(a: Interval)
    requires
        a.valid(),
        a.respects_infinity(),
    ensures
        a.spec_intersects(full_line()),
        a.spec_intersection(full_line()) == a,
{
}

/// Identity under full-domain intersection: intersecting a non-empty,
/// well-formed union with the full line leaves it exactly unchanged, and the
/// intersection is present.
pub proof fn lemma_full_line_identity(s: Seq<Interval>)
    requires
        well_formed(s),
        all_respect_infinity(s),
    ensures
        all_intersections(s, seq![full_line()]) == s,
        s.len() > 0 ==> exists|i: int, j: int|
            0 <= i < s.len() && 0 <= j < seq![full_line()].len() && (
            #[trigger] s[i].spec_intersects(seq![full_line()][j])),
    decreases s.len(),
{
    let f = seq![full_line()];
    if s.len() == 0 {
        assert(all_intersections(s, f) =~= s);
    } else {
        let s0 = s.drop_last();
        let a = s.last();
        lemma_full_line_identity(s0);
        lemma_full_line_absorbs(a);
        assert(f.drop_last() =~= Seq::<Interval>::empty());
        assert(f.last() == full_line());
        assert(row_intersections(a, Seq::<Interval>::empty()) =~= Seq::<Interval>::empty());
        assert(row_intersections(a, f) =~= seq![a]);
        assert(all_intersections(s, f) == s0 + seq![a]);
        assert(all_intersections(s, f) =~= s);
        assert(s[0].spec_intersects(f[0]));
    }
}

/// Complement disjointness: no member of a well-formed union of non-empty,
/// convention-respecting ranges overlaps any piece of the union's
/// complement, so intersecting the two yields nothing at all.
pub proof fn lemma_complement_disjoint(s: Seq<Interval>)
    requires
        well_formed(s),
        all_respect_infinity(s),
        all_nonempty(s),
    ensures
        forall|i: int, j: int|
            0 <= i < s.len() && 0 <= j < spec_inverse(s).len() ==> !(
            #[trigger] s[i].spec_intersects(spec_inverse(s)[j])),
        all_intersections(s, spec_inverse(s)).len() == 0,
{
    let t = spec_inverse(s);
    if s.len() == 0 {
        assert(all_intersections(s, t).len() == 0);
    } else {
        let n = s.len() as int;
        let li: int = if s[0].lo is NegInf {
            0
        } else {
            1
        };
        let ri: int = if s[n - 1].hi is PosInf {
            0
        } else {
            1
        };
        lemma_inverse_shape(s);
        assert forall|i: int, j: int|
            0 <= i < s.len() && 0 <= j < t.len() implies !(#[trigger] s[i].spec_intersects(
            t[j],
        )) by {
            assert(s[i].valid());
            assert(s[i].nonempty());
            if li == 1 && j == 0 {
                // The left tail ends where the first member begins; the
                // boundary there was inverted, so the touch is excluded.
                assert(t[j] == left_tail(s[0]));
                if i == 0 {
                    assert(s[i].lo == t[j].hi);
                } else {
                    lemma_member_chain(s, 0, i);
                    assert(ext_le(s[0].lo, s[0].hi));
                    assert(ext_le(s[0].hi, s[i].lo));
                    if s[i].lo == t[j].hi {
                        // All of the first member collapses onto this point,
                        // so being non-empty it is closed on both sides.
                        assert(s[0].lo == s[0].hi);
                        assert(s[0].lo_boundary is Closed);
                    } else {
                        assert(ext_lt(t[j].hi, s[i].lo));
                    }
                }
            } else if j - li < n - 1 {
                let p = j - li;
                assert(t[j] == gap_between(s[p], s[p + 1]));
                if i <= p {
                    // The member ends no later than the gap begins; on a
                    // touch the inverted boundary excludes the shared point.
                    if i == p {
                        assert(s[i].hi == t[j].lo);
                    } else {
                        lemma_member_chain(s, i, p);
                        assert(ext_le(s[i].hi, s[p].lo));
                        assert(ext_le(s[p].lo, s[p].hi));
                        if s[i].hi == t[j].lo {
                            assert(s[p].lo == s[p].hi);
                            assert(s[p].nonempty());
                            assert(s[p].hi_boundary is Closed);
                        } else {
                            assert(ext_lt(s[i].hi, t[j].lo));
                        }
                    }
                } else {
                    // The member begins no earlier than the gap ends.
                    if i == p + 1 {
                        assert(s[i].lo == t[j].hi);
                    } else {
                        lemma_member_chain(s, p + 1, i);
                        assert(ext_le(s[p + 1].hi, s[i].lo));
                        assert(ext_le(s[p + 1].lo, s[p + 1].hi));
                        if s[i].lo == t[j].hi {
                            assert(s[p + 1].lo == s[p + 1].hi);
                            assert(s[p + 1].nonempty());
                            assert(s[p + 1].lo_boundary is Closed);
                        } else {
                            assert(ext_lt(t[j].hi, s[i].lo));
                        }
                    }
                }
            } else {
                // The right tail begins where the last member ends.
                assert(ri == 1 && j == t.len() - 1);
                assert(t[j] == right_tail(s[n - 1]));
                if i == n - 1 {
                    assert(s[i].hi == t[j].lo);
                } else {
                    lemma_member_chain(s, i, n - 1);
                    assert(ext_le(s[i].hi, s[n - 1].lo));
                    assert(ext_le(s[n - 1].lo, s[n - 1].hi));
                    if s[i].hi == t[j].lo {
                        assert(s[n - 1].lo == s[n - 1].hi);
                        assert(s[n - 1].nonempty());
                        assert(s[n - 1].hi_boundary is Closed);
                    } else {
                        assert(ext_lt(s[i].hi, t[j].lo));
                    }
                }
            }
        }
        lemma_all_intersections_empty_iff(s, t);
    }
}

} // verus!
