//! The behavioural tests of the range algebra: point membership, pairwise
//! intersection, union intersection, complement, and the algebraic axioms.

use interval_algebra::extended::Extended;
use interval_algebra::interval::{Boundary, Interval};
use interval_algebra::multi_interval::MultiInterval;

/// Parses an endpoint token: `-Inf`, `Inf`, or a decimal integer.
fn ext(tok: &str) -> Extended {
    match tok {
        "-Inf" => Extended::NegInf,
        "Inf" => Extended::PosInf,
        _ => Extended::Fin(tok.parse::<i64>().expect("endpoint should be an integer")),
    }
}

/// Parses one range in the textual notation, e.g. `[5, 10)`.
fn ivl(input: &str) -> Interval {
    let t = input.trim();
    let lo_boundary = if t.starts_with('[') {
        Boundary::Closed
    } else {
        assert!(t.starts_with('('), "bad low boundary in {t}");
        Boundary::Open
    };
    let hi_boundary = if t.ends_with(']') {
        Boundary::Closed
    } else {
        assert!(t.ends_with(')'), "bad high boundary in {t}");
        Boundary::Open
    };
    let inner = &t[1..t.len() - 1];
    let mut parts = inner.split(',');
    let lo = ext(parts.next().expect("missing low endpoint").trim());
    let hi = ext(parts.next().expect("missing high endpoint").trim());
    Interval::new(lo_boundary, lo, hi, hi_boundary).expect("range in notation should be valid")
}

/// Parses a whitespace-separated sequence of ranges.
fn multiint(input: &str) -> MultiInterval {
    let mut ivs: Vec<Interval> = Vec::new();
    let mut buf = String::new();
    for ch in input.chars() {
        buf.push(ch);
        if ch == ']' || ch == ')' {
            ivs.push(ivl(buf.trim()));
            buf.clear();
        }
    }
    MultiInterval::from_intervals(ivs).expect("ranges in notation should be disjoint and sorted")
}

fn fin(v: i64) -> Extended {
    Extended::Fin(v)
}

#[test]
fn test_contains_point() {
    let test_cases = vec![
        (ivl("[5, 10]"), 4, false),
        (ivl("(5, 10]"), 5, false),
        (ivl("[5, 10]"), 5, true),
        (ivl("[5, 10]"), 7, true),
        (ivl("[5, 10]"), 10, true),
        (ivl("[5, 10)"), 10, false),
        (ivl("[5, 10)"), 11, false),
    ];

    for (interval, point, expected) in test_cases {
        assert_eq!(
            interval.contains_point(fin(point)),
            expected,
            "Interval.contains_point failed: {interval:?}.contains_point({point:?}) should be {expected:?}",
        );
    }
}

#[test]
#[allow(non_snake_case)]
fn test_Interval_intersects_with() {
    let test_cases = vec![
        // self.hi equals other.lo
        (ivl("[0, 10]"), ivl("[10, 20]"), true),
        (ivl("[0, 10]"), ivl("(10, 20]"), false),
        (ivl("[0, 10)"), ivl("[10, 20]"), false),
        (ivl("[0, 10)"), ivl("(10, 20]"), false),
        // self.lo equals other.hi
        (ivl("[10, 20]"), ivl("[0, 10]"), true),
        (ivl("(10, 20]"), ivl("[0, 10]"), false),
        (ivl("[10, 20]"), ivl("[0, 10)"), false),
        (ivl("(10, 20]"), ivl("[0, 10)"), false),
        // self.hi inside other == other.lo inside self
        (ivl("[0, 10]"), ivl("[5, 20]"), true),
        (ivl("[0, 10]"), ivl("(5, 20]"), true),
        (ivl("[0, 10)"), ivl("[5, 20]"), true),
        (ivl("[0, 10)"), ivl("(5, 20]"), true),
        // self.lo inside other == other.hi inside self
        (ivl("[5, 20]"), ivl("[0, 10]"), true),
        (ivl("(5, 20]"), ivl("[0, 10]"), true),
        (ivl("[5, 20]"), ivl("[0, 10)"), true),
        (ivl("(5, 20]"), ivl("[0, 10)"), true),
        // self inside other
        (ivl("[10, 20]"), ivl("[0, 30]"), true),
        (ivl("[10, 20)"), ivl("[0, 30]"), true),
        (ivl("(10, 20]"), ivl("[0, 30]"), true),
        (ivl("(10, 20)"), ivl("[0, 30]"), true),
        // other inside self
        (ivl("[0, 30]"), ivl("[10, 20]"), true),
        (ivl("[0, 30]"), ivl("[10, 20)"), true),
        (ivl("[0, 30]"), ivl("(10, 20]"), true),
        (ivl("[0, 30]"), ivl("(10, 20)"), true),
        // self.lo > other.hi
        (ivl("[20, 30]"), ivl("[0, 10]"), false),
        (ivl("[20, 30]"), ivl("[0, 10)"), false),
        (ivl("(20, 30]"), ivl("[0, 10]"), false),
        (ivl("(20, 30]"), ivl("[0, 10)"), false),
        // other.lo > self.hi
        (ivl("[0, 10]"), ivl("[20, 30]"), false),
        (ivl("[0, 10)"), ivl("[20, 30]"), false),
        (ivl("[0, 10]"), ivl("(20, 30]"), false),
        (ivl("[0, 10)"), ivl("(20, 30]"), false),
    ];

    for (this, that, expected) in test_cases {
        assert_eq!(
            this.intersects_with(&that),
            expected,
            "Interval.intersects_with failed: {this:?}.intersects_with({that:?}) should be {expected:?}",
        );
    }
}

#[test]
#[allow(non_snake_case)]
fn test_Interval_intersect() {
    let test_cases = vec![
        // self.hi equals other.lo
        (ivl("[0, 10]"), ivl("[10, 20]"), Some(ivl("[10, 10]"))),
        (ivl("[0, 10]"), ivl("(10, 20]"), None),
        (ivl("[0, 10)"), ivl("[10, 20]"), None),
        (ivl("[0, 10)"), ivl("(10, 20]"), None),
        // self.lo equals other.hi
        (ivl("[10, 20]"), ivl("[0, 10]"), Some(ivl("[10, 10]"))),
        (ivl("(10, 20]"), ivl("[0, 10]"), None),
        (ivl("[10, 20]"), ivl("[0, 10)"), None),
        (ivl("(10, 20]"), ivl("[0, 10)"), None),
        // self.hi inside other == other.lo inside self
        (ivl("[0, 10]"), ivl("[5, 20]"), Some(ivl("[5, 10]"))),
        (ivl("[0, 10]"), ivl("(5, 20]"), Some(ivl("(5, 10]"))),
        (ivl("[0, 10)"), ivl("[5, 20]"), Some(ivl("[5, 10)"))),
        (ivl("[0, 10)"), ivl("(5, 20]"), Some(ivl("(5, 10)"))),
        // self.lo inside other == other.hi inside self
        (ivl("[5, 20]"), ivl("[0, 10]"), Some(ivl("[5, 10]"))),
        (ivl("(5, 20]"), ivl("[0, 10]"), Some(ivl("(5, 10]"))),
        (ivl("[5, 20]"), ivl("[0, 10)"), Some(ivl("[5, 10)"))),
        (ivl("(5, 20]"), ivl("[0, 10)"), Some(ivl("(5, 10)"))),
        // self inside other
        (ivl("[10, 20]"), ivl("[0, 30]"), Some(ivl("[10, 20]"))),
        (ivl("[10, 20)"), ivl("[0, 30]"), Some(ivl("[10, 20)"))),
        (ivl("(10, 20]"), ivl("[0, 30]"), Some(ivl("(10, 20]"))),
        (ivl("(10, 20)"), ivl("[0, 30]"), Some(ivl("(10, 20)"))),
        // other inside self
        (ivl("[0, 30]"), ivl("[10, 20]"), Some(ivl("[10, 20]"))),
        (ivl("[0, 30]"), ivl("[10, 20)"), Some(ivl("[10, 20)"))),
        (ivl("[0, 30]"), ivl("(10, 20]"), Some(ivl("(10, 20]"))),
        (ivl("[0, 30]"), ivl("(10, 20)"), Some(ivl("(10, 20)"))),
        // self.lo > other.hi
        (ivl("[20, 30]"), ivl("[0, 10]"), None),
        (ivl("[20, 30]"), ivl("[0, 10)"), None),
        (ivl("(20, 30]"), ivl("[0, 10]"), None),
        (ivl("(20, 30]"), ivl("[0, 10)"), None),
        // other.lo > self.hi
        (ivl("[0, 10]"), ivl("[20, 30]"), None),
        (ivl("[0, 10)"), ivl("[20, 30]"), None),
        (ivl("[0, 10]"), ivl("(20, 30]"), None),
        (ivl("[0, 10)"), ivl("(20, 30]"), None),
    ];

    for (this, that, expected) in test_cases {
        assert_eq!(
            this.intersect(&that),
            expected,
            "Interval.intersect failed: {this:?}.intersect({that:?}) should be {expected:?}",
        );
    }
}

#[test]
#[allow(non_snake_case)]
fn test_MultiInterval_intersect() {
    let test_cases = vec![
        // zero elements
        (vec![], vec![], None),
        // one elem - zero elem
        (vec![ivl("[0, 10]")], vec![], None),
        (vec![], vec![ivl("[0, 10]")], None),
        // one element, has intersection
        (vec![ivl("[0, 10]")], vec![ivl("[5, 20]")], Some(vec![ivl("[5, 10]")])),
        // one element - two elements, has intersection
        (
            vec![ivl("[0, 10]")],
            vec![ivl("[5, 20]"), ivl("[100, 200]")],
            Some(vec![ivl("[5, 10]")]),
        ),
        (
            vec![ivl("[5, 20]"), ivl("[100, 200]")],
            vec![ivl("[0, 10]")],
            Some(vec![ivl("[5, 10]")]),
        ),
        // contains multiple intervals
        (
            vec![ivl("[0, 100]")],
            vec![ivl("[10, 20]"), ivl("[30, 40]")],
            Some(vec![ivl("[10, 20]"), ivl("[30, 40]")]),
        ),
        // overlaps with multiple intervals
        (
            vec![ivl("[20, 50]")],
            vec![ivl("[0, 30]"), ivl("[40, 60]")],
            Some(vec![ivl("[20, 30]"), ivl("[40, 50]")]),
        ),
        // multiple elements
        (
            vec![ivl("(-Inf, 10]"), ivl("[20, 30]"), ivl("[40, 50]")],
            vec![ivl("(-Inf, 10)"), ivl("[15, 25]"), ivl("(26, 35]")],
            Some(vec![ivl("(-Inf, 10)"), ivl("[20, 25]"), ivl("(26, 30]")]),
        ),
    ];

    for (a, b, expected_vec) in test_cases {
        let this = MultiInterval::from_intervals(a).expect("case input should be well-formed");
        let that = MultiInterval::from_intervals(b).expect("case input should be well-formed");
        let expected = expected_vec.map(|intervals| {
            MultiInterval::from_intervals(intervals).expect("expected value should be well-formed")
        });

        assert_eq!(
            this.intersect(&that),
            expected,
            "MultiInterval.intersect failed: {this:?}.intersect({that:?}) should be {expected:?}",
        );
    }
}

#[test]
#[allow(non_snake_case)]
fn test_MultiInterval_inverse() {
    let test_cases = vec![
        // zero elements
        ("", "(-Inf, Inf)"),
        ("(-Inf, Inf)", ""),
        // one element - -Inf on left
        ("(-Inf, 10)", "[10, Inf)"),
        ("(-Inf, 10]", "(10, Inf)"),
        // one element - no Infs on either side
        ("(10, 20)", "(-Inf, 10] [20, Inf)"),
        ("(10, 20]", "(-Inf, 10] (20, Inf)"),
        ("[10, 20)", "(-Inf, 10) [20, Inf)"),
        ("[10, 20]", "(-Inf, 10) (20, Inf)"),
        // one element - Inf on right
        ("(10, Inf)", "(-Inf, 10]"),
        ("[10, Inf)", "(-Inf, 10)"),
        // multiple elements - has Inf on either side
        ("(-Inf, 10) (20, Inf)", "[10, 20]"),
        ("(-Inf, 10) (20, 30) (40, Inf)", "[10, 20] [30, 40]"),
        // multiple elements - Inf on one side
        ("(-Inf, 10) [20, 30)", "[10, 20) [30, Inf)"),
        (
            "(-Inf, 10)        (20, 30)        (40, 50)",
            "          [10, 20]        [30, 40]        [50, Inf)",
        ),
        ("(0, 10) [20, Inf)", "(-Inf, 0] [10, 20)"),
        (
            "         [0, 10)        (20, 30)        (40, Inf)",
            "(-Inf, 0)       [10, 20]        [30, 40]",
        ),
        // complex examples
        (
            "           [-42, 3)      (3, 67)         (100, 101)          [205, 607]          (700, Inf)",
            "(-Inf, -42)        [3, 3]       [67, 100]          [101, 205)          (607, 700]",
        ),
    ];

    for (interval, expected) in test_cases {
        let interval = multiint(interval);
        let expected = multiint(expected);

        assert_eq!(
            interval.inverse(),
            expected,
            "MultiInterval.invert failed: {interval:?}.inverse() should be {expected:?}",
        );
    }
}

#[test]
#[allow(non_snake_case)]
fn test_MultiInterval_axioms() {
    let input1 = multiint("[-42, 3) (3, 67) (100, 101) [205, 607] (700, Inf)");

    assert_eq!(
        input1.inverse().inverse(),
        input1,
        "The inverse of an inverse should be the original",
    );
    assert_eq!(
        input1.intersect(&multiint("(-Inf, Inf)")),
        Some(input1.clone()),
        "Intersecting something with (-Inf, Inf) should be the original"
    );
    assert!(
        !input1.intersects_with(&input1.inverse()),
        "An interval can't be intersected with its inverse"
    );
    assert_eq!(
        input1.intersect(&input1.inverse()),
        None,
        "An interval can't be intersected with its inverse"
    );
}
