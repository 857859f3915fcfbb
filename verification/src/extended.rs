//! Values on the extended number line: finite numbers together with the two
//! infinities.  Range endpoints are drawn from this type, so every comparison
//! the algebra makes is defined here, as a spec-level order with matching
//! executable comparisons.

use vstd::prelude::*;
use vstd::string::StringExecFns;

verus! {

/// A point on the extended number line.
#[derive(Clone, Copy, Debug, PartialEq, Eq, Structural)]
pub enum Extended {
    /// Negative infinity: below every finite value.
    NegInf,
    /// A finite value.
    Fin(i64),
    /// Positive infinity: above every finite value.
    PosInf,
}

/// The total order on the extended number line (non-strict).
pub open spec fn ext_le(a: Extended, b: Extended) -> bool {
    match (a, b) {
        (Extended::NegInf, _) => true,
        (_, Extended::NegInf) => false,
        (_, Extended::PosInf) => true,
        (Extended::PosInf, _) => false,
        (Extended::Fin(x), Extended::Fin(y)) => x <= y,
    }
}

/// The strict order on the extended number line.
pub open spec fn ext_lt(a: Extended, b: Extended) -> bool {
    ext_le(a, b) && a != b
}

impl Extended {
    /// Executable form of [`ext_le`].
    pub fn le(&self, other: &Extended) -> (r: bool)
        ensures
            r == ext_le(*self, *other),
    {
        match (*self, *other) {
            (Extended::NegInf, _) => true,
            (_, Extended::NegInf) => false,
            (_, Extended::PosInf) => true,
            (Extended::PosInf, _) => false,
            (Extended::Fin(x), Extended::Fin(y)) => x <= y,
        }
    }

    /// Executable form of [`ext_lt`].
    pub fn lt(&self, other: &Extended) -> (r: bool)
        ensures
            r == ext_lt(*self, *other),
    {
        match (*self, *other) {
            (Extended::NegInf, Extended::NegInf) => false,
            (Extended::NegInf, _) => true,
            (_, Extended::NegInf) => false,
            (Extended::PosInf, Extended::PosInf) => false,
            (_, Extended::PosInf) => true,
            (Extended::PosInf, _) => false,
            (Extended::Fin(x), Extended::Fin(y)) => x < y,
        }
    }
}

/// The digit character for one decimal digit.
pub open spec fn spec_digit_char(d: nat) -> char {
    if d == 0 {
        '0'
    } else if d == 1 {
        '1'
    } else if d == 2 {
        '2'
    } else if d == 3 {
        '3'
    } else if d == 4 {
        '4'
    } else if d == 5 {
        '5'
    } else if d == 6 {
        '6'
    } else if d == 7 {
        '7'
    } else if d == 8 {
        '8'
    } else {
        '9'
    }
}

/// The decimal digits of a natural number, most significant first.
pub open spec fn spec_dec_digits(n: nat) -> Seq<char>
    decreases n,
{
    if n < 10 {
        seq![spec_digit_char(n)]
    } else {
        spec_dec_digits(n / 10).push(spec_digit_char(n % 10))
    }
}

/// The decimal text of an integer: a minus sign when negative, then digits.
pub open spec fn spec_int_text(v: int) -> Seq<char> {
    if v < 0 {
        seq!['-'] + spec_dec_digits((-v) as nat)
    } else {
        spec_dec_digits(v as nat)
    }
}

/// The textual notation of an extended value: `-Inf`, `Inf`, or the decimal
/// text of the finite value.
pub open spec fn spec_extended_text(e: Extended) -> Seq<char> {
    match e {
        Extended::NegInf => "-Inf"@,
        Extended::PosInf => "Inf"@,
        Extended::Fin(v) => spec_int_text(v as int),
    }
}

/// The text of one decimal digit.
fn digit_text(d: u64) -> (r: &'static str)
    requires
        d < 10,
    ensures
        r@ == seq![spec_digit_char(d as nat)],
{
    proof {
        reveal_strlit("0");
        reveal_strlit("1");
        reveal_strlit("2");
        reveal_strlit("3");
        reveal_strlit("4");
        reveal_strlit("5");
        reveal_strlit("6");
        reveal_strlit("7");
        reveal_strlit("8");
        reveal_strlit("9");
    }
    if d == 0 {
        "0"
    } else if d == 1 {
        "1"
    } else if d == 2 {
        "2"
    } else if d == 3 {
        "3"
    } else if d == 4 {
        "4"
    } else if d == 5 {
        "5"
    } else if d == 6 {
        "6"
    } else if d == 7 {
        "7"
    } else if d == 8 {
        "8"
    } else {
        "9"
    }
}

/// The decimal text of a natural number.
fn dec_text(n: u64) -> (r: String)
    ensures
        r@ == spec_dec_digits(n as nat),
    decreases n,
{
    if n < 10 {
        digit_text(n).to_owned()
    } else {
        let mut s = dec_text(n / 10);
        s.append(digit_text(n % 10));
        proof {
            assert(spec_dec_digits(n as nat) =~= spec_dec_digits((n / 10) as nat) + seq![
                spec_digit_char((n % 10) as nat),
            ]);
        }
        s
    }
}

/// Renders an extended value in the textual notation.
pub fn extended_text(e: &Extended) -> (r: String)
    ensures
        r@ == spec_extended_text(*e),
{
    match *e {
        Extended::NegInf => "-Inf".to_owned(),
        Extended::PosInf => "Inf".to_owned(),
        Extended::Fin(v) => {
            if v >= 0 {
                dec_text(v as u64)
            } else {
                let m: u64 = (-(v as i128)) as u64;
                proof {
                    reveal_strlit("-");
                    assert(m == (-(v as int)) as nat);
                    assert("-"@ =~= seq!['-']);
                }
                let mut s = "-".to_owned();
                s.append(dec_text(m).as_str());
                s
            }
        },
    }
}

} // verus!
