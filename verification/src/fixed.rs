//! Fixed-point numeric values for counter readings: a sign and a magnitude
//! counted in thousandths of a unit, rendered with at most three fractional
//! digits and no trailing zeros.

use vstd::prelude::*;

use crate::text::dec_chars;
use crate::text::dec_digit;
use crate::text::digit_str;
use crate::text::push_dec_u64;

verus! {

/// A signed fixed-point number, counted in thousandths of a unit.
#[derive(Clone, Copy, PartialEq, Eq, Structural, Debug)]
pub struct Fixed {
    /// True for values below zero.
    pub neg: bool,
    /// Magnitude in thousandths of a unit.
    pub milli: u64,
}

impl Fixed {
    /// Canonical form: zero is never negative.
    pub open spec fn wf(self) -> bool {
        self.neg ==> self.milli > 0
    }

    /// The value in thousandths of a unit, as a mathematical integer.
    pub open spec fn value_milli(self) -> int {
        if self.neg {
            -(self.milli as int)
        } else {
            self.milli as int
        }
    }

    /// Builds the canonical fixed-point number of the given sign and
    /// magnitude in thousandths.
    pub fn new(neg: bool, milli: u64) -> (r: Fixed)
        ensures
            r.milli == milli,
            r.neg == (neg && milli > 0),
            r.wf(),
    {
        Fixed { neg: neg && milli > 0, milli }
    }

    /// Builds the fixed-point number of a whole number of units.
    pub fn from_int(i: i64) -> (r: Fixed)
        requires
            -18_446_744_073_709_551 <= i <= 18_446_744_073_709_551,
        ensures
            r.wf(),
            r.value_milli() == i * 1000,
    {
        let mag: u64 = if i < 0 {
            (-i) as u64
        } else {
            i as u64
        };
        Fixed { neg: i < 0, milli: mag * 1000 }
    }
}

/// The fractional digits of `r` thousandths (`0 < r < 1000`), with leading
/// zeros kept and trailing zeros dropped.
pub open spec fn frac_chars(r: nat) -> Seq<char> {
    if r % 10 != 0 {
        seq![dec_digit(r / 100), dec_digit((r / 10) % 10), dec_digit(r % 10)]
    } else if r % 100 != 0 {
        seq![dec_digit(r / 100), dec_digit((r / 10) % 10)]
    } else {
        seq![dec_digit(r / 100)]
    }
}

/// The textual rendering of `f` with `sep` as the decimal separator: an
/// optional minus sign, the whole units, and the non-empty trimmed fraction
/// after `sep` where the value is not whole.
pub open spec fn fixed_chars(f: Fixed, sep: char) -> Seq<char> {
    (if f.neg {
        seq!['-']
    } else {
        Seq::<char>::empty()
    }) + dec_chars((f.milli / 1000) as nat) + (if f.milli % 1000 == 0 {
        Seq::<char>::empty()
    } else {
        seq![sep] + frac_chars((f.milli % 1000) as nat)
    })
}

/// Appends the rendering of `f` to `out`, with the one-character string
/// `sep` as the decimal separator.
pub fn push_fixed(out: &mut String, f: Fixed, sep: &str)
    requires
        sep@.len() == 1,
    ensures
        final(out)@ == old(out)@ + fixed_chars(f, sep@[0]),
{
    if f.neg {
        out.append("-");
        proof {
            reveal_strlit("-");
        }
    }
    push_dec_u64(out, f.milli / 1000);
    let r = f.milli % 1000;
    if r != 0 {
        out.append(sep);
        if r % 10 != 0 {
            out.append(digit_str(r / 100));
            out.append(digit_str((r / 10) % 10));
            out.append(digit_str(r % 10));
        } else if r % 100 != 0 {
            out.append(digit_str(r / 100));
            out.append(digit_str((r / 10) % 10));
        } else {
            out.append(digit_str(r / 100));
        }
    }
    proof {
        assert(sep@ =~= seq![sep@[0]]);
        assert(final(out)@ =~= old(out)@ + fixed_chars(f, sep@[0]));
    }
}

} // verus!
