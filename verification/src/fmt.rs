//! Decimal rendering of integers and fixed-point numbers.
//!
//! The specification functions give the exact character sequence produced:
//! digits most significant first, a minus sign for negative numbers, and a
//! fractional part only when it is non-zero, with trailing zeros removed.

use vstd::prelude::*;
use vstd::string::*;

use crate::fixed::{abs_mag, fx_abs, Fx, FX_SCALE};

verus! {

/// Ten to the `k`-th power.
pub open spec fn pow10(k: nat) -> int
    decreases k,
{
    if k == 0 {
        1
    } else {
        10 * pow10((k - 1) as nat)
    }
}

/// The decimal digit character for `d`.
pub open spec fn digit_char(d: nat) -> char {
    if d == 0 {
        '0'
    } else if d == 1 {
        '1'
    } else if d == 2 {
        '2'
    } else if d == 3 {
        '3'
    } else if d == 4 {
        '4'
    } else if d == 5 {
        '5'
    } else if d == 6 {
        '6'
    } else if d == 7 {
        '7'
    } else if d == 8 {
        '8'
    } else {
        '9'
    }
}

/// Decimal digits of `n`, most significant first.
pub open spec fn dec_digits(n: nat) -> Seq<char>
    decreases n,
{
    if n < 10 {
        seq![digit_char(n)]
    } else {
        dec_digits(n / 10) + seq![digit_char(n % 10)]
    }
}

/// The last `k` decimal digits of `f`, zero padded, most significant first.
pub open spec fn padded_digits(f: nat, k: nat) -> Seq<char>
    decreases k,
{
    if k == 0 {
        Seq::empty()
    } else {
        padded_digits(f / 10, (k - 1) as nat) + seq![digit_char(f % 10)]
    }
}

/// The last `k` decimal digits of `f` with trailing zeros removed.
pub open spec fn frac_digits(f: nat, k: nat) -> Seq<char>
    decreases k,
{
    if k == 0 {
        Seq::empty()
    } else if f % 10 == 0 {
        frac_digits(f / 10, (k - 1) as nat)
    } else {
        padded_digits(f, k)
    }
}

/// Rendering of the fixed-point mantissa `m`: optional sign, whole part,
/// and the non-empty fractional part after a point.
pub open spec fn fx_digits(m: int) -> Seq<char> {
    (if m < 0 {
        seq!['-']
    } else {
        Seq::empty()
    }) + dec_digits((fx_abs(m) / (FX_SCALE as int)) as nat) + (if fx_abs(m) % (FX_SCALE as int)
        == 0 {
        Seq::empty()
    } else {
        seq!['.'] + frac_digits((fx_abs(m) % (FX_SCALE as int)) as nat, 12)
    })
}

/// Appends the digit character for `d` to `s`.
fn push_digit(s: &mut String, d: u64)
    requires
        d < 10,
    ensures
        final(s)@ == old(s)@ + seq![digit_char(d as nat)],
{
    if d == 0 {
        proof {
            reveal_strlit("0");
        }
        s.append("0");
    } else if d == 1 {
        proof {
            reveal_strlit("1");
        }
        s.append("1");
    } else if d == 2 {
        proof {
            reveal_strlit("2");
        }
        s.append("2");
    } else if d == 3 {
        proof {
            reveal_strlit("3");
        }
        s.append("3");
    } else if d == 4 {
        proof {
            reveal_strlit("4");
        }
        s.append("4");
    } else if d == 5 {
        proof {
            reveal_strlit("5");
        }
        s.append("5");
    } else if d == 6 {
        proof {
            reveal_strlit("6");
        }
        s.append("6");
    } else if d == 7 {
        proof {
            reveal_strlit("7");
        }
        s.append("7");
    } else if d == 8 {
        proof {
            reveal_strlit("8");
        }
        s.append("8");
    } else {
        proof {
            reveal_strlit("9");
        }
        s.append("9");
    }
}

/// Decimal rendering of an unsigned integer.
pub fn u64_str(n: u64) -> (s: String)
    ensures
        s@ == dec_digits(n as nat),
    decreases n,
{
    if n < 10 {
        let mut s = String::new();
        push_digit(&mut s, n);
        s
    } else {
        let mut s = u64_str(n / 10);
        push_digit(&mut s, n % 10);
        s
    }
}

/// Decimal rendering of a machine word.
pub fn usize_str(n: usize) -> (s: String)
    ensures
        s@ == dec_digits(n as nat),
{
    u64_str(n as u64)
}

/// The last `k` decimal digits of `f`, zero padded.
fn padded_str(f: u64, k: u32) -> (s: String)
    ensures
        s@ == padded_digits(f as nat, k as nat),
    decreases k,
{
    if k == 0 {
        String::new()
    } else {
        let mut s = padded_str(f / 10, k - 1);
        push_digit(&mut s, f % 10);
        s
    }
}

impl Fx {
    /// Decimal rendering of the number, as `fx_digits` states.
    pub fn to_text(&self) -> (s: String)
        requires
            self.wf(),
        ensures
            s@ == fx_digits(self.m as int),
    {
        let a: u128 = abs_mag(self.m);
        let units: u64 = (a / (FX_SCALE as u128)) as u64;
        let frac: u64 = (a % (FX_SCALE as u128)) as u64;
        let mut s = if self.m < 0 {
            proof {
                reveal_strlit("-");
            }
            String::from_str("-")
        } else {
            String::new()
        };
        proof {
            assert(a as int == fx_abs(self.m as int));
        }
        let units_str = u64_str(units);
        s.append(units_str.as_str());
        if frac != 0 {
            proof {
                reveal_strlit(".");
            }
            s.append(".");
            let mut fv: u64 = frac;
            let mut k: u32 = 12;
            proof {
                reveal_with_fuel(pow10, 13);
                assert(pow10(12nat) == FX_SCALE as int);
            }
            while fv % 10 == 0
                invariant
                    1 <= fv,
                    1 <= k <= 12,
                    fv < pow10(k as nat),
                    frac_digits(frac as nat, 12) == frac_digits(fv as nat, k as nat),
                decreases fv,
            {
                proof {
                    assert(pow10(k as nat) == 10 * pow10((k - 1) as nat));
                    if k == 1 {
                        assert(pow10(0nat) == 1);
                        assert(fv < 10);
                        assert(fv == 0);
                    }
                }
                fv = fv / 10;
                k = k - 1;
            }
            let tail = padded_str(fv, k);
            s.append(tail.as_str());
        }
        s
    }
}

} // verus!
