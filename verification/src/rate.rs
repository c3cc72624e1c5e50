//! Advisory check of the sample rate against the rates the K-weighting
//! coefficient tables were derived for.

use vstd::prelude::*;

verus! {

/// The decimal digit character for `d`.
pub open spec fn spec_digit(d: int) -> char {
    if d == 0 {
        '0'
    } else if d == 1 {
        '1'
    } else if d == 2 {
        '2'
    } else if d == 3 {
        '3'
    } else if d == 4 {
        '4'
    } else if d == 5 {
        '5'
    } else if d == 6 {
        '6'
    } else if d == 7 {
        '7'
    } else if d == 8 {
        '8'
    } else {
        '9'
    }
}

/// The decimal representation of `n`, most significant digit first.
pub open spec fn spec_decimal(n: nat) -> Seq<char>
    decreases n,
{
    if n < 10 {
        seq![spec_digit(n as int)]
    } else {
        spec_decimal(n / 10).push(spec_digit((n % 10) as int))
    }
}

/// The warning text for a rate without its own coefficient table.
pub open spec fn spec_rate_warning(rate: u32) -> Seq<char> {
    "Warning: K-weighting coefficients are optimized for 48kHz/44.1kHz. Using approximate values for "@
        + spec_decimal(rate as nat) + "Hz."@
}

/// One decimal digit as a string slice.
fn digit_str(d: u32) -> (r: &'static str)
    requires
        d < 10,
    ensures
        r@ == seq![spec_digit(d as int)],
{
    if d == 0 {
        let s = "0";
        proof {
            reveal_strlit("0");
            assert(s@ =~= seq![spec_digit(d as int)]);
        }
        s
    } else if d == 1 {
        let s = "1";
        proof {
            reveal_strlit("1");
            assert(s@ =~= seq![spec_digit(d as int)]);
        }
        s
    } else if d == 2 {
        let s = "2";
        proof {
            reveal_strlit("2");
            assert(s@ =~= seq![spec_digit(d as int)]);
        }
        s
    } else if d == 3 {
        let s = "3";
        proof {
            reveal_strlit("3");
            assert(s@ =~= seq![spec_digit(d as int)]);
        }
        s
    } else if d == 4 {
        let s = "4";
        proof {
            reveal_strlit("4");
            assert(s@ =~= seq![spec_digit(d as int)]);
        }
        s
    } else if d == 5 {
        let s = "5";
        proof {
            reveal_strlit("5");
            assert(s@ =~= seq![spec_digit(d as int)]);
        }
        s
    } else if d == 6 {
        let s = "6";
        proof {
            reveal_strlit("6");
            assert(s@ =~= seq![spec_digit(d as int)]);
        }
        s
    } else if d == 7 {
        let s = "7";
        proof {
            reveal_strlit("7");
            assert(s@ =~= seq![spec_digit(d as int)]);
        }
        s
    } else if d == 8 {
        let s = "8";
        proof {
            reveal_strlit("8");
            assert(s@ =~= seq![spec_digit(d as int)]);
        }
        s
    } else {
        let s = "9";
        proof {
            reveal_strlit("9");
            assert(s@ =~= seq![spec_digit(d as int)]);
        }
        s
    }
}

/// Renders `n` in decimal.
fn decimal_string(n: u32) -> (r: String)
    ensures
        r@ == spec_decimal(n as nat),
    decreases n,
{
    if n < 10 {
        String::from_str(digit_str(n))
    } else {
        let mut s = decimal_string(n / 10);
        s.append(digit_str(n % 10));
        proof {
            assert(spec_decimal((n / 10) as nat) + seq![spec_digit((n % 10) as int)]
                =~= spec_decimal(n as nat));
        }
        s
    }
}

/// Flags a sample rate that has no exact K-weighting coefficient table:
/// `None` exactly for 48000 Hz and 44100 Hz, otherwise the warning text
/// naming the rate. Informational only; analysis proceeds either way.
pub fn check_sample_rate(sample_rate: u32) -> (r: Option<String>)
    ensures
        (r is None) <==> (sample_rate == 48000 || sample_rate == 44100),
        match r {
            Some(m) => m@ == spec_rate_warning(sample_rate),
            None => true,
        },
{
    if sample_rate == 48000 || sample_rate == 44100 {
        None
    } else {
        let mut s = String::from_str(
            "Warning: K-weighting coefficients are optimized for 48kHz/44.1kHz. Using approximate values for ",
        );
        let digits = decimal_string(sample_rate);
        s.append(digits.as_str());
        s.append("Hz.");
        Some(s)
    }
}

} // verus!
