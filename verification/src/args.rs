//! Argument values: decimal parsing of the column limit, the output-path
//! default, and the overwrite decision.

use vstd::prelude::*;
use vstd::arithmetic::div_mod::lemma_fundamental_div_mod;
use vstd::arithmetic::div_mod::lemma_mod_division_less_than_divisor;
use vstd::slice::slice_to_vec;
use vstd::string::StringSliceAdditionalSpecFns;
use crate::layout::spec_normalize_cols;
use crate::layout::normalize_max_cols;

verus! {

pub open spec fn is_ascii_digit(b: u8) -> bool {
    48 <= b <= 57
}

pub open spec fn digit_value(b: u8) -> nat
    recommends
        is_ascii_digit(b),
{
    (b - 48) as nat
}

/// The number denoted by a run of decimal digits, most significant first.
pub open spec fn digits_value(s: Seq<u8>) -> nat
    decreases s.len(),
{
    if s.len() == 0 {
        0
    } else {
        digits_value(s.drop_last()) * 10 + digit_value(s.last())
    }
}

pub open spec fn all_digits(s: Seq<u8>) -> bool {
    forall|i: int| 0 <= i < s.len() ==> is_ascii_digit(#[trigger] s[i])
}

/// The digit run of a decimal literal: everything after one optional
/// leading plus sign.
pub open spec fn spec_digit_run(s: Seq<u8>) -> Seq<u8> {
    if s.len() > 0 && s[0] == 43 {
        s.drop_first()
    } else {
        s
    }
}

/// How `u32` reads a decimal string: one optional leading plus sign, then
/// one or more ASCII digits, and a value that fits.
pub open spec fn spec_parse_u32(s: Seq<u8>) -> Option<u32> {
    let d = spec_digit_run(s);
    if d.len() == 0 || !all_digits(d) || digits_value(d) > u32::MAX {
        None
    } else {
        Some(digits_value(d) as u32)
    }
}

/// A digit run is worth at least any of its prefixes.
proof fn lemma_digits_value_prefix(s: Seq<u8>, m: int)
    requires
        0 <= m <= s.len(),
    ensures
        digits_value(s.take(m)) <= digits_value(s),
    decreases s.len() - m,
{
    if m == s.len() {
        assert(s.take(m) =~= s);
    } else {
        assert(s.take(m + 1).drop_last() =~= s.take(m));
        assert(s.take(m + 1).last() == s[m]);
        assert(digits_value(s.take(m)) * 10 >= digits_value(s.take(m)) * 1) by (nonlinear_arith);
        lemma_digits_value_prefix(s, m + 1);
    }
}

fn parse_u32_bytes(s: &Vec<u8>) -> (r: Option<u32>)
    ensures
        r == spec_parse_u32(s@),
{
    let ghost d = spec_digit_run(s@);
    let start: usize = if s.len() > 0 && s[0] == 43u8 {
        1
    } else {
        0
    };
    proof {
        assert(d =~= s@.subrange(start as int, s@.len() as int));
    }
    if start == s.len() {
        return None;
    }
    let mut acc: u32 = 0;
    let mut j: usize = start;
    while j < s.len()
        invariant
            start <= j <= s@.len(),
            d == spec_digit_run(s@),
            d == s@.subrange(start as int, s@.len() as int),
            all_digits(d.take(j - start)),
            acc == digits_value(d.take(j - start)),
        decreases s@.len() - j,
    {
        let b = s[j];
        let ghost m = j - start;
        proof {
            assert(d[m] == s@[j as int]);
            assert(d.take(m + 1).drop_last() =~= d.take(m));
            assert(d.take(m + 1).last() == d[m]);
        }
        if b < 48 || b > 57 {
            proof {
                assert(!is_ascii_digit(d[m]));
                assert(!all_digits(d));
            }
            return None;
        }
        let dv: u32 = (b - 48) as u32;
        proof {
            let mx = u32::MAX as int;
            lemma_fundamental_div_mod(mx - dv, 10);
            lemma_mod_division_less_than_divisor(mx - dv, 10);
        }
        if acc > (u32::MAX - dv) / 10 {
            proof {
                assert(digits_value(d.take(m + 1)) > u32::MAX);
                lemma_digits_value_prefix(d, m + 1);
            }
            return None;
        }
        acc = acc * 10 + dv;
        j = j + 1;
    }
    proof {
        assert(d.take(d.len() as int) =~= d);
    }
    Some(acc)
}

/// Parses a decimal `u32` from a string, accepting exactly what
/// `str::parse::<u32>` accepts.
pub fn parse_u32_str(s: &str) -> (r: Option<u32>)
    ensures
        r == spec_parse_u32(s.spec_bytes()),
{
    let bytes: Vec<u8> = slice_to_vec(s.as_bytes());
    parse_u32_bytes(&bytes)
}

/// The column-limit argument: absent means the documented default of 10;
/// present, it must read as a decimal number, and zero is coerced to one.
/// `None` is the fatal usage error.
pub fn max_cols_value(arg: Option<&str>) -> (r: Option<u32>)
    ensures
        arg matches Some(s) ==> r == match spec_parse_u32(s.spec_bytes()) {
            Some(v) => Some(spec_normalize_cols(v)),
            None => None::<u32>,
        },
        arg is None ==> r == Some(10u32),
{
    match arg {
        Some(s) => match parse_u32_str(s) {
            Some(v) => Some(normalize_max_cols(v)),
            None => None,
        },
        None => Some(10),
    }
}

/// The output-path argument: absent means the documented default name.
pub fn output_value(arg: Option<&str>) -> (r: String)
    ensures
        arg matches Some(s) ==> r@ == s@,
        arg is None ==> r@ == "spritesheet_out.png"@,
{
    match arg {
        Some(s) => s.to_owned(),
        None => "spritesheet_out.png".to_owned(),
    }
}

/// Whether writing the output is allowed: an existing output path is only
/// overwritten under force.
pub fn output_allowed(already_present: bool, force: bool) -> (r: bool)
    ensures
        r == (!already_present || force),
{
    !already_present || force
}

} // verus!
