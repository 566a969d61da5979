//! Dynamic numbers of the language: IEEE-754 binary64 values, carried as
//! their 64-bit patterns. Arithmetic, decimal parsing and decimal formatting
//! go through `rustc_apfloat`; sign tests, equality and ordering are done
//! directly on the bits.
use rustc_apfloat::Float;
use vstd::string::StrSliceExecFns;
use vstd::string::StringExecFns;
use vstd::prelude::*;

verus! {

/// Bit of the sign in a binary64 pattern.
pub const SIGN_MASK: u64 = 0x8000_0000_0000_0000;

/// All bits but the sign.
pub const ABS_MASK: u64 = 0x7fff_ffff_ffff_ffff;

/// Bits of the exponent field.
pub const EXP_MASK: u64 = 0x7ff0_0000_0000_0000;

/// Bits of the significand field.
pub const FRAC_MASK: u64 = 0x000f_ffff_ffff_ffff;

/// The pattern is a NaN: exponent all ones, significand non-zero.
pub open spec fn is_nan_bits(b: u64) -> bool {
    b & EXP_MASK == EXP_MASK && b & FRAC_MASK != 0u64
}

/// The pattern is one of the two infinities.
pub open spec fn is_inf_bits(b: u64) -> bool {
    b & ABS_MASK == EXP_MASK
}

/// The pattern is finite: zero, subnormal or normal.
pub open spec fn is_finite_bits(b: u64) -> bool {
    b & EXP_MASK != EXP_MASK
}

/// The pattern is a zero (of either sign).
pub open spec fn is_zero_bits(b: u64) -> bool {
    b & ABS_MASK == 0u64
}

/// The sign bit is set.
pub open spec fn is_neg_bits(b: u64) -> bool {
    b & SIGN_MASK != 0u64
}

/// IEEE-754 negation: the sign bit flipped.
pub open spec fn neg_bits(b: u64) -> u64 {
    b ^ SIGN_MASK
}

/// IEEE-754 equality on bit patterns: NaN equals nothing, the two zeros are
/// equal, and every other value equals exactly its own pattern.
pub open spec fn ieee_eq_bits(a: u64, b: u64) -> bool {
    &&& !is_nan_bits(a)
    &&& !is_nan_bits(b)
    &&& (a == b || (is_zero_bits(a) && is_zero_bits(b)))
}

/// A finite or infinite pattern mapped to an integer that orders as IEEE-754
/// orders the values: magnitude bits, negated when the sign is set.
pub open spec fn order_key(b: u64) -> int {
    if is_neg_bits(b) {
        -((b & ABS_MASK) as int)
    } else {
        (b & ABS_MASK) as int
    }
}

/// IEEE-754 `<` on bit patterns: false whenever a NaN is involved.
pub open spec fn ieee_lt_bits(a: u64, b: u64) -> bool {
    &&& !is_nan_bits(a)
    &&& !is_nan_bits(b)
    &&& order_key(a) < order_key(b)
}

/// IEEE-754 `<=` on bit patterns.
pub open spec fn ieee_le_bits(a: u64, b: u64) -> bool {
    ieee_lt_bits(a, b) || ieee_eq_bits(a, b)
}

/// The binary64 value that IEEE-754 addition (round to nearest, ties to
/// even) gives for the two operand patterns.
pub uninterp spec fn add_bits(a: u64, b: u64) -> u64;

/// The binary64 value of IEEE-754 subtraction of the two patterns.
pub uninterp spec fn sub_bits(a: u64, b: u64) -> u64;

/// The binary64 value of IEEE-754 multiplication of the two patterns.
pub uninterp spec fn mul_bits(a: u64, b: u64) -> u64;

/// The binary64 value of IEEE-754 division of the two patterns (a zero
/// divisor gives an infinity or a NaN, not an error).
pub uninterp spec fn div_bits(a: u64, b: u64) -> u64;

/// The binary64 value closest to the decimal numeral written in `s`.
pub uninterp spec fn double_of_decimal(s: Seq<char>) -> u64;

/// The decimal rendering of the finite binary64 value `b` at `p`
/// significant digits: the value rounded to `p` digits (round half up),
/// trailing zeros trimmed and no decimal point for integral renderings;
/// positional notation unless the digit positions before the point exceed
/// `p` or the padding exceeds the wrapper's fixed width, scientific
/// notation then.
pub uninterp spec fn decimal_of_double_at(b: u64, p: u64) -> Seq<char>;

/// A numeral as the scanner produces it: one or more digits, then at most
/// one point that is both preceded and followed by a digit.
pub open spec fn is_number_lexeme(s: Seq<char>) -> bool {
    &&& s.len() >= 1
    &&& forall|i: int| 0 <= i < s.len() ==> ('0' <= #[trigger] s[i] <= '9' || s[i] == '.')
    &&& s[0] != '.'
    &&& s[s.len() - 1] != '.'
    &&& forall|i: int, j: int| 0 <= i < j < s.len() && #[trigger] s[i] == '.' && #[trigger] s[j] == '.' ==> false
}

/// Relies on `rustc_apfloat::ieee::Double`'s `Add` (round to nearest, ties
/// to even): IEEE-754 binary64 addition on bit patterns.
#[verifier::external_body]
pub(crate) fn num_add(a: u64, b: u64) -> (r: u64)
    ensures
        r == add_bits(a, b),
{
    let x = rustc_apfloat::ieee::Double::from_bits(a as u128);
    let y = rustc_apfloat::ieee::Double::from_bits(b as u128);
    (x + y).value.to_bits() as u64
}

/// Relies on `rustc_apfloat::ieee::Double`'s `Sub`: IEEE-754 binary64
/// subtraction on bit patterns.
#[verifier::external_body]
pub(crate) fn num_sub(a: u64, b: u64) -> (r: u64)
    ensures
        r == sub_bits(a, b),
{
    let x = rustc_apfloat::ieee::Double::from_bits(a as u128);
    let y = rustc_apfloat::ieee::Double::from_bits(b as u128);
    (x - y).value.to_bits() as u64
}

/// Relies on `rustc_apfloat::ieee::Double`'s `Mul`: IEEE-754 binary64
/// multiplication on bit patterns.
#[verifier::external_body]
pub(crate) fn num_mul(a: u64, b: u64) -> (r: u64)
    ensures
        r == mul_bits(a, b),
{
    let x = rustc_apfloat::ieee::Double::from_bits(a as u128);
    let y = rustc_apfloat::ieee::Double::from_bits(b as u128);
    (x * y).value.to_bits() as u64
}

/// Relies on `rustc_apfloat::ieee::Double`'s `Div`: IEEE-754 binary64
/// division on bit patterns; division by zero returns an infinity or NaN.
#[verifier::external_body]
pub(crate) fn num_div(a: u64, b: u64) -> (r: u64)
    ensures
        r == div_bits(a, b),
{
    let x = rustc_apfloat::ieee::Double::from_bits(a as u128);
    let y = rustc_apfloat::ieee::Double::from_bits(b as u128);
    (x / y).value.to_bits() as u64
}

/// Relies on `rustc_apfloat::ieee::Double`'s `FromStr`: a correctly rounded
/// decimal-to-binary64 conversion, which accepts every numeral the scanner
/// admits.
#[verifier::external_body]
pub(crate) fn num_parse(s: &str) -> (r: u64)
    requires
        is_number_lexeme(s@),
    ensures
        r == double_of_decimal(s@),
{
    match s.parse::<rustc_apfloat::ieee::Double>() {
        Ok(d) => d.to_bits() as u64,
        Err(_) => 0,
    }
}

/// Relies on `rustc_apfloat::ieee::Double`'s `Display` with an explicit
/// precision: the value rounded to `p` significant decimal digits (round
/// half up), trailing zeros trimmed, no decimal point for integral
/// renderings, positional notation up to 400 padding zeros and `p` integer
/// digit positions, scientific notation beyond; deterministic in `b` and
/// `p`, and no panic for finite inputs.
#[verifier::external_body]
pub(crate) fn num_to_decimal_precision(b: u64, p: u64) -> (r: String)
    requires
        is_finite_bits(b),
        1 <= p <= 17,
    ensures
        r@ == decimal_of_double_at(b, p),
{
    let d = rustc_apfloat::ieee::Double::from_bits(b as u128);
    format!("{:400.1$}", d, p as usize)
}

/// Whether `s` has the shape of a numeral the scanner could produce (and
/// so a shape `double_of_decimal` speaks of).
pub fn is_numeral(s: &str) -> (r: bool)
    ensures
        r == is_number_lexeme(s@),
{
    let n = s.unicode_len();
    if n == 0 {
        return false;
    }
    if s.get_char(0) == '.' {
        return false;
    }
    if s.get_char(n - 1) == '.' {
        return false;
    }
    let mut i: usize = 0;
    let mut seen_dot = false;
    let ghost mut dot_at: int = 0;
    while i < n
        invariant
            n == s@.len(),
            0 <= i <= n,
            forall|j: int| 0 <= j < i ==> ('0' <= #[trigger] s@[j] <= '9' || s@[j] == '.'),
            !seen_dot ==> (forall|j: int| 0 <= j < i ==> (#[trigger] s@[j]) != '.'),
            seen_dot ==> 0 <= dot_at < i && s@[dot_at] == '.' && (forall|j: int|
                0 <= j < i && j != dot_at ==> (#[trigger] s@[j]) != '.'),
        decreases n - i,
    {
        let c = s.get_char(i);
        if !((c >= '0' && c <= '9') || c == '.') {
            return false;
        }
        if c == '.' {
            if seen_dot {
                return false;
            }
            seen_dot = true;
            proof {
                dot_at = i as int;
            }
        }
        i += 1;
    }
    proof {
        assert forall|a: int, b: int|
            0 <= a < b < s@.len() && #[trigger] s@[a] == '.' && #[trigger] s@[b]
                == '.' implies false by {
            if seen_dot {
                assert(a == dot_at);
                assert(b == dot_at);
            }
        }
    }
    true
}

/// The rendering at precision `p` scans as a numeral and reparses to
/// exactly the bits it renders.
pub open spec fn round_trips(b: u64, p: u64) -> bool {
    &&& is_number_lexeme(decimal_of_double_at(b, p))
    &&& double_of_decimal(decimal_of_double_at(b, p)) == b
}

/// The numeral the library prints for a non-negative finite value: the
/// rendering at the smallest precision from `p` on that reparses to the
/// same bits, or the seventeen-digit rendering when none shorter does.
pub open spec fn spec_shortest_decimal(b: u64, p: u64) -> Seq<char>
    decreases 17 - p,
        when 1 <= p <= 17
{
    if p == 17 {
        decimal_of_double_at(b, 17)
    } else if round_trips(b, p) {
        decimal_of_double_at(b, p)
    } else {
        spec_shortest_decimal(b, (p + 1) as u64)
    }
}

/// Whenever any precision from `p` up round-trips, the numeral chosen by
/// `spec_shortest_decimal` reparses to the very bits it prints.
pub proof fn lemma_shortest_decimal_reparses(b: u64, p: u64)
    requires
        1 <= p <= 17,
        exists|q: u64| p <= q <= 17 && #[trigger] round_trips(b, q),
    ensures
        double_of_decimal(spec_shortest_decimal(b, p)) == b,
    decreases 17 - p,
{
    if p == 17 {
        let q = choose|q: u64| p <= q <= 17 && round_trips(b, q);
        assert(q == 17);
    } else if round_trips(b, p) {
    } else {
        let q = choose|q: u64| p <= q <= 17 && round_trips(b, q);
        assert(q != p);
        assert((p + 1) as u64 <= q <= 17 && round_trips(b, q));
        lemma_shortest_decimal_reparses(b, (p + 1) as u64);
    }
}

/// The shortest round-tripping decimal for a non-negative finite value.
pub fn shortest_decimal(b: u64) -> (r: String)
    requires
        is_finite_bits(b),
        !is_neg_bits(b),
    ensures
        r@ == spec_shortest_decimal(b, 1),
{
    let mut p: u64 = 1;
    while p < 17
        invariant
            1 <= p <= 17,
            is_finite_bits(b),
            spec_shortest_decimal(b, 1) == spec_shortest_decimal(b, p),
        decreases 17 - p,
    {
        let st = num_to_decimal_precision(b, p);
        if is_numeral(st.as_str()) {
            let bits = num_parse(st.as_str());
            if bits == b {
                proof {
                    assert(round_trips(b, p));
                }
                return st;
            }
        }
        proof {
            assert(!round_trips(b, p));
        }
        p = p + 1;
    }
    num_to_decimal_precision(b, 17)
}

/// How a number value prints: `nan` and the infinities by name, a negative
/// value as `-` before its magnitude, and a finite magnitude as the
/// shortest decimal that reparses to the same bits.
pub open spec fn spec_number_string(b: u64) -> Seq<char> {
    if is_nan_bits(b) {
        "nan"@
    } else if is_inf_bits(b) {
        if is_neg_bits(b) {
            "-inf"@
        } else {
            "inf"@
        }
    } else if is_neg_bits(b) {
        seq!['-'] + spec_shortest_decimal(b & ABS_MASK, 1)
    } else {
        spec_shortest_decimal(b, 1)
    }
}

/// The printed form of a number value.
pub fn number_to_string(b: u64) -> (r: String)
    ensures
        r@ == spec_number_string(b),
{
    if num_is_nan(b) {
        String::from_str("nan")
    } else if num_is_inf(b) {
        if num_is_neg(b) {
            String::from_str("-inf")
        } else {
            String::from_str("inf")
        }
    } else if num_is_neg(b) {
        let m = b & ABS_MASK;
        proof {
            assert(m & 0x7ff0_0000_0000_0000u64 != 0x7ff0_0000_0000_0000u64 && m
                & 0x8000_0000_0000_0000u64 == 0u64) by (bit_vector)
                requires
                    m == b & 0x7fff_ffff_ffff_ffffu64,
                    !(b & 0x7ff0_0000_0000_0000u64 == 0x7ff0_0000_0000_0000u64 && b
                        & 0x000f_ffff_ffff_ffffu64 != 0u64),
                    b & 0x7fff_ffff_ffff_ffffu64 != 0x7ff0_0000_0000_0000u64,
            ;
        }
        let mut r = String::from_str("-");
        r.append(shortest_decimal(m).as_str());
        proof {
            reveal_strlit("-");
            assert("-"@ =~= seq!['-']);
            assert(r@ =~= seq!['-'] + spec_shortest_decimal(m, 1));
        }
        r
    } else {
        proof {
            assert(b & 0x7ff0_0000_0000_0000u64 != 0x7ff0_0000_0000_0000u64) by (bit_vector)
                requires
                    !(b & 0x7ff0_0000_0000_0000u64 == 0x7ff0_0000_0000_0000u64 && b
                        & 0x000f_ffff_ffff_ffffu64 != 0u64),
                    b & 0x7fff_ffff_ffff_ffffu64 != 0x7ff0_0000_0000_0000u64,
            ;
        }
        shortest_decimal(b)
    }
}

/// IEEE-754 negation of a bit pattern: the sign bit flipped.
pub fn num_neg(b: u64) -> (r: u64)
    ensures
        r == neg_bits(b),
{
    b ^ SIGN_MASK
}

/// Whether the pattern is a NaN.
pub fn num_is_nan(b: u64) -> (r: bool)
    ensures
        r == is_nan_bits(b),
{
    b & EXP_MASK == EXP_MASK && b & FRAC_MASK != 0
}

/// Whether the pattern is one of the two infinities.
pub fn num_is_inf(b: u64) -> (r: bool)
    ensures
        r == is_inf_bits(b),
{
    b & ABS_MASK == EXP_MASK
}

/// Whether the sign bit is set.
pub fn num_is_neg(b: u64) -> (r: bool)
    ensures
        r == is_neg_bits(b),
{
    b & SIGN_MASK != 0
}

/// IEEE-754 equality of two patterns.
pub fn num_eq(a: u64, b: u64) -> (r: bool)
    ensures
        r == ieee_eq_bits(a, b),
{
    if num_is_nan(a) || num_is_nan(b) {
        false
    } else {
        a == b || (a & ABS_MASK == 0 && b & ABS_MASK == 0)
    }
}

/// IEEE-754 `<` of two patterns.
pub fn num_lt(a: u64, b: u64) -> (r: bool)
    ensures
        r == ieee_lt_bits(a, b),
{
    if num_is_nan(a) || num_is_nan(b) {
        false
    } else {
        let na = num_is_neg(a);
        let nb = num_is_neg(b);
        let ma = a & ABS_MASK;
        let mb = b & ABS_MASK;
        if na && nb {
            mb < ma
        } else if na {
            !(ma == 0 && mb == 0)
        } else if nb {
            false
        } else {
            ma < mb
        }
    }
}

/// IEEE-754 `<=` of two patterns.
pub fn num_le(a: u64, b: u64) -> (r: bool)
    ensures
        r == ieee_le_bits(a, b),
{
    num_lt(a, b) || num_eq(a, b)
}

} // verus!
