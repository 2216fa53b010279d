//! Parsing and formatting of memory quantities.
//!
//! Cluster quantities come as a decimal number with a unit suffix: binary
//! suffixes (`Ki`, `Mi`, `Gi`, `Ti`) and decimal ones (`K`, `M`, `G`), a
//! bare number meaning bytes. A suffixed number may carry a fractional part
//! (`1.5Gi`); its value is the scaled number rounded down to whole bytes,
//! saturating at the largest representable count. A bare byte count must be
//! whole and representable. Formatting renders a byte count human-readable
//! with one decimal digit.
//!
//! All arithmetic here is exact: values are scaled as rationals and
//! truncated once, with no intermediate rounding.

use vstd::prelude::*;
use vstd::arithmetic::div_mod::lemma_div_denominator;
use vstd::arithmetic::div_mod::lemma_div_is_ordered;
use vstd::arithmetic::div_mod::lemma_hoist_over_denominator;
use vstd::arithmetic::mul::lemma_mul_inequality;
use vstd::arithmetic::mul::lemma_mul_nonnegative;

use crate::decimal::spec_decimal;
use crate::decimal::spec_digit_char;
use crate::decimal::u64_to_decimal;
use crate::text::str_to_chars;

verus! {

/// The whitespace that is trimmed off a quantity before parsing.
pub open spec fn spec_is_space(c: char) -> bool {
    c == ' ' || c == '\t' || c == '\n' || c == '\r'
}

/// A decimal digit.
pub open spec fn spec_is_digit(c: char) -> bool {
    '0' <= c && c <= '9'
}

/// The value of one decimal digit.
pub open spec fn spec_digit_val(c: char) -> int {
    c as int - '0' as int
}

/// Whether every character is a decimal digit.
pub open spec fn spec_all_digits(s: Seq<char>) -> bool {
    forall|i: int| 0 <= i < s.len() ==> spec_is_digit(#[trigger] s[i])
}

/// The value of a digit string, read as a base-ten numeral.
pub open spec fn spec_digits_val(s: Seq<char>) -> int
    decreases s.len(),
{
    if s.len() == 0 {
        0
    } else {
        spec_digits_val(s.drop_last()) * 10 + spec_digit_val(s.last())
    }
}

/// Powers of ten.
pub open spec fn spec_pow10(k: nat) -> int
    decreases k,
{
    if k == 0 {
        1
    } else {
        10 * spec_pow10((k - 1) as nat)
    }
}

/// The input with leading whitespace removed.
pub open spec fn spec_trim_front(s: Seq<char>) -> Seq<char>
    decreases s.len(),
{
    if s.len() > 0 && spec_is_space(s[0]) {
        spec_trim_front(s.drop_first())
    } else {
        s
    }
}

/// The input with trailing whitespace removed.
pub open spec fn spec_trim_back(s: Seq<char>) -> Seq<char>
    decreases s.len(),
{
    if s.len() > 0 && spec_is_space(s.last()) {
        spec_trim_back(s.drop_last())
    } else {
        s
    }
}

/// The input with surrounding whitespace removed.
pub open spec fn spec_trim(s: Seq<char>) -> Seq<char> {
    spec_trim_back(spec_trim_front(s))
}

proof fn lemma_trim_front_is_skip(s: Seq<char>, lo: int)
    requires
        0 <= lo <= s.len(),
        forall|j: int| 0 <= j < lo ==> spec_is_space(#[trigger] s[j]),
        lo == s.len() || !spec_is_space(s[lo]),
    ensures
        spec_trim_front(s) == s.skip(lo),
    decreases lo,
{
    if lo == 0 {
        assert(s.skip(0) =~= s);
    } else {
        lemma_trim_front_is_skip(s.drop_first(), lo - 1);
        assert(s.drop_first().skip(lo - 1) =~= s.skip(lo));
    }
}

proof fn lemma_trim_back_is_take(s: Seq<char>, hi: int)
    requires
        0 <= hi <= s.len(),
        forall|j: int| hi <= j < s.len() ==> spec_is_space(#[trigger] s[j]),
        hi == 0 || !spec_is_space(s[hi - 1]),
    ensures
        spec_trim_back(s) == s.take(hi),
    decreases s.len() - hi,
{
    if hi == s.len() {
        assert(s.take(hi) =~= s);
    } else {
        lemma_trim_back_is_take(s.drop_last(), hi);
        assert(s.drop_last().take(hi) =~= s.take(hi));
    }
}

fn is_space_char(c: char) -> (r: bool)
    ensures
        r == spec_is_space(c),
{
    c == ' ' || c == '\t' || c == '\n' || c == '\r'
}

/// Copies the surrounding-whitespace-free middle of the input.
fn trim_chars(v: &Vec<char>) -> (r: Vec<char>)
    ensures
        r@ == spec_trim(v@),
{
    let n = v.len();
    let mut lo: usize = 0;
    while lo < n && is_space_char(v[lo])
        invariant
            0 <= lo <= n,
            n == v@.len(),
            forall|j: int| 0 <= j < lo ==> spec_is_space(#[trigger] v@[j]),
        decreases n - lo,
    {
        lo += 1;
    }
    let mut hi: usize = n;
    while hi > lo && is_space_char(v[hi - 1])
        invariant
            lo <= hi <= n,
            n == v@.len(),
            forall|j: int| 0 <= j < lo ==> spec_is_space(#[trigger] v@[j]),
            forall|j: int| hi <= j < n ==> spec_is_space(#[trigger] v@[j]),
        decreases hi,
    {
        hi -= 1;
    }
    let mut r: Vec<char> = Vec::new();
    let mut i: usize = lo;
    while i < hi
        invariant
            lo <= i <= hi <= n,
            n == v@.len(),
            r@ == v@.subrange(lo as int, i as int),
        decreases hi - i,
    {
        r.push(v[i]);
        proof {
            assert(r@ =~= v@.subrange(lo as int, i as int + 1));
        }
        i += 1;
    }
    proof {
        lemma_trim_front_is_skip(v@, lo as int);
        let w = v@.skip(lo as int);
        assert forall|j: int| hi - lo <= j < w.len() implies spec_is_space(#[trigger] w[j]) by {
            assert(w[j] == v@[j + lo]);
        }
        if hi > lo {
            assert(!spec_is_space(w[hi - lo - 1]));
        }
        lemma_trim_back_is_take(w, hi - lo);
        assert(w.take(hi - lo) =~= v@.subrange(lo as int, hi as int));
    }
    r
}

fn digit_value(c: char) -> (r: Option<u64>)
    ensures
        r is Some <==> spec_is_digit(c),
        r is Some ==> r->0 == spec_digit_val(c) && r->0 < 10,
    {
    if '0' <= c && c <= '9' {
        Some((c as u32 - '0' as u32) as u64)
    } else {
        None
    }
}

/// Digit-string values never shrink as the string grows to the right.
proof fn lemma_digits_val_nonneg(s: Seq<char>)
    requires
        spec_all_digits(s),
    ensures
        spec_digits_val(s) >= 0,
    decreases s.len(),
{
    if s.len() > 0 {
        assert(spec_is_digit(s.last()));
        assert(spec_all_digits(s.drop_last())) by {
            assert(forall|i: int| 0 <= i < s.len() - 1 ==> s.drop_last()[i] == #[trigger] s[i]);
        }
        lemma_digits_val_nonneg(s.drop_last());
        assert(spec_digits_val(s.drop_last()) * 10 >= 0);
    }
}

/// Reading more digits never lowers the value.
proof fn lemma_digits_val_prefix_le(s: Seq<char>, i: int)
    requires
        spec_all_digits(s),
        0 <= i <= s.len(),
    ensures
        spec_digits_val(s.take(i)) <= spec_digits_val(s),
    decreases s.len() - i,
{
    if i == s.len() {
        assert(s.take(i) =~= s);
    } else {
        lemma_digits_val_prefix_le(s, i + 1);
        let t = s.take(i + 1);
        assert(spec_all_digits(t)) by {
            assert(forall|j: int| 0 <= j < t.len() ==> t[j] == #[trigger] s[j]);
        }
        assert(t.drop_last() =~= s.take(i));
        assert(spec_all_digits(s.take(i))) by {
            assert(forall|j: int| 0 <= j < i ==> s.take(i)[j] == #[trigger] s[j]);
        }
        lemma_digits_val_nonneg(s.take(i));
        assert(spec_digits_val(t) == spec_digits_val(s.take(i)) * 10 + spec_digit_val(t.last()));
        assert(spec_digits_val(s.take(i)) * 10 >= spec_digits_val(s.take(i)));
        assert(spec_digit_val(t.last()) >= 0);
    }
}

/// Parses a bare digit string into a byte count: defined exactly when the
/// string is non-empty, all digits, and its value representable.
fn parse_u64_digits(v: &Vec<char>) -> (r: Option<u64>)
    ensures
        r is Some <==> (v@.len() > 0 && spec_all_digits(v@) && spec_digits_val(v@) <= u64::MAX),
        r is Some ==> r->0 == spec_digits_val(v@),
{
    let n = v.len();
    if n == 0 {
        return None;
    }
    let mut acc: u64 = 0;
    let mut i: usize = 0;
    while i < n
        invariant
            0 <= i <= n,
            n == v@.len(),
            spec_all_digits(v@.take(i as int)),
            acc == spec_digits_val(v@.take(i as int)),
        decreases n - i,
    {
        let ghost pre = v@.take(i as int);
        match digit_value(v[i]) {
            Some(d) => {
                proof {
                    assert(v@.take(i as int + 1).drop_last() =~= pre);
                    assert(spec_all_digits(v@.take(i as int + 1))) by {
                        assert(forall|j: int|
                            0 <= j < i + 1 ==> v@.take(i as int + 1)[j] == #[trigger] v@[j]);
                    }
                }
                let wide: u128 = acc as u128 * 10 + d as u128;
                if wide > u64::MAX as u128 {
                    proof {
                        assert(spec_digits_val(v@.take(i as int + 1)) == acc * 10 + d);
                        if spec_all_digits(v@) {
                            lemma_digits_val_prefix_le(v@, i as int + 1);
                        }
                    }
                    return None;
                }
                acc = wide as u64;
            },
            None => {
                proof {
                    assert(!spec_is_digit(v@[i as int]));
                }
                return None;
            },
        }
        i += 1;
    }
    proof {
        assert(v@.take(n as int) =~= v@);
    }
    Some(acc)
}

/// The scaled fractional contribution `floor(0.F * mult)`, one digit at a
/// time: processing the digits right to left, each step folds one digit in
/// and divides by ten, rounding down — exactly long division.
pub open spec fn spec_frac_scaled(s: Seq<char>, mult: int) -> int
    decreases s.len(),
{
    if s.len() == 0 {
        0
    } else {
        (spec_digit_val(s[0]) * mult + spec_frac_scaled(s.drop_first(), mult)) / 10
    }
}

proof fn lemma_pow10_pos(k: nat)
    ensures
        spec_pow10(k) >= 1,
    decreases k,
{
    if k > 0 {
        lemma_pow10_pos((k - 1) as nat);
    }
}

proof fn lemma_frac_scaled_bound(s: Seq<char>, mult: int)
    requires
        spec_all_digits(s),
        mult >= 0,
    ensures
        0 <= spec_frac_scaled(s, mult) <= mult,
    decreases s.len(),
{
    if s.len() > 0 {
        assert(spec_all_digits(s.drop_first())) by {
            assert(forall|i: int|
                0 <= i < s.len() - 1 ==> s.drop_first()[i] == #[trigger] s[i + 1]);
        }
        lemma_frac_scaled_bound(s.drop_first(), mult);
        let d = spec_digit_val(s[0]);
        let b = spec_frac_scaled(s.drop_first(), mult);
        assert(spec_is_digit(s[0]));
        assert(0 <= d <= 9);
        lemma_mul_nonnegative(d, mult);
        vstd::arithmetic::div_mod::lemma_div_pos_is_pos(d * mult + b, 10);
        lemma_mul_inequality(d, 10, mult);
        assert(d * mult + b <= 10 * mult) by {
            assert(d * mult <= 10 * mult - mult) by {
                assert(d <= 9);
                lemma_mul_inequality(d, 9, mult);
                assert(9 * mult == 10 * mult - mult) by (nonlinear_arith);
            }
        }
        lemma_div_is_ordered(d * mult + b, 10 * mult, 10);
        vstd::arithmetic::div_mod::lemma_div_multiples_vanish(mult, 10);
    }
}

/// A digit string read from the front: the leading digit weighs a power of
/// ten, the rest follows.
proof fn lemma_digits_val_front(s: Seq<char>)
    requires
        s.len() > 0,
    ensures
        spec_digits_val(s) == spec_digit_val(s[0]) * spec_pow10((s.len() - 1) as nat)
            + spec_digits_val(s.drop_first()),
    decreases s.len(),
{
    if s.len() == 1 {
        assert(s.drop_last() =~= Seq::<char>::empty());
        assert(s.drop_first() =~= Seq::<char>::empty());
    } else {
        let h = s.drop_last();
        lemma_digits_val_front(h);
        assert(h.drop_first() =~= s.drop_first().drop_last());
        assert(h[0] == s[0]);
        let d0 = spec_digit_val(s[0]);
        let p = spec_pow10((s.len() - 2) as nat);
        assert(spec_digits_val(s) == spec_digits_val(h) * 10 + spec_digit_val(s.last()));
        assert(spec_digits_val(h) == d0 * p + spec_digits_val(s.drop_first().drop_last()));
        assert(s.drop_first().last() == s.last());
        assert(spec_digits_val(s.drop_first()) == spec_digits_val(s.drop_first().drop_last()) * 10
            + spec_digit_val(s.last()));
        assert((d0 * p + spec_digits_val(s.drop_first().drop_last())) * 10 == d0 * (10 * p)
            + spec_digits_val(s.drop_first().drop_last()) * 10) by (nonlinear_arith);
        assert(spec_pow10((s.len() - 1) as nat) == 10 * p);
    }
}

/// The digit-wise long division computes exactly the scaled fraction,
/// rounded down: `floor(F * mult / 10^k)` for `k` fraction digits.
proof fn lemma_frac_scaled_is_floor(s: Seq<char>, mult: int)
    requires
        spec_all_digits(s),
        mult >= 0,
    ensures
        spec_frac_scaled(s, mult) == (spec_digits_val(s) * mult) / spec_pow10(s.len()),
    decreases s.len(),
{
    if s.len() == 0 {
        assert((0 * mult) / 1 == 0);
    } else {
        let rest = s.drop_first();
        assert(spec_all_digits(rest)) by {
            assert(forall|i: int| 0 <= i < rest.len() ==> rest[i] == #[trigger] s[i + 1]);
        }
        lemma_frac_scaled_is_floor(rest, mult);
        let d0 = spec_digit_val(s[0]);
        let f1 = spec_digits_val(rest);
        let p = spec_pow10((s.len() - 1) as nat);
        lemma_pow10_pos((s.len() - 1) as nat);
        lemma_digits_val_front(s);
        assert(spec_all_digits(rest));
        lemma_digits_val_nonneg(rest);
        assert(spec_is_digit(s[0]));
        let x = spec_digits_val(s) * mult;
        assert(x == d0 * mult * p + f1 * mult) by {
            assert((d0 * p + f1) * mult == d0 * p * mult + f1 * mult) by (nonlinear_arith);
            assert(d0 * p * mult == d0 * mult * p) by (nonlinear_arith);
        }
        lemma_mul_nonnegative(d0, mult);
        lemma_mul_nonnegative(f1, mult);
        assert(x >= 0);
        // Hoist the integral part over the inner denominator.
        lemma_hoist_over_denominator(f1 * mult, d0 * mult, p as nat);
        assert(x / p == d0 * mult + (f1 * mult) / p) by {
            assert((f1 * mult) / p + d0 * mult == (f1 * mult + (d0 * mult) * p) / p);
            assert((d0 * mult) * p == d0 * mult * p) by (nonlinear_arith);
        }
        // Divide by the two factors of the denominator one after the other.
        lemma_div_denominator(x, p, 10);
        assert(spec_pow10(s.len()) == 10 * p);
        assert(p * 10 == 10 * p) by (nonlinear_arith);
        assert(x / spec_pow10(s.len()) == (x / p) / 10);
        assert(spec_frac_scaled(s, mult) == (d0 * mult + spec_frac_scaled(rest, mult)) / 10);
        assert(spec_frac_scaled(rest, mult) == (f1 * mult) / p);
    }
}

/// The value of a decimal numeral `I.F`, scaled by `mult` and rounded down
/// to a whole count: `floor((I + 0.F) * mult)`, written over integers.
pub open spec fn spec_scaled_value(ip: Seq<char>, fp: Seq<char>, mult: int) -> int {
    ((spec_digits_val(ip) * spec_pow10(fp.len()) + spec_digits_val(fp)) * mult) / spec_pow10(
        fp.len(),
    )
}

/// The scaled value splits into the whole part times the multiplier plus
/// the scaled fraction.
proof fn lemma_scaled_value_decompose(ip: Seq<char>, fp: Seq<char>, mult: int)
    requires
        spec_all_digits(ip),
        spec_all_digits(fp),
        mult >= 0,
    ensures
        spec_scaled_value(ip, fp, mult) == spec_digits_val(ip) * mult + spec_frac_scaled(
            fp,
            mult,
        ),
{
    let iv = spec_digits_val(ip);
    let fv = spec_digits_val(fp);
    let p = spec_pow10(fp.len());
    lemma_pow10_pos(fp.len());
    lemma_digits_val_nonneg(ip);
    lemma_digits_val_nonneg(fp);
    lemma_mul_nonnegative(fv, mult);
    let x = (iv * p + fv) * mult;
    assert((iv * p + fv) * mult == fv * mult + (iv * mult) * p) by (nonlinear_arith);
    assert(x == fv * mult + (iv * mult) * p);
    lemma_hoist_over_denominator(fv * mult, iv * mult, p as nat);
    assert(x / p == (fv * mult) / p + iv * mult);
    lemma_frac_scaled_is_floor(fp, mult);
}

/// Saturation at the largest representable byte count.
pub open spec fn spec_sat_u64(v: int) -> u64 {
    if v > u64::MAX {
        u64::MAX
    } else if v < 0 {
        0
    } else {
        v as u64
    }
}

/// Index of the first decimal point, or the length where there is none.
pub open spec fn spec_dot_index(s: Seq<char>) -> int
    decreases s.len(),
{
    if s.len() == 0 {
        0
    } else if s[0] == '.' {
        0
    } else {
        1 + spec_dot_index(s.drop_first())
    }
}

/// The whole part of a numeral: what stands before the first decimal point.
pub open spec fn spec_int_part(s: Seq<char>) -> Seq<char> {
    s.take(spec_dot_index(s))
}

/// The fractional part of a numeral: what stands after the first decimal
/// point; empty where there is none.
pub open spec fn spec_frac_part(s: Seq<char>) -> Seq<char> {
    if spec_dot_index(s) < s.len() {
        s.skip(spec_dot_index(s) + 1)
    } else {
        Seq::empty()
    }
}

/// A well-formed decimal numeral: digits around at most one decimal point,
/// and at least one digit in all. Covers `8`, `1.5`, `2.` and `.5`.
pub open spec fn spec_valid_number(s: Seq<char>) -> bool {
    &&& spec_all_digits(spec_int_part(s))
    &&& spec_all_digits(spec_frac_part(s))
    &&& spec_int_part(s).len() + spec_frac_part(s).len() >= 1
}

/// What a numeral with a unit multiplier parses to: the scaled value
/// rounded down to whole bytes and saturated, or nothing where the numeral
/// is malformed.
pub open spec fn spec_parse_scaled(s: Seq<char>, mult: int) -> Option<u64> {
    if spec_valid_number(s) {
        Some(spec_sat_u64(spec_scaled_value(spec_int_part(s), spec_frac_part(s), mult)))
    } else {
        None
    }
}

proof fn lemma_dot_index_at(s: Seq<char>, i: int)
    requires
        0 <= i <= s.len(),
        forall|j: int| 0 <= j < i ==> s[j] != '.',
        i == s.len() || s[i] == '.',
    ensures
        spec_dot_index(s) == i,
    decreases i,
{
    if i > 0 {
        lemma_dot_index_at(s.drop_first(), i - 1);
    }
}

fn subrange_vec(v: &Vec<char>, lo: usize, hi: usize) -> (r: Vec<char>)
    requires
        lo <= hi <= v@.len(),
    ensures
        r@ == v@.subrange(lo as int, hi as int),
{
    let mut r: Vec<char> = Vec::new();
    let mut i: usize = lo;
    while i < hi
        invariant
            lo <= i <= hi <= v@.len(),
            r@ == v@.subrange(lo as int, i as int),
        decreases hi - i,
    {
        r.push(v[i]);
        proof {
            assert(r@ =~= v@.subrange(lo as int, i as int + 1));
        }
        i += 1;
    }
    r
}

/// One digit's value, for a character known to be a digit.
fn digit_val_unchecked(c: char) -> (r: u64)
    requires
        spec_is_digit(c),
    ensures
        r == spec_digit_val(c),
        r <= 9,
{
    (c as u32 - '0' as u32) as u64
}

fn all_digits(v: &Vec<char>) -> (r: bool)
    ensures
        r == spec_all_digits(v@),
{
    let n = v.len();
    let mut i: usize = 0;
    while i < n
        invariant
            0 <= i <= n,
            n == v@.len(),
            forall|j: int| 0 <= j < i ==> spec_is_digit(#[trigger] v@[j]),
        decreases n - i,
    {
        let c = v[i];
        if !('0' <= c && c <= '9') {
            return false;
        }
        i += 1;
    }
    true
}

/// Scales a well-formed split numeral, rounding down, saturating. The
/// multiplier is at most a binary terabyte, which keeps every intermediate
/// step exactly representable.
fn scale_decimal(ip: &Vec<char>, fp: &Vec<char>, mult: u64) -> (r: u64)
    requires
        1 <= mult <= 0x10000000000,
        spec_all_digits(ip@),
        spec_all_digits(fp@),
    ensures
        r == spec_sat_u64(spec_scaled_value(ip@, fp@, mult as int)),
{
    proof {
        lemma_scaled_value_decompose(ip@, fp@, mult as int);
        lemma_frac_scaled_bound(fp@, mult as int);
        lemma_digits_val_nonneg(ip@);
    }
    // Whole part; an unrepresentable whole part saturates the result.
    let n = ip.len();
    let mut whole: u64 = 0;
    let mut i: usize = 0;
    while i < n
        invariant
            0 <= i <= n,
            n == ip@.len(),
            spec_all_digits(ip@),
            spec_all_digits(fp@),
            1 <= mult <= 0x10000000000,
            whole == spec_digits_val(ip@.take(i as int)),
        decreases n - i,
    {
        proof {
            assert(ip@.take(i as int + 1).drop_last() =~= ip@.take(i as int));
            assert(ip@.take(i as int + 1).last() == ip@[i as int]);
        }
        let d = digit_val_unchecked(ip[i]);
        let wide: u128 = whole as u128 * 10 + d as u128;
        if wide > u64::MAX as u128 {
            proof {
                lemma_digits_val_prefix_le(ip@, i as int + 1);
                let iv = spec_digits_val(ip@);
                let m = mult as int;
                lemma_digits_val_nonneg(ip@);
                lemma_scaled_value_decompose(ip@, fp@, m);
                lemma_frac_scaled_bound(fp@, m);
                assert(iv * m >= iv) by (nonlinear_arith)
                    requires
                        iv >= 0,
                        m >= 1,
                ;
                assert(spec_scaled_value(ip@, fp@, m) > u64::MAX);
            }
            return u64::MAX;
        }
        whole = wide as u64;
        i += 1;
    }
    proof {
        assert(ip@.take(n as int) =~= ip@);
    }
    // Fractional part, by long division from the rightmost digit.
    let k = fp.len();
    let mut frac: u64 = 0;
    let mut j: usize = k;
    while j > 0
        invariant
            0 <= j <= k,
            k == fp@.len(),
            spec_all_digits(fp@),
            1 <= mult <= 0x10000000000,
            frac == spec_frac_scaled(fp@.skip(j as int), mult as int),
            0 <= frac <= mult,
        decreases j,
    {
        j -= 1;
        let ghost before = fp@.skip(j as int + 1);
        let d = digit_val_unchecked(fp[j]);
        proof {
            assert(fp@.skip(j as int)[0] == fp@[j as int]);
            assert(fp@.skip(j as int).drop_first() =~= before);
            assert(spec_all_digits(fp@.skip(j as int))) by {
                assert(forall|l: int|
                    0 <= l < fp@.len() - j ==> fp@.skip(j as int)[l] == #[trigger] fp@[l + j]);
            }
            lemma_frac_scaled_bound(fp@.skip(j as int), mult as int);
            assert(d * mult <= 9 * mult) by (nonlinear_arith)
                requires
                    d <= 9,
                    mult >= 0,
            ;
            assert(9 * (0x10000000000 as int) + 0x10000000000 < u64::MAX);
        }
        frac = (d * mult + frac) / 10;
    }
    proof {
        assert(fp@.skip(0) =~= fp@);
    }
    // Combine and saturate.
    proof {
        assert(whole as int * mult as int <= u64::MAX * 0x10000000000) by (nonlinear_arith)
            requires
                0 <= whole <= u64::MAX,
                0 <= mult <= 0x10000000000,
        ;
    }
    let total: u128 = whole as u128 * mult as u128 + frac as u128;
    proof {
        assert(whole as int * mult as int + frac as int == spec_scaled_value(
            ip@,
            fp@,
            mult as int,
        ));
    }
    if total > u64::MAX as u128 {
        u64::MAX
    } else {
        total as u64
    }
}

fn find_dot(v: &Vec<char>) -> (dot: usize)
    ensures
        0 <= dot <= v@.len(),
        dot as int == spec_dot_index(v@),
{
    let n = v.len();
    let mut i: usize = 0;
    while i < n
        invariant
            0 <= i <= n,
            n == v@.len(),
            forall|j: int| 0 <= j < i ==> v@[j] != '.',
        decreases n - i,
    {
        if v[i] == '.' {
            proof {
                lemma_dot_index_at(v@, i as int);
            }
            return i;
        }
        i += 1;
    }
    proof {
        lemma_dot_index_at(v@, n as int);
    }
    n
}

/// Parses a decimal numeral and scales it: the split at the first decimal
/// point, the digits checked, the value scaled and rounded down.
fn parse_scaled(v: &Vec<char>, mult: u64) -> (r: Option<u64>)
    requires
        1 <= mult <= 0x10000000000,
    ensures
        r == spec_parse_scaled(v@, mult as int),
{
    let n = v.len();
    let dot = find_dot(v);
    let ip = subrange_vec(v, 0, dot);
    let fp = if dot < n {
        subrange_vec(v, dot + 1, n)
    } else {
        Vec::new()
    };
    proof {
        assert(ip@ == spec_int_part(v@));
        if dot < n {
            assert(fp@ == v@.skip(dot as int + 1)) by {
                assert(v@.subrange(dot as int + 1, n as int) =~= v@.skip(dot as int + 1));
            }
        } else {
            assert(fp@ =~= Seq::<char>::empty());
        }
        assert(fp@ == spec_frac_part(v@));
    }
    if !all_digits(&ip) || !all_digits(&fp) {
        return None;
    }
    if ip.len() == 0 && fp.len() == 0 {
        return None;
    }
    Some(scale_decimal(&ip, &fp, mult))
}

/// Whether the quantity ends in the two-character suffix `a`, `b`.
pub open spec fn spec_ends2(t: Seq<char>, a: char, b: char) -> bool {
    t.len() >= 2 && t[t.len() - 2] == a && t[t.len() - 1] == b
}

/// Whether the quantity ends in the one-character suffix `a`.
pub open spec fn spec_ends1(t: Seq<char>, a: char) -> bool {
    t.len() >= 1 && t[t.len() - 1] == a
}

/// A bare byte count: all digits, representable; no rounding, no
/// saturation — an overlarge count is malformed.
pub open spec fn spec_parse_plain_u64(t: Seq<char>) -> Option<u64> {
    if t.len() > 0 && spec_all_digits(t) && spec_digits_val(t) <= u64::MAX {
        Some(spec_digits_val(t) as u64)
    } else {
        None
    }
}

/// A trimmed memory quantity under the binary suffixes `Gi`, `Mi`, `Ki`,
/// or a bare byte count.
pub open spec fn spec_parse_mem_binary(t: Seq<char>) -> Option<u64> {
    if spec_ends2(t, 'G', 'i') {
        spec_parse_scaled(t.take(t.len() - 2), 0x40000000)
    } else if spec_ends2(t, 'M', 'i') {
        spec_parse_scaled(t.take(t.len() - 2), 0x100000)
    } else if spec_ends2(t, 'K', 'i') {
        spec_parse_scaled(t.take(t.len() - 2), 0x400)
    } else {
        spec_parse_plain_u64(t)
    }
}

/// A trimmed memory quantity under the binary suffixes `Ki`, `Mi`, `Gi`,
/// `Ti` and the decimal ones `K`, `M`, `G`, or a bare byte count.
pub open spec fn spec_parse_mem_extended(t: Seq<char>) -> Option<u64> {
    if spec_ends2(t, 'K', 'i') {
        spec_parse_scaled(t.take(t.len() - 2), 0x400)
    } else if spec_ends2(t, 'M', 'i') {
        spec_parse_scaled(t.take(t.len() - 2), 0x100000)
    } else if spec_ends2(t, 'G', 'i') {
        spec_parse_scaled(t.take(t.len() - 2), 0x40000000)
    } else if spec_ends2(t, 'T', 'i') {
        spec_parse_scaled(t.take(t.len() - 2), 0x10000000000)
    } else if spec_ends1(t, 'K') {
        spec_parse_scaled(t.take(t.len() - 1), 1000)
    } else if spec_ends1(t, 'M') {
        spec_parse_scaled(t.take(t.len() - 1), 1000000)
    } else if spec_ends1(t, 'G') {
        spec_parse_scaled(t.take(t.len() - 1), 1000000000)
    } else {
        spec_parse_plain_u64(t)
    }
}

fn ends2(t: &Vec<char>, a: char, b: char) -> (r: bool)
    ensures
        r == spec_ends2(t@, a, b),
{
    let n = t.len();
    n >= 2 && t[n - 2] == a && t[n - 1] == b
}

fn ends1(t: &Vec<char>, a: char) -> (r: bool)
    ensures
        r == spec_ends1(t@, a),
{
    let n = t.len();
    n >= 1 && t[n - 1] == a
}

fn take_vec(t: &Vec<char>, hi: usize) -> (r: Vec<char>)
    requires
        hi <= t@.len(),
    ensures
        r@ == t@.take(hi as int),
{
    let r = subrange_vec(t, 0, hi);
    proof {
        assert(t@.subrange(0, hi as int) =~= t@.take(hi as int));
    }
    r
}

fn parse_mem_binary_chars(t: &Vec<char>) -> (r: Option<u64>)
    ensures
        r == spec_parse_mem_binary(t@),
{
    let n = t.len();
    if ends2(t, 'G', 'i') {
        parse_scaled(&take_vec(t, n - 2), 0x40000000)
    } else if ends2(t, 'M', 'i') {
        parse_scaled(&take_vec(t, n - 2), 0x100000)
    } else if ends2(t, 'K', 'i') {
        parse_scaled(&take_vec(t, n - 2), 0x400)
    } else {
        parse_u64_digits(t)
    }
}

fn parse_mem_extended_chars(t: &Vec<char>) -> (r: Option<u64>)
    ensures
        r == spec_parse_mem_extended(t@),
{
    let n = t.len();
    if ends2(t, 'K', 'i') {
        parse_scaled(&take_vec(t, n - 2), 0x400)
    } else if ends2(t, 'M', 'i') {
        parse_scaled(&take_vec(t, n - 2), 0x100000)
    } else if ends2(t, 'G', 'i') {
        parse_scaled(&take_vec(t, n - 2), 0x40000000)
    } else if ends2(t, 'T', 'i') {
        parse_scaled(&take_vec(t, n - 2), 0x10000000000)
    } else if ends1(t, 'K') {
        parse_scaled(&take_vec(t, n - 1), 1000)
    } else if ends1(t, 'M') {
        parse_scaled(&take_vec(t, n - 1), 1000000)
    } else if ends1(t, 'G') {
        parse_scaled(&take_vec(t, n - 1), 1000000000)
    } else {
        parse_u64_digits(t)
    }
}

fn invalid_memory_text(s: &str) -> (r: String) {
    let mut t = String::from_str("Invalid memory quantity '");
    t.append(s);
    t.append("'");
    t
}

/// Parses a memory quantity under the binary suffixes `Gi`, `Mi`, `Ki`
/// (or none, meaning bytes) into a byte count, rounded down to whole
/// bytes. Exactly the malformed quantities are rejected.
pub fn kuboard_parse_memory_string(memory_str: &str) -> (r: Result<u64, String>)
    ensures
        r is Ok <==> spec_parse_mem_binary(spec_trim(memory_str@)) is Some,
        r is Ok ==> Some(r->Ok_0) == spec_parse_mem_binary(spec_trim(memory_str@)),
{
    let chars = str_to_chars(memory_str);
    let t = trim_chars(&chars);
    match parse_mem_binary_chars(&t) {
        Some(v) => Ok(v),
        None => Err(invalid_memory_text(memory_str)),
    }
}

/// Parses a memory capacity under the binary suffixes `Ki`, `Mi`, `Gi`
/// (or none, meaning bytes) into a byte count, rounded down to whole
/// bytes. Exactly the malformed quantities are rejected.
pub fn parse_memory_capacity(memory_str: &str) -> (r: Result<u64, String>)
    ensures
        r is Ok <==> spec_parse_mem_binary(spec_trim(memory_str@)) is Some,
        r is Ok ==> Some(r->Ok_0) == spec_parse_mem_binary(spec_trim(memory_str@)),
{
    let chars = str_to_chars(memory_str);
    let t = trim_chars(&chars);
    match parse_mem_binary_chars(&t) {
        Some(v) => Ok(v),
        None => Err(invalid_memory_text(memory_str)),
    }
}

/// Parses a metrics memory quantity: binary suffixes `Ki`, `Mi`, `Gi`,
/// `Ti`, decimal suffixes `K`, `M`, `G`, or a bare byte count, rounded
/// down to whole bytes. Exactly the malformed quantities are rejected.
pub fn parse_memory_quantity(memory_str: &str) -> (r: Result<u64, String>)
    ensures
        r is Ok <==> spec_parse_mem_extended(spec_trim(memory_str@)) is Some,
        r is Ok ==> Some(r->Ok_0) == spec_parse_mem_extended(spec_trim(memory_str@)),
{
    let chars = str_to_chars(memory_str);
    let t = trim_chars(&chars);
    match parse_mem_extended_chars(&t) {
        Some(v) => Ok(v),
        None => Err(invalid_memory_text(memory_str)),
    }
}

/// A quotient rounded to the nearest integer, ties to the even neighbour —
/// the rounding a one-decimal rendering applies.
pub open spec fn spec_round_half_even(num: int, den: int) -> int {
    let q = num / den;
    let r = num % den;
    if 2 * r > den {
        q + 1
    } else if 2 * r < den {
        q
    } else if q % 2 == 0 {
        q
    } else {
        q + 1
    }
}

/// The divisor of the unit a byte count is shown under: the largest of
/// B, KB, MB, GB, TB that keeps the shown number at least one.
pub open spec fn spec_mem_unit_divisor(b: int) -> int {
    if b < 0x100000 {
        0x400
    } else if b < 0x40000000 {
        0x100000
    } else if b < 0x10000000000 {
        0x40000000
    } else {
        0x10000000000
    }
}

/// The suffix of the unit a byte count is shown under.
pub open spec fn spec_mem_unit_suffix(b: int) -> Seq<char> {
    if b < 0x100000 {
        " KB"@
    } else if b < 0x40000000 {
        " MB"@
    } else if b < 0x10000000000 {
        " GB"@
    } else {
        " TB"@
    }
}

/// A byte count rendered human-readable: whole bytes below one binary
/// kilobyte, otherwise the scaled size with one decimal digit, rounded to
/// nearest with ties to even, under the largest fitting unit.
pub open spec fn spec_format_memory(b: int) -> Seq<char> {
    if b < 0x400 {
        spec_decimal(b) + " B"@
    } else {
        let t = spec_round_half_even(b * 10, spec_mem_unit_divisor(b));
        spec_decimal(t / 10) + "."@ + seq![spec_digit_char(t % 10)] + spec_mem_unit_suffix(b)
    }
}

/// Renders a byte count human-readable, one decimal digit of precision.
pub fn kuboard_format_memory(bytes: u64) -> (r: String)
    ensures
        r@ == spec_format_memory(bytes as int),
{
    if bytes < 0x400 {
        let mut s = u64_to_decimal(bytes);
        s.append(" B");
        proof {
            assert(s@ =~= spec_format_memory(bytes as int));
        }
        return s;
    }
    let den: u64 = if bytes < 0x100000 {
        0x400
    } else if bytes < 0x40000000 {
        0x100000
    } else if bytes < 0x10000000000 {
        0x40000000
    } else {
        0x10000000000
    };
    let suffix: &str = if bytes < 0x100000 {
        " KB"
    } else if bytes < 0x40000000 {
        " MB"
    } else if bytes < 0x10000000000 {
        " GB"
    } else {
        " TB"
    };
    let num: u128 = bytes as u128 * 10;
    let q: u128 = num / den as u128;
    let rem: u128 = num % den as u128;
    proof {
        vstd::arithmetic::div_mod::lemma_div_nonincreasing(num as int, den as int);
    }
    let t: u128 = if 2 * rem > den as u128 {
        q + 1
    } else if 2 * rem < den as u128 {
        q
    } else if q % 2 == 0 {
        q
    } else {
        q + 1
    };
    proof {
        assert(t == spec_round_half_even(bytes as int * 10, spec_mem_unit_divisor(bytes as int)));
    }
    let mut s = u64_to_decimal((t / 10) as u64);
    s.append(".");
    s.append(crate::decimal::digit_str((t % 10) as u64));
    s.append(suffix);
    proof {
        assert(s@ =~= spec_format_memory(bytes as int));
    }
    s
}

} // verus!
