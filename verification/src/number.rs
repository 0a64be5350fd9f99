//! Fixed-point decimal arithmetic: a 64-bit signed integer scaled by 1000,
//! giving three fractional digits. Addition, subtraction, multiplication and
//! negation wrap silently on overflow; division and modulo by zero yield a
//! typed error.

use vstd::prelude::*;

use crate::errors::RuntimeErr;
use crate::errors::ValueResult;
use crate::ystring::YString;
use crate::ystring::char_utf8;
use crate::ystring::str_bytes;

verus! {

/// The fixed multiplier separating the integer and fractional parts.
pub const SCALE: i64 = 1000;

/// A decimal value stored as its raw representation scaled by 1000.
#[derive(Clone, Copy, Debug, PartialEq, Eq, Hash, Structural)]
pub struct Number(pub i64);

/// Errors from parsing a decimal literal.
#[derive(Clone, Copy, Debug, PartialEq, Eq, Structural)]
pub enum NumberParseErr {
    /// The literal's value does not fit the representation.
    Overflow,
    /// A character other than an ASCII digit stood at a digit position.
    UnknownChar(char),
}

/// Wrap an unbounded integer into the range of `i64`, as two's-complement
/// arithmetic does.
pub open spec fn wrap64(x: int) -> i64 {
    vstd::wrapping::i64_specs::signed_crop(x)
}

/// Division truncating toward zero, as machine division of signed integers
/// does (the quotient's magnitude is the quotient of the magnitudes).
pub open spec fn trunc_div(a: int, b: int) -> int
    recommends
        b != 0,
{
    if (a < 0) == (b < 0) {
        vstd::math::abs(a) as int / vstd::math::abs(b) as int
    } else {
        -(vstd::math::abs(a) as int / vstd::math::abs(b) as int)
    }
}

/// The remainder matching [`trunc_div`]: its sign follows the dividend.
pub open spec fn trunc_rem(a: int, b: int) -> int
    recommends
        b != 0,
{
    a - b * trunc_div(a, b)
}

/// Division of raw representations as the machine's wrapping division does
/// it: the one overflowing case, the minimum value divided by minus one,
/// wraps to the minimum value.
pub open spec fn wdiv64(a: int, b: int) -> int
    recommends
        b != 0,
{
    if a == i64::MIN && b == -1 {
        i64::MIN as int
    } else {
        trunc_div(a, b)
    }
}

/// The remainder matching [`wdiv64`]: the minimum value modulo minus one
/// is zero.
pub open spec fn wrem64(a: int, b: int) -> int
    recommends
        b != 0,
{
    if a == i64::MIN && b == -1 {
        0
    } else {
        trunc_rem(a, b)
    }
}

/// The magnitude of a signed value, as an unsigned machine word.
fn i64_unsigned_abs(a: i64) -> (r: u64)
    ensures
        r == vstd::math::abs(a as int),
{
    if a >= 0 {
        a as u64
    } else {
        (-(a + 1)) as u64 + 1
    }
}

/// Truncating division on machine words, computed over the magnitudes.
fn i64_div_trunc(a: i64, b: i64) -> (r: i64)
    requires
        b != 0,
        !(a == i64::MIN && b == -1),
    ensures
        r == trunc_div(a as int, b as int),
{
    let ua = i64_unsigned_abs(a);
    let ub = i64_unsigned_abs(b);
    let uq = ua / ub;
    if (a < 0) == (b < 0) {
        assert(uq <= i64::MAX) by {
            if a == i64::MIN {
                assert(ub >= 2);
                vstd::arithmetic::div_mod::lemma_div_is_ordered_by_denominator(
                    ua as int,
                    2,
                    ub as int,
                );
                assert(ua as int / 2 <= i64::MAX);
            } else {
                vstd::arithmetic::div_mod::lemma_div_nonincreasing(ua as int, ub as int);
            }
        }
        uq as i64
    } else {
        if uq == 9223372036854775808u64 {
            i64::MIN
        } else {
            assert(uq < 9223372036854775808u64 ==> -(uq as int) >= i64::MIN);
            -(uq as i64)
        }
    }
}

/// Truncating remainder on machine words, derived from [`i64_div_trunc`].
fn i64_rem_trunc(a: i64, b: i64) -> (r: i64)
    requires
        b != 0,
        !(a == i64::MIN && b == -1),
    ensures
        r == trunc_rem(a as int, b as int),
{
    let ua = i64_unsigned_abs(a);
    let ub = i64_unsigned_abs(b);
    let ur = ua % ub;
    proof {
        vstd::arithmetic::div_mod::lemma_fundamental_div_mod(ua as int, ub as int);
        assert(ur == ua - ub * (ua as int / ub as int));
        lemma_trunc_rem_abs(a as int, b as int);
    }
    if a >= 0 {
        ur as i64
    } else {
        if ur == 0 {
            0
        } else {
            -(ur as i64)
        }
    }
}

/// The factorial of `k` computed as the machine does it: one wrapping
/// multiplication per step.
pub open spec fn fact_wrap(k: nat) -> i64
    decreases k,
{
    if k == 0 {
        1
    } else {
        wrap64(fact_wrap((k - 1) as nat) * k)
    }
}

/// The truncating remainder's magnitude is the remainder of the magnitudes,
/// and its sign follows the dividend.
proof fn lemma_trunc_rem_abs(a: int, b: int)
    requires
        b != 0,
    ensures
        trunc_rem(a, b) == if a >= 0 {
            vstd::math::abs(a) as int % vstd::math::abs(b) as int
        } else {
            -(vstd::math::abs(a) as int % vstd::math::abs(b) as int)
        },
{
    let ua = vstd::math::abs(a) as int;
    let ub = vstd::math::abs(b) as int;
    vstd::arithmetic::div_mod::lemma_fundamental_div_mod(ua, ub);
    assert(ua == ub * (ua / ub) + ua % ub);
    if (a < 0) == (b < 0) {
        assert(trunc_rem(a, b) == a - b * (ua / ub));
        if a >= 0 {
            assert(a - b * (ua / ub) == ua - ub * (ua / ub));
        } else {
            assert(a == -ua && b == -ub);
            assert(a - b * (ua / ub) == -(ua - ub * (ua / ub))) by {
                vstd::arithmetic::mul::lemma_mul_unary_negation(ub, ua / ub);
            }
        }
    } else {
        assert(trunc_div(a, b) == -(ua / ub));
        assert(trunc_rem(a, b) == a - b * -(ua / ub));
        if a >= 0 {
            assert(b == -ub);
            assert(b * -(ua / ub) == ub * (ua / ub)) by {
                vstd::arithmetic::mul::lemma_mul_unary_negation(b, ua / ub);
                vstd::arithmetic::mul::lemma_mul_unary_negation(ub, ua / ub);
            }
        } else {
            assert(a == -ua && b == ub);
            assert(b * -(ua / ub) == -(ub * (ua / ub))) by {
                vstd::arithmetic::mul::lemma_mul_unary_negation(b, ua / ub);
            }
        }
    }
}

/// The decimal digits of `v`, most significant first, as ASCII bytes.
pub open spec fn digits_of(v: nat) -> Seq<u8>
    decreases v,
{
    if v < 10 {
        seq![(v + 48) as u8]
    } else {
        digits_of(v / 10).push(((v % 10) + 48) as u8)
    }
}

/// The rendering of a non-zero fractional part `dec` (thousandths, 1 to
/// 999): up to three digits with the trailing zeros dropped.
pub open spec fn frac_digits(dec: nat) -> Seq<u8>
    recommends
        1 <= dec <= 999,
{
    let d2 = ((dec / 100) + 48) as u8;
    let d1 = (((dec / 10) % 10) + 48) as u8;
    let d0 = ((dec % 10) + 48) as u8;
    if dec % 10 != 0 {
        seq![d2, d1, d0]
    } else if (dec / 10) % 10 != 0 {
        seq![d2, d1]
    } else {
        seq![d2]
    }
}

/// The rendering of a raw representation `n`: a minus sign exactly when the
/// value is negative, the whole part's digits, and the fractional digits
/// only when they are not zero.
pub open spec fn number_str(n: int) -> Seq<u8>
    recommends
        i64::MIN <= n <= i64::MAX,
{
    let ip = vstd::math::abs(trunc_div(n, 1000));
    let dec = vstd::math::abs(trunc_rem(n, 1000));
    let sign: Seq<u8> = if n < 0 {
        seq![45u8]
    } else {
        Seq::empty()
    };
    let intpart = sign + digits_of(ip);
    if dec == 0 {
        intpart
    } else {
        intpart + seq![46u8] + frac_digits(dec)
    }
}

/// Whether a character is an ASCII decimal digit.
pub open spec fn is_digit_ch(c: char) -> bool {
    48 <= c as int && c as int <= 57
}

/// The numeric value of an ASCII digit character.
pub open spec fn digit_val(c: char) -> int {
    c as int - 48
}

/// The scan of a literal's whole part, right to left, exactly as the parser
/// accumulates it: the place value `exp` is multiplied by ten before each
/// digit, and every step that would leave the representable range is a hard
/// overflow error.
pub open spec fn scan_int(cs: Seq<char>, exp: int, val: int) -> Result<int, NumberParseErr>
    recommends
        exp >= 1,
        val >= 0,
    decreases cs.len(),
{
    if cs.len() == 0 {
        Ok(val)
    } else {
        let c = cs.last();
        if !is_digit_ch(c) {
            Err(NumberParseErr::UnknownChar(c))
        } else if exp * 10 > i64::MAX {
            Err(NumberParseErr::Overflow)
        } else if exp * 10 * digit_val(c) > i64::MAX {
            Err(NumberParseErr::Overflow)
        } else if val + exp * 10 * digit_val(c) > i64::MAX {
            Err(NumberParseErr::Overflow)
        } else {
            scan_int(cs.drop_last(), exp * 10, val + exp * 10 * digit_val(c))
        }
    }
}

/// The scan of a literal's fractional part, left to right: the signed place
/// value `exp` is divided by ten before each digit.
pub open spec fn scan_frac(cs: Seq<char>, exp: int, val: int) -> Result<int, NumberParseErr>
    decreases cs.len(),
{
    if cs.len() == 0 {
        Ok(val)
    } else {
        let c = cs.first();
        if !is_digit_ch(c) {
            Err(NumberParseErr::UnknownChar(c))
        } else {
            let e = trunc_div(exp, 10);
            let d = e * digit_val(c);
            if val + d > i64::MAX || val + d < i64::MIN {
                Err(NumberParseErr::Overflow)
            } else {
                scan_frac(cs.drop_first(), e, val + d)
            }
        }
    }
}

/// The position of the first decimal point, if any.
pub open spec fn find_dot(s: Seq<char>) -> Option<int>
    decreases s.len(),
{
    if s.len() == 0 {
        None
    } else if s[0] == '.' {
        Some(0)
    } else {
        match find_dot(s.drop_first()) {
            None => None,
            Some(i) => Some(i + 1),
        }
    }
}

/// The raw representation a literal parses to, or its parse error: an
/// optional minus sign, whole-part digits, and after an optional decimal
/// point up to three fractional digits (anything beyond the third is
/// ignored).
pub open spec fn parse_val(s: Seq<char>) -> Result<int, NumberParseErr>
    recommends
        s.len() >= 1,
{
    let neg = s[0] == '-';
    let big = match find_dot(s) {
        Some(d) => s.take(d),
        None => s,
    };
    let big2 = if neg {
        big.drop_first()
    } else {
        big
    };
    match scan_int(big2, 100, 0) {
        Err(e) => Err(e),
        Ok(v) => {
            let v2 = if neg {
                -v
            } else {
                v
            };
            match find_dot(s) {
                None => Ok(v2),
                Some(d) => {
                    let small = s.skip(d + 1);
                    let small3 = if small.len() > 3 {
                        small.take(3)
                    } else {
                        small
                    };
                    scan_frac(small3, if neg { -1000int } else { 1000int }, v2)
                },
            }
        },
    }
}

/// `find_dot` names the first position holding a decimal point, if any.
proof fn lemma_find_dot_position(s: Seq<char>)
    ensures
        match find_dot(s) {
            Some(k) => 0 <= k < s.len() && s[k] == '.' && (forall|j: int|
                0 <= j < k ==> s[j] != '.'),
            None => forall|j: int| 0 <= j < s.len() ==> s[j] != '.',
        },
    decreases s.len(),
{
    if s.len() == 0 {
    } else if s[0] == '.' {
    } else {
        lemma_find_dot_position(s.drop_first());
        let t = s.drop_first();
        assert(forall|j: int| 0 < j < s.len() ==> s[j] == t[j - 1]);
        match find_dot(t) {
            None => {
                assert(forall|j: int| 0 <= j < s.len() ==> s[j] != '.');
            },
            Some(i) => {
                assert(find_dot(s) == Some(i + 1));
                assert(s[i + 1] == t[i]);
                assert(forall|j: int| 0 <= j < i + 1 ==> s[j] != '.');
            },
        }
    }
}

/// Dividing a value of magnitude at most a thousand by ten leaves a
/// magnitude of at most a hundred.
proof fn lemma_trunc_div_small(e: int)
    requires
        -1000 <= e <= 1000,
    ensures
        -100 <= trunc_div(e, 10) <= 100,
{
    assert(vstd::math::abs(e) <= 1000);
    assert(vstd::math::abs(e) as int / 10 <= 100) by {
        vstd::arithmetic::div_mod::lemma_div_is_ordered(
            vstd::math::abs(e) as int,
            1000,
            10,
        );
    }
    assert(vstd::math::abs(e) as int / 10 >= 0) by {
        vstd::arithmetic::div_mod::lemma_div_pos_is_pos(vstd::math::abs(e) as int, 10);
    }
}

/// The parse of a literal as a `Number`.
pub open spec fn parse_num(s: Seq<char>) -> Result<Number, NumberParseErr> {
    match parse_val(s) {
        Err(e) => Err(e),
        Ok(v) => Ok(Number(v as i64)),
    }
}

/// Bytes read as the characters with the same code points.
pub open spec fn chars_of(bs: Seq<u8>) -> Seq<char> {
    bs.map_values(|b: u8| b as char)
}

/// The power of ten with exponent `k`.
pub open spec fn pow10(k: nat) -> nat
    decreases k,
{
    if k == 0 {
        1nat
    } else {
        10 * pow10((k - 1) as nat)
    }
}

proof fn lemma_pow10_mono(a: nat, b: nat)
    requires
        a <= b,
    ensures
        pow10(a) <= pow10(b),
        pow10(a) >= 1,
    decreases b,
{
    if b > 0 {
        if a == b {
            lemma_pow10_mono((a - 1) as nat, (b - 1) as nat);
        } else {
            lemma_pow10_mono(a, (b - 1) as nat);
        }
    }
}

/// Every rendered digit is an ASCII digit, and there is at least one.
proof fn lemma_digits_of_bounds(v: nat)
    ensures
        digits_of(v).len() >= 1,
        forall|i: int| 0 <= i < digits_of(v).len() ==> 48 <= #[trigger] digits_of(v)[i] <= 57,
    decreases v,
{
    if v >= 10 {
        lemma_digits_of_bounds(v / 10);
    }
}

/// A value below the `k`-th power of ten renders to at most `k` digits.
proof fn lemma_digits_of_len(v: nat, k: nat)
    requires
        k >= 1,
        v < pow10(k),
    ensures
        digits_of(v).len() <= k,
    decreases v,
{
    if v >= 10 {
        assert(pow10(k) == 10 * pow10((k - 1) as nat));
        if k == 1 {
            assert(v < 10);
        } else {
            let p = pow10((k - 1) as nat);
            assert(v / 10 < p) by {
                vstd::arithmetic::div_mod::lemma_div_is_ordered(v as int, 10 * p - 1, 10);
                vstd::arithmetic::div_mod::lemma_fundamental_div_mod_converse(
                    10 * p - 1,
                    10,
                    p - 1,
                    9,
                );
            }
            lemma_digits_of_len(v / 10, (k - 1) as nat);
        }
    }
}

/// The numeric value of a digit sequence, most significant first.
pub open spec fn digits_val(ds: Seq<u8>) -> int
    decreases ds.len(),
{
    if ds.len() == 0 {
        0
    } else {
        digits_val(ds.drop_last()) * 10 + (ds.last() - 48)
    }
}

proof fn lemma_digits_val_nonneg(ds: Seq<u8>)
    requires
        forall|i: int| 0 <= i < ds.len() ==> 48 <= #[trigger] ds[i] <= 57,
    ensures
        digits_val(ds) >= 0,
    decreases ds.len(),
{
    if ds.len() > 0 {
        assert(forall|i: int|
            0 <= i < ds.drop_last().len() ==> 48 <= #[trigger] ds.drop_last()[i] <= 57);
        lemma_digits_val_nonneg(ds.drop_last());
        assert(digits_val(ds.drop_last()) * 10 >= 0) by {
            vstd::arithmetic::mul::lemma_mul_nonnegative(digits_val(ds.drop_last()), 10);
        }
    }
}

/// Rendering and reading back digits is the identity.
proof fn lemma_digits_val_of(v: nat)
    ensures
        digits_val(digits_of(v)) == v,
    decreases v,
{
    if v < 10 {
        let ds = digits_of(v);
        assert(ds.drop_last() =~= Seq::<u8>::empty());
        assert(digits_val(ds.drop_last()) == 0);
        assert(ds.last() == (v + 48) as u8);
        assert(digits_val(ds) == 0 * 10 + ((v + 48) as u8 - 48));
    } else {
        lemma_digits_val_of(v / 10);
        let ds = digits_of(v);
        assert(ds =~= digits_of(v / 10).push(((v % 10) + 48) as u8));
        assert(ds.drop_last() =~= digits_of(v / 10));
        assert(ds.last() == ((v % 10) + 48) as u8);
        assert(digits_val(ds) == digits_val(digits_of(v / 10)) * 10 + (((v % 10) + 48) as u8
            - 48));
        assert(digits_val(ds) == (v / 10) * 10 + (v % 10));
        vstd::arithmetic::div_mod::lemma_fundamental_div_mod(v as int, 10);
        assert(v == 10 * (v as int / 10) + v as int % 10);
        assert((v / 10) * 10 == 10 * (v as int / 10));
    }
}

/// Scanning a digit sequence accumulates exactly its positional value,
/// provided neither the place value nor the total leaves the representable
/// range.
proof fn lemma_scan_int_digits(ds: Seq<u8>, e: int, acc: int)
    requires
        forall|i: int| 0 <= i < ds.len() ==> 48 <= #[trigger] ds[i] <= 57,
        e >= 1,
        acc >= 0,
        e * pow10(ds.len() as nat) <= i64::MAX,
        acc + 10 * e * digits_val(ds) <= i64::MAX,
    ensures
        scan_int(chars_of(ds), e, acc) == Ok::<int, NumberParseErr>(
            acc + 10 * e * digits_val(ds),
        ),
    decreases ds.len(),
{
    let cs = chars_of(ds);
    assert(cs.len() == ds.len());
    if ds.len() == 0 {
        assert(digits_val(ds) == 0);
        assert(10 * e * 0 == 0) by {
            vstd::arithmetic::mul::lemma_mul_by_zero_is_zero(10 * e);
        }
    } else {
        let dl = ds.drop_last();
        let b = ds.last();
        let c = cs.last();
        assert(c == b as char);
        assert(c as int == b as int);
        assert(is_digit_ch(c));
        assert(digit_val(c) == b - 48);
        let dvl = digits_val(dl);
        assert(forall|i: int| 0 <= i < dl.len() ==> 48 <= #[trigger] dl[i] <= 57);
        lemma_digits_val_nonneg(dl);
        let dval = digits_val(ds);
        assert(dval == dvl * 10 + (b - 48));
        // the whole value bounds each of its parts
        assert(10 * e * dval == 100 * e * dvl + 10 * e * (b - 48)) by (nonlinear_arith)
            requires
                dval == dvl * 10 + (b - 48),
        ;
        assert(10 * e * (b - 48) >= 0 && 100 * e * dvl >= 0) by (nonlinear_arith)
            requires
                e >= 1,
                dvl >= 0,
                48 <= b <= 57,
        ;
        // the place-value guard
        assert(pow10(ds.len() as nat) == 10 * pow10(dl.len() as nat));
        lemma_pow10_mono(0, dl.len() as nat);
        assert(e * pow10(ds.len() as nat) == e * 10 * pow10(dl.len() as nat))
            by (nonlinear_arith)
            requires
                pow10(ds.len() as nat) == 10 * pow10(dl.len() as nat),
        ;
        assert(e * 10 <= e * 10 * pow10(dl.len() as nat)) by (nonlinear_arith)
            requires
                e >= 1,
                pow10(dl.len() as nat) >= 1,
        ;
        assert(e * 10 <= i64::MAX);
        assert(e * 10 * digit_val(c) == 10 * e * (b - 48)) by (nonlinear_arith)
            requires
                digit_val(c) == b - 48,
        ;
        assert(e * 10 * digit_val(c) <= i64::MAX);
        assert(acc + e * 10 * digit_val(c) <= acc + 10 * e * dval);
        // the recursive step
        assert(cs.drop_last() =~= chars_of(dl));
        lemma_scan_int_digits(dl, e * 10, acc + 10 * e * (b - 48));
        assert((e * 10) * pow10(dl.len() as nat) == e * pow10(ds.len() as nat))
            by (nonlinear_arith)
            requires
                pow10(ds.len() as nat) == 10 * pow10(dl.len() as nat),
        ;
        assert(acc + 10 * e * (b - 48) + 10 * (e * 10) * dvl == acc + 10 * e * dval)
            by (nonlinear_arith)
            requires
                dval == dvl * 10 + (b - 48),
        ;
    }
}

/// Scanning the rendered fractional digits adds the fractional part back,
/// with the sign `sg` of the whole value.
proof fn lemma_scan_frac_digits(dec: nat, v2: int, sg: int)
    requires
        1 <= dec <= 999,
        sg == 1 || sg == -1,
        i64::MIN <= v2 + sg * dec <= i64::MAX,
        sg == 1 ==> v2 >= 0,
        sg == -1 ==> v2 <= 0,
    ensures
        scan_frac(chars_of(frac_digits(dec)), sg * 1000, v2) == Ok::<int, NumberParseErr>(
            v2 + sg * dec,
        ),
{
    let d2 = dec / 100;
    let d1 = (dec / 10) % 10;
    let d0 = dec % 10;
    assert(d2 <= 9) by {
        vstd::arithmetic::div_mod::lemma_div_is_ordered(dec as int, 999, 100);
        assert(999int / 100 == 9);
    }
    assert(d1 <= 9 && d0 <= 9) by {
        vstd::arithmetic::div_mod::lemma_mod_division_less_than_divisor((dec / 10) as int, 10);
        vstd::arithmetic::div_mod::lemma_mod_division_less_than_divisor(dec as int, 10);
    }
    assert(dec == 100 * d2 + 10 * d1 + d0) by {
        vstd::arithmetic::div_mod::lemma_fundamental_div_mod(dec as int, 10);
        vstd::arithmetic::div_mod::lemma_fundamental_div_mod((dec / 10) as int, 10);
        assert((dec / 10) / 10 == dec / 100) by {
            vstd::arithmetic::div_mod::lemma_div_denominator(dec as int, 10, 10);
        }
    }
    let fd = frac_digits(dec);
    let cs = chars_of(fd);
    let b2 = ((dec / 100) + 48) as u8;
    let b1 = (((dec / 10) % 10) + 48) as u8;
    let b0 = ((dec % 10) + 48) as u8;
    let e0 = sg * 1000;
    let e1 = sg * 100;
    let e2 = sg * 10;
    let e3 = sg;
    assert(trunc_div(e0, 10) == e1 && trunc_div(e1, 10) == e2 && trunc_div(e2, 10) == e3) by {
        assert(1000int / 10 == 100 && 100int / 10 == 10 && 10int / 10 == 1);
    }
    let p1 = v2 + e1 * d2;
    let p2 = p1 + e2 * d1;
    let p3 = p2 + e3 * d0;
    assert(e1 * d2 == sg * 100 * d2 && e2 * d1 == sg * 10 * d1) by (nonlinear_arith)
        requires
            e1 == sg * 100,
            e2 == sg * 10,
    ;
    assert(p3 == v2 + sg * dec) by (nonlinear_arith)
        requires
            dec == 100 * d2 + 10 * d1 + d0,
            p3 == v2 + sg * 100 * d2 + sg * 10 * d1 + sg * d0,
    ;
    if sg == 1 {
        assert(i64::MIN <= v2 <= p1 <= p2 <= p3 <= i64::MAX);
    } else {
        assert(i64::MIN <= p3 <= p2 <= p1 <= v2 <= i64::MAX);
    }
    if d0 != 0 {
        assert(fd == seq![b2, b1, b0]);
        assert(cs.len() == 3);
        assert(cs[0] == b2 as char && cs[1] == b1 as char && cs[2] == b0 as char);
        let cs1 = cs.drop_first();
        let cs2 = cs1.drop_first();
        let cs3 = cs2.drop_first();
        assert(cs1.len() == 2 && cs1[0] == b1 as char && cs1[1] == b0 as char);
        assert(cs2.len() == 1 && cs2[0] == b0 as char);
        assert(cs3.len() == 0);
        assert(digit_val(cs.first()) == d2 && digit_val(cs1.first()) == d1 && digit_val(
            cs2.first(),
        ) == d0);
        assert(scan_frac(cs, e0, v2) == scan_frac(cs1, e1, p1));
        assert(scan_frac(cs1, e1, p1) == scan_frac(cs2, e2, p2));
        assert(scan_frac(cs2, e2, p2) == scan_frac(cs3, e3, p3));
        assert(scan_frac(cs3, e3, p3) == Ok::<int, NumberParseErr>(p3));
    } else if d1 != 0 {
        assert(fd == seq![b2, b1]);
        assert(cs.len() == 2);
        assert(cs[0] == b2 as char && cs[1] == b1 as char);
        let cs1 = cs.drop_first();
        let cs2 = cs1.drop_first();
        assert(cs1.len() == 1 && cs1[0] == b1 as char);
        assert(cs2.len() == 0);
        assert(digit_val(cs.first()) == d2 && digit_val(cs1.first()) == d1);
        assert(scan_frac(cs, e0, v2) == scan_frac(cs1, e1, p1));
        assert(scan_frac(cs1, e1, p1) == scan_frac(cs2, e2, p2));
        assert(scan_frac(cs2, e2, p2) == Ok::<int, NumberParseErr>(p2));
        assert(p2 == p3);
    } else {
        assert(fd == seq![b2]);
        assert(cs.len() == 1);
        assert(cs[0] == b2 as char);
        let cs1 = cs.drop_first();
        assert(cs1.len() == 0);
        assert(digit_val(cs.first()) == d2);
        assert(scan_frac(cs, e0, v2) == scan_frac(cs1, e1, p1));
        assert(scan_frac(cs1, e1, p1) == Ok::<int, NumberParseErr>(p1));
        assert(p1 == p2 && p2 == p3);
    }
}

/// The round trip: rendering any raw value, then parsing the rendering,
/// returns the value exactly.
pub proof fn lemma_parse_stringify_round_trip(n: i64)
    ensures
        parse_num(chars_of(number_str(n as int))) == Ok::<Number, NumberParseErr>(Number(n)),
{
    let an = vstd::math::abs(n as int);
    let td = trunc_div(n as int, 1000);
    let tr = trunc_rem(n as int, 1000);
    let ip = vstd::math::abs(td);
    let dec = vstd::math::abs(tr);
    lemma_trunc_rem_abs(n as int, 1000);
    vstd::arithmetic::div_mod::lemma_mod_division_less_than_divisor(an as int, 1000);
    vstd::arithmetic::div_mod::lemma_div_pos_is_pos(an as int, 1000);
    assert(dec == an as int % 1000);
    assert(dec <= 999);
    assert(ip == an as int / 1000);
    assert(n == 1000 * td + tr);
    assert(ip <= 9223372036854775) by {
        vstd::arithmetic::div_mod::lemma_div_is_ordered(
            an as int,
            9223372036854775808,
            1000,
        );
        vstd::arithmetic::div_mod::lemma_fundamental_div_mod_converse(
            9223372036854775808,
            1000,
            9223372036854775,
            808,
        );
    }
    let neg = n < 0;
    assert(if neg {
        td == -(ip as int)
    } else {
        td == ip
    });
    let sbytes = number_str(n as int);
    let cs = chars_of(sbytes);
    let digs = digits_of(ip);
    lemma_digits_of_bounds(ip);
    lemma_digits_val_of(ip);
    let dl = digs.len() as int;
    assert(digs.len() <= 16) by {
        reveal_with_fuel(pow10, 17);
        assert(pow10(16) == 10000000000000000);
        lemma_digits_of_len(ip, 16);
    }
    let slen: int = if neg {
        1int
    } else {
        0int
    };
    let sign: Seq<u8> = if neg {
        seq![45u8]
    } else {
        Seq::empty()
    };
    assert(sbytes == if dec == 0 {
        sign + digs
    } else {
        sign + digs + seq![46u8] + frac_digits(dec)
    });
    // every byte before any decimal point is a sign or a digit
    assert(forall|j: int| 0 <= j < slen + dl ==> sbytes[j] != 46);
    assert(forall|j: int| 0 <= j < cs.len() ==> cs[j] == sbytes[j] as char);
    assert(forall|j: int| 0 <= j < slen + dl ==> cs[j] != '.') by {
        assert(forall|j: int| 0 <= j < slen + dl ==> (sbytes[j] as char) as int != 46);
    }
    lemma_find_dot_position(cs);
    if dec == 0 {
        assert(cs.len() == slen + dl);
        assert(find_dot(cs) is None) by {
            if find_dot(cs) is Some {
                let k = find_dot(cs)->Some_0;
                assert(cs[k] == '.');
            }
        }
    } else {
        let dp = slen + dl;
        assert(sbytes[dp] == 46);
        assert(cs[dp] == '.');
        assert(find_dot(cs) == Some(dp)) by {
            match find_dot(cs) {
                None => {
                    assert(cs[dp] != '.');
                },
                Some(k) => {
                    if k < dp {
                        assert(cs[k] != '.');
                    } else if k > dp {
                        assert(cs[dp] != '.');
                    }
                },
            }
        }
    }
    // the sign is detected exactly when the value is negative
    assert(cs[0] == sbytes[0] as char);
    if neg {
        assert(sbytes[0] == 45);
        assert(cs[0] == '-');
    } else {
        assert(sbytes[0] == digs[0]);
        assert(48 <= sbytes[0] <= 57);
        assert(cs[0] != '-');
    }
    // the whole part's characters are exactly the rendered digits
    let big = match find_dot(cs) {
        Some(d) => cs.take(d),
        None => cs,
    };
    let big2 = if neg {
        big.drop_first()
    } else {
        big
    };
    assert(big2 =~= chars_of(digs));
    // scanning them recovers the whole part
    assert(scan_int(chars_of(digs), 100, 0) == Ok::<int, NumberParseErr>(1000 * (ip as int))) by {
        lemma_pow10_mono(digs.len() as nat, 16);
        reveal_with_fuel(pow10, 17);
        assert(pow10(16) == 10000000000000000);
        assert(100 * pow10(digs.len() as nat) <= 100 * pow10(16));
        lemma_scan_int_digits(digs, 100, 0);
    }
    let v2: int = if neg {
        -(1000 * (ip as int))
    } else {
        1000 * (ip as int)
    };
    assert(v2 == 1000 * td);
    if dec == 0 {
        assert(tr == 0);
        assert(parse_val(cs) == Ok::<int, NumberParseErr>(v2));
        assert(v2 == n);
    } else {
        let dp = slen + dl;
        let small = cs.skip(dp + 1);
        assert(small =~= chars_of(frac_digits(dec)));
        assert(frac_digits(dec).len() <= 3);
        let sg: int = if neg {
            -1int
        } else {
            1int
        };
        assert(sg * 1000 == if neg {
            -1000int
        } else {
            1000int
        });
        assert(v2 + sg * dec == n) by {
            if neg {
                assert(tr == -dec);
            } else {
                assert(tr == dec);
            }
        }
        lemma_scan_frac_digits(dec as nat, v2, sg);
        assert(scan_frac(small, if neg { -1000int } else { 1000int }, v2)
            == Ok::<int, NumberParseErr>(n as int));
        assert(parse_val(cs) == Ok::<int, NumberParseErr>(n as int));
    }
    assert(parse_num(cs) == Ok::<Number, NumberParseErr>(Number(n)));
}

impl Number {
    pub open spec fn raw(self) -> int {
        self.0 as int
    }

    /// The largest representable value.
    pub fn max() -> (r: Self)
        ensures
            r.raw() == i64::MAX,
    {
        Number(i64::MAX)
    }

    /// The smallest representable value; it doubles as the out-of-range and
    /// domain-error sentinel.
    pub fn min() -> (r: Self)
        ensures
            r.raw() == i64::MIN,
    {
        Number(i64::MIN)
    }

    /// One whole unit: the scale itself.
    pub fn one() -> (r: Self)
        ensures
            r.raw() == 1000,
    {
        Number(SCALE)
    }

    /// The zero value.
    pub fn zero() -> (r: Self)
        ensures
            r.raw() == 0,
    {
        Number(0)
    }

    /// A number is true exactly when it is not zero.
    pub fn as_bool(self) -> (r: bool)
        ensures
            r == (self.raw() != 0),
    {
        self.0 != 0
    }

    /// Wrapping addition of the raw representations.
    pub fn add(self, rhs: Self) -> (r: Self)
        ensures
            r.raw() == wrap64(self.raw() + rhs.raw()),
    {
        Number(self.0.wrapping_add(rhs.0))
    }

    pub fn add_assign(&mut self, rhs: Self)
        ensures
            final(self).raw() == wrap64(old(self).raw() + rhs.raw()),
    {
        *self = self.add(rhs);
    }

    /// Wrapping subtraction of the raw representations.
    pub fn sub(self, rhs: Self) -> (r: Self)
        ensures
            r.raw() == wrap64(self.raw() - rhs.raw()),
    {
        Number(self.0.wrapping_sub(rhs.0))
    }

    pub fn sub_assign(&mut self, rhs: Self)
        ensures
            final(self).raw() == wrap64(old(self).raw() - rhs.raw()),
    {
        *self = self.sub(rhs);
    }

    /// Wrapping negation: the minimum value is its own negation.
    pub fn neg(self) -> (r: Self)
        ensures
            r.raw() == wrap64(-self.raw()),
    {
        if self.0 == i64::MIN {
            Number(i64::MIN)
        } else {
            Number(-self.0)
        }
    }

    /// Adding one whole unit, wrapping.
    pub fn pre_inc(&mut self)
        ensures
            final(self).raw() == wrap64(old(self).raw() + 1000),
    {
        self.add_assign(Number(SCALE));
    }

    /// Subtracting one whole unit, wrapping.
    pub fn pre_dec(&mut self)
        ensures
            final(self).raw() == wrap64(old(self).raw() - 1000),
    {
        self.sub_assign(Number(SCALE));
    }

    /// Wrapping absolute value: the minimum value is its own absolute value.
    pub fn abs(self) -> (r: Self)
        ensures
            r.raw() == if self.raw() == i64::MIN { i64::MIN as int } else if self.raw() < 0 {
                -self.raw()
            } else {
                self.raw()
            },
    {
        if self.0 == i64::MIN {
            self
        } else if self.0 < 0 {
            Number(-self.0)
        } else {
            self
        }
    }

    /// Wrapping multiplication: the wrapped raw product, scaled back down
    /// with truncation.
    pub fn mul(self, rhs: Self) -> (r: Self)
        ensures
            r.raw() == trunc_div(wrap64(self.raw() * rhs.raw()) as int, 1000),
    {
        let p = self.0.wrapping_mul(rhs.0);
        Number(i64_div_trunc(p, 1000))
    }

    pub fn mul_assign(&mut self, rhs: Self)
        ensures
            final(self).raw() == trunc_div(wrap64(old(self).raw() * rhs.raw()) as int, 1000),
    {
        *self = self.mul(rhs);
    }

    /// Division: an error on a zero divisor; otherwise the dividend is
    /// scaled up (wrapping) before the machine's wrapping division, so the
    /// quotient keeps the fixed-point scale.
    pub fn div(self, rhs: Self) -> (r: ValueResult<Number>)
        ensures
            rhs.raw() == 0 ==> (r matches Err(e) && e == RuntimeErr::DivZero),
            rhs.raw() != 0 ==> (r matches Ok(q) && q.raw() == wdiv64(
                wrap64(self.raw() * 1000) as int,
                rhs.raw(),
            )),
    {
        if rhs.0 == 0 {
            Err(RuntimeErr::DivZero)
        } else {
            let scaled = self.0.wrapping_mul(1000);
            if scaled == i64::MIN && rhs.0 == -1 {
                Ok(Number(i64::MIN))
            } else {
                Ok(Number(i64_div_trunc(scaled, rhs.0)))
            }
        }
    }

    pub fn div_assign(&mut self, other: Self) -> (r: ValueResult<()>)
        ensures
            other.raw() == 0 ==> r == Err::<(), RuntimeErr>(RuntimeErr::DivZero) && *final(self)
                == *old(self),
            other.raw() != 0 ==> r == Ok::<(), RuntimeErr>(()) && final(self).raw() == wdiv64(
                wrap64(old(self).raw() * 1000) as int,
                other.raw(),
            ),
    {
        match self.div(other) {
            Ok(q) => {
                *self = q;
                Ok(())
            },
            Err(e) => Err(e),
        }
    }

    /// Modulo: an error on a zero divisor; otherwise the machine's wrapping
    /// remainder of the raw representations.
    pub fn rem(self, rhs: Self) -> (r: ValueResult<Number>)
        ensures
            rhs.raw() == 0 ==> (r matches Err(e) && e == RuntimeErr::ModZero),
            rhs.raw() != 0 ==> (r matches Ok(q) && q.raw() == wrem64(self.raw(), rhs.raw())),
    {
        if rhs.0 == 0 {
            Err(RuntimeErr::ModZero)
        } else {
            if self.0 == i64::MIN && rhs.0 == -1 {
                Ok(Number(0))
            } else {
                Ok(Number(i64_rem_trunc(self.0, rhs.0)))
            }
        }
    }

    pub fn rem_assign(&mut self, other: Self) -> (r: ValueResult<()>)
        ensures
            other.raw() == 0 ==> r == Err::<(), RuntimeErr>(RuntimeErr::ModZero) && *final(self)
                == *old(self),
            other.raw() != 0 ==> r == Ok::<(), RuntimeErr>(()) && final(self).raw() == wrem64(
                old(self).raw(),
                other.raw(),
            ),
    {
        match self.rem(other) {
            Ok(q) => {
                *self = q;
                Ok(())
            },
            Err(e) => Err(e),
        }
    }

    /// The factorial of the truncated whole part, multiplied step by step
    /// with wrapping arithmetic, then scaled back up (also wrapping); a
    /// negative operand yields the sentinel minimum.
    pub fn fact(self) -> (r: Self)
        ensures
            self.raw() < 0 ==> r.raw() == i64::MIN,
            self.raw() >= 0 ==> r.0 == wrap64(fact_wrap((self.raw() / 1000) as nat) * 1000),
    {
        if self.0 < 0 {
            Number(i64::MIN)
        } else {
            let v = i64_div_trunc(self.0, 1000);
            assert(v == self.raw() / 1000);
            let mut i: i64 = 0;
            let mut result: i64 = 1;
            while i < v
                invariant
                    0 <= i <= v,
                    result == fact_wrap(i as nat),
                decreases v - i,
            {
                i = i + 1;
                result = result.wrapping_mul(i);
            }
            Number(result.wrapping_mul(1000))
        }
    }

    /// Boolean negation over the zero test: zero becomes one, everything
    /// else becomes zero.
    pub fn not(self) -> (r: Self)
        ensures
            r.raw() == if self.raw() == 0 { 1000int } else { 0int },
    {
        if self.0 == 0 {
            Number(1000)
        } else {
            Number(0)
        }
    }

    /// Append this number's decimal rendering to a caller-owned buffer.
    pub fn stringify_with_buffer(&self, buffer: &mut YString)
        ensures
            final(buffer)@ == old(buffer)@ + number_str(self.raw()),
    {
        let ua = i64_unsigned_abs(self.0);
        let ip: u64 = ua / 1000;
        let dec: u64 = ua % 1000;
        proof {
            lemma_trunc_rem_abs(self.raw(), 1000);
            assert(vstd::math::abs(trunc_div(self.raw(), 1000)) == ip);
            assert(vstd::math::abs(trunc_rem(self.raw(), 1000)) == dec);
        }
        let neg = self.0 < 0;
        if neg {
            buffer.push(45);
        }
        let ghost base = buffer@;
        proof {
            assert(base =~= old(buffer)@ + (if self.raw() < 0 {
                seq![45u8]
            } else {
                Seq::<u8>::empty()
            }));
        }
        buffer.push_digits(ip);
        proof {
            assert(buffer@ =~= base + digits_of(ip as nat));
        }
        if dec == 0 {
            return ;
        }
        let ghost withint = buffer@;
        buffer.push(46);
        let d2: u8 = (dec / 100) as u8 + 48;
        let d1: u8 = ((dec / 10) % 10) as u8 + 48;
        let d0: u8 = (dec % 10) as u8 + 48;
        buffer.push(d2);
        if dec % 10 != 0 {
            buffer.push(d1);
            buffer.push(d0);
            proof {
                assert(buffer@ =~= withint + seq![46u8] + frac_digits(dec as nat));
                assert(buffer@ =~= old(buffer)@ + number_str(self.raw()));
            }
        } else if (dec / 10) % 10 != 0 {
            buffer.push(d1);
            proof {
                assert(buffer@ =~= withint + seq![46u8] + frac_digits(dec as nat));
                assert(buffer@ =~= old(buffer)@ + number_str(self.raw()));
            }
        } else {
            proof {
                assert(buffer@ =~= withint + seq![46u8] + frac_digits(dec as nat));
                assert(buffer@ =~= old(buffer)@ + number_str(self.raw()));
            }
        }
    }

    /// The square root's domain test: a negative value, or one at or above
    /// the bound whose root would overflow when squared back, is out of
    /// domain and yields the sentinel minimum.
    pub fn sqrt_out_of_domain(self) -> (r: bool)
        ensures
            r == (self.raw() < 0 || self.raw() >= 9223372036854775000),
    {
        self.0 < 0 || self.0 >= 9223372036854775000
    }

    /// Parse a decimal literal: an optional minus sign, whole-part digits,
    /// and after an optional decimal point up to three fractional digits
    /// (anything beyond the third is ignored). Any other character is a
    /// parse error naming it, and a value outside the representable range
    /// is a hard overflow error, never a silent saturation.
    #[verifier::loop_isolation(false)]
    pub fn from_str(s: &str) -> (r: Result<Number, NumberParseErr>)
        requires
            s@.len() >= 1,
        ensures
            r == parse_num(s@),
    {
        let n = s.unicode_len();
        let neg = s.get_char(0) == '-';
        let mut dot: usize = n;
        let mut has_dot = false;
        let mut i: usize = 0;
        while i < n
            invariant
                i <= n,
                has_dot ==> dot < i && s@[dot as int] == '.' && (forall|j: int|
                    0 <= j < dot ==> s@[j] != '.'),
                !has_dot ==> dot == n && (forall|j: int| 0 <= j < i ==> s@[j] != '.'),
            decreases n - i,
        {
            if !has_dot {
                if s.get_char(i) == '.' {
                    dot = i;
                    has_dot = true;
                }
            }
            i = i + 1;
        }
        proof {
            lemma_find_dot_position(s@);
            if has_dot {
                assert(find_dot(s@) == Some(dot as int));
            } else {
                assert(find_dot(s@) is None);
            }
        }
        let lo: usize = if neg {
            1
        } else {
            0
        };
        let ghost big2: Seq<char> = {
            let big = match find_dot(s@) {
                Some(d) => s@.take(d),
                None => s@,
            };
            if neg {
                big.drop_first()
            } else {
                big
            }
        };
        proof {
            assert(big2 =~= s@.subrange(lo as int, dot as int));
        }
        let mut exp: i64 = 100;
        let mut val: i64 = 0;
        let mut j: usize = dot;
        proof {
            assert(s@.subrange(lo as int, dot as int) == big2);
        }
        while j > lo
            invariant
                lo <= j <= dot <= n,
                n == s@.len(),
                lo <= 1,
                exp >= 100,
                val >= 0,
                scan_int(big2, 100, 0) == scan_int(s@.subrange(lo as int, j as int), exp as int, val as int),
            decreases j,
        {
            let c = s.get_char(j - 1);
            let ghost pre = s@.subrange(lo as int, j as int);
            proof {
                assert(pre.len() > 0);
                assert(pre.last() == c);
                assert(pre.drop_last() =~= s@.subrange(lo as int, j - 1));
            }
            let u = c as u32;
            if !(48 <= u && u <= 57) {
                proof {
                    assert(!is_digit_ch(c));
                    assert(scan_int(big2, 100, 0) == Err::<int, NumberParseErr>(
                        NumberParseErr::UnknownChar(c),
                    ));
                    assert(parse_val(s@) == Err::<int, NumberParseErr>(
                        NumberParseErr::UnknownChar(c),
                    ));
                }
                return Err(NumberParseErr::UnknownChar(c));
            }
            proof {
                assert(is_digit_ch(c));
                assert(digit_val(c) == u - 48);
            }
            let e10 = match exp.checked_mul(10) {
                Some(e10) => e10,
                None => {
                    proof {
                        assert(scan_int(big2, 100, 0) == Err::<int, NumberParseErr>(
                            NumberParseErr::Overflow,
                        ));
                        assert(parse_val(s@) == Err::<int, NumberParseErr>(
                            NumberParseErr::Overflow,
                        ));
                    }
                    return Err(NumberParseErr::Overflow);
                },
            };
            let d = (u - 48) as i64;
            let dd = match e10.checked_mul(d) {
                Some(dd) => dd,
                None => {
                    proof {
                        assert(scan_int(big2, 100, 0) == Err::<int, NumberParseErr>(
                            NumberParseErr::Overflow,
                        ));
                        assert(parse_val(s@) == Err::<int, NumberParseErr>(
                            NumberParseErr::Overflow,
                        ));
                    }
                    return Err(NumberParseErr::Overflow);
                },
            };
            let v2 = match val.checked_add(dd) {
                Some(v2) => v2,
                None => {
                    proof {
                        assert(scan_int(big2, 100, 0) == Err::<int, NumberParseErr>(
                            NumberParseErr::Overflow,
                        ));
                        assert(parse_val(s@) == Err::<int, NumberParseErr>(
                            NumberParseErr::Overflow,
                        ));
                    }
                    return Err(NumberParseErr::Overflow);
                },
            };
            exp = e10;
            val = v2;
            j = j - 1;
        }
        proof {
            assert(s@.subrange(lo as int, lo as int).len() == 0);
            assert(scan_int(big2, 100, 0) == Ok::<int, NumberParseErr>(val as int));
        }
        let sval: i64 = if neg {
            -val
        } else {
            val
        };
        if !has_dot {
            proof {
                assert(parse_val(s@) == Ok::<int, NumberParseErr>(sval as int));
            }
            return Ok(Number(sval));
        }
        let fstart = dot + 1;
        let avail = n - fstart;
        let limit: usize = if avail > 3 {
            3
        } else {
            avail
        };
        let ghost small3: Seq<char> = {
            let small = s@.skip(dot + 1);
            if small.len() > 3 {
                small.take(3)
            } else {
                small
            }
        };
        proof {
            assert(small3 =~= s@.subrange(fstart as int, fstart + limit));
        }
        let mut exp2: i64 = if neg {
            -1000
        } else {
            1000
        };
        let mut vv: i64 = sval;
        let mut k: usize = 0;
        while k < limit
            invariant
                k <= limit,
                fstart + limit <= n,
                n == s@.len(),
                -1000 <= exp2 <= 1000,
                scan_frac(small3, if neg { -1000int } else { 1000int }, sval as int) == scan_frac(
                    s@.subrange(fstart + k, fstart + limit),
                    exp2 as int,
                    vv as int,
                ),
            decreases limit - k,
        {
            let c = s.get_char(fstart + k);
            let ghost pre = s@.subrange(fstart + k, fstart + limit);
            proof {
                assert(pre.len() > 0);
                assert(pre.first() == c);
                assert(pre.drop_first() =~= s@.subrange(fstart + k + 1, fstart + limit));
            }
            let u = c as u32;
            if !(48 <= u && u <= 57) {
                proof {
                    assert(!is_digit_ch(c));
                    assert(scan_frac(small3, if neg { -1000int } else { 1000int }, sval as int)
                        == Err::<int, NumberParseErr>(NumberParseErr::UnknownChar(c)));
                    assert(parse_val(s@) == Err::<int, NumberParseErr>(
                        NumberParseErr::UnknownChar(c),
                    ));
                }
                return Err(NumberParseErr::UnknownChar(c));
            }
            proof {
                assert(is_digit_ch(c));
                assert(digit_val(c) == u - 48);
            }
            let e = i64_div_trunc(exp2, 10);
            let d = (u - 48) as i64;
            proof {
                lemma_trunc_div_small(exp2 as int);
                assert(-100 <= e <= 100);
                assert(-900 <= e * d <= 900) by (nonlinear_arith)
                    requires
                        -100 <= e <= 100,
                        0 <= d <= 9,
                ;
            }
            let dd = e * d;
            let v2 = match vv.checked_add(dd) {
                Some(v2) => v2,
                None => {
                    proof {
                        assert(scan_frac(
                            small3,
                            if neg { -1000int } else { 1000int },
                            sval as int,
                        ) == Err::<int, NumberParseErr>(NumberParseErr::Overflow));
                        assert(parse_val(s@) == Err::<int, NumberParseErr>(
                            NumberParseErr::Overflow,
                        ));
                    }
                    return Err(NumberParseErr::Overflow);
                },
            };
            exp2 = e;
            vv = v2;
            k = k + 1;
        }
        proof {
            assert(s@.subrange(fstart + limit, fstart + limit).len() == 0);
            assert(scan_frac(small3, if neg { -1000int } else { 1000int }, sval as int)
                == Ok::<int, NumberParseErr>(vv as int));
            assert(parse_val(s@) == Ok::<int, NumberParseErr>(vv as int));
        }
        Ok(Number(vv))
    }

    /// This number's decimal rendering as a fresh string.
    pub fn stringify(&self) -> (r: YString)
        ensures
            r@ == number_str(self.raw()),
    {
        let mut s = YString::new();
        self.stringify_with_buffer(&mut s);
        proof {
            assert(Seq::<u8>::empty() + number_str(self.raw()) =~= number_str(self.raw()));
        }
        s
    }
}

impl Default for Number {
    /// The default number is zero.
    fn default() -> (r: Self)
        ensures
            r.raw() == 0,
    {
        Number(0)
    }
}

impl From<i64> for Number {
    /// A whole number scaled up by a thousand, wrapping on overflow.
    fn from(n: i64) -> (r: Self) {
        Number(n.wrapping_mul(1000))
    }
}

impl vstd::std_specs::convert::FromSpecImpl<i64> for Number {
    open spec fn obeys_from_spec() -> bool {
        true
    }

    open spec fn from_spec(n: i64) -> Number {
        Number(wrap64(n * 1000))
    }
}

impl From<bool> for Number {
    /// Truth becomes one whole unit, falsehood zero.
    fn from(b: bool) -> (r: Self) {
        if b {
            Number(1000)
        } else {
            Number(0)
        }
    }
}

impl vstd::std_specs::convert::FromSpecImpl<bool> for Number {
    open spec fn obeys_from_spec() -> bool {
        true
    }

    open spec fn from_spec(b: bool) -> Number {
        if b {
            Number(1000)
        } else {
            Number(0)
        }
    }
}

/// Each parse error's user-facing message.
pub open spec fn parse_err_msg(e: NumberParseErr) -> Seq<u8> {
    match e {
        NumberParseErr::Overflow => str_bytes("Number can't fit in i64"@),
        NumberParseErr::UnknownChar(c) => str_bytes("Found unknown char '"@) + char_utf8(c)
            + str_bytes("'"@),
    }
}

impl NumberParseErr {
    /// Append this error's message to a buffer.
    pub fn write_message(&self, buf: &mut YString)
        ensures
            final(buf)@ == old(buf)@ + parse_err_msg(*self),
    {
        proof {
            reveal_strlit("Number can't fit in i64");
            reveal_strlit("Found unknown char '");
            reveal_strlit("'");
        }
        match self {
            NumberParseErr::Overflow => {
                buf.push_str("Number can't fit in i64");
            },
            NumberParseErr::UnknownChar(c) => {
                buf.push_str("Found unknown char '");
                buf.push_char(*c);
                buf.push_str("'");
                proof {
                    assert(buf@ =~= old(buf)@ + parse_err_msg(*self));
                }
            },
        }
    }

    /// This error's message as a fresh string.
    pub fn message(&self) -> (r: YString)
        ensures
            r@ == parse_err_msg(*self),
    {
        let mut buf = YString::new();
        self.write_message(&mut buf);
        proof {
            assert(Seq::<u8>::empty() + parse_err_msg(*self) =~= parse_err_msg(*self));
        }
        buf
    }
}

} // verus!
