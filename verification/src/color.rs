//! Color parsing, shared by bindings, layout and drawing.
//!
//! `#rgb`, `#rgba`, `#rrggbb`, `#rrggbbaa`, `rgb(r,g,b)`, `rgba(r,g,b,a)` with
//! `a` a whole number up to 255 or a fraction written with a point,
//! `transparent`, `none`, and the color names of CSS.
use crate::css::{css_color, find_css_color};
use crate::math::{
    lemma_ten_adds, lemma_ten_mono, lemma_ten_positive, lemma_two_mono, ten, two,
};
use crate::scan::{digits_end, is_number, lower, lowered, number_text, skip_digits, unsigned_number};
use crate::text::{
    all_digits, chars_of, digit_value, digits_value, eq_str, find_char, parse_unsigned,
    split_char, split_on, trim, trimmed, unsigned_value, views,
};
use crate::text::{has_prefix, starts_with_str};
use vstd::prelude::*;
use vstd::slice::slice_subrange;

verus! {

/// Red, green, blue and alpha.
pub type Color = (u8, u8, u8, u8);

pub const TRANSPARENT: Color = (0, 0, 0, 0);

// ---------------------------------------------------------------------------
// Fractional alpha
// ---------------------------------------------------------------------------

/// How many low bits `n` has beyond the 24 of a single-precision significand.
pub open spec fn excess(n: nat) -> nat
    decreases n,
{
    if n < 16777216 {
        0
    } else {
        1 + excess(n / 2)
    }
}

/// `n / p` to the nearest whole number, ties to even; `more` tells that the
/// true value lies a little above `n`.
pub open spec fn nearest(n: nat, p: nat, more: bool) -> nat {
    let q = n / p;
    let r = n % p;
    if 2 * r > p || (2 * r == p && (more || q % 2 == 1)) {
        q + 1
    } else {
        q
    }
}

/// The alpha byte for a fraction of `n / 2^34` (and a little more where `more`
/// holds): the fraction in single precision, times 255 in single precision,
/// rounded half up. Fractions below `2^-10` give zero.
pub open spec fn alpha_of(n: nat, more: bool) -> nat {
    if n >= 17179869184 {
        255
    } else if n < 16777216 {
        0
    } else {
        let p = two(excess(n));
        let q = nearest(n, p, more) * 255;
        let t = two(excess(q));
        let v = (nearest(q, t, false) * t * p + 8589934592) / 17179869184;
        if v > 255 {
            255
        } else {
            v
        }
    }
}

/// The alpha byte for the fraction `num / den`.
pub open spec fn alpha_ratio(num: nat, den: nat) -> nat {
    alpha_of(num * 17179869184 / den, num * 17179869184 % den != 0)
}

/// The alpha byte for `mant * 10^scale`.
pub open spec fn alpha_scaled(mant: nat, scale: int) -> nat {
    if scale >= 0 {
        alpha_ratio(mant * ten(scale as nat), 1)
    } else {
        alpha_ratio(mant, ten((-scale) as nat))
    }
}

/// The exponent written from `i` on, zero where nothing is left.
pub open spec fn exponent(s: Seq<char>, i: int) -> int {
    if i >= s.len() {
        0
    } else if i + 1 < s.len() && s[i + 1] == '-' {
        -(digits_value(s.skip(i + 2)) as int)
    } else if i + 1 < s.len() && s[i + 1] == '+' {
        digits_value(s.skip(i + 2)) as int
    } else {
        digits_value(s.skip(i + 1)) as int
    }
}

/// The alpha byte for an unsigned number with a decimal point.
pub open spec fn alpha_unsigned(s: Seq<char>) -> nat {
    let a = digits_end(s, 0);
    let b = digits_end(s, a + 1);
    alpha_scaled(
        digits_value(s.take(a) + s.subrange(a + 1, b)),
        exponent(s, b) - (b - a - 1),
    )
}

/// The alpha byte for a number with a decimal point; negative numbers give zero.
pub open spec fn alpha_fraction(s: Seq<char>) -> Option<nat> {
    let signed = s.len() > 0 && (s[0] == '+' || s[0] == '-');
    let body = if signed {
        s.skip(1)
    } else {
        s
    };
    if !number_text(s) || !unsigned_number(body) {
        None
    } else if s[0] == '-' {
        Some(0)
    } else {
        Some(alpha_unsigned(body))
    }
}

/// The alpha byte written by `s`.
pub open spec fn alpha_text(s: Seq<char>) -> Option<nat> {
    if s.contains('.') {
        alpha_fraction(s)
    } else {
        unsigned_value(s, 255)
    }
}

/// The number written by decimal digits, most significant first.
spec fn fval(d: Seq<u8>) -> nat
    decreases d.len(),
{
    if d.len() == 0 {
        0
    } else {
        d[0] as nat * ten((d.len() - 1) as nat) + fval(d.skip(1))
    }
}

spec fn digits_ok(d: Seq<u8>) -> bool {
    forall|i: int| 0 <= i < d.len() ==> #[trigger] d[i] < 10
}

proof fn lemma_fval_bound(d: Seq<u8>)
    requires
        digits_ok(d),
    ensures
        fval(d) < ten(d.len()),
    decreases d.len(),
{
    if d.len() > 0 {
        assert(digits_ok(d.skip(1)));
        lemma_fval_bound(d.skip(1));
        let t = ten((d.len() - 1) as nat) as int;
        let x = d[0] as int;
        assert(x * t <= 9 * t) by (nonlinear_arith)
            requires
                x <= 9,
                t >= 0,
        ;
    }
}

proof fn lemma_fval_push(d: Seq<u8>, x: u8)
    ensures
        fval(d.push(x)) == fval(d) * 10 + x,
    decreases d.len(),
{
    if d.len() == 0 {
        assert(d.push(x).skip(1) =~= Seq::<u8>::empty());
        assert(fval(d.push(x).skip(1)) == 0);
        assert(ten(0) == 1);
        assert(d.push(x)[0] as nat * ten(0) == x as nat) by (nonlinear_arith)
            requires
                ten(0) == 1,
                d.push(x)[0] == x,
        ;
    } else {
        assert(d.push(x).skip(1) =~= d.skip(1).push(x));
        lemma_fval_push(d.skip(1), x);
        let n = d.len();
        let a = d[0] as int;
        let t = ten((n - 1) as nat) as int;
        assert(ten(n) == 10 * t);
        assert(a * (10 * t) == (a * t) * 10) by (nonlinear_arith);
    }
}

proof fn lemma_fval_zero_front(d: Seq<u8>)
    ensures
        fval(seq![0u8] + d) == fval(d),
{
    let e = seq![0u8] + d;
    assert(e.skip(1) =~= d);
    assert(0 * ten(d.len()) == 0) by (nonlinear_arith);
}

/// Double a decimal fraction in place; the digit that leaves in front.
fn double(d: &mut Vec<u8>) -> (carry: u8)
    requires
        digits_ok(old(d)@),
    ensures
        digits_ok(final(d)@),
        final(d)@.len() == old(d)@.len(),
        carry < 2,
        2 * fval(old(d)@) == carry * ten(old(d)@.len()) + fval(final(d)@),
{
    let n: usize = d.len();
    let mut carry: u8 = 0;
    let mut i: usize = n;
    proof {
        assert(d@.skip(n as int) =~= Seq::<u8>::empty());
        assert(0 * ten(0) == 0) by (nonlinear_arith);
    }
    while i > 0
        invariant
            n == d@.len(),
            n == old(d)@.len(),
            i <= n,
            carry < 2,
            digits_ok(old(d)@),
            digits_ok(d@),
            forall|k: int| 0 <= k < i ==> #[trigger] d@[k] == old(d)@[k],
            2 * fval(old(d)@.skip(i as int)) == carry * ten((n - i) as nat) + fval(d@.skip(i as int)),
        decreases i,
    {
        let ghost before = d@;
        let ghost c0 = carry as int;
        i -= 1;
        let t: u8 = 2 * d[i] + carry;
        d[i] = t % 10;
        carry = t / 10;
        proof {
            let m = (n - i - 1) as nat;
            assert(old(d)@.skip(i as int).skip(1) =~= old(d)@.skip(i + 1));
            assert(d@.skip(i as int).skip(1) =~= before.skip(i + 1));
            let w = ten(m) as int;
            let a = old(d)@[i as int] as int;
            let r = (t % 10) as int;
            let k = carry as int;
            assert(2 * a + c0 == 10 * k + r);
            assert(2 * (a * w) + c0 * w == k * (10 * w) + r * w) by (nonlinear_arith)
                requires
                    2 * a + c0 == 10 * k + r,
            ;
            assert(ten((n - i) as nat) == 10 * w);
            assert(fval(d@.skip(i as int)) == r * w + fval(before.skip(i + 1)));
            assert(fval(old(d)@.skip(i as int)) == a * w + fval(old(d)@.skip(i + 1)));
        }
    }
    proof {
        assert(d@.skip(0) =~= d@);
        assert(old(d)@.skip(0) =~= old(d)@);
    }
    carry
}

/// The whole and the remaining part of `2^34` times a decimal fraction.
fn scaled_bits(d: Vec<u8>) -> (r: (u64, bool))
    requires
        digits_ok(d@),
    ensures
        r.0 == fval(d@) * 17179869184 / ten(d@.len()),
        r.1 == (fval(d@) * 17179869184 % ten(d@.len()) != 0),
{
    let mut w = d;
    let ghost num = fval(d@);
    let ghost den = ten(d@.len());
    let mut bits: u64 = 0;
    let mut step: u64 = 0;
    let mut scale: u64 = 1;
    let n: usize = w.len();
    proof {
        lemma_ten_positive(d@.len());
        assert(num * 1 == 0 * den + fval(w@)) by (nonlinear_arith)
            requires
                num == fval(w@),
        ;
        lemma_scale(0);
    }
    while step < 34
        invariant
            n == w@.len(),
            digits_ok(w@),
            den == ten(n as nat),
            den >= 1,
            step <= 34,
            scale == two(step as nat),
            scale <= 17179869184,
            bits < scale,
            num * scale == bits * den + fval(w@),
        decreases 34 - step,
    {
        let ghost old_w = fval(w@);
        let ghost b0 = bits as int;
        let ghost s0 = scale as int;
        proof {
            lemma_scale(step as nat);
        }
        let carry: u8 = double(&mut w);
        bits = 2 * bits + carry as u64;
        scale = 2 * scale;
        step += 1;
        proof {
            let c = carry as int;
            let x = num as int;
            let y = den as int;
            let f0 = old_w as int;
            let f1 = fval(w@) as int;
            assert(x * (2 * s0) == (2 * b0 + c) * y + f1) by (nonlinear_arith)
                requires
                    x * s0 == b0 * y + f0,
                    2 * f0 == c * y + f1,
            ;
        }
    }
    let more = any_nonzero(&w);
    proof {
        lemma_scale(33);
        lemma_fval_bound(w@);
        assert(two(34) == 17179869184) by {
            reveal_with_fuel(two, 40);
        }
        vstd::arithmetic::div_mod::lemma_fundamental_div_mod_converse(
            (num * 17179869184) as int,
            den as int,
            bits as int,
            fval(w@) as int,
        );
    }
    (bits, more)
}

proof fn lemma_scale(n: nat)
    requires
        n <= 33,
    ensures
        two(n) <= 8589934592,
        two(n + 1) == 2 * two(n),
{
    reveal_with_fuel(two, 40);
    if n < 33 {
        lemma_two_mono(n, 33);
    }
}

fn any_nonzero(d: &Vec<u8>) -> (r: bool)
    ensures
        r == (fval(d@) != 0),
{
    let mut i: usize = 0;
    proof {
        assert(d@.skip(0) =~= d@);
    }
    while i < d.len()
        invariant
            i <= d@.len(),
            fval(d@) == fval(d@.skip(i as int)),
        decreases d@.len() - i,
    {
        proof {
            assert(d@.skip(i as int).skip(1) =~= d@.skip(i + 1));
        }
        if d[i] != 0 {
            proof {
                let t = ten((d@.len() - i - 1) as nat) as int;
                lemma_ten_positive((d@.len() - i - 1) as nat);
                let x = d@[i as int] as int;
                assert(x * t >= 1) by (nonlinear_arith)
                    requires
                        x >= 1,
                        t >= 1,
                ;
            }
            return true;
        }
        proof {
            let t = ten((d@.len() - i - 1) as nat) as int;
            assert(0 * t == 0) by (nonlinear_arith);
        }
        i += 1;
    }
    false
}

fn excess_of(n: u64) -> (r: (u64, u64))
    requires
        n <= 17179869184,
    ensures
        r.0 == excess(n as nat),
        r.1 == two(r.0 as nat),
        1 <= r.1 <= 2048,
{
    let mut m: u64 = n;
    let mut shift: u64 = 0;
    let mut p: u64 = 1;
    while m >= 16777216
        invariant
            excess(n as nat) == shift + excess(m as nat),
            p == two(shift as nat),
            1 <= p <= 1024 * 2,
            m * p <= 17179869184,
            shift <= 11,
        decreases m,
    {
        proof {
            assert(p <= 1024) by (nonlinear_arith)
                requires
                    m * p <= 17179869184,
                    m >= 16777216,
            ;
            assert((m / 2) * (2 * p) <= m * p) by (nonlinear_arith)
                requires
                    m >= 0,
                    p >= 0,
            ;
            if shift >= 11 {
                lemma_two_mono(11, shift as nat);
                assert(two(11) == 2048) by {
                    reveal_with_fuel(two, 14);
                }
            }
        }
        m = m / 2;
        p = 2 * p;
        shift += 1;
    }
    (shift, p)
}

fn nearest_of(n: u64, p: u64, more: bool) -> (r: u64)
    requires
        p >= 1,
        p <= 4096,
        n <= 17179869184,
    ensures
        r == nearest(n as nat, p as nat, more),
        r <= n + 1,
{
    let q: u64 = n / p;
    let r: u64 = n % p;
    proof {
        assert(q <= n) by (nonlinear_arith)
            requires
                q == n / p,
                p >= 1,
                n >= 0,
        ;
    }
    if 2 * r > p || (2 * r == p && (more || q % 2 == 1)) {
        q + 1
    } else {
        q
    }
}

proof fn lemma_excess_bound(n: nat)
    ensures
        n < 16777216 * two(excess(n)),
    decreases n,
{
    if n >= 16777216 {
        lemma_excess_bound(n / 2);
    }
}

fn alpha_byte(n: u64, more: bool) -> (r: u8)
    ensures
        r == alpha_of(n as nat, more),
{
    if n >= 17179869184 {
        return 255;
    }
    if n < 16777216 {
        return 0;
    }
    let (e, p) = excess_of(n);
    let near: u64 = nearest_of(n, p, more);
    proof {
        // the rounded significand stays within 2^24
        lemma_excess_bound(n as nat);
        assert(near <= 16777216) by {
            assert(n / p < 16777216) by (nonlinear_arith)
                requires
                    n < 16777216 * p,
                    p >= 1,
            ;
        }
    }
    let q: u64 = near * 255;
    let (f, t) = excess_of(q);
    let last: u64 = nearest_of(q, t, false);
    proof {
        assert(last * t * p <= 8589934592 * 2048 * 2048) by (nonlinear_arith)
            requires
                last <= 8589934592,
                t <= 2048,
                p <= 2048,
        ;
        assert(last * t <= 8589934592 * 2048) by (nonlinear_arith)
            requires
                last <= 8589934592,
                t <= 2048,
        ;
    }
    let v: u128 = (last as u128 * t as u128 * p as u128 + 8589934592) / 17179869184;
    if v > 255 {
        255
    } else {
        v as u8
    }
}

/// At least one: fully opaque.
proof fn lemma_alpha_full(mant: nat, len: nat, scale: int)
    requires
        len >= 1,
        ten((len - 1) as nat) <= mant,
        len + scale >= 1,
    ensures
        alpha_scaled(mant, scale) == 255,
{
    lemma_ten_positive((len - 1) as nat);
    let (num, den) = if scale >= 0 {
        lemma_ten_positive(scale as nat);
        (mant * ten(scale as nat), 1nat)
    } else {
        lemma_ten_positive((-scale) as nat);
        lemma_ten_mono((-scale) as nat, (len - 1) as nat);
        (mant, ten((-scale) as nat))
    };
    if scale >= 0 {
        let t = ten(scale as nat) as int;
        let m = mant as int;
        assert(m * t >= 1) by (nonlinear_arith)
            requires
                m >= 1,
                t >= 1,
        ;
    }
    let x = num as int;
    let y = den as int;
    assert(x * 17179869184 / y >= 17179869184) by (nonlinear_arith)
        requires
            x >= y,
            y >= 1,
    ;
}

/// Below one in ten thousand: fully transparent.
proof fn lemma_alpha_none(mant: nat, len: nat, scale: int)
    requires
        mant < ten(len),
        len + scale <= -4,
    ensures
        alpha_scaled(mant, scale) == 0,
{
    let gap = (-scale - len) as nat;
    lemma_ten_adds(len, gap);
    lemma_ten_mono(4, gap);
    assert(ten(4) == 10000) by {
        reveal_with_fuel(ten, 6);
    }
    let x = mant as int;
    let a = ten(len) as int;
    let g = ten(gap) as int;
    let y = ten((-scale) as nat) as int;
    assert(y == a * g);
    assert(y >= 10000 * x + 1) by (nonlinear_arith)
        requires
            y == a * g,
            g >= 10000,
            a >= x + 1,
            x >= 0,
    ;
    assert(x * 17179869184 / y < 16777216) by (nonlinear_arith)
        requires
            y >= 10000 * x + 1,
            x >= 0,
    ;
}

/// The digits of a numeral as numbers.
fn push_digits(out: &mut Vec<u8>, s: &[char])
    requires
        digits_ok(old(out)@),
        all_digits(s@),
    ensures
        digits_ok(final(out)@),
        final(out)@.len() == old(out)@.len() + s@.len(),
        forall|t: Seq<char>|
            fval(old(out)@) == digits_value(t) ==> fval(final(out)@) == #[trigger] digits_value(t + s@),
{
    let ghost start = out@;
    let mut i: usize = 0;
    proof {
        assert forall|t: Seq<char>| fval(start) == digits_value(t) implies fval(out@)
            == #[trigger] digits_value(t + s@.take(0)) by {
            assert(t + s@.take(0) =~= t);
        }
    }
    while i < s.len()
        invariant
            i <= s@.len(),
            start == old(out)@,
            all_digits(s@),
            digits_ok(out@),
            out@.len() == start.len() + i,
            forall|t: Seq<char>|
                fval(start) == digits_value(t) ==> fval(out@) == #[trigger] digits_value(
                    t + s@.take(i as int),
                ),
        decreases s@.len() - i,
    {
        let c = s[i];
        let ghost before = out@;
        let v: u8 = (c as u32 - '0' as u32) as u8;
        out.push(v);
        proof {
            lemma_fval_push(before, v);
            assert forall|t: Seq<char>| fval(start) == digits_value(t) implies fval(out@)
                == #[trigger] digits_value(t + s@.take(i + 1)) by {
                let u = t + s@.take(i + 1);
                assert(u.drop_last() =~= t + s@.take(i as int));
                assert(u.last() == c);
                assert(digits_value(t + s@.take(i as int)) == fval(before));
                assert(digit_value(c) == v);
            }
        }
        i += 1;
    }
    proof {
        assert(s@.take(s@.len() as int) =~= s@);
    }
}

/// The number written by digits, or the cap where it is larger.
fn capped_value(s: &[char]) -> (r: u128)
    requires
        all_digits(s@),
    ensures
        r <= 1000000000000000000000000000000,
        r == digits_value(s@) || (r == 1000000000000000000000000000000 && digits_value(s@) > r),
{
    let mut acc: u128 = 0;
    let mut i: usize = 0;
    proof {
        assert(s@.take(0) =~= Seq::<char>::empty());
    }
    while i < s.len()
        invariant
            i <= s@.len(),
            all_digits(s@),
            acc <= 1000000000000000000000000000000,
            acc == digits_value(s@.take(i as int)) || (acc == 1000000000000000000000000000000
                && digits_value(s@.take(i as int)) > acc),
        decreases s@.len() - i,
    {
        let c = s[i];
        proof {
            assert(s@.take(i + 1).drop_last() =~= s@.take(i as int));
        }
        let next: u128 = acc * 10 + (c as u32 - '0' as u32) as u128;
        acc = if next > 1000000000000000000000000000000 {
            1000000000000000000000000000000
        } else {
            next
        };
        i += 1;
    }
    proof {
        assert(s@.take(s@.len() as int) =~= s@);
    }
    acc
}

proof fn lemma_run_is_digits(s: Seq<char>, i: int)
    requires
        0 <= i <= s.len(),
    ensures
        all_digits(s.subrange(i, digits_end(s, i))),
        i <= digits_end(s, i) <= s.len(),
{
    crate::scan::lemma_digits_end(s, i);
}

fn exponent_of(s: &[char], i: usize) -> (r: i128)
    requires
        i <= s@.len(),
        crate::scan::exponent_or_end(s@, i as int),
    ensures
        -1000000000000000000000000000000 <= r <= 1000000000000000000000000000000,
        r == exponent(s@, i as int) || (r == 1000000000000000000000000000000 && exponent(s@, i as int)
            > r) || (r == -1000000000000000000000000000000 && exponent(s@, i as int) < r),
{
    let n: usize = s.len();
    if i >= n {
        return 0;
    }
    let minus = i + 1 < n && s[i + 1] == '-';
    let plus = i + 1 < n && s[i + 1] == '+';
    let k: usize = if minus || plus {
        i + 2
    } else {
        i + 1
    };
    let d = slice_subrange(s, k, n);
    proof {
        lemma_run_is_digits(s@, k as int);
        assert(d@ =~= s@.skip(k as int));
    }
    let v: u128 = capped_value(d);
    if minus {
        -(v as i128)
    } else {
        v as i128
    }
}

/// The digits with zeros put in front or taken away there.
fn without_leading_zeros(d: &Vec<u8>) -> (r: Vec<u8>)
    requires
        digits_ok(d@),
    ensures
        digits_ok(r@),
        r@.len() <= d@.len(),
        fval(r@) == fval(d@),
        r@.len() > 0 ==> r@[0] > 0,
{
    let mut z: usize = 0;
    proof {
        assert(d@.skip(0) =~= d@);
    }
    while z < d.len() && d[z] == 0
        invariant
            z <= d@.len(),
            fval(d@) == fval(d@.skip(z as int)),
        decreases d@.len() - z,
    {
        proof {
            assert(d@.skip(z as int).skip(1) =~= d@.skip(z + 1));
            let t = ten((d@.len() - z - 1) as nat);
            assert(0 * t == 0) by (nonlinear_arith);
        }
        z += 1;
    }
    let mut out: Vec<u8> = Vec::new();
    let mut i: usize = z;
    while i < d.len()
        invariant
            z <= i <= d@.len(),
            digits_ok(d@),
            out@ == d@.subrange(z as int, i as int),
        decreases d@.len() - i,
    {
        out.push(d[i]);
        i += 1;
        proof {
            assert(d@.subrange(z as int, i as int) =~= d@.subrange(z as int, i - 1).push(d@[i - 1]));
        }
    }
    proof {
        assert(out@ =~= d@.skip(z as int));
    }
    out
}

fn with_zeros(d: Vec<u8>, count: usize) -> (r: Vec<u8>)
    requires
        digits_ok(d@),
        count <= 3,
    ensures
        digits_ok(r@),
        r@.len() == d@.len() + count,
        fval(r@) == fval(d@),
{
    let mut out = d;
    let mut i: usize = 0;
    while i < count
        invariant
            i <= count,
            digits_ok(out@),
            out@.len() == d@.len() + i,
            fval(out@) == fval(d@),
        decreases count - i,
    {
        let ghost before = out@;
        out.insert(0, 0);
        proof {
            assert(out@ =~= seq![0u8] + before);
            lemma_fval_zero_front(before);
        }
        i += 1;
    }
    out
}

fn alpha_point(s: &[char]) -> (r: u8)
    requires
        unsigned_number(s@),
        digits_end(s@, 0) < s@.len(),
        s@[digits_end(s@, 0)] == '.',
    ensures
        r == alpha_unsigned(s@),
{
    let n: usize = s.len();
    let a: usize = skip_digits(s, 0);
    assert(a < n);
    let b: usize = skip_digits(s, a + 1);
    let whole = slice_subrange(s, 0, a);
    let frac = slice_subrange(s, a + 1, b);
    proof {
        lemma_run_is_digits(s@, 0);
        lemma_run_is_digits(s@, a + 1);
        assert(whole@ =~= s@.take(a as int));
    }
    let mut all: Vec<u8> = Vec::new();
    push_digits(&mut all, whole);
    push_digits(&mut all, frac);
    let ghost mant = digits_value(whole@ + frac@);
    proof {
        let e = Seq::<char>::empty();
        assert(e + whole@ =~= whole@);
        assert(fval(Seq::<u8>::empty()) == digits_value(e));
        assert(digits_value(e + whole@) == digits_value(whole@));
        assert(digits_value(whole@ + frac@) == fval(all@));
    }
    let exp: i128 = exponent_of(s, b);
    let ghost exact = exponent(s@, b as int);
    let ghost scale = exact - (b - a - 1);
    let m = without_leading_zeros(&all);
    if m.len() == 0 {
        proof {
            assert(mant == 0);
            let den = if scale >= 0 {
                1nat
            } else {
                ten((-scale) as nat)
            };
            lemma_ten_positive((-scale) as nat);
            if scale >= 0 {
                assert(0 * ten(scale as nat) == 0) by (nonlinear_arith);
            }
            assert(0nat * 17179869184 == 0) by (nonlinear_arith);
            assert(0nat / den == 0) by (nonlinear_arith)
                requires
                    den >= 1,
            ;
        }
        return 0;
    }
    let places: i128 = (b - a - 1) as i128;
    let point: i128 = m.len() as i128 + exp - places;
    proof {
        let len = m@.len();
        lemma_fval_bound(m@);
        let t = ten((len - 1) as nat) as int;
        let x = m@[0] as int;
        assert(x * t >= t) by (nonlinear_arith)
            requires
                x >= 1,
                t >= 0,
        ;
        assert(ten((len - 1) as nat) <= mant);
    }
    if point >= 1 {
        proof {
            lemma_alpha_full(mant, m@.len(), scale);
        }
        return 255;
    }
    if point <= -4 {
        proof {
            lemma_alpha_none(mant, m@.len(), scale);
        }
        return 0;
    }
    let zeros: usize = (-point) as usize;
    let d = with_zeros(m, zeros);
    proof {
        assert(exp == exact);
        assert(d@.len() == -scale);
        lemma_ten_positive(d@.len());
    }
    let (bits, more) = scaled_bits(d);
    alpha_byte(bits, more)
}

/// The alpha byte written by a channel.
fn alpha_channel(s: &[char]) -> (r: Option<u8>)
    ensures
        r matches Some(v) ==> alpha_text(s@) == Some(v as nat),
        r is None ==> alpha_text(s@) is None,
{
    if find_char(s, '.') < s.len() {
        if !is_number(s) {
            return None;
        }
        let n: usize = s.len();
        let signed = n > 0 && (s[0] == '+' || s[0] == '-');
        let from: usize = if signed {
            1
        } else {
            0
        };
        let body = slice_subrange(s, from, n);
        proof {
            if from == 0 {
                assert(body@ =~= s@);
            } else {
                assert(body@ =~= s@.skip(1));
            }
        }
        if !crate::scan::is_unsigned_number(body) {
            return None;
        }
        proof {
            lemma_point_position(s@, body@);
        }
        if s[0] == '-' {
            return Some(0);
        }
        Some(alpha_point(body))
    } else {
        match parse_unsigned(s, 255) {
            Some(v) => Some(v as u8),
            None => None,
        }
    }
}

/// A number with a point has it right behind its first run of digits.
proof fn lemma_point_position(s: Seq<char>, body: Seq<char>)
    requires
        s.contains('.'),
        unsigned_number(body),
        s == body || (s.len() > 0 && s[0] != '.' && body == s.skip(1)),
    ensures
        0 <= digits_end(body, 0) < body.len(),
        body[digits_end(body, 0)] == '.',
        s.len() > 0,
{
    let k = choose|k: int| 0 <= k < s.len() && s[k] == '.';
    let j = if s == body {
        k
    } else {
        k - 1
    };
    assert(body[j] == '.');
    let a = digits_end(body, 0);
    crate::scan::lemma_digits_end(body, 0);
    if !(a < body.len() && body[a] == '.') {
        // then only an exponent follows, which holds no point
        if a < body.len() {
            let e = if a + 1 < body.len() && (body[a + 1] == '+' || body[a + 1] == '-') {
                a + 2
            } else {
                a + 1
            };
            crate::scan::lemma_digits_end(body, e);
            assert(j < a || j == a || j == a + 1 || j >= e);
        }
        assert(false);
    }
}

// ---------------------------------------------------------------------------
// Color texts
// ---------------------------------------------------------------------------

/// The value of a hexadecimal digit.
pub open spec fn hex_value(c: char) -> Option<nat> {
    if '0' <= c <= '9' {
        Some((c as u32 - '0' as u32) as nat)
    } else if 'a' <= c <= 'f' {
        Some((c as u32 - 'a' as u32 + 10) as nat)
    } else if 'A' <= c <= 'F' {
        Some((c as u32 - 'A' as u32 + 10) as nat)
    } else {
        None
    }
}

/// The byte written by two characters; a plus sign may take the first place.
pub open spec fn hex_pair(a: char, b: char) -> Option<nat> {
    match hex_value(b) {
        None => None,
        Some(low) => if a == '+' {
            Some(low)
        } else {
            match hex_value(a) {
                None => None,
                Some(high) => Some(high * 16 + low),
            }
        },
    }
}

fn hex_digit(c: char) -> (r: Option<u8>)
    ensures
        r matches Some(v) ==> hex_value(c) == Some(v as nat) && v < 16,
        r is None ==> hex_value(c) is None,
{
    if '0' <= c && c <= '9' {
        Some((c as u32 - '0' as u32) as u8)
    } else if 'a' <= c && c <= 'f' {
        Some((c as u32 - 'a' as u32 + 10) as u8)
    } else if 'A' <= c && c <= 'F' {
        Some((c as u32 - 'A' as u32 + 10) as u8)
    } else {
        None
    }
}

fn hex_byte(a: char, b: char) -> (r: Option<u8>)
    ensures
        r matches Some(v) ==> hex_pair(a, b) == Some(v as nat),
        r is None ==> hex_pair(a, b) is None,
{
    match hex_digit(b) {
        None => None,
        Some(low) => if a == '+' {
            Some(low)
        } else {
            match hex_digit(a) {
                None => None,
                Some(high) => Some(high * 16 + low),
            }
        },
    }
}

/// Four channels that are all there.
pub open spec fn channels(
    r: Option<nat>,
    g: Option<nat>,
    b: Option<nat>,
    a: Option<nat>,
) -> Option<Color> {
    if r is Some && g is Some && b is Some && a is Some {
        Some((r->0 as u8, g->0 as u8, b->0 as u8, a->0 as u8))
    } else {
        None
    }
}

fn gather(r: Option<u8>, g: Option<u8>, b: Option<u8>, a: Option<u8>) -> (c: Option<Color>)
    ensures
        c == (if r is Some && g is Some && b is Some && a is Some {
            Some((r->0, g->0, b->0, a->0))
        } else {
            None
        }),
{
    match (r, g, b, a) {
        (Some(w), Some(x), Some(y), Some(z)) => Some((w, x, y, z)),
        _ => None,
    }
}

/// The color written behind a `#`.
pub open spec fn hex_color(h: Seq<char>) -> Option<Color> {
    if h.len() == 3 {
        channels(hex_pair(h[0], h[0]), hex_pair(h[1], h[1]), hex_pair(h[2], h[2]), Some(255))
    } else if h.len() == 4 {
        channels(
            hex_pair(h[0], h[0]),
            hex_pair(h[1], h[1]),
            hex_pair(h[2], h[2]),
            hex_pair(h[3], h[3]),
        )
    } else if h.len() == 6 {
        channels(hex_pair(h[0], h[1]), hex_pair(h[2], h[3]), hex_pair(h[4], h[5]), Some(255))
    } else if h.len() == 8 {
        channels(
            hex_pair(h[0], h[1]),
            hex_pair(h[2], h[3]),
            hex_pair(h[4], h[5]),
            hex_pair(h[6], h[7]),
        )
    } else {
        None
    }
}

fn parse_hex(h: &[char]) -> (r: Option<Color>)
    ensures
        r == hex_color(h@),
{
    let n: usize = h.len();
    if n == 3 {
        gather(hex_byte(h[0], h[0]), hex_byte(h[1], h[1]), hex_byte(h[2], h[2]), Some(255))
    } else if n == 4 {
        gather(
            hex_byte(h[0], h[0]),
            hex_byte(h[1], h[1]),
            hex_byte(h[2], h[2]),
            hex_byte(h[3], h[3]),
        )
    } else if n == 6 {
        gather(hex_byte(h[0], h[1]), hex_byte(h[2], h[3]), hex_byte(h[4], h[5]), Some(255))
    } else if n == 8 {
        gather(
            hex_byte(h[0], h[1]),
            hex_byte(h[2], h[3]),
            hex_byte(h[4], h[5]),
            hex_byte(h[6], h[7]),
        )
    } else {
        None
    }
}

/// The color written by a channel list.
pub open spec fn channel_color(inner: Seq<char>, has_alpha: bool) -> Option<Color> {
    let p = split_on(inner, ',');
    if has_alpha && p.len() == 4 {
        channels(
            unsigned_value(trimmed(p[0]), 255),
            unsigned_value(trimmed(p[1]), 255),
            unsigned_value(trimmed(p[2]), 255),
            alpha_text(trimmed(p[3])),
        )
    } else if !has_alpha && p.len() == 3 {
        channels(
            unsigned_value(trimmed(p[0]), 255),
            unsigned_value(trimmed(p[1]), 255),
            unsigned_value(trimmed(p[2]), 255),
            Some(255),
        )
    } else {
        None
    }
}

fn byte_channel(s: &[char]) -> (r: Option<u8>)
    ensures
        r matches Some(v) ==> unsigned_value(trimmed(s@), 255) == Some(v as nat),
        r is None ==> unsigned_value(trimmed(s@), 255) is None,
{
    match parse_unsigned(trim(s), 255) {
        Some(v) => Some(v as u8),
        None => None,
    }
}

fn parse_channels(inner: &[char], has_alpha: bool) -> (r: Option<Color>)
    ensures
        r == channel_color(inner@, has_alpha),
{
    let p = split_char(inner, ',');
    proof {
        assert(views(p@).len() == p@.len());
    }
    if has_alpha && p.len() == 4 {
        gather(
            byte_channel(p[0].as_slice()),
            byte_channel(p[1].as_slice()),
            byte_channel(p[2].as_slice()),
            alpha_channel(trim(p[3].as_slice())),
        )
    } else if !has_alpha && p.len() == 3 {
        gather(
            byte_channel(p[0].as_slice()),
            byte_channel(p[1].as_slice()),
            byte_channel(p[2].as_slice()),
            Some(255),
        )
    } else {
        None
    }
}

/// The text between `name` and a closing parenthesis.
pub open spec fn wrapped(s: Seq<char>, name: Seq<char>) -> Option<Seq<char>> {
    if has_prefix(s, name) && name.len() < s.len() && s.last() == ')' {
        Some(s.subrange(name.len() as int, s.len() - 1))
    } else {
        None
    }
}

fn unwrapped<'a>(s: &'a [char], name: &str) -> (r: Option<&'a [char]>)
    ensures
        r matches Some(x) ==> wrapped(s@, name@) == Some(x@),
        r is None ==> wrapped(s@, name@) is None,
{
    let l = chars_of(name);
    if l.len() < s.len() && s[s.len() - 1] == ')' && starts_with_str(s, name) {
        Some(slice_subrange(s, l.len(), s.len() - 1))
    } else {
        None
    }
}

/// The color that a text names.
pub open spec fn color_of(text: Seq<char>) -> Option<Color> {
    let s = trimmed(text);
    let low = lowered(s);
    if s.len() == 0 || low == "transparent"@ || low == "none"@ {
        Some(TRANSPARENT)
    } else if s[0] == '#' {
        hex_color(s.skip(1))
    } else if wrapped(low, "rgba("@) is Some {
        channel_color(wrapped(low, "rgba("@)->0, true)
    } else if wrapped(low, "rgb("@) is Some {
        channel_color(wrapped(low, "rgb("@)->0, false)
    } else {
        css_color(low)
    }
}

pub fn color_from(text: &[char]) -> (r: Option<Color>)
    ensures
        r == color_of(text@),
{
    let s = trim(text);
    let low = lower(s);
    let l = low.as_slice();
    if s.len() == 0 || eq_str(l, "transparent") || eq_str(l, "none") {
        return Some(TRANSPARENT);
    }
    if s[0] == '#' {
        let h = slice_subrange(s, 1, s.len());
        proof {
            assert(h@ =~= s@.skip(1));
        }
        return parse_hex(h);
    }
    match unwrapped(l, "rgba(") {
        Some(inner) => {
            return parse_channels(inner, true);
        },
        None => {},
    }
    match unwrapped(l, "rgb(") {
        Some(inner) => {
            return parse_channels(inner, false);
        },
        None => {},
    }
    find_css_color(l)
}

/// Parse a color text; nothing where it names no color.
pub fn parse_color_str(s: &str) -> (r: Option<Color>)
    ensures
        r == color_of(s@),
{
    let c = chars_of(s);
    color_from(c.as_slice())
}

/// A channel scaled by alpha, to the nearest value.
pub open spec fn premultiply(v: u8, a: u8) -> int {
    (v * a + 127) / 255
}

/// A color with its channels scaled by its alpha.
pub fn to_premultiplied(c: Color) -> (r: Color)
    ensures
        r.0 == premultiply(c.0, c.3),
        r.1 == premultiply(c.1, c.3),
        r.2 == premultiply(c.2, c.3),
        r.3 == c.3,
        r.0 <= r.3,
        r.1 <= r.3,
        r.2 <= r.3,
        c.3 == 255 ==> r == c,
        c.3 == 0 ==> r == TRANSPARENT,
{
    proof {
        lemma_premultiply(c.0, c.3);
        lemma_premultiply(c.1, c.3);
        lemma_premultiply(c.2, c.3);
    }
    let a: u32 = c.3 as u32;
    (
        ((c.0 as u32 * a + 127) / 255) as u8,
        ((c.1 as u32 * a + 127) / 255) as u8,
        ((c.2 as u32 * a + 127) / 255) as u8,
        c.3,
    )
}

/// A premultiplied channel never exceeds its alpha; full alpha keeps it.
pub proof fn lemma_premultiply(v: u8, a: u8)
    ensures
        0 <= premultiply(v, a) <= a,
        v * a <= 65025,
        a == 255 ==> premultiply(v, a) == v,
        a == 0 ==> premultiply(v, a) == 0,
{
    let x = v as int;
    let y = a as int;
    assert(0 <= x * y <= 255 * y) by (nonlinear_arith)
        requires
            0 <= x <= 255,
            0 <= y,
    ;
    if a == 255 {
        assert(x * y == x * 255);
        assert((x * 255 + 127) / 255 == x);
    }
    if a == 0 {
        assert(x * y == 0) by (nonlinear_arith)
            requires
                y == 0,
        ;
    }
}

/// The short form of a color is the long one with every digit doubled.
pub proof fn short_colors_double(r: char, g: char, b: char)
    ensures
        hex_color(seq![r, g, b]) == hex_color(seq![r, r, g, g, b, b]),
{
}

} // verus!
