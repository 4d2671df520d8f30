//! Evaluating expressions typed into the search line.
//!
//! A result is a double-precision number, held by its bits: sign, exponent and
//! fraction. Printing it is exact integer arithmetic on those.
use crate::entry::AppEntry;
use crate::math::{lemma_two_adds, lemma_two_mono, lemma_two_positive, two};
use crate::text::{
    append, append_str, chars_of, decimal, decimal_chars, decimal_int, digit_char, string_of,
    trim, trimmed, trimmed_end, trimmed_start, white,
};
use crate::theme::owned;
use vstd::prelude::*;

verus! {

// ---------------------------------------------------------------------------
// The parts of a number
// ---------------------------------------------------------------------------

pub open spec fn negative(bits: u64) -> bool {
    bits >= 9223372036854775808
}

/// The exponent field.
pub open spec fn exponent_field(bits: u64) -> int {
    bits as int / 4503599627370496 % 2048
}

/// The fraction field.
pub open spec fn fraction_field(bits: u64) -> int {
    bits as int % 4503599627370496
}

pub open spec fn not_a_number(bits: u64) -> bool {
    exponent_field(bits) == 2047 && fraction_field(bits) != 0
}

pub open spec fn infinite(bits: u64) -> bool {
    exponent_field(bits) == 2047 && fraction_field(bits) == 0
}

/// The significand of a finite number.
pub open spec fn significand(bits: u64) -> nat {
    if exponent_field(bits) == 0 {
        fraction_field(bits) as nat
    } else {
        (fraction_field(bits) + 4503599627370496) as nat
    }
}

/// A finite number is its significand times two to this power.
pub open spec fn power(bits: u64) -> int {
    if exponent_field(bits) == 0 {
        -1074
    } else {
        exponent_field(bits) - 1075
    }
}

// ---------------------------------------------------------------------------
// Printing
// ---------------------------------------------------------------------------

/// `n / d` rounded, halves away from zero.
pub open spec fn round_half_up(n: nat, d: nat) -> nat {
    if 2 * (n % d) >= d {
        n / d + 1
    } else {
        n / d
    }
}

/// `n / d` rounded, halves to the even neighbour.
pub open spec fn round_half_even(n: nat, d: nat) -> nat {
    let q = n / d;
    let r = n % d;
    if 2 * r > d || (2 * r == d && q % 2 == 1) {
        q + 1
    } else {
        q
    }
}

/// How far `n / d` is from its rounded value, times `d`.
pub open spec fn rounding_gap(n: nat, d: nat) -> nat {
    let r = n % d;
    if 2 * r >= d {
        (d - r) as nat
    } else {
        r
    }
}

/// The significand of the double-precision number nearest to `10^-10`, which is
/// this times `2^-86`.
pub const TOLERANCE: u64 = 7737125245533627;

/// `n / 2^k` is a whole number but for less than `10^-10`.
pub open spec fn nearly_whole(n: nat, k: nat) -> bool {
    rounding_gap(n, two(k)) * two(86) < TOLERANCE * two(k)
}

/// A whole number within the 64-bit range, the nearest end of it outside.
pub open spec fn saturated(v: int) -> int {
    if v > i64::MAX {
        i64::MAX as int
    } else if v < i64::MIN {
        i64::MIN as int
    } else {
        v
    }
}

/// The last `width` digits of a number, with zeros in front.
pub open spec fn padded(n: nat, width: nat) -> Seq<char>
    decreases width,
{
    if width == 0 {
        Seq::empty()
    } else {
        padded(n / 10, (width - 1) as nat).push(digit_char(n % 10))
    }
}

/// Without the given character at the back.
pub open spec fn without_trailing(s: Seq<char>, c: char) -> Seq<char>
    decreases s.len(),
{
    if s.len() > 0 && s.last() == c {
        without_trailing(s.drop_last(), c)
    } else {
        s
    }
}

/// `q / 10^10` with its decimals, trailing zeros dropped.
pub open spec fn decimals(neg: bool, q: nat) -> Seq<char> {
    let sign = if neg {
        seq!['-']
    } else {
        Seq::empty()
    };
    without_trailing(
        without_trailing(
            sign + decimal(q / 10000000000) + seq!['.'] + padded(q % 10000000000, 10),
            '0',
        ),
        '.',
    )
}

pub open spec fn signed(neg: bool, v: nat) -> int {
    if neg {
        -(v as int)
    } else {
        v as int
    }
}

/// A finite number as text: whole if it is nearly so, else with ten decimals
/// less the zeros at their end.
pub open spec fn finite_text(neg: bool, mant: nat, pow: int) -> Seq<char> {
    if pow >= 0 {
        decimal_int(saturated(signed(neg, mant * two(pow as nat))))
    } else {
        let k = (-pow) as nat;
        if nearly_whole(mant, k) {
            decimal_int(saturated(signed(neg, round_half_up(mant, two(k)))))
        } else {
            decimals(neg, round_half_even(mant * 10000000000, two(k)))
        }
    }
}

/// A number as text.
pub open spec fn number_shown(bits: u64) -> Seq<char> {
    if not_a_number(bits) {
        "NaN"@
    } else if infinite(bits) {
        if negative(bits) {
            "-∞"@
        } else {
            "∞"@
        }
    } else {
        finite_text(negative(bits), significand(bits), power(bits))
    }
}

fn padded_chars(n: u64, width: u64) -> (r: Vec<char>)
    ensures
        r@ == padded(n as nat, width as nat),
    decreases width,
{
    if width == 0 {
        let v: Vec<char> = Vec::new();
        proof {
            assert(v@ =~= Seq::empty());
        }
        v
    } else {
        let mut v = padded_chars(n / 10, width - 1);
        let d = decimal_chars((n % 10) as u128);
        proof {
            assert(d@ =~= seq![digit_char((n % 10) as nat)]);
        }
        v.push(d[0]);
        v
    }
}

fn cut_trailing(s: Vec<char>, c: char) -> (r: Vec<char>)
    ensures
        r@ == without_trailing(s@, c),
{
    let mut v = s;
    while v.len() > 0 && v[v.len() - 1] == c
        invariant
            without_trailing(s@, c) == without_trailing(v@, c),
        decreases v@.len(),
    {
        let ghost before = v@;
        v.pop();
        proof {
            assert(v@ =~= before.drop_last());
        }
    }
    v
}

fn show_decimals(neg: bool, q: u128) -> (r: String)
    ensures
        r@ == decimals(neg, q as nat),
{
    let mut t: Vec<char> = Vec::new();
    if neg {
        t.push('-');
    }
    let ghost sign = if neg {
        seq!['-']
    } else {
        Seq::empty()
    };
    proof {
        assert(t@ =~= sign);
    }
    let whole = decimal_chars(q / 10000000000);
    append(&mut t, whole.as_slice());
    t.push('.');
    let part: u64 = (q % 10000000000) as u64;
    let frac = padded_chars(part, 10);
    append(&mut t, frac.as_slice());
    proof {
        assert(t@ =~= sign + decimal(q as nat / 10000000000) + seq!['.'] + padded(
            q as nat % 10000000000,
            10,
        ));
    }
    let a = cut_trailing(t, '0');
    let b = cut_trailing(a, '.');
    string_of(b.as_slice())
}

fn show_int(neg: bool, magnitude: u128) -> (r: String)
    ensures
        r@ == decimal_int(saturated(signed(neg, magnitude as nat))),
{
    if neg && magnitude >= 9223372036854775808 {
        let mut t = chars_of("-");
        let d = decimal_chars(9223372036854775808);
        append(&mut t, d.as_slice());
        proof {
            reveal_strlit("-");
            assert(t@ =~= seq!['-'] + decimal(9223372036854775808));
        }
        string_of(t.as_slice())
    } else if !neg && magnitude > 9223372036854775807 {
        let d = decimal_chars(9223372036854775807);
        string_of(d.as_slice())
    } else {
        let v: i64 = if neg {
            (-(magnitude as i128)) as i64
        } else {
            magnitude as i64
        };
        crate::text::decimal_signed(v)
    }
}

proof fn lemma_125()
    ensures
        two(125) == 42535295865117307932921825928971026432,
{
    reveal_with_fuel(two, 64);
    lemma_two_adds(63, 62);
    assert(two(62) == 4611686018427387904);
    assert(two(63) == 9223372036854775808);
}

fn pow2(k: u64) -> (r: u128)
    requires
        k <= 126,
    ensures
        r == two(k as nat),
        r >= 1,
{
    let mut p: u128 = 1;
    let mut i: u64 = 0;
    while i < k
        invariant
            i <= k,
            k <= 126,
            p == two(i as nat),
            p >= 1,
        decreases k - i,
    {
        proof {
            lemma_two_mono(i as nat, 125);
            lemma_125();
        }
        p = 2 * p;
        i += 1;
    }
    p
}

proof fn lemma_86()
    ensures
        two(86) == 77371252455336267181195264,
        two(53) == 9007199254740992,
        two(52) == 4503599627370496,
{
    reveal_with_fuel(two, 60);
    lemma_two_adds(43, 43);
    assert(two(43) == 8796093022208);
}

/// A number far below one prints as zero.
proof fn lemma_tiny(mant: nat, k: nat)
    requires
        mant < 9007199254740992,
        k > 120,
    ensures
        nearly_whole(mant, k),
        round_half_up(mant, two(k)) == 0,
{
    lemma_86();
    lemma_two_mono(121, k);
    lemma_two_adds(35, 86);
    assert(two(35) == 34359738368) by {
        reveal_with_fuel(two, 40);
    }
    let d = two(k) as int;
    let m = mant as int;
    let p = two(86) as int;
    assert(d >= 34359738368 * p);
    assert(m < d && 2 * m < d) by (nonlinear_arith)
        requires
            m < 9007199254740992,
            d >= 34359738368 * p,
            p == 77371252455336267181195264,
    ;
    vstd::arithmetic::div_mod::lemma_small_mod(mant, two(k));
    vstd::arithmetic::div_mod::lemma_basic_div(m, d);
    assert(rounding_gap(mant, two(k)) == mant);
    assert(m * p < 7737125245533627 * d) by (nonlinear_arith)
        requires
            m < 9007199254740992,
            d >= 34359738368 * p,
            p > 0,
            m >= 0,
    ;
}

fn near(gap: u128, k: u64) -> (r: bool)
    requires
        1 <= k <= 120,
        2 * gap <= two(k as nat),
    ensures
        r == (gap * two(86) < TOLERANCE * two(k as nat)),
{
    if k <= 86 {
        let p: u128 = pow2(86 - k);
        proof {
            lemma_86();
            lemma_two_adds((86 - k) as nat, k as nat);
            let x = p as int;
            let y = two(k as nat) as int;
            let v = gap as int;
            assert(v * x * 2 <= x * y) by (nonlinear_arith)
                requires
                    2 * v <= y,
                    x >= 0,
            ;
            assert(v * (x * y) == (v * x) * y) by (nonlinear_arith);
            lemma_two_positive(k as nat);
            assert((v * x) * y < 7737125245533627 * y <==> v * x < 7737125245533627)
                by (nonlinear_arith)
                requires
                    y >= 1,
            ;
        }
        gap * p < TOLERANCE as u128
    } else {
        let p: u128 = pow2(k - 86);
        proof {
            lemma_86();
            lemma_two_adds((k - 86) as nat, 86);
            lemma_two_mono((k - 86) as nat, 34);
            assert(two(34) == 17179869184) by {
                reveal_with_fuel(two, 36);
            }
            let x = p as int;
            let y = two(86) as int;
            let v = gap as int;
            assert(7737125245533627 * (x * y) == (7737125245533627 * x) * y) by (nonlinear_arith);
            assert(v * y < (7737125245533627 * x) * y <==> v < 7737125245533627 * x)
                by (nonlinear_arith)
                requires
                    y >= 1,
            ;
        }
        gap < TOLERANCE as u128 * p
    }
}

fn show_finite(neg: bool, mant: u64, pow: i64) -> (r: String)
    requires
        mant < 9007199254740992,
        -1074 <= pow <= 971,
        pow >= 11 ==> mant >= 4503599627370496,
    ensures
        r@ == finite_text(neg, mant as nat, pow as int),
{
    if pow >= 11 {
        proof {
            lemma_two_mono(11, pow as nat);
            assert(two(11) == 2048) by {
                reveal_with_fuel(two, 13);
            }
            let m = mant as int;
            let p = two(pow as nat) as int;
            assert(m * p >= 9223372036854775808) by (nonlinear_arith)
                requires
                    m >= 4503599627370496,
                    p >= 2048,
            ;
        }
        return show_int(neg, 9223372036854775808);
    }
    if pow >= 0 {
        let p: u128 = pow2(pow as u64);
        proof {
            lemma_two_mono(pow as nat, 10);
            assert(two(10) == 1024) by {
                reveal_with_fuel(two, 12);
            }
            let m = mant as int;
            let q = p as int;
            assert(m * q <= 9007199254740992 * 1024) by (nonlinear_arith)
                requires
                    0 <= m <= 9007199254740992,
                    0 <= q <= 1024,
            ;
        }
        return show_int(neg, mant as u128 * p);
    }
    let k: u64 = (-pow) as u64;
    if k > 120 {
        proof {
            lemma_tiny(mant as nat, k as nat);
        }
        return show_int(neg, 0);
    }
    let d: u128 = pow2(k);
    let m: u128 = mant as u128;
    let whole: u128 = m / d;
    let rem: u128 = m % d;
    proof {
        lemma_two_mono(k as nat, 125);
        lemma_125();
        assert(whole <= m) by (nonlinear_arith)
            requires
                whole == m / d,
                d >= 1,
                m >= 0,
        ;
    }
    let up = 2 * rem >= d;
    let gap: u128 = if up {
        d - rem
    } else {
        rem
    };
    if near(gap, k) {
        let v: u128 = if up {
            whole + 1
        } else {
            whole
        };
        return show_int(neg, v);
    }
    let scaled: u128 = m * 10000000000;
    let q: u128 = scaled / d;
    let r: u128 = scaled % d;
    proof {
        assert(q <= scaled) by (nonlinear_arith)
            requires
                q == scaled / d,
                d >= 1,
                scaled >= 0,
        ;
    }
    let v: u128 = if 2 * r > d || (2 * r == d && q % 2 == 1) {
        q + 1
    } else {
        q
    };
    show_decimals(neg, v)
}

/// Print a number given by its bits.
pub fn format_result(bits: u64) -> (r: String)
    ensures
        r@ == number_shown(bits),
{
    let neg = bits >= 9223372036854775808;
    let exp: u64 = bits / 4503599627370496 % 2048;
    let frac: u64 = bits % 4503599627370496;
    if exp == 2047 {
        if frac != 0 {
            return owned("NaN");
        }
        if neg {
            return owned("-∞");
        }
        return owned("∞");
    }
    if exp == 0 {
        show_finite(neg, frac, -1074)
    } else {
        show_finite(neg, frac + 4503599627370496, exp as i64 - 1075)
    }
}

// ---------------------------------------------------------------------------
// Evaluation
// ---------------------------------------------------------------------------

/// Spaces, tabs and line ends: what the expression parser skips.
pub open spec fn parser_space(c: char) -> bool {
    c == ' ' || c == '\t' || c == '\r' || c == '\n'
}

/// An expression that is not made of skipped characters alone.
pub open spec fn has_content(s: Seq<char>) -> bool {
    s.len() == 0 || exists|i: int| 0 <= i < s.len() && !parser_space(#[trigger] s[i])
}

/// The expression evaluator may give an expression this outcome: the bits of a
/// number, or the text of an error.
pub uninterp spec fn meval_gives(expr: Seq<char>, outcome: Result<u64, Seq<char>>) -> bool;

/// A result with its message as characters.
pub open spec fn outcome_of(r: Result<u64, String>) -> Result<u64, Seq<char>> {
    match r {
        Ok(bits) => Ok(bits),
        Err(e) => Err(e@),
    }
}

/// `meval::eval_str`, its number taken by its bits and its error by its text.
/// The outcome is one that the expression may have; two calls need not agree,
/// for functions such as `sin` are only as exact as the machine makes them. The
/// parser panics on a text that is blank but not empty.
#[verifier::external_body]
fn eval_bits(expr: &str) -> (r: Result<u64, String>)
    requires
        has_content(expr@),
    ensures
        meval_gives(expr@, outcome_of(r)),
{
    meval::eval_str(expr).map(|v| v.to_bits()).map_err(|e| e.to_string())
}

/// An outcome as it is shown: failures say what is wrong.
pub open spec fn explained(o: Result<u64, Seq<char>>) -> Result<u64, Seq<char>> {
    match o {
        Ok(bits) => Ok(bits),
        Err(m) => Err("Invalid expression: "@ + m),
    }
}

/// The row for an evaluated query.
pub open spec fn is_calc_row(
    e: AppEntry,
    query: Seq<char>,
    outcome: Result<u64, Seq<char>>,
) -> bool {
    &&& e.id@.len() == 0
    &&& e.search_text@ == e.name@
    &&& e.bare(crate::entry::AppMode::Calc)
    &&& match outcome {
        Ok(bits) => e.name@ == query + " = "@ + number_shown(bits) && e.command@
            == number_shown(bits),
        Err(msg) => e.name@ == "Error: "@ + msg && e.command@.len() == 0,
    }
}

/// The row that invites to type.
pub open spec fn is_prompt_row(e: AppEntry) -> bool {
    &&& e.id@.len() == 0
    &&& e.command@ == "Enter a math expression…"@
    &&& e.name@ == ""@ + " = "@ + "Enter a math expression…"@
    &&& e.search_text@ == e.name@
    &&& e.bare(crate::entry::AppMode::Calc)
}

/// The rows for a query: an invitation while it is blank, else one that the
/// evaluator may give.
pub open spec fn are_calc_rows(v: Seq<AppEntry>, query: Seq<char>) -> bool {
    &&& v.len() == 1
    &&& if trimmed(query).len() == 0 {
        is_prompt_row(v[0])
    } else {
        exists|o: Result<u64, Seq<char>>|
            #[trigger] meval_gives(trimmed(query), o) && is_calc_row(v[0], trimmed(query), explained(o))
    }
}

/// The calculator.
#[derive(Debug, Clone, Copy)]
pub struct CalcMode;

impl CalcMode {
    pub fn new() -> (r: CalcMode)
        ensures
            r == CalcMode,
    {
        CalcMode
    }

    /// Evaluate an expression: the bits of its number, or why it has none.
    pub fn evaluate(expr: &str) -> (r: Result<u64, String>)
        requires
            has_content(expr@),
        ensures
            exists|o: Result<u64, Seq<char>>|
                #[trigger] meval_gives(expr@, o) && outcome_of(r) == explained(o),
    {
        let given = eval_bits(expr);
        let ghost o = outcome_of(given);
        let r = match given {
            Ok(bits) => Ok(bits),
            Err(m) => {
                let mut t = chars_of("Invalid expression: ");
                append_str(&mut t, m.as_str());
                Err(string_of(t.as_slice()))
            },
        };
        proof {
            assert(meval_gives(expr@, o) && outcome_of(r) == explained(o));
        }
        r
    }

    /// The rows for a query whose evaluation came out as given.
    pub fn show(query: &str, outcome: Result<u64, String>) -> (r: Vec<AppEntry>)
        ensures
            r@.len() == 1,
            is_calc_row(r@[0], query@, outcome_of(outcome)),
    {
        let e = match outcome {
            Ok(bits) => AppEntry::calc_result(owned(query), format_result(bits)),
            Err(m) => AppEntry::calc_error(m),
        };
        let mut v: Vec<AppEntry> = Vec::new();
        v.push(e);
        v
    }

    /// The rows for a query: an invitation while it is blank, else its result.
    pub fn rows(query: &str) -> (r: Vec<AppEntry>)
        ensures
            are_calc_rows(r@, query@),
    {
        let c = chars_of(query);
        let q = trim(c.as_slice());
        if q.len() == 0 {
            let e = AppEntry::calc_result(owned(""), owned("Enter a math expression…"));
            let mut v: Vec<AppEntry> = Vec::new();
            v.push(e);
            return v;
        }
        let text = string_of(q);
        proof {
            lemma_trimmed_content(query@);
        }
        let outcome = CalcMode::evaluate(text.as_str());
        CalcMode::show(text.as_str(), outcome)
    }
}

proof fn lemma_trimmed_content(s: Seq<char>)
    ensures
        has_content(trimmed(s)),
{
    let t = trimmed(s);
    if t.len() > 0 {
        lemma_trimmed_end_last(trimmed_start(s));
        let i = t.len() - 1;
        assert(!white(t[i]));
        assert(!parser_space(t[i]));
    }
}

proof fn lemma_trimmed_end_last(s: Seq<char>)
    ensures
        trimmed_end(s).len() > 0 ==> !white(trimmed_end(s).last()),
    decreases s.len(),
{
    if s.len() > 0 && white(s.last()) {
        lemma_trimmed_end_last(s.drop_last());
    }
}

// ---------------------------------------------------------------------------
// The clipboard
// ---------------------------------------------------------------------------

/// A text made safe inside single quotes of a shell.
pub open spec fn escaped(s: Seq<char>) -> Seq<char>
    decreases s.len(),
{
    if s.len() == 0 {
        Seq::empty()
    } else if s.last() == '\'' {
        escaped(s.drop_last()) + seq!['\'', '\\', '\'', '\'']
    } else {
        escaped(s.drop_last()).push(s.last())
    }
}

pub fn shell_escape(s: &str) -> (r: String)
    ensures
        r@ == escaped(s@),
{
    let c = chars_of(s);
    let mut out: Vec<char> = Vec::new();
    let mut i: usize = 0;
    proof {
        assert(c@.take(0) =~= Seq::empty());
    }
    while i < c.len()
        invariant
            i <= c@.len(),
            c@ == s@,
            out@ == escaped(c@.take(i as int)),
        decreases c@.len() - i,
    {
        proof {
            assert(c@.take(i + 1).drop_last() =~= c@.take(i as int));
        }
        if c[i] == '\'' {
            let ghost before = out@;
            out.push('\'');
            out.push('\\');
            out.push('\'');
            out.push('\'');
            proof {
                assert(out@ =~= before + seq!['\'', '\\', '\'', '\'']);
            }
        } else {
            out.push(c[i]);
        }
        i += 1;
    }
    proof {
        assert(c@.take(c@.len() as int) =~= c@);
    }
    string_of(out.as_slice())
}

/// A text without single quotes needs no escape.
pub proof fn quoteless_text_stays(s: Seq<char>)
    requires
        !s.contains('\''),
    ensures
        escaped(s) == s,
    decreases s.len(),
{
    if s.len() > 0 {
        let d = s.drop_last();
        assert(s.last() != '\'') by {
            if s.last() == '\'' {
                assert(s[s.len() - 1] == '\'');
                assert(s.contains('\''));
            }
        }
        assert(!d.contains('\'')) by {
            if d.contains('\'') {
                let j = choose|j: int| 0 <= j < d.len() && d[j] == '\'';
                assert(s[j] == '\'');
            }
        }
        quoteless_text_stays(d);
        assert(d.push(s.last()) =~= s);
    } else {
        assert(s =~= Seq::empty());
    }
}

/// What copies a text: `wl-copy` if it is there, else `xclip`.
pub open spec fn copy_line(text: Seq<char>, wl_copy: bool, xclip: bool) -> Option<Seq<char>> {
    if wl_copy {
        Some("printf '%s' '"@ + escaped(text) + "' | wl-copy"@)
    } else if xclip {
        Some("printf '%s' '"@ + escaped(text) + "' | xclip -selection clipboard"@)
    } else {
        None
    }
}

/// The shell command that copies a text, if one of the tools is there.
pub fn copy_shell_line(text: &str, wl_copy: bool, xclip: bool) -> (r: Option<String>)
    ensures
        crate::node::opt_view(r) == copy_line(text@, wl_copy, xclip),
{
    if !(wl_copy || xclip) {
        return None;
    }
    let e = shell_escape(text);
    let mut t = chars_of("printf '%s' '");
    append_str(&mut t, e.as_str());
    if wl_copy {
        append_str(&mut t, "' | wl-copy");
    } else {
        append_str(&mut t, "' | xclip -selection clipboard");
    }
    Some(string_of(t.as_slice()))
}

/// What copies a result; an empty one is not copied.
pub open spec fn copy_command(text: Seq<char>, wl_copy: bool, xclip: bool) -> Option<Seq<char>> {
    if text.len() == 0 {
        None
    } else {
        copy_line(text, wl_copy, xclip)
    }
}

/// The shell command that copies a result, unless it is empty.
pub fn clipboard_command(text: &str, wl_copy: bool, xclip: bool) -> (r: Option<String>)
    ensures
        crate::node::opt_view(r) == copy_command(text@, wl_copy, xclip),
{
    let c = chars_of(text);
    if c.len() == 0 {
        return None;
    }
    copy_shell_line(text, wl_copy, xclip)
}

} // verus!
