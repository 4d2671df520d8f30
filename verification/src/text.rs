//! Text as sequences of characters: trimming, splitting, comparing, numerals.
//!
//! Every parser of the crate works on `&[char]`; strings are converted once at
//! the edge with [`chars_of`] and [`string_of`].
use unicode_segmentation::UnicodeSegmentation;
use vstd::prelude::*;
use vstd::slice::slice_subrange;
use vstd::string::StringExecFns;

verus! {

/// `String::push` appends the given character to the end of the string.
pub assume_specification[ String::push ](s: &mut String, c: char)
    ensures
        final(s)@ == old(s)@.push(c),
;

/// The characters of an optional string, or a default.
pub open spec fn or_default(o: Option<String>, default: Seq<char>) -> Seq<char> {
    match o {
        Some(s) => s@,
        None => default,
    }
}

/// The characters of a string, in order.
pub fn chars_of(s: &str) -> (r: Vec<char>)
    ensures
        r@ == s@,
{
    let mut out: Vec<char> = Vec::new();
    for c in it: s.chars()
        invariant
            it.seq() == s@,
            out@ == s@.take(it.index()),
    {
        out.push(c);
    }
    proof {
        assert(s@.take(s@.len() as int) =~= s@);
    }
    out
}

/// The string made of the given characters.
pub fn string_of(s: &[char]) -> (r: String)
    ensures
        r@ == s@,
{
    let mut out = String::new();
    let n: usize = s.len();
    let mut i: usize = 0;
    while i < n
        invariant
            n == s@.len(),
            i <= n,
            out@ == s@.take(i as int),
        decreases n - i,
    {
        out.push(s[i]);
        i += 1;
        proof {
            assert(s@.take(i as int) =~= s@.take(i - 1).push(s@[i - 1]));
        }
    }
    proof {
        assert(s@.take(n as int) =~= s@);
    }
    out
}

/// The characters with the Unicode `White_Space` property.
pub open spec fn white(c: char) -> bool {
    ||| '\u{9}' <= c <= '\u{d}'
    ||| c == ' '
    ||| c == '\u{85}'
    ||| c == '\u{a0}'
    ||| c == '\u{1680}'
    ||| '\u{2000}' <= c <= '\u{200a}'
    ||| c == '\u{2028}'
    ||| c == '\u{2029}'
    ||| c == '\u{202f}'
    ||| c == '\u{205f}'
    ||| c == '\u{3000}'
}

pub fn is_white(c: char) -> (r: bool)
    ensures
        r == white(c),
{
    ('\u{9}' <= c && c <= '\u{d}') || c == ' ' || c == '\u{85}' || c == '\u{a0}' || c == '\u{1680}'
        || ('\u{2000}' <= c && c <= '\u{200a}') || c == '\u{2028}' || c == '\u{2029}'
        || c == '\u{202f}' || c == '\u{205f}' || c == '\u{3000}'
}

/// Without the white space at its front.
pub open spec fn trimmed_start(s: Seq<char>) -> Seq<char>
    decreases s.len(),
{
    if s.len() > 0 && white(s[0]) {
        trimmed_start(s.skip(1))
    } else {
        s
    }
}

/// Without the white space at its back.
pub open spec fn trimmed_end(s: Seq<char>) -> Seq<char>
    decreases s.len(),
{
    if s.len() > 0 && white(s.last()) {
        trimmed_end(s.drop_last())
    } else {
        s
    }
}

/// Without the white space at either end.
pub open spec fn trimmed(s: Seq<char>) -> Seq<char> {
    trimmed_end(trimmed_start(s))
}

pub fn trim_start(s: &[char]) -> (r: &[char])
    ensures
        r@ == trimmed_start(s@),
        r@.len() <= s@.len(),
{
    let n: usize = s.len();
    let mut i: usize = 0;
    proof {
        assert(s@.skip(0) =~= s@);
    }
    while i < n && is_white(s[i])
        invariant
            n == s@.len(),
            i <= n,
            trimmed_start(s@) == trimmed_start(s@.skip(i as int)),
        decreases n - i,
    {
        i += 1;
        proof {
            assert(s@.skip(i - 1).skip(1) =~= s@.skip(i as int));
        }
    }
    slice_subrange(s, i, n)
}

pub fn trim_end(s: &[char]) -> (r: &[char])
    ensures
        r@ == trimmed_end(s@),
        r@.len() <= s@.len(),
{
    let mut n: usize = s.len();
    proof {
        assert(s@.take(n as int) =~= s@);
    }
    while n > 0 && is_white(s[n - 1])
        invariant
            n <= s@.len(),
            trimmed_end(s@) == trimmed_end(s@.take(n as int)),
        decreases n,
    {
        n -= 1;
        proof {
            assert(s@.take(n + 1).drop_last() =~= s@.take(n as int));
        }
    }
    slice_subrange(s, 0, n)
}

pub fn trim(s: &[char]) -> (r: &[char])
    ensures
        r@ == trimmed(s@),
        r@.len() <= s@.len(),
{
    trim_end(trim_start(s))
}

pub fn eq_chars(a: &[char], b: &[char]) -> (r: bool)
    ensures
        r == (a@ == b@),
{
    if a.len() != b.len() {
        return false;
    }
    let n: usize = a.len();
    let mut i: usize = 0;
    while i < n
        invariant
            n == a@.len(),
            n == b@.len(),
            i <= n,
            a@.take(i as int) == b@.take(i as int),
        decreases n - i,
    {
        if a[i] != b[i] {
            return false;
        }
        i += 1;
        proof {
            assert(a@.take(i as int) =~= a@.take(i - 1).push(a@[i - 1]));
            assert(b@.take(i as int) =~= b@.take(i - 1).push(b@[i - 1]));
        }
    }
    proof {
        assert(a@.take(n as int) =~= a@);
        assert(b@.take(n as int) =~= b@);
    }
    true
}

/// Whether the characters are those of `lit`.
pub fn eq_str(a: &[char], lit: &str) -> (r: bool)
    ensures
        r == (a@ == lit@),
{
    let l = chars_of(lit);
    eq_chars(a, l.as_slice())
}

/// Whether two strings hold the same characters.
pub fn same_str(a: &str, b: &str) -> (r: bool)
    ensures
        r == (a@ == b@),
{
    let x = chars_of(a);
    eq_str(x.as_slice(), b)
}

/// `p` stands at the front of `s`.
pub open spec fn has_prefix(s: Seq<char>, p: Seq<char>) -> bool {
    p.len() <= s.len() && s.take(p.len() as int) == p
}

/// `p` stands at the back of `s`.
pub open spec fn has_suffix(s: Seq<char>, p: Seq<char>) -> bool {
    p.len() <= s.len() && s.skip(s.len() - p.len()) == p
}

pub fn starts_with(s: &[char], p: &[char]) -> (r: bool)
    ensures
        r == has_prefix(s@, p@),
{
    if p.len() > s.len() {
        return false;
    }
    eq_chars(slice_subrange(s, 0, p.len()), p)
}

pub fn starts_with_str(s: &[char], p: &str) -> (r: bool)
    ensures
        r == has_prefix(s@, p@),
{
    let l = chars_of(p);
    starts_with(s, l.as_slice())
}

pub fn ends_with_str(s: &[char], p: &str) -> (r: bool)
    ensures
        r == has_suffix(s@, p@),
{
    let l = chars_of(p);
    if l.len() > s.len() {
        return false;
    }
    eq_chars(slice_subrange(s, s.len() - l.len(), s.len()), l.as_slice())
}

/// The first position of `c`, or the length when it does not occur.
pub open spec fn index_or_len(s: Seq<char>, c: char) -> nat
    decreases s.len(),
{
    if s.len() == 0 {
        0
    } else if s[0] == c {
        0
    } else {
        1 + index_or_len(s.skip(1), c)
    }
}

pub proof fn lemma_index_or_len(s: Seq<char>, c: char)
    ensures
        index_or_len(s, c) <= s.len(),
        index_or_len(s, c) < s.len() ==> s[index_or_len(s, c) as int] == c,
        index_or_len(s, c) < s.len() <==> s.contains(c),
        forall|i: int| 0 <= i < index_or_len(s, c) ==> s[i] != c,
    decreases s.len(),
{
    if s.len() > 0 && s[0] != c {
        lemma_index_or_len(s.skip(1), c);
        let k = index_or_len(s.skip(1), c);
        assert forall|i: int| 0 <= i < index_or_len(s, c) implies s[i] != c by {
            if i > 0 {
                assert(s.skip(1)[i - 1] == s[i]);
            }
        }
        if s.contains(c) {
            let j = choose|j: int| 0 <= j < s.len() && s[j] == c;
            assert(s.skip(1)[j - 1] == c);
        }
        if s.skip(1).contains(c) {
            let j = choose|j: int| 0 <= j < s.skip(1).len() && s.skip(1)[j] == c;
            assert(s[j + 1] == c);
        }
    }
}

pub fn find_char(s: &[char], c: char) -> (r: usize)
    ensures
        r == index_or_len(s@, c),
        r <= s@.len(),
        r < s@.len() <==> s@.contains(c),
{
    let n: usize = s.len();
    let mut i: usize = 0;
    proof {
        assert(s@.skip(0) =~= s@);
    }
    while i < n && s[i] != c
        invariant
            n == s@.len(),
            i <= n,
            index_or_len(s@, c) == i + index_or_len(s@.skip(i as int), c),
        decreases n - i,
    {
        i += 1;
        proof {
            assert(s@.skip(i - 1).skip(1) =~= s@.skip(i as int));
        }
    }
    proof {
        lemma_index_or_len(s@, c);
    }
    i
}

/// The pieces of `s` between the occurrences of `c`; always at least one.
pub open spec fn split_on(s: Seq<char>, c: char) -> Seq<Seq<char>>
    decreases s.len(),
{
    let k = index_or_len(s, c);
    if k >= s.len() {
        seq![s]
    } else {
        seq![s.take(k as int)] + split_on(s.skip(k as int + 1), c)
    }
}

pub open spec fn views(v: Seq<Vec<char>>) -> Seq<Seq<char>> {
    Seq::new(v.len(), |i: int| v[i]@)
}

pub open spec fn texts(v: Seq<String>) -> Seq<Seq<char>> {
    Seq::new(v.len(), |i: int| v[i]@)
}

pub fn to_vec(s: &[char]) -> (r: Vec<char>)
    ensures
        r@ == s@,
{
    let mut out: Vec<char> = Vec::new();
    let n: usize = s.len();
    let mut i: usize = 0;
    while i < n
        invariant
            n == s@.len(),
            i <= n,
            out@ == s@.take(i as int),
        decreases n - i,
    {
        out.push(s[i]);
        i += 1;
        proof {
            assert(s@.take(i as int) =~= s@.take(i - 1).push(s@[i - 1]));
        }
    }
    proof {
        assert(s@.take(n as int) =~= s@);
    }
    out
}

pub fn split_char(s: &[char], c: char) -> (r: Vec<Vec<char>>)
    ensures
        views(r@) == split_on(s@, c),
        r@.len() >= 1,
{
    let n: usize = s.len();
    let mut out: Vec<Vec<char>> = Vec::new();
    let mut from: usize = 0;
    proof {
        assert(s@.skip(0) =~= s@);
        assert(views(out@) + split_on(s@, c) =~= split_on(s@, c));
    }
    loop
        invariant
            n == s@.len(),
            from <= n,
            views(out@) + split_on(s@.skip(from as int), c) == split_on(s@, c),
        decreases n - from,
    {
        let rest = slice_subrange(s, from, n);
        proof {
            assert(rest@ =~= s@.skip(from as int));
            lemma_index_or_len(rest@, c);
        }
        let k: usize = find_char(rest, c);
        if k >= rest.len() {
            let ghost before = out@;
            out.push(to_vec(rest));
            proof {
                assert(views(out@) =~= views(before) + seq![rest@]);
            }
            return out;
        }
        let ghost before = out@;
        let piece = to_vec(slice_subrange(rest, 0, k));
        out.push(piece);
        proof {
            assert(rest@.subrange(0, k as int) =~= rest@.take(k as int));
            assert(rest@.skip(k as int + 1) =~= s@.skip(from + k + 1));
            assert(views(out@) =~= views(before).push(rest@.take(k as int)));
            assert(views(out@) + split_on(s@.skip(from + k + 1), c)
                =~= views(before) + split_on(rest@, c));
        }
        from = from + k + 1;
    }
}

/// The strings with `sep` between neighbours.
pub open spec fn joined(parts: Seq<Seq<char>>, sep: Seq<char>) -> Seq<char>
    decreases parts.len(),
{
    if parts.len() == 0 {
        Seq::empty()
    } else if parts.len() == 1 {
        parts[0]
    } else {
        joined(parts.drop_last(), sep) + sep + parts.last()
    }
}

pub fn append(out: &mut Vec<char>, s: &[char])
    ensures
        final(out)@ == old(out)@ + s@,
{
    let n: usize = s.len();
    let mut i: usize = 0;
    let ghost start = out@;
    while i < n
        invariant
            n == s@.len(),
            i <= n,
            start == old(out)@,
            out@ == start + s@.take(i as int),
        decreases n - i,
    {
        out.push(s[i]);
        i += 1;
        proof {
            assert(s@.take(i as int) =~= s@.take(i - 1).push(s@[i - 1]));
            assert(start + s@.take(i as int) =~= (start + s@.take(i - 1)).push(s@[i - 1]));
        }
    }
    proof {
        assert(s@.take(n as int) =~= s@);
    }
}

pub fn append_str(out: &mut Vec<char>, s: &str)
    ensures
        final(out)@ == old(out)@ + s@,
{
    let l = chars_of(s);
    append(out, l.as_slice());
}

pub fn join(parts: &Vec<Vec<char>>, sep: &str) -> (r: Vec<char>)
    ensures
        r@ == joined(views(parts@), sep@),
{
    let mut out: Vec<char> = Vec::new();
    let mut i: usize = 0;
    while i < parts.len()
        invariant
            i <= parts@.len(),
            out@ == joined(views(parts@).take(i as int), sep@),
        decreases parts@.len() - i,
    {
        proof {
            let v = views(parts@).take(i as int + 1);
            assert(v.drop_last() =~= views(parts@).take(i as int));
            assert(v.last() == parts@[i as int]@);
        }
        let ghost o0 = out@;
        if i > 0 {
            append_str(&mut out, sep);
        }
        append(&mut out, parts[i].as_slice());
        proof {
            if i == 0 {
                assert(out@ =~= parts@[0]@);
            }
        }
        i += 1;
    }
    proof {
        assert(views(parts@).take(parts@.len() as int) =~= views(parts@));
    }
    out
}

/// The decimal numeral of `n`.
pub open spec fn decimal(n: nat) -> Seq<char>
    decreases n,
{
    if n < 10 {
        seq![digit_char(n)]
    } else {
        decimal(n / 10).push(digit_char(n % 10))
    }
}

pub open spec fn digit_char(d: nat) -> char {
    if d == 0 {
        '0'
    } else if d == 1 {
        '1'
    } else if d == 2 {
        '2'
    } else if d == 3 {
        '3'
    } else if d == 4 {
        '4'
    } else if d == 5 {
        '5'
    } else if d == 6 {
        '6'
    } else if d == 7 {
        '7'
    } else if d == 8 {
        '8'
    } else {
        '9'
    }
}

/// The numeral of an integer, with a minus sign in front of a negative one.
pub open spec fn decimal_int(n: int) -> Seq<char> {
    if n < 0 {
        seq!['-'] + decimal((-n) as nat)
    } else {
        decimal(n as nat)
    }
}

fn digit_of(d: u128) -> (r: char)
    requires
        d < 10,
    ensures
        r == digit_char(d as nat),
{
    match d {
        0 => '0',
        1 => '1',
        2 => '2',
        3 => '3',
        4 => '4',
        5 => '5',
        6 => '6',
        7 => '7',
        8 => '8',
        _ => '9',
    }
}

pub fn decimal_chars(n: u128) -> (r: Vec<char>)
    ensures
        r@ == decimal(n as nat),
    decreases n,
{
    if n < 10 {
        let mut v: Vec<char> = Vec::new();
        v.push(digit_of(n));
        proof {
            assert(v@ =~= seq![digit_char(n as nat)]);
        }
        v
    } else {
        let mut v = decimal_chars(n / 10);
        v.push(digit_of(n % 10));
        v
    }
}

pub fn decimal_signed(n: i64) -> (r: String)
    ensures
        r@ == decimal_int(n as int),
{
    let mut v: Vec<char> = Vec::new();
    if n < 0 {
        v.push('-');
        let m: i128 = -(n as i128);
        let d = decimal_chars(m as u128);
        append(&mut v, d.as_slice());
        proof {
            assert(v@ =~= seq!['-'] + decimal((-n) as nat));
        }
    } else {
        let d = decimal_chars(n as u128);
        append(&mut v, d.as_slice());
        proof {
            assert(v@ =~= decimal(n as nat));
        }
    }
    string_of(v.as_slice())
}

/// `a` comes before `b` in code point order, as strings compare.
pub open spec fn lex_less(a: Seq<char>, b: Seq<char>) -> bool
    decreases a.len(),
{
    if b.len() == 0 {
        false
    } else if a.len() == 0 {
        true
    } else {
        a[0] < b[0] || (a[0] == b[0] && lex_less(a.skip(1), b.skip(1)))
    }
}

/// Texts are ordered linearly: exactly one of before, same and behind holds.
pub proof fn lex_is_linear(a: Seq<char>, b: Seq<char>)
    ensures
        lex_less(a, b) ==> !lex_less(b, a),
        lex_less(a, b) ==> a != b,
        a != b ==> lex_less(a, b) || lex_less(b, a),
    decreases a.len(),
{
    if a.len() > 0 && b.len() > 0 {
        if a[0] == b[0] {
            lex_is_linear(a.skip(1), b.skip(1));
            if a.skip(1) == b.skip(1) {
                assert(a =~= seq![a[0]] + a.skip(1));
                assert(b =~= seq![b[0]] + b.skip(1));
            }
        }
    } else if a.len() == 0 && b.len() == 0 {
        assert(a =~= b);
    }
}

pub fn less(a: &[char], b: &[char]) -> (r: bool)
    ensures
        r == lex_less(a@, b@),
{
    let mut i: usize = 0;
    proof {
        assert(a@.skip(0) =~= a@);
        assert(b@.skip(0) =~= b@);
    }
    while i < a.len() && i < b.len()
        invariant
            i <= a@.len(),
            i <= b@.len(),
            lex_less(a@, b@) == lex_less(a@.skip(i as int), b@.skip(i as int)),
        decreases a@.len() - i,
    {
        if a[i] < b[i] {
            return true;
        }
        if b[i] < a[i] {
            return false;
        }
        i += 1;
        proof {
            assert(a@.skip(i - 1).skip(1) =~= a@.skip(i as int));
            assert(b@.skip(i - 1).skip(1) =~= b@.skip(i as int));
        }
    }
    i < b.len()
}

/// The value of a digit character.
pub open spec fn digit_value(c: char) -> nat {
    if '0' <= c <= '9' {
        (c as u32 - '0' as u32) as nat
    } else {
        0
    }
}

/// The number written by a run of digits.
pub open spec fn digits_value(s: Seq<char>) -> nat
    decreases s.len(),
{
    if s.len() == 0 {
        0
    } else {
        digits_value(s.drop_last()) * 10 + digit_value(s.last())
    }
}

pub open spec fn all_digits(s: Seq<char>) -> bool {
    forall|i: int| 0 <= i < s.len() ==> '0' <= #[trigger] s[i] <= '9'
}

/// The number written by `s`, an optional plus sign and digits, if it is at most `max`.
pub open spec fn unsigned_value(s: Seq<char>, max: nat) -> Option<nat> {
    let d = if s.len() > 0 && s[0] == '+' {
        s.skip(1)
    } else {
        s
    };
    if d.len() > 0 && all_digits(d) && digits_value(d) <= max {
        Some(digits_value(d))
    } else {
        None
    }
}

pub proof fn lemma_digits_grow(s: Seq<char>, i: int)
    requires
        0 <= i <= s.len(),
    ensures
        digits_value(s.take(i)) <= digits_value(s),
    decreases s.len() - i,
{
    if i < s.len() {
        lemma_digits_grow(s, i + 1);
        assert(s.take(i + 1).drop_last() =~= s.take(i));
    } else {
        assert(s.take(i) =~= s);
    }
}

pub fn parse_unsigned(s: &[char], max: u64) -> (r: Option<u64>)
    ensures
        r matches Some(v) ==> unsigned_value(s@, max as nat) == Some(v as nat),
        r is None ==> unsigned_value(s@, max as nat) is None,
{
    let n: usize = s.len();
    let from: usize = if n > 0 && s[0] == '+' {
        1
    } else {
        0
    };
    let d = slice_subrange(s, from, n);
    proof {
        if from == 0 {
            assert(d@ =~= s@);
        } else {
            assert(d@ =~= s@.skip(1));
        }
    }
    if d.len() == 0 {
        return None;
    }
    let mut acc: u128 = 0;
    let mut over = false;
    let mut i: usize = 0;
    proof {
        assert(d@.take(0) =~= Seq::<char>::empty());
    }
    while i < d.len()
        invariant
            i <= d@.len(),
            all_digits(d@.take(i as int)),
            !over ==> acc == digits_value(d@.take(i as int)) && acc <= max,
            over ==> digits_value(d@.take(i as int)) > max,
            d@.len() > 0,
            d@ == if s@.len() > 0 && s@[0] == '+' {
                s@.skip(1)
            } else {
                s@
            },
        decreases d@.len() - i,
    {
        let c = d[i];
        proof {
            assert(d@.take(i + 1).drop_last() =~= d@.take(i as int));
        }
        if !('0' <= c && c <= '9') {
            proof {
                assert(!all_digits(d@)) by {
                    assert(d@[i as int] == c);
                }
            }
            return None;
        }
        let v: u128 = (c as u32 - '0' as u32) as u128;
        if !over {
            acc = acc * 10 + v;
            if acc > max as u128 {
                over = true;
            }
        }
        proof {
            assert forall|k: int| 0 <= k < i + 1 implies '0' <= #[trigger] d@.take(i + 1)[k] <= '9' by {
                if k < i {
                    assert(d@.take(i as int)[k] == d@.take(i + 1)[k]);
                }
            }
        }
        i += 1;
    }
    proof {
        assert(d@.take(d@.len() as int) =~= d@);
    }
    if over {
        None
    } else {
        Some(acc as u64)
    }
}

/// The uppercase equivalent of a text, by the Unicode derived property.
pub uninterp spec fn upper_of(s: Seq<char>) -> Seq<char>;

/// The lowercase equivalent of a text, by the Unicode derived property.
pub uninterp spec fn lower_of(s: Seq<char>) -> Seq<char>;

/// `str::to_uppercase`: the result depends on the characters alone.
#[verifier::external_body]
pub(crate) fn to_upper(s: &str) -> (r: String)
    ensures
        r@ == upper_of(s@),
{
    s.to_uppercase()
}

/// `str::to_lowercase`: the result depends on the characters alone.
#[verifier::external_body]
pub(crate) fn to_lower(s: &str) -> (r: String)
    ensures
        r@ == lower_of(s@),
{
    s.to_lowercase()
}

/// The first extended grapheme cluster of a text that is not empty, by the
/// Unicode segmentation rules.
pub uninterp spec fn grapheme_of(s: Seq<char>) -> Seq<char>;

/// A space, or another ASCII character that prints.
pub open spec fn printable_ascii(c: char) -> bool {
    ' ' <= c <= '~'
}

/// The first item of `UnicodeSegmentation::graphemes` in its extended mode:
/// nothing for an empty text, else a piece of at least one character at the
/// front, which depends on the text alone. Between two printable ASCII
/// characters there always is a boundary.
#[verifier::external_body]
fn first_grapheme(s: &str) -> (r: Option<String>)
    ensures
        r is Some <==> s@.len() > 0,
        r matches Some(g) ==> g@ == grapheme_of(s@),
        r matches Some(g) ==> g@.len() > 0 && has_prefix(s@, g@),
        r matches Some(g) ==> (s@.len() > 1 && printable_ascii(s@[0]) && printable_ascii(s@[1])
            ==> g@ == seq![s@[0]]),
{
    s.graphemes(true).next().map(|g| g.to_string())
}

/// What a reader sees as the first character of a text.
pub open spec fn first_of(s: Seq<char>) -> Seq<char> {
    if s.len() <= 1 {
        s
    } else if printable_ascii(s[0]) && printable_ascii(s[1]) {
        seq![s[0]]
    } else {
        grapheme_of(s)
    }
}

/// Find what a reader sees as the first character of a text.
pub fn initial(s: &[char]) -> (r: Vec<char>)
    ensures
        r@ == first_of(s@),
        s@.len() > 0 ==> r@.len() > 0 && has_prefix(s@, r@),
{
    let t = string_of(s);
    match first_grapheme(t.as_str()) {
        Some(g) => {
            proof {
                if s@.len() == 1 {
                    assert(s@.take(g@.len() as int) =~= s@);
                }
            }
            chars_of(g.as_str())
        },
        None => {
            proof {
                assert(s@ =~= Seq::empty());
            }
            Vec::new()
        },
    }
}

/// The 32-bit number written by `s`, with an optional sign.
pub open spec fn signed_value(s: Seq<char>) -> Option<int> {
    if s.len() > 0 && s[0] == '-' {
        let d = s.skip(1);
        if d.len() > 0 && d[0] != '+' && unsigned_value(d, 2147483648) is Some {
            Some(-(unsigned_value(d, 2147483648)->0 as int))
        } else {
            None
        }
    } else {
        match unsigned_value(s, 2147483647) {
            Some(v) => Some(v as int),
            None => None,
        }
    }
}

pub fn parse_signed(s: &[char]) -> (r: Option<i32>)
    ensures
        r matches Some(v) ==> signed_value(s@) == Some(v as int),
        r is None ==> signed_value(s@) is None,
{
    let n: usize = s.len();
    if n > 0 && s[0] == '-' {
        let d = slice_subrange(s, 1, n);
        proof {
            assert(d@ =~= s@.skip(1));
        }
        if d.len() == 0 || d[0] == '+' {
            return None;
        }
        match parse_unsigned(d, 2147483648) {
            Some(v) => Some((-(v as i64)) as i32),
            None => None,
        }
    } else {
        match parse_unsigned(s, 2147483647) {
            Some(v) => Some(v as i32),
            None => None,
        }
    }
}

} // verus!
