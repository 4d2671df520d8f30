//! What splitting, joining, trimming and numerals promise together.
use crate::text::{
    all_digits, decimal, decimal_int, digits_value, has_prefix, has_suffix, index_or_len, joined,
    lemma_index_or_len, lex_less, signed_value, split_on, trimmed, trimmed_end, trimmed_start,
    unsigned_value, white,
};
use crate::scan::{lowered, occurs, stands_at};
use vstd::prelude::*;

verus! {

/// All characters are white space.
pub open spec fn blank(s: Seq<char>) -> bool {
    forall|i: int| 0 <= i < s.len() ==> white(#[trigger] s[i])
}

/// No white space at either end.
pub open spec fn tight(s: Seq<char>) -> bool {
    s.len() > 0 ==> !white(s[0]) && !white(s.last())
}

proof fn lemma_trimmed_start(s: Seq<char>) -> (k: int)
    ensures
        0 <= k <= s.len(),
        trimmed_start(s) == s.skip(k),
        blank(s.take(k)),
        k < s.len() ==> !white(s[k]),
    decreases s.len(),
{
    if s.len() > 0 && white(s[0]) {
        let k = lemma_trimmed_start(s.skip(1));
        assert(s.skip(1).skip(k) =~= s.skip(k + 1));
        assert forall|i: int| 0 <= i < k + 1 implies white(#[trigger] s.take(k + 1)[i]) by {
            if i > 0 {
                assert(s.skip(1).take(k)[i - 1] == s[i]);
            }
        }
        k + 1
    } else {
        assert(s.skip(0) =~= s);
        0
    }
}

proof fn lemma_trimmed_end(s: Seq<char>) -> (k: int)
    ensures
        0 <= k <= s.len(),
        trimmed_end(s) == s.take(k),
        blank(s.skip(k)),
        k > 0 ==> !white(s[k - 1]),
    decreases s.len(),
{
    if s.len() > 0 && white(s.last()) {
        let d = s.drop_last();
        let k = lemma_trimmed_end(d);
        assert(d.take(k) =~= s.take(k));
        assert forall|i: int| 0 <= i < s.len() - k implies white(#[trigger] s.skip(k)[i]) by {
            if i < d.len() - k {
                assert(d.skip(k)[i] == s.skip(k)[i]);
            }
        }
        k
    } else {
        assert(s.take(s.len() as int) =~= s);
        s.len() as int
    }
}

/// Trimming takes white space from the two ends and nothing else: what goes is
/// white, and what stays neither begins nor ends white.
pub proof fn trimming_takes_the_ends(s: Seq<char>) -> (cut: (Seq<char>, Seq<char>))
    ensures
        s == cut.0 + trimmed(s) + cut.1,
        blank(cut.0),
        blank(cut.1),
        tight(trimmed(s)),
{
    let k = lemma_trimmed_start(s);
    let t = trimmed_start(s);
    let m = lemma_trimmed_end(t);
    let a = s.take(k);
    let b = t.skip(m);
    assert(s =~= a + t.take(m) + b);
    if m > 0 {
        assert(trimmed(s)[0] == s[k]);
        assert(trimmed(s).last() == t[m - 1]);
    }
    (a, b)
}

/// White space around a text that has none at its ends is all that goes.
pub proof fn padding_is_trimmed(a: Seq<char>, s: Seq<char>, b: Seq<char>)
    requires
        blank(a),
        blank(b),
        tight(s),
    ensures
        trimmed(a + s + b) == s,
{
    let w = a + s + b;
    let k = lemma_trimmed_start(w);
    if s.len() > 0 {
        assert(w[a.len() as int] == s[0]);
        if k > a.len() {
            assert(w.take(k)[a.len() as int] == s[0]);
        }
        if k < a.len() {
            assert(w[k] == a[k]);
        }
        let t = trimmed_start(w);
        assert(t =~= s + b);
        let m = lemma_trimmed_end(t);
        if m < s.len() {
            assert(t.skip(m)[s.len() - 1 - m] == s.last());
        }
        if m > s.len() {
            assert(t[m - 1] == b[m - 1 - s.len()]);
        }
        assert(t.take(m) =~= s);
    } else {
        if k < w.len() {
            if k < a.len() {
                assert(w[k] == a[k]);
            } else {
                assert(w[k] == b[k - a.len()]);
            }
        }
        assert(trimmed_start(w) =~= s);
        assert(trimmed(w) =~= s);
    }
}

/// A text without white space at its ends is not touched.
pub proof fn tight_texts_stay(s: Seq<char>)
    requires
        tight(s),
    ensures
        trimmed(s) == s,
{
    padding_is_trimmed(Seq::empty(), s, Seq::empty());
    assert(Seq::<char>::empty() + s + Seq::<char>::empty() =~= s);
}

/// Nothing is left of a blank text, and only of a blank one.
pub proof fn blank_texts_vanish(s: Seq<char>)
    ensures
        trimmed(s).len() == 0 <==> blank(s),
{
    if blank(s) {
        padding_is_trimmed(s, Seq::empty(), Seq::empty());
        assert(s + Seq::<char>::empty() + Seq::<char>::empty() =~= s);
    }
    if trimmed(s).len() == 0 {
        let cut = trimming_takes_the_ends(s);
        assert forall|i: int| 0 <= i < s.len() implies white(#[trigger] s[i]) by {
            if i < cut.0.len() {
                assert(s[i] == cut.0[i]);
            } else {
                assert(s[i] == cut.1[i - cut.0.len()]);
            }
        }
    }
}

/// The white characters by their code points.
pub proof fn white_code_points(c: char)
    ensures
        white(c) <==> {
            let p = c as u32;
            9 <= p <= 13 || p == 32 || p == 133 || p == 160 || p == 5760 || 8192 <= p <= 8202 || p
                == 8232 || p == 8233 || p == 8239 || p == 8287 || p == 12288
        },
{
}

// ---------------------------------------------------------------------------
// Splitting and joining
// ---------------------------------------------------------------------------

/// A text is cut at the first separator.
proof fn lemma_cut(a: Seq<char>, c: char, b: Seq<char>)
    requires
        !a.contains(c),
    ensures
        index_or_len(a + seq![c] + b, c) == a.len(),
        (a + seq![c] + b).take(a.len() as int) == a,
        (a + seq![c] + b).skip(a.len() as int + 1) == b,
{
    let s = a + seq![c] + b;
    lemma_index_or_len(s, c);
    let k = index_or_len(s, c);
    assert(s[a.len() as int] == c);
    if k < a.len() {
        assert(a[k as int] == c);
    }
    assert(s.take(a.len() as int) =~= a);
    assert(s.skip(a.len() as int + 1) =~= b);
}

/// A text without the separator is one piece.
pub proof fn unsplit_texts_stay(s: Seq<char>, c: char)
    requires
        !s.contains(c),
    ensures
        split_on(s, c) == seq![s],
{
    lemma_index_or_len(s, c);
}

/// A separator parts what stands before it from what stands behind it.
pub proof fn separators_part(a: Seq<char>, c: char, b: Seq<char>)
    ensures
        split_on(a + seq![c] + b, c) == split_on(a, c) + split_on(b, c),
    decreases a.len(),
{
    let s = a + seq![c] + b;
    lemma_index_or_len(a, c);
    if !a.contains(c) {
        lemma_cut(a, c, b);
        unsplit_texts_stay(a, c);
    } else {
        let k = index_or_len(a, c) as int;
        let f = a.take(k);
        let r = a.skip(k + 1);
        assert(!f.contains(c)) by {
            if f.contains(c) {
                let j = choose|j: int| 0 <= j < f.len() && f[j] == c;
                assert(a[j] == c);
            }
        }
        assert(s =~= f + seq![c] + (r + seq![c] + b));
        lemma_cut(f, c, r + seq![c] + b);
        separators_part(r, c, b);
        assert(seq![f] + (split_on(r, c) + split_on(b, c)) =~= (seq![f] + split_on(r, c)) + split_on(
            b,
            c,
        ));
    }
}

/// No piece holds the separator.
pub proof fn pieces_hold_no_separator(s: Seq<char>, c: char)
    ensures
        split_on(s, c).len() > 0,
        forall|i: int| 0 <= i < split_on(s, c).len() ==> !(#[trigger] split_on(s, c)[i]).contains(c),
    decreases s.len(),
{
    lemma_index_or_len(s, c);
    let k = index_or_len(s, c) as int;
    if k < s.len() {
        let f = s.take(k);
        let r = s.skip(k + 1);
        pieces_hold_no_separator(r, c);
        assert forall|i: int| 0 <= i < split_on(s, c).len() implies !(#[trigger] split_on(
            s,
            c,
        )[i]).contains(c) by {
            if i == 0 {
                if f.contains(c) {
                    let j = choose|j: int| 0 <= j < f.len() && f[j] == c;
                    assert(s[j] == c);
                }
            } else {
                assert(split_on(s, c)[i] == split_on(r, c)[i - 1]);
            }
        }
    }
}

/// Joining two lists puts one separator between what each gives.
pub proof fn joining_two_lists(a: Seq<Seq<char>>, b: Seq<Seq<char>>, sep: Seq<char>)
    requires
        a.len() > 0,
        b.len() > 0,
    ensures
        joined(a + b, sep) == joined(a, sep) + sep + joined(b, sep),
    decreases b.len(),
{
    let s = a + b;
    assert(s.last() == b.last());
    if b.len() == 1 {
        assert(s.drop_last() =~= a);
    } else {
        let d = b.drop_last();
        assert(s.drop_last() =~= a + d);
        joining_two_lists(a, d, sep);
        assert(joined(a, sep) + sep + joined(d, sep) + sep + b.last() =~= joined(a, sep) + sep + (
        joined(d, sep) + sep + b.last()));
    }
}

/// One text alone is joined to itself, and no text to nothing.
pub proof fn joining_one_text(p: Seq<char>, sep: Seq<char>)
    ensures
        joined(seq![p], sep) == p,
        joined(Seq::empty(), sep).len() == 0,
{
}

/// Splitting loses nothing but the separators: joined again, the pieces give the
/// text back.
pub proof fn pieces_join_again(s: Seq<char>, c: char)
    ensures
        joined(split_on(s, c), seq![c]) == s,
    decreases s.len(),
{
    lemma_index_or_len(s, c);
    let k = index_or_len(s, c) as int;
    if k < s.len() {
        let f = s.take(k);
        let r = s.skip(k + 1);
        pieces_hold_no_separator(r, c);
        pieces_join_again(r, c);
        joining_two_lists(seq![f], split_on(r, c), seq![c]);
        assert(f + seq![c] + r =~= s);
    }
}

/// What was joined with a separator that it does not hold comes apart again.
pub proof fn joined_pieces_split(parts: Seq<Seq<char>>, c: char)
    requires
        parts.len() > 0,
        forall|i: int| 0 <= i < parts.len() ==> !(#[trigger] parts[i]).contains(c),
    ensures
        split_on(joined(parts, seq![c]), c) == parts,
    decreases parts.len(),
{
    if parts.len() == 1 {
        assert(!parts[0].contains(c));
        unsplit_texts_stay(parts[0], c);
        assert(parts =~= seq![parts[0]]);
    } else {
        let d = parts.drop_last();
        assert forall|i: int| 0 <= i < d.len() implies !(#[trigger] d[i]).contains(c) by {
            assert(d[i] == parts[i]);
        }
        joined_pieces_split(d, c);
        separators_part(joined(d, seq![c]), c, parts.last());
        assert(!parts[parts.len() - 1].contains(c));
        unsplit_texts_stay(parts.last(), c);
        assert(d + seq![parts.last()] =~= parts);
    }
}

/// A text has a prefix exactly if something can be put behind the prefix to give
/// the text; so for a suffix.
pub proof fn prefixes_and_suffixes(s: Seq<char>, p: Seq<char>)
    ensures
        has_prefix(s, p) <==> exists|r: Seq<char>| s == #[trigger] (p + r),
        has_suffix(s, p) <==> exists|r: Seq<char>| s == #[trigger] (r + p),
{
    if has_prefix(s, p) {
        assert(s =~= p + s.skip(p.len() as int));
    }
    if exists|r: Seq<char>| s == #[trigger] (p + r) {
        let r = choose|r: Seq<char>| s == #[trigger] (p + r);
        assert(s.take(p.len() as int) =~= p);
    }
    if has_suffix(s, p) {
        assert(s =~= s.take(s.len() - p.len()) + p);
    }
    if exists|r: Seq<char>| s == #[trigger] (r + p) {
        let r = choose|r: Seq<char>| s == #[trigger] (r + p);
        assert(s.skip(s.len() - p.len()) =~= p);
    }
}

/// A text occurs in another exactly if something can be put on either side of it to
/// give the other.
pub proof fn occurrences(s: Seq<char>, w: Seq<char>)
    ensures
        occurs(s, w) <==> exists|a: Seq<char>, b: Seq<char>| s == #[trigger] (a + w + b),
{
    if occurs(s, w) {
        let i = choose|i: int| #[trigger] stands_at(s, w, i);
        assert(s =~= s.take(i) + s.subrange(i, i + w.len()) + s.skip(i + w.len()));
    }
    if exists|a: Seq<char>, b: Seq<char>| s == #[trigger] (a + w + b) {
        let (a, b) = choose|a: Seq<char>, b: Seq<char>| s == #[trigger] (a + w + b);
        assert(s.subrange(a.len() as int, a.len() as int + w.len()) =~= w);
        assert(stands_at(s, w, a.len() as int));
    }
}

/// Lowering letters moves each capital 32 code points up and leaves every other
/// character where it is.
pub proof fn letter_case(s: Seq<char>, i: int)
    ensures
        lowered(s).len() == s.len(),
        0 <= i < s.len() ==> lowered(s)[i] as u32 == (if 65 <= s[i] as u32 <= 90 {
            s[i] as u32 + 32
        } else {
            s[i] as u32 as int
        }),
{
    if 0 <= i < s.len() && 65 <= s[i] as u32 <= 90 {
        let v = (s[i] as u32 + 32) as u8;
        assert(v as char as u32 == v as u32);
    }
}

// ---------------------------------------------------------------------------
// Order
// ---------------------------------------------------------------------------

/// The texts agree up to position `k`, where the first is smaller or ends.
pub open spec fn parts_at(a: Seq<char>, b: Seq<char>, k: int) -> bool {
    &&& 0 <= k <= a.len()
    &&& k < b.len()
    &&& a.take(k) == b.take(k)
    &&& k < a.len() ==> a[k] < b[k]
}

/// Texts are ordered by the first position at which they differ, and a text
/// stands before all that continue it.
pub proof fn order_is_by_first_difference(a: Seq<char>, b: Seq<char>)
    ensures
        lex_less(a, b) <==> exists|k: int| #[trigger] parts_at(a, b, k),
    decreases a.len(),
{
    if a.len() == 0 {
        if b.len() > 0 {
            assert(a.take(0) =~= b.take(0));
            assert(parts_at(a, b, 0));
        }
    } else if b.len() > 0 {
        let x = a.skip(1);
        let y = b.skip(1);
        order_is_by_first_difference(x, y);
        if a[0] < b[0] {
            assert(a.take(0) =~= b.take(0));
            assert(parts_at(a, b, 0));
        }
        if a[0] == b[0] && lex_less(x, y) {
            let k = choose|k: int| #[trigger] parts_at(x, y, k);
            assert forall|i: int| 0 <= i < k + 1 implies #[trigger] a.take(k + 1)[i] == b.take(k + 1)[i] by {
                if i > 0 {
                    assert(x.take(k)[i - 1] == y.take(k)[i - 1]);
                }
            }
            assert(a.take(k + 1) =~= b.take(k + 1));
            assert(parts_at(a, b, k + 1));
        }
        if exists|k: int| #[trigger] parts_at(a, b, k) {
            let k = choose|k: int| #[trigger] parts_at(a, b, k);
            if k > 0 {
                assert(a.take(k)[0] == b.take(k)[0]);
                assert forall|i: int| 0 <= i < k - 1 implies #[trigger] x.take(k - 1)[i] == y.take(k - 1)[i] by {
                    assert(a.take(k)[i + 1] == b.take(k)[i + 1]);
                }
                assert(x.take(k - 1) =~= y.take(k - 1));
                assert(parts_at(x, y, k - 1));
            }
        }
    }
}

// ---------------------------------------------------------------------------
// Numerals
// ---------------------------------------------------------------------------

/// A numeral is read back as the number it was written for. It is made of
/// digits, the first of which is no zero unless it stands alone.
pub proof fn numerals_are_read_back(n: nat)
    ensures
        all_digits(decimal(n)),
        decimal(n).len() > 0,
        digits_value(decimal(n)) == n,
        n > 0 ==> decimal(n)[0] != '0',
    decreases n,
{
    if n < 10 {
        let s = decimal(n);
        assert(s.drop_last() =~= Seq::empty());
        assert(digits_value(s.drop_last()) == 0);
    } else {
        numerals_are_read_back(n / 10);
        let s = decimal(n);
        assert(s.drop_last() =~= decimal(n / 10));
        assert forall|i: int| 0 <= i < s.len() implies '0' <= #[trigger] s[i] <= '9' by {
            if i < s.len() - 1 {
                assert(decimal(n / 10)[i] == s[i]);
            }
        }
    }
}

/// A digit is worth its distance from zero, and ten times as much with every
/// digit behind it.
pub proof fn digits_are_worth_their_place(s: Seq<char>, c: char)
    requires
        '0' <= c <= '9',
    ensures
        digits_value(seq![c]) == c as u32 - 48,
        digits_value(s.push(c)) == digits_value(s) * 10 + (c as u32 - 48),
{
    assert(s.push(c).drop_last() =~= s);
    assert(seq![c].drop_last() =~= Seq::empty());
    assert(digits_value(seq![c].drop_last()) == 0);
}

/// A number within the bound is read back from its numeral, with a plus sign or
/// without; one beyond it is not read.
pub proof fn bounded_numerals(n: nat, max: nat)
    ensures
        unsigned_value(decimal(n), max) == (if n <= max {
            Some(n)
        } else {
            None
        }),
        unsigned_value(seq!['+'] + decimal(n), max) == unsigned_value(decimal(n), max),
{
    numerals_are_read_back(n);
    let d = decimal(n);
    assert('0' <= d[0] <= '9');
    assert((seq!['+'] + d).skip(1) =~= d);
}

/// Only signs and digits are read as a number.
pub proof fn only_digits_are_numbers(s: Seq<char>, max: nat, i: int)
    requires
        0 <= i < s.len(),
        !('0' <= s[i] <= '9'),
        i > 0 || s[0] != '+' || s.len() == 1,
    ensures
        unsigned_value(s, max) is None,
{
    if s[0] == '+' && i > 0 {
        assert(s.skip(1)[i - 1] == s[i]);
    }
}

/// A 32-bit number is read back from its numeral, whatever its sign; one that
/// does not fit is not read.
pub proof fn signed_numerals(n: int)
    ensures
        signed_value(decimal_int(n)) == (if -2147483648 <= n <= 2147483647 {
            Some(n)
        } else {
            None
        }),
{
    if n < 0 {
        let m = (-n) as nat;
        bounded_numerals(m, 2147483648);
        numerals_are_read_back(m);
        assert(decimal_int(n).skip(1) =~= decimal(m));
        assert('0' <= decimal(m)[0] <= '9');
    } else {
        bounded_numerals(n as nat, 2147483647);
        numerals_are_read_back(n as nat);
        assert('0' <= decimal(n as nat)[0] <= '9');
    }
}

} // verus!
