//! Which texts are numbers.
use crate::scan::{ascii_digit, digits_end, exponent_or_end, lowered, number_text, unsigned_number};
use crate::text::all_digits;
use crate::text_laws::letter_case;
use vstd::prelude::*;

verus! {

proof fn lemma_end(s: Seq<char>, i: int, j: int)
    requires
        0 <= i <= j <= s.len(),
        forall|k: int| i <= k < j ==> ascii_digit(#[trigger] s[k]),
        j < s.len() ==> !ascii_digit(s[j]),
    ensures
        digits_end(s, i) == j,
    decreases j - i,
{
    if i < j {
        assert(ascii_digit(s[i]));
        lemma_end(s, i + 1, j);
    }
}

proof fn lemma_run(s: Seq<char>, i: int)
    requires
        0 <= i <= s.len(),
    ensures
        i <= digits_end(s, i) <= s.len(),
        forall|k: int| i <= k < digits_end(s, i) ==> ascii_digit(#[trigger] s[k]),
    decreases s.len() - i,
{
    if i < s.len() && ascii_digit(s[i]) {
        lemma_run(s, i + 1);
    }
}

/// A run of digits is a number, with a sign in front of it or without.
pub proof fn digits_are_numbers(s: Seq<char>)
    requires
        s.len() > 0,
        all_digits(s),
    ensures
        number_text(s),
        number_text(seq!['-'] + s),
        number_text(seq!['+'] + s),
{
    lemma_end(s, 0, s.len() as int);
    assert('0' <= s[0] <= '9');
    assert((seq!['-'] + s).skip(1) =~= s);
    assert((seq!['+'] + s).skip(1) =~= s);
}

/// Digits, a point and digits are a number; one of the two runs may be empty.
pub proof fn decimals_are_numbers(a: Seq<char>, b: Seq<char>)
    requires
        all_digits(a),
        all_digits(b),
        a.len() + b.len() > 0,
    ensures
        number_text(a + seq!['.'] + b),
        number_text(seq!['-'] + (a + seq!['.'] + b)),
{
    let s = a + seq!['.'] + b;
    let n = a.len() as int;
    assert forall|k: int| 0 <= k < n implies ascii_digit(#[trigger] s[k]) by {
        assert('0' <= a[k] <= '9');
    }
    assert(s[n] == '.');
    lemma_end(s, 0, n);
    assert forall|k: int| n + 1 <= k < s.len() implies ascii_digit(#[trigger] s[k]) by {
        assert('0' <= b[k - n - 1] <= '9');
    }
    lemma_end(s, n + 1, s.len() as int);
    assert(s[0] != '+' && s[0] != '-') by {
        if n > 0 {
            assert(ascii_digit(s[0]));
        }
    }
    assert((seq!['-'] + s).skip(1) =~= s);
}

/// Nothing is no number.
pub proof fn empty_is_no_number()
    ensures
        !number_text(Seq::empty()),
{
    reveal_strlit("inf");
    reveal_strlit("infinity");
    reveal_strlit("nan");
    let s = Seq::<char>::empty();
    assert(lowered(s).len() == 0);
}

/// A text that begins with another letter than those of the words for what is not
/// finite is no number.
pub proof fn words_are_no_numbers(s: Seq<char>)
    requires
        s.len() > 0,
        s[0] != 'i' && s[0] != 'I' && s[0] != 'n' && s[0] != 'N',
        !ascii_digit(s[0]) && s[0] != '.' && s[0] != '+' && s[0] != '-',
    ensures
        !number_text(s),
{
    reveal_strlit("inf");
    reveal_strlit("infinity");
    reveal_strlit("nan");
    letter_case(s, 0);
    let w = lowered(s);
    if w == "inf"@ || w == "infinity"@ {
        assert(w[0] == 'i');
    }
    if w == "nan"@ {
        assert(w[0] == 'n');
    }
}

/// Besides digits a number holds a sign, a point and an exponent only: any other
/// character makes it a text, unless it is one of the three words for what is not
/// finite.
pub proof fn strange_characters_make_no_number(s: Seq<char>, i: int)
    requires
        0 <= i < s.len(),
        !ascii_digit(s[i]),
        s[i] != '+' && s[i] != '-' && s[i] != '.' && s[i] != 'e' && s[i] != 'E',
        forall|k: int| 0 <= k <= 1 && k <= s.len() ==> {
            let w = lowered(#[trigger] s.skip(k));
            w != "inf"@ && w != "infinity"@ && w != "nan"@
        },
    ensures
        !number_text(s),
{
    assert(s.skip(0) =~= s);
    let signed = s[0] == '+' || s[0] == '-';
    let t = if signed {
        s.skip(1)
    } else {
        s
    };
    let j = if signed {
        i - 1
    } else {
        i
    };
    assert(t[j] == s[i]);
    assert(!unsigned_number(t)) by {
        lemma_run(t, 0);
        let a = digits_end(t, 0);
        if a < t.len() && t[a] == '.' {
            lemma_run(t, a + 1);
            let b = digits_end(t, a + 1);
            lemma_exponent(t, b, j);
        } else {
            lemma_exponent(t, a, j);
        }
    }
    assert(s.skip(1) == s.skip(1) && s.skip(0) == s.skip(0));
}

proof fn lemma_exponent(s: Seq<char>, i: int, j: int)
    requires
        0 <= i <= s.len(),
        i <= j < s.len() || j < i,
        0 <= j < s.len(),
        j >= i ==> !ascii_digit(s[j]) && s[j] != '+' && s[j] != '-' && s[j] != '.' && s[j] != 'e' && s[j]
            != 'E',
    ensures
        j >= i ==> !exponent_or_end(s, i),
{
    if j >= i && exponent_or_end(s, i) {
        let k = if i + 1 < s.len() && (s[i + 1] == '+' || s[i + 1] == '-') {
            i + 2
        } else {
            i + 1
        };
        lemma_run(s, k);
        assert(ascii_digit(s[j]));
    }
}

/// The words for what is not finite are numbers, in any letter case and with any sign.
pub proof fn words_for_the_infinite(w: Seq<char>)
    requires
        lowered(w) == "inf"@ || lowered(w) == "infinity"@ || lowered(w) == "nan"@,
    ensures
        number_text(w),
        number_text(seq!['-'] + w),
        number_text(seq!['+'] + w),
{
    reveal_strlit("inf");
    reveal_strlit("infinity");
    reveal_strlit("nan");
    letter_case(w, 0);
    assert(lowered(w)[0] == 'i' || lowered(w)[0] == 'n');
    assert((seq!['-'] + w).skip(1) =~= w);
    assert((seq!['+'] + w).skip(1) =~= w);
}

/// Digits with an exponent are a number; the exponent may have a sign.
pub proof fn exponents_are_numbers(a: Seq<char>, b: Seq<char>)
    requires
        all_digits(a),
        all_digits(b),
        a.len() > 0,
        b.len() > 0,
    ensures
        number_text(a + seq!['e'] + b),
        number_text(a + seq!['e', '-'] + b),
        number_text(a + seq!['E', '+'] + b),
{
    lemma_exponent_text(a, seq!['e'], b);
    lemma_exponent_text(a, seq!['e', '-'], b);
    lemma_exponent_text(a, seq!['E', '+'], b);
}

proof fn lemma_exponent_text(a: Seq<char>, m: Seq<char>, b: Seq<char>)
    requires
        all_digits(a),
        all_digits(b),
        a.len() > 0,
        b.len() > 0,
        m.len() == 1 || (m.len() == 2 && (m[1] == '-' || m[1] == '+')),
        m[0] == 'e' || m[0] == 'E',
    ensures
        number_text(a + m + b),
{
    let s = a + m + b;
    let n = a.len() as int;
    let k = n + m.len();
    assert forall|j: int| 0 <= j < n implies ascii_digit(#[trigger] s[j]) by {
        assert('0' <= a[j] <= '9');
    }
    assert(s[n] == m[0]);
    lemma_end(s, 0, n);
    assert forall|j: int| k <= j < s.len() implies ascii_digit(#[trigger] s[j]) by {
        assert('0' <= b[j - k] <= '9');
    }
    lemma_end(s, k, s.len() as int);
    if m.len() == 2 {
        assert(s[n + 1] == m[1]);
    } else {
        assert(ascii_digit(s[k]));
    }
    assert(ascii_digit(s[0]));
}

} // verus!
