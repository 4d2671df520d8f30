//! What scanning expressions promises: quotes and brackets keep what they hold
//! out of sight.
use crate::scan::{
    args, args_from, close_from, closing, colon_from, next_char, past, stands_at, ternary, top_from,
    top_index,
};
use vstd::prelude::*;

verus! {

/// A text as a reader sees it: characters, quoted texts and brackets.
pub enum Piece {
    Plain(char),
    Quoted(char, Seq<char>),
    Grouped(char, Seq<Piece>, char),
}

/// The characters of a piece.
pub open spec fn piece_text(p: Piece) -> Seq<char>
    decreases p,
{
    match p {
        Piece::Plain(c) => seq![c],
        Piece::Quoted(q, inner) => seq![q] + inner + seq![q],
        Piece::Grouped(o, inner, c) => seq![o] + written(inner) + seq![c],
    }
}

/// The characters of a list of pieces.
pub open spec fn written(l: Seq<Piece>) -> Seq<char>
    decreases l,
{
    if l.len() == 0 {
        Seq::empty()
    } else {
        piece_text(l[0]) + written(l.skip(1))
    }
}

/// Quotes and brackets are where they belong: a quoted text holds everything but
/// its own quote, and brackets hold pieces.
pub open spec fn good_piece(p: Piece) -> bool
    decreases p,
{
    match p {
        Piece::Plain(c) => c != '\'' && c != '"' && c != '(' && c != ')' && c != '[' && c != ']',
        Piece::Quoted(q, inner) => (q == '\'' || q == '"') && !inner.contains(q),
        Piece::Grouped(o, inner, c) => (o == '(' || o == '[') && (c == ')' || c == ']') && good(inner),
    }
}

pub open spec fn good(l: Seq<Piece>) -> bool
    decreases l,
{
    l.len() > 0 ==> good_piece(l[0]) && good(l.skip(1))
}

proof fn lemma_good(l: Seq<Piece>)
    requires
        good(l),
        l.len() > 0,
    ensures
        good(l.skip(1)),
        match l[0] {
            Piece::Plain(c) => plain_char(c),
            Piece::Quoted(q, inner) => (q == '\'' || q == '"') && !inner.contains(q),
            Piece::Grouped(o, inner, c) => (o == '(' || o == '[') && (c == ')' || c == ']') && good(
                inner,
            ),
        },
{
    reveal_with_fuel(good, 2);
    reveal_with_fuel(good_piece, 2);
}

/// The character does not stand outside quotes and brackets.
pub open spec fn lacks(l: Seq<Piece>, c: char) -> bool {
    forall|i: int| 0 <= i < l.len() ==> #[trigger] l[i] != Piece::Plain(c)
}

/// The pieces stand in the text at position `i`.
pub open spec fn stand_at(s: Seq<char>, i: int, l: Seq<Piece>) -> bool {
    &&& 0 <= i
    &&& i + written(l).len() <= s.len()
    &&& forall|k: int| 0 <= k < written(l).len() ==> s[i + k] == #[trigger] written(l)[k]
}

proof fn lemma_next(s: Seq<char>, q: char, i: int, j: int)
    requires
        0 <= i <= j < s.len(),
        s[j] == q,
        forall|k: int| i <= k < j ==> #[trigger] s[k] != q,
    ensures
        next_char(s, q, i) == j,
    decreases j - i,
{
    if i < j {
        assert(s[i] != q);
        lemma_next(s, q, i + 1, j);
    }
}

/// A scan goes over a quoted text in one step.
proof fn lemma_past_quoted(s: Seq<char>, i: int, q: char, inner: Seq<char>)
    requires
        0 <= i,
        i + inner.len() + 2 <= s.len(),
        q == '\'' || q == '"',
        !inner.contains(q),
        s[i] == q,
        s[i + 1 + inner.len()] == q,
        forall|k: int| 0 <= k < inner.len() ==> s[i + 1 + k] == #[trigger] inner[k],
    ensures
        past(s, i) == i + inner.len() + 2,
{
    let j = i + 1 + inner.len();
    assert forall|k: int| i + 1 <= k < j implies #[trigger] s[k] != q by {
        assert(s[i + 1 + (k - i - 1)] == inner[k - i - 1]);
        assert(inner.contains(inner[k - i - 1]));
    }
    lemma_next(s, q, i + 1, j);
}

/// What stands in the first piece and behind it.
proof fn lemma_front(s: Seq<char>, i: int, l: Seq<Piece>)
    requires
        stand_at(s, i, l),
        l.len() > 0,
    ensures
        ({
            let n = piece_text(l[0]).len();
            &&& stand_at(s, i + n, l.skip(1))
            &&& written(l).len() == n + written(l.skip(1)).len()
            &&& match l[0] {
                Piece::Plain(c) => n == 1 && s[i] == c,
                Piece::Quoted(q, inner) => {
                    &&& n == inner.len() + 2
                    &&& s[i] == q
                    &&& s[i + 1 + inner.len()] == q
                    &&& forall|k: int| 0 <= k < inner.len() ==> s[i + 1 + k] == #[trigger] inner[k]
                },
                Piece::Grouped(o, inner, c) => {
                    &&& n == written(inner).len() + 2
                    &&& s[i] == o
                    &&& stand_at(s, i + 1, inner)
                    &&& s[i + 1 + written(inner).len()] == c
                },
            }
        }),
{
    let w = written(l);
    let f = piece_text(l[0]);
    let r = written(l.skip(1));
    let n = f.len();
    assert(w == f + r);
    assert(n >= 1);
    assert(w[0] == f[0]);
    assert(s[i + 0] == w[0]);
    assert forall|k: int| 0 <= k < r.len() implies s[i + n + k] == #[trigger] r[k] by {
        assert(w[n + k] == r[k]);
        assert(s[i + (n + k)] == w[n + k]);
    }
    match l[0] {
        Piece::Plain(_) => {},
        Piece::Quoted(q, inner) => {
            assert forall|k: int| 0 <= k < inner.len() implies s[i + 1 + k] == #[trigger] inner[k] by {
                assert(f[1 + k] == inner[k]);
                assert(w[1 + k] == f[1 + k]);
                assert(s[i + (1 + k)] == w[1 + k]);
            }
            assert(f[1 + inner.len() as int] == q);
            assert(w[1 + inner.len() as int] == q);
            assert(s[i + (1 + inner.len())] == q);
        },
        Piece::Grouped(o, inner, c) => {
            let x = written(inner);
            assert forall|k: int| 0 <= k < x.len() implies s[i + 1 + k] == #[trigger] x[k] by {
                assert(f[1 + k] == x[k]);
                assert(w[1 + k] == f[1 + k]);
                assert(s[i + (1 + k)] == w[1 + k]);
            }
            assert(f[1 + x.len() as int] == c);
            assert(w[1 + x.len() as int] == c);
            assert(s[i + (1 + x.len())] == c);
        },
    }
}

/// Inside brackets nothing is found.
proof fn lemma_top_deep(s: Seq<char>, needle: Seq<char>, i: int, depth: int, l: Seq<Piece>)
    requires
        stand_at(s, i, l),
        good(l),
        depth >= 1,
    ensures
        top_from(s, needle, i, depth) == top_from(s, needle, i + written(l).len(), depth),
    decreases l,
{
    if l.len() > 0 {
        lemma_front(s, i, l);
        lemma_good(l);
        match l[0] {
            Piece::Plain(_) => {},
            Piece::Quoted(q, inner) => {
                lemma_past_quoted(s, i, q, inner);
            },
            Piece::Grouped(_, inner, _) => {
                lemma_top_deep(s, needle, i + 1, depth + 1, inner);
            },
        }
        lemma_top_deep(s, needle, i + piece_text(l[0]).len(), depth, l.skip(1));
    }
}

/// Pieces without the first character of the needle are passed over.
proof fn lemma_top_skip(s: Seq<char>, needle: Seq<char>, i: int, l: Seq<Piece>)
    requires
        stand_at(s, i, l),
        good(l),
        needle.len() > 0,
        lacks(l, needle[0]),
    ensures
        top_from(s, needle, i, 0) == top_from(s, needle, i + written(l).len(), 0),
    decreases l,
{
    if l.len() > 0 {
        lemma_front(s, i, l);
        lemma_good(l);
        assert(l[0] != Piece::Plain(needle[0]));
        if stands_at(s, needle, i) {
            assert(s.subrange(i, i + needle.len())[0] == s[i]);
        }
        match l[0] {
            Piece::Plain(_) => {},
            Piece::Quoted(q, inner) => {
                lemma_past_quoted(s, i, q, inner);
            },
            Piece::Grouped(_, inner, _) => {
                lemma_top_deep(s, needle, i + 1, 1, inner);
            },
        }
        assert(lacks(l.skip(1), needle[0])) by {
            assert forall|k: int| 0 <= k < l.skip(1).len() implies #[trigger] l.skip(1)[k]
                != Piece::Plain(needle[0]) by {
                assert(l.skip(1)[k] == l[k + 1]);
            }
        }
        lemma_top_skip(s, needle, i + piece_text(l[0]).len(), l.skip(1));
    }
}

/// A character that is neither a quote nor a bracket.
pub open spec fn plain_char(c: char) -> bool {
    c != '\'' && c != '"' && c != '(' && c != ')' && c != '[' && c != ']'
}

/// A needle is found where it first stands outside quotes and brackets.
pub proof fn needles_are_found_at_top_level(l: Seq<Piece>, needle: Seq<char>, rest: Seq<char>)
    requires
        good(l),
        needle.len() > 0,
        plain_char(needle[0]),
        lacks(l, needle[0]),
    ensures
        top_index(written(l) + needle + rest, needle) == Some(written(l).len() as int),
{
    let s = written(l) + needle + rest;
    let p = written(l).len() as int;
    assert(stand_at(s, 0, l));
    lemma_top_skip(s, needle, 0, l);
    assert(s.subrange(p, p + needle.len()) =~= needle);
    assert(s[p] == needle[0]);
}

/// A needle within quotes or brackets is not found.
pub proof fn needles_in_quotes_and_brackets_are_hidden(l: Seq<Piece>, needle: Seq<char>)
    requires
        good(l),
        needle.len() > 0,
        lacks(l, needle[0]),
    ensures
        top_index(written(l), needle) is None,
{
    let s = written(l);
    assert(stand_at(s, 0, l));
    lemma_top_skip(s, needle, 0, l);
}

/// A needle that would have to go on with another character is not found at one
/// that only begins like it.
pub proof fn partial_needles_are_not_found(l: Seq<Piece>, mid: Seq<char>, m: Seq<Piece>, needle: Seq<char>)
    requires
        good(l),
        good(m),
        needle.len() > 0,
        lacks(l, needle[0]),
        lacks(m, needle[0]),
        forall|i: int| 0 <= i < mid.len() ==> plain_char(#[trigger] mid[i]),
        forall|i: int|
            0 <= i < mid.len() ==> !stands_at(written(l) + mid + written(m), needle, #[trigger] (written(
                l,
            ).len() + i)),
    ensures
        top_index(written(l) + mid + written(m), needle) is None,
{
    let s = written(l) + mid + written(m);
    let p = written(l).len() as int;
    assert(stand_at(s, 0, l));
    lemma_top_skip(s, needle, 0, l);
    lemma_top_mid(s, needle, p, p + mid.len(), mid, p);
    assert(stand_at(s, p + mid.len(), m));
    lemma_top_skip(s, needle, p + mid.len(), m);
}

proof fn lemma_top_mid(s: Seq<char>, needle: Seq<char>, i: int, end: int, mid: Seq<char>, p: int)
    requires
        0 <= p <= i <= end,
        end == p + mid.len(),
        end <= s.len(),
        forall|k: int| 0 <= k < mid.len() ==> s[p + k] == #[trigger] mid[k],
        forall|k: int| 0 <= k < mid.len() ==> plain_char(#[trigger] mid[k]),
        forall|k: int| 0 <= k < mid.len() ==> !stands_at(s, needle, #[trigger] (p + k)),
    ensures
        top_from(s, needle, i, 0) == top_from(s, needle, end, 0),
    decreases end - i,
{
    if i < end {
        let k = i - p;
        assert(s[p + k] == mid[k]);
        assert(plain_char(mid[k]));
        assert(!stands_at(s, needle, p + k));
        lemma_top_mid(s, needle, i + 1, end, mid, p);
    }
}

// ---------------------------------------------------------------------------
// Conditionals
// ---------------------------------------------------------------------------

proof fn lemma_colon_deep(s: Seq<char>, i: int, depth: int, pending: int, l: Seq<Piece>)
    requires
        stand_at(s, i, l),
        good(l),
        depth >= 1,
    ensures
        colon_from(s, i, depth, pending) == colon_from(s, i + written(l).len(), depth, pending),
    decreases l,
{
    if l.len() > 0 {
        lemma_front(s, i, l);
        lemma_good(l);
        match l[0] {
            Piece::Plain(_) => {},
            Piece::Quoted(q, inner) => {
                lemma_past_quoted(s, i, q, inner);
            },
            Piece::Grouped(_, inner, _) => {
                lemma_colon_deep(s, i + 1, depth + 1, pending, inner);
            },
        }
        lemma_colon_deep(s, i + piece_text(l[0]).len(), depth, pending, l.skip(1));
    }
}

proof fn lemma_colon_skip(s: Seq<char>, i: int, pending: int, l: Seq<Piece>)
    requires
        stand_at(s, i, l),
        good(l),
        lacks(l, ':'),
        lacks(l, '?'),
    ensures
        colon_from(s, i, 0, pending) == colon_from(s, i + written(l).len(), 0, pending),
    decreases l,
{
    if l.len() > 0 {
        lemma_front(s, i, l);
        lemma_good(l);
        assert(l[0] != Piece::Plain(':'));
        assert(l[0] != Piece::Plain('?'));
        match l[0] {
            Piece::Plain(_) => {},
            Piece::Quoted(q, inner) => {
                lemma_past_quoted(s, i, q, inner);
            },
            Piece::Grouped(_, inner, _) => {
                lemma_colon_deep(s, i + 1, 1, pending, inner);
            },
        }
        let r = l.skip(1);
        assert forall|k: int| 0 <= k < r.len() implies #[trigger] r[k] != Piece::Plain(':') && r[k]
            != Piece::Plain('?') by {
            assert(r[k] == l[k + 1]);
            assert(l[k + 1] != Piece::Plain(':') && l[k + 1] != Piece::Plain('?'));
        }
        lemma_colon_skip(s, i + piece_text(l[0]).len(), pending, r);
    }
}

/// A conditional is cut at its question mark and at the colon behind it; what is
/// in quotes or brackets does not count.
pub proof fn conditionals_are_cut(a: Seq<Piece>, b: Seq<Piece>, rest: Seq<char>)
    requires
        good(a),
        good(b),
        lacks(a, '?'),
        lacks(b, '?'),
        lacks(b, ':'),
    ensures
        ternary(written(a) + seq!['?'] + written(b) + seq![':'] + rest) == Some(
            (written(a).len() as int, written(a).len() + 1 + written(b).len() as int),
        ),
{
    let s = written(a) + seq!['?'] + written(b) + seq![':'] + rest;
    let p = written(a).len() as int;
    assert(s =~= written(a) + seq!['?'] + (written(b) + seq![':'] + rest));
    needles_are_found_at_top_level(a, seq!['?'], written(b) + seq![':'] + rest);
    let t = s.skip(p + 1);
    assert(t =~= written(b) + seq![':'] + rest);
    assert(stand_at(t, 0, b));
    lemma_colon_skip(t, 0, 0, b);
}

/// The colon of a conditional within the first branch belongs to that one.
pub proof fn nested_conditionals_are_cut(
    a: Seq<Piece>,
    x: Seq<Piece>,
    y: Seq<Piece>,
    z: Seq<Piece>,
    rest: Seq<char>,
)
    requires
        good(a),
        good(x),
        good(y),
        good(z),
        lacks(a, '?'),
        lacks(x, '?'),
        lacks(x, ':'),
        lacks(y, '?'),
        lacks(y, ':'),
        lacks(z, '?'),
        lacks(z, ':'),
    ensures
        ({
            let inner = written(x) + seq!['?'] + written(y) + seq![':'] + written(z);
            ternary(written(a) + seq!['?'] + inner + seq![':'] + rest) == Some(
                (written(a).len() as int, written(a).len() + 1 + inner.len() as int),
            )
        }),
{
    let inner = written(x) + seq!['?'] + written(y) + seq![':'] + written(z);
    let tail = inner + seq![':'] + rest;
    let s = written(a) + seq!['?'] + inner + seq![':'] + rest;
    let p = written(a).len() as int;
    assert(s =~= written(a) + seq!['?'] + tail);
    needles_are_found_at_top_level(a, seq!['?'], tail);
    assert(s.skip(p + 1) =~= tail);
    let i = written(x).len() as int;
    let j = i + 1 + written(y).len();
    assert(stand_at(tail, 0, x));
    lemma_colon_skip(tail, 0, 0, x);
    assert(tail[i] == '?');
    assert(stand_at(tail, i + 1, y));
    lemma_colon_skip(tail, i + 1, 1, y);
    assert(tail[j] == ':');
    assert(stand_at(tail, j + 1, z));
    lemma_colon_skip(tail, j + 1, 0, z);
}

/// Without a question mark outside quotes and brackets there is no conditional.
pub proof fn no_question_no_conditional(l: Seq<Piece>)
    requires
        good(l),
        lacks(l, '?'),
    ensures
        ternary(written(l)) is None,
{
    needles_in_quotes_and_brackets_are_hidden(l, seq!['?']);
}

// ---------------------------------------------------------------------------
// Arguments
// ---------------------------------------------------------------------------

proof fn lemma_args_deep(s: Seq<char>, start: int, i: int, depth: int, l: Seq<Piece>)
    requires
        stand_at(s, i, l),
        good(l),
        depth >= 1,
    ensures
        args_from(s, start, i, depth) == args_from(s, start, i + written(l).len(), depth),
    decreases l,
{
    if l.len() > 0 {
        lemma_front(s, i, l);
        lemma_good(l);
        match l[0] {
            Piece::Plain(_) => {},
            Piece::Quoted(q, inner) => {
                lemma_past_quoted(s, i, q, inner);
            },
            Piece::Grouped(_, inner, _) => {
                lemma_args_deep(s, start, i + 1, depth + 1, inner);
            },
        }
        lemma_args_deep(s, start, i + piece_text(l[0]).len(), depth, l.skip(1));
    }
}

proof fn lemma_args_skip(s: Seq<char>, start: int, i: int, l: Seq<Piece>)
    requires
        stand_at(s, i, l),
        good(l),
        lacks(l, ','),
    ensures
        args_from(s, start, i, 0) == args_from(s, start, i + written(l).len(), 0),
    decreases l,
{
    if l.len() > 0 {
        lemma_front(s, i, l);
        lemma_good(l);
        assert(l[0] != Piece::Plain(','));
        match l[0] {
            Piece::Plain(_) => {},
            Piece::Quoted(q, inner) => {
                lemma_past_quoted(s, i, q, inner);
            },
            Piece::Grouped(_, inner, _) => {
                lemma_args_deep(s, start, i + 1, 1, inner);
            },
        }
        let r = l.skip(1);
        assert forall|k: int| 0 <= k < r.len() implies #[trigger] r[k] != Piece::Plain(',') by {
            assert(r[k] == l[k + 1]);
        }
        lemma_args_skip(s, start, i + piece_text(l[0]).len(), r);
    }
}

/// One argument without a comma of its own.
pub proof fn one_argument(a: Seq<Piece>)
    requires
        good(a),
        lacks(a, ','),
        written(a).len() > 0,
    ensures
        args(written(a)) == seq![written(a)],
{
    let s = written(a);
    assert(stand_at(s, 0, a));
    lemma_args_skip(s, 0, 0, a);
    assert(s.skip(0) =~= s);
}

/// Two arguments with a comma between them.
pub proof fn two_arguments(a: Seq<Piece>, b: Seq<Piece>)
    requires
        good(a),
        good(b),
        lacks(a, ','),
        lacks(b, ','),
    ensures
        args(written(a) + seq![','] + written(b)) == seq![written(a), written(b)],
{
    let s = written(a) + seq![','] + written(b);
    let n = written(a).len() as int;
    assert(stand_at(s, 0, a));
    lemma_args_skip(s, 0, 0, a);
    assert(s[n] == ',');
    assert(s.subrange(0, n) =~= written(a));
    assert(stand_at(s, n + 1, b));
    lemma_args_skip(s, n + 1, n + 1, b);
    assert(s.skip(n + 1) =~= written(b));
    assert(seq![written(a)] + seq![written(b)] =~= seq![written(a), written(b)]);
}

/// Three arguments with commas between them.
pub proof fn three_arguments(a: Seq<Piece>, b: Seq<Piece>, c: Seq<Piece>)
    requires
        good(a),
        good(b),
        good(c),
        lacks(a, ','),
        lacks(b, ','),
        lacks(c, ','),
    ensures
        args(written(a) + seq![','] + written(b) + seq![','] + written(c)) == seq![
            written(a),
            written(b),
            written(c),
        ],
{
    let s = written(a) + seq![','] + written(b) + seq![','] + written(c);
    let n = written(a).len() as int;
    let m = n + 1 + written(b).len();
    assert(stand_at(s, 0, a));
    lemma_args_skip(s, 0, 0, a);
    assert(s[n] == ',');
    assert(s.subrange(0, n) =~= written(a));
    assert(stand_at(s, n + 1, b));
    lemma_args_skip(s, n + 1, n + 1, b);
    assert(s[m] == ',');
    assert(s.subrange(n + 1, m) =~= written(b));
    assert(stand_at(s, m + 1, c));
    lemma_args_skip(s, m + 1, m + 1, c);
    assert(s.skip(m + 1) =~= written(c));
    assert(seq![written(a)] + (seq![written(b)] + seq![written(c)]) =~= seq![
        written(a),
        written(b),
        written(c),
    ]);
}

// ---------------------------------------------------------------------------
// Parentheses
// ---------------------------------------------------------------------------

/// Only round brackets, each with its partner, and no quoted one.
pub open spec fn round_piece(p: Piece) -> bool
    decreases p,
{
    match p {
        Piece::Plain(c) => c != '(' && c != ')',
        Piece::Quoted(q, inner) => q != '(' && q != ')' && !inner.contains('(') && !inner.contains(')'),
        Piece::Grouped(o, inner, c) => o == '(' && c == ')' && round(inner),
    }
}

pub open spec fn round(l: Seq<Piece>) -> bool
    decreases l,
{
    l.len() > 0 ==> round_piece(l[0]) && round(l.skip(1))
}

proof fn lemma_round(l: Seq<Piece>)
    requires
        round(l),
        l.len() > 0,
    ensures
        round(l.skip(1)),
        match l[0] {
            Piece::Plain(c) => c != '(' && c != ')',
            Piece::Quoted(q, inner) => q != '(' && q != ')' && !inner.contains('(') && !inner.contains(
                ')',
            ),
            Piece::Grouped(o, inner, c) => o == '(' && c == ')' && round(inner),
        },
{
    reveal_with_fuel(round, 2);
    reveal_with_fuel(round_piece, 2);
}

proof fn lemma_close_flat(s: Seq<char>, i: int, end: int, depth: int)
    requires
        0 <= i <= end <= s.len(),
        forall|k: int| i <= k < end ==> #[trigger] s[k] != '(' && s[k] != ')',
    ensures
        close_from(s, i, depth) == close_from(s, end, depth),
    decreases end - i,
{
    if i < end {
        assert(s[i] != '(' && s[i] != ')');
        lemma_close_flat(s, i + 1, end, depth);
    }
}

proof fn lemma_close_skip(s: Seq<char>, i: int, depth: int, l: Seq<Piece>)
    requires
        stand_at(s, i, l),
        round(l),
        depth >= 1,
    ensures
        close_from(s, i, depth) == close_from(s, i + written(l).len(), depth),
    decreases l,
{
    if l.len() > 0 {
        lemma_front(s, i, l);
        lemma_round(l);
        let n = piece_text(l[0]).len();
        match l[0] {
            Piece::Plain(_) => {},
            Piece::Quoted(q, inner) => {
                assert forall|k: int| i <= k < i + n implies #[trigger] s[k] != '(' && s[k] != ')' by {
                    if i < k < i + n - 1 {
                        assert(s[i + 1 + (k - i - 1)] == inner[k - i - 1]);
                        assert(inner.contains(inner[k - i - 1]));
                    }
                }
                lemma_close_flat(s, i, i + n, depth);
            },
            Piece::Grouped(_, inner, _) => {
                lemma_close_skip(s, i + 1, depth + 1, inner);
            },
        }
        lemma_close_skip(s, i + n, depth, l.skip(1));
    }
}

/// An opened parenthesis is closed by its partner, behind all that it holds.
pub proof fn parentheses_are_paired(front: Seq<char>, l: Seq<Piece>, rest: Seq<char>)
    requires
        round(l),
    ensures
        closing(front + seq!['('] + written(l) + seq![')'] + rest, front.len() as int) == Some(
            front.len() + 1 + written(l).len() as int,
        ),
{
    let s = front + seq!['('] + written(l) + seq![')'] + rest;
    let i = front.len() as int;
    assert(s[i] == '(');
    assert(stand_at(s, i + 1, l));
    lemma_close_skip(s, i + 1, 1, l);
    assert(s[i + 1 + written(l).len()] == ')');
}

} // verus!
