//! What evaluating a binding promises.
use crate::ask::{answer_in, done, AskView, OutView, Relation, Topic};
use crate::binding::{
    bool_text, eval_view, first_relation, logic_view, relate, symbol, truth_of, truth_view, Scope,
};
use crate::scan::{number_text, quoted, stands_at, top_index, unquoted};
use crate::scan_laws::{
    conditionals_are_cut, good, lacks, needles_are_found_at_top_level,
    partial_needles_are_not_found, piece_text, plain_char, written, Piece,
};
use crate::text::{has_prefix, lex_less, trimmed, trimmed_start};
use crate::text_laws::{tight, tight_texts_stay};
use vstd::prelude::*;

verus! {

/// An expression without space around it, and not one quoted text as a whole.
pub open spec fn bare(e: Seq<char>) -> bool {
    &&& e.len() > 0
    &&& tight(e)
    &&& !((e[0] == '\'' || e[0] == '"') && e.len() >= 2 && e.last() == e[0])
}

proof fn lemma_bare(e: Seq<char>)
    requires
        bare(e),
    ensures
        trimmed(e) == e,
        !quoted(e),
{
    tight_texts_stay(e);
}

/// The texts of the two truth values are told apart.
proof fn lemma_truth_texts(b: bool, c: Scope, default: bool)
    ensures
        truth_of(bool_text(b), c, default) == done(b),
        bool_text(b) == if b {
            "true"@
        } else {
            "false"@
        },
{
    reveal_strlit("true");
    reveal_strlit("false");
    reveal_strlit("1");
    reveal_strlit("0");
    tight_texts_stay("true"@);
    tight_texts_stay("false"@);
}

/// A text that says yes or no, or a count, decides; what says nothing leaves the
/// default. Space around it does not matter.
pub proof fn texts_that_decide(v: Seq<char>, c: Scope, default: bool)
    ensures
        trimmed(v) == "true"@ || trimmed(v) == "1"@ ==> truth_of(v, c, default) == done(true),
        trimmed(v) == "false"@ || trimmed(v) == "0"@ || trimmed(v).len() == 0 ==> truth_of(
            v,
            c,
            default,
        ) == done(false),
        trimmed(v).len() > 0 && trimmed(v) != "true"@ && trimmed(v) != "false"@ && !number_text(
            trimmed(v),
        ) ==> truth_of(v, c, default) == done(default),
{
    reveal_strlit("true");
    reveal_strlit("false");
    reveal_strlit("1");
    reveal_strlit("0");
    crate::number_laws::digits_are_numbers("1"@);
    crate::number_laws::digits_are_numbers("0"@);
    assert("true"@.len() == 4 && "false"@.len() == 5 && "1"@.len() == 1 && "0"@.len() == 1);
    assert("1"@[0] == '1' && "0"@[0] == '0');
}

/// A number other than zero and one is true if the caller says that it differs
/// from zero.
pub proof fn numbers_that_decide(v: Seq<char>, c: Scope, default: bool, reply: Option<Seq<char>>)
    requires
        number_text(trimmed(v)),
        trimmed(v) != "1"@,
        trimmed(v) != "0"@,
        answer_in(
            c.answers.entries@,
            AskView { topic: Topic::NonZero, a: trimmed(v), b: Seq::empty(), c: Seq::empty() },
        ) == Some(reply),
    ensures
        truth_of(v, c, default) == done(reply == Some("true"@)),
{
    reveal_strlit("true");
    reveal_strlit("false");
    crate::number_laws::words_are_no_numbers("true"@);
    crate::number_laws::words_are_no_numbers("false"@);
    crate::number_laws::empty_is_no_number();
    assert(trimmed(v).len() > 0) by {
        if trimmed(v).len() == 0 {
            assert(trimmed(v) =~= Seq::empty());
        }
    }
}

// ---------------------------------------------------------------------------
// Logic
// ---------------------------------------------------------------------------

/// `a && b` is true exactly if both are.
pub proof fn both_must_hold(
    a: Seq<Piece>,
    b: Seq<Piece>,
    c: Scope,
    default: bool,
    x: bool,
    n: Seq<Seq<char>>,
    y: bool,
    m: Seq<Seq<char>>,
)
    requires
        good(a),
        good(b),
        lacks(a, '?'),
        lacks(b, '?'),
        lacks(a, '|'),
        lacks(b, '|'),
        lacks(a, '&'),
        bare(written(a) + seq!['&', '&'] + written(b)),
        truth_view(written(a), c, false) == OutView::Done(x, n),
        truth_view(written(b), c, false) == OutView::Done(y, m),
    ensures
        eval_view(written(a) + seq!['&', '&'] + written(b), c) == OutView::Done(
            if x && y {
                "true"@
            } else {
                "false"@
            },
            n + m,
        ),
        truth_view(written(a) + seq!['&', '&'] + written(b), c, default) == OutView::Done(
            x && y,
            n + m + Seq::empty(),
        ),
{
    let s = seq!['&', '&'];
    let e = written(a) + s + written(b);
    lemma_bare(e);
    let p = written(a).len() as int;
    assert(e[p] == '&' && e[p + 1] == '&');
    lemma_not_in(a, s, b, seq!['?']);
    lemma_not_in(a, s, b, seq!['|', '|']);
    needles_are_found_at_top_level(a, s, written(b));
    assert(e.take(p) =~= written(a));
    assert(e.skip(p + 2) =~= written(b));
    assert(logic_view(e, c) == Some(OutView::Done(x && y, n + m)));
    lemma_truth_texts(x && y, c, default);
}

/// A needle that stands neither in the pieces nor among the characters between
/// them is not found.
proof fn lemma_not_in(a: Seq<Piece>, mid: Seq<char>, b: Seq<Piece>, needle: Seq<char>)
    requires
        good(a),
        good(b),
        needle.len() > 0,
        lacks(a, needle[0]),
        lacks(b, needle[0]),
        forall|i: int| 0 <= i < mid.len() ==> plain_char(#[trigger] mid[i]) && mid[i] != needle[0],
    ensures
        top_index(written(a) + mid + written(b), needle) is None,
{
    let e = written(a) + mid + written(b);
    let p = written(a).len() as int;
    assert forall|i: int| 0 <= i < mid.len() implies !stands_at(e, needle, #[trigger] (written(a).len()
        + i)) by {
        assert(e[p + i] == mid[i]);
        if stands_at(e, needle, p + i) {
            assert(e.subrange(p + i, p + i + needle.len())[0] == e[p + i]);
        }
    }
    partial_needles_are_not_found(a, mid, b, needle);
}

/// `a || b` is true exactly if at least one is; `&&` binds closer.
pub proof fn one_is_enough(
    a: Seq<Piece>,
    b: Seq<Piece>,
    c: Scope,
    default: bool,
    x: bool,
    n: Seq<Seq<char>>,
    y: bool,
    m: Seq<Seq<char>>,
)
    requires
        good(a),
        good(b),
        lacks(a, '?'),
        lacks(b, '?'),
        lacks(a, '|'),
        bare(written(a) + seq!['|', '|'] + written(b)),
        truth_view(written(a), c, false) == OutView::Done(x, n),
        truth_view(written(b), c, false) == OutView::Done(y, m),
    ensures
        eval_view(written(a) + seq!['|', '|'] + written(b), c) == OutView::Done(
            if x || y {
                "true"@
            } else {
                "false"@
            },
            n + m,
        ),
        truth_view(written(a) + seq!['|', '|'] + written(b), c, default) == OutView::Done(
            x || y,
            n + m + Seq::empty(),
        ),
{
    let s = seq!['|', '|'];
    let e = written(a) + s + written(b);
    lemma_bare(e);
    let p = written(a).len() as int;
    lemma_not_in(a, s, b, seq!['?']);
    needles_are_found_at_top_level(a, s, written(b));
    assert(e.take(p) =~= written(a));
    assert(e.skip(p + 2) =~= written(b));
    assert(logic_view(e, c) == Some(OutView::Done(x || y, n + m)));
    lemma_truth_texts(x || y, c, default);
}

/// `!a` is true exactly if `a` is not.
pub proof fn negation_turns_round(
    a: Seq<Piece>,
    c: Scope,
    default: bool,
    x: bool,
    n: Seq<Seq<char>>,
)
    requires
        good(a),
        lacks(a, '?'),
        lacks(a, '|'),
        lacks(a, '&'),
        bare(seq!['!'] + written(a)),
        !has_prefix(trimmed_start(written(a)), seq!['=']),
        truth_view(written(a), c, false) == OutView::Done(x, n),
    ensures
        eval_view(seq!['!'] + written(a), c) == OutView::Done(
            if x {
                "false"@
            } else {
                "true"@
            },
            n,
        ),
        truth_view(seq!['!'] + written(a), c, default) == OutView::Done(!x, n + Seq::empty()),
{
    let none = Seq::<Piece>::empty();
    let e = seq!['!'] + written(a);
    lemma_bare(e);
    assert(written(none) + seq!['!'] + written(a) =~= e);
    lemma_not_in(none, seq!['!'], a, seq!['?']);
    lemma_not_in(none, seq!['!'], a, seq!['|', '|']);
    lemma_not_in(none, seq!['!'], a, seq!['&', '&']);
    assert(e.skip(1) =~= written(a));
    assert(logic_view(e, c) == Some(OutView::Done(!x, n)));
    lemma_truth_texts(!x, c, default);
}

/// A conditional is its first branch where the condition is true, else its
/// second.
pub proof fn conditions_choose(
    a: Seq<Piece>,
    b: Seq<Piece>,
    d: Seq<char>,
    c: Scope,
    x: bool,
    n: Seq<Seq<char>>,
    v: Seq<char>,
    m: Seq<Seq<char>>,
)
    requires
        good(a),
        good(b),
        lacks(a, '?'),
        lacks(b, '?'),
        lacks(b, ':'),
        bare(written(a) + seq!['?'] + written(b) + seq![':'] + d),
        truth_view(written(a), c, false) == OutView::Done(x, n),
        x ==> eval_view(written(b), c) == OutView::Done(v, m),
        !x ==> eval_view(d, c) == OutView::Done(v, m),
    ensures
        eval_view(written(a) + seq!['?'] + written(b) + seq![':'] + d, c) == OutView::Done(v, n + m),
{
    let e = written(a) + seq!['?'] + written(b) + seq![':'] + d;
    lemma_bare(e);
    conditionals_are_cut(a, b, d);
    let p = written(a).len() as int;
    let q = p + 1 + written(b).len();
    assert(e.take(p) =~= written(a));
    assert(e.subrange(p + 1, q) =~= written(b));
    assert(e.skip(q + 1) =~= d);
}

// ---------------------------------------------------------------------------
// Comparisons
// ---------------------------------------------------------------------------

/// No character of a comparison, of logic or of a conditional.
pub open spec fn operand(l: Seq<Piece>) -> bool {
    &&& good(l)
    &&& lacks(l, '?')
    &&& lacks(l, '|')
    &&& lacks(l, '&')
    &&& lacks(l, '=')
    &&& lacks(l, '!')
    &&& lacks(l, '<')
    &&& lacks(l, '>')
}

/// How a comparison is written.
pub open spec fn sign(r: Relation) -> Seq<char> {
    match r {
        Relation::Eq => "=="@,
        Relation::Ne => "!="@,
        Relation::Ge => ">="@,
        Relation::Le => "<="@,
        Relation::Gt => ">"@,
        Relation::Lt => "<"@,
    }
}

proof fn lemma_signs(r: Relation)
    ensures
        sign(r) == symbol(r),
        1 <= sign(r).len() <= 2,
        forall|i: int|
            0 <= i < sign(r).len() ==> (#[trigger] sign(r)[i] == '=' || sign(r)[i] == '!' || sign(r)[i]
                == '<' || sign(r)[i] == '>'),
        sign(r).len() == 2 ==> sign(r)[1] == '=',
{
    reveal_strlit("==");
    reveal_strlit("!=");
    reveal_strlit(">=");
    reveal_strlit("<=");
    reveal_strlit(">");
    reveal_strlit("<");
    assert(sign(r) =~= symbol(r));
}

/// The first character of a text of pieces that lack a plain character is not
/// that character.
pub(crate) proof fn lemma_first_char(l: Seq<Piece>, c: char)
    requires
        good(l),
        lacks(l, c),
        plain_char(c),
        written(l).len() > 0,
    ensures
        written(l)[0] != c,
{
    reveal_with_fuel(good, 2);
    reveal_with_fuel(crate::scan_laws::good_piece, 2);
    if l.len() > 0 {
        assert(l[0] != Piece::Plain(c));
        assert(written(l) == piece_text(l[0]) + written(l.skip(1)));
        match l[0] {
            Piece::Plain(d) => {
                assert(piece_text(l[0])[0] == d);
            },
            Piece::Quoted(q, inner) => {
                assert(piece_text(l[0])[0] == q);
            },
            Piece::Grouped(o, inner, _) => {
                assert(piece_text(l[0])[0] == o);
            },
        }
    }
}

/// Another comparison does not stand where this one does.
proof fn lemma_other_relation(a: Seq<Piece>, r: Relation, b: Seq<Piece>, o: Relation)
    requires
        operand(a),
        operand(b),
        o != r,
        !(o == Relation::Gt && r == Relation::Ge),
        !(o == Relation::Lt && r == Relation::Le),
    ensures
        top_index(written(a) + sign(r) + written(b), sign(o)) is None,
{
    lemma_signs(r);
    lemma_signs(o);
    reveal_strlit("==");
    reveal_strlit("!=");
    reveal_strlit(">=");
    reveal_strlit("<=");
    reveal_strlit(">");
    reveal_strlit("<");
    let e = written(a) + sign(r) + written(b);
    let p = written(a).len() as int;
    let needle = sign(o);
    if written(b).len() > 0 {
        lemma_first_char(b, '=');
        assert(e[p + sign(r).len()] == written(b)[0]);
    }
    assert forall|i: int| 0 <= i < sign(r).len() implies !stands_at(e, needle, #[trigger] (written(
        a,
    ).len() + i)) by {
        assert(e[p + i] == sign(r)[i]);
        if sign(r).len() == 2 {
            assert(e[p + 1] == '=');
        }
        if stands_at(e, needle, p + i) {
            let w = e.subrange(p + i, p + i + needle.len());
            assert(w[0] == e[p + i]);
            if needle.len() == 2 {
                assert(w[1] == e[p + i + 1]);
                assert(needle[1] == '=');
                if i == sign(r).len() - 1 {
                    assert(written(b).len() > 0);
                }
            }
        }
    }
    partial_needles_are_not_found(a, sign(r), b, needle);
}

proof fn lemma_compared(a: Seq<Piece>, r: Relation, b: Seq<Piece>, c: Scope)
    requires
        operand(a),
        operand(b),
        written(a).len() > 0,
        bare(written(a) + sign(r) + written(b)),
    ensures
        eval_view(written(a) + sign(r) + written(b), c) == (match eval_view(written(a), c) {
            OutView::Need(q) => OutView::Need(q),
            OutView::Done(x, n) => match eval_view(written(b), c) {
                OutView::Need(q) => OutView::Need(q),
                OutView::Done(y, m) => match relate(r, x, y, c) {
                    OutView::Need(q) => OutView::Need(q),
                    OutView::Done(v, k) => OutView::Done(bool_text(v), n + m + k),
                },
            },
        }),
{
    let e = written(a) + sign(r) + written(b);
    let p = written(a).len() as int;
    lemma_bare(e);
    lemma_signs(r);
    lemma_not_in(a, sign(r), b, seq!['?']);
    lemma_not_in(a, sign(r), b, seq!['|', '|']);
    lemma_not_in(a, sign(r), b, seq!['&', '&']);
    lemma_first_char(a, '!');
    assert(e[0] == written(a)[0]);
    lemma_signs(Relation::Eq);
    lemma_signs(Relation::Ne);
    lemma_signs(Relation::Ge);
    lemma_signs(Relation::Le);
    lemma_signs(Relation::Gt);
    lemma_signs(Relation::Lt);
    if r != Relation::Eq {
        lemma_other_relation(a, r, b, Relation::Eq);
    }
    if r != Relation::Ne {
        lemma_other_relation(a, r, b, Relation::Ne);
    }
    if r != Relation::Ge {
        lemma_other_relation(a, r, b, Relation::Ge);
    }
    if r != Relation::Le {
        lemma_other_relation(a, r, b, Relation::Le);
    }
    if r != Relation::Gt && r != Relation::Ge {
        lemma_other_relation(a, r, b, Relation::Gt);
    }
    assert(sign(r)[0] == '=' || sign(r)[0] == '!' || sign(r)[0] == '<' || sign(r)[0] == '>');
    needles_are_found_at_top_level(a, sign(r), written(b));
    assert(first_relation(e) == Some((r, p)));
    assert(e.take(p) =~= written(a));
    assert(e.skip(p + symbol(r).len()) =~= written(b));
    assert(logic_view(e, c) is Some);
}

/// Values that are not both numbers are compared as texts, quotes and the space
/// around them taken off: `==` and `!=` by equality, the others by the order of
/// code points.
pub proof fn texts_are_compared(
    a: Seq<Piece>,
    r: Relation,
    b: Seq<Piece>,
    c: Scope,
    x: Seq<char>,
    n: Seq<Seq<char>>,
    y: Seq<char>,
    m: Seq<Seq<char>>,
)
    requires
        operand(a),
        operand(b),
        written(a).len() > 0,
        bare(written(a) + sign(r) + written(b)),
        eval_view(written(a), c) == OutView::Done(x, n),
        eval_view(written(b), c) == OutView::Done(y, m),
        !number_text(trimmed(x)) || !number_text(trimmed(y)),
    ensures
        ({
            let u = unquoted(trimmed(x));
            let v = unquoted(trimmed(y));
            let holds = match r {
                Relation::Eq => u == v,
                Relation::Ne => u != v,
                Relation::Lt => lex_less(u, v),
                Relation::Gt => lex_less(v, u),
                Relation::Le => u == v || lex_less(u, v),
                Relation::Ge => u == v || lex_less(v, u),
            };
            eval_view(written(a) + sign(r) + written(b), c) == OutView::Done(
                if holds {
                    "true"@
                } else {
                    "false"@
                },
                n + m + Seq::empty(),
            )
        }),
{
    lemma_compared(a, r, b, c);
    let u = unquoted(trimmed(x));
    let v = unquoted(trimmed(y));
    crate::text::lex_is_linear(u, v);
    crate::text::lex_is_linear(v, u);
}

/// Two numbers are compared as the caller says, first the left one.
pub proof fn numbers_are_compared(
    a: Seq<Piece>,
    r: Relation,
    b: Seq<Piece>,
    c: Scope,
    x: Seq<char>,
    n: Seq<Seq<char>>,
    y: Seq<char>,
    m: Seq<Seq<char>>,
    reply: Option<Seq<char>>,
)
    requires
        operand(a),
        operand(b),
        written(a).len() > 0,
        bare(written(a) + sign(r) + written(b)),
        eval_view(written(a), c) == OutView::Done(x, n),
        eval_view(written(b), c) == OutView::Done(y, m),
        number_text(trimmed(x)),
        number_text(trimmed(y)),
        answer_in(
            c.answers.entries@,
            AskView { topic: Topic::Relate(r), a: trimmed(x), b: trimmed(y), c: Seq::empty() },
        ) == Some(reply),
    ensures
        eval_view(written(a) + sign(r) + written(b), c) == OutView::Done(
            if reply == Some("true"@) {
                "true"@
            } else {
                "false"@
            },
            n + m + Seq::empty(),
        ),
{
    lemma_compared(a, r, b, c);
}

/// The quotes around a text come off, both kinds, and only in pairs.
pub proof fn quotes_come_off(q: char, s: Seq<char>)
    requires
        q == '\'' || q == '"',
    ensures
        unquoted(seq![q] + s + seq![q]) == s,
        s.len() > 0 && s[0] != '\'' && s[0] != '"' ==> unquoted(s) == s,
        s.len() > 0 && s.last() != s[0] ==> unquoted(s) == s,
{
    let t = seq![q] + s + seq![q];
    assert(t.subrange(1, t.len() - 1) =~= s);
}

} // verus!
