//! Laws of evaluation: what questions and answers may and may not change.
use crate::ask::{answer_in, done, AskView, OutView, Topic};
use crate::binding::{
    ask1, call_body, eval_view, figure_view, first_relation, lemma_closing, lemma_first_relation,
    lemma_token_end, lemma_trimmed_len, local_value, logic_view, looks_like_math, measure, noted,
    numeric_view, path_number, property, relate, substituted, symbol, term_view, token_end,
    truth_of, truth_view, width_call, width_view, Scope,
};
use crate::scan::{
    args, lemma_args, lemma_past, lemma_ternary, lemma_top_from, past, quote_char, quoted, ternary,
    top_index, unquoted,
};
use crate::text::trimmed;
use vstd::prelude::*;

verus! {

/// The second scope knows every answer of the first and is otherwise the same.
pub open spec fn knows_more(a: Scope, b: Scope) -> bool {
    &&& b == (Scope { answers: b.answers, ..a })
    &&& forall|q: AskView|
        #[trigger] answer_in(a.answers.entries@, q) is Some ==> answer_in(b.answers.entries@, q)
            == answer_in(a.answers.entries@, q)
}

/// An outcome that is settled stays the same; one that asks, asks for
/// something that is not known yet.
pub open spec fn keeps<T>(a: Scope, x: OutView<T>, y: OutView<T>) -> bool {
    match x {
        OutView::Done(_, _) => y == x,
        OutView::Need(q) => answer_in(a.answers.entries@, q) is None,
    }
}

pub proof fn lemma_ask(a: Scope, b: Scope, q: AskView)
    requires
        knows_more(a, b),
    ensures
        keeps(a, a.answers.asked(q), b.answers.asked(q)),
{
    if answer_in(a.answers.entries@, q) is Some {
        assert(answer_in(b.answers.entries@, q) == answer_in(a.answers.entries@, q));
    }
}

proof fn lemma_ask1(a: Scope, b: Scope, topic: Topic, t: Seq<char>)
    requires
        knows_more(a, b),
    ensures
        keeps(a, ask1(a, topic, t), ask1(b, topic, t)),
{
    lemma_ask(a, b, AskView { topic, a: t, b: Seq::empty(), c: Seq::empty() });
}

proof fn lemma_path_number(a: Scope, b: Scope, t: Seq<char>)
    requires
        knows_more(a, b),
    ensures
        keeps(a, path_number(t, a), path_number(t, b)),
{
    match local_value(a.locals, t) {
        Some(v) => {
            lemma_ask1(a, b, Topic::Reprint, v);
        },
        None => {
            lemma_ask1(
                a,
                b,
                Topic::Reprint,
                crate::text::decimal(a.launcher.selected_index as nat),
            );
            lemma_ask1(a, b, Topic::Reprint, crate::text::decimal(a.launcher.results@.len()));
        },
    }
}

pub open spec fn keeps_opt<T>(a: Scope, x: Option<OutView<T>>, y: Option<OutView<T>>) -> bool {
    match x {
        Some(o) => y is Some && keeps(a, o, y->0),
        None => y is None,
    }
}

proof fn lemma_property(a: Scope, b: Scope, t: Seq<char>)
    requires
        knows_more(a, b),
    ensures
        keeps_opt(a, property(t, a), property(t, b)),
{
    if let Some(e) = a.launcher.selected() {
        lemma_ask1(a, b, Topic::Icon, e.icon@);
    }
    let o = crate::binding::after(t, "launcher.results["@);
    if let Some(rest) = o {
        let k = crate::text::index_or_len(rest, ']');
        if k < rest.len() {
            match crate::text::unsigned_value(trimmed(rest.take(k as int)), usize::MAX as nat) {
                Some(i) => {
                    if i < a.launcher.results@.len() {
                        lemma_ask1(a, b, Topic::Icon, a.launcher.results@[i as int].icon@);
                    }
                },
                None => {},
            }
        }
    }
}

proof fn lemma_relate(a: Scope, b: Scope, r: crate::ask::Relation, x: Seq<char>, y: Seq<char>)
    requires
        knows_more(a, b),
    ensures
        keeps(a, relate(r, x, y, a), relate(r, x, y, b)),
{
    lemma_ask(
        a,
        b,
        AskView { topic: Topic::Relate(r), a: trimmed(x), b: trimmed(y), c: Seq::empty() },
    );
}

proof fn lemma_truth_of(a: Scope, b: Scope, v: Seq<char>, default: bool)
    requires
        knows_more(a, b),
    ensures
        keeps(a, truth_of(v, a, default), truth_of(v, b, default)),
{
    lemma_ask1(a, b, Topic::NonZero, trimmed(v));
}

proof fn lemma_measure(
    a: Scope,
    b: Scope,
    text: Seq<char>,
    size: Option<Seq<char>>,
    family: Seq<char>,
    topic: Topic,
)
    requires
        knows_more(a, b),
    ensures
        keeps(a, measure(text, size, family, a, topic), measure(text, size, family, b, topic)),
{
    let s = match size {
        Some(t) => t,
        None => "15"@,
    };
    lemma_ask(a, b, AskView { topic, a: text, b: s, c: family });
}

proof fn lemma_width(s: Seq<char>, a: Scope, b: Scope, topic: Topic)
    requires
        knows_more(a, b),
    ensures
        keeps(a, width_view(s, a, topic), width_view(s, b, topic)),
    decreases s.len(), 3nat, 0int,
{
    let l = args(s);
    if l.len() >= 2 {
        lemma_args(s);
        lemma_trimmed_len(l[1]);
        lemma_eval(l[0], a, b);
        lemma_figure(trimmed(l[1]), a, b);
        if l.len() >= 3 {
            lemma_eval(l[2], a, b);
        }
        if let OutView::Done(text, _) = eval_view(l[0], a) {
            if let OutView::Done(size, _) = figure_view(trimmed(l[1]), a) {
                let family = if l.len() >= 3 {
                    eval_view(l[2], a)
                } else {
                    done(Seq::empty())
                };
                if let OutView::Done(fam, _) = family {
                    lemma_measure(a, b, text, size, fam, topic);
                }
            }
        }
    }
}

pub proof fn lemma_figure(e: Seq<char>, a: Scope, b: Scope)
    requires
        knows_more(a, b),
    ensures
        keeps(a, figure_view(e, a), figure_view(e, b)),
    decreases e.len(), 2nat, 0int,
{
    lemma_eval(e, a, b);
}

pub proof fn lemma_truth(e: Seq<char>, a: Scope, b: Scope, default: bool)
    requires
        knows_more(a, b),
    ensures
        keeps(a, truth_view(e, a, default), truth_view(e, b, default)),
    decreases e.len(), 2nat, 0int,
{
    lemma_eval(e, a, b);
    if let OutView::Done(v, _) = eval_view(e, a) {
        lemma_truth_of(a, b, v, default);
    }
}

proof fn lemma_logic(t: Seq<char>, a: Scope, b: Scope)
    requires
        knows_more(a, b),
    ensures
        keeps_opt(a, logic_view(t, a), logic_view(t, b)),
    decreases t.len(), 0nat, t.len() + 3,
{
    lemma_top_from(t, seq!['|', '|'], 0, 0);
    lemma_top_from(t, seq!['&', '&'], 0, 0);
    lemma_first_relation(t);
    let or = top_index(t, seq!['|', '|']);
    let and = top_index(t, seq!['&', '&']);
    if or is Some {
        lemma_truth(t.take(or->0), a, b, false);
        lemma_truth(t.skip(or->0 + 2), a, b, false);
    } else if and is Some {
        lemma_truth(t.take(and->0), a, b, false);
        lemma_truth(t.skip(and->0 + 2), a, b, false);
    } else if t.len() > 0 && t[0] == '!' && !crate::text::has_prefix(
        crate::text::trimmed_start(t.skip(1)),
        seq!['='],
    ) {
        lemma_truth(t.skip(1), a, b, false);
    } else {
        match first_relation(t) {
            None => {},
            Some((r, p)) => {
                let x = t.take(p);
                let y = t.skip(p + symbol(r).len());
                lemma_eval(x, a, b);
                lemma_eval(y, a, b);
                if let OutView::Done(av, _) = eval_view(x, a) {
                    if let OutView::Done(bv, _) = eval_view(y, a) {
                        lemma_relate(a, b, r, av, bv);
                    }
                }
            },
        }
    }
}

proof fn lemma_term(t: Seq<char>, a: Scope, b: Scope)
    requires
        knows_more(a, b),
    ensures
        keeps(a, term_view(t, a), term_view(t, b)),
    decreases t.len(), 0nat, t.len() + 3,
{
    let width = call_body(t, "text_width("@);
    let upper = call_body(t, "upper("@);
    let lower = call_body(t, "lower("@);
    let initial = call_body(t, "initial("@);
    if width is Some && args(width->0).len() >= 2 {
        lemma_width(width->0, a, b, Topic::RoundedWidth);
    } else if upper is Some && args(upper->0).len() >= 1 {
        lemma_args(upper->0);
        lemma_eval(args(upper->0)[0], a, b);
    } else if lower is Some && args(lower->0).len() >= 1 {
        lemma_args(lower->0);
        lemma_eval(args(lower->0)[0], a, b);
    } else if initial is Some && args(initial->0).len() >= 1 {
        lemma_args(initial->0);
        lemma_eval(args(initial->0)[0], a, b);
    } else {
        lemma_property(a, b, t);
        if property(t, a) is None {
            lemma_numeric(t, a, b);
        }
    }
}

proof fn lemma_numeric(t: Seq<char>, a: Scope, b: Scope)
    requires
        knows_more(a, b),
    ensures
        keeps(a, numeric_view(t, a), numeric_view(t, b)),
    decreases t.len(), 0nat, t.len() + 2,
{
    if looks_like_math(t) {
        lemma_substituted(t, 0, a, b);
        if let OutView::Done(x, _) = substituted(t, 0, a) {
            lemma_ask1(a, b, Topic::Arithmetic, x);
        }
    }
}

proof fn lemma_substituted(t: Seq<char>, i: int, a: Scope, b: Scope)
    requires
        knows_more(a, b),
        0 <= i,
    ensures
        keeps(a, substituted(t, i, a), substituted(t, i, b)),
    decreases t.len(), 0nat, t.len() - i,
{
    if i < t.len() {
        if quote_char(t[i]) {
            lemma_past(t, i);
            lemma_substituted(t, past(t, i), a, b);
        } else if width_call(t, i) is Some {
            lemma_closing(t, i + 10);
            let e = width_call(t, i)->0;
            lemma_width(t.subrange(i + 11, e), a, b, Topic::Width);
            lemma_substituted(t, e + 1, a, b);
        } else if crate::scan::ascii_alpha(t[i]) || t[i] == '_' {
            lemma_token_end(t, i + 1);
            let e = token_end(t, i + 1);
            lemma_path_number(a, b, t.subrange(i, e));
            lemma_substituted(t, e, a, b);
        } else {
            lemma_substituted(t, i + 1, a, b);
        }
    }
}

pub proof fn lemma_eval(e: Seq<char>, a: Scope, b: Scope)
    requires
        knows_more(a, b),
    ensures
        keeps(a, eval_view(e, a), eval_view(e, b)),
    decreases e.len(), 1nat, 0int,
{
    lemma_trimmed_len(e);
    let t = trimmed(e);
    lemma_ternary(t);
    if t.len() > 0 && !quoted(t) {
        match ternary(t) {
            Some((p, q)) => {
                lemma_truth(t.take(p), a, b, false);
                lemma_eval(t.subrange(p + 1, q), a, b);
                lemma_eval(t.skip(q + 1), a, b);
            },
            None => {
                lemma_logic(t, a, b);
                if logic_view(t, a) is None {
                    lemma_term(t, a, b);
                }
            },
        }
    }
}

/// A value that is settled stays the same however much more becomes known.
pub proof fn values_are_stable(e: Seq<char>, a: Scope, b: Scope)
    requires
        knows_more(a, b),
        eval_view(e, a) is Done,
    ensures
        eval_view(e, b) == eval_view(e, a),
{
    lemma_eval(e, a, b);
}

/// Evaluation only asks what has not been answered: every answer gets it further.
pub proof fn questions_are_new(e: Seq<char>, c: Scope)
    requires
        eval_view(e, c) is Need,
    ensures
        answer_in(c.answers.entries@, eval_view(e, c)->Need_0) is None,
{
    lemma_eval(e, c, c);
}

/// A conditional whose condition holds is its first branch; the other branch is
/// not even looked at.
pub proof fn conditionals_are_lazy(e: Seq<char>, c: Scope)
    requires
        !quoted(trimmed(e)),
        ternary(trimmed(e)) is Some,
    ensures
        ({
            let t = trimmed(e);
            let (p, q) = ternary(t)->0;
            &&& truth_view(t.take(p), c, false) matches OutView::Done(true, n) ==> eval_view(e, c)
                == noted(n, eval_view(t.subrange(p + 1, q), c))
            &&& truth_view(t.take(p), c, false) matches OutView::Done(false, n) ==> eval_view(e, c)
                == noted(n, eval_view(t.skip(q + 1), c))
        }),
{
    lemma_ternary(trimmed(e));
}

/// A quoted text is its contents, whatever the state.
pub proof fn quoted_texts_are_literal(e: Seq<char>, c: Scope)
    requires
        quoted(trimmed(e)),
    ensures
        eval_view(e, c) == done(unquoted(trimmed(e))),
{
}

/// A text that is no expression passes through unchanged: no conditional, no
/// logic, no function, no path and nothing that looks like arithmetic.
pub proof fn plain_text_passes_through(e: Seq<char>, c: Scope)
    requires
        ({
            let t = trimmed(e);
            &&& t.len() > 0
            &&& !quoted(t)
            &&& ternary(t) is None
            &&& logic_view(t, c) is None
            &&& call_body(t, "text_width("@) is None
            &&& call_body(t, "upper("@) is None
            &&& call_body(t, "lower("@) is None
            &&& call_body(t, "initial("@) is None
            &&& property(t, c) is None
            &&& !looks_like_math(t)
        }),
    ensures
        eval_view(e, c) == done(trimmed(e)),
{
    let t = trimmed(e);
    assert(numeric_view(t, c) == done(t));
    assert(term_view(t, c) == numeric_view(t, c));
}

/// A local name shadows every path of the same name.
pub proof fn locals_shadow_paths(name: Seq<char>, c: Scope)
    requires
        local_value(c.locals, name) is Some,
    ensures
        property(name, c) == Some(done(local_value(c.locals, name)->0)),
{
}

} // verus!
