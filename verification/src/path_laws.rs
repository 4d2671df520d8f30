//! What names, functions and arithmetic in bindings promise.
use crate::ask::{answer_in, done, AskView, OutView, Topic};
use crate::binding::{
    after, call_body, entry_field, eval_view, figure_of, figure_view, first_relation, local_value,
    logic_view, looks_like_math, measure, numeric_view, path_number, plain_path, property,
    substituted, term_view, token_end, width_view, Scope,
};
use crate::binding_laws::{bare, operand};
use crate::entry::{AppEntry, AppMode};
use crate::scan::{ascii_alpha, ascii_digit, has_word, number_text, occurs, stands_at, word_char};
use crate::scan_laws::{
    good, good_piece, lacks, needles_in_quotes_and_brackets_are_hidden, no_question_no_conditional,
    one_argument, piece_text, plain_char, two_arguments, written, Piece,
};
use crate::text::{
    decimal, decimal_int, first_of, has_prefix, index_or_len, lemma_index_or_len, lower_of, trimmed,
    upper_of, white,
};
use crate::text_laws::{bounded_numerals, numerals_are_read_back, tight, tight_texts_stay};
use vstd::prelude::*;

verus! {

/// The pieces are the characters of a text.
pub open spec fn spells(l: Seq<Piece>, s: Seq<char>) -> bool {
    l.len() == s.len() && forall|i: int| 0 <= i < l.len() ==> #[trigger] l[i] == Piece::Plain(s[i])
}

proof fn lemma_push(l: Seq<Piece>, c: char) -> (r: Seq<Piece>)
    ensures
        r.len() == l.len() + 1,
        r.last() == Piece::Plain(c),
        forall|i: int| 0 <= i < l.len() ==> #[trigger] r[i] == l[i],
{
    l.push(Piece::Plain(c))
}

/// Every text is made of pieces.
proof fn lemma_spelled(s: Seq<char>) -> (l: Seq<Piece>)
    ensures
        spells(l, s),
    decreases s.len(),
{
    if s.len() == 0 {
        Seq::empty()
    } else {
        let d = lemma_spelled(s.drop_last());
        let r = lemma_push(d, s.last());
        assert forall|i: int| 0 <= i < r.len() implies #[trigger] r[i] == Piece::Plain(s[i]) by {
            if i < d.len() {
                assert(r[i] == d[i]);
            }
        }
        r
    }
}

proof fn lemma_spells(l: Seq<Piece>, s: Seq<char>, m: Seq<Piece>)
    requires
        spells(l, s),
        forall|i: int| 0 <= i < s.len() ==> plain_char(#[trigger] s[i]),
        good(m),
    ensures
        good(l + m),
        written(l + m) == s + written(m),
    decreases s.len(),
{
    reveal_with_fuel(good, 2);
    reveal_with_fuel(good_piece, 2);
    let w = l + m;
    if s.len() == 0 {
        assert(w =~= m);
        assert(s + written(m) =~= written(m));
    } else {
        let t = s.skip(1);
        let k = l.skip(1);
        assert forall|i: int| 0 <= i < t.len() implies plain_char(#[trigger] t[i]) by {
            assert(t[i] == s[i + 1]);
        }
        assert forall|i: int| 0 <= i < k.len() implies #[trigger] k[i] == Piece::Plain(t[i]) by {
            assert(k[i] == l[i + 1]);
        }
        lemma_spells(k, t, m);
        assert(w.skip(1) =~= k + m);
        assert(l[0] == Piece::Plain(s[0]));
        assert(w[0] == l[0]);
        assert(plain_char(s[0]));
        assert(piece_text(w[0]) =~= seq![s[0]]);
        assert(written(w) == piece_text(w[0]) + written(w.skip(1)));
        assert(seq![s[0]] + (t + written(m)) =~= s + written(m));
    }
}

/// An expression without operators is a function, a name or a sum.
proof fn lemma_simple(l: Seq<Piece>, c: Scope)
    requires
        operand(l),
        bare(written(l)),
    ensures
        eval_view(written(l), c) == term_view(written(l), c),
{
    let e = written(l);
    tight_texts_stay(e);
    no_question_no_conditional(l);
    needles_in_quotes_and_brackets_are_hidden(l, seq!['|', '|']);
    needles_in_quotes_and_brackets_are_hidden(l, seq!['&', '&']);
    crate::binding_laws::lemma_first_char(l, '!');
    needles_in_quotes_and_brackets_are_hidden(l, seq!['=', '=']);
    needles_in_quotes_and_brackets_are_hidden(l, seq!['!', '=']);
    needles_in_quotes_and_brackets_are_hidden(l, seq!['>', '=']);
    needles_in_quotes_and_brackets_are_hidden(l, seq!['<', '=']);
    needles_in_quotes_and_brackets_are_hidden(l, seq!['>']);
    needles_in_quotes_and_brackets_are_hidden(l, seq!['<']);
    assert(first_relation(e) is None);
    assert(logic_view(e, c) is None);
}

/// Letters, digits, underscores and dots.
pub open spec fn dotted(t: Seq<char>) -> bool {
    forall|i: int|
        0 <= i < t.len() ==> {
            let x = #[trigger] t[i];
            ('a' <= x <= 'z') || ('A' <= x <= 'Z') || ('0' <= x <= '9') || x == '_' || x == '.'
        }
}

proof fn lemma_dotted(t: Seq<char>) -> (l: Seq<Piece>)
    requires
        dotted(t),
        t.len() > 0,
    ensures
        operand(l),
        written(l) == t,
        bare(t),
        t.last() != ')',
{
    assert forall|i: int| 0 <= i < t.len() implies plain_char(#[trigger] t[i]) && !white(t[i]) by {
        let x = t[i];
        assert(('a' <= x <= 'z') || ('A' <= x <= 'Z') || ('0' <= x <= '9') || x == '_' || x == '.');
    }
    let l = lemma_spelled(t);
    let none = Seq::<Piece>::empty();
    lemma_spells(l, t, none);
    assert(l + none =~= l);
    assert(t + written(none) =~= t);
    assert(plain_char(t[0]) && plain_char(t[t.len() - 1]));
    assert forall|i: int| 0 <= i < l.len() implies {
        let p = #[trigger] l[i];
        p != Piece::Plain('?') && p != Piece::Plain('|') && p != Piece::Plain('&') && p != Piece::Plain(
            '=',
        ) && p != Piece::Plain('!') && p != Piece::Plain('<') && p != Piece::Plain('>')
    } by {
        assert(l[i] == Piece::Plain(t[i]));
    }
    l
}

/// A name that stands alone is what it names.
pub proof fn names_are_looked_up(t: Seq<char>, c: Scope)
    requires
        dotted(t),
        t.len() > 0,
        property(t, c) is Some,
    ensures
        eval_view(t, c) == property(t, c)->0,
{
    let l = lemma_dotted(t);
    lemma_simple(l, c);
    assert(call_body(t, "text_width("@) is None);
    assert(call_body(t, "upper("@) is None);
    assert(call_body(t, "lower("@) is None);
    assert(call_body(t, "initial("@) is None);
    assert(term_view(t, c) == property(t, c)->0);
}

/// Of several local values of one name the first counts, whatever else has that name.
pub proof fn the_first_local_counts(c: Scope, i: int)
    requires
        0 <= i < c.locals.len(),
        forall|j: int| 0 <= j < i ==> (#[trigger] c.locals[j]).0 != c.locals[i].0,
    ensures
        property(c.locals[i].0, c) == Some(done(c.locals[i].1)),
{
    lemma_local(c.locals, i);
}

proof fn lemma_local(l: Seq<(Seq<char>, Seq<char>)>, i: int)
    requires
        0 <= i < l.len(),
        forall|j: int| 0 <= j < i ==> (#[trigger] l[j]).0 != l[i].0,
    ensures
        local_value(l, l[i].0) == Some(l[i].1),
    decreases i,
{
    if i > 0 {
        assert(l[0].0 != l[i].0);
        let r = l.skip(1);
        assert(r[i - 1] == l[i]);
        assert forall|j: int| 0 <= j < i - 1 implies (#[trigger] r[j]).0 != r[i - 1].0 by {
            assert(r[j] == l[j + 1]);
            assert(l[j + 1].0 != l[i].0);
        }
        lemma_local(r, i - 1);
    }
}

/// The names of the state read the state: query, selection, number of results, flags
/// and error of the launcher, the size of the window and the readings of the clock.
pub proof fn paths_read_the_state(c: Scope)
    requires
        c.locals.len() == 0,
    ensures
        property("launcher.query"@, c) == Some(done(c.launcher.query@)),
        property("launcher.selected_index"@, c) == Some(
            done(decimal(c.launcher.selected_index as nat)),
        ),
        property("launcher.results_count"@, c) == Some(done(decimal(c.launcher.results@.len()))),
        property("launcher.loading"@, c) == Some(
            done(
                if c.launcher.loading {
                    "true"@
                } else {
                    "false"@
                },
            ),
        ),
        property("launcher.launching"@, c) == Some(
            done(
                if c.launcher.launching {
                    "true"@
                } else {
                    "false"@
                },
            ),
        ),
        c.launcher.error matches Some(m) ==> property("launcher.error"@, c) == Some(done(m@)),
        c.launcher.error is None ==> property("launcher.error"@, c) == Some(done(Seq::<char>::empty())),
        property("window.width"@, c) == Some(done(decimal(c.window_size.0 as nat))),
        property("window.height"@, c) == Some(done(decimal(c.window_size.1 as nat))),
        property("time"@, c) == Some(done(c.clock.time.single@)),
        property("hit"@, c) == Some(done(c.clock.hit.single@)),
        property("hit_type"@, c) == Some(done(c.clock.hit_type.single@)),
        property("since_select"@, c) == Some(done(c.clock.since_select.single@)),
        property("since_type"@, c) == Some(done(c.clock.since_type.single@)),
{
    lemma_path_names();
}

/// The names are told apart by their lengths, and where those agree by a character.
proof fn lemma_path_names()
    ensures
        "launcher.query"@.len() == 14 && "launcher.query"@[9] == 'q',
        "launcher.selected_index"@.len() == 23,
        "launcher.results_count"@.len() == 22,
        "launcher.loading"@.len() == 16,
        "launcher.launching"@.len() == 18,
        "launcher.error"@.len() == 14 && "launcher.error"@[9] == 'e',
        "window.width"@.len() == 12 && "window.width"@[0] == 'w',
        "window.height"@.len() == 13,
        "time"@.len() == 4 && "time"@[1] == 'i',
        "hit"@.len() == 3,
        "hit_type"@.len() == 8,
        "since_select"@.len() == 12 && "since_select"@[0] == 's',
        "since_type"@.len() == 10,
        "true"@.len() == 4 && "true"@[1] == 'r',
        "false"@.len() == 5,
        "launcher.selected_index"@[16] == 'd',
        "launcher.results_count"@[16] == '_',
        "launcher.launching"@[16] == 'n',
        "launcher.query"@[0] == 'l',
        "launcher.selected_index"@[0] == 'l',
        "launcher.results_count"@[0] == 'l',
        "launcher.loading"@[0] == 'l',
        "launcher.launching"@[0] == 'l',
        "launcher.error"@[0] == 'l',
        "window.height"@[0] == 'w',
        "time"@[0] == 't',
        "hit"@[0] == 'h',
        "hit_type"@[0] == 'h',
        "since_type"@[0] == 's',
        "true"@[0] == 't',
        "false"@[0] == 'f',
{
    reveal_strlit("launcher.query");
    reveal_strlit("launcher.selected_index");
    reveal_strlit("launcher.results_count");
    reveal_strlit("launcher.loading");
    reveal_strlit("launcher.launching");
    reveal_strlit("launcher.error");
    reveal_strlit("window.width");
    reveal_strlit("window.height");
    reveal_strlit("time");
    reveal_strlit("hit");
    reveal_strlit("hit_type");
    reveal_strlit("since_select");
    reveal_strlit("since_type");
    reveal_strlit("true");
    reveal_strlit("false");
}

/// The fields of an entry by the names that themes use.
pub proof fn fields_of_entries(e: AppEntry, c: Scope)
    ensures
        entry_field(e, "name"@, c) == Some(done(e.name@)),
        entry_field(e, "exec"@, c) == Some(done(e.command@)),
        entry_field(e, "id"@, c) == Some(done(e.id@)),
        e.description matches Some(t) ==> entry_field(e, "description"@, c) == Some(done(t@)),
        e.description is None ==> entry_field(e, "description"@, c) == Some(done(Seq::<char>::empty())),
        entry_field(e, "keywords"@, c) == Some(done(e.keywords@)),
        entry_field(e, "score"@, c) == Some(done(decimal_int(e.score as int))),
        entry_field(e, "mode"@, c) == Some(
            done(
                match e.mode {
                    AppMode::Drun => "drun"@,
                    AppMode::Run => "run"@,
                    AppMode::Window => "window"@,
                    AppMode::Calc => "calc"@,
                },
            ),
        ),
{
    reveal_strlit("name");
    reveal_strlit("exec");
    reveal_strlit("id");
    reveal_strlit("description");
    reveal_strlit("keywords");
    reveal_strlit("mode");
    reveal_strlit("score");
    assert("name"@.len() == 4 && "exec"@.len() == 4 && "mode"@.len() == 4 && "id"@.len() == 2
        && "description"@.len() == 11 && "keywords"@.len() == 8 && "score"@.len() == 5);
    assert("name"@[0] == 'n' && "exec"@[0] == 'e' && "mode"@[0] == 'm');
}

/// `launcher.selected_result.` and a field read that field of the selected result;
/// without one the text is empty.
pub proof fn the_selected_result_is_read(field: Seq<char>, c: Scope)
    requires
        c.locals.len() == 0,
    ensures
        c.launcher.selected_index < c.launcher.results@.len() ==> property(
            "launcher.selected_result."@ + field,
            c,
        ) == entry_field(c.launcher.results@[c.launcher.selected_index as int], field, c),
        c.launcher.selected_index >= c.launcher.results@.len() ==> property(
            "launcher.selected_result."@ + field,
            c,
        ) == Some(done(Seq::<char>::empty())),
{
    lemma_path_names();
    reveal_strlit("launcher.selected_result.");
    let p = "launcher.selected_result."@;
    let t = p + field;
    assert(p.len() == 25);
    assert(t.take(25) =~= p);
    assert(t.skip(25) =~= field);
    assert(plain_path(t, c) is None);
}

/// `launcher.results[i].` and a field read that field of result `i`, and without a
/// field its name.
pub proof fn results_are_read_by_number(i: nat, field: Seq<char>, c: Scope)
    requires
        c.locals.len() == 0,
        i < c.launcher.results@.len(),
    ensures
        property("launcher.results["@ + decimal(i) + "]."@ + field, c) == entry_field(
            c.launcher.results@[i as int],
            field,
            c,
        ),
        property("launcher.results["@ + decimal(i) + "]"@, c) == Some(
            done(c.launcher.results@[i as int].name@),
        ),
{
    vstd::std_specs::vec::axiom_spec_len(&c.launcher.results);
    reveal_strlit("launcher.results[");
    reveal_strlit("launcher.selected_result.");
    reveal_strlit("].");
    reveal_strlit("]");
    let p = "launcher.results["@;
    let d = decimal(i);
    assert(p.len() == 17 && p[16] == '[' && p[9] == 'r');
    numerals_are_read_back(i);
    bounded_numerals(i, usize::MAX as nat);
    assert('0' <= d[0] <= '9' && '0' <= d[d.len() - 1] <= '9');
    tight_texts_stay(d);
    let t = p + d + "]."@ + field;
    let u = p + d + "]"@;
    lemma_indexed_name(t);
    lemma_indexed_name(u);
    assert(t.skip(17) =~= d + "]."@ + field);
    assert(u.skip(17) =~= d + "]"@);
    assert(t.take(17) =~= p && u.take(17) =~= p);
    lemma_bracket(d, "."@ + field);
    lemma_bracket(d, Seq::empty());
    reveal_strlit(".");
    assert(d + "]."@ + field =~= d + seq![']'] + ("."@ + field));
    assert(d + "]"@ =~= d + seq![']'] + Seq::<char>::empty());
    assert(("."@ + field).skip(1) =~= field);
}

proof fn lemma_bracket(d: Seq<char>, rest: Seq<char>)
    requires
        crate::text::all_digits(d),
    ensures
        index_or_len(d + seq![']'] + rest, ']') == d.len(),
        (d + seq![']'] + rest).take(d.len() as int) == d,
        (d + seq![']'] + rest).skip(d.len() as int + 1) == rest,
{
    let s = d + seq![']'] + rest;
    lemma_index_or_len(s, ']');
    let k = index_or_len(s, ']') as int;
    assert(s[d.len() as int] == ']');
    if k < d.len() {
        assert(s[k] == d[k]);
        assert('0' <= d[k] <= '9');
    }
    assert(s.take(d.len() as int) =~= d);
    assert(s.skip(d.len() as int + 1) =~= rest);
}

proof fn lemma_indexed_name(t: Seq<char>)
    requires
        t.len() > 18,
        t[16] == '[',
        t[9] == 'r',
    ensures
        forall|c: Scope| #[trigger] plain_path(t, c) is None,
        after(t, "launcher.selected_result."@) is None,
{
    lemma_path_names();
    reveal_strlit("launcher.selected_result.");
    let p = "launcher.selected_result."@;
    assert(p.len() == 25 && p[9] == 's');
    if has_prefix(t, p) {
        assert(t.take(25)[9] == t[9]);
    }
}

// ---------------------------------------------------------------------------
// Functions
// ---------------------------------------------------------------------------

/// A call of a function as pieces.
proof fn lemma_call(name: Seq<char>, a: Seq<Piece>, c: Scope)
    requires
        good(a),
        forall|i: int| 0 <= i < name.len() ==> 'a' <= #[trigger] name[i] <= 'z',
        name.len() > 0,
    ensures
        eval_view(name + seq!['('] + written(a) + seq![')'], c) == term_view(
            name + seq!['('] + written(a) + seq![')'],
            c,
        ),
{
    reveal_with_fuel(good, 2);
    reveal_with_fuel(good_piece, 2);
    let g = Piece::Grouped('(', a, ')');
    let m = seq![g];
    assert(m.skip(1) =~= Seq::empty());
    assert(good(m));
    assert(written(m) =~= seq!['('] + written(a) + seq![')']) by {
        assert(written(m.skip(1)) =~= Seq::empty());
        assert(piece_text(g) == seq!['('] + written(a) + seq![')']);
        assert(written(m) == piece_text(m[0]) + written(m.skip(1)));
    }
    assert forall|i: int| 0 <= i < name.len() implies plain_char(#[trigger] name[i]) by {
        assert('a' <= name[i] <= 'z');
    }
    let k = lemma_spelled(name);
    lemma_spells(k, name, m);
    let l = k + m;
    let e = name + seq!['('] + written(a) + seq![')'];
    assert(written(l) =~= e);
    assert forall|i: int| 0 <= i < l.len() implies {
        let p = #[trigger] l[i];
        p != Piece::Plain('?') && p != Piece::Plain('|') && p != Piece::Plain('&') && p != Piece::Plain(
            '=',
        ) && p != Piece::Plain('!') && p != Piece::Plain('<') && p != Piece::Plain('>')
    } by {
        if i < name.len() {
            assert(l[i] == k[i]);
            assert('a' <= name[i] <= 'z');
        } else {
            assert(l[i] == g);
        }
    }
    assert(e[0] == name[0]);
    assert('a' <= name[0] <= 'z');
    assert(e.last() == ')');
    lemma_simple(l, c);
}

/// `upper(a)` is the value of `a` in capitals, `lower(a)` in small letters, and
/// `initial(a)` is its first character as a reader sees it.
pub proof fn text_functions_change_the_value(
    a: Seq<Piece>,
    c: Scope,
    v: Seq<char>,
    n: Seq<Seq<char>>,
)
    requires
        good(a),
        lacks(a, ','),
        written(a).len() > 0,
        eval_view(written(a), c) == OutView::Done(v, n),
    ensures
        eval_view("upper("@ + written(a) + ")"@, c) == OutView::Done(upper_of(v), n),
        eval_view("lower("@ + written(a) + ")"@, c) == OutView::Done(lower_of(v), n),
        eval_view("initial("@ + written(a) + ")"@, c) == OutView::Done(first_of(v), n),
{
    reveal_strlit("upper(");
    reveal_strlit("lower(");
    reveal_strlit("initial(");
    reveal_strlit("text_width(");
    reveal_strlit(")");
    let w = written(a);
    let up = "upper("@ + w + ")"@;
    let low = "lower("@ + w + ")"@;
    let ini = "initial("@ + w + ")"@;
    let nu = seq!['u', 'p', 'p', 'e', 'r'];
    let nl = seq!['l', 'o', 'w', 'e', 'r'];
    let ni = seq!['i', 'n', 'i', 't', 'i', 'a', 'l'];
    lemma_call(nu, a, c);
    lemma_call(nl, a, c);
    lemma_call(ni, a, c);
    assert(nu + seq!['('] + w + seq![')'] =~= up);
    assert(nl + seq!['('] + w + seq![')'] =~= low);
    assert(ni + seq!['('] + w + seq![')'] =~= ini);
    one_argument(a);
    lemma_not_call(up, "text_width("@);
    lemma_not_call(low, "text_width("@);
    lemma_not_call(ini, "text_width("@);
    lemma_not_call(low, "upper("@);
    lemma_not_call(ini, "upper("@);
    lemma_not_call(ini, "lower("@);
    assert(up.take(6) =~= "upper("@);
    assert(up.subrange(6, up.len() - 1) =~= w);
    assert(low.take(6) =~= "lower("@);
    assert(low.subrange(6, low.len() - 1) =~= w);
    assert(ini.take(8) =~= "initial("@);
    assert(ini.subrange(8, ini.len() - 1) =~= w);
    assert(crate::scan::args(w)[0] == w);
    assert(term_view(up, c) == OutView::Done(upper_of(v), n));
    assert(term_view(low, c) == OutView::Done(lower_of(v), n));
    assert(term_view(ini, c) == OutView::Done(first_of(v), n));
}

proof fn lemma_not_call(t: Seq<char>, name: Seq<char>)
    requires
        t.len() > 0,
        name.len() > 0,
        t[0] != name[0],
    ensures
        call_body(t, name) is None,
{
    if has_prefix(t, name) {
        assert(t.take(name.len() as int)[0] == t[0]);
    }
}

// ---------------------------------------------------------------------------
// Arithmetic
// ---------------------------------------------------------------------------

/// A character that no name and no quoted text begins with.
pub open spec fn unnamed(x: char) -> bool {
    !('a' <= x <= 'z') && !('A' <= x <= 'Z') && x != '_' && x != '\'' && x != '"'
}

proof fn lemma_unnamed(t: Seq<char>, i: int, end: int, c: Scope)
    requires
        0 <= i <= end <= t.len(),
        forall|k: int| i <= k < end ==> unnamed(#[trigger] t[k]),
    ensures
        substituted(t, i, c) == (match substituted(t, end, c) {
            OutView::Need(q) => OutView::Need(q),
            OutView::Done(x, n) => OutView::Done(t.subrange(i, end) + x, Seq::empty() + n),
        }) || (i == end),
    decreases end - i,
{
    if i < end {
        assert(unnamed(t[i]));
        reveal_strlit("text_width(");
        if stands_at(t, "text_width("@, i) {
            assert(t.subrange(i, i + 11)[0] == t[i]);
        }
        lemma_unnamed(t, i + 1, end, c);
        if let OutView::Done(x, n) = substituted(t, end, c) {
            if i + 1 < end {
                assert(seq![t[i]] + (t.subrange(i + 1, end) + x) =~= t.subrange(i, end) + x);
            } else {
                assert(seq![t[i]] =~= t.subrange(i, end));
            }
            assert(Seq::<Seq<char>>::empty() + (Seq::empty() + n) =~= Seq::empty() + n);
        }
    }
}

/// A sum without names goes to the caller as it stands; what comes back is its value,
/// and without an answer it stands for itself.
pub proof fn sums_are_answered(l: Seq<Piece>, c: Scope, i: int, reply: Option<Seq<char>>)
    requires
        c.locals.len() == 0,
        operand(l),
        bare(written(l)),
        forall|k: int| 0 <= k < written(l).len() ==> unnamed(#[trigger] written(l)[k]),
        0 <= i < written(l).len(),
        '0' <= written(l)[i] <= '9',
        answer_in(
            c.answers.entries@,
            AskView { topic: Topic::Arithmetic, a: written(l), b: Seq::empty(), c: Seq::empty() },
        ) == Some(reply),
    ensures
        reply matches Some(v) ==> (eval_view(written(l), c) matches OutView::Done(w, _) && w == v),
        reply is None ==> (eval_view(written(l), c) matches OutView::Done(w, _) && w == written(l)),
{
    let t = written(l);
    lemma_simple(l, c);
    assert(unnamed(t[0]));
    reveal_strlit("text_width(");
    reveal_strlit("upper(");
    reveal_strlit("lower(");
    reveal_strlit("initial(");
    lemma_not_call(t, "text_width("@);
    lemma_not_call(t, "upper("@);
    lemma_not_call(t, "lower("@);
    lemma_not_call(t, "initial("@);
    lemma_path_names();
    assert(plain_path(t, c) is None);
    reveal_strlit("launcher.selected_result.");
    reveal_strlit("launcher.results[");
    let p = "launcher.selected_result."@;
    let q = "launcher.results["@;
    assert(p[0] == 'l' && q[0] == 'l');
    if has_prefix(t, p) {
        assert(t.take(p.len() as int)[0] == t[0]);
    }
    if has_prefix(t, q) {
        assert(t.take(q.len() as int)[0] == t[0]);
    }
    assert(property(t, c) is None);
    assert(ascii_digit(t[i]));
    assert(looks_like_math(t));
    lemma_unnamed(t, 0, t.len() as int, c);
    assert(substituted(t, t.len() as int, c) == done(Seq::<char>::empty()));
    assert(t.subrange(0, t.len() as int) + Seq::<char>::empty() =~= t);
    assert(numeric_view(t, c) is Done);
    assert(term_view(t, c) == numeric_view(t, c));
}

proof fn lemma_token(t: Seq<char>, i: int, end: int)
    requires
        0 <= i <= end <= t.len(),
        forall|k: int| i <= k < end ==> word_char(#[trigger] t[k]),
        end < t.len() ==> !word_char(t[end]) && t[end] != '.',
    ensures
        token_end(t, i) == end,
    decreases end - i,
{
    if i < end {
        assert(word_char(t[i]));
        lemma_token(t, i + 1, end);
    }
}

/// A name within a sum is replaced by its number, and all around it stays.
pub proof fn names_become_numbers(
    a: Seq<char>,
    w: Seq<char>,
    b: Seq<char>,
    c: Scope,
    x: Seq<char>,
    n: Seq<Seq<char>>,
)
    requires
        forall|k: int| 0 <= k < a.len() ==> unnamed(#[trigger] a[k]),
        forall|k: int| 0 <= k < b.len() ==> unnamed(#[trigger] b[k]),
        w.len() > 0,
        ascii_alpha(w[0]),
        forall|k: int| 0 <= k < w.len() ==> word_char(#[trigger] w[k]),
        b.len() > 0 ==> !word_char(b[0]) && b[0] != '.' && b[0] != '(',
        path_number(w, c) == OutView::Done(x, n),
    ensures
        substituted(a + w + b, 0, c) matches OutView::Done(r, _) && r == a + x + b,
{
    let t = a + w + b;
    let i = a.len() as int;
    let e = i + w.len();
    assert forall|k: int| 0 <= k < i implies unnamed(#[trigger] t[k]) by {
        assert(t[k] == a[k]);
    }
    assert forall|k: int| e <= k < t.len() implies unnamed(#[trigger] t[k]) by {
        assert(t[k] == b[k - e]);
    }
    assert forall|k: int| i + 1 <= k < e implies word_char(#[trigger] t[k]) by {
        assert(t[k] == w[k - i]);
    }
    if b.len() > 0 {
        assert(t[e] == b[0]);
    }
    lemma_token(t, i + 1, e);
    assert(t[i] == w[0]);
    assert(t.subrange(i, e) =~= w);
    reveal_strlit("text_width(");
    let call = "text_width("@;
    if stands_at(t, call, i) {
        let s = t.subrange(i, i + 11);
        assert(s[10] == t[i + 10]);
        assert(call[10] == '(');
        if i + 10 < e {
            assert(t[i + 10] == w[10]);
            assert(word_char(w[10]));
        } else if i + 10 > e {
            let k = e - i;
            assert(s[k] == t[e]);
            assert(word_char(call[k]));
        }
        assert(false);
    }
    lemma_unnamed(t, e, t.len() as int, c);
    assert(substituted(t, t.len() as int, c) == done(Seq::<char>::empty()));
    assert(t.subrange(e, t.len() as int) =~= b);
    assert(b + Seq::<char>::empty() =~= b);
    assert(substituted(t, e, c) is Done && substituted(t, e, c)->Done_0 == b) by {
        if b.len() == 0 {
            assert(b =~= Seq::empty());
        }
    }
    assert(substituted(t, i, c) is Done && substituted(t, i, c)->Done_0 == x + b);
    lemma_unnamed(t, 0, i, c);
    assert(t.subrange(0, i) =~= a);
    assert(a + (x + b) =~= a + x + b);
    if i == 0 {
        assert(a + (x + b) =~= x + b);
    }
}

/// The numbers that names stand for in sums: counts and sizes by their digits, flags
/// as one and zero, the readings of the clock, and two constants of the circle.
pub proof fn numbers_of_names(c: Scope)
    requires
        c.locals.len() == 0,
        c.launcher.results@.len() <= 9007199254740992,
        c.launcher.selected_index <= 9007199254740992,
    ensures
        path_number("launcher.selected_index"@, c) == done(decimal(c.launcher.selected_index as nat)),
        path_number("launcher.results_count"@, c) == done(decimal(c.launcher.results@.len())),
        path_number("launcher.launching"@, c) == done(
            if c.launcher.launching {
                "1"@
            } else {
                "0"@
            },
        ),
        path_number("launcher.loading"@, c) == done(
            if c.launcher.loading {
                "1"@
            } else {
                "0"@
            },
        ),
        path_number("window.width"@, c) == done(decimal(c.window_size.0 as nat)),
        path_number("window.height"@, c) == done(decimal(c.window_size.1 as nat)),
        path_number("time"@, c) == done(c.clock.time.double@),
        path_number("hit"@, c) == done(c.clock.hit.double@),
        path_number("hit_type"@, c) == done(c.clock.hit_type.double@),
        path_number("since_select"@, c) == done(c.clock.since_select.double@),
        path_number("since_type"@, c) == done(c.clock.since_type.double@),
        path_number("pi"@, c) == done("3.141592653589793"@),
        path_number("tau"@, c) == done("6.283185307179586"@),
{
    lemma_path_names();
    reveal_strlit("pi");
    reveal_strlit("tau");
    assert("pi"@.len() == 2 && "tau"@.len() == 3 && "tau"@[0] == 't');
}

/// A local value stands for a number where it is one: flags count as one and zero,
/// and any other text leaves the name as it is.
pub proof fn numbers_of_locals(c: Scope, name: Seq<char>, v: Seq<char>)
    requires
        local_value(c.locals, name) == Some(v),
    ensures
        v == "true"@ ==> path_number(name, c) == done("1"@),
        v == "false"@ ==> path_number(name, c) == done("0"@),
        v != "true"@ && v != "false"@ && !number_text(v) ==> path_number(name, c) == done(name),
{
    lemma_path_names();
    crate::number_laws::words_are_no_numbers("true"@);
    crate::number_laws::words_are_no_numbers("false"@);
}

/// An expression is a number where its value is one, the space around it taken off;
/// else there is none.
pub proof fn only_numbers_are_figures(e: Seq<char>, v: Seq<char>)
    ensures
        number_text(trimmed(v)) ==> figure_of(e, v) == done(Some(trimmed(v))),
        !number_text(trimmed(v)) ==> (figure_of(e, v) matches OutView::Done(r, _) && r is None),
{
}

/// A text may be a sum if it holds a digit or one of the names that numbers have.
pub proof fn texts_that_may_be_sums(e: Seq<char>, i: int)
    ensures
        0 <= i < e.len() && '0' <= e[i] <= '9' ==> looks_like_math(e),
        occurs(e, "launcher."@) || occurs(e, "window."@) || occurs(e, "text_width"@) || occurs(
            e,
            "shake"@,
        ) || occurs(e, "hash"@) || occurs(e, "since_select"@) || occurs(e, "since_type"@) || occurs(
            e,
            "index"@,
        ) || occurs(e, "count"@) || occurs(e, "time"@) || has_word(e, "hit"@) || has_word(
            e,
            "hit_type"@,
        ) ==> looks_like_math(e),
{
    if 0 <= i < e.len() && '0' <= e[i] <= '9' {
        assert(ascii_digit(e[i]));
    }
}

/// A text without digits and without any of those names is no sum and stands for
/// itself.
pub proof fn plain_words_are_no_sums(e: Seq<char>, c: Scope)
    requires
        forall|i: int| 0 <= i < e.len() ==> !('0' <= #[trigger] e[i] <= '9'),
        !occurs(e, "launcher."@),
        !occurs(e, "window."@),
        !occurs(e, "text_width"@),
        !occurs(e, "shake"@),
        !occurs(e, "hash"@),
        !occurs(e, "since_select"@),
        !occurs(e, "since_type"@),
        !occurs(e, "index"@),
        !occurs(e, "count"@),
        !occurs(e, "time"@),
        !has_word(e, "hit"@),
        !has_word(e, "hit_type"@),
    ensures
        numeric_view(e, c) == done(e),
{
}

/// A width is measured of a text in a size and a family, rounded, as the caller answers;
/// where nothing can measure it, it is zero. Without a readable size it is 15.
pub proof fn widths_are_measured(
    text: Seq<char>,
    size: Option<Seq<char>>,
    family: Seq<char>,
    c: Scope,
    topic: Topic,
    reply: Option<Seq<char>>,
)
    requires
        answer_in(
            c.answers.entries@,
            AskView {
                topic,
                a: text,
                b: if size is Some {
                    size->0
                } else {
                    "15"@
                },
                c: family,
            },
        ) == Some(reply),
    ensures
        !c.measured ==> measure(text, size, family, c, topic) == done("0"@),
        c.measured && reply is Some ==> measure(text, size, family, c, topic) == done(reply->0),
        c.measured && reply is None ==> measure(text, size, family, c, topic) == done("0"@),
{
}

/// `text_width(a, n)` is the rounded width of the value of `a` in the size `n`.
pub proof fn width_calls_are_measured(
    a: Seq<Piece>,
    b: Seq<Piece>,
    c: Scope,
    text: Seq<char>,
    n: Seq<Seq<char>>,
    size: Option<Seq<char>>,
    m: Seq<Seq<char>>,
)
    requires
        good(a),
        good(b),
        lacks(a, ','),
        lacks(b, ','),
        tight(written(b)),
        eval_view(written(a), c) == OutView::Done(text, n),
        figure_view(written(b), c) == OutView::Done(size, m),
        measure(text, size, Seq::empty(), c, Topic::RoundedWidth) is Done,
    ensures
        term_view("text_width("@ + (written(a) + seq![','] + written(b)) + ")"@, c) matches OutView::Done(
            w,
            _,
        ) && w == measure(text, size, Seq::empty(), c, Topic::RoundedWidth)->Done_0,
{
    reveal_strlit("text_width(");
    reveal_strlit(")");
    let inner = written(a) + seq![','] + written(b);
    let t = "text_width("@ + inner + ")"@;
    two_arguments(a, b);
    tight_texts_stay(written(b));
    assert(t.take(11) =~= "text_width("@);
    assert(t.subrange(11, t.len() - 1) =~= inner);
    let l = crate::scan::args(inner);
    assert(l.len() == 2 && l[0] == written(a) && l[1] == written(b));
    assert(width_view(inner, c, Topic::RoundedWidth) is Done);
    assert(call_body(t, "text_width("@) == Some(inner));
}

} // verus!
