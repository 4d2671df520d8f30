//! Binding evaluation: the one expression engine every node property goes through.
//!
//! Supported forms: literals and quoted strings, property paths
//! (`launcher.query`, `launcher.results[0].name`, `window.width`), repeater
//! locals, comparisons, `&&`, `||`, `!`, lazy conditionals, `text_width(..)`,
//! `upper(..)`, `lower(..)`, `initial(..)` and arithmetic. Anything else passes
//! through unchanged, so colors and plain text need no escaping.
use crate::ask::{
    bool_out, chain, chars_out, done, opt_chars, opt_out, string_out, Answers, AskView, Out,
    OutView, Relation, Topic,
};
use crate::entry::{AppEntry, AppMode};
use crate::launcher::LauncherState;
use crate::scan::{
    args, ascii_alpha, ascii_digit, closing, find_closing, find_ternary, find_top, has, has_word,
    is_alpha, is_digit, is_number, is_quoted, is_word, lemma_args, lemma_close_from, lemma_past,
    lemma_ternary, lemma_top_from, number_text, occurs, past, quote_char, quoted, skip_past,
    split_args, stands, stands_at, strip_quotes, ternary, top_index, unquoted, word_char,
};
use crate::scan::contains_word;
use crate::text::{
    append, append_str, chars_of, decimal, decimal_chars, decimal_int, decimal_signed, eq_str,
    first_of, has_prefix, index_or_len, initial, less, lex_less, lower_of, parse_unsigned, starts_with_str,
    string_of, texts, to_lower, to_upper, to_vec, trim, trim_start, trimmed, trimmed_end,
    trimmed_start, unsigned_value, upper_of, views,
};
use crate::text::find_char;
use vstd::prelude::*;
use vstd::slice::slice_subrange;

verus! {

/// A number that the caller has measured, as it prints in single precision and
/// as its double-precision widening prints.
#[derive(Debug, Clone)]
pub struct Reading {
    pub single: String,
    pub double: String,
}

/// The time-driven readings a binding can see.
#[derive(Debug, Clone)]
pub struct Clock {
    pub time: Reading,
    pub hit: Reading,
    pub hit_type: Reading,
    pub since_select: Reading,
    pub since_type: Reading,
}

/// Everything a binding is evaluated against.
#[derive(Clone, Copy)]
pub struct EvalContext<'a> {
    pub launcher: &'a LauncherState,
    /// Local names (a repeater's `index`, `item_name`, ...).
    pub locals: &'a Vec<(String, String)>,
    /// Window size in logical pixels.
    pub window_size: (u32, u32),
    pub clock: &'a Clock,
    /// Whether text can be measured.
    pub measured: bool,
    pub answers: &'a Answers,
}

/// The mathematical content of an evaluation context.
pub struct Scope {
    pub launcher: LauncherState,
    pub locals: Seq<(Seq<char>, Seq<char>)>,
    pub window_size: (u32, u32),
    pub clock: Clock,
    pub measured: bool,
    pub answers: Answers,
}

/// Names and values, in order.
pub open spec fn pairs(l: Seq<(String, String)>) -> Seq<(Seq<char>, Seq<char>)> {
    Seq::new(l.len(), |i: int| (l[i].0@, l[i].1@))
}

impl<'a> View for EvalContext<'a> {
    type V = Scope;

    open spec fn view(&self) -> Scope {
        Scope {
            launcher: *self.launcher,
            locals: pairs(self.locals@),
            window_size: self.window_size,
            clock: *self.clock,
            measured: self.measured,
            answers: *self.answers,
        }
    }
}

impl<'a> EvalContext<'a> {
    /// A context in which no text can be measured.
    pub fn new(
        launcher: &'a LauncherState,
        locals: &'a Vec<(String, String)>,
        window_size: (u32, u32),
        clock: &'a Clock,
        answers: &'a Answers,
    ) -> (r: EvalContext<'a>)
        ensures
            r@ == (Scope {
                launcher: *launcher,
                locals: pairs(locals@),
                window_size,
                clock: *clock,
                measured: false,
                answers: *answers,
            }),
    {
        EvalContext { launcher, locals, window_size, clock, measured: false, answers }
    }

    /// The same context with other local names.
    pub fn with_locals(self, locals: &'a Vec<(String, String)>) -> (r: EvalContext<'a>)
        ensures
            r@ == (Scope { locals: pairs(locals@), ..self@ }),
    {
        EvalContext { locals, ..self }
    }
}

/// The first value listed under a name.
pub open spec fn local_value(l: Seq<(Seq<char>, Seq<char>)>, name: Seq<char>) -> Option<Seq<char>>
    decreases l.len(),
{
    if l.len() == 0 {
        None
    } else if l[0].0 == name {
        Some(l[0].1)
    } else {
        local_value(l.skip(1), name)
    }
}

pub fn find_local<'a>(l: &'a Vec<(String, String)>, name: &[char]) -> (r: Option<&'a String>)
    ensures
        r matches Some(s) ==> local_value(pairs(l@), name@) == Some(s@),
        r is None ==> local_value(pairs(l@), name@) is None,
{
    let mut i: usize = 0;
    let ghost p = pairs(l@);
    proof {
        assert(p.skip(0) =~= p);
    }
    while i < l.len()
        invariant
            i <= l@.len(),
            p == pairs(l@),
            local_value(p, name@) == local_value(p.skip(i as int), name@),
        decreases l@.len() - i,
    {
        proof {
            assert(p.skip(i as int).skip(1) =~= p.skip(i + 1));
        }
        if eq_str(name, l[i].0.as_str()) {
            return Some(&l[i].1);
        }
        i += 1;
    }
    None
}

/// Find a value by a name given as a string.
pub(crate) fn find_named<'a>(l: &'a Vec<(String, String)>, name: &str) -> (r: Option<&'a String>)
    ensures
        r matches Some(v) ==> local_value(pairs(l@), name@) == Some(v@),
        r is None ==> local_value(pairs(l@), name@) is None,
{
    let key = chars_of(name);
    find_local(l, key.as_slice())
}

// ---------------------------------------------------------------------------
// Questions
// ---------------------------------------------------------------------------

/// The answer to a question about one text.
pub open spec fn ask1(c: Scope, topic: Topic, a: Seq<char>) -> OutView<Option<Seq<char>>> {
    c.answers.asked(AskView { topic, a, b: Seq::empty(), c: Seq::empty() })
}

fn put1(c: &EvalContext, topic: Topic, a: &[char]) -> (r: Out<Option<Vec<char>>>)
    ensures
        opt_out(r) == ask1(c@, topic, a@),
{
    let none: Vec<char> = Vec::new();
    proof {
        assert(none@ =~= Seq::empty());
    }
    c.answers.ask(topic, a, none.as_slice(), none.as_slice())
}

/// The answer, or `other` where there is nothing to tell.
pub open spec fn or_text(o: OutView<Option<Seq<char>>>, other: Seq<char>) -> OutView<Seq<char>> {
    match o {
        OutView::Need(q) => OutView::Need(q),
        OutView::Done(v, n) => OutView::Done(
            match v {
                Some(t) => t,
                None => other,
            },
            n,
        ),
    }
}

fn text_or(o: Out<Option<Vec<char>>>, other: Vec<char>) -> (r: Out<Vec<char>>)
    ensures
        chars_out(r) == or_text(opt_out(o), other@),
{
    match o {
        Out::Need(q) => Out::Need(q),
        Out::Done(v, n) => match v {
            Some(t) => Out::Done(t, n),
            None => Out::Done(other, n),
        },
    }
}

/// Whether the answer is yes.
pub open spec fn is_yes(o: OutView<Option<Seq<char>>>) -> OutView<bool> {
    match o {
        OutView::Need(q) => OutView::Need(q),
        OutView::Done(v, n) => OutView::Done(v == Some("true"@), n),
    }
}

fn yes(o: Out<Option<Vec<char>>>) -> (r: Out<bool>)
    ensures
        bool_out(r) == is_yes(opt_out(o)),
{
    match o {
        Out::Need(q) => Out::Need(q),
        Out::Done(v, n) => {
            let y = match &v {
                Some(t) => eq_str(t.as_slice(), "true"),
                None => false,
            };
            Out::Done(y, n)
        },
    }
}

pub(crate) fn no_notes() -> (r: Vec<String>)
    ensures
        r@.len() == 0,
        texts(r@) == Seq::<Seq<char>>::empty(),
{
    let v: Vec<String> = Vec::new();
    proof {
        assert(texts(v@) =~= Seq::<Seq<char>>::empty());
    }
    v
}

fn ready(v: Vec<char>) -> (r: Out<Vec<char>>)
    ensures
        chars_out(r) == done(v@),
{
    Out::Done(v, no_notes())
}

fn ready_str(s: &str) -> (r: Out<Vec<char>>)
    ensures
        chars_out(r) == done(s@),
{
    ready(chars_of(s))
}

// ---------------------------------------------------------------------------
// Property paths
// ---------------------------------------------------------------------------

/// `true` or `false`.
pub open spec fn bool_text(b: bool) -> Seq<char> {
    if b {
        "true"@
    } else {
        "false"@
    }
}

fn bool_str(b: bool) -> (r: &'static str)
    ensures
        r@ == bool_text(b),
{
    if b {
        "true"
    } else {
        "false"
    }
}

pub open spec fn text_or_empty(t: Option<String>) -> Seq<char> {
    match t {
        Some(s) => s@,
        None => Seq::empty(),
    }
}

fn opt_or_empty(t: &Option<String>) -> (r: Vec<char>)
    ensures
        r@ == text_or_empty(*t),
{
    match t {
        Some(s) => chars_of(s.as_str()),
        None => {
            let v: Vec<char> = Vec::new();
            proof {
                assert(v@ =~= Seq::empty());
            }
            v
        },
    }
}

/// A field of an entry, by the name a theme uses for it.
pub open spec fn entry_field(e: AppEntry, field: Seq<char>, c: Scope) -> Option<
    OutView<Seq<char>>,
> {
    if field == "name"@ {
        Some(done(e.name@))
    } else if field == "exec"@ {
        Some(done(e.command@))
    } else if field == "id"@ {
        Some(done(e.id@))
    } else if field == "description"@ {
        Some(done(text_or_empty(e.description)))
    } else if field == "keywords"@ {
        Some(done(e.keywords@))
    } else if field == "mode"@ {
        Some(done(mode_text(e.mode)))
    } else if field == "score"@ {
        Some(done(decimal_int(e.score as int)))
    } else if field == "icon"@ {
        Some(or_text(ask1(c, Topic::Icon, e.icon@), Seq::empty()))
    } else {
        None
    }
}

pub open spec fn opt_chars_out(o: Option<Out<Vec<char>>>) -> Option<OutView<Seq<char>>> {
    match o {
        Some(x) => Some(chars_out(x)),
        None => None,
    }
}

fn field_of(e: &AppEntry, field: &[char], c: &EvalContext) -> (r: Option<Out<Vec<char>>>)
    ensures
        opt_chars_out(r) == entry_field(*e, field@, c@),
{
    if eq_str(field, "name") {
        Some(ready_str(e.name.as_str()))
    } else if eq_str(field, "exec") {
        Some(ready_str(e.command.as_str()))
    } else if eq_str(field, "id") {
        Some(ready_str(e.id.as_str()))
    } else if eq_str(field, "description") {
        Some(ready(opt_or_empty(&e.description)))
    } else if eq_str(field, "keywords") {
        Some(ready_str(e.keywords.as_str()))
    } else if eq_str(field, "mode") {
        Some(ready_str(mode_name(e.mode)))
    } else if eq_str(field, "score") {
        let s = decimal_signed(e.score);
        Some(ready_str(s.as_str()))
    } else if eq_str(field, "icon") {
        let name = chars_of(e.icon.as_str());
        let none: Vec<char> = Vec::new();
        proof {
            assert(none@ =~= Seq::empty());
        }
        Some(text_or(put1(c, Topic::Icon, name.as_slice()), none))
    } else {
        None
    }
}

pub open spec fn mode_text(m: AppMode) -> Seq<char> {
    match m {
        AppMode::Drun => "drun"@,
        AppMode::Run => "run"@,
        AppMode::Window => "window"@,
        AppMode::Calc => "calc"@,
    }
}

pub fn mode_name(m: AppMode) -> (r: &'static str)
    ensures
        r@ == mode_text(m),
{
    match m {
        AppMode::Drun => "drun",
        AppMode::Run => "run",
        AppMode::Window => "window",
        AppMode::Calc => "calc",
    }
}

/// Readings and flags that have a name of their own.
pub open spec fn plain_path(t: Seq<char>, c: Scope) -> Option<Seq<char>> {
    if t == "launcher.query"@ {
        Some(c.launcher.query@)
    } else if t == "launcher.selected_index"@ {
        Some(decimal(c.launcher.selected_index as nat))
    } else if t == "launcher.results_count"@ {
        Some(decimal(c.launcher.results@.len()))
    } else if t == "launcher.loading"@ {
        Some(bool_text(c.launcher.loading))
    } else if t == "launcher.launching"@ {
        Some(bool_text(c.launcher.launching))
    } else if t == "launcher.error"@ {
        Some(text_or_empty(c.launcher.error))
    } else if t == "window.width"@ {
        Some(decimal(c.window_size.0 as nat))
    } else if t == "window.height"@ {
        Some(decimal(c.window_size.1 as nat))
    } else if t == "time"@ {
        Some(c.clock.time.single@)
    } else if t == "hit"@ {
        Some(c.clock.hit.single@)
    } else if t == "hit_type"@ {
        Some(c.clock.hit_type.single@)
    } else if t == "since_select"@ {
        Some(c.clock.since_select.single@)
    } else if t == "since_type"@ {
        Some(c.clock.since_type.single@)
    } else if t == "true"@ {
        Some("true"@)
    } else if t == "false"@ {
        Some("false"@)
    } else {
        None
    }
}

fn find_plain(t: &[char], c: &EvalContext) -> (r: Option<Vec<char>>)
    ensures
        opt_chars(r) == plain_path(t@, c@),
{
    if eq_str(t, "launcher.query") {
        Some(chars_of(c.launcher.query.as_str()))
    } else if eq_str(t, "launcher.selected_index") {
        Some(decimal_chars(c.launcher.selected_index as u128))
    } else if eq_str(t, "launcher.results_count") {
        Some(decimal_chars(c.launcher.results.len() as u128))
    } else if eq_str(t, "launcher.loading") {
        Some(chars_of(bool_str(c.launcher.loading)))
    } else if eq_str(t, "launcher.launching") {
        Some(chars_of(bool_str(c.launcher.launching)))
    } else if eq_str(t, "launcher.error") {
        Some(opt_or_empty(&c.launcher.error))
    } else if eq_str(t, "window.width") {
        Some(decimal_chars(c.window_size.0 as u128))
    } else if eq_str(t, "window.height") {
        Some(decimal_chars(c.window_size.1 as u128))
    } else if eq_str(t, "time") {
        Some(chars_of(c.clock.time.single.as_str()))
    } else if eq_str(t, "hit") {
        Some(chars_of(c.clock.hit.single.as_str()))
    } else if eq_str(t, "hit_type") {
        Some(chars_of(c.clock.hit_type.single.as_str()))
    } else if eq_str(t, "since_select") {
        Some(chars_of(c.clock.since_select.single.as_str()))
    } else if eq_str(t, "since_type") {
        Some(chars_of(c.clock.since_type.single.as_str()))
    } else if eq_str(t, "true") {
        Some(chars_of("true"))
    } else if eq_str(t, "false") {
        Some(chars_of("false"))
    } else {
        None
    }
}

/// What follows `prefix` in `s`.
pub open spec fn after(s: Seq<char>, prefix: Seq<char>) -> Option<Seq<char>> {
    if has_prefix(s, prefix) {
        Some(s.skip(prefix.len() as int))
    } else {
        None
    }
}

pub fn strip<'a>(s: &'a [char], prefix: &str) -> (r: Option<&'a [char]>)
    ensures
        r matches Some(x) ==> after(s@, prefix@) == Some(x@),
        r is None ==> after(s@, prefix@) is None,
{
    if starts_with_str(s, prefix) {
        let l = chars_of(prefix);
        let x = slice_subrange(s, l.len(), s.len());
        proof {
            assert(x@ =~= s@.skip(l@.len() as int));
        }
        Some(x)
    } else {
        None
    }
}

/// `launcher.results[i]` and its fields, given what follows the bracket.
pub open spec fn indexed(rest: Seq<char>, c: Scope) -> Option<OutView<Seq<char>>> {
    let k = index_or_len(rest, ']');
    if k >= rest.len() {
        None
    } else {
        match unsigned_value(trimmed(rest.take(k as int)), usize::MAX as nat) {
            None => None,
            Some(i) => if i >= c.launcher.results@.len() {
                None
            } else {
                let e = c.launcher.results@[i as int];
                let suffix = rest.skip(k as int + 1);
                if suffix.len() == 0 {
                    Some(done(e.name@))
                } else if suffix[0] == '.' {
                    entry_field(e, suffix.skip(1), c)
                } else {
                    None
                }
            },
        }
    }
}

fn find_indexed(rest: &[char], c: &EvalContext) -> (r: Option<Out<Vec<char>>>)
    ensures
        opt_chars_out(r) == indexed(rest@, c@),
{
    let k: usize = find_char(rest, ']');
    if k >= rest.len() {
        return None;
    }
    let inner = slice_subrange(rest, 0, k);
    proof {
        assert(inner@ =~= rest@.take(k as int));
    }
    match parse_unsigned(trim(inner), usize::MAX as u64) {
        None => None,
        Some(v) => {
            let i: usize = v as usize;
            if i >= c.launcher.results.len() {
                return None;
            }
            let e = &c.launcher.results[i];
            let suffix = slice_subrange(rest, k + 1, rest.len());
            proof {
                assert(suffix@ =~= rest@.skip(k as int + 1));
            }
            if suffix.len() == 0 {
                Some(ready_str(e.name.as_str()))
            } else if suffix[0] == '.' {
                let field = slice_subrange(suffix, 1, suffix.len());
                proof {
                    assert(field@ =~= suffix@.skip(1));
                }
                field_of(e, field, c)
            } else {
                None
            }
        },
    }
}

/// The value of a property path. Locals shadow everything else.
pub open spec fn property(t: Seq<char>, c: Scope) -> Option<OutView<Seq<char>>> {
    if local_value(c.locals, t) is Some {
        Some(done(local_value(c.locals, t)->0))
    } else if plain_path(t, c) is Some {
        Some(done(plain_path(t, c)->0))
    } else if after(t, "launcher.selected_result."@) is Some {
        let field = after(t, "launcher.selected_result."@)->0;
        match c.launcher.selected() {
            Some(e) => entry_field(e, field, c),
            None => Some(done(Seq::empty())),
        }
    } else if after(t, "launcher.results["@) is Some {
        indexed(after(t, "launcher.results["@)->0, c)
    } else {
        None
    }
}

fn property_value(t: &[char], c: &EvalContext) -> (r: Option<Out<Vec<char>>>)
    ensures
        opt_chars_out(r) == property(t@, c@),
{
    match find_local(c.locals, t) {
        Some(v) => {
            return Some(ready_str(v.as_str()));
        },
        None => {},
    }
    match find_plain(t, c) {
        Some(v) => {
            return Some(ready(v));
        },
        None => {},
    }
    match strip(t, "launcher.selected_result.") {
        Some(field) => {
            return match c.launcher.selected_result() {
                Some(e) => field_of(e, field, c),
                None => {
                    let none: Vec<char> = Vec::new();
                    proof {
                        assert(none@ =~= Seq::empty());
                    }
                    Some(ready(none))
                },
            };
        },
        None => {},
    }
    match strip(t, "launcher.results[") {
        Some(rest) => find_indexed(rest, c),
        None => None,
    }
}

// ---------------------------------------------------------------------------
// Numbers inside arithmetic
// ---------------------------------------------------------------------------

/// The largest count up to which every count is a double-precision number.
pub const EXACT_LIMIT: u64 = 9007199254740992;

/// A count as it prints in double precision.
pub open spec fn count_text(n: nat, c: Scope) -> OutView<Seq<char>> {
    if n <= EXACT_LIMIT {
        done(decimal(n))
    } else {
        or_text(ask1(c, Topic::Reprint, decimal(n)), decimal(n))
    }
}

fn count_chars(n: usize, c: &EvalContext) -> (r: Out<Vec<char>>)
    ensures
        chars_out(r) == count_text(n as nat, c@),
{
    let d = decimal_chars(n as u128);
    if n as u64 <= EXACT_LIMIT {
        ready(d)
    } else {
        let a = put1(c, Topic::Reprint, d.as_slice());
        text_or(a, d)
    }
}

/// `1` or `0`.
pub open spec fn flag_text(b: bool) -> Seq<char> {
    if b {
        "1"@
    } else {
        "0"@
    }
}

fn flag_str(b: bool) -> (r: &'static str)
    ensures
        r@ == flag_text(b),
{
    if b {
        "1"
    } else {
        "0"
    }
}

/// What stands for an identifier inside arithmetic: its number, or itself.
pub open spec fn path_number(token: Seq<char>, c: Scope) -> OutView<Seq<char>> {
    match local_value(c.locals, token) {
        Some(v) => if number_text(v) {
            or_text(ask1(c, Topic::Reprint, v), v)
        } else if v == "true"@ {
            done("1"@)
        } else if v == "false"@ {
            done("0"@)
        } else {
            done(token)
        },
        None => if token == "launcher.selected_index"@ {
            count_text(c.launcher.selected_index as nat, c)
        } else if token == "launcher.results_count"@ {
            count_text(c.launcher.results@.len(), c)
        } else if token == "launcher.launching"@ {
            done(flag_text(c.launcher.launching))
        } else if token == "launcher.loading"@ {
            done(flag_text(c.launcher.loading))
        } else if token == "window.width"@ {
            done(decimal(c.window_size.0 as nat))
        } else if token == "window.height"@ {
            done(decimal(c.window_size.1 as nat))
        } else if token == "time"@ {
            done(c.clock.time.double@)
        } else if token == "hit"@ {
            done(c.clock.hit.double@)
        } else if token == "hit_type"@ {
            done(c.clock.hit_type.double@)
        } else if token == "since_select"@ {
            done(c.clock.since_select.double@)
        } else if token == "since_type"@ {
            done(c.clock.since_type.double@)
        } else if token == "pi"@ {
            done("3.141592653589793"@)
        } else if token == "tau"@ {
            done("6.283185307179586"@)
        } else {
            done(token)
        },
    }
}

fn number_of(token: &[char], c: &EvalContext) -> (r: Out<Vec<char>>)
    ensures
        chars_out(r) == path_number(token@, c@),
{
    match find_local(c.locals, token) {
        Some(v) => {
            let t = chars_of(v.as_str());
            if is_number(t.as_slice()) {
                let a = put1(c, Topic::Reprint, t.as_slice());
                return text_or(a, t);
            }
            if eq_str(t.as_slice(), "true") {
                return ready_str("1");
            }
            if eq_str(t.as_slice(), "false") {
                return ready_str("0");
            }
            return ready(to_vec(token));
        },
        None => {},
    }
    if eq_str(token, "launcher.selected_index") {
        count_chars(c.launcher.selected_index, c)
    } else if eq_str(token, "launcher.results_count") {
        count_chars(c.launcher.results.len(), c)
    } else if eq_str(token, "launcher.launching") {
        ready_str(flag_str(c.launcher.launching))
    } else if eq_str(token, "launcher.loading") {
        ready_str(flag_str(c.launcher.loading))
    } else if eq_str(token, "window.width") {
        ready(decimal_chars(c.window_size.0 as u128))
    } else if eq_str(token, "window.height") {
        ready(decimal_chars(c.window_size.1 as u128))
    } else if eq_str(token, "time") {
        ready_str(c.clock.time.double.as_str())
    } else if eq_str(token, "hit") {
        ready_str(c.clock.hit.double.as_str())
    } else if eq_str(token, "hit_type") {
        ready_str(c.clock.hit_type.double.as_str())
    } else if eq_str(token, "since_select") {
        ready_str(c.clock.since_select.double.as_str())
    } else if eq_str(token, "since_type") {
        ready_str(c.clock.since_type.double.as_str())
    } else if eq_str(token, "pi") {
        ready_str("3.141592653589793")
    } else if eq_str(token, "tau") {
        ready_str("6.283185307179586")
    } else {
        ready(to_vec(token))
    }
}

/// Whether an expression could be arithmetic at all.
pub open spec fn looks_like_math(e: Seq<char>) -> bool {
    ||| exists|i: int| 0 <= i < e.len() && ascii_digit(#[trigger] e[i])
    ||| occurs(e, "launcher."@)
    ||| occurs(e, "window."@)
    ||| occurs(e, "text_width"@)
    ||| occurs(e, "shake"@)
    ||| occurs(e, "hash"@)
    ||| occurs(e, "since_select"@)
    ||| occurs(e, "since_type"@)
    ||| occurs(e, "index"@)
    ||| occurs(e, "count"@)
    ||| occurs(e, "time"@)
    ||| has_word(e, "hit"@)
    ||| has_word(e, "hit_type"@)
}

fn any_digit(e: &[char]) -> (r: bool)
    ensures
        r == exists|i: int| 0 <= i < e@.len() && ascii_digit(#[trigger] e@[i]),
{
    let mut i: usize = 0;
    while i < e.len()
        invariant
            i <= e@.len(),
            forall|k: int| 0 <= k < i ==> !ascii_digit(#[trigger] e@[k]),
        decreases e@.len() - i,
    {
        if is_digit(e[i]) {
            return true;
        }
        i += 1;
    }
    false
}

fn maybe_math(e: &[char]) -> (r: bool)
    ensures
        r == looks_like_math(e@),
{
    any_digit(e) || has(e, "launcher.") || has(e, "window.") || has(e, "text_width") || has(e, "shake")
        || has(e, "hash") || has(e, "since_select") || has(e, "since_type") || has(e, "index") || has(
        e,
        "count",
    ) || has(e, "time") || contains_word(e, "hit") || contains_word(e, "hit_type")
}

pub open spec fn sum_char(c: char) -> bool {
    c == '+' || c == '-' || c == '*' || c == '/'
}

pub open spec fn formula_char(c: char) -> bool {
    ascii_digit(c) || ascii_alpha(c) || sum_char(c) || c == '(' || c == ')' || c == '.' || c == ' '
}

/// Whether the author of an expression clearly expected a number.
pub open spec fn looks_numeric(e: Seq<char>) -> bool {
    &&& forall|i: int| 0 <= i < e.len() ==> formula_char(#[trigger] e[i])
    &&& exists|i: int| 0 <= i < e.len() && (ascii_digit(#[trigger] e[i]) || sum_char(e[i]))
}

fn numeric_looking(e: &[char]) -> (r: bool)
    ensures
        r == looks_numeric(e@),
{
    let mut i: usize = 0;
    let mut any = false;
    while i < e.len()
        invariant
            i <= e@.len(),
            forall|k: int| 0 <= k < i ==> formula_char(#[trigger] e@[k]),
            any == exists|k: int| 0 <= k < i && (ascii_digit(#[trigger] e@[k]) || sum_char(e@[k])),
        decreases e@.len() - i,
    {
        let c = e[i];
        let strong = is_digit(c) || c == '+' || c == '-' || c == '*' || c == '/';
        if !(strong || is_alpha(c) || c == '(' || c == ')' || c == '.' || c == ' ') {
            return false;
        }
        let ghost was = any;
        if strong {
            any = true;
        }
        proof {
            if any && !strong {
                let k = choose|k: int| 0 <= k < i && (ascii_digit(#[trigger] e@[k]) || sum_char(e@[k]));
                assert(ascii_digit(e@[k]) || sum_char(e@[k]));
            }
            if strong {
                assert(ascii_digit(e@[i as int]) || sum_char(e@[i as int]));
            }
        }
        i += 1;
    }
    any
}

/// The end of the identifier that goes on at `i`. A dot belongs to it only in
/// front of a letter or an underscore.
pub open spec fn token_end(s: Seq<char>, i: int) -> int
    decreases s.len() - i,
{
    if 0 <= i < s.len() && (word_char(s[i]) || (s[i] == '.' && i + 1 < s.len() && (ascii_alpha(
        s[i + 1],
    ) || s[i + 1] == '_'))) {
        token_end(s, i + 1)
    } else {
        i
    }
}

pub proof fn lemma_token_end(s: Seq<char>, i: int)
    requires
        0 <= i <= s.len(),
    ensures
        i <= token_end(s, i) <= s.len(),
    decreases s.len() - i,
{
    if i < s.len() && (word_char(s[i]) || (s[i] == '.' && i + 1 < s.len() && (ascii_alpha(s[i + 1])
        || s[i + 1] == '_'))) {
        lemma_token_end(s, i + 1);
    }
}

fn find_token_end(s: &[char], i: usize) -> (r: usize)
    requires
        i <= s@.len(),
    ensures
        r == token_end(s@, i as int),
        i <= r <= s@.len(),
{
    let n: usize = s.len();
    let mut k: usize = i;
    while k < n && (is_word(s[k]) || (s[k] == '.' && k + 1 < n && (is_alpha(s[k + 1]) || s[k + 1]
        == '_')))
        invariant
            n == s@.len(),
            i <= k <= n,
            token_end(s@, i as int) == token_end(s@, k as int),
        decreases n - k,
    {
        k += 1;
    }
    k
}

// ---------------------------------------------------------------------------
// Evaluation
// ---------------------------------------------------------------------------

/// Two pieces one after the other.
pub open spec fn glue(a: OutView<Seq<char>>, b: OutView<Seq<char>>) -> OutView<Seq<char>> {
    match a {
        OutView::Need(q) => OutView::Need(q),
        OutView::Done(v, n) => match b {
            OutView::Need(q) => OutView::Need(q),
            OutView::Done(w, m) => OutView::Done(v + w, n + m),
        },
    }
}

proof fn lemma_glue(a: OutView<Seq<char>>, b: OutView<Seq<char>>, c: OutView<Seq<char>>)
    ensures
        glue(a, glue(b, c)) == glue(glue(a, b), c),
{
    if let OutView::Done(v, n) = a {
        if let OutView::Done(w, m) = b {
            if let OutView::Done(x, k) = c {
                assert(v + (w + x) =~= (v + w) + x);
                assert(n + (m + k) =~= (n + m) + k);
            }
        }
    }
}

pub open spec fn symbol(r: Relation) -> Seq<char> {
    match r {
        Relation::Eq => seq!['=', '='],
        Relation::Ne => seq!['!', '='],
        Relation::Ge => seq!['>', '='],
        Relation::Le => seq!['<', '='],
        Relation::Gt => seq!['>'],
        Relation::Lt => seq!['<'],
    }
}

fn pair(a: char, b: char) -> (r: Vec<char>)
    ensures
        r@ == seq![a, b],
{
    let mut v: Vec<char> = Vec::new();
    v.push(a);
    v.push(b);
    proof {
        assert(v@ =~= seq![a, b]);
    }
    v
}

fn single(a: char) -> (r: Vec<char>)
    ensures
        r@ == seq![a],
{
    let mut v: Vec<char> = Vec::new();
    v.push(a);
    proof {
        assert(v@ =~= seq![a]);
    }
    v
}

fn symbol_chars(r: Relation) -> (v: Vec<char>)
    ensures
        v@ == symbol(r),
{
    match r {
        Relation::Eq => pair('=', '='),
        Relation::Ne => pair('!', '='),
        Relation::Ge => pair('>', '='),
        Relation::Le => pair('<', '='),
        Relation::Gt => single('>'),
        Relation::Lt => single('<'),
    }
}

/// The comparison that splits an expression: the first of `==`, `!=`, `>=`,
/// `<=`, `>`, `<` that stands at top level, and its position.
pub open spec fn first_relation(t: Seq<char>) -> Option<(Relation, int)> {
    if top_index(t, symbol(Relation::Eq)) is Some {
        Some((Relation::Eq, top_index(t, symbol(Relation::Eq))->0))
    } else if top_index(t, symbol(Relation::Ne)) is Some {
        Some((Relation::Ne, top_index(t, symbol(Relation::Ne))->0))
    } else if top_index(t, symbol(Relation::Ge)) is Some {
        Some((Relation::Ge, top_index(t, symbol(Relation::Ge))->0))
    } else if top_index(t, symbol(Relation::Le)) is Some {
        Some((Relation::Le, top_index(t, symbol(Relation::Le))->0))
    } else if top_index(t, symbol(Relation::Gt)) is Some {
        Some((Relation::Gt, top_index(t, symbol(Relation::Gt))->0))
    } else if top_index(t, symbol(Relation::Lt)) is Some {
        Some((Relation::Lt, top_index(t, symbol(Relation::Lt))->0))
    } else {
        None
    }
}

pub proof fn lemma_first_relation(t: Seq<char>)
    ensures
        first_relation(t) matches Some((r, p)) ==> 0 <= p && p + symbol(r).len() <= t.len()
            && symbol(r).len() >= 1,
{
    lemma_top_from(t, symbol(Relation::Eq), 0, 0);
    lemma_top_from(t, symbol(Relation::Ne), 0, 0);
    lemma_top_from(t, symbol(Relation::Ge), 0, 0);
    lemma_top_from(t, symbol(Relation::Le), 0, 0);
    lemma_top_from(t, symbol(Relation::Gt), 0, 0);
    lemma_top_from(t, symbol(Relation::Lt), 0, 0);
}

fn find_rel(t: &[char], r: Relation) -> (p: Option<usize>)
    ensures
        p matches Some(i) ==> top_index(t@, symbol(r)) == Some(i as int),
        p is None ==> top_index(t@, symbol(r)) is None,
{
    let s = symbol_chars(r);
    find_top(t, s.as_slice())
}

fn find_relation(t: &[char]) -> (r: Option<(Relation, usize)>)
    ensures
        r matches Some((x, p)) ==> first_relation(t@) == Some((x, p as int)),
        r is None ==> first_relation(t@) is None,
{
    match find_rel(t, Relation::Eq) {
        Some(p) => {
            return Some((Relation::Eq, p));
        },
        None => {},
    }
    match find_rel(t, Relation::Ne) {
        Some(p) => {
            return Some((Relation::Ne, p));
        },
        None => {},
    }
    match find_rel(t, Relation::Ge) {
        Some(p) => {
            return Some((Relation::Ge, p));
        },
        None => {},
    }
    match find_rel(t, Relation::Le) {
        Some(p) => {
            return Some((Relation::Le, p));
        },
        None => {},
    }
    match find_rel(t, Relation::Gt) {
        Some(p) => {
            return Some((Relation::Gt, p));
        },
        None => {},
    }
    match find_rel(t, Relation::Lt) {
        Some(p) => Some((Relation::Lt, p)),
        None => None,
    }
}

/// Two texts compared by code point order.
pub open spec fn text_relation(r: Relation, a: Seq<char>, b: Seq<char>) -> bool {
    match r {
        Relation::Eq => a == b,
        Relation::Ne => a != b,
        Relation::Ge => !lex_less(a, b),
        Relation::Le => !lex_less(b, a),
        Relation::Gt => lex_less(b, a),
        Relation::Lt => lex_less(a, b),
    }
}

fn relate_texts(r: Relation, a: &[char], b: &[char]) -> (v: bool)
    ensures
        v == text_relation(r, a@, b@),
{
    match r {
        Relation::Eq => crate::text::eq_chars(a, b),
        Relation::Ne => !crate::text::eq_chars(a, b),
        Relation::Ge => !less(a, b),
        Relation::Le => !less(b, a),
        Relation::Gt => less(b, a),
        Relation::Lt => less(a, b),
    }
}

/// Two values compared: as numbers if both are, else as unquoted texts.
pub open spec fn relate(r: Relation, av: Seq<char>, bv: Seq<char>, c: Scope) -> OutView<bool> {
    let a = trimmed(av);
    let b = trimmed(bv);
    if number_text(a) && number_text(b) {
        is_yes(c.answers.asked(AskView { topic: Topic::Relate(r), a, b, c: Seq::empty() }))
    } else {
        done(text_relation(r, unquoted(a), unquoted(b)))
    }
}

fn relate_values(r: Relation, av: &[char], bv: &[char], c: &EvalContext) -> (o: Out<bool>)
    ensures
        bool_out(o) == relate(r, av@, bv@, c@),
{
    let a = trim(av);
    let b = trim(bv);
    if is_number(a) && is_number(b) {
        let none: Vec<char> = Vec::new();
        proof {
            assert(none@ =~= Seq::empty());
        }
        yes(c.answers.ask(Topic::Relate(r), a, b, none.as_slice()))
    } else {
        Out::Done(relate_texts(r, strip_quotes(a), strip_quotes(b)), no_notes())
    }
}

/// A truth value for a text, if the text decides it.
pub open spec fn truth_of(v: Seq<char>, c: Scope, default: bool) -> OutView<bool> {
    let t = trimmed(v);
    if t == "true"@ || t == "1"@ {
        done(true)
    } else if t == "false"@ || t == "0"@ || t.len() == 0 {
        done(false)
    } else if number_text(t) {
        is_yes(ask1(c, Topic::NonZero, t))
    } else {
        done(default)
    }
}

fn decide(v: &[char], c: &EvalContext, default: bool) -> (r: Out<bool>)
    ensures
        bool_out(r) == truth_of(v@, c@, default),
{
    let t = trim(v);
    if eq_str(t, "true") || eq_str(t, "1") {
        Out::Done(true, no_notes())
    } else if eq_str(t, "false") || eq_str(t, "0") || t.len() == 0 {
        Out::Done(false, no_notes())
    } else if is_number(t) {
        yes(put1(c, Topic::NonZero, t))
    } else {
        Out::Done(default, no_notes())
    }
}

/// An outcome with earlier remarks in front of its own.
pub open spec fn noted<T>(n: Seq<Seq<char>>, o: OutView<T>) -> OutView<T> {
    match o {
        OutView::Need(q) => OutView::Need(q),
        OutView::Done(v, m) => OutView::Done(v, n + m),
    }
}

/// The remark on an expression that should have been a number.
pub open spec fn not_a_number(e: Seq<char>, v: Seq<char>) -> Seq<char> {
    "`"@ + e + "` → `"@ + v + "` is not a number"@
}

fn not_a_number_text(e: &[char], v: &[char]) -> (r: String)
    ensures
        r@ == not_a_number(e@, v@),
{
    let mut w = chars_of("`");
    append(&mut w, e);
    append_str(&mut w, "` → `");
    append(&mut w, v);
    append_str(&mut w, "` is not a number");
    string_of(w.as_slice())
}

/// The number that a value is, if it is one, with the remark otherwise.
pub open spec fn figure_of(e: Seq<char>, v: Seq<char>) -> OutView<Option<Seq<char>>> {
    let t = trimmed(v);
    if number_text(t) {
        done(Some(t))
    } else if t.len() > 0 && looks_numeric(e) {
        OutView::Done(None, seq![not_a_number(e, v)])
    } else {
        done(None)
    }
}

fn figure_from(e: &[char], v: &[char]) -> (r: Out<Option<Vec<char>>>)
    ensures
        opt_out(r) == figure_of(e@, v@),
        !(r is Need),
{
    let t = trim(v);
    if is_number(t) {
        Out::Done(Some(to_vec(t)), no_notes())
    } else if t.len() > 0 && numeric_looking(e) {
        let mut n: Vec<String> = Vec::new();
        n.push(not_a_number_text(e, v));
        proof {
            assert(texts(n@) =~= seq![not_a_number(e@, v@)]);
        }
        Out::Done(None, n)
    } else {
        Out::Done(None, no_notes())
    }
}

pub proof fn lemma_trimmed_len(s: Seq<char>)
    ensures
        trimmed(s).len() <= s.len(),
        trimmed_start(s).len() <= s.len(),
{
    lemma_trimmed_start_len(s);
    lemma_trimmed_end_len(trimmed_start(s));
}

proof fn lemma_trimmed_start_len(s: Seq<char>)
    ensures
        trimmed_start(s).len() <= s.len(),
    decreases s.len(),
{
    if s.len() > 0 {
        lemma_trimmed_start_len(s.skip(1));
    }
}

proof fn lemma_trimmed_end_len(s: Seq<char>)
    ensures
        trimmed_end(s).len() <= s.len(),
    decreases s.len(),
{
    if s.len() > 0 {
        lemma_trimmed_end_len(s.drop_last());
    }
}

/// The argument text of `name..)`.
pub open spec fn call_body(t: Seq<char>, name: Seq<char>) -> Option<Seq<char>> {
    if has_prefix(t, name) && name.len() < t.len() && t.last() == ')' {
        Some(t.subrange(name.len() as int, t.len() - 1))
    } else {
        None
    }
}

fn find_call<'a>(t: &'a [char], name: &str) -> (r: Option<&'a [char]>)
    ensures
        r matches Some(s) ==> call_body(t@, name@) == Some(s@) && s@.len() < t@.len(),
        r is None ==> call_body(t@, name@) is None,
{
    let l = chars_of(name);
    if l.len() < t.len() && t[t.len() - 1] == ')' && starts_with_str(t, name) {
        Some(slice_subrange(t, l.len(), t.len() - 1))
    } else {
        None
    }
}

/// The measured width for the arguments text, size and optional family.
pub open spec fn width_view(s: Seq<char>, c: Scope, topic: Topic) -> OutView<Seq<char>>
    decreases s.len(), 3nat, 0int,
{
    let l = args(s);
    if l.len() < 2 {
        done("0"@)
    } else {
        proof {
            lemma_args(s);
            lemma_trimmed_len(l[1]);
        }
        match eval_view(l[0], c) {
            OutView::Need(q) => OutView::Need(q),
            OutView::Done(text, n0) => match figure_view(trimmed(l[1]), c) {
                OutView::Need(q) => OutView::Need(q),
                OutView::Done(size, n1) => {
                    let family = if l.len() >= 3 {
                        eval_view(l[2], c)
                    } else {
                        done(Seq::empty())
                    };
                    match family {
                        OutView::Need(q) => OutView::Need(q),
                        OutView::Done(fam, n2) => noted(
                            n0 + n1 + n2,
                            measure(text, size, fam, c, topic),
                        ),
                    }
                },
            },
        }
    }
}

/// The width of a text, zero where nothing can measure it. The size defaults to 15.
pub open spec fn measure(
    text: Seq<char>,
    size: Option<Seq<char>>,
    family: Seq<char>,
    c: Scope,
    topic: Topic,
) -> OutView<Seq<char>> {
    let b = match size {
        Some(t) => t,
        None => "15"@,
    };
    if c.measured {
        or_text(c.answers.asked(AskView { topic, a: text, b, c: family }), "0"@)
    } else {
        done("0"@)
    }
}

/// The number that an expression evaluates to, if it does.
pub open spec fn figure_view(e: Seq<char>, c: Scope) -> OutView<Option<Seq<char>>>
    decreases e.len(), 2nat, 0int,
{
    match eval_view(e, c) {
        OutView::Need(q) => OutView::Need(q),
        OutView::Done(v, n) => noted(n, figure_of(e, v)),
    }
}

/// The truth value that an expression evaluates to.
pub open spec fn truth_view(e: Seq<char>, c: Scope, default: bool) -> OutView<bool>
    decreases e.len(), 2nat, 0int,
{
    match eval_view(e, c) {
        OutView::Need(q) => OutView::Need(q),
        OutView::Done(v, n) => noted(n, truth_of(v, c, default)),
    }
}

/// Both operands' truth values joined by `or` or by `and`.
pub open spec fn join_truth(a: OutView<bool>, b: OutView<bool>, or: bool) -> OutView<bool> {
    match a {
        OutView::Need(q) => OutView::Need(q),
        OutView::Done(x, n) => match b {
            OutView::Need(q) => OutView::Need(q),
            OutView::Done(y, m) => OutView::Done(
                if or {
                    x || y
                } else {
                    x && y
                },
                n + m,
            ),
        },
    }
}

pub open spec fn negate(a: OutView<bool>) -> OutView<bool> {
    match a {
        OutView::Need(q) => OutView::Need(q),
        OutView::Done(x, n) => OutView::Done(!x, n),
    }
}

/// Logic and comparisons; nothing if the expression is neither.
pub open spec fn logic_view(t: Seq<char>, c: Scope) -> Option<OutView<bool>>
    decreases t.len(), 0nat, t.len() + 3,
{
    proof {
        lemma_top_from(t, seq!['|', '|'], 0, 0);
        lemma_top_from(t, seq!['&', '&'], 0, 0);
        lemma_first_relation(t);
    }
    let or = top_index(t, seq!['|', '|']);
    let and = top_index(t, seq!['&', '&']);
    if or is Some {
        let p = or->0;
        Some(join_truth(truth_view(t.take(p), c, false), truth_view(t.skip(p + 2), c, false), true))
    } else if and is Some {
        let p = and->0;
        Some(join_truth(truth_view(t.take(p), c, false), truth_view(t.skip(p + 2), c, false), false))
    } else if t.len() > 0 && t[0] == '!' && !has_prefix(trimmed_start(t.skip(1)), seq!['=']) {
        Some(negate(truth_view(t.skip(1), c, false)))
    } else {
        match first_relation(t) {
            None => None,
            Some((r, p)) => Some(
                match eval_view(t.take(p), c) {
                    OutView::Need(q) => OutView::Need(q),
                    OutView::Done(av, n) => match eval_view(t.skip(p + symbol(r).len()), c) {
                        OutView::Need(q) => OutView::Need(q),
                        OutView::Done(bv, m) => noted(n + m, relate(r, av, bv, c)),
                    },
                },
            ),
        }
    }
}

/// A text changed by a function that cannot fail.
pub open spec fn map_text(o: OutView<Seq<char>>, f: spec_fn(Seq<char>) -> Seq<char>) -> OutView<
    Seq<char>,
> {
    match o {
        OutView::Need(q) => OutView::Need(q),
        OutView::Done(v, n) => OutView::Done(f(v), n),
    }
}

/// Text functions, property paths and arithmetic.
pub open spec fn term_view(t: Seq<char>, c: Scope) -> OutView<Seq<char>>
    decreases t.len(), 0nat, t.len() + 3,
{
    let width = call_body(t, "text_width("@);
    let upper = call_body(t, "upper("@);
    let lower = call_body(t, "lower("@);
    let initial = call_body(t, "initial("@);
    if width is Some && args(width->0).len() >= 2 {
        width_view(width->0, c, Topic::RoundedWidth)
    } else if upper is Some && args(upper->0).len() >= 1 {
        proof {
            lemma_args(upper->0);
        }
        map_text(eval_view(args(upper->0)[0], c), |v: Seq<char>| upper_of(v))
    } else if lower is Some && args(lower->0).len() >= 1 {
        proof {
            lemma_args(lower->0);
        }
        map_text(eval_view(args(lower->0)[0], c), |v: Seq<char>| lower_of(v))
    } else if initial is Some && args(initial->0).len() >= 1 {
        proof {
            lemma_args(initial->0);
        }
        map_text(eval_view(args(initial->0)[0], c), |v: Seq<char>| first_of(v))
    } else {
        match property(t, c) {
            Some(o) => o,
            None => numeric_view(t, c),
        }
    }
}

/// Arithmetic; an expression without a finite value stands for itself.
pub open spec fn numeric_view(t: Seq<char>, c: Scope) -> OutView<Seq<char>>
    decreases t.len(), 0nat, t.len() + 2,
{
    if !looks_like_math(t) {
        done(t)
    } else {
        match substituted(t, 0, c) {
            OutView::Need(q) => OutView::Need(q),
            OutView::Done(x, n) => noted(n, or_text(ask1(c, Topic::Arithmetic, x), t)),
        }
    }
}

/// Whether a measured width stands at `i`, and the end of its arguments.
pub open spec fn width_call(t: Seq<char>, i: int) -> Option<int> {
    if stands_at(t, "text_width("@, i) && (i == 0 || !word_char(t[i - 1])) {
        closing(t, i + 10)
    } else {
        None
    }
}

pub proof fn lemma_closing(t: Seq<char>, i: int)
    ensures
        closing(t, i) matches Some(p) ==> 0 <= i < p < t.len() && t[p] == ')',
{
    if 0 <= i < t.len() && t[i] == '(' {
        lemma_close_from(t, i + 1, 1);
    }
}

/// The expression from `i` on, with paths, numeric locals and measured widths
/// replaced by their numbers. Quoted regions stay as they are.
pub open spec fn substituted(t: Seq<char>, i: int, c: Scope) -> OutView<Seq<char>>
    decreases t.len(), 0nat, t.len() - i,
{
    if i < 0 || i >= t.len() {
        done(Seq::empty())
    } else if quote_char(t[i]) {
        proof {
            lemma_past(t, i);
        }
        glue(done(t.subrange(i, past(t, i))), substituted(t, past(t, i), c))
    } else if width_call(t, i) is Some {
        proof {
            lemma_closing(t, i + 10);
        }
        let e = width_call(t, i)->0;
        glue(width_view(t.subrange(i + 11, e), c, Topic::Width), substituted(t, e + 1, c))
    } else if ascii_alpha(t[i]) || t[i] == '_' {
        proof {
            lemma_token_end(t, i + 1);
        }
        let e = token_end(t, i + 1);
        glue(path_number(t.subrange(i, e), c), substituted(t, e, c))
    } else {
        glue(done(seq![t[i]]), substituted(t, i + 1, c))
    }
}

/// The value of an expression.
pub open spec fn eval_view(e: Seq<char>, c: Scope) -> OutView<Seq<char>>
    decreases e.len(), 1nat, 0int,
{
    proof {
        lemma_trimmed_len(e);
        lemma_ternary(trimmed(e));
    }
    let t = trimmed(e);
    if t.len() == 0 {
        done(Seq::empty())
    } else if quoted(t) {
        done(unquoted(t))
    } else {
        match ternary(t) {
            Some((p, q)) => match truth_view(t.take(p), c, false) {
                OutView::Need(x) => OutView::Need(x),
                OutView::Done(v, n) => noted(
                    n,
                    if v {
                        eval_view(t.subrange(p + 1, q), c)
                    } else {
                        eval_view(t.skip(q + 1), c)
                    },
                ),
            },
            None => match logic_view(t, c) {
                Some(o) => match o {
                    OutView::Need(x) => OutView::Need(x),
                    OutView::Done(v, n) => OutView::Done(bool_text(v), n),
                },
                None => term_view(t, c),
            },
        }
    }
}

fn quiet<T>(first: Vec<String>, o: Out<T>) -> (r: Out<T>)
    ensures
        (o matches Out::Need(q) ==> r == Out::<T>::Need(q)),
        (o matches Out::Done(v, n) ==> (r matches Out::Done(w, m) && w == v && texts(m@) == texts(first@)
            + texts(n@))),
{
    match o {
        Out::Need(q) => Out::Need(q),
        Out::Done(v, n) => Out::Done(v, chain(first, n)),
    }
}

fn width(s: &[char], c: &EvalContext, topic: Topic) -> (r: Out<Vec<char>>)
    ensures
        chars_out(r) == width_view(s@, c@, topic),
    decreases s@.len(), 3nat, 0int,
{
    let l = split_args(s);
    proof {
        lemma_args(s@);
    }
    if l.len() < 2 {
        return ready_str("0");
    }
    proof {
        assert(views(l@)[0] == l@[0]@);
        assert(views(l@)[1] == l@[1]@);
        lemma_trimmed_len(l@[1]@);
    }
    let text = match eval_inner(l[0].as_slice(), c) {
        Out::Need(q) => {
            return Out::Need(q);
        },
        Out::Done(v, n) => (v, n),
    };
    let size = match figure(trim(l[1].as_slice()), c) {
        Out::Need(q) => {
            return Out::Need(q);
        },
        Out::Done(v, n) => (v, n),
    };
    let family = if l.len() >= 3 {
        proof {
            assert(views(l@)[2] == l@[2]@);
        }
        match eval_inner(l[2].as_slice(), c) {
            Out::Need(q) => {
                return Out::Need(q);
            },
            Out::Done(v, n) => (v, n),
        }
    } else {
        let none: Vec<char> = Vec::new();
        proof {
            assert(none@ =~= Seq::empty());
        }
        (none, no_notes())
    };
    let notes = chain(chain(text.1, size.1), family.1);
    let points = match size.0 {
        Some(t) => t,
        None => chars_of("15"),
    };
    let o = if c.measured {
        text_or(
            c.answers.ask(topic, text.0.as_slice(), points.as_slice(), family.0.as_slice()),
            chars_of("0"),
        )
    } else {
        ready_str("0")
    };
    quiet(notes, o)
}

fn figure(e: &[char], c: &EvalContext) -> (r: Out<Option<Vec<char>>>)
    ensures
        opt_out(r) == figure_view(e@, c@),
    decreases e@.len(), 2nat, 0int,
{
    match eval_inner(e, c) {
        Out::Need(q) => Out::Need(q),
        Out::Done(v, n) => quiet(n, figure_from(e, v.as_slice())),
    }
}

fn truth(e: &[char], c: &EvalContext, default: bool) -> (r: Out<bool>)
    ensures
        bool_out(r) == truth_view(e@, c@, default),
    decreases e@.len(), 2nat, 0int,
{
    match eval_inner(e, c) {
        Out::Need(q) => Out::Need(q),
        Out::Done(v, n) => quiet(n, decide(v.as_slice(), c, default)),
    }
}

fn both(a: Out<bool>, b: Out<bool>, or: bool) -> (r: Out<bool>)
    ensures
        bool_out(r) == join_truth(bool_out(a), bool_out(b), or),
{
    match a {
        Out::Need(q) => Out::Need(q),
        Out::Done(x, n) => match b {
            Out::Need(q) => Out::Need(q),
            Out::Done(y, m) => {
                let v = if or {
                    x || y
                } else {
                    x && y
                };
                Out::Done(v, chain(n, m))
            },
        },
    }
}

pub open spec fn opt_bool_out(o: Option<Out<bool>>) -> Option<OutView<bool>> {
    match o {
        Some(x) => Some(bool_out(x)),
        None => None,
    }
}

fn eval_logic(t: &[char], c: &EvalContext) -> (r: Option<Out<bool>>)
    ensures
        opt_bool_out(r) == logic_view(t@, c@),
    decreases t@.len(), 0nat, t@.len() + 3,
{
    let n: usize = t.len();
    let or = pair('|', '|');
    match find_top(t, or.as_slice()) {
        Some(p) => {
            let a = slice_subrange(t, 0, p);
            let b = slice_subrange(t, p + 2, n);
            proof {
                assert(a@ =~= t@.take(p as int));
                assert(b@ =~= t@.skip(p + 2));
            }
            return Some(both(truth(a, c, false), truth(b, c, false), true));
        },
        None => {},
    }
    let and = pair('&', '&');
    match find_top(t, and.as_slice()) {
        Some(p) => {
            let a = slice_subrange(t, 0, p);
            let b = slice_subrange(t, p + 2, n);
            proof {
                assert(a@ =~= t@.take(p as int));
                assert(b@ =~= t@.skip(p + 2));
            }
            return Some(both(truth(a, c, false), truth(b, c, false), false));
        },
        None => {},
    }
    if n > 0 && t[0] == '!' {
        let rest = slice_subrange(t, 1, n);
        proof {
            assert(rest@ =~= t@.skip(1));
        }
        let equals = single('=');
        if !crate::text::starts_with(trim_start(rest), equals.as_slice()) {
            return Some(
                match truth(rest, c, false) {
                    Out::Need(q) => Out::Need(q),
                    Out::Done(v, m) => Out::Done(!v, m),
                },
            );
        }
    }
    proof {
        lemma_first_relation(t@);
    }
    match find_relation(t) {
        None => None,
        Some((r, p)) => {
            let s = symbol_chars(r);
            let a = slice_subrange(t, 0, p);
            let b = slice_subrange(t, p + s.len(), n);
            proof {
                assert(a@ =~= t@.take(p as int));
                assert(b@ =~= t@.skip(p + symbol(r).len()));
            }
            let av = match eval_inner(a, c) {
                Out::Need(q) => {
                    return Some(Out::Need(q));
                },
                Out::Done(v, m) => (v, m),
            };
            let bv = match eval_inner(b, c) {
                Out::Need(q) => {
                    return Some(Out::Need(q));
                },
                Out::Done(v, m) => (v, m),
            };
            let o = relate_values(r, av.0.as_slice(), bv.0.as_slice(), c);
            Some(quiet(chain(av.1, bv.1), o))
        },
    }
}

/// The value of the first argument of a text function.
fn eval_first(s: &[char], c: &EvalContext) -> (r: Option<Out<Vec<char>>>)
    ensures
        r is Some <==> args(s@).len() >= 1,
        r matches Some(o) ==> chars_out(o) == eval_view(args(s@)[0], c@),
    decreases s@.len(), 3nat, 0int,
{
    let l = split_args(s);
    proof {
        lemma_args(s@);
    }
    if l.len() == 0 {
        return None;
    }
    proof {
        assert(views(l@)[0] == l@[0]@);
    }
    Some(eval_inner(l[0].as_slice(), c))
}

fn eval_term(t: &[char], c: &EvalContext) -> (r: Out<Vec<char>>)
    ensures
        chars_out(r) == term_view(t@, c@),
    decreases t@.len(), 0nat, t@.len() + 3,
{
    match find_call(t, "text_width(") {
        Some(s) => {
            let l = split_args(s);
            if l.len() >= 2 {
                return width(s, c, Topic::RoundedWidth);
            }
        },
        None => {},
    }
    match find_call(t, "upper(") {
        Some(s) => match eval_first(s, c) {
            Some(o) => {
                return match o {
                    Out::Need(q) => Out::Need(q),
                    Out::Done(v, n) => {
                        let text = string_of(v.as_slice());
                        let up = to_upper(text.as_str());
                        Out::Done(chars_of(up.as_str()), n)
                    },
                };
            },
            None => {},
        },
        None => {},
    }
    match find_call(t, "lower(") {
        Some(s) => match eval_first(s, c) {
            Some(o) => {
                return match o {
                    Out::Need(q) => Out::Need(q),
                    Out::Done(v, n) => {
                        let text = string_of(v.as_slice());
                        let low = to_lower(text.as_str());
                        Out::Done(chars_of(low.as_str()), n)
                    },
                };
            },
            None => {},
        },
        None => {},
    }
    match find_call(t, "initial(") {
        Some(s) => match eval_first(s, c) {
            Some(o) => {
                return match o {
                    Out::Need(q) => Out::Need(q),
                    Out::Done(v, n) => Out::Done(initial(v.as_slice()), n),
                };
            },
            None => {},
        },
        None => {},
    }
    match property_value(t, c) {
        Some(o) => o,
        None => eval_numeric(t, c),
    }
}

fn eval_numeric(t: &[char], c: &EvalContext) -> (r: Out<Vec<char>>)
    ensures
        chars_out(r) == numeric_view(t@, c@),
    decreases t@.len(), 0nat, t@.len() + 2,
{
    if !maybe_math(t) {
        return ready(to_vec(t));
    }
    match substitute_paths(t, c) {
        Out::Need(q) => Out::Need(q),
        Out::Done(x, n) => quiet(
            n,
            text_or(put1(c, Topic::Arithmetic, x.as_slice()), to_vec(t)),
        ),
    }
}

fn find_width_call(t: &[char], i: usize) -> (r: Option<usize>)
    requires
        i < t@.len(),
    ensures
        r matches Some(e) ==> width_call(t@, i as int) == Some(e as int) && i + 10 < e < t@.len(),
        r is None ==> width_call(t@, i as int) is None,
{
    let name = chars_of("text_width(");
    proof {
        reveal_strlit("text_width(");
    }
    if stands(t, name.as_slice(), i) && (i == 0 || !is_word(t[i - 1])) {
        find_closing(t, i + 10)
    } else {
        None
    }
}

fn substitute_paths(t: &[char], c: &EvalContext) -> (r: Out<Vec<char>>)
    ensures
        chars_out(r) == substituted(t@, 0, c@),
    decreases t@.len(), 0nat, t@.len() + 1,
{
    let n: usize = t.len();
    let mut out: Vec<char> = Vec::new();
    let mut notes: Vec<String> = no_notes();
    let mut i: usize = 0;
    proof {
        assert(glue(OutView::Done(out@, texts(notes@)), substituted(t@, 0, c@)) == substituted(t@, 0, c@))
            by {
            if let OutView::Done(w, m) = substituted(t@, 0, c@) {
                assert(out@ + w =~= w);
                assert(texts(notes@) + m =~= m);
            }
        }
    }
    while i < n
        invariant
            n == t@.len(),
            i <= n,
            glue(OutView::Done(out@, texts(notes@)), substituted(t@, i as int, c@)) == substituted(
                t@,
                0,
                c@,
            ),
        decreases n - i,
    {
        let ch = t[i];
        let ghost so_far = OutView::Done(out@, texts(notes@));
        if ch == '\'' || ch == '"' {
            let e: usize = skip_past(t, i);
            let piece = slice_subrange(t, i, e);
            append(&mut out, piece);
            proof {
                lemma_glue(so_far, done(piece@), substituted(t@, e as int, c@));
                assert(texts(notes@) + Seq::<Seq<char>>::empty() =~= texts(notes@));
            }
            i = e;
        } else {
            match find_width_call(t, i) {
                Some(e) => {
                    let inner = slice_subrange(t, i + 11, e);
                    proof {
                        lemma_glue(
                            so_far,
                            width_view(inner@, c@, Topic::Width),
                            substituted(t@, e + 1, c@),
                        );
                    }
                    match width(inner, c, Topic::Width) {
                        Out::Need(q) => {
                            return Out::Need(q);
                        },
                        Out::Done(v, m) => {
                            append(&mut out, v.as_slice());
                            notes = chain(notes, m);
                        },
                    }
                    i = e + 1;
                },
                None => {
                    if is_alpha(ch) || ch == '_' {
                        let e: usize = find_token_end(t, i + 1);
                        let token = slice_subrange(t, i, e);
                        proof {
                            lemma_glue(
                                so_far,
                                path_number(token@, c@),
                                substituted(t@, e as int, c@),
                            );
                        }
                        match number_of(token, c) {
                            Out::Need(q) => {
                                return Out::Need(q);
                            },
                            Out::Done(v, m) => {
                                append(&mut out, v.as_slice());
                                notes = chain(notes, m);
                            },
                        }
                        i = e;
                    } else {
                        out.push(ch);
                        proof {
                            lemma_glue(so_far, done(seq![ch]), substituted(t@, i + 1, c@));
                            assert(out@ =~= so_far->Done_0 + seq![ch]);
                            assert(texts(notes@) + Seq::<Seq<char>>::empty() =~= texts(notes@));
                        }
                        i += 1;
                    }
                },
            }
        }
    }
    proof {
        assert(out@ + Seq::<char>::empty() =~= out@);
        assert(texts(notes@) + Seq::<Seq<char>>::empty() =~= texts(notes@));
    }
    Out::Done(out, notes)
}

fn eval_inner(e: &[char], c: &EvalContext) -> (r: Out<Vec<char>>)
    ensures
        chars_out(r) == eval_view(e@, c@),
    decreases e@.len(), 1nat, 0int,
{
    let t = trim(e);
    let n: usize = t.len();
    if n == 0 {
        let none: Vec<char> = Vec::new();
        proof {
            assert(none@ =~= Seq::empty());
        }
        return ready(none);
    }
    if is_quoted(t) {
        return ready(to_vec(strip_quotes(t)));
    }
    match find_ternary(t) {
        Some((p, q)) => {
            let cond = slice_subrange(t, 0, p);
            let a = slice_subrange(t, p + 1, q);
            let b = slice_subrange(t, q + 1, n);
            proof {
                assert(cond@ =~= t@.take(p as int));
                assert(b@ =~= t@.skip(q + 1));
            }
            return match truth(cond, c, false) {
                Out::Need(x) => Out::Need(x),
                Out::Done(v, m) => {
                    let o = if v {
                        eval_inner(a, c)
                    } else {
                        eval_inner(b, c)
                    };
                    quiet(m, o)
                },
            };
        },
        None => {},
    }
    match eval_logic(t, c) {
        Some(o) => match o {
            Out::Need(x) => Out::Need(x),
            Out::Done(v, m) => Out::Done(chars_of(bool_str(v)), m),
        },
        None => eval_term(t, c),
    }
}

// ---------------------------------------------------------------------------
// Entry points
// ---------------------------------------------------------------------------

/// The value of an expression as text.
pub fn eval_str(expr: &str, ctx: &EvalContext) -> (r: Out<String>)
    ensures
        string_out(r) == eval_view(expr@, ctx@),
{
    let e = chars_of(expr);
    match eval_inner(e.as_slice(), ctx) {
        Out::Need(q) => Out::Need(q),
        Out::Done(v, n) => Out::Done(string_of(v.as_slice()), n),
    }
}

/// The number an expression evaluates to, as text; nothing where it is none.
pub fn eval_f32(expr: &str, ctx: &EvalContext) -> (r: Out<Option<Vec<char>>>)
    ensures
        opt_out(r) == figure_view(expr@, ctx@),
{
    let e = chars_of(expr);
    figure(e.as_slice(), ctx)
}

/// The truth value of an expression; `default` where its text is neither a
/// truth value nor a number.
pub fn eval_bool(expr: &str, ctx: &EvalContext, default: bool) -> (r: Out<bool>)
    ensures
        bool_out(r) == truth_view(expr@, ctx@, default),
{
    let e = chars_of(expr);
    truth(e.as_slice(), ctx, default)
}

/// The color an expression evaluates to; `default` where its text names none.
pub fn eval_color(expr: &str, ctx: &EvalContext, default: crate::color::Color) -> (r: Out<
    crate::color::Color,
>)
    ensures
        match eval_view(expr@, ctx@) {
            OutView::Need(q) => r matches Out::Need(k) && k@ == q,
            OutView::Done(v, n) => r matches Out::Done(c, m) && texts(m@) == n && c == (
            match crate::color::color_of(v) {
                Some(x) => x,
                None => default,
            }),
        },
{
    let e = chars_of(expr);
    match eval_inner(e.as_slice(), ctx) {
        Out::Need(q) => Out::Need(q),
        Out::Done(v, n) => match crate::color::color_from(v.as_slice()) {
            Some(c) => Out::Done(c, n),
            None => Out::Done(default, n),
        },
    }
}

} // verus!
