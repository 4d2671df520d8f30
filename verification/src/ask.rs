//! Questions that the float-free core leaves to its caller.
//!
//! Evaluation never touches floating point, fonts or the file system. Where a
//! value depends on one of these, it asks: an [`Ask`] goes out, the caller looks
//! the answer up and records it in [`Answers`], and evaluation runs again.
use crate::node::opt_view;
use crate::text::{append_str, eq_str, same_str, string_of, texts};
use vstd::prelude::*;

verus! {

/// How two operands are compared.
#[derive(Debug, Clone, Copy, PartialEq, Eq, Structural)]
pub enum Relation {
    Eq,
    Ne,
    Ge,
    Le,
    Gt,
    Lt,
}

/// What a question is about.
#[derive(Debug, Clone, Copy, PartialEq, Eq, Structural)]
pub enum Topic {
    /// The value of the arithmetic expression `a`, if it has a finite one.
    Arithmetic,
    /// The double-precision number written by `a`, printed again.
    Reprint,
    /// The width of text `a` at size `b` in family `c`.
    Width,
    /// The same width, rounded to a whole number.
    RoundedWidth,
    /// Whether number `a` relates to number `b` so.
    Relate(Relation),
    /// Whether the single-precision number written by `a` differs from zero.
    NonZero,
    /// The image file for icon name `a`.
    Icon,
    /// The sum of `a` and `b` in single precision.
    Sum,
    /// `a` less `b` in single precision.
    Minus,
    /// `a` less `b` in single precision, at least zero.
    Rest,
    /// `a` times `b` in single precision.
    Times,
    /// `a` brought into zero to one.
    Unit,
    /// Horizontal place of item `a` of `b` on a ring of radius `c`.
    RingX,
    /// Vertical place of item `a` of `b` on a ring of radius `c`.
    RingY,
    /// `a` cut to a whole number, zero where it is negative or no number.
    Natural,
    /// `a` cut to a whole number, nothing where it is negative or no number.
    Index,
    /// `a` cut to a whole number of 32 bits with sign.
    Delta,
    /// Whether `a` is finite.
    Finite,
}

/// A question with up to three texts.
#[derive(Debug, Clone)]
pub struct Ask {
    pub topic: Topic,
    pub a: String,
    pub b: String,
    pub c: String,
}

/// The mathematical content of a question.
pub struct AskView {
    pub topic: Topic,
    pub a: Seq<char>,
    pub b: Seq<char>,
    pub c: Seq<char>,
}

impl View for Ask {
    type V = AskView;

    open spec fn view(&self) -> AskView {
        AskView { topic: self.topic, a: self.a@, b: self.b@, c: self.c@ }
    }
}

/// The outcome of a step that may have to ask.
#[derive(Debug)]
pub enum Out<T> {
    /// The answer to this question is missing.
    Need(Ask),
    /// The value, and the remarks made on the way to it.
    Done(T, Vec<String>),
}

/// The mathematical content of an outcome.
pub enum OutView<T> {
    Need(AskView),
    Done(T, Seq<Seq<char>>),
}

pub open spec fn done<T>(v: T) -> OutView<T> {
    OutView::Done(v, Seq::empty())
}

/// An outcome over characters.
pub open spec fn chars_out(o: Out<Vec<char>>) -> OutView<Seq<char>> {
    match o {
        Out::Need(q) => OutView::Need(q@),
        Out::Done(v, n) => OutView::Done(v@, texts(n@)),
    }
}

/// An outcome over a string.
pub open spec fn string_out(o: Out<String>) -> OutView<Seq<char>> {
    match o {
        Out::Need(q) => OutView::Need(q@),
        Out::Done(v, n) => OutView::Done(v@, texts(n@)),
    }
}

/// An outcome over a truth value.
pub open spec fn bool_out(o: Out<bool>) -> OutView<bool> {
    match o {
        Out::Need(q) => OutView::Need(q@),
        Out::Done(v, n) => OutView::Done(v, texts(n@)),
    }
}

/// The content of an optional text.
pub open spec fn opt_chars(o: Option<Vec<char>>) -> Option<Seq<char>> {
    match o {
        Some(v) => Some(v@),
        None => None,
    }
}

/// An outcome over an optional text.
pub open spec fn opt_out(o: Out<Option<Vec<char>>>) -> OutView<Option<Seq<char>>> {
    match o {
        Out::Need(q) => OutView::Need(q@),
        Out::Done(v, n) => OutView::Done(opt_chars(v), texts(n@)),
    }
}

/// Answers that the caller has given so far.
#[derive(Debug)]
pub struct Answers {
    pub entries: Vec<(Ask, Option<String>)>,
}

/// The first recorded answer to `q`.
pub open spec fn answer_in(e: Seq<(Ask, Option<String>)>, q: AskView) -> Option<Option<Seq<char>>>
    decreases e.len(),
{
    if e.len() == 0 {
        None
    } else if e[0].0@ == q {
        Some(opt_view(e[0].1))
    } else {
        answer_in(e.skip(1), q)
    }
}

impl Answers {
    pub open spec fn asked(self, q: AskView) -> OutView<Option<Seq<char>>> {
        match answer_in(self.entries@, q) {
            Some(a) => done(a),
            None => OutView::Need(q),
        }
    }

    pub fn new() -> (r: Answers)
        ensures
            r.entries@.len() == 0,
    {
        Answers { entries: Vec::new() }
    }

    /// Record an answer. A question answered before keeps its first answer.
    pub fn record(&mut self, ask: Ask, reply: Option<String>)
        ensures
            final(self).entries@ == old(self).entries@.push((ask, reply)),
            answer_in(final(self).entries@, ask@) == match answer_in(old(self).entries@, ask@) {
                Some(a) => Some(a),
                None => Some(opt_view(reply)),
            },
            forall|q: AskView|
                q != ask@ ==> #[trigger] answer_in(final(self).entries@, q) == answer_in(
                    old(self).entries@,
                    q,
                ),
    {
        let ghost before = self.entries@;
        self.entries.push((ask, reply));
        proof {
            lemma_answer_push(before, ask, reply, ask@);
            assert forall|q: AskView| q != ask@ implies #[trigger] answer_in(self.entries@, q)
                == answer_in(before, q) by {
                lemma_answer_push(before, ask, reply, q);
            }
        }
    }

    /// Look up the answer to a question made of three texts.
    pub fn ask(&self, topic: Topic, a: &[char], b: &[char], c: &[char]) -> (r: Out<Option<Vec<char>>>)
        ensures
            opt_out(r) == self.asked(AskView { topic, a: a@, b: b@, c: c@ }),
            r matches Out::Done(_, n) ==> n@.len() == 0,
    {
        let ghost q = AskView { topic, a: a@, b: b@, c: c@ };
        let mut i: usize = 0;
        proof {
            assert(self.entries@.skip(0) =~= self.entries@);
        }
        while i < self.entries.len()
            invariant
                i <= self.entries@.len(),
                q == (AskView { topic, a: a@, b: b@, c: c@ }),
                answer_in(self.entries@, q) == answer_in(self.entries@.skip(i as int), q),
            decreases self.entries@.len() - i,
        {
            let e = &self.entries[i];
            proof {
                assert(self.entries@.skip(i as int).skip(1) =~= self.entries@.skip(i + 1));
            }
            if e.0.topic == topic && eq_str(a, e.0.a.as_str()) && eq_str(b, e.0.b.as_str()) && eq_str(
                c,
                e.0.c.as_str(),
            ) {
                let notes: Vec<String> = Vec::new();
                proof {
                    assert(texts(notes@) =~= Seq::empty());
                }
                return match &e.1 {
                    Some(t) => Out::Done(Some(crate::text::chars_of(t.as_str())), notes),
                    None => Out::Done(None, notes),
                };
            }
            i += 1;
        }
        Out::Need(Ask { topic, a: string_of(a), b: string_of(b), c: string_of(c) })
    }
}

proof fn lemma_answer_push(e: Seq<(Ask, Option<String>)>, ask: Ask, reply: Option<String>, q: AskView)
    ensures
        answer_in(e.push((ask, reply)), q) == match answer_in(e, q) {
            Some(a) => Some(a),
            None => if ask@ == q {
                Some(opt_view(reply))
            } else {
                None
            },
        },
    decreases e.len(),
{
    let p = e.push((ask, reply));
    if e.len() == 0 {
        assert(p.skip(1) =~= Seq::empty());
        assert(answer_in(p.skip(1), q) is None);
    } else {
        assert(p.skip(1) =~= e.skip(1).push((ask, reply)));
        lemma_answer_push(e.skip(1), ask, reply, q);
    }
}

/// The list with every later remark behind every earlier one.
pub fn chain(first: Vec<String>, second: Vec<String>) -> (r: Vec<String>)
    ensures
        texts(r@) == texts(first@) + texts(second@),
{
    let mut out = first;
    let mut tail = second;
    let ghost a = out@;
    let ghost b = tail@;
    out.append(&mut tail);
    proof {
        assert(texts(out@) =~= texts(a) + texts(b));
    }
    out
}

/// Remarks on a theme, each kept once.
#[derive(Debug)]
pub struct Diag {
    pub warnings: Vec<String>,
}

/// Nothing is noted twice.
pub open spec fn noted_once(l: Seq<Seq<char>>) -> bool {
    l.no_duplicates()
}

/// The wording of a remark.
pub open spec fn warning(node: Seq<char>, what: Seq<char>, err: Seq<char>) -> Seq<char> {
    "node `"@ + node + "`: "@ + what + ": "@ + err
}

impl Diag {
    pub fn new() -> (r: Diag)
        ensures
            r.warnings@.len() == 0,
    {
        Diag { warnings: Vec::new() }
    }

    /// Note a problem with a node, unless it has been noted before.
    pub fn warn(&mut self, node: &str, what: &str, err: &str)
        ensures
            ({
                let w = warning(node@, what@, err@);
                texts(final(self).warnings@) == if texts(old(self).warnings@).contains(w) {
                    texts(old(self).warnings@)
                } else {
                    texts(old(self).warnings@).push(w)
                }
            }),
            noted_once(texts(old(self).warnings@)) ==> noted_once(texts(final(self).warnings@)),
    {
        let mut w: Vec<char> = Vec::new();
        append_str(&mut w, "node `");
        append_str(&mut w, node);
        append_str(&mut w, "`: ");
        append_str(&mut w, what);
        append_str(&mut w, ": ");
        append_str(&mut w, err);
        proof {
            assert(w@ =~= warning(node@, what@, err@));
        }
        self.note(string_of(w.as_slice()));
    }

    /// Keep a remark, unless it has been noted before.
    pub fn note(&mut self, text: String)
        ensures
            texts(final(self).warnings@) == (if texts(old(self).warnings@).contains(text@) {
                texts(old(self).warnings@)
            } else {
                texts(old(self).warnings@).push(text@)
            }),
            noted_once(texts(old(self).warnings@)) ==> noted_once(texts(final(self).warnings@)),
    {
        let mut i: usize = 0;
        while i < self.warnings.len()
            invariant
                i <= self.warnings@.len(),
                *self == *old(self),
                forall|k: int| 0 <= k < i ==> #[trigger] texts(self.warnings@)[k] != text@,
            decreases self.warnings@.len() - i,
        {
            if same_str(self.warnings[i].as_str(), text.as_str()) {
                proof {
                    assert(texts(self.warnings@)[i as int] == text@);
                }
                return;
            }
            i += 1;
        }
        let ghost before = self.warnings@;
        self.warnings.push(text);
        proof {
            assert(texts(self.warnings@) =~= texts(before).push(text@));
        }
    }
}

} // verus!
