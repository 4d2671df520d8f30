//! Placing one node: its bindings evaluated, its action and animations settled.
use crate::ask::{chain, done, warning, AskView, Out, OutView, Topic};
use crate::binding::{
    eval_f32, eval_str, eval_view, figure_view, find_local, is_yes, local_value, or_text, pairs,
    EvalContext, Scope,
};
use crate::color::{color_from, color_of, Color};
use crate::node::{
    action_view, clip_view, motions, opt_view, spring_view, ActionView, Clip, ClipView, Motion,
    MotionView, NodeAction, NodeView, ResolvedNode,
};
use crate::scan::{is_number, lemma_past, number_text, past, skip_past};
use crate::text::{
    append_str, chars_of, eq_str, find_char, has_prefix, index_or_len, lemma_index_or_len,
    lower_of, parse_unsigned, same_str, split_char, split_on, starts_with_str, signed_value,
    string_of, texts, to_lower, to_upper, trim, trimmed, unsigned_value, upper_of, views,
};
use crate::theme::{owned, AnimateDef, DelaySpec, FromSpec, NodeDef, SpringDef};
use vstd::prelude::*;
use vstd::slice::slice_subrange;

verus! {

// ---------------------------------------------------------------------------
// Lists of bindings
// ---------------------------------------------------------------------------

/// A binding and what it is evaluated to.
#[derive(Debug)]
pub enum Item {
    /// A text that stands for itself.
    Fixed(String),
    /// A number, with the text to take where the binding gives none.
    Figure(String, String),
    /// Any text.
    Text(String),
}

pub enum ItemView {
    Fixed(Seq<char>),
    Figure(Seq<char>, Seq<char>),
    Text(Seq<char>),
}

impl View for Item {
    type V = ItemView;

    open spec fn view(&self) -> ItemView {
        match *self {
            Item::Fixed(t) => ItemView::Fixed(t@),
            Item::Figure(e, d) => ItemView::Figure(e@, d@),
            Item::Text(e) => ItemView::Text(e@),
        }
    }
}

pub open spec fn item_views(l: Seq<Item>) -> Seq<ItemView> {
    Seq::new(l.len(), |i: int| l[i]@)
}

pub open spec fn item_value(it: ItemView, c: Scope) -> OutView<Seq<char>> {
    match it {
        ItemView::Fixed(t) => done(t),
        ItemView::Figure(e, d) => or_text(figure_view(e, c), d),
        ItemView::Text(e) => eval_view(e, c),
    }
}

/// The values of a list of bindings, in order.
pub open spec fn values(l: Seq<ItemView>, c: Scope) -> OutView<Seq<Seq<char>>>
    decreases l.len(),
{
    if l.len() == 0 {
        done(Seq::empty())
    } else {
        match values(l.drop_last(), c) {
            OutView::Need(q) => OutView::Need(q),
            OutView::Done(vs, n) => match item_value(l.last(), c) {
                OutView::Need(q) => OutView::Need(q),
                OutView::Done(v, m) => OutView::Done(vs.push(v), n + m),
            },
        }
    }
}

/// One value for each binding.
pub proof fn values_len(l: Seq<ItemView>, c: Scope)
    ensures
        values(l, c) matches OutView::Done(vs, _) ==> vs.len() == l.len(),
    decreases l.len(),
{
    if l.len() > 0 {
        values_len(l.drop_last(), c);
    }
}

proof fn lemma_values_stop(l: Seq<ItemView>, i: int, c: Scope)
    requires
        0 <= i <= l.len(),
        values(l.take(i), c) is Need,
    ensures
        values(l, c) == values(l.take(i), c),
    decreases l.len() - i,
{
    if i < l.len() {
        assert(l.take(i + 1).drop_last() =~= l.take(i));
        lemma_values_stop(l, i + 1, c);
    } else {
        assert(l.take(i) =~= l);
    }
}

pub open spec fn strings_out(o: Out<Vec<String>>) -> OutView<Seq<Seq<char>>> {
    match o {
        Out::Need(q) => OutView::Need(q@),
        Out::Done(v, n) => OutView::Done(texts(v@), texts(n@)),
    }
}

fn eval_item(it: &Item, c: &EvalContext) -> (r: Out<String>)
    ensures
        crate::ask::string_out(r) == item_value(it@, c@),
{
    match it {
        Item::Fixed(t) => {
            let n: Vec<String> = Vec::new();
            proof {
                assert(texts(n@) =~= Seq::empty());
            }
            Out::Done(t.clone(), n)
        },
        Item::Figure(e, d) => match eval_f32(e.as_str(), c) {
            Out::Need(q) => Out::Need(q),
            Out::Done(v, n) => match v {
                Some(t) => Out::Done(string_of(t.as_slice()), n),
                None => Out::Done(d.clone(), n),
            },
        },
        Item::Text(e) => eval_str(e.as_str(), c),
    }
}

/// Evaluate a list of bindings in order.
pub fn eval_items(l: &Vec<Item>, c: &EvalContext) -> (r: Out<Vec<String>>)
    ensures
        strings_out(r) == values(item_views(l@), c@),
        r matches Out::Done(v, _) ==> v@.len() == l@.len(),
{
    let ghost iv = item_views(l@);
    let mut out: Vec<String> = Vec::new();
    let mut notes: Vec<String> = Vec::new();
    let mut i: usize = 0;
    proof {
        assert(iv.take(0) =~= Seq::empty());
        assert(texts(out@) =~= Seq::empty());
        assert(texts(notes@) =~= Seq::empty());
    }
    while i < l.len()
        invariant
            i <= l@.len(),
            iv == item_views(l@),
            out@.len() == i,
            values(iv.take(i as int), c@) == OutView::Done(texts(out@), texts(notes@)),
        decreases l@.len() - i,
    {
        proof {
            assert(iv.take(i + 1).drop_last() =~= iv.take(i as int));
            assert(iv.take(i + 1).last() == l@[i as int]@);
        }
        match eval_item(&l[i], c) {
            Out::Need(q) => {
                proof {
                    lemma_values_stop(iv, i + 1, c@);
                }
                return Out::Need(q);
            },
            Out::Done(v, n) => {
                let ghost before = out@;
                out.push(v);
                notes = chain(notes, n);
                proof {
                    assert(texts(out@) =~= texts(before).push(v@));
                }
            },
        }
        i += 1;
    }
    proof {
        assert(iv.take(l@.len() as int) =~= iv);
    }
    Out::Done(out, notes)
}

// ---------------------------------------------------------------------------
// Which bindings a node has
// ---------------------------------------------------------------------------

pub open spec fn figure_item(o: Option<String>, default: Seq<char>) -> ItemView {
    match o {
        Some(e) => ItemView::Figure(e@, default),
        None => ItemView::Fixed(default),
    }
}

fn figure_or(o: &Option<String>, default: &str) -> (r: Item)
    ensures
        r@ == figure_item(*o, default@),
{
    match o {
        Some(e) => Item::Figure(e.clone(), owned(default)),
        None => Item::Fixed(owned(default)),
    }
}

/// Position, size and transform.
pub open spec fn base_items(d: NodeDef) -> Seq<ItemView> {
    seq![
        figure_item(d.x, "0"@),
        figure_item(d.y, "0"@),
        figure_item(d.width, "100"@),
        figure_item(d.height, "40"@),
        figure_item(d.opacity, "1"@),
        figure_item(d.rotation, "0"@),
        figure_item(d.skew, "0"@),
        figure_item(d.scale, "1"@),
    ]
}

fn base_list(d: &NodeDef) -> (r: Vec<Item>)
    ensures
        item_views(r@) == base_items(*d),
{
    let mut v: Vec<Item> = Vec::new();
    v.push(figure_or(&d.x, "0"));
    v.push(figure_or(&d.y, "0"));
    v.push(figure_or(&d.width, "100"));
    v.push(figure_or(&d.height, "40"));
    v.push(figure_or(&d.opacity, "1"));
    v.push(figure_or(&d.rotation, "0"));
    v.push(figure_or(&d.skew, "0"));
    v.push(figure_or(&d.scale, "1"));
    proof {
        assert(item_views(v@) =~= base_items(*d));
    }
    v
}

/// The position of the comma between the coordinates of a pair: the first one
/// outside quotes and parentheses.
pub open spec fn comma_from(s: Seq<char>, i: int, depth: int) -> Option<int>
    decreases s.len() - i,
{
    if i < 0 || i >= s.len() {
        None
    } else {
        proof {
            lemma_past(s, i);
        }
        if s[i] == ',' && depth == 0 {
            Some(i)
        } else {
            let d = if s[i] == '(' {
                depth + 1
            } else if s[i] == ')' {
                depth - 1
            } else {
                depth
            };
            comma_from(s, past(s, i), d)
        }
    }
}

fn find_comma(s: &[char]) -> (r: Option<usize>)
    ensures
        r matches Some(p) ==> comma_from(s@, 0, 0) == Some(p as int) && p < s@.len(),
        r is None ==> comma_from(s@, 0, 0) is None,
{
    let n: usize = s.len();
    let mut i: usize = 0;
    let mut depth: i128 = 0;
    while i < n
        invariant
            n == s@.len(),
            i <= n,
            -(i as int) <= depth <= i,
            comma_from(s@, 0, 0) == comma_from(s@, i as int, depth as int),
        decreases n - i,
    {
        let c = s[i];
        let next: usize = skip_past(s, i);
        if c == ',' && depth == 0 {
            return Some(i);
        }
        if c == '(' {
            depth += 1;
        } else if c == ')' {
            depth -= 1;
        }
        i = next;
    }
    None
}

/// The two coordinate bindings of one pair; none where it is blank or no pair.
pub open spec fn pair_items(piece: Seq<char>) -> Seq<ItemView> {
    let p = trimmed(piece);
    match comma_from(p, 0, 0) {
        None => Seq::empty(),
        Some(k) => seq![
            ItemView::Figure(trimmed(p.take(k)), "NaN"@),
            ItemView::Figure(trimmed(p.skip(k + 1)), "NaN"@),
        ],
    }
}

pub open spec fn pairs_items(pieces: Seq<Seq<char>>) -> Seq<ItemView>
    decreases pieces.len(),
{
    if pieces.len() == 0 {
        Seq::empty()
    } else {
        pairs_items(pieces.drop_last()) + pair_items(pieces.last())
    }
}

/// Polygon vertices, two bindings each.
pub open spec fn point_items(d: NodeDef) -> Seq<ItemView> {
    match d.points {
        Some(raw) => pairs_items(split_on(raw@, ';')),
        None => Seq::empty(),
    }
}

fn point_list(d: &NodeDef) -> (r: Vec<Item>)
    ensures
        item_views(r@) == point_items(*d),
{
    let mut v: Vec<Item> = Vec::new();
    match &d.points {
        None => {
            proof {
                assert(item_views(v@) =~= Seq::empty());
            }
            v
        },
        Some(raw) => {
            let rc = chars_of(raw.as_str());
            let pieces = split_char(rc.as_slice(), ';');
            let ghost pv = views(pieces@);
            let mut i: usize = 0;
            proof {
                assert(pv.take(0) =~= Seq::empty());
                assert(item_views(v@) =~= Seq::empty());
            }
            while i < pieces.len()
                invariant
                    i <= pieces@.len(),
                    pv == views(pieces@),
                    item_views(v@) == pairs_items(pv.take(i as int)),
                decreases pieces@.len() - i,
            {
                let ghost before = item_views(v@);
                let p = trim(pieces[i].as_slice());
                proof {
                    assert(pv.take(i + 1).drop_last() =~= pv.take(i as int));
                    assert(pv.take(i + 1).last() == pieces@[i as int]@);
                }
                match find_comma(p) {
                    None => {
                        proof {
                            assert(before + Seq::empty() =~= before);
                        }
                    },
                    Some(k) => {
                        let m: usize = p.len();
                        let a = slice_subrange(p, 0, k);
                        let b = slice_subrange(p, k + 1, m);
                        proof {
                            assert(a@ =~= p@.take(k as int));
                            assert(b@ =~= p@.skip(k + 1));
                        }
                        v.push(Item::Figure(string_of(trim(a)), owned("NaN")));
                        v.push(Item::Figure(string_of(trim(b)), owned("NaN")));
                        proof {
                            assert(item_views(v@) =~= before + pair_items(pieces@[i as int]@));
                        }
                    },
                }
                i += 1;
            }
            proof {
                assert(pv.take(pieces@.len() as int) =~= pv);
            }
            v
        },
    }
}

/// The further properties, one binding each.
pub open spec fn prop_items(props: Seq<(String, String)>) -> Seq<ItemView> {
    Seq::new(props.len(), |i: int| ItemView::Text(props[i].1@))
}

fn prop_list(props: &Vec<(String, String)>) -> (r: Vec<Item>)
    ensures
        item_views(r@) == prop_items(props@),
{
    let mut v: Vec<Item> = Vec::new();
    let mut i: usize = 0;
    while i < props.len()
        invariant
            i <= props@.len(),
            v@.len() == i,
            forall|k: int| 0 <= k < i ==> (#[trigger] v@[k])@ == prop_items(props@)[k],
        decreases props@.len() - i,
    {
        v.push(Item::Text(props[i].1.clone()));
        i += 1;
    }
    proof {
        assert(item_views(v@) =~= prop_items(props@));
    }
    v
}

pub open spec fn text_items(d: NodeDef) -> Seq<ItemView> {
    match d.text {
        Some(e) => seq![ItemView::Text(e@)],
        None => Seq::empty(),
    }
}

fn text_list(d: &NodeDef) -> (r: Vec<Item>)
    ensures
        item_views(r@) == text_items(*d),
{
    let mut v: Vec<Item> = Vec::new();
    match &d.text {
        Some(e) => {
            v.push(Item::Text(e.clone()));
        },
        None => {},
    }
    proof {
        assert(item_views(v@) =~= text_items(*d));
    }
    v
}

/// An action text split into its name and its argument.
pub open spec fn action_parts(raw: Seq<char>) -> (Seq<char>, Option<Seq<char>>) {
    let t = trimmed(raw);
    let k = index_or_len(t, '(');
    if k < t.len() && t.last() == ')' {
        (trimmed(t.take(k as int)), Some(trimmed(t.subrange(k as int + 1, t.len() - 1))))
    } else {
        (t, None)
    }
}

fn split_action(raw: &str) -> (r: (String, Option<String>))
    ensures
        r.0@ == action_parts(raw@).0,
        opt_view(r.1) == action_parts(raw@).1,
{
    let rc = chars_of(raw);
    let t = trim(rc.as_slice());
    let n: usize = t.len();
    let k: usize = find_char(t, '(');
    proof {
        lemma_index_or_len(t@, '(');
    }
    if k < n && t[n - 1] == ')' {
        let a = slice_subrange(t, 0, k);
        let b = slice_subrange(t, k + 1, n - 1);
        proof {
            assert(a@ =~= t@.take(k as int));
        }
        (string_of(trim(a)), Some(string_of(trim(b))))
    } else {
        (string_of(t), None)
    }
}

/// The readings of an action's argument: as a row, as a step, as a text.
pub open spec fn arg_items(arg: Option<Seq<char>>) -> Seq<ItemView> {
    match arg {
        Some(e) => seq![
            ItemView::Figure(e, "-1"@),
            ItemView::Figure(e, "0"@),
            ItemView::Text(e),
        ],
        None => Seq::empty(),
    }
}

pub open spec fn action_items(d: NodeDef) -> Seq<ItemView> {
    match d.on_click {
        Some(raw) => arg_items(action_parts(raw@).1),
        None => Seq::empty(),
    }
}

fn action_list(d: &NodeDef) -> (r: Vec<Item>)
    ensures
        item_views(r@) == action_items(*d),
{
    let mut v: Vec<Item> = Vec::new();
    match &d.on_click {
        Some(raw) => {
            let parts = split_action(raw.as_str());
            match &parts.1 {
                Some(e) => {
                    v.push(Item::Figure(e.clone(), owned("-1")));
                    v.push(Item::Figure(e.clone(), owned("0")));
                    v.push(Item::Text(e.clone()));
                },
                None => {},
            }
        },
        None => {},
    }
    proof {
        assert(item_views(v@) =~= action_items(*d));
    }
    v
}

pub open spec fn delay_item(a: AnimateDef) -> ItemView {
    match a.delay {
        Some(DelaySpec::Expr(e)) => ItemView::Figure(e@, "0"@),
        _ => ItemView::Fixed("0"@),
    }
}

pub open spec fn from_item(a: AnimateDef) -> ItemView {
    match a.from {
        Some(FromSpec::Expr(e)) => ItemView::Figure(e@, "0"@),
        Some(FromSpec::Fixed(v)) => ItemView::Fixed(v@),
        None => ItemView::Fixed("0"@),
    }
}

/// Delay and start value of each animation.
pub open spec fn anim_items(l: Seq<AnimateDef>) -> Seq<ItemView>
    decreases l.len(),
{
    if l.len() == 0 {
        Seq::empty()
    } else {
        anim_items(l.drop_last()) + seq![delay_item(l.last()), from_item(l.last())]
    }
}

/// Two bindings for each animation, in order.
pub proof fn anim_items_at(l: Seq<AnimateDef>)
    ensures
        anim_items(l).len() == 2 * l.len(),
        forall|i: int|
            0 <= i < l.len() ==> #[trigger] anim_items(l)[2 * i] == delay_item(l[i]) && anim_items(l)[2
                * i + 1] == from_item(l[i]),
    decreases l.len(),
{
    if l.len() > 0 {
        anim_items_at(l.drop_last());
    }
}

fn anim_list(l: &Vec<&AnimateDef>) -> (r: Vec<Item>)
    ensures
        item_views(r@) == anim_items(l@.map_values(|a: &AnimateDef| *a)),
{
    let ghost av = l@.map_values(|a: &AnimateDef| *a);
    let mut v: Vec<Item> = Vec::new();
    let mut i: usize = 0;
    proof {
        assert(av.take(0) =~= Seq::empty());
        assert(item_views(v@) =~= Seq::empty());
    }
    while i < l.len()
        invariant
            i <= l@.len(),
            av == l@.map_values(|a: &AnimateDef| *a),
            item_views(v@) == anim_items(av.take(i as int)),
        decreases l@.len() - i,
    {
        let a = l[i];
        let ghost before = item_views(v@);
        proof {
            assert(av.take(i + 1).drop_last() =~= av.take(i as int));
            assert(av.take(i + 1).last() == *a);
        }
        let delay = match &a.delay {
            Some(d) => match d {
                DelaySpec::Expr(e) => Item::Figure(e.clone(), owned("0")),
                DelaySpec::Fixed(_) => Item::Fixed(owned("0")),
            },
            None => Item::Fixed(owned("0")),
        };
        let from = match &a.from {
            Some(f) => match f {
                FromSpec::Expr(e) => Item::Figure(e.clone(), owned("0")),
                FromSpec::Fixed(x) => Item::Fixed(x.clone()),
            },
            None => Item::Fixed(owned("0")),
        };
        v.push(delay);
        v.push(from);
        proof {
            assert(item_views(v@) =~= before + seq![delay_item(*a), from_item(*a)]);
        }
        i += 1;
    }
    proof {
        assert(av.take(l@.len() as int) =~= av);
    }
    v
}

// ---------------------------------------------------------------------------
// Their values
// ---------------------------------------------------------------------------

/// The values of a node's bindings, by group.
pub struct Settled {
    pub base: Seq<Seq<char>>,
    pub points: Seq<Seq<char>>,
    pub props: Seq<Seq<char>>,
    pub text: Seq<Seq<char>>,
    pub action: Seq<Seq<char>>,
    pub anims: Seq<Seq<char>>,
}

/// The same as strings.
pub struct SettledVec {
    pub base: Vec<String>,
    pub points: Vec<String>,
    pub props: Vec<String>,
    pub text: Vec<String>,
    pub action: Vec<String>,
    pub anims: Vec<String>,
}

impl View for SettledVec {
    type V = Settled;

    open spec fn view(&self) -> Settled {
        Settled {
            base: texts(self.base@),
            points: texts(self.points@),
            props: texts(self.props@),
            text: texts(self.text@),
            action: texts(self.action@),
            anims: texts(self.anims@),
        }
    }
}

/// Two lists of values, one after the other.
pub open spec fn also(
    a: OutView<Seq<Seq<char>>>,
    b: OutView<Seq<Seq<char>>>,
) -> OutView<(Seq<Seq<char>>, Seq<Seq<char>>)> {
    match a {
        OutView::Need(q) => OutView::Need(q),
        OutView::Done(x, n) => match b {
            OutView::Need(q) => OutView::Need(q),
            OutView::Done(y, m) => OutView::Done((x, y), n + m),
        },
    }
}

pub open spec fn settled(d: NodeDef, anims: Seq<AnimateDef>, c: Scope) -> OutView<Settled> {
    match also(values(base_items(d), c), values(point_items(d), c)) {
        OutView::Need(q) => OutView::Need(q),
        OutView::Done((base, points), n) => match also(
            values(prop_items(d.props@), c),
            values(text_items(d), c),
        ) {
            OutView::Need(q) => OutView::Need(q),
            OutView::Done((props, text), m) => match also(
                values(action_items(d), c),
                values(anim_items(anims), c),
            ) {
                OutView::Need(q) => OutView::Need(q),
                OutView::Done((action, motion), k) => OutView::Done(
                    Settled { base, points, props, text, action, anims: motion },
                    n + m + k,
                ),
            },
        },
    }
}

fn both_lists(a: &Vec<Item>, b: &Vec<Item>, c: &EvalContext) -> (r: Out<(Vec<String>, Vec<String>)>)
    ensures
        r matches Out::Need(q) ==> also(values(item_views(a@), c@), values(item_views(b@), c@))
            == OutView::<(Seq<Seq<char>>, Seq<Seq<char>>)>::Need(q@),
        r matches Out::Done(v, n) ==> also(values(item_views(a@), c@), values(item_views(b@), c@))
            == OutView::Done((texts(v.0@), texts(v.1@)), texts(n@)) && v.0@.len() == a@.len()
            && v.1@.len() == b@.len(),
{
    match eval_items(a, c) {
        Out::Need(q) => Out::Need(q),
        Out::Done(x, n) => match eval_items(b, c) {
            Out::Need(q) => Out::Need(q),
            Out::Done(y, m) => Out::Done((x, y), chain(n, m)),
        },
    }
}

fn settle(d: &NodeDef, anims: &Vec<&AnimateDef>, c: &EvalContext) -> (r: Out<SettledVec>)
    ensures
        r matches Out::Need(q) ==> settled(*d, anims@.map_values(|a: &AnimateDef| *a), c@)
            == OutView::<Settled>::Need(q@),
        r matches Out::Done(v, n) ==> settled(*d, anims@.map_values(|a: &AnimateDef| *a), c@)
            == OutView::Done(v@, texts(n@)) && v.base@.len() == 8 && v.props@.len() == d.props@.len()
            && v.text@.len() == text_items(*d).len() && v.action@.len() == action_items(*d).len()
            && v.anims@.len() == 2 * anims@.len(),
{
    let base = base_list(d);
    let points = point_list(d);
    let props = prop_list(&d.props);
    let text = text_list(d);
    let action = action_list(d);
    let motion = anim_list(anims);
    proof {
        anim_items_at(anims@.map_values(|a: &AnimateDef| *a));
        assert(item_views(base@).len() == 8);
        assert(item_views(props@).len() == d.props@.len());
        assert(item_views(text@).len() == text_items(*d).len());
        assert(item_views(action@).len() == action_items(*d).len());
        assert(item_views(motion@).len() == 2 * anims@.len());
    }
    let first = match both_lists(&base, &points, c) {
        Out::Need(q) => {
            return Out::Need(q);
        },
        Out::Done(v, n) => (v, n),
    };
    let second = match both_lists(&props, &text, c) {
        Out::Need(q) => {
            return Out::Need(q);
        },
        Out::Done(v, n) => (v, n),
    };
    let third = match both_lists(&action, &motion, c) {
        Out::Need(q) => {
            return Out::Need(q);
        },
        Out::Done(v, n) => (v, n),
    };
    let notes = chain(chain(first.1, second.1), third.1);
    let r = SettledVec {
        base: first.0.0,
        points: first.0.1,
        props: second.0.0,
        text: second.0.1,
        action: third.0.0,
        anims: third.0.1,
    };
    Out::Done(r, notes)
}

// ---------------------------------------------------------------------------
// Questions about lengths
// ---------------------------------------------------------------------------

/// The answer to a question about two numbers; zero where there is none.
pub open spec fn figure2(topic: Topic, a: Seq<char>, b: Seq<char>, c: Scope) -> OutView<Seq<char>> {
    or_text(c.answers.asked(AskView { topic, a, b, c: Seq::empty() }), "0"@)
}

pub fn ask2(topic: Topic, a: &str, b: &str, c: &EvalContext) -> (r: Out<String>)
    ensures
        crate::ask::string_out(r) == figure2(topic, a@, b@, c@),
        r matches Out::Done(_, n) ==> texts(n@) == Seq::<Seq<char>>::empty(),
{
    let x = chars_of(a);
    let y = chars_of(b);
    let none: Vec<char> = Vec::new();
    proof {
        assert(none@ =~= Seq::empty());
    }
    match c.answers.ask(topic, x.as_slice(), y.as_slice(), none.as_slice()) {
        Out::Need(q) => Out::Need(q),
        Out::Done(v, n) => {
            proof {
                assert(texts(n@) =~= Seq::<Seq<char>>::empty());
            }
            match v {
                Some(t) => Out::Done(string_of(t.as_slice()), n),
                None => Out::Done(owned("0"), n),
            }
        },
    }
}

/// A whole number answered as text, zero where it is none.
pub open spec fn natural(a: Seq<char>, c: Scope) -> OutView<nat> {
    match figure2(Topic::Natural, a, Seq::empty(), c) {
        OutView::Need(q) => OutView::Need(q),
        OutView::Done(t, _) => done(
            match unsigned_value(t, usize::MAX as nat) {
                Some(v) => v,
                None => 0,
            },
        ),
    }
}

pub open spec fn nat_out(o: Out<usize>) -> OutView<nat> {
    match o {
        Out::Need(q) => OutView::Need(q@),
        Out::Done(v, n) => OutView::Done(v as nat, texts(n@)),
    }
}

pub fn ask_natural(a: &str, c: &EvalContext) -> (r: Out<usize>)
    ensures
        nat_out(r) == natural(a@, c@),
{
    proof {
        reveal_strlit("");
        assert(""@ =~= Seq::<char>::empty());
    }
    match ask2(Topic::Natural, a, "", c) {
        Out::Need(q) => Out::Need(q),
        Out::Done(t, n) => {
            let tc = chars_of(t.as_str());
            match parse_unsigned(tc.as_slice(), usize::MAX as u64) {
                Some(v) => Out::Done(v as usize, n),
                None => Out::Done(0, n),
            }
        },
    }
}

/// Whether a number is finite.
pub open spec fn finite(a: Seq<char>, c: Scope) -> OutView<bool> {
    is_yes(c.answers.asked(AskView { topic: Topic::Finite, a, b: Seq::empty(), c: Seq::empty() }))
}

pub fn ask_yes(topic: Topic, a: &str, b: &str, c: &EvalContext) -> (r: Out<bool>)
    ensures
        crate::ask::bool_out(r) == is_yes(
            c@.answers.asked(AskView { topic, a: a@, b: b@, c: Seq::empty() }),
        ),
        r matches Out::Done(_, n) ==> texts(n@) == Seq::<Seq<char>>::empty(),
{
    let x = chars_of(a);
    let y = chars_of(b);
    let none: Vec<char> = Vec::new();
    proof {
        assert(none@ =~= Seq::empty());
    }
    match c.answers.ask(topic, x.as_slice(), y.as_slice(), none.as_slice()) {
        Out::Need(q) => Out::Need(q),
        Out::Done(v, n) => {
            proof {
                assert(texts(n@) =~= Seq::<Seq<char>>::empty());
            }
            let y = match &v {
                Some(t) => eq_str(t.as_slice(), "true"),
                None => false,
            };
            Out::Done(y, n)
        },
    }
}

// ---------------------------------------------------------------------------
// Assembly
// ---------------------------------------------------------------------------

/// The vertices whose coordinates are both finite.
pub open spec fn kept_points(v: Seq<Seq<char>>, c: Scope) -> OutView<Seq<(Seq<char>, Seq<char>)>>
    decreases v.len(),
{
    if v.len() < 2 {
        done(Seq::empty())
    } else {
        let n = v.len() as int;
        match kept_points(v.take(n - 2), c) {
            OutView::Need(q) => OutView::Need(q),
            OutView::Done(l, _) => match finite(v[n - 2], c) {
                OutView::Need(q) => OutView::Need(q),
                OutView::Done(fx, _) => match finite(v[n - 1], c) {
                    OutView::Need(q) => OutView::Need(q),
                    OutView::Done(fy, _) => done(
                        if fx && fy {
                            l.push((v[n - 2], v[n - 1]))
                        } else {
                            l
                        },
                    ),
                },
            },
        }
    }
}

proof fn lemma_points_stop(v: Seq<Seq<char>>, i: int, c: Scope)
    requires
        0 <= i <= v.len(),
        (v.len() - i) % 2 == 0,
        kept_points(v.take(i), c) is Need,
    ensures
        kept_points(v, c) == kept_points(v.take(i), c),
    decreases v.len() - i,
{
    if i < v.len() {
        assert(v.take(i + 2).take(i) =~= v.take(i));
        assert(kept_points(v.take(i + 2), c) == kept_points(v.take(i), c));
        lemma_points_stop(v, i + 2, c);
    } else {
        assert(v.take(i) =~= v);
    }
}

fn keep_points(v: &Vec<String>, c: &EvalContext) -> (r: Out<Vec<(String, String)>>)
    requires
        v@.len() % 2 == 0,
    ensures
        r matches Out::Need(q) ==> kept_points(texts(v@), c@) == OutView::<
            Seq<(Seq<char>, Seq<char>)>,
        >::Need(q@),
        r matches Out::Done(l, _) ==> kept_points(texts(v@), c@) == done(pairs(l@)),
{
    let ghost tv = texts(v@);
    let n: usize = v.len();
    let mut out: Vec<(String, String)> = Vec::new();
    let mut i: usize = 0;
    proof {
        assert(pairs(out@) =~= Seq::empty());
        reveal_strlit("");
        assert(""@ =~= Seq::<char>::empty());
    }
    while i + 1 < n
        invariant
            n == v@.len(),
            n % 2 == 0,
            i % 2 == 0,
            i <= n,
            tv == texts(v@),
            ""@ == Seq::<char>::empty(),
            kept_points(tv.take(i as int), c@) == done(pairs(out@)),
        decreases n - i,
    {
        let ghost t2 = tv.take(i + 2);
        proof {
            assert(t2.take(i as int) =~= tv.take(i as int));
            assert(t2[i as int] == v@[i as int]@);
            assert(t2[i + 1] == v@[i + 1]@);
        }
        let fx = match ask_yes(Topic::Finite, v[i].as_str(), "", c) {
            Out::Need(q) => {
                proof {
                    lemma_points_stop(tv, i + 2, c@);
                }
                return Out::Need(q);
            },
            Out::Done(b, _) => b,
        };
        let fy = match ask_yes(Topic::Finite, v[i + 1].as_str(), "", c) {
            Out::Need(q) => {
                proof {
                    lemma_points_stop(tv, i + 2, c@);
                }
                return Out::Need(q);
            },
            Out::Done(b, _) => b,
        };
        if fx && fy {
            let ghost before = out@;
            out.push((v[i].clone(), v[i + 1].clone()));
            proof {
                assert(pairs(out@) =~= pairs(before).push((v@[i as int]@, v@[i + 1]@)));
            }
        }
        i += 2;
    }
    proof {
        assert(tv.take(n as int) =~= tv);
    }
    let notes: Vec<String> = Vec::new();
    Out::Done(out, notes)
}

/// The evaluated properties by name; `text_case` joins them unless it is there.
pub open spec fn named_props(d: NodeDef, v: Seq<Seq<char>>) -> Seq<(Seq<char>, Seq<char>)> {
    let l = Seq::new(d.props@.len(), |i: int| (d.props@[i].0@, v[i]));
    if d.text_case is Some && local_value(l, "text_case"@) is None {
        l.push(("text_case"@, d.text_case->0@))
    } else {
        l
    }
}

fn name_props(d: &NodeDef, v: &Vec<String>) -> (r: Vec<(String, String)>)
    requires
        v@.len() == d.props@.len(),
    ensures
        pairs(r@) == named_props(*d, texts(v@)),
{
    let ghost l = Seq::new(d.props@.len(), |i: int| (d.props@[i].0@, texts(v@)[i]));
    let mut out: Vec<(String, String)> = Vec::new();
    let mut i: usize = 0;
    while i < d.props.len()
        invariant
            i <= d.props@.len(),
            v@.len() == d.props@.len(),
            out@.len() == i,
            l == Seq::new(d.props@.len(), |k: int| (d.props@[k].0@, texts(v@)[k])),
            forall|k: int| 0 <= k < i ==> (#[trigger] out@[k]).0@ == l[k].0 && out@[k].1@ == l[k].1,
        decreases d.props@.len() - i,
    {
        out.push((d.props[i].0.clone(), v[i].clone()));
        i += 1;
    }
    proof {
        assert(pairs(out@) =~= l);
    }
    match &d.text_case {
        Some(tc) => {
            let key = chars_of("text_case");
            if find_local(&out, key.as_slice()).is_none() {
                let ghost before = out@;
                out.push((owned("text_case"), tc.clone()));
                proof {
                    assert(pairs(out@) =~= pairs(before).push(("text_case"@, tc@)));
                }
            }
        },
        None => {},
    }
    out
}

/// A text in the letter case that the properties ask for.
pub open spec fn cased(t: Seq<char>, props: Seq<(Seq<char>, Seq<char>)>) -> Seq<char> {
    let mode = local_value(props, "text_case"@);
    if mode == Some("upper"@) {
        upper_of(t)
    } else if mode == Some("lower"@) {
        lower_of(t)
    } else {
        t
    }
}

fn apply_text_case(t: &String, props: &Vec<(String, String)>) -> (r: String)
    ensures
        r@ == cased(t@, pairs(props@)),
{
    let key = chars_of("text_case");
    match find_local(props, key.as_slice()) {
        Some(mode) => if same_str(mode.as_str(), "upper") {
            to_upper(t.as_str())
        } else if same_str(mode.as_str(), "lower") {
            to_lower(t.as_str())
        } else {
            t.clone()
        },
        None => t.clone(),
    }
}

/// The color of a text that is not a gradient.
pub open spec fn solid(t: Seq<char>) -> Option<Color> {
    let s = trimmed(t);
    if has_prefix(s, "linear-gradient"@) || has_prefix(s, "radial-gradient"@) {
        None
    } else {
        color_of(s)
    }
}

/// Parse a solid color; gradients are none.
pub fn solid_color(s: &str) -> (r: Option<Color>)
    ensures
        r == solid(s@),
{
    let c = chars_of(s);
    let t = trim(c.as_slice());
    if starts_with_str(t, "linear-gradient") || starts_with_str(t, "radial-gradient") {
        None
    } else {
        color_from(t)
    }
}

pub open spec fn solid_prop(props: Seq<(Seq<char>, Seq<char>)>, name: Seq<char>) -> Option<Color> {
    match local_value(props, name) {
        Some(t) => solid(t),
        None => None,
    }
}

/// `background`, or `fill` where there is no `background`.
pub open spec fn background_of(props: Seq<(Seq<char>, Seq<char>)>) -> Option<Color> {
    if local_value(props, "background"@) is Some {
        solid_prop(props, "background"@)
    } else {
        solid_prop(props, "fill"@)
    }
}

fn find_solid(props: &Vec<(String, String)>, name: &str) -> (r: Option<Color>)
    ensures
        r == solid_prop(pairs(props@), name@),
{
    let key = chars_of(name);
    match find_local(props, key.as_slice()) {
        Some(t) => solid_color(t.as_str()),
        None => None,
    }
}

fn find_background(props: &Vec<(String, String)>) -> (r: Option<Color>)
    ensures
        r == background_of(pairs(props@)),
{
    let key = chars_of("background");
    if find_local(props, key.as_slice()).is_some() {
        find_solid(props, "background")
    } else {
        find_solid(props, "fill")
    }
}

/// The corner radius, zero unless it is a number.
pub open spec fn radius_of(props: Seq<(Seq<char>, Seq<char>)>) -> Seq<char> {
    match local_value(props, "radius"@) {
        Some(t) => if number_text(trimmed(t)) {
            trimmed(t)
        } else {
            "0"@
        },
        None => "0"@,
    }
}

fn find_radius(props: &Vec<(String, String)>) -> (r: String)
    ensures
        r@ == radius_of(pairs(props@)),
{
    let key = chars_of("radius");
    match find_local(props, key.as_slice()) {
        Some(t) => {
            let c = chars_of(t.as_str());
            let s = trim(c.as_slice());
            if is_number(s) {
                string_of(s)
            } else {
                owned("0")
            }
        },
        None => owned("0"),
    }
}

/// The row that an action names.
pub open spec fn action_index(v: Seq<Seq<char>>, c: Scope) -> OutView<Option<usize>> {
    if v.len() != 3 {
        done(None)
    } else {
        match c.answers.asked(
            AskView { topic: Topic::Index, a: v[0], b: Seq::empty(), c: Seq::empty() },
        ) {
            OutView::Need(q) => OutView::Need(q),
            OutView::Done(t, _) => done(
                match t {
                    Some(x) => match unsigned_value(x, usize::MAX as nat) {
                        Some(i) => Some(i as usize),
                        None => None,
                    },
                    None => None,
                },
            ),
        }
    }
}

/// The step that an action names.
pub open spec fn action_delta(v: Seq<Seq<char>>, c: Scope) -> OutView<i32> {
    if v.len() != 3 {
        done(0)
    } else {
        match figure2(Topic::Delta, v[1], Seq::empty(), c) {
            OutView::Need(q) => OutView::Need(q),
            OutView::Done(t, _) => done(
                match signed_value(t) {
                    Some(x) => x as i32,
                    None => 0,
                },
            ),
        }
    }
}

pub open spec fn action_text(v: Seq<Seq<char>>) -> Seq<char> {
    if v.len() != 3 {
        Seq::empty()
    } else {
        v[2]
    }
}

pub open spec fn launch_name(n: Seq<char>) -> bool {
    n == "activate"@ || n == "launch"@
}

pub open spec fn move_name(n: Seq<char>) -> bool {
    n == "move_selection"@ || n == "move"@
}

pub open spec fn query_name(n: Seq<char>) -> bool {
    n == "set_query"@ || n == "query"@
}

pub open spec fn close_name(n: Seq<char>) -> bool {
    n == "close"@ || n == "exit"@ || n == "quit"@
}

/// The action of a node; a remark where nothing goes by that name.
pub open spec fn action_of(
    d: NodeDef,
    label: Seq<char>,
    v: Seq<Seq<char>>,
    c: Scope,
) -> OutView<Option<ActionView>> {
    match d.on_click {
        None => done(None),
        Some(raw) => {
            let name = action_parts(raw@).0;
            if launch_name(name) {
                match action_index(v, c) {
                    OutView::Need(q) => OutView::Need(q),
                    OutView::Done(i, _) => done(Some(ActionView::Activate(i))),
                }
            } else if name == "select"@ {
                match action_index(v, c) {
                    OutView::Need(q) => OutView::Need(q),
                    OutView::Done(i, _) => done(Some(ActionView::Select(i))),
                }
            } else if move_name(name) {
                match action_delta(v, c) {
                    OutView::Need(q) => OutView::Need(q),
                    OutView::Done(i, _) => done(Some(ActionView::Move(i))),
                }
            } else if query_name(name) {
                done(Some(ActionView::SetQuery(action_text(v))))
            } else if close_name(name) {
                done(Some(ActionView::Close))
            } else {
                OutView::Done(
                    None,
                    seq![warning(label, "on_click"@, "unknown action `"@ + name + "`"@)],
                )
            }
        },
    }
}

pub open spec fn usize_out(o: Out<Option<usize>>) -> OutView<Option<usize>> {
    match o {
        Out::Need(q) => OutView::Need(q@),
        Out::Done(v, n) => OutView::Done(v, texts(n@)),
    }
}

fn ask_index(v: &Vec<String>, c: &EvalContext) -> (r: Out<Option<usize>>)
    ensures
        usize_out(r) == action_index(texts(v@), c@),
{
    let notes: Vec<String> = Vec::new();
    proof {
        assert(texts(notes@) =~= Seq::<Seq<char>>::empty());
    }
    if v.len() != 3 {
        return Out::Done(None, notes);
    }
    let a = chars_of(v[0].as_str());
    let none: Vec<char> = Vec::new();
    proof {
        assert(none@ =~= Seq::empty());
    }
    match c.answers.ask(Topic::Index, a.as_slice(), none.as_slice(), none.as_slice()) {
        Out::Need(q) => Out::Need(q),
        Out::Done(t, _) => match t {
            Some(x) => match parse_unsigned(x.as_slice(), usize::MAX as u64) {
                Some(i) => Out::Done(Some(i as usize), notes),
                None => Out::Done(None, notes),
            },
            None => Out::Done(None, notes),
        },
    }
}

pub open spec fn int_out(o: Out<i32>) -> OutView<i32> {
    match o {
        Out::Need(q) => OutView::Need(q@),
        Out::Done(v, n) => OutView::Done(v, texts(n@)),
    }
}

fn ask_delta(v: &Vec<String>, c: &EvalContext) -> (r: Out<i32>)
    ensures
        int_out(r) == action_delta(texts(v@), c@),
{
    let notes: Vec<String> = Vec::new();
    proof {
        assert(texts(notes@) =~= Seq::<Seq<char>>::empty());
        reveal_strlit("");
        assert(""@ =~= Seq::<char>::empty());
    }
    if v.len() != 3 {
        return Out::Done(0, notes);
    }
    match ask2(Topic::Delta, v[1].as_str(), "", c) {
        Out::Need(q) => Out::Need(q),
        Out::Done(t, _) => {
            let tc = chars_of(t.as_str());
            match crate::text::parse_signed(tc.as_slice()) {
                Some(x) => Out::Done(x, notes),
                None => Out::Done(0, notes),
            }
        },
    }
}

pub open spec fn action_out(o: Out<Option<NodeAction>>) -> OutView<Option<ActionView>> {
    match o {
        Out::Need(q) => OutView::Need(q@),
        Out::Done(v, n) => OutView::Done(action_view(v), texts(n@)),
    }
}

fn parse_action(d: &NodeDef, label: &str, v: &Vec<String>, c: &EvalContext) -> (r: Out<
    Option<NodeAction>,
>)
    ensures
        action_out(r) == action_of(*d, label@, texts(v@), c@),
{
    let mut notes: Vec<String> = Vec::new();
    proof {
        assert(texts(notes@) =~= Seq::<Seq<char>>::empty());
    }
    match &d.on_click {
        None => Out::Done(None, notes),
        Some(raw) => {
            let parts = split_action(raw.as_str());
            let name = parts.0.as_str();
            if same_str(name, "activate") || same_str(name, "launch") {
                match ask_index(v, c) {
                    Out::Need(q) => Out::Need(q),
                    Out::Done(i, _) => Out::Done(Some(NodeAction::Activate(i)), notes),
                }
            } else if same_str(name, "select") {
                match ask_index(v, c) {
                    Out::Need(q) => Out::Need(q),
                    Out::Done(i, _) => Out::Done(Some(NodeAction::Select(i)), notes),
                }
            } else if same_str(name, "move_selection") || same_str(name, "move") {
                match ask_delta(v, c) {
                    Out::Need(q) => Out::Need(q),
                    Out::Done(i, _) => Out::Done(Some(NodeAction::Move(i)), notes),
                }
            } else if same_str(name, "set_query") || same_str(name, "query") {
                let text = if v.len() != 3 {
                    String::new()
                } else {
                    v[2].clone()
                };
                Out::Done(Some(NodeAction::SetQuery(text)), notes)
            } else if same_str(name, "close") || same_str(name, "exit") || same_str(name, "quit") {
                Out::Done(Some(NodeAction::Close), notes)
            } else {
                let mut err = chars_of("unknown action `");
                append_str(&mut err, name);
                append_str(&mut err, "`");
                let e = string_of(err.as_slice());
                let w = warning_text(label, "on_click", e.as_str());
                notes.push(w);
                proof {
                    assert(texts(notes@) =~= seq![
                        warning(label@, "on_click"@, "unknown action `"@ + name@ + "`"@),
                    ]);
                }
                Out::Done(None, notes)
            }
        },
    }
}

pub fn warning_text(node: &str, what: &str, err: &str) -> (r: String)
    ensures
        r@ == warning(node@, what@, err@),
{
    let mut w = chars_of("node `");
    append_str(&mut w, node);
    append_str(&mut w, "`: ");
    append_str(&mut w, what);
    append_str(&mut w, ": ");
    append_str(&mut w, err);
    string_of(w.as_slice())
}

/// Remarks on a node's bindings.
pub open spec fn labelled(label: Seq<char>, n: Seq<Seq<char>>) -> Seq<Seq<char>> {
    n.map_values(|e: Seq<char>| warning(label, "binding"@, e))
}

pub fn label_notes(label: &str, n: &Vec<String>) -> (r: Vec<String>)
    ensures
        texts(r@) == labelled(label@, texts(n@)),
{
    let mut out: Vec<String> = Vec::new();
    let mut i: usize = 0;
    while i < n.len()
        invariant
            i <= n@.len(),
            out@.len() == i,
            forall|k: int|
                0 <= k < i ==> (#[trigger] out@[k])@ == warning(label@, "binding"@, n@[k]@),
        decreases n@.len() - i,
    {
        out.push(warning_text(label, "binding", n[i].as_str()));
        i += 1;
    }
    proof {
        assert(texts(out@) =~= labelled(label@, texts(n@)));
    }
    out
}

/// A delay with more added, up to the largest delay there is.
pub open spec fn add_delay(ms: u32, more: nat) -> u32 {
    if ms + more > u32::MAX {
        u32::MAX
    } else {
        (ms + more) as u32
    }
}

/// The whole delay of an animation.
pub open spec fn delay_of(a: AnimateDef, v: Seq<char>, c: Scope) -> OutView<u32> {
    match a.delay {
        None => done(a.delay_ms),
        Some(DelaySpec::Fixed(x)) => done(add_delay(a.delay_ms, x as nat)),
        Some(DelaySpec::Expr(_)) => match natural(v, c) {
            OutView::Need(q) => OutView::Need(q),
            OutView::Done(n, _) => done(add_delay(a.delay_ms, n)),
        },
    }
}

/// The animations with their delays and start values settled.
pub open spec fn baked(l: Seq<AnimateDef>, v: Seq<Seq<char>>, c: Scope) -> OutView<Seq<MotionView>>
    decreases l.len(),
{
    if l.len() == 0 {
        done(Seq::empty())
    } else {
        let a = l.last();
        let k = l.len() - 1;
        match baked(l.drop_last(), v, c) {
            OutView::Need(q) => OutView::Need(q),
            OutView::Done(ms, _) => match delay_of(a, v[2 * k], c) {
                OutView::Need(q) => OutView::Need(q),
                OutView::Done(delay, _) => done(
                    ms.push(
                        MotionView {
                            property: a.property@,
                            duration_ms: a.duration_ms,
                            delay_ms: delay,
                            from: if a.from is Some {
                                Some(v[2 * k + 1])
                            } else {
                                None
                            },
                            easing: a.easing@,
                            spring: spring_view(a.spring),
                            trigger: opt_view(a.trigger),
                        },
                    ),
                ),
            },
        }
    }
}

proof fn lemma_baked_stop(l: Seq<AnimateDef>, i: int, v: Seq<Seq<char>>, c: Scope)
    requires
        0 <= i <= l.len(),
        baked(l.take(i), v, c) is Need,
    ensures
        baked(l, v, c) == baked(l.take(i), v, c),
    decreases l.len() - i,
{
    if i < l.len() {
        assert(l.take(i + 1).drop_last() =~= l.take(i));
        lemma_baked_stop(l, i + 1, v, c);
    } else {
        assert(l.take(i) =~= l);
    }
}

fn copy_spring(s: &Option<SpringDef>) -> (r: Option<SpringDef>)
    ensures
        spring_view(r) == spring_view(*s),
{
    match s {
        Some(x) => Some(
            SpringDef {
                damping: x.damping.clone(),
                stiffness: x.stiffness.clone(),
                mass: x.mass.clone(),
            },
        ),
        None => None,
    }
}

fn plus_delay(ms: u32, more: usize) -> (r: u32)
    ensures
        r == add_delay(ms, more as nat),
{
    let t: u128 = ms as u128 + more as u128;
    if t > u32::MAX as u128 {
        u32::MAX
    } else {
        t as u32
    }
}

fn bake_anims(l: &Vec<&AnimateDef>, v: &Vec<String>, c: &EvalContext) -> (r: Out<Vec<Motion>>)
    requires
        v@.len() == 2 * l@.len(),
    ensures
        r matches Out::Need(q) ==> baked(
            l@.map_values(|a: &AnimateDef| *a),
            texts(v@),
            c@,
        ) == OutView::<Seq<MotionView>>::Need(q@),
        r matches Out::Done(m, _) ==> baked(l@.map_values(|a: &AnimateDef| *a), texts(v@), c@)
            == done(motions(m@)),
{
    let ghost av = l@.map_values(|a: &AnimateDef| *a);
    let ghost tv = texts(v@);
    let mut out: Vec<Motion> = Vec::new();
    let mut i: usize = 0;
    proof {
        assert(av.take(0) =~= Seq::empty());
        assert(motions(out@) =~= Seq::empty());
    }
    while i < l.len()
        invariant
            i <= l@.len(),
            v@.len() == 2 * l@.len(),
            av == l@.map_values(|a: &AnimateDef| *a),
            tv == texts(v@),
            baked(av.take(i as int), tv, c@) == done(motions(out@)),
        decreases l@.len() - i,
    {
        let a = l[i];
        proof {
            assert(av.take(i + 1).drop_last() =~= av.take(i as int));
            assert(av.take(i + 1).last() == *a);
            assert(2 * i + 1 < v@.len());
            assert(tv[2 * i] == v@[2 * i]@);
            assert(tv[2 * i + 1] == v@[2 * i + 1]@);
        }
        let n: usize = v.len();
        let at: usize = 2 * i;
        let delay: u32 = match &a.delay {
            None => a.delay_ms,
            Some(d) => match d {
                DelaySpec::Fixed(x) => plus_delay(a.delay_ms, *x as usize),
                DelaySpec::Expr(_) => match ask_natural(v[at].as_str(), c) {
                    Out::Need(q) => {
                        proof {
                            lemma_baked_stop(av, i + 1, tv, c@);
                        }
                        return Out::Need(q);
                    },
                    Out::Done(x, _) => plus_delay(a.delay_ms, x),
                },
            },
        };
        let from = if a.from.is_some() {
            Some(v[at + 1].clone())
        } else {
            None
        };
        let m = Motion {
            property: a.property.clone(),
            duration_ms: a.duration_ms,
            delay_ms: delay,
            from,
            easing: a.easing.clone(),
            spring: copy_spring(&a.spring),
            trigger: crate::entry::copy_text(&a.trigger),
        };
        let ghost before = out@;
        out.push(m);
        proof {
            assert(motions(out@) =~= motions(before).push(m@));
        }
        i += 1;
    }
    proof {
        assert(av.take(l@.len() as int) =~= av);
    }
    let notes: Vec<String> = Vec::new();
    Out::Done(out, notes)
}

/// Coordinates come in pairs.
pub proof fn point_items_even(pieces: Seq<Seq<char>>)
    ensures
        pairs_items(pieces).len() % 2 == 0,
    decreases pieces.len(),
{
    if pieces.len() > 0 {
        point_items_even(pieces.drop_last());
    }
}

/// Where a node goes and what it is called.
pub struct SiteView {
    pub label: Seq<char>,
    pub id: Seq<char>,
    pub x: Seq<char>,
    pub y: Seq<char>,
    /// Opacity of what the node belongs to.
    pub opacity: Seq<char>,
    pub index: Option<usize>,
    pub clip: Option<ClipView>,
}

/// The same as strings.
pub struct Site<'a> {
    pub label: &'a str,
    pub id: &'a str,
    pub x: &'a str,
    pub y: &'a str,
    pub opacity: &'a str,
    pub index: Option<usize>,
    pub clip: Option<&'a Clip>,
}

impl<'a> View for Site<'a> {
    type V = SiteView;

    open spec fn view(&self) -> SiteView {
        SiteView {
            label: self.label@,
            id: self.id@,
            x: self.x@,
            y: self.y@,
            opacity: self.opacity@,
            index: self.index,
            clip: match self.clip {
                Some(c) => clip_view(Some(*c)),
                None => None,
            },
        }
    }
}

/// An opacity brought into zero to one, times the opacity above it.
pub open spec fn dimmed(above: Seq<char>, own: Seq<char>, c: Scope) -> OutView<Seq<char>> {
    match figure2(Topic::Unit, own, Seq::empty(), c) {
        OutView::Need(q) => OutView::Need(q),
        OutView::Done(u, _) => figure2(Topic::Times, above, u, c),
    }
}

/// Find the opacity of a node below another one.
pub fn dim(above: &str, own: &str, c: &EvalContext) -> (r: Out<String>)
    ensures
        crate::ask::string_out(r) == dimmed(above@, own@, c@),
        r matches Out::Done(_, n) ==> texts(n@) == Seq::<Seq<char>>::empty(),
{
    proof {
        reveal_strlit("");
        assert(""@ =~= Seq::<char>::empty());
    }
    match ask2(Topic::Unit, own, "", c) {
        Out::Need(q) => Out::Need(q),
        Out::Done(u, _) => ask2(Topic::Times, above, u.as_str(), c),
    }
}

/// The node that the values of its bindings make.
pub open spec fn assembled(
    d: NodeDef,
    anims: Seq<AnimateDef>,
    v: Settled,
    site: SiteView,
    c: Scope,
) -> OutView<NodeView> {
    match figure2(Topic::Sum, site.x, v.base[0], c) {
        OutView::Need(q) => OutView::Need(q),
        OutView::Done(x, _) => match figure2(Topic::Sum, site.y, v.base[1], c) {
            OutView::Need(q) => OutView::Need(q),
            OutView::Done(y, _) => match dimmed(site.opacity, v.base[4], c) {
                OutView::Need(q) => OutView::Need(q),
                OutView::Done(opacity, _) => match kept_points(v.points, c) {
                    OutView::Need(q) => OutView::Need(q),
                    OutView::Done(points, _) => match baked(anims, v.anims, c) {
                        OutView::Need(q) => OutView::Need(q),
                        OutView::Done(animate, _) => match action_of(d, site.label, v.action, c) {
                            OutView::Need(q) => OutView::Need(q),
                            OutView::Done(action, n) => {
                                let props = named_props(d, v.props);
                                OutView::Done(
                                    NodeView {
                                        id: site.id,
                                        kind: d.kind@,
                                        x,
                                        y,
                                        width: v.base[2],
                                        height: v.base[3],
                                        opacity,
                                        z: match d.z {
                                            Some(z) => z,
                                            None => 0,
                                        },
                                        props,
                                        text: if v.text.len() == 1 {
                                            Some(cased(v.text[0], props))
                                        } else {
                                            None
                                        },
                                        color: solid_prop(props, "color"@),
                                        background: background_of(props),
                                        radius: radius_of(props),
                                        rotation: v.base[5],
                                        skew: v.base[6],
                                        scale: v.base[7],
                                        points,
                                        animate,
                                        clip: site.clip,
                                        action,
                                        index: site.index,
                                    },
                                    n,
                                )
                            },
                        },
                    },
                },
            },
        },
    }
}

/// A node at its place.
pub open spec fn placed(d: NodeDef, anims: Seq<AnimateDef>, site: SiteView, c: Scope) -> OutView<
    NodeView,
> {
    match settled(d, anims, c) {
        OutView::Need(q) => OutView::Need(q),
        OutView::Done(v, n) => crate::binding::noted(
            labelled(site.label, n),
            assembled(d, anims, v, site, c),
        ),
    }
}

pub open spec fn node_out(o: Out<ResolvedNode>) -> OutView<NodeView> {
    match o {
        Out::Need(q) => OutView::Need(q@),
        Out::Done(v, n) => OutView::Done(v@, texts(n@)),
    }
}

fn copy_clip(c: &Option<&Clip>) -> (r: Option<Clip>)
    ensures
        clip_view(r) == (match *c {
            Some(x) => clip_view(Some(*x)),
            None => None,
        }),
{
    match c {
        Some(x) => Some(
            Clip {
                x: x.x.clone(),
                y: x.y.clone(),
                width: x.width.clone(),
                height: x.height.clone(),
            },
        ),
        None => None,
    }
}

fn assemble(
    d: &NodeDef,
    anims: &Vec<&AnimateDef>,
    v: &SettledVec,
    site: &Site,
    c: &EvalContext,
) -> (r: Out<ResolvedNode>)
    requires
        v.base@.len() == 8,
        v.props@.len() == d.props@.len(),
        v.anims@.len() == 2 * anims@.len(),
        v.points@.len() % 2 == 0,
        v.text@.len() <= 1,
    ensures
        node_out(r) == assembled(*d, anims@.map_values(|a: &AnimateDef| *a), v@, site@, c@),
{
    let x = match ask2(Topic::Sum, site.x, v.base[0].as_str(), c) {
        Out::Need(q) => {
            return Out::Need(q);
        },
        Out::Done(t, _) => t,
    };
    let y = match ask2(Topic::Sum, site.y, v.base[1].as_str(), c) {
        Out::Need(q) => {
            return Out::Need(q);
        },
        Out::Done(t, _) => t,
    };
    let opacity = match dim(site.opacity, v.base[4].as_str(), c) {
        Out::Need(q) => {
            return Out::Need(q);
        },
        Out::Done(t, _) => t,
    };
    let points = match keep_points(&v.points, c) {
        Out::Need(q) => {
            return Out::Need(q);
        },
        Out::Done(l, _) => l,
    };
    let animate = match bake_anims(anims, &v.anims, c) {
        Out::Need(q) => {
            return Out::Need(q);
        },
        Out::Done(l, _) => l,
    };
    let (action, notes) = match parse_action(d, site.label, &v.action, c) {
        Out::Need(q) => {
            return Out::Need(q);
        },
        Out::Done(a, n) => (a, n),
    };
    let props = name_props(d, &v.props);
    let text = if v.text.len() == 1 {
        Some(apply_text_case(&v.text[0], &props))
    } else {
        None
    };
    let color = find_solid(&props, "color");
    let background = find_background(&props);
    let radius = find_radius(&props);
    let z: i32 = match d.z {
        Some(z) => z,
        None => 0,
    };
    Out::Done(
        ResolvedNode {
            id: owned(site.id),
            kind: d.kind.clone(),
            x,
            y,
            width: v.base[2].clone(),
            height: v.base[3].clone(),
            opacity,
            z,
            props,
            text,
            color,
            background,
            radius,
            rotation: v.base[5].clone(),
            skew: v.base[6].clone(),
            scale: v.base[7].clone(),
            points,
            animate,
            clip: copy_clip(&site.clip),
            action,
            index: site.index,
        },
        notes,
    )
}

/// Evaluate a node's bindings and put it at its place.
pub fn place(d: &NodeDef, anims: &Vec<&AnimateDef>, site: &Site, c: &EvalContext) -> (r: Out<
    ResolvedNode,
>)
    ensures
        node_out(r) == placed(*d, anims@.map_values(|a: &AnimateDef| *a), site@, c@),
{
    match settle(d, anims, c) {
        Out::Need(q) => Out::Need(q),
        Out::Done(v, n) => {
            proof {
                if d.points is Some {
                    point_items_even(split_on(d.points->0@, ';'));
                }
                values_len(point_items(*d), c@);
                assert(v@.points.len() == v.points@.len());
            }
            let label = label_notes(site.label, &n);
            match assemble(d, anims, &v, site, c) {
                Out::Need(q) => Out::Need(q),
                Out::Done(node, m) => Out::Done(node, chain(label, m)),
            }
        },
    }
}

} // verus!
