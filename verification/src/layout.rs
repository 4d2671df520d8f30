//! Layout resolution: a theme and a launcher state become a flat list of nodes.
use crate::ask::{chain, done, warning, AskView, Out, OutView, Relation, Topic};
use crate::binding::{
    eval_bool, find_named, is_yes, local_value, mode_name, mode_text, no_notes, noted, or_text,
    pairs, text_or_empty, truth_view, EvalContext, Scope,
};
use crate::entry::AppEntry;
use crate::node::{node_views, Clip, ClipView, NodeView, ResolvedNode};
use crate::place::{
    ask2, ask_natural, ask_yes, dim, dimmed, eval_items, figure2, figure_item, item_views,
    label_notes, labelled, nat_out, natural, place, placed, values, warning_text, Item, ItemView, Site,
    SiteView,
};
use crate::text::{
    append_str, chars_of, decimal, decimal_chars, or_default, same_str, string_of, texts,
};
use crate::theme::{
    component_of, find_component, owned, AnimateDef, ComponentDef, DelaySpec, FromSpec, NodeDef, Theme,
};
use vstd::prelude::*;

verus! {

broadcast use vstd::std_specs::vec::group_vec_axioms;

// ---------------------------------------------------------------------------
// Delegates
// ---------------------------------------------------------------------------

/// What the nodes of one repeater instance share.
pub struct RowView {
    pub suffix: Seq<char>,
    pub index: usize,
    pub clip: Option<ClipView>,
    /// Animations of the component.
    pub animate: Seq<AnimateDef>,
}

/// The same as references.
pub struct Row<'a> {
    pub suffix: &'a str,
    pub index: usize,
    pub clip: Option<&'a Clip>,
    pub animate: &'a Vec<AnimateDef>,
}

impl<'a> View for Row<'a> {
    type V = RowView;

    open spec fn view(&self) -> RowView {
        RowView {
            suffix: self.suffix@,
            index: self.index,
            clip: match self.clip {
                Some(c) => crate::node::clip_view(Some(*c)),
                None => None,
            },
            animate: self.animate@,
        }
    }
}

/// Whether a node is to be seen; the remarks name the node.
pub open spec fn shown_view(d: NodeDef, label: Seq<char>, c: Scope) -> OutView<bool> {
    match d.visible {
        None => done(true),
        Some(e) => match truth_view(e@, c, true) {
            OutView::Need(q) => OutView::Need(q),
            OutView::Done(v, n) => OutView::Done(v, labelled(label, n)),
        },
    }
}

fn shown(d: &NodeDef, label: &str, c: &EvalContext) -> (r: Out<bool>)
    ensures
        crate::ask::bool_out(r) == shown_view(*d, label@, c@),
{
    match &d.visible {
        None => {
            let n: Vec<String> = Vec::new();
            proof {
                assert(texts(n@) =~= Seq::<Seq<char>>::empty());
            }
            Out::Done(true, n)
        },
        Some(e) => match eval_bool(e.as_str(), c, true) {
            Out::Need(q) => Out::Need(q),
            Out::Done(v, n) => Out::Done(v, label_notes(label, &n)),
        },
    }
}

/// A delegate node and its children, all relative to `x`, `y` and below the
/// opacity `above`.
pub open spec fn delegate_view(
    d: NodeDef,
    x: Seq<char>,
    y: Seq<char>,
    above: Seq<char>,
    row: RowView,
    c: Scope,
) -> OutView<Seq<NodeView>>
    decreases d, 0nat,
{
    let label = d.id@ + row.suffix;
    match shown_view(d, label, c) {
        OutView::Need(q) => OutView::Need(q),
        OutView::Done(false, n) => OutView::Done(Seq::empty(), n),
        OutView::Done(true, n) => match placed(
            d,
            d.animate@ + row.animate,
            SiteView {
                label,
                id: label,
                x,
                y,
                opacity: above,
                index: Some(row.index),
                clip: row.clip,
            },
            c,
        ) {
            OutView::Need(q) => OutView::Need(q),
            OutView::Done(node, m) => match delegates_view(
                d.children,
                d.children@.len(),
                node.x,
                node.y,
                node.opacity,
                row,
                c,
            ) {
                OutView::Need(q) => OutView::Need(q),
                OutView::Done(rest, k) => OutView::Done(seq![node] + rest, n + m + k),
            },
        },
    }
}

/// The first `k` nodes of a list of delegates.
pub open spec fn delegates_view(
    l: Vec<NodeDef>,
    k: nat,
    x: Seq<char>,
    y: Seq<char>,
    above: Seq<char>,
    row: RowView,
    c: Scope,
) -> OutView<Seq<NodeView>>
    decreases l, k,
{
    if k == 0 || k > l@.len() {
        done(Seq::empty())
    } else {
        match delegates_view(l, (k - 1) as nat, x, y, above, row, c) {
            OutView::Need(q) => OutView::Need(q),
            OutView::Done(head, n) => match delegate_view(l[k - 1], x, y, above, row, c) {
                OutView::Need(q) => OutView::Need(q),
                OutView::Done(tail, m) => OutView::Done(head + tail, n + m),
            },
        }
    }
}

pub open spec fn nodes_out(o: Out<Vec<ResolvedNode>>) -> OutView<Seq<NodeView>> {
    match o {
        Out::Need(q) => OutView::Need(q@),
        Out::Done(v, n) => OutView::Done(node_views(v@), texts(n@)),
    }
}

fn join_nodes(a: Vec<ResolvedNode>, b: Vec<ResolvedNode>) -> (r: Vec<ResolvedNode>)
    ensures
        node_views(r@) == node_views(a@) + node_views(b@),
{
    let mut out = a;
    let mut tail = b;
    let ghost x = out@;
    let ghost y = tail@;
    out.append(&mut tail);
    proof {
        assert(node_views(out@) =~= node_views(x) + node_views(y));
    }
    out
}

fn no_nodes() -> (r: Vec<ResolvedNode>)
    ensures
        node_views(r@) == Seq::<NodeView>::empty(),
{
    let n: Vec<ResolvedNode> = Vec::new();
    proof {
        assert(node_views(n@) =~= Seq::<NodeView>::empty());
    }
    n
}

fn joined_text(a: &str, b: &str) -> (r: String)
    ensures
        r@ == a@ + b@,
{
    let mut t = chars_of(a);
    append_str(&mut t, b);
    string_of(t.as_slice())
}

fn all_anims<'a>(own: &'a Vec<AnimateDef>, more: &'a Vec<AnimateDef>) -> (r: Vec<&'a AnimateDef>)
    ensures
        r@.map_values(|a: &AnimateDef| *a) == own@ + more@,
{
    let mut out: Vec<&AnimateDef> = Vec::new();
    let mut i: usize = 0;
    while i < own.len()
        invariant
            i <= own@.len(),
            out@.len() == i,
            forall|k: int| 0 <= k < i ==> *(#[trigger] out@[k]) == own@[k],
        decreases own@.len() - i,
    {
        out.push(&own[i]);
        i += 1;
    }
    let mut j: usize = 0;
    while j < more.len()
        invariant
            j <= more@.len(),
            out@.len() == own@.len() + j,
            forall|k: int| 0 <= k < own@.len() ==> *(#[trigger] out@[k]) == own@[k],
            forall|k: int|
                own@.len() <= k < own@.len() + j ==> *(#[trigger] out@[k]) == more@[k - own@.len()],
        decreases more@.len() - j,
    {
        out.push(&more[j]);
        j += 1;
    }
    proof {
        assert(out@.map_values(|a: &AnimateDef| *a) =~= own@ + more@);
    }
    out
}

fn resolve_delegate(d: &NodeDef, x: &str, y: &str, above: &str, row: &Row, c: &EvalContext) -> (r:
    Out<Vec<ResolvedNode>>)
    ensures
        nodes_out(r) == delegate_view(*d, x@, y@, above@, row@, c@),
    decreases *d, 0nat,
{
    let label = joined_text(d.id.as_str(), row.suffix);
    let (seen, n) = match shown(d, label.as_str(), c) {
        Out::Need(q) => {
            return Out::Need(q);
        },
        Out::Done(v, n) => (v, n),
    };
    if !seen {
        return Out::Done(no_nodes(), n);
    }
    let anims = all_anims(&d.animate, row.animate);
    let site = Site {
        label: label.as_str(),
        id: label.as_str(),
        x,
        y,
        opacity: above,
        index: Some(row.index),
        clip: row.clip,
    };
    let (node, m) = match place(d, &anims, &site, c) {
        Out::Need(q) => {
            return Out::Need(q);
        },
        Out::Done(v, m) => (v, m),
    };
    match resolve_delegates(
        &d.children,
        node.x.as_str(),
        node.y.as_str(),
        node.opacity.as_str(),
        row,
        c,
    ) {
        Out::Need(q) => Out::Need(q),
        Out::Done(rest, k) => {
            let mut first: Vec<ResolvedNode> = Vec::new();
            first.push(node);
            proof {
                assert(node_views(first@) =~= seq![node@]);
            }
            Out::Done(join_nodes(first, rest), chain(chain(n, m), k))
        },
    }
}

proof fn lemma_delegates_stop(
    l: Vec<NodeDef>,
    k: nat,
    x: Seq<char>,
    y: Seq<char>,
    above: Seq<char>,
    row: RowView,
    c: Scope,
)
    requires
        k <= l@.len(),
        delegates_view(l, k, x, y, above, row, c) is Need,
    ensures
        delegates_view(l, l@.len(), x, y, above, row, c) == delegates_view(l, k, x, y, above, row, c),
    decreases l@.len() - k,
{
    if k < l@.len() {
        lemma_delegates_stop(l, k + 1, x, y, above, row, c);
    }
}

fn resolve_delegates(
    l: &Vec<NodeDef>,
    x: &str,
    y: &str,
    above: &str,
    row: &Row,
    c: &EvalContext,
) -> (r: Out<Vec<ResolvedNode>>)
    ensures
        nodes_out(r) == delegates_view(*l, l@.len(), x@, y@, above@, row@, c@),
    decreases *l, l@.len(),
{
    let mut out = no_nodes();
    let mut notes = no_notes();
    let mut i: usize = 0;
    while i < l.len()
        invariant
            i <= l@.len(),
            delegates_view(*l, i as nat, x@, y@, above@, row@, c@) == OutView::Done(
                node_views(out@),
                texts(notes@),
            ),
        decreases l@.len() - i,
    {
        proof {
            assert(decreases_to!(*l => l@[i as int]));
        }
        match resolve_delegate(&l[i], x, y, above, row, c) {
            Out::Need(q) => {
                proof {
                    lemma_delegates_stop(*l, (i + 1) as nat, x@, y@, above@, row@, c@);
                }
                return Out::Need(q);
            },
            Out::Done(v, m) => {
                out = join_nodes(out, v);
                notes = chain(notes, m);
            },
        }
        i += 1;
    }
    Out::Done(out, notes)
}

// ---------------------------------------------------------------------------
// Repeaters
// ---------------------------------------------------------------------------

fn text_or<'a>(o: &'a Option<String>, default: &'a str) -> (r: &'a str)
    ensures
        r@ == or_default(*o, default@),
{
    match o {
        Some(s) => s.as_str(),
        None => default,
    }
}

/// A raw property, or a default.
pub open spec fn prop_or(d: NodeDef, name: Seq<char>, default: Seq<char>) -> Seq<char> {
    match local_value(pairs(d.props@), name) {
        Some(v) => v,
        None => default,
    }
}

/// A property as a number, or a default.
pub open spec fn prop_figure(d: NodeDef, name: Seq<char>, default: Seq<char>) -> ItemView {
    match local_value(pairs(d.props@), name) {
        Some(e) => ItemView::Figure(e, default),
        None => ItemView::Fixed(default),
    }
}

fn prop_text(d: &NodeDef, name: &str, default: &str) -> (r: String)
    ensures
        r@ == prop_or(*d, name@, default@),
{
    match find_named(&d.props, name) {
        Some(v) => v.clone(),
        None => owned(default),
    }
}

fn prop_item(d: &NodeDef, name: &str, default: &str) -> (r: Item)
    ensures
        r@ == prop_figure(*d, name@, default@),
{
    match find_named(&d.props, name) {
        Some(e) => Item::Figure(e.clone(), owned(default)),
        None => Item::Fixed(owned(default)),
    }
}

/// A repeater goes over the launcher's results: it has no count of its own and
/// names them as its model, or names none.
pub open spec fn over_results(d: NodeDef) -> bool {
    local_value(pairs(d.props@), "count"@) is None && or_default(d.model, "launcher.results"@)
        == "launcher.results"@
}

/// How many instances a repeater has.
pub open spec fn count_view(d: NodeDef, c: Scope) -> OutView<nat> {
    match local_value(pairs(d.props@), "count"@) {
        Some(e) => match values(seq![ItemView::Figure(e, "0"@)], c) {
            OutView::Need(q) => OutView::Need(q),
            OutView::Done(v, n) => match natural(v[0], c) {
                OutView::Need(q) => OutView::Need(q),
                OutView::Done(k, _) => OutView::Done(k, n),
            },
        },
        None => done(
            if over_results(d) {
                c.launcher.results@.len()
            } else {
                0
            },
        ),
    }
}

fn repeater_count(d: &NodeDef, c: &EvalContext) -> (r: Out<usize>)
    ensures
        nat_out(r) == count_view(*d, c@),
{
    match find_named(&d.props, "count") {
        Some(e) => {
            let mut l: Vec<Item> = Vec::new();
            l.push(Item::Figure(e.clone(), owned("0")));
            proof {
                assert(item_views(l@) =~= seq![ItemView::Figure(e@, "0"@)]);
            }
            match eval_items(&l, c) {
                Out::Need(q) => Out::Need(q),
                Out::Done(v, n) => {
                    proof {
                        assert(texts(v@)[0] == v@[0]@);
                    }
                    match ask_natural(v[0].as_str(), c) {
                        Out::Need(q) => Out::Need(q),
                        Out::Done(k, _) => Out::Done(k, n),
                    }
                },
            }
        },
        None => if same_str(text_or(&d.model, "launcher.results"), "launcher.results") {
            Out::Done(c.launcher.results.len(), no_notes())
        } else {
            Out::Done(0, no_notes())
        },
    }
}

/// A repeater's arrangement, settled for all its instances.
pub struct BandView {
    pub layout: Seq<char>,
    pub origin_x: Seq<char>,
    pub origin_y: Seq<char>,
    pub gap: Seq<char>,
    pub item_height: Seq<char>,
    pub radius: Seq<char>,
    /// Instances built around the selection; zero for all of them.
    pub window: nat,
    pub opacity: Seq<char>,
    pub view_width: Seq<char>,
    pub view_height: Seq<char>,
    pub clip_y: Seq<char>,
    pub clip: Option<ClipView>,
}

pub struct Band {
    pub layout: String,
    pub origin_x: String,
    pub origin_y: String,
    pub gap: String,
    pub item_height: String,
    pub radius: String,
    pub window: usize,
    pub opacity: String,
    pub view_width: String,
    pub view_height: String,
    pub clip_y: String,
    pub clip: Option<Clip>,
}

impl View for Band {
    type V = BandView;

    open spec fn view(&self) -> BandView {
        BandView {
            layout: self.layout@,
            origin_x: self.origin_x@,
            origin_y: self.origin_y@,
            gap: self.gap@,
            item_height: self.item_height@,
            radius: self.radius@,
            window: self.window as nat,
            opacity: self.opacity@,
            view_width: self.view_width@,
            view_height: self.view_height@,
            clip_y: self.clip_y@,
            clip: crate::node::clip_view(self.clip),
        }
    }
}

/// The default selection window: nine instances on rings and rows of results,
/// all of them elsewhere.
pub open spec fn default_window(d: NodeDef) -> Seq<char> {
    let layout = prop_or(d, "layout"@, "vertical"@);
    if over_results(d) && layout != "vertical"@ && layout != "free"@ {
        "9"@
    } else {
        "0"@
    }
}

/// What a repeater evaluates before it knows its origin.
pub open spec fn band_items(d: NodeDef) -> Seq<ItemView> {
    seq![
        figure_item(d.x, "0"@),
        figure_item(d.y, "0"@),
        prop_figure(d, "gap"@, "8"@),
        prop_figure(d, "item_height"@, "44"@),
        prop_figure(d, "radius"@, "120"@),
        match local_value(pairs(d.props@), "window"@) {
            Some(e) => ItemView::Figure(e, "0"@),
            None => ItemView::Fixed(default_window(d)),
        },
        figure_item(d.opacity, "1"@),
    ]
}

fn band_list(d: &NodeDef) -> (r: Vec<Item>)
    ensures
        item_views(r@) == band_items(*d),
{
    let layout = prop_text(d, "layout", "vertical");
    let over = find_named(&d.props, "count").is_none() && same_str(
        text_or(&d.model, "launcher.results"),
        "launcher.results",
    );
    let default = if over && !same_str(layout.as_str(), "vertical") && !same_str(
        layout.as_str(),
        "free",
    ) {
        "9"
    } else {
        "0"
    };
    let window = match find_named(&d.props, "window") {
        Some(e) => Item::Figure(e.clone(), owned("0")),
        None => Item::Fixed(owned(default)),
    };
    let x = match &d.x {
        Some(e) => Item::Figure(e.clone(), owned("0")),
        None => Item::Fixed(owned("0")),
    };
    let y = match &d.y {
        Some(e) => Item::Figure(e.clone(), owned("0")),
        None => Item::Fixed(owned("0")),
    };
    let mut l: Vec<Item> = Vec::new();
    l.push(x);
    l.push(y);
    l.push(prop_item(d, "gap", "8"));
    l.push(prop_item(d, "item_height", "44"));
    l.push(prop_item(d, "radius", "120"));
    l.push(window);
    l.push(
        match &d.opacity {
            Some(e) => Item::Figure(e.clone(), owned("1")),
            None => Item::Fixed(owned("1")),
        },
    );
    proof {
        assert(item_views(l@) =~= band_items(*d));
    }
    l
}

/// What a repeater evaluates once it knows its origin: height, width, the top
/// of the visible band and its side margin.
pub open spec fn view_items(d: NodeDef, rest_h: Seq<char>, rest_w: Seq<char>, oy: Seq<char>) -> Seq<
    ItemView,
> {
    seq![
        match d.height {
            Some(e) => ItemView::Figure(e@, "0"@),
            None => ItemView::Fixed(rest_h),
        },
        match d.width {
            Some(e) => ItemView::Figure(e@, "0"@),
            None => ItemView::Fixed(rest_w),
        },
        prop_figure(d, "clip_y"@, oy),
        prop_figure(d, "clip_pad"@, "0"@),
    ]
}

fn view_list(d: &NodeDef, rest_h: &str, rest_w: &str, oy: &str) -> (r: Vec<Item>)
    ensures
        item_views(r@) == view_items(*d, rest_h@, rest_w@, oy@),
{
    let h = match &d.height {
        Some(e) => Item::Figure(e.clone(), owned("0")),
        None => Item::Fixed(owned(rest_h)),
    };
    let w = match &d.width {
        Some(e) => Item::Figure(e.clone(), owned("0")),
        None => Item::Fixed(owned(rest_w)),
    };
    let mut l: Vec<Item> = Vec::new();
    l.push(h);
    l.push(w);
    l.push(prop_item(d, "clip_y", oy));
    l.push(prop_item(d, "clip_pad", "0"));
    proof {
        assert(item_views(l@) =~= view_items(*d, rest_h@, rest_w@, oy@));
    }
    l
}

/// The rectangle that instances are cut to: the visible band of a list, the
/// line of a row, nothing for rings and free arrangements.
pub open spec fn clip_of(
    layout: Seq<char>,
    ox: Seq<char>,
    cy: Seq<char>,
    pad: Seq<char>,
    vw: Seq<char>,
    vh: Seq<char>,
    ih: Seq<char>,
    c: Scope,
) -> OutView<Option<ClipView>> {
    if layout == "vertical"@ {
        match figure2(Topic::Minus, ox, pad, c) {
            OutView::Need(q) => OutView::Need(q),
            OutView::Done(x, _) => match figure2(Topic::Minus, cy, "0.5"@, c) {
                OutView::Need(q) => OutView::Need(q),
                OutView::Done(y, _) => match figure2(Topic::Times, "2"@, pad, c) {
                    OutView::Need(q) => OutView::Need(q),
                    OutView::Done(pads, _) => match figure2(Topic::Sum, vw, pads, c) {
                        OutView::Need(q) => OutView::Need(q),
                        OutView::Done(width, _) => match figure2(Topic::Sum, vh, "1"@, c) {
                            OutView::Need(q) => OutView::Need(q),
                            OutView::Done(height, _) => done(
                                Some(ClipView { x, y, width, height }),
                            ),
                        },
                    },
                },
            },
        }
    } else if layout == "row"@ {
        match figure2(Topic::Minus, cy, "0.5"@, c) {
            OutView::Need(q) => OutView::Need(q),
            OutView::Done(y, _) => match figure2(Topic::Sum, ih, "1"@, c) {
                OutView::Need(q) => OutView::Need(q),
                OutView::Done(height, _) => done(Some(ClipView { x: ox, y, width: vw, height })),
            },
        }
    } else {
        done(None)
    }
}

pub open spec fn clip_out(o: Out<Option<Clip>>) -> OutView<Option<ClipView>> {
    match o {
        Out::Need(q) => OutView::Need(q@),
        Out::Done(v, n) => OutView::Done(crate::node::clip_view(v), texts(n@)),
    }
}

fn make_clip(
    layout: &str,
    ox: &str,
    cy: &str,
    pad: &str,
    vw: &str,
    vh: &str,
    ih: &str,
    c: &EvalContext,
) -> (r: Out<Option<Clip>>)
    ensures
        clip_out(r) == clip_of(layout@, ox@, cy@, pad@, vw@, vh@, ih@, c@),
{
    if same_str(layout, "vertical") {
        let x = match ask2(Topic::Minus, ox, pad, c) {
            Out::Need(q) => {
                return Out::Need(q);
            },
            Out::Done(t, _) => t,
        };
        let y = match ask2(Topic::Minus, cy, "0.5", c) {
            Out::Need(q) => {
                return Out::Need(q);
            },
            Out::Done(t, _) => t,
        };
        let pads = match ask2(Topic::Times, "2", pad, c) {
            Out::Need(q) => {
                return Out::Need(q);
            },
            Out::Done(t, _) => t,
        };
        let width = match ask2(Topic::Sum, vw, pads.as_str(), c) {
            Out::Need(q) => {
                return Out::Need(q);
            },
            Out::Done(t, _) => t,
        };
        match ask2(Topic::Sum, vh, "1", c) {
            Out::Need(q) => Out::Need(q),
            Out::Done(height, _) => Out::Done(Some(Clip { x, y, width, height }), no_notes()),
        }
    } else if same_str(layout, "row") {
        let y = match ask2(Topic::Minus, cy, "0.5", c) {
            Out::Need(q) => {
                return Out::Need(q);
            },
            Out::Done(t, _) => t,
        };
        match ask2(Topic::Sum, ih, "1", c) {
            Out::Need(q) => Out::Need(q),
            Out::Done(height, _) => Out::Done(
                Some(Clip { x: owned(ox), y, width: owned(vw), height }),
                no_notes(),
            ),
        }
    } else {
        Out::Done(None, no_notes())
    }
}

/// What is left of the window behind an origin, unless the node has a length.
pub open spec fn rest_of(own: Option<String>, size: u32, origin: Seq<char>, c: Scope) -> OutView<
    Seq<char>,
> {
    match own {
        Some(_) => done("0"@),
        None => figure2(Topic::Rest, decimal(size as nat), origin, c),
    }
}

fn rest_text(own: &Option<String>, size: u32, origin: &str, c: &EvalContext) -> (r: Out<String>)
    ensures
        crate::ask::string_out(r) == rest_of(*own, size, origin@, c@),
{
    match own {
        Some(_) => Out::Done(owned("0"), no_notes()),
        None => {
            let d = decimal_chars(size as u128);
            let s = string_of(d.as_slice());
            ask2(Topic::Rest, s.as_str(), origin, c)
        },
    }
}

/// The settled arrangement of a repeater at `x`, `y`, below the opacity `above`.
pub open spec fn band_view(
    d: NodeDef,
    x: Seq<char>,
    y: Seq<char>,
    above: Seq<char>,
    c: Scope,
) -> OutView<BandView> {
    match values(band_items(d), c) {
        OutView::Need(q) => OutView::Need(q),
        OutView::Done(v, n) => match figure2(Topic::Sum, x, v[0], c) {
            OutView::Need(q) => OutView::Need(q),
            OutView::Done(ox, _) => match figure2(Topic::Sum, y, v[1], c) {
                OutView::Need(q) => OutView::Need(q),
                OutView::Done(oy, _) => match natural(v[5], c) {
                    OutView::Need(q) => OutView::Need(q),
                    OutView::Done(window, _) => match rest_of(d.height, c.window_size.1, oy, c) {
                        OutView::Need(q) => OutView::Need(q),
                        OutView::Done(rest_h, _) => match rest_of(d.width, c.window_size.0, ox, c) {
                            OutView::Need(q) => OutView::Need(q),
                            OutView::Done(rest_w, _) => match values(
                                view_items(d, rest_h, rest_w, oy),
                                c,
                            ) {
                                OutView::Need(q) => OutView::Need(q),
                                OutView::Done(w, m) => {
                                    let layout = prop_or(d, "layout"@, "vertical"@);
                                    match clip_of(layout, ox, w[2], w[3], w[1], w[0], v[3], c) {
                                        OutView::Need(q) => OutView::Need(q),
                                        OutView::Done(clip, _) => match dimmed(above, v[6], c) {
                                            OutView::Need(q) => OutView::Need(q),
                                            OutView::Done(opacity, _) => OutView::Done(
                                                BandView {
                                                    layout,
                                                    origin_x: ox,
                                                    origin_y: oy,
                                                    gap: v[2],
                                                    item_height: v[3],
                                                    radius: v[4],
                                                    window,
                                                    opacity,
                                                    view_width: w[1],
                                                    view_height: w[0],
                                                    clip_y: w[2],
                                                    clip,
                                                },
                                                n + m,
                                            ),
                                        },
                                    }
                                },
                            },
                        },
                    },
                },
            },
        },
    }
}

pub open spec fn band_out(o: Out<Band>) -> OutView<BandView> {
    match o {
        Out::Need(q) => OutView::Need(q@),
        Out::Done(v, n) => OutView::Done(v@, texts(n@)),
    }
}

fn settle_band(d: &NodeDef, x: &str, y: &str, above: &str, c: &EvalContext) -> (r: Out<Band>)
    ensures
        band_out(r) == band_view(*d, x@, y@, above@, c@),
{
    let l = band_list(d);
    proof {
        assert(item_views(l@).len() == 7);
    }
    let (v, n) = match eval_items(&l, c) {
        Out::Need(q) => {
            return Out::Need(q);
        },
        Out::Done(v, n) => (v, n),
    };
    let ox = match ask2(Topic::Sum, x, v[0].as_str(), c) {
        Out::Need(q) => {
            return Out::Need(q);
        },
        Out::Done(t, _) => t,
    };
    let oy = match ask2(Topic::Sum, y, v[1].as_str(), c) {
        Out::Need(q) => {
            return Out::Need(q);
        },
        Out::Done(t, _) => t,
    };
    let window: usize = match ask_natural(v[5].as_str(), c) {
        Out::Need(q) => {
            return Out::Need(q);
        },
        Out::Done(k, _) => k,
    };
    let rest_h = match rest_text(&d.height, c.window_size.1, oy.as_str(), c) {
        Out::Need(q) => {
            return Out::Need(q);
        },
        Out::Done(t, _) => t,
    };
    let rest_w = match rest_text(&d.width, c.window_size.0, ox.as_str(), c) {
        Out::Need(q) => {
            return Out::Need(q);
        },
        Out::Done(t, _) => t,
    };
    let k = view_list(d, rest_h.as_str(), rest_w.as_str(), oy.as_str());
    proof {
        assert(item_views(k@).len() == 4);
    }
    let (w, m) = match eval_items(&k, c) {
        Out::Need(q) => {
            return Out::Need(q);
        },
        Out::Done(v, n) => (v, n),
    };
    let layout = prop_text(d, "layout", "vertical");
    let clip = match make_clip(
        layout.as_str(),
        ox.as_str(),
        w[2].as_str(),
        w[3].as_str(),
        w[1].as_str(),
        w[0].as_str(),
        v[3].as_str(),
        c,
    ) {
        Out::Need(q) => {
            return Out::Need(q);
        },
        Out::Done(t, _) => t,
    };
    let opacity = match dim(above, v[6].as_str(), c) {
        Out::Need(q) => {
            return Out::Need(q);
        },
        Out::Done(t, _) => t,
    };
    Out::Done(
        Band {
            layout,
            origin_x: ox,
            origin_y: oy,
            gap: v[2].clone(),
            item_height: v[3].clone(),
            radius: v[4].clone(),
            window,
            opacity,
            view_width: w[1].clone(),
            view_height: w[0].clone(),
            clip_y: w[2].clone(),
            clip,
        },
        chain(n, m),
    )
}

/// Instance `idx` lies within the window of `window` instances around the selection.
pub open spec fn near_selection(window: nat, idx: int, selected: int) -> bool {
    let half = if window / 2 >= 1 {
        (window / 2) as int
    } else {
        1
    };
    window == 0 || -half <= idx - selected <= half
}

/// The distance from one list item to the next.
pub open spec fn pitch(b: BandView, c: Scope) -> OutView<Seq<char>> {
    figure2(Topic::Sum, b.item_height, b.gap, c)
}

/// How far below the origin instance `idx` of a list starts.
pub open spec fn list_offset(b: BandView, idx: nat, c: Scope) -> OutView<Seq<char>> {
    match pitch(b, c) {
        OutView::Need(q) => OutView::Need(q),
        OutView::Done(p, _) => figure2(Topic::Times, decimal(idx), p, c),
    }
}

/// The first number relates to the second.
pub open spec fn relates(r: Relation, a: Seq<char>, b: Seq<char>, c: Scope) -> OutView<bool> {
    is_yes(c.answers.asked(AskView { topic: Topic::Relate(r), a, b, c: Seq::empty() }))
}

/// A list item is built if it overlaps the visible band, half a pixel spared.
pub open spec fn overlaps_band(b: BandView, idx: nat, c: Scope) -> OutView<bool> {
    match list_offset(b, idx, c) {
        OutView::Need(q) => OutView::Need(q),
        OutView::Done(off, _) => match figure2(Topic::Sum, b.origin_y, off, c) {
            OutView::Need(q) => OutView::Need(q),
            OutView::Done(top, _) => match figure2(Topic::Sum, b.clip_y, b.view_height, c) {
                OutView::Need(q) => OutView::Need(q),
                OutView::Done(edge, _) => match figure2(Topic::Sum, edge, "0.5"@, c) {
                    OutView::Need(q) => OutView::Need(q),
                    OutView::Done(end, _) => match relates(Relation::Ge, top, end, c) {
                        OutView::Need(q) => OutView::Need(q),
                        OutView::Done(true, _) => done(false),
                        OutView::Done(false, _) => match figure2(Topic::Sum, top, b.item_height, c) {
                            OutView::Need(q) => OutView::Need(q),
                            OutView::Done(bottom, _) => match figure2(
                                Topic::Minus,
                                b.clip_y,
                                "0.5"@,
                                c,
                            ) {
                                OutView::Need(q) => OutView::Need(q),
                                OutView::Done(start, _) => match relates(
                                    Relation::Le,
                                    bottom,
                                    start,
                                    c,
                                ) {
                                    OutView::Need(q) => OutView::Need(q),
                                    OutView::Done(above, _) => done(!above),
                                },
                            },
                        },
                    },
                },
            },
        },
    }
}

/// Whether an instance is built at all.
pub open spec fn built(b: BandView, idx: nat, c: Scope) -> OutView<bool> {
    if b.layout == "vertical"@ {
        overlaps_band(b, idx, c)
    } else if b.layout == "circular"@ || b.layout == "row"@ || b.layout == "free"@ {
        done(near_selection(b.window, idx as int, c.launcher.selected_index as int))
    } else {
        done(true)
    }
}

fn offset_text(b: &Band, idx: usize, c: &EvalContext) -> (r: Out<String>)
    ensures
        crate::ask::string_out(r) == list_offset(b@, idx as nat, c@),
{
    let p = match ask2(Topic::Sum, b.item_height.as_str(), b.gap.as_str(), c) {
        Out::Need(q) => {
            return Out::Need(q);
        },
        Out::Done(t, _) => t,
    };
    let d = decimal_chars(idx as u128);
    let s = string_of(d.as_slice());
    ask2(Topic::Times, s.as_str(), p.as_str(), c)
}

fn in_band(b: &Band, idx: usize, c: &EvalContext) -> (r: Out<bool>)
    ensures
        crate::ask::bool_out(r) == overlaps_band(b@, idx as nat, c@),
{
    let off = match offset_text(b, idx, c) {
        Out::Need(q) => {
            return Out::Need(q);
        },
        Out::Done(t, _) => t,
    };
    let top = match ask2(Topic::Sum, b.origin_y.as_str(), off.as_str(), c) {
        Out::Need(q) => {
            return Out::Need(q);
        },
        Out::Done(t, _) => t,
    };
    let edge = match ask2(Topic::Sum, b.clip_y.as_str(), b.view_height.as_str(), c) {
        Out::Need(q) => {
            return Out::Need(q);
        },
        Out::Done(t, _) => t,
    };
    let end = match ask2(Topic::Sum, edge.as_str(), "0.5", c) {
        Out::Need(q) => {
            return Out::Need(q);
        },
        Out::Done(t, _) => t,
    };
    match ask_yes(Topic::Relate(Relation::Ge), top.as_str(), end.as_str(), c) {
        Out::Need(q) => {
            return Out::Need(q);
        },
        Out::Done(below, _) => {
            if below {
                return Out::Done(false, no_notes());
            }
        },
    }
    let bottom = match ask2(Topic::Sum, top.as_str(), b.item_height.as_str(), c) {
        Out::Need(q) => {
            return Out::Need(q);
        },
        Out::Done(t, _) => t,
    };
    let start = match ask2(Topic::Minus, b.clip_y.as_str(), "0.5", c) {
        Out::Need(q) => {
            return Out::Need(q);
        },
        Out::Done(t, _) => t,
    };
    match ask_yes(Topic::Relate(Relation::Le), bottom.as_str(), start.as_str(), c) {
        Out::Need(q) => Out::Need(q),
        Out::Done(above, _) => Out::Done(!above, no_notes()),
    }
}

fn within_window(window: usize, idx: usize, selected: usize) -> (r: bool)
    ensures
        r == near_selection(window as nat, idx as int, selected as int),
{
    let half: i128 = if window / 2 >= 1 {
        (window / 2) as i128
    } else {
        1
    };
    let gap: i128 = idx as i128 - selected as i128;
    window == 0 || (-half <= gap && gap <= half)
}

fn is_built(b: &Band, idx: usize, c: &EvalContext) -> (r: Out<bool>)
    ensures
        crate::ask::bool_out(r) == built(b@, idx as nat, c@),
{
    let layout = b.layout.as_str();
    if same_str(layout, "vertical") {
        in_band(b, idx, c)
    } else if same_str(layout, "circular") || same_str(layout, "row") || same_str(layout, "free") {
        Out::Done(within_window(b.window, idx, c.launcher.selected_index), no_notes())
    } else {
        Out::Done(true, no_notes())
    }
}

/// Where an instance stands relative to the repeater's origin.
pub open spec fn offset_of(b: BandView, idx: nat, count: nat, c: Scope) -> OutView<
    (Seq<char>, Seq<char>),
> {
    if b.layout == "circular"@ {
        match or_text(
            c.answers.asked(
                AskView { topic: Topic::RingX, a: decimal(idx), b: decimal(count), c: b.radius },
            ),
            "0"@,
        ) {
            OutView::Need(q) => OutView::Need(q),
            OutView::Done(x, _) => match or_text(
                c.answers.asked(
                    AskView { topic: Topic::RingY, a: decimal(idx), b: decimal(count), c: b.radius },
                ),
                "0"@,
            ) {
                OutView::Need(q) => OutView::Need(q),
                OutView::Done(y, _) => done((x, y)),
            },
        }
    } else if b.layout == "row"@ || b.layout == "free"@ {
        done(("0"@, "0"@))
    } else {
        match list_offset(b, idx, c) {
            OutView::Need(q) => OutView::Need(q),
            OutView::Done(y, _) => done(("0"@, y)),
        }
    }
}

fn ask3(topic: Topic, a: usize, b: usize, r3: &str, c: &EvalContext) -> (r: Out<String>)
    ensures
        crate::ask::string_out(r) == or_text(
            c@.answers.asked(
                AskView { topic, a: decimal(a as nat), b: decimal(b as nat), c: r3@ },
            ),
            "0"@,
        ),
{
    let x = decimal_chars(a as u128);
    let y = decimal_chars(b as u128);
    let z = chars_of(r3);
    match c.answers.ask(topic, x.as_slice(), y.as_slice(), z.as_slice()) {
        Out::Need(q) => Out::Need(q),
        Out::Done(v, n) => match v {
            Some(t) => Out::Done(string_of(t.as_slice()), n),
            None => Out::Done(owned("0"), n),
        },
    }
}

fn instance_offset(b: &Band, idx: usize, count: usize, c: &EvalContext) -> (r: Out<(String, String)>)
    ensures
        r matches Out::Need(q) ==> offset_of(b@, idx as nat, count as nat, c@) == OutView::<
            (Seq<char>, Seq<char>),
        >::Need(q@),
        r matches Out::Done(v, _) ==> offset_of(b@, idx as nat, count as nat, c@) == done(
            (v.0@, v.1@),
        ),
{
    let layout = b.layout.as_str();
    if same_str(layout, "circular") {
        let x = match ask3(Topic::RingX, idx, count, b.radius.as_str(), c) {
            Out::Need(q) => {
                return Out::Need(q);
            },
            Out::Done(t, _) => t,
        };
        match ask3(Topic::RingY, idx, count, b.radius.as_str(), c) {
            Out::Need(q) => Out::Need(q),
            Out::Done(y, _) => Out::Done((x, y), no_notes()),
        }
    } else if same_str(layout, "row") || same_str(layout, "free") {
        Out::Done((owned("0"), owned("0")), no_notes())
    } else {
        match offset_text(b, idx, c) {
            Out::Need(q) => Out::Need(q),
            Out::Done(y, _) => Out::Done((owned("0"), y), no_notes()),
        }
    }
}

/// The local names every instance has.
pub open spec fn row_locals(idx: nat, count: nat, selected: bool, selection: nat) -> Seq<
    (Seq<char>, Seq<char>),
> {
    seq![
        ("index"@, decimal(idx)),
        ("count"@, decimal(count)),
        ("is_selected"@, crate::binding::bool_text(selected)),
        ("selected_index"@, decimal(selection)),
    ]
}

/// The local names of an instance that shows a result.
pub open spec fn item_locals(e: AppEntry, icon: Seq<char>) -> Seq<(Seq<char>, Seq<char>)> {
    seq![
        ("item_name"@, e.name@),
        ("item_exec"@, e.command@),
        ("item_id"@, e.id@),
        ("item_description"@, text_or_empty(e.description)),
        ("item_keywords"@, e.keywords@),
        ("item_mode"@, mode_text(e.mode)),
        ("item_icon"@, icon),
    ]
}

fn number_string(n: usize) -> (r: String)
    ensures
        r@ == decimal(n as nat),
{
    let d = decimal_chars(n as u128);
    string_of(d.as_slice())
}

fn local_list(idx: usize, count: usize, selected: bool, selection: usize) -> (r: Vec<(String, String)>)
    ensures
        pairs(r@) == row_locals(idx as nat, count as nat, selected, selection as nat),
{
    let mut l: Vec<(String, String)> = Vec::new();
    let flag = if selected {
        owned("true")
    } else {
        owned("false")
    };
    l.push((owned("index"), number_string(idx)));
    l.push((owned("count"), number_string(count)));
    l.push((owned("is_selected"), flag));
    l.push((owned("selected_index"), number_string(selection)));
    proof {
        assert(pairs(l@) =~= row_locals(idx as nat, count as nat, selected, selection as nat));
    }
    l
}

fn entry_list(e: &AppEntry, icon: String) -> (r: Vec<(String, String)>)
    ensures
        pairs(r@) == item_locals(*e, icon@),
{
    let mut l: Vec<(String, String)> = Vec::new();
    let description = match &e.description {
        Some(t) => t.clone(),
        None => String::new(),
    };
    l.push((owned("item_name"), e.name.clone()));
    l.push((owned("item_exec"), e.command.clone()));
    l.push((owned("item_id"), e.id.clone()));
    l.push((owned("item_description"), description));
    l.push((owned("item_keywords"), e.keywords.clone()));
    l.push((owned("item_mode"), owned(mode_name(e.mode))));
    l.push((owned("item_icon"), icon));
    proof {
        assert(l@[3].1@ =~= text_or_empty(e.description));
        assert(pairs(l@) =~= item_locals(*e, icon@));
    }
    l
}

/// The local names of instance `idx`.
pub open spec fn locals_view(idx: nat, count: nat, results: bool, c: Scope) -> OutView<
    Seq<(Seq<char>, Seq<char>)>,
> {
    let selection = c.launcher.selected_index;
    let common = row_locals(idx, count, results && idx == selection, selection as nat);
    if results && idx < c.launcher.results@.len() {
        let e = c.launcher.results@[idx as int];
        match or_text(
            c.answers.asked(
                AskView { topic: Topic::Icon, a: e.icon@, b: Seq::empty(), c: Seq::empty() },
            ),
            Seq::empty(),
        ) {
            OutView::Need(q) => OutView::Need(q),
            OutView::Done(icon, _) => done(common + item_locals(e, icon)),
        }
    } else {
        done(common)
    }
}

fn instance_locals(idx: usize, count: usize, results: bool, c: &EvalContext) -> (r: Out<
    Vec<(String, String)>,
>)
    ensures
        r matches Out::Need(q) ==> locals_view(idx as nat, count as nat, results, c@) == OutView::<
            Seq<(Seq<char>, Seq<char>)>,
        >::Need(q@),
        r matches Out::Done(v, _) ==> locals_view(idx as nat, count as nat, results, c@) == done(
            pairs(v@),
        ),
{
    let selection: usize = c.launcher.selected_index;
    let mut l = local_list(idx, count, results && idx == selection, selection);
    if results && idx < c.launcher.results.len() {
        let e = &c.launcher.results[idx];
        let name = chars_of(e.icon.as_str());
        let none: Vec<char> = Vec::new();
        proof {
            assert(none@ =~= Seq::empty());
        }
        let icon = match c.answers.ask(Topic::Icon, name.as_slice(), none.as_slice(), none.as_slice()) {
            Out::Need(q) => {
                return Out::Need(q);
            },
            Out::Done(v, _) => match v {
                Some(t) => string_of(t.as_slice()),
                None => String::new(),
            },
        };
        let mut more = entry_list(e, icon);
        let ghost a = l@;
        let ghost b = more@;
        l.append(&mut more);
        proof {
            assert(pairs(l@) =~= pairs(a) + pairs(b));
        }
    }
    Out::Done(l, no_notes())
}

/// The nodes of instance `idx`; none where it is not built.
pub open spec fn row_view(
    comp: ComponentDef,
    b: BandView,
    idx: nat,
    count: nat,
    results: bool,
    c: Scope,
) -> OutView<Seq<NodeView>> {
    match built(b, idx, c) {
        OutView::Need(q) => OutView::Need(q),
        OutView::Done(false, _) => done(Seq::empty()),
        OutView::Done(true, _) => match locals_view(idx, count, results, c) {
            OutView::Need(q) => OutView::Need(q),
            OutView::Done(locals, _) => match offset_of(b, idx, count, c) {
                OutView::Need(q) => OutView::Need(q),
                OutView::Done((ox, oy), _) => match figure2(Topic::Sum, b.origin_x, ox, c) {
                    OutView::Need(q) => OutView::Need(q),
                    OutView::Done(x, _) => match figure2(Topic::Sum, b.origin_y, oy, c) {
                        OutView::Need(q) => OutView::Need(q),
                        OutView::Done(y, _) => delegates_view(
                            comp.nodes,
                            comp.nodes@.len(),
                            x,
                            y,
                            b.opacity,
                            RowView {
                                suffix: "-"@ + decimal(idx),
                                index: idx as usize,
                                clip: b.clip,
                                animate: comp.animate@,
                            },
                            Scope { locals, ..c },
                        ),
                    },
                },
            },
        },
    }
}

fn resolve_row(
    comp: &ComponentDef,
    b: &Band,
    idx: usize,
    count: usize,
    results: bool,
    c: &EvalContext,
) -> (r: Out<Vec<ResolvedNode>>)
    ensures
        nodes_out(r) == row_view(*comp, b@, idx as nat, count as nat, results, c@),
{
    match is_built(b, idx, c) {
        Out::Need(q) => {
            return Out::Need(q);
        },
        Out::Done(v, _) => {
            if !v {
                return Out::Done(no_nodes(), no_notes());
            }
        },
    }
    let locals = match instance_locals(idx, count, results, c) {
        Out::Need(q) => {
            return Out::Need(q);
        },
        Out::Done(v, _) => v,
    };
    let off = match instance_offset(b, idx, count, c) {
        Out::Need(q) => {
            return Out::Need(q);
        },
        Out::Done(v, _) => v,
    };
    let x = match ask2(Topic::Sum, b.origin_x.as_str(), off.0.as_str(), c) {
        Out::Need(q) => {
            return Out::Need(q);
        },
        Out::Done(t, _) => t,
    };
    let y = match ask2(Topic::Sum, b.origin_y.as_str(), off.1.as_str(), c) {
        Out::Need(q) => {
            return Out::Need(q);
        },
        Out::Done(t, _) => t,
    };
    let number = number_string(idx);
    let suffix = joined_text("-", number.as_str());
    let row = Row {
        suffix: suffix.as_str(),
        index: idx,
        clip: match &b.clip {
            Some(k) => Some(k),
            None => None,
        },
        animate: &comp.animate,
    };
    let inner = EvalContext {
        launcher: c.launcher,
        locals: &locals,
        window_size: c.window_size,
        clock: c.clock,
        measured: c.measured,
        answers: c.answers,
    };
    resolve_delegates(&comp.nodes, x.as_str(), y.as_str(), b.opacity.as_str(), &row, &inner)
}

/// The nodes of the first `k` instances.
pub open spec fn rows_view(
    k: nat,
    comp: ComponentDef,
    b: BandView,
    count: nat,
    results: bool,
    c: Scope,
) -> OutView<Seq<NodeView>>
    decreases k,
{
    if k == 0 {
        done(Seq::empty())
    } else {
        match rows_view((k - 1) as nat, comp, b, count, results, c) {
            OutView::Need(q) => OutView::Need(q),
            OutView::Done(head, n) => match row_view(comp, b, (k - 1) as nat, count, results, c) {
                OutView::Need(q) => OutView::Need(q),
                OutView::Done(tail, m) => OutView::Done(head + tail, n + m),
            },
        }
    }
}

proof fn lemma_rows_stop(
    k: nat,
    all: nat,
    comp: ComponentDef,
    b: BandView,
    count: nat,
    results: bool,
    c: Scope,
)
    requires
        k <= all,
        rows_view(k, comp, b, count, results, c) is Need,
    ensures
        rows_view(all, comp, b, count, results, c) == rows_view(k, comp, b, count, results, c),
    decreases all - k,
{
    if k < all {
        lemma_rows_stop(k + 1, all, comp, b, count, results, c);
    }
}

fn resolve_rows(comp: &ComponentDef, b: &Band, count: usize, results: bool, c: &EvalContext) -> (r:
    Out<Vec<ResolvedNode>>)
    ensures
        nodes_out(r) == rows_view(count as nat, *comp, b@, count as nat, results, c@),
{
    let mut out = no_nodes();
    let mut notes = no_notes();
    let mut i: usize = 0;
    while i < count
        invariant
            i <= count,
            rows_view(i as nat, *comp, b@, count as nat, results, c@) == OutView::Done(
                node_views(out@),
                texts(notes@),
            ),
        decreases count - i,
    {
        match resolve_row(comp, b, i, count, results, c) {
            Out::Need(q) => {
                proof {
                    lemma_rows_stop(
                        (i + 1) as nat,
                        count as nat,
                        *comp,
                        b@,
                        count as nat,
                        results,
                        c@,
                    );
                }
                return Out::Need(q);
            },
            Out::Done(v, m) => {
                out = join_nodes(out, v);
                notes = chain(notes, m);
            },
        }
        i += 1;
    }
    Out::Done(out, notes)
}

/// A repeater expanded into its instances.
pub open spec fn repeater_view(
    d: NodeDef,
    t: Theme,
    x: Seq<char>,
    y: Seq<char>,
    above: Seq<char>,
    c: Scope,
) -> OutView<Seq<NodeView>> {
    let name = or_default(d.delegate, Seq::empty());
    match component_of(t.components@, name) {
        None => OutView::Done(
            Seq::empty(),
            seq![
                warning(d.id@, "repeater"@, "unknown delegate component `"@ + name + "`"@),
            ],
        ),
        Some(comp) => match count_view(d, c) {
            OutView::Need(q) => OutView::Need(q),
            OutView::Done(count, n) => if count == 0 {
                OutView::Done(Seq::empty(), labelled(d.id@, n))
            } else {
                match band_view(d, x, y, above, c) {
                    OutView::Need(q) => OutView::Need(q),
                    OutView::Done(b, m) => noted(
                        labelled(d.id@, n + m),
                        rows_view(count, comp, b, count, over_results(d), c),
                    ),
                }
            },
        },
    }
}

fn resolve_repeater(
    d: &NodeDef,
    t: &Theme,
    x: &str,
    y: &str,
    above: &str,
    c: &EvalContext,
) -> (r: Out<Vec<ResolvedNode>>)
    ensures
        nodes_out(r) == repeater_view(*d, *t, x@, y@, above@, c@),
{
    proof {
        reveal_strlit("");
        assert(""@ =~= Seq::<char>::empty());
    }
    let name = text_or(&d.delegate, "");
    match find_component(&t.components, name) {
        None => {
            let mut err = chars_of("unknown delegate component `");
            append_str(&mut err, name);
            append_str(&mut err, "`");
            let e = string_of(err.as_slice());
            let mut notes: Vec<String> = Vec::new();
            notes.push(warning_text(d.id.as_str(), "repeater", e.as_str()));
            proof {
                assert(texts(notes@) =~= seq![
                    warning(
                        d.id@,
                        "repeater"@,
                        "unknown delegate component `"@ + name@ + "`"@,
                    ),
                ]);
            }
            Out::Done(no_nodes(), notes)
        },
        Some(comp) => {
            let (count, n) = match repeater_count(d, c) {
                Out::Need(q) => {
                    return Out::Need(q);
                },
                Out::Done(v, n) => (v, n),
            };
            if count == 0 {
                return Out::Done(no_nodes(), label_notes(d.id.as_str(), &n));
            }
            let (b, m) = match settle_band(d, x, y, above, c) {
                Out::Need(q) => {
                    return Out::Need(q);
                },
                Out::Done(v, m) => (v, m),
            };
            let over = find_named(&d.props, "count").is_none() && same_str(
                text_or(&d.model, "launcher.results"),
                "launcher.results",
            );
            let all = chain(n, m);
            let label = label_notes(d.id.as_str(), &all);
            match resolve_rows(comp, &b, count, over, c) {
                Out::Need(q) => Out::Need(q),
                Out::Done(v, k) => Out::Done(v, chain(label, k)),
            }
        },
    }
}

// ---------------------------------------------------------------------------
// The tree
// ---------------------------------------------------------------------------

/// The size of a child, which moves the next one.
pub open spec fn size_items(d: NodeDef) -> Seq<ItemView> {
    seq![figure_item(d.width, "100"@), figure_item(d.height, "40"@)]
}

fn size_list(d: &NodeDef) -> (r: Vec<Item>)
    ensures
        item_views(r@) == size_items(*d),
{
    let w = match &d.width {
        Some(e) => Item::Figure(e.clone(), owned("100")),
        None => Item::Fixed(owned("100")),
    };
    let h = match &d.height {
        Some(e) => Item::Figure(e.clone(), owned("40")),
        None => Item::Fixed(owned("40")),
    };
    let mut l: Vec<Item> = Vec::new();
    l.push(w);
    l.push(h);
    proof {
        assert(item_views(l@) =~= size_items(*d));
    }
    l
}

/// A container: where it is and how its children follow each other.
pub struct FlowView {
    pub layout: Seq<char>,
    pub gap: Seq<char>,
    pub x: Seq<char>,
    pub y: Seq<char>,
    pub opacity: Seq<char>,
}

pub struct Flow<'a> {
    pub layout: &'a str,
    pub gap: &'a str,
    pub x: &'a str,
    pub y: &'a str,
    pub opacity: &'a str,
}

impl<'a> View for Flow<'a> {
    type V = FlowView;

    open spec fn view(&self) -> FlowView {
        FlowView {
            layout: self.layout@,
            gap: self.gap@,
            x: self.x@,
            y: self.y@,
            opacity: self.opacity@,
        }
    }
}

/// What the first children left behind: their nodes, and the place for the next.
pub struct FlowState {
    pub nodes: Seq<NodeView>,
    pub x: Seq<char>,
    pub y: Seq<char>,
}

/// A cursor moved on by a length and the gap.
pub open spec fn advanced(at: Seq<char>, by: Seq<char>, gap: Seq<char>, c: Scope) -> OutView<
    Seq<char>,
> {
    match figure2(Topic::Sum, by, gap, c) {
        OutView::Need(q) => OutView::Need(q),
        OutView::Done(step, _) => figure2(Topic::Sum, at, step, c),
    }
}

fn advance(at: &str, by: &str, gap: &str, c: &EvalContext) -> (r: Out<String>)
    ensures
        crate::ask::string_out(r) == advanced(at@, by@, gap@, c@),
{
    match ask2(Topic::Sum, by, gap, c) {
        Out::Need(q) => Out::Need(q),
        Out::Done(step, _) => ask2(Topic::Sum, at, step.as_str(), c),
    }
}

/// The cursor behind a child of size `w` by `h`.
pub open spec fn next_cursor(
    f: FlowView,
    x: Seq<char>,
    y: Seq<char>,
    w: Seq<char>,
    h: Seq<char>,
    c: Scope,
) -> OutView<(Seq<char>, Seq<char>)> {
    if f.layout == "column"@ {
        match advanced(y, h, f.gap, c) {
            OutView::Need(q) => OutView::Need(q),
            OutView::Done(t, _) => done((x, t)),
        }
    } else if f.layout == "row"@ {
        match advanced(x, w, f.gap, c) {
            OutView::Need(q) => OutView::Need(q),
            OutView::Done(t, _) => done((t, y)),
        }
    } else {
        done((x, y))
    }
}

fn move_cursor(f: &Flow, x: String, y: String, w: &str, h: &str, c: &EvalContext) -> (r: Out<
    (String, String),
>)
    ensures
        r matches Out::Need(q) ==> next_cursor(f@, x@, y@, w@, h@, c@) == OutView::<
            (Seq<char>, Seq<char>),
        >::Need(q@),
        r matches Out::Done(v, _) ==> next_cursor(f@, x@, y@, w@, h@, c@) == done((v.0@, v.1@)),
{
    if same_str(f.layout, "column") {
        match advance(y.as_str(), h, f.gap, c) {
            Out::Need(q) => Out::Need(q),
            Out::Done(t, _) => Out::Done((x, t), no_notes()),
        }
    } else if same_str(f.layout, "row") {
        match advance(x.as_str(), w, f.gap, c) {
            Out::Need(q) => Out::Need(q),
            Out::Done(t, _) => Out::Done((t, y), no_notes()),
        }
    } else {
        Out::Done((x, y), no_notes())
    }
}

/// Where a node outside repeaters goes.
pub open spec fn top_site(d: NodeDef, x: Seq<char>, y: Seq<char>, above: Seq<char>) -> SiteView {
    SiteView { label: d.id@, id: d.id@, x, y, opacity: above, index: None, clip: None }
}

/// One node with all that it expands to, relative to `x`, `y` and below the
/// opacity `above`.
pub open spec fn tree_view(
    d: NodeDef,
    t: Theme,
    x: Seq<char>,
    y: Seq<char>,
    above: Seq<char>,
    c: Scope,
) -> OutView<Seq<NodeView>>
    decreases d, 0nat,
{
    match shown_view(d, d.id@, c) {
        OutView::Need(q) => OutView::Need(q),
        OutView::Done(false, n) => OutView::Done(Seq::empty(), n),
        OutView::Done(true, n) => if d.kind@ == "Repeater"@ {
            noted(n, repeater_view(d, t, x, y, above, c))
        } else {
            match placed(d, d.animate@, top_site(d, x, y, above), c) {
                OutView::Need(q) => OutView::Need(q),
                OutView::Done(node, m) => if d.children@.len() == 0 {
                    OutView::Done(seq![node], n + m)
                } else {
                    match values(seq![prop_figure(d, "gap"@, "8"@)], c) {
                        OutView::Need(q) => OutView::Need(q),
                        OutView::Done(g, k) => match flow_view(
                            d.children,
                            d.children@.len(),
                            FlowView {
                                layout: prop_or(d, "layout"@, "free"@),
                                gap: g[0],
                                x: node.x,
                                y: node.y,
                                opacity: node.opacity,
                            },
                            t,
                            c,
                        ) {
                            OutView::Need(q) => OutView::Need(q),
                            OutView::Done(f, j) => OutView::Done(
                                seq![node] + f.nodes,
                                n + m + labelled(d.id@, k) + j,
                            ),
                        },
                    }
                },
            }
        },
    }
}

/// One child of a container, the cursor standing at `x`, `y`: its nodes, and
/// where the cursor stands behind it.
pub open spec fn child_view(
    d: NodeDef,
    x: Seq<char>,
    y: Seq<char>,
    f: FlowView,
    t: Theme,
    c: Scope,
) -> OutView<FlowState>
    decreases d, 1nat,
{
    let flows = f.layout == "column"@ || f.layout == "row"@;
    let dx = if flows {
        x
    } else {
        "0"@
    };
    let dy = if flows {
        y
    } else {
        "0"@
    };
    match figure2(Topic::Sum, f.x, dx, c) {
        OutView::Need(q) => OutView::Need(q),
        OutView::Done(left, _) => match figure2(Topic::Sum, f.y, dy, c) {
            OutView::Need(q) => OutView::Need(q),
            OutView::Done(top, _) => match tree_view(d, t, left, top, f.opacity, c) {
                OutView::Need(q) => OutView::Need(q),
                OutView::Done(nodes, m) => match values(size_items(d), c) {
                    OutView::Need(q) => OutView::Need(q),
                    OutView::Done(v, j) => match next_cursor(f, x, y, v[0], v[1], c) {
                        OutView::Need(q) => OutView::Need(q),
                        OutView::Done((cx, cy), _) => OutView::Done(
                            FlowState { nodes, x: cx, y: cy },
                            m + labelled(d.id@, j),
                        ),
                    },
                },
            },
        },
    }
}

/// The first `k` children of a container.
pub open spec fn flow_view(l: Vec<NodeDef>, k: nat, f: FlowView, t: Theme, c: Scope) -> OutView<
    FlowState,
>
    decreases l, k,
{
    if k == 0 || k > l@.len() {
        done(FlowState { nodes: Seq::empty(), x: "0"@, y: "0"@ })
    } else {
        match flow_view(l, (k - 1) as nat, f, t, c) {
            OutView::Need(q) => OutView::Need(q),
            OutView::Done(s, n) => match child_view(l[k - 1], s.x, s.y, f, t, c) {
                OutView::Need(q) => OutView::Need(q),
                OutView::Done(u, m) => OutView::Done(
                    FlowState { nodes: s.nodes + u.nodes, x: u.x, y: u.y },
                    n + m,
                ),
            },
        }
    }
}

proof fn lemma_flow_stop(l: Vec<NodeDef>, k: nat, f: FlowView, t: Theme, c: Scope)
    requires
        k <= l@.len(),
        flow_view(l, k, f, t, c) is Need,
    ensures
        flow_view(l, l@.len(), f, t, c) == flow_view(l, k, f, t, c),
    decreases l@.len() - k,
{
    if k < l@.len() {
        lemma_flow_stop(l, k + 1, f, t, c);
    }
}

/// Resolve one node with all that it expands to. At the top level `x` and `y`
/// are `0` and `above` is `1`.
pub fn resolve_node(d: &NodeDef, t: &Theme, x: &str, y: &str, above: &str, c: &EvalContext) -> (r:
    Out<Vec<ResolvedNode>>)
    ensures
        nodes_out(r) == tree_view(*d, *t, x@, y@, above@, c@),
    decreases *d, 0nat,
{
    let (seen, n) = match shown(d, d.id.as_str(), c) {
        Out::Need(q) => {
            return Out::Need(q);
        },
        Out::Done(v, n) => (v, n),
    };
    if !seen {
        return Out::Done(no_nodes(), n);
    }
    if same_str(d.kind.as_str(), "Repeater") {
        return match resolve_repeater(d, t, x, y, above, c) {
            Out::Need(q) => Out::Need(q),
            Out::Done(v, m) => Out::Done(v, chain(n, m)),
        };
    }
    let none: Vec<AnimateDef> = Vec::new();
    let anims = all_anims(&d.animate, &none);
    proof {
        assert(d.animate@ + none@ =~= d.animate@);
    }
    let site = Site {
        label: d.id.as_str(),
        id: d.id.as_str(),
        x,
        y,
        opacity: above,
        index: None,
        clip: None,
    };
    let (node, m) = match place(d, &anims, &site, c) {
        Out::Need(q) => {
            return Out::Need(q);
        },
        Out::Done(v, m) => (v, m),
    };
    let px = node.x.clone();
    let py = node.y.clone();
    let opacity = node.opacity.clone();
    let mut first: Vec<ResolvedNode> = Vec::new();
    first.push(node);
    proof {
        assert(node_views(first@) =~= seq![node@]);
    }
    if d.children.len() == 0 {
        return Out::Done(first, chain(n, m));
    }
    let mut gl: Vec<Item> = Vec::new();
    gl.push(prop_item(d, "gap", "8"));
    proof {
        assert(item_views(gl@) =~= seq![prop_figure(*d, "gap"@, "8"@)]);
    }
    let (g, k) = match eval_items(&gl, c) {
        Out::Need(q) => {
            return Out::Need(q);
        },
        Out::Done(v, k) => (v, k),
    };
    proof {
        assert(texts(g@)[0] == g@[0]@);
    }
    let layout = prop_text(d, "layout", "free");
    let flow = Flow {
        layout: layout.as_str(),
        gap: g[0].as_str(),
        x: px.as_str(),
        y: py.as_str(),
        opacity: opacity.as_str(),
    };
    match resolve_children(&d.children, &flow, t, c) {
        Out::Need(q) => Out::Need(q),
        Out::Done(v, j) => {
            let gap_notes = label_notes(d.id.as_str(), &k);
            Out::Done(join_nodes(first, v.0), chain(chain(chain(n, m), gap_notes), j))
        },
    }
}

pub open spec fn flow_out(o: Out<(Vec<ResolvedNode>, String, String)>) -> OutView<FlowState> {
    match o {
        Out::Need(q) => OutView::Need(q@),
        Out::Done(v, n) => OutView::Done(
            FlowState { nodes: node_views(v.0@), x: v.1@, y: v.2@ },
            texts(n@),
        ),
    }
}

fn resolve_child(d: &NodeDef, cx: String, cy: String, f: &Flow, t: &Theme, c: &EvalContext) -> (r:
    Out<(Vec<ResolvedNode>, String, String)>)
    ensures
        flow_out(r) == child_view(*d, cx@, cy@, f@, *t, c@),
    decreases *d, 1nat,
{
    let flows = same_str(f.layout, "column") || same_str(f.layout, "row");
    let dx = if flows {
        cx.as_str()
    } else {
        "0"
    };
    let dy = if flows {
        cy.as_str()
    } else {
        "0"
    };
    let x = match ask2(Topic::Sum, f.x, dx, c) {
        Out::Need(q) => {
            return Out::Need(q);
        },
        Out::Done(v, _) => v,
    };
    let y = match ask2(Topic::Sum, f.y, dy, c) {
        Out::Need(q) => {
            return Out::Need(q);
        },
        Out::Done(v, _) => v,
    };
    let (nodes, m) = match resolve_node(d, t, x.as_str(), y.as_str(), f.opacity, c) {
        Out::Need(q) => {
            return Out::Need(q);
        },
        Out::Done(v, m) => (v, m),
    };
    let sl = size_list(d);
    proof {
        assert(item_views(sl@).len() == 2);
    }
    let (v, j) = match eval_items(&sl, c) {
        Out::Need(q) => {
            return Out::Need(q);
        },
        Out::Done(v, j) => (v, j),
    };
    proof {
        assert(texts(v@)[0] == v@[0]@);
        assert(texts(v@)[1] == v@[1]@);
    }
    let size_notes = label_notes(d.id.as_str(), &j);
    match move_cursor(f, cx, cy, v[0].as_str(), v[1].as_str(), c) {
        Out::Need(q) => Out::Need(q),
        Out::Done(p, _) => Out::Done((nodes, p.0, p.1), chain(m, size_notes)),
    }
}

fn resolve_children(l: &Vec<NodeDef>, f: &Flow, t: &Theme, c: &EvalContext) -> (r: Out<
    (Vec<ResolvedNode>, String, String),
>)
    ensures
        flow_out(r) == flow_view(*l, l@.len(), f@, *t, c@),
    decreases *l, l@.len(),
{
    let mut out = no_nodes();
    let mut notes = no_notes();
    let mut cx = owned("0");
    let mut cy = owned("0");
    let mut i: usize = 0;
    while i < l.len()
        invariant
            i <= l@.len(),
            flow_view(*l, i as nat, f@, *t, c@) == OutView::Done(
                FlowState { nodes: node_views(out@), x: cx@, y: cy@ },
                texts(notes@),
            ),
        decreases l@.len() - i,
    {
        proof {
            assert(decreases_to!(*l => l@[i as int]));
        }
        match resolve_child(&l[i], cx, cy, f, t, c) {
            Out::Need(q) => {
                proof {
                    lemma_flow_stop(*l, (i + 1) as nat, f@, *t, c@);
                }
                return Out::Need(q);
            },
            Out::Done(u, m) => {
                out = join_nodes(out, u.0);
                cx = u.1;
                cy = u.2;
                notes = chain(notes, m);
            },
        }
        i += 1;
    }
    Out::Done((out, cx, cy), notes)
}

/// The first `k` top-level nodes with all that they expand to.
pub open spec fn forest_view(k: nat, t: Theme, c: Scope) -> OutView<Seq<NodeView>>
    decreases k,
{
    if k == 0 || k > t.nodes@.len() {
        done(Seq::empty())
    } else {
        match forest_view((k - 1) as nat, t, c) {
            OutView::Need(q) => OutView::Need(q),
            OutView::Done(head, n) => match tree_view(t.nodes@[k - 1], t, "0"@, "0"@, "1"@, c) {
                OutView::Need(q) => OutView::Need(q),
                OutView::Done(tail, m) => OutView::Done(head + tail, n + m),
            },
        }
    }
}

proof fn lemma_forest_stop(k: nat, t: Theme, c: Scope)
    requires
        k <= t.nodes@.len(),
        forest_view(k, t, c) is Need,
    ensures
        forest_view(t.nodes@.len(), t, c) == forest_view(k, t, c),
    decreases t.nodes@.len() - k,
{
    if k < t.nodes@.len() {
        lemma_forest_stop(k + 1, t, c);
    }
}

/// Sorting keys that bring lower layers to the front.
pub open spec fn layer_keys(l: Seq<NodeView>) -> Seq<int> {
    Seq::new(l.len(), |i: int| -(l[i].z as int))
}

/// The nodes by layer, document order within a layer.
pub open spec fn layered(l: Seq<NodeView>) -> Seq<NodeView> {
    crate::order::arranged(l, crate::order::ranking(layer_keys(l)))
}

fn sort_layers(l: Vec<ResolvedNode>) -> (r: Vec<ResolvedNode>)
    ensures
        node_views(r@) == layered(node_views(l@)),
        r@.len() == l@.len(),
{
    let ghost lv = node_views(l@);
    let n: usize = l.len();
    let mut keys: Vec<i128> = Vec::new();
    let mut slots: Vec<Option<ResolvedNode>> = Vec::new();
    let mut i: usize = 0;
    while i < n
        invariant
            n == l@.len(),
            i <= n,
            keys@.len() == i,
            forall|k: int| 0 <= k < i ==> #[trigger] keys@[k] == -(l@[k].z as int),
        decreases n - i,
    {
        keys.push(-(l[i].z as i128));
        i += 1;
    }
    proof {
        assert(crate::order::wide(keys@) =~= layer_keys(lv));
    }
    let order = crate::order::rank_desc(&keys);
    let ghost rank = crate::order::ranking(layer_keys(lv));
    proof {
        crate::order::ranking_is_permutation(layer_keys(lv), rank);
    }
    let ghost src = l@;
    for node in it: l
        invariant
            it.seq() == src,
            slots@.len() == it.index(),
            forall|k: int| 0 <= k < it.index() ==> #[trigger] slots@[k] == Some(src[k]),
    {
        slots.push(Some(node));
    }
    let mut out: Vec<ResolvedNode> = Vec::new();
    let mut j: usize = 0;
    proof {
        assert forall|k: int| 0 <= k < n implies order@[k] == #[trigger] rank[k] by {
            assert(order@.map_values(|x: usize| x as int)[k] == rank[k]);
        }
    }
    while j < n
        invariant
            n == src.len(),
            j <= n,
            order@.len() == n,
            rank.len() == n,
            rank.no_duplicates(),
            slots@.len() == n,
            out@.len() == j,
            forall|k: int| 0 <= k < n ==> order@[k] == #[trigger] rank[k],
            forall|k: int| 0 <= k < n ==> #[trigger] order@[k] < n,
            forall|k: int| j <= k < n ==> slots@[#[trigger] rank[k]] == Some(src[rank[k]]),
            forall|k: int| 0 <= k < j ==> (#[trigger] out@[k]) == src[rank[k]],
        decreases n - j,
    {
        let at: usize = order[j];
        proof {
            assert(order@[j as int] == rank[j as int]);
            assert(slots@[rank[j as int]] == Some(src[rank[j as int]]));
        }
        let ghost before = slots@;
        let taken = slots[at].take();
        match taken {
            Some(node) => {
                out.push(node);
            },
            None => {
                proof {
                    assert(false);
                }
            },
        }
        proof {
            assert forall|k: int| j + 1 <= k < n implies slots@[#[trigger] rank[k]] == Some(
                src[rank[k]],
            ) by {
                assert(rank[k] != rank[j as int]);
                assert(order@[k] == rank[k]);
                assert(before[rank[k]] == Some(src[rank[k]]));
            }
        }
        j += 1;
    }
    proof {
        assert(node_views(out@) =~= layered(lv)) by {
            assert(layered(lv).len() == n);
            assert forall|k: int| 0 <= k < n implies node_views(out@)[k] == layered(lv)[k] by {
                assert(order@[k] == rank[k]);
                assert(out@[k] == src[rank[k]]);
                assert(lv[rank[k]] == src[rank[k]]@);
            }
        }
    }
    out
}

/// All nodes of a theme, ready to draw: resolved in document order, then by layer.
pub open spec fn resolved(t: Theme, c: Scope) -> OutView<Seq<NodeView>> {
    match forest_view(t.nodes@.len(), t, c) {
        OutView::Need(q) => OutView::Need(q),
        OutView::Done(l, n) => OutView::Done(layered(l), n),
    }
}

/// Resolve a theme against a context.
pub fn resolve(t: &Theme, c: &EvalContext) -> (r: Out<Vec<ResolvedNode>>)
    ensures
        nodes_out(r) == resolved(*t, c@),
{
    let mut out = no_nodes();
    let mut notes = no_notes();
    let mut i: usize = 0;
    while i < t.nodes.len()
        invariant
            i <= t.nodes@.len(),
            forest_view(i as nat, *t, c@) == OutView::Done(node_views(out@), texts(notes@)),
        decreases t.nodes@.len() - i,
    {
        match resolve_node(&t.nodes[i], t, "0", "0", "1", c) {
            Out::Need(q) => {
                proof {
                    lemma_forest_stop((i + 1) as nat, *t, c@);
                }
                return Out::Need(q);
            },
            Out::Done(v, m) => {
                out = join_nodes(out, v);
                notes = chain(notes, m);
            },
        }
        i += 1;
    }
    Out::Done(sort_layers(out), notes)
}

// ---------------------------------------------------------------------------
// Which clocks a theme follows
// ---------------------------------------------------------------------------

/// An expression mentions one of the names as a whole word.
pub open spec fn expr_uses(e: Seq<char>, names: Seq<Seq<char>>) -> bool {
    exists|i: int| 0 <= i < names.len() && crate::scan::has_word(e, #[trigger] names[i])
}

pub open spec fn opt_uses(o: Option<String>, names: Seq<Seq<char>>) -> bool {
    o is Some && expr_uses(o->0@, names)
}

pub open spec fn anim_uses(a: AnimateDef, names: Seq<Seq<char>>) -> bool {
    ||| a.delay matches Some(DelaySpec::Expr(e)) && expr_uses(e@, names)
    ||| a.from matches Some(FromSpec::Expr(e)) && expr_uses(e@, names)
}

pub open spec fn anims_use(l: Seq<AnimateDef>, names: Seq<Seq<char>>) -> bool {
    exists|i: int| 0 <= i < l.len() && anim_uses(#[trigger] l[i], names)
}

pub open spec fn props_use(l: Seq<(String, String)>, names: Seq<Seq<char>>) -> bool {
    exists|i: int| 0 <= i < l.len() && expr_uses((#[trigger] l[i]).1@, names)
}

/// A node or one of its children mentions one of the names where it is placed,
/// styled or animated.
pub open spec fn node_uses(d: NodeDef, names: Seq<Seq<char>>) -> bool
    decreases d, 0nat,
{
    ||| opt_uses(d.x, names)
    ||| opt_uses(d.y, names)
    ||| opt_uses(d.width, names)
    ||| opt_uses(d.height, names)
    ||| opt_uses(d.visible, names)
    ||| opt_uses(d.opacity, names)
    ||| opt_uses(d.rotation, names)
    ||| opt_uses(d.skew, names)
    ||| opt_uses(d.scale, names)
    ||| opt_uses(d.points, names)
    ||| props_use(d.props@, names)
    ||| anims_use(d.animate@, names)
    ||| nodes_use(d.children, d.children@.len(), names)
}

/// One of the first `k` nodes of a list does.
pub open spec fn nodes_use(l: Vec<NodeDef>, k: nat, names: Seq<Seq<char>>) -> bool
    decreases l, k,
{
    if k == 0 || k > l@.len() {
        false
    } else {
        nodes_use(l, (k - 1) as nat, names) || node_uses(l[k - 1], names)
    }
}

pub open spec fn component_uses(comp: ComponentDef, names: Seq<Seq<char>>) -> bool {
    nodes_use(comp.nodes, comp.nodes@.len(), names) || anims_use(comp.animate@, names)
}

/// A theme mentions one of the names anywhere.
pub open spec fn theme_uses(t: Theme, names: Seq<Seq<char>>) -> bool {
    ||| nodes_use(t.nodes, t.nodes@.len(), names)
    ||| exists|i: int| 0 <= i < t.components@.len() && component_uses((#[trigger] t.components@[i]).1, names)
}

/// The names as character sequences.
pub open spec fn names_of(l: Seq<&str>) -> Seq<Seq<char>> {
    Seq::new(l.len(), |i: int| l[i]@)
}

fn mentions(e: &str, names: &Vec<&str>) -> (r: bool)
    ensures
        r == expr_uses(e@, names_of(names@)),
{
    let c = chars_of(e);
    let mut i: usize = 0;
    while i < names.len()
        invariant
            i <= names@.len(),
            c@ == e@,
            forall|k: int|
                0 <= k < i ==> !crate::scan::has_word(e@, #[trigger] names_of(names@)[k]),
        decreases names@.len() - i,
    {
        if crate::scan::contains_word(c.as_slice(), names[i]) {
            proof {
                assert(names_of(names@)[i as int] == names@[i as int]@);
            }
            return true;
        }
        i += 1;
    }
    false
}

fn opt_mentions(o: &Option<String>, names: &Vec<&str>) -> (r: bool)
    ensures
        r == opt_uses(*o, names_of(names@)),
{
    match o {
        Some(e) => mentions(e.as_str(), names),
        None => false,
    }
}

fn anims_mention(l: &Vec<AnimateDef>, names: &Vec<&str>) -> (r: bool)
    ensures
        r == anims_use(l@, names_of(names@)),
{
    let mut i: usize = 0;
    while i < l.len()
        invariant
            i <= l@.len(),
            forall|k: int| 0 <= k < i ==> !anim_uses(#[trigger] l@[k], names_of(names@)),
        decreases l@.len() - i,
    {
        let a = &l[i];
        let delay = match &a.delay {
            Some(d) => match d {
                DelaySpec::Expr(e) => mentions(e.as_str(), names),
                DelaySpec::Fixed(_) => false,
            },
            None => false,
        };
        let from = match &a.from {
            Some(f) => match f {
                FromSpec::Expr(e) => mentions(e.as_str(), names),
                FromSpec::Fixed(_) => false,
            },
            None => false,
        };
        if delay || from {
            proof {
                assert(anim_uses(l@[i as int], names_of(names@)));
            }
            return true;
        }
        i += 1;
    }
    false
}

fn props_mention(l: &Vec<(String, String)>, names: &Vec<&str>) -> (r: bool)
    ensures
        r == props_use(l@, names_of(names@)),
{
    let mut i: usize = 0;
    while i < l.len()
        invariant
            i <= l@.len(),
            forall|k: int| 0 <= k < i ==> !expr_uses((#[trigger] l@[k]).1@, names_of(names@)),
        decreases l@.len() - i,
    {
        if mentions(l[i].1.as_str(), names) {
            proof {
                assert(expr_uses(l@[i as int].1@, names_of(names@)));
            }
            return true;
        }
        i += 1;
    }
    false
}

fn node_mentions(d: &NodeDef, names: &Vec<&str>) -> (r: bool)
    ensures
        r == node_uses(*d, names_of(names@)),
    decreases *d, 0nat,
{
    opt_mentions(&d.x, names) || opt_mentions(&d.y, names) || opt_mentions(&d.width, names)
        || opt_mentions(&d.height, names) || opt_mentions(&d.visible, names) || opt_mentions(
        &d.opacity,
        names,
    ) || opt_mentions(&d.rotation, names) || opt_mentions(&d.skew, names) || opt_mentions(
        &d.scale,
        names,
    ) || opt_mentions(&d.points, names) || props_mention(&d.props, names) || anims_mention(
        &d.animate,
        names,
    ) || nodes_mention(&d.children, names)
}

proof fn lemma_nodes_use(l: Vec<NodeDef>, k: nat, names: Seq<Seq<char>>)
    requires
        k <= l@.len(),
        nodes_use(l, k, names),
    ensures
        nodes_use(l, l@.len(), names),
    decreases l@.len() - k,
{
    if k < l@.len() {
        lemma_nodes_use(l, k + 1, names);
    }
}

fn nodes_mention(l: &Vec<NodeDef>, names: &Vec<&str>) -> (r: bool)
    ensures
        r == nodes_use(*l, l@.len(), names_of(names@)),
    decreases *l, l@.len(),
{
    let mut i: usize = 0;
    while i < l.len()
        invariant
            i <= l@.len(),
            !nodes_use(*l, i as nat, names_of(names@)),
        decreases l@.len() - i,
    {
        proof {
            assert(decreases_to!(*l => l@[i as int]));
        }
        if node_mentions(&l[i], names) {
            proof {
                lemma_nodes_use(*l, (i + 1) as nat, names_of(names@));
            }
            return true;
        }
        i += 1;
    }
    false
}

/// Whether a theme mentions one of the names anywhere.
pub fn theme_uses_token(t: &Theme, names: &Vec<&str>) -> (r: bool)
    ensures
        r == theme_uses(*t, names_of(names@)),
{
    if nodes_mention(&t.nodes, names) {
        return true;
    }
    let mut i: usize = 0;
    while i < t.components.len()
        invariant
            i <= t.components@.len(),
            !nodes_use(t.nodes, t.nodes@.len(), names_of(names@)),
            forall|k: int|
                0 <= k < i ==> !component_uses((#[trigger] t.components@[k]).1, names_of(names@)),
        decreases t.components@.len() - i,
    {
        let comp = &t.components[i].1;
        if nodes_mention(&comp.nodes, names) || anims_mention(&comp.animate, names) {
            proof {
                assert(component_uses(t.components@[i as int].1, names_of(names@)));
            }
            return true;
        }
        i += 1;
    }
    false
}

/// The name that makes a theme follow the clock.
pub open spec fn time_names() -> Seq<Seq<char>> {
    seq!["time"@]
}

/// The names that make a theme follow selection and typing impacts.
pub open spec fn impulse_names() -> Seq<Seq<char>> {
    seq!["hit"@, "hit_type"@, "since_select"@, "since_type"@, "shake"@, "type_shake"@]
}

/// Whether frames have to go on for the clock alone.
pub fn uses_time(t: &Theme) -> (r: bool)
    ensures
        r == theme_uses(*t, time_names()),
{
    let mut names: Vec<&str> = Vec::new();
    names.push("time");
    proof {
        assert(names_of(names@) =~= time_names());
    }
    theme_uses_token(t, &names)
}

/// Whether frames have to go on while an impact is felt.
pub fn uses_impulse(t: &Theme) -> (r: bool)
    ensures
        r == theme_uses(*t, impulse_names()),
{
    let mut names: Vec<&str> = Vec::new();
    names.push("hit");
    names.push("hit_type");
    names.push("since_select");
    names.push("since_type");
    names.push("shake");
    names.push("type_shake");
    proof {
        assert(names_of(names@) =~= impulse_names());
    }
    theme_uses_token(t, &names)
}

} // verus!
