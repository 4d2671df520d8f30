//! Where layout puts things.
use crate::ask::{answer_in, AskView, OutView, Topic};
use crate::binding::{eval_view, figure_view, local_value, pairs, truth_view, Scope};
use crate::layout::{
    child_view, flow_view, prop_figure, prop_or, shown_view, size_items, top_site, tree_view,
    FlowState, FlowView,
};
use crate::node::NodeView;
use crate::place::{
    assembled, base_items, figure2, figure_item, item_value, placed, prop_items, settled, solid,
    text_items, values, ItemView, SiteView,
};
use crate::theme::{AnimateDef, NodeDef, Theme};
use vstd::prelude::*;

verus! {

broadcast use vstd::std_specs::vec::group_vec_axioms;

/// What the caller answers to a question about two numbers, or zero.
pub open spec fn answer(topic: Topic, a: Seq<char>, b: Seq<char>, c: Scope) -> Seq<char> {
    match answer_in(c.answers.entries@, AskView { topic, a, b, c: Seq::empty() }) {
        Some(Some(t)) => t,
        _ => "0"@,
    }
}

/// The sum of two numbers, as the caller answers it.
pub open spec fn plus(a: Seq<char>, b: Seq<char>, c: Scope) -> Seq<char> {
    answer(Topic::Sum, a, b, c)
}

/// The number that a binding gives, or a default.
pub open spec fn number(e: Option<Seq<char>>, default: Seq<char>, c: Scope) -> Seq<char> {
    match e {
        None => default,
        Some(t) => match figure_view(t, c) {
            OutView::Done(Some(v), _) => v,
            _ => default,
        },
    }
}

pub open spec fn text_of(o: Option<String>) -> Option<Seq<char>> {
    match o {
        Some(s) => Some(s@),
        None => None,
    }
}

pub(crate) proof fn lemma_figure2(topic: Topic, a: Seq<char>, b: Seq<char>, c: Scope)
    requires
        figure2(topic, a, b, c) is Done,
    ensures
        figure2(topic, a, b, c)->Done_0 == answer(topic, a, b, c),
{
}

pub(crate) proof fn lemma_values(l: Seq<ItemView>, c: Scope)
    requires
        values(l, c) is Done,
    ensures
        values(l, c)->Done_0.len() == l.len(),
        forall|i: int|
            0 <= i < l.len() ==> item_value(#[trigger] l[i], c) is Done && item_value(l[i], c)->Done_0
                == values(l, c)->Done_0[i],
    decreases l.len(),
{
    if l.len() > 0 {
        let d = l.drop_last();
        lemma_values(d, c);
        assert forall|i: int| 0 <= i < l.len() implies item_value(#[trigger] l[i], c) is Done
            && item_value(l[i], c)->Done_0 == values(l, c)->Done_0[i] by {
            if i < d.len() {
                assert(d[i] == l[i]);
            }
        }
    }
}

pub(crate) proof fn lemma_number(o: Option<String>, default: Seq<char>, c: Scope)
    requires
        item_value(figure_item(o, default), c) is Done,
    ensures
        item_value(figure_item(o, default), c)->Done_0 == number(text_of(o), default, c),
{
}

// ---------------------------------------------------------------------------
// One node
// ---------------------------------------------------------------------------

/// A node stands at its own `x` and `y` from where it was put. What it does not
/// say has a default: a width of 100, a height of 40, no turn, no slant, its own
/// scale, and layer zero.
pub proof fn nodes_stand_where_they_say(
    d: NodeDef,
    anims: Seq<AnimateDef>,
    site: SiteView,
    c: Scope,
)
    requires
        placed(d, anims, site, c) is Done,
    ensures
        ({
            let n = placed(d, anims, site, c)->Done_0;
            &&& n.x == plus(site.x, number(text_of(d.x), "0"@, c), c)
            &&& n.y == plus(site.y, number(text_of(d.y), "0"@, c), c)
            &&& n.width == number(text_of(d.width), "100"@, c)
            &&& n.height == number(text_of(d.height), "40"@, c)
            &&& n.rotation == number(text_of(d.rotation), "0"@, c)
            &&& n.skew == number(text_of(d.skew), "0"@, c)
            &&& n.scale == number(text_of(d.scale), "1"@, c)
            &&& n.opacity == answer(
                Topic::Times,
                site.opacity,
                answer(Topic::Unit, number(text_of(d.opacity), "1"@, c), Seq::empty(), c),
                c,
            )
            &&& d.z matches Some(z) ==> n.z == z
            &&& d.z is None ==> n.z == 0
            &&& n.id == site.id
            &&& n.kind == d.kind@
            &&& n.clip == site.clip
            &&& n.index == site.index
        }),
{
    let v = settled(d, anims, c)->Done_0;
    assert(assembled(d, anims, v, site, c) is Done);
    let items = base_items(d);
    assert(values(items, c) is Done);
    lemma_values(items, c);
    let b = values(items, c)->Done_0;
    assert(v.base == b);
    assert(items[0] == figure_item(d.x, "0"@));
    assert(items[1] == figure_item(d.y, "0"@));
    assert(items[2] == figure_item(d.width, "100"@));
    assert(items[3] == figure_item(d.height, "40"@));
    assert(items[4] == figure_item(d.opacity, "1"@));
    assert(items[5] == figure_item(d.rotation, "0"@));
    assert(items[6] == figure_item(d.skew, "0"@));
    assert(items[7] == figure_item(d.scale, "1"@));
    lemma_number(d.x, "0"@, c);
    lemma_number(d.y, "0"@, c);
    lemma_number(d.width, "100"@, c);
    lemma_number(d.height, "40"@, c);
    lemma_number(d.opacity, "1"@, c);
    lemma_number(d.rotation, "0"@, c);
    lemma_number(d.skew, "0"@, c);
    lemma_number(d.scale, "1"@, c);
}

/// A node's text is what its binding gives, in capitals or small letters where
/// `text_case` asks for them.
pub proof fn nodes_show_their_text(d: NodeDef, anims: Seq<AnimateDef>, site: SiteView, c: Scope)
    requires
        placed(d, anims, site, c) is Done,
    ensures
        ({
            let n = placed(d, anims, site, c)->Done_0;
            &&& d.text is None ==> n.text is None
            &&& d.text matches Some(e) ==> (eval_view(e@, c) matches OutView::Done(t, _) && {
                let mode = local_value(n.props, "text_case"@);
                n.text == Some(
                    if mode == Some("upper"@) {
                        crate::text::upper_of(t)
                    } else if mode == Some("lower"@) {
                        crate::text::lower_of(t)
                    } else {
                        t
                    },
                )
            })
        }),
{
    reveal_strlit("upper");
    reveal_strlit("lower");
    let v = settled(d, anims, c)->Done_0;
    assert(assembled(d, anims, v, site, c) is Done);
    assert(values(text_items(d), c) is Done);
    lemma_values(text_items(d), c);
    if let Some(e) = d.text {
        assert(text_items(d)[0] == ItemView::Text(e@));
    }
}

/// A node has every property it was given, evaluated, under its name.
pub proof fn nodes_keep_their_properties(
    d: NodeDef,
    anims: Seq<AnimateDef>,
    site: SiteView,
    c: Scope,
    i: int,
)
    requires
        placed(d, anims, site, c) is Done,
        0 <= i < d.props@.len(),
    ensures
        ({
            let n = placed(d, anims, site, c)->Done_0;
            &&& i < n.props.len()
            &&& n.props[i].0 == d.props@[i].0@
            &&& eval_view(d.props@[i].1@, c) matches OutView::Done(t, _) && n.props[i].1 == t
        }),
{
    let v = settled(d, anims, c)->Done_0;
    assert(assembled(d, anims, v, site, c) is Done);
    let items = prop_items(d.props@);
    assert(values(items, c) is Done);
    lemma_values(items, c);
    assert(items[i] == ItemView::Text(d.props@[i].1@));
    assert(v.props == values(items, c)->Done_0);
}

/// A node is colored by `color`, and its ground by `background`, or by `fill`
/// where there is no `background`; its corners are round by `radius`.
pub proof fn nodes_have_their_colors(d: NodeDef, anims: Seq<AnimateDef>, site: SiteView, c: Scope)
    requires
        placed(d, anims, site, c) is Done,
    ensures
        ({
            let n = placed(d, anims, site, c)->Done_0;
            &&& local_value(n.props, "color"@) is None ==> n.color is None
            &&& local_value(n.props, "color"@) matches Some(t) ==> n.color == solid(t)
            &&& local_value(n.props, "background"@) matches Some(t) ==> n.background == solid(t)
            &&& local_value(n.props, "background"@) is None ==> (local_value(
                n.props,
                "fill"@,
            ) matches Some(t) ==> n.background == solid(t))
            &&& local_value(n.props, "background"@) is None && local_value(n.props, "fill"@) is None
                ==> n.background is None
            &&& local_value(n.props, "radius"@) matches Some(t) ==> (crate::scan::number_text(
                crate::text::trimmed(t),
            ) ==> n.radius == crate::text::trimmed(t))
            &&& local_value(n.props, "radius"@) is None ==> n.radius == "0"@
        }),
{
    let v = settled(d, anims, c)->Done_0;
    assert(assembled(d, anims, v, site, c) is Done);
}

// ---------------------------------------------------------------------------
// Containers
// ---------------------------------------------------------------------------

/// A node that is one rectangle, text or the like: always seen, without children
/// and no repeater.
pub open spec fn leaf(d: NodeDef) -> bool {
    d.visible is None && d.children@.len() == 0 && d.kind@ != "Repeater"@
}

/// The nodes of a flow of leaves, the places they were given and the next place.
pub open spec fn flows_so(
    l: Seq<NodeDef>,
    k: nat,
    f: FlowView,
    s: FlowState,
    px: Seq<Seq<char>>,
    py: Seq<Seq<char>>,
    c: Scope,
) -> bool {
    &&& s.nodes.len() == k
    &&& px.len() == k + 1
    &&& py.len() == k + 1
    &&& px[0] == "0"@
    &&& py[0] == "0"@
    &&& forall|i: int|
        0 <= i < k ==> {
            let n = #[trigger] s.nodes[i];
            &&& n.id == l[i].id@
            &&& n.x == plus(plus(f.x, px[i], c), number(text_of(l[i].x), "0"@, c), c)
            &&& n.y == plus(plus(f.y, py[i], c), number(text_of(l[i].y), "0"@, c), c)
            &&& n.width == number(text_of(l[i].width), "100"@, c)
            &&& n.height == number(text_of(l[i].height), "40"@, c)
            &&& px[i + 1] == (if f.layout == "row"@ {
                plus(px[i], plus(n.width, f.gap, c), c)
            } else {
                px[i]
            })
            &&& py[i + 1] == (if f.layout == "column"@ {
                plus(py[i], plus(n.height, f.gap, c), c)
            } else {
                py[i]
            })
        }
}

proof fn lemma_child_step(d: NodeDef, x: Seq<char>, y: Seq<char>, f: FlowView, t: Theme, c: Scope)
    requires
        leaf(d),
        child_view(d, x, y, f, t, c) is Done,
    ensures
        ({
            let u = child_view(d, x, y, f, t, c)->Done_0;
            let n = u.nodes[0];
            let flows = f.layout == "column"@ || f.layout == "row"@;
            &&& u.nodes.len() == 1
            &&& n.id == d.id@
            &&& n.width == number(text_of(d.width), "100"@, c)
            &&& n.height == number(text_of(d.height), "40"@, c)
            &&& flows ==> n.x == plus(plus(f.x, x, c), number(text_of(d.x), "0"@, c), c)
            &&& flows ==> n.y == plus(plus(f.y, y, c), number(text_of(d.y), "0"@, c), c)
            &&& !flows ==> n.x == plus(plus(f.x, "0"@, c), number(text_of(d.x), "0"@, c), c)
            &&& !flows ==> n.y == plus(plus(f.y, "0"@, c), number(text_of(d.y), "0"@, c), c)
            &&& f.layout == "row"@ ==> u.x == plus(x, plus(n.width, f.gap, c), c) && u.y == y
            &&& f.layout == "column"@ ==> u.y == plus(y, plus(n.height, f.gap, c), c) && u.x == x
        }),
{
    reveal_strlit("row");
    reveal_strlit("column");
    assert("row"@.len() == 3 && "column"@.len() == 6);
    let flows = f.layout == "column"@ || f.layout == "row"@;
    let dx = if flows {
        x
    } else {
        "0"@
    };
    let dy = if flows {
        y
    } else {
        "0"@
    };
    let left = figure2(Topic::Sum, f.x, dx, c)->Done_0;
    let top = figure2(Topic::Sum, f.y, dy, c)->Done_0;
    let site = top_site(d, left, top, f.opacity);
    let n = placed(d, d.animate@, site, c)->Done_0;
    assert(tree_view(d, t, left, top, f.opacity, c) is Done);
    assert(placed(d, d.animate@, site, c) is Done);
    assert(child_view(d, x, y, f, t, c)->Done_0.nodes == seq![n]);
    nodes_stand_where_they_say(d, d.animate@, site, c);
    let items = size_items(d);
    lemma_values(items, c);
    assert(items[0] == figure_item(d.width, "100"@));
    assert(items[1] == figure_item(d.height, "40"@));
    lemma_number(d.width, "100"@, c);
    lemma_number(d.height, "40"@, c);
}

proof fn lemma_flow(l: Vec<NodeDef>, k: nat, f: FlowView, t: Theme, c: Scope) -> (p: (
    Seq<Seq<char>>,
    Seq<Seq<char>>,
))
    requires
        k <= l@.len(),
        flow_view(l, k, f, t, c) is Done,
        forall|i: int| 0 <= i < k ==> leaf(#[trigger] l@[i]),
    ensures
        flows_so(l@, k, f, flow_view(l, k, f, t, c)->Done_0, p.0, p.1, c),
        f.layout == "row"@ || f.layout == "column"@ ==> p.0[k as int] == flow_view(
            l,
            k,
            f,
            t,
            c,
        )->Done_0.x && p.1[k as int] == flow_view(l, k, f, t, c)->Done_0.y,
    decreases k,
{
    reveal_strlit("row");
    reveal_strlit("column");
    if k == 0 {
        let p = seq!["0"@];
        assert(flows_so(l@, 0, f, flow_view(l, 0, f, t, c)->Done_0, p, p, c));
        (p, p)
    } else {
        let j = (k - 1) as nat;
        let (px, py) = lemma_flow(l, j, f, t, c);
        let s = flow_view(l, j, f, t, c)->Done_0;
        let d = l@[j as int];
        assert(leaf(l@[j as int]));
        let u = child_view(d, s.x, s.y, f, t, c)->Done_0;
        let all = flow_view(l, k, f, t, c)->Done_0;
        assert(child_view(d, s.x, s.y, f, t, c) is Done);
        assert(all == FlowState { nodes: s.nodes + u.nodes, x: u.x, y: u.y });
        let flows = f.layout == "column"@ || f.layout == "row"@;
        lemma_child_step(d, s.x, s.y, f, t, c);
        let n = u.nodes[0];
        let nx = if f.layout == "row"@ {
            plus(px[j as int], plus(n.width, f.gap, c), c)
        } else {
            px[j as int]
        };
        let ny = if f.layout == "column"@ {
            plus(py[j as int], plus(n.height, f.gap, c), c)
        } else {
            py[j as int]
        };
        let qx = px.push(nx);
        let qy = py.push(ny);
        if !flows {
            lemma_free(l, j, f, t, c, px, py);
        }
        assert forall|i: int| 0 <= i < k implies {
            let n = #[trigger] all.nodes[i];
            &&& n.id == l@[i].id@
            &&& n.x == plus(plus(f.x, qx[i], c), number(text_of(l@[i].x), "0"@, c), c)
            &&& n.y == plus(plus(f.y, qy[i], c), number(text_of(l@[i].y), "0"@, c), c)
            &&& n.width == number(text_of(l@[i].width), "100"@, c)
            &&& n.height == number(text_of(l@[i].height), "40"@, c)
            &&& qx[i + 1] == (if f.layout == "row"@ {
                plus(qx[i], plus(n.width, f.gap, c), c)
            } else {
                qx[i]
            })
            &&& qy[i + 1] == (if f.layout == "column"@ {
                plus(qy[i], plus(n.height, f.gap, c), c)
            } else {
                qy[i]
            })
        } by {
            if i < j {
                assert(all.nodes[i] == s.nodes[i]);
                assert(qx[i] == px[i] && qx[i + 1] == px[i + 1]);
                assert(qy[i] == py[i] && qy[i + 1] == py[i + 1]);
            } else {
                assert(all.nodes[i] == n);
            }
        }
        (qx, qy)
    }
}

/// Without a flow the next place stays where the first was.
proof fn lemma_free(
    l: Vec<NodeDef>,
    k: nat,
    f: FlowView,
    t: Theme,
    c: Scope,
    px: Seq<Seq<char>>,
    py: Seq<Seq<char>>,
)
    requires
        k <= l@.len(),
        f.layout != "row"@,
        f.layout != "column"@,
        flows_so(l@, k, f, flow_view(l, k, f, t, c)->Done_0, px, py, c),
    ensures
        px[k as int] == "0"@,
        py[k as int] == "0"@,
{
    let s = flow_view(l, k, f, t, c)->Done_0;
    lemma_stays(s, l@, k, f, px, py, c, k as int);
}

proof fn lemma_stays(
    s: FlowState,
    l: Seq<NodeDef>,
    k: nat,
    f: FlowView,
    px: Seq<Seq<char>>,
    py: Seq<Seq<char>>,
    c: Scope,
    i: int,
)
    requires
        0 <= i <= k,
        f.layout != "row"@,
        f.layout != "column"@,
        flows_so(l, k, f, s, px, py, c),
    ensures
        px[i] == "0"@,
        py[i] == "0"@,
    decreases i,
{
    if i > 0 {
        lemma_stays(s, l, k, f, px, py, c, i - 1);
        assert(s.nodes[i - 1].id == l[i - 1].id@);
    }
}

/// How the children of a container follow each other. Child `i` is offered the
/// place `px[i]`, `py[i]` behind the container's own, the first one none. In a row
/// the next place is further right by the child's width and the gap, at the same
/// height; in a column it is further down by the child's height and the gap, at the
/// same left edge; with any other layout every child is offered the same place. The
/// gap is 8 unless the container says otherwise.
pub proof fn children_follow_each_other(
    d: NodeDef,
    t: Theme,
    x: Seq<char>,
    y: Seq<char>,
    above: Seq<char>,
    c: Scope,
) -> (p: (Seq<Seq<char>>, Seq<Seq<char>>))
    requires
        d.visible is None,
        d.kind@ != "Repeater"@,
        d.children@.len() > 0,
        forall|i: int| 0 <= i < d.children@.len() ==> leaf(#[trigger] d.children@[i]),
        tree_view(d, t, x, y, above, c) is Done,
    ensures
        ({
            let l = tree_view(d, t, x, y, above, c)->Done_0;
            let n = d.children@.len() as int;
            let layout = local_value(pairs(d.props@), "layout"@);
            let gap = number(local_value(pairs(d.props@), "gap"@), "8"@, c);
            &&& l.len() == n + 1
            &&& l[0].id == d.id@
            &&& l[0].x == plus(x, number(text_of(d.x), "0"@, c), c)
            &&& l[0].y == plus(y, number(text_of(d.y), "0"@, c), c)
            &&& p.0.len() == n + 1
            &&& p.1.len() == n + 1
            &&& p.0[0] == "0"@
            &&& p.1[0] == "0"@
            &&& forall|i: int|
                0 <= i < n ==> {
                    let e = #[trigger] d.children@[i];
                    let m = l[i + 1];
                    &&& m.id == e.id@
                    &&& m.width == number(text_of(e.width), "100"@, c)
                    &&& m.height == number(text_of(e.height), "40"@, c)
                    &&& m.x == plus(plus(l[0].x, p.0[i], c), number(text_of(e.x), "0"@, c), c)
                    &&& m.y == plus(plus(l[0].y, p.1[i], c), number(text_of(e.y), "0"@, c), c)
                    &&& layout == Some("row"@) ==> p.0[i + 1] == plus(p.0[i], plus(m.width, gap, c), c)
                        && p.1[i + 1] == p.1[i]
                    &&& layout == Some("column"@) ==> p.1[i + 1] == plus(
                        p.1[i],
                        plus(m.height, gap, c),
                        c,
                    ) && p.0[i + 1] == p.0[i]
                    &&& layout != Some("row"@) && layout != Some("column"@) ==> p.0[i + 1] == p.0[i]
                        && p.1[i + 1] == p.1[i]
                }
        }),
{
    reveal_strlit("row");
    reveal_strlit("column");
    reveal_strlit("free");
    let node = placed(d, d.animate@, top_site(d, x, y, above), c)->Done_0;
    assert(placed(d, d.animate@, top_site(d, x, y, above), c) is Done);
    nodes_stand_where_they_say(d, d.animate@, top_site(d, x, y, above), c);
    let items = seq![prop_figure(d, "gap"@, "8"@)];
    assert(values(items, c) is Done);
    lemma_values(items, c);
    assert(items[0] == prop_figure(d, "gap"@, "8"@));
    let g = values(items, c)->Done_0;
    let f = FlowView {
        layout: prop_or(d, "layout"@, "free"@),
        gap: g[0],
        x: node.x,
        y: node.y,
        opacity: node.opacity,
    };
    assert(flow_view(d.children, d.children@.len(), f, t, c) is Done);
    let p = lemma_flow(d.children, d.children@.len(), f, t, c);
    let s = flow_view(d.children, d.children@.len(), f, t, c)->Done_0;
    let l = tree_view(d, t, x, y, above, c)->Done_0;
    assert(l == seq![node] + s.nodes);
    assert("row"@.len() == 3 && "column"@.len() == 6 && "free"@.len() == 4);
    assert forall|i: int| 0 <= i < d.children@.len() implies l[i + 1] == s.nodes[i] && (
    #[trigger] d.children@[i]).id@ == s.nodes[i].id by {
        assert(l[i + 1] == s.nodes[i]);
    }
    p
}

/// The nodes of `d` with all that belongs to it, put at `x`, `y` and below the opacity
/// `above`.
#[verifier::opaque]
pub open spec fn is_subtree(
    nodes: Seq<NodeView>,
    d: NodeDef,
    t: Theme,
    x: Seq<char>,
    y: Seq<char>,
    above: Seq<char>,
    c: Scope,
) -> bool {
    tree_view(d, t, x, y, above, c) matches OutView::Done(l, _) && l == nodes
}

/// One child of any kind: its nodes and the next place.
proof fn lemma_any_child(d: NodeDef, x: Seq<char>, y: Seq<char>, f: FlowView, t: Theme, c: Scope)
    requires
        child_view(d, x, y, f, t, c) is Done,
    ensures
        ({
            let u = child_view(d, x, y, f, t, c)->Done_0;
            &&& f.layout == "row"@ || f.layout == "column"@ ==> is_subtree(
                u.nodes,
                d,
                t,
                plus(f.x, x, c),
                plus(f.y, y, c),
                f.opacity,
                c,
            )
            &&& f.layout == "row"@ ==> u.x == plus(
                x,
                plus(number(text_of(d.width), "100"@, c), f.gap, c),
                c,
            ) && u.y == y
            &&& f.layout == "column"@ ==> u.y == plus(
                y,
                plus(number(text_of(d.height), "40"@, c), f.gap, c),
                c,
            ) && u.x == x
        }),
{
    reveal(is_subtree);
    reveal_strlit("row");
    reveal_strlit("column");
    assert("row"@.len() == 3 && "column"@.len() == 6);
    let items = size_items(d);
    assert(values(items, c) is Done);
    lemma_values(items, c);
    assert(items[0] == figure_item(d.width, "100"@));
    assert(items[1] == figure_item(d.height, "40"@));
    lemma_number(d.width, "100"@, c);
    lemma_number(d.height, "40"@, c);
}

/// Two neighbours in a row or a column, whatever they are and whether they are seen or
/// not: in a row the second is put further right by the width of the first and the gap,
/// at the same height; in a column further down by the height of the first and the gap,
/// at the same left edge. `first` and `second` are what they expand to, and `state` is
/// what the children in front of them left.
pub proof fn neighbours_follow_each_other(
    l: Vec<NodeDef>,
    k: nat,
    f: FlowView,
    t: Theme,
    c: Scope,
) -> (r: (Seq<NodeView>, Seq<NodeView>, FlowState))
    requires
        k + 2 <= l@.len(),
        f.layout == "row"@ || f.layout == "column"@,
        flow_view(l, k + 2, f, t, c) is Done,
    ensures
        ({
            let (first, second, state) = r;
            let a = l@[k as int];
            let b = l@[k as int + 1];
            let x = if f.layout == "row"@ {
                plus(state.x, plus(number(text_of(a.width), "100"@, c), f.gap, c), c)
            } else {
                state.x
            };
            let y = if f.layout == "row"@ {
                state.y
            } else {
                plus(state.y, plus(number(text_of(a.height), "40"@, c), f.gap, c), c)
            };
            &&& k == 0 ==> state.x == "0"@ && state.y == "0"@ && state.nodes.len() == 0
            &&& is_subtree(first, a, t, plus(f.x, state.x, c), plus(f.y, state.y, c), f.opacity, c)
            &&& is_subtree(second, b, t, plus(f.x, x, c), plus(f.y, y, c), f.opacity, c)
            &&& flow_view(l, k + 2, f, t, c)->Done_0.nodes == state.nodes + first + second
        }),
{
    broadcast use vstd::std_specs::vec::group_vec_axioms;

    reveal_strlit("row");
    reveal_strlit("column");
    assert("row"@.len() == 3 && "column"@.len() == 6);
    let two = flow_view(l, k + 2, f, t, c)->Done_0;
    let one = flow_view(l, k + 1, f, t, c)->Done_0;
    let state = flow_view(l, k, f, t, c)->Done_0;
    assert(flow_view(l, k + 1, f, t, c) is Done);
    assert(flow_view(l, k, f, t, c) is Done);
    let a = l@[k as int];
    let b = l@[k as int + 1];
    let u = child_view(a, state.x, state.y, f, t, c)->Done_0;
    let v = child_view(b, one.x, one.y, f, t, c)->Done_0;
    assert(child_view(a, state.x, state.y, f, t, c) is Done);
    assert(child_view(b, one.x, one.y, f, t, c) is Done);
    assert(one == FlowState { nodes: state.nodes + u.nodes, x: u.x, y: u.y });
    assert(two == FlowState { nodes: one.nodes + v.nodes, x: v.x, y: v.y });
    lemma_any_child(a, state.x, state.y, f, t, c);
    lemma_any_child(b, one.x, one.y, f, t, c);
    (u.nodes, v.nodes, state)
}

/// A node without `visible` is seen; one with it is seen where the binding is true, and
/// where it says nothing.
pub proof fn nodes_are_seen_unless_hidden(d: NodeDef, label: Seq<char>, c: Scope, v: bool, n: Seq<Seq<char>>)
    ensures
        d.visible is None ==> (shown_view(d, label, c) matches OutView::Done(s, _) && s),
        d.visible matches Some(e) ==> truth_view(e@, c, true) == OutView::Done(v, n) ==> (shown_view(
            d,
            label,
            c,
        ) matches OutView::Done(s, _) && s == v),
{
}

/// The letter case of a node is a property of it, unless it has that property already.
pub proof fn letter_case_is_a_property(d: NodeDef, anims: Seq<AnimateDef>, site: SiteView, c: Scope)
    requires
        placed(d, anims, site, c) is Done,
        d.text_case is Some,
        forall|i: int| 0 <= i < d.props@.len() ==> (#[trigger] d.props@[i]).0@ != "text_case"@,
    ensures
        local_value(placed(d, anims, site, c)->Done_0.props, "text_case"@) == Some(d.text_case->0@),
{
    let v = settled(d, anims, c)->Done_0;
    assert(assembled(d, anims, v, site, c) is Done);
    let n = placed(d, anims, site, c)->Done_0;
    let l = Seq::new(d.props@.len(), |i: int| (d.props@[i].0@, v.props[i]));
    assert forall|i: int| 0 <= i < l.len() implies (#[trigger] l[i]).0 != "text_case"@ by {
        assert(d.props@[i].0@ != "text_case"@);
    }
    lemma_unnamed_local(l, "text_case"@, d.text_case->0@);
    assert(n.props == l.push(("text_case"@, d.text_case->0@)));
}

proof fn lemma_unnamed_local(l: Seq<(Seq<char>, Seq<char>)>, name: Seq<char>, v: Seq<char>)
    requires
        forall|i: int| 0 <= i < l.len() ==> (#[trigger] l[i]).0 != name,
    ensures
        local_value(l, name) is None,
        local_value(l.push((name, v)), name) == Some(v),
    decreases l.len(),
{
    let w = l.push((name, v));
    if l.len() > 0 {
        assert(l[0].0 != name);
        let t = l.skip(1);
        assert forall|i: int| 0 <= i < t.len() implies (#[trigger] t[i]).0 != name by {
            assert(t[i] == l[i + 1]);
        }
        lemma_unnamed_local(t, name, v);
        assert(w.skip(1) =~= t.push((name, v)));
        assert(w[0] == l[0]);
    }
}

/// A gradient is no color.
pub proof fn gradients_are_no_colors(rest: Seq<char>)
    requires
        crate::text_laws::tight("linear-gradient"@ + rest),
    ensures
        solid("linear-gradient"@ + rest) is None,
{
    let s = "linear-gradient"@ + rest;
    crate::text_laws::tight_texts_stay(s);
    assert(s.take("linear-gradient"@.len() as int) =~= "linear-gradient"@);
}

/// A text that is no gradient has the color that it names.
pub proof fn colors_are_named(s: Seq<char>)
    requires
        crate::text_laws::tight(s),
        !crate::text::has_prefix(s, "linear-gradient"@),
        !crate::text::has_prefix(s, "radial-gradient"@),
    ensures
        solid(s) == crate::color::color_of(s),
{
    crate::text_laws::tight_texts_stay(s);
}

} // verus!
