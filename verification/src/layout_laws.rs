//! Laws of layout: layers, visibility, opacity, and what questions may change.
use crate::ask::{answer_in, AskView, OutView, Relation, Topic};
use crate::binding::Scope;
use crate::layout::{
    advanced, band_items, band_view, child_view, clip_of, count_view, delegate_view, delegates_view,
    flow_view, forest_view, layer_keys, layered, list_offset, locals_view, offset_of,
    overlaps_band, over_results, pitch, prop_figure, prop_or, relates, repeater_view, resolved,
    rest_of, row_view, rows_view, shown_view, size_items, top_site, tree_view, view_items,
    BandView, FlowView, RowView,
};
use crate::node::NodeView;
use crate::order::{goes_before, ranking, ranking_exists, ranking_is_permutation};
use crate::place::{
    action_items, action_of, anim_items, assembled, baked, base_items, dimmed, figure2, kept_points,
    natural, placed, point_items, prop_items, settled, text_items, values, ItemView, Settled,
    SiteView,
};
use crate::stability::{keeps, knows_more, lemma_ask, lemma_eval, lemma_figure, lemma_truth};
use crate::text::decimal;
use crate::theme::{component_of, AnimateDef, ComponentDef, NodeDef, Theme};
use vstd::prelude::*;

verus! {

broadcast use vstd::std_specs::vec::group_vec_axioms;

// ---------------------------------------------------------------------------
// Layers and visibility
// ---------------------------------------------------------------------------

/// Lower layers come first, and within a layer the document order stays.
pub proof fn layers_are_stable(l: Seq<NodeView>)
    ensures
        layered(l).len() == l.len(),
        forall|i: int, j: int|
            0 <= i < j < layered(l).len() ==> (#[trigger] layered(l)[i]).z <= (#[trigger] layered(
                l,
            )[j]).z,
        forall|i: int| 0 <= i < l.len() ==> layered(l).contains(#[trigger] l[i]),
        forall|i: int, j: int|
            0 <= i < j < l.len() && (#[trigger] l[i]).z == (#[trigger] l[j]).z
                ==> crate::freq::sorted_before(ranking(layer_keys(l)), i, j),
{
    let keys = layer_keys(l);
    let rank = ranking(keys);
    ranking_exists(keys);
    ranking_is_permutation(keys, rank);
    let r = layered(l);
    assert forall|i: int, j: int| 0 <= i < j < r.len() implies (#[trigger] r[i]).z <= (#[trigger] r[j]).z by {
        assert(goes_before(keys, rank[i], rank[j]));
        assert(r[i] == l[rank[i]] && r[j] == l[rank[j]]);
    }
    assert forall|i: int| 0 <= i < l.len() implies r.contains(#[trigger] l[i]) by {
        assert(rank.contains(i));
        let a = choose|a: int| 0 <= a < rank.len() && rank[a] == i;
        assert(r[a] == l[i]);
    }
    assert forall|i: int, j: int| 0 <= i < j < l.len() && (#[trigger] l[i]).z == (#[trigger] l[j]).z
        implies crate::freq::sorted_before(rank, i, j) by {
        assert(rank.contains(i) && rank.contains(j));
        let a = choose|a: int| 0 <= a < rank.len() && rank[a] == i;
        let b = choose|b: int| 0 <= b < rank.len() && rank[b] == j;
        if b <= a {
            if b < a {
                assert(goes_before(keys, rank[b], rank[a]));
            }
            assert(false);
        }
        assert(rank[a] == i && rank[b] == j);
    }
}

/// A node that is not visible is skipped with all that belongs to it.
pub proof fn invisible_trees_are_skipped(
    d: NodeDef,
    t: Theme,
    x: Seq<char>,
    y: Seq<char>,
    above: Seq<char>,
    c: Scope,
)
    requires
        shown_view(d, d.id@, c) matches OutView::Done(v, _) && !v,
    ensures
        tree_view(d, t, x, y, above, c) matches OutView::Done(l, _) && l.len() == 0,
{
}

/// A repeater without instances adds nothing.
pub proof fn empty_repeaters_add_nothing(
    d: NodeDef,
    t: Theme,
    x: Seq<char>,
    y: Seq<char>,
    above: Seq<char>,
    c: Scope,
)
    requires
        component_of(t.components@, crate::text::or_default(d.delegate, Seq::empty())) is Some,
        count_view(d, c) matches OutView::Done(n, _) && n == 0,
    ensures
        repeater_view(d, t, x, y, above, c) matches OutView::Done(l, _) && l.len() == 0,
{
}

// ---------------------------------------------------------------------------
// Opacity
// ---------------------------------------------------------------------------

/// The node has the opacity that the bindings of `d` give, times the one above it.
pub open spec fn has_opacity(
    n: NodeView,
    d: NodeDef,
    anims: Seq<AnimateDef>,
    above: Seq<char>,
    c: Scope,
) -> bool {
    settled(d, anims, c) matches OutView::Done(v, _) && (dimmed(above, v.base[4], c) matches OutView::Done(
        o,
        _,
    ) && n.opacity == o)
}

/// `part` stands somewhere in `whole`, in one piece.
pub open spec fn part_of(part: Seq<NodeView>, whole: Seq<NodeView>) -> bool {
    exists|i: int|
        0 <= i && i + part.len() <= whole.len() && #[trigger] whole.subrange(i, i + part.len()) == part
}

proof fn lemma_part_of_longer(part: Seq<NodeView>, whole: Seq<NodeView>, more: Seq<NodeView>)
    requires
        part_of(part, whole),
    ensures
        part_of(part, whole + more),
{
    let i = choose|i: int|
        0 <= i && i + part.len() <= whole.len() && #[trigger] whole.subrange(i, i + part.len()) == part;
    assert((whole + more).subrange(i, i + part.len()) =~= part);
}

proof fn lemma_part_behind(part: Seq<NodeView>, front: Seq<NodeView>, whole: Seq<NodeView>)
    requires
        part_of(part, whole),
    ensures
        part_of(part, front + whole),
{
    let i = choose|i: int|
        0 <= i && i + part.len() <= whole.len() && #[trigger] whole.subrange(i, i + part.len()) == part;
    let j = i + front.len();
    assert((front + whole).subrange(j, j + part.len()) =~= part);
}

proof fn lemma_part_last(part: Seq<NodeView>, front: Seq<NodeView>)
    ensures
        part_of(part, front + part),
{
    let j = front.len() as int;
    assert((front + part).subrange(j, j + part.len()) =~= part);
}

/// The nodes of `d`, laid out below the opacity `above`, are part of `l`.
pub open spec fn lies_below(d: NodeDef, t: Theme, above: Seq<char>, l: Seq<NodeView>, c: Scope) -> bool {
    exists|x: Seq<char>, y: Seq<char>|
        #[trigger] tree_view(d, t, x, y, above, c) matches OutView::Done(m, _) && part_of(m, l)
}

proof fn lemma_flow_below(l: Vec<NodeDef>, n: nat, f: FlowView, t: Theme, c: Scope, k: int)
    requires
        n <= l@.len(),
        0 <= k < n,
        flow_view(l, n, f, t, c) is Done,
    ensures
        lies_below(l@[k], t, f.opacity, flow_view(l, n, f, t, c)->Done_0.nodes, c),
    decreases n,
{
    let s = flow_view(l, (n - 1) as nat, f, t, c)->Done_0;
    let u = child_view(l@[n - 1], s.x, s.y, f, t, c)->Done_0;
    let m = u.nodes;
    assert(flow_view(l, n, f, t, c)->Done_0.nodes == s.nodes + m);
    if k == n - 1 {
        let flows = f.layout == "column"@ || f.layout == "row"@;
        let dx = if flows {
            s.x
        } else {
            "0"@
        };
        let dy = if flows {
            s.y
        } else {
            "0"@
        };
        let x = figure2(Topic::Sum, f.x, dx, c)->Done_0;
        let y = figure2(Topic::Sum, f.y, dy, c)->Done_0;
        assert(tree_view(l@[n - 1], t, x, y, f.opacity, c)->Done_0 == m);
        lemma_part_last(m, s.nodes);
    } else {
        lemma_flow_below(l, (n - 1) as nat, f, t, c, k);
        let (x0, y0) = choose|x: Seq<char>, y: Seq<char>|
            #[trigger] tree_view(l@[k], t, x, y, f.opacity, c) matches OutView::Done(m0, _) && part_of(
                m0,
                s.nodes,
            );
        lemma_part_of_longer(tree_view(l@[k], t, x0, y0, f.opacity, c)->Done_0, s.nodes, m);
    }
}

/// Opacity multiplies down the tree: a node has its own opacity, brought into
/// zero to one, times the one above it, and its children lie below the product.
pub proof fn opacity_multiplies_down(
    d: NodeDef,
    t: Theme,
    x: Seq<char>,
    y: Seq<char>,
    above: Seq<char>,
    c: Scope,
)
    requires
        d.kind@ != "Repeater"@,
        tree_view(d, t, x, y, above, c) matches OutView::Done(l, _) && l.len() > 0,
    ensures
        ({
            let l = tree_view(d, t, x, y, above, c)->Done_0;
            &&& has_opacity(l[0], d, d.animate@, above, c)
            &&& forall|k: int|
                0 <= k < d.children@.len() ==> lies_below(
                    #[trigger] d.children@[k],
                    t,
                    l[0].opacity,
                    l,
                    c,
                )
        }),
{
    let l = tree_view(d, t, x, y, above, c)->Done_0;
    let node = placed(d, d.animate@, top_site(d, x, y, above), c)->Done_0;
    assert(l[0] == node);
    if d.children@.len() > 0 {
        let g = values(seq![prop_figure(d, "gap"@, "8"@)], c)->Done_0;
        let f = FlowView {
            layout: prop_or(d, "layout"@, "free"@),
            gap: g[0],
            x: node.x,
            y: node.y,
            opacity: node.opacity,
        };
        let s = flow_view(d.children, d.children@.len(), f, t, c)->Done_0;
        assert(l == seq![node] + s.nodes);
        assert forall|k: int| 0 <= k < d.children@.len() implies lies_below(
            #[trigger] d.children@[k],
            t,
            l[0].opacity,
            l,
            c,
        ) by {
            lemma_flow_below(d.children, d.children@.len(), f, t, c, k);
            let (x0, y0) = choose|x: Seq<char>, y: Seq<char>|
                #[trigger] tree_view(d.children@[k], t, x, y, f.opacity, c) matches OutView::Done(m, _)
                    && part_of(m, s.nodes);
            lemma_part_behind(
                tree_view(d.children@[k], t, x0, y0, f.opacity, c)->Done_0,
                seq![node],
                s.nodes,
            );
        }
    }
}

/// The nodes of delegate `d`, laid out below the opacity `above`, are part of `l`.
pub open spec fn delegate_below(
    d: NodeDef,
    x: Seq<char>,
    y: Seq<char>,
    above: Seq<char>,
    row: RowView,
    l: Seq<NodeView>,
    c: Scope,
) -> bool {
    delegate_view(d, x, y, above, row, c) matches OutView::Done(m, _) && part_of(m, l)
}

proof fn lemma_delegates_below(
    l: Vec<NodeDef>,
    n: nat,
    x: Seq<char>,
    y: Seq<char>,
    above: Seq<char>,
    row: RowView,
    c: Scope,
    k: int,
)
    requires
        n <= l@.len(),
        0 <= k < n,
        delegates_view(l, n, x, y, above, row, c) is Done,
    ensures
        delegate_below(
            l@[k],
            x,
            y,
            above,
            row,
            delegates_view(l, n, x, y, above, row, c)->Done_0,
            c,
        ),
    decreases n,
{
    let head = delegates_view(l, (n - 1) as nat, x, y, above, row, c)->Done_0;
    let tail = delegate_view(l@[n - 1], x, y, above, row, c)->Done_0;
    if k == n - 1 {
        lemma_part_last(tail, head);
    } else {
        lemma_delegates_below(l, (n - 1) as nat, x, y, above, row, c, k);
        lemma_part_of_longer(delegate_view(l@[k], x, y, above, row, c)->Done_0, head, tail);
    }
}

/// Opacity multiplies down the nodes of a repeater instance too.
pub proof fn opacity_multiplies_in_delegates(
    d: NodeDef,
    x: Seq<char>,
    y: Seq<char>,
    above: Seq<char>,
    row: RowView,
    c: Scope,
)
    requires
        delegate_view(d, x, y, above, row, c) matches OutView::Done(l, _) && l.len() > 0,
    ensures
        ({
            let l = delegate_view(d, x, y, above, row, c)->Done_0;
            &&& has_opacity(l[0], d, d.animate@ + row.animate, above, c)
            &&& forall|k: int|
                0 <= k < d.children@.len() ==> delegate_below(
                    #[trigger] d.children@[k],
                    l[0].x,
                    l[0].y,
                    l[0].opacity,
                    row,
                    l,
                    c,
                )
        }),
{
    let l = delegate_view(d, x, y, above, row, c)->Done_0;
    let label = d.id@ + row.suffix;
    let site = SiteView {
        label,
        id: label,
        x,
        y,
        opacity: above,
        index: Some(row.index),
        clip: row.clip,
    };
    let node = placed(d, d.animate@ + row.animate, site, c)->Done_0;
    let rest = delegates_view(
        d.children,
        d.children@.len(),
        node.x,
        node.y,
        node.opacity,
        row,
        c,
    )->Done_0;
    assert(l == seq![node] + rest);
    assert(l[0] == node);
    assert forall|k: int| 0 <= k < d.children@.len() implies delegate_below(
        #[trigger] d.children@[k],
        node.x,
        node.y,
        node.opacity,
        row,
        l,
        c,
    ) by {
        lemma_delegates_below(
            d.children,
            d.children@.len(),
            node.x,
            node.y,
            node.opacity,
            row,
            c,
            k,
        );
        lemma_part_behind(
            delegate_view(d.children@[k], node.x, node.y, node.opacity, row, c)->Done_0,
            seq![node],
            rest,
        );
    }
}

// ---------------------------------------------------------------------------
// Questions
// ---------------------------------------------------------------------------

proof fn lemma_figure2(a: Scope, b: Scope, topic: Topic, x: Seq<char>, y: Seq<char>)
    requires
        knows_more(a, b),
    ensures
        keeps(a, figure2(topic, x, y, a), figure2(topic, x, y, b)),
{
    lemma_ask(a, b, AskView { topic, a: x, b: y, c: Seq::empty() });
}

proof fn lemma_natural(a: Scope, b: Scope, x: Seq<char>)
    requires
        knows_more(a, b),
    ensures
        keeps(a, natural(x, a), natural(x, b)),
{
    lemma_figure2(a, b, Topic::Natural, x, Seq::empty());
}

proof fn lemma_values(l: Seq<ItemView>, a: Scope, b: Scope)
    requires
        knows_more(a, b),
    ensures
        keeps(a, values(l, a), values(l, b)),
    decreases l.len(),
{
    if l.len() > 0 {
        lemma_values(l.drop_last(), a, b);
        match l.last() {
            ItemView::Fixed(_) => {},
            ItemView::Figure(e, _) => {
                lemma_figure(e, a, b);
            },
            ItemView::Text(e) => {
                lemma_eval(e, a, b);
            },
        }
    }
}

proof fn lemma_settled(d: NodeDef, anims: Seq<AnimateDef>, a: Scope, b: Scope)
    requires
        knows_more(a, b),
    ensures
        keeps(a, settled(d, anims, a), settled(d, anims, b)),
{
    lemma_values(base_items(d), a, b);
    lemma_values(point_items(d), a, b);
    lemma_values(prop_items(d.props@), a, b);
    lemma_values(text_items(d), a, b);
    lemma_values(action_items(d), a, b);
    lemma_values(anim_items(anims), a, b);
}

proof fn lemma_points(v: Seq<Seq<char>>, a: Scope, b: Scope)
    requires
        knows_more(a, b),
    ensures
        keeps(a, kept_points(v, a), kept_points(v, b)),
    decreases v.len(),
{
    if v.len() >= 2 {
        let n = v.len() as int;
        lemma_points(v.take(n - 2), a, b);
        lemma_ask(
            a,
            b,
            AskView { topic: Topic::Finite, a: v[n - 2], b: Seq::empty(), c: Seq::empty() },
        );
        lemma_ask(
            a,
            b,
            AskView { topic: Topic::Finite, a: v[n - 1], b: Seq::empty(), c: Seq::empty() },
        );
    }
}

proof fn lemma_baked(l: Seq<AnimateDef>, v: Seq<Seq<char>>, a: Scope, b: Scope)
    requires
        knows_more(a, b),
    ensures
        keeps(a, baked(l, v, a), baked(l, v, b)),
    decreases l.len(),
{
    if l.len() > 0 {
        lemma_baked(l.drop_last(), v, a, b);
        lemma_natural(a, b, v[2 * (l.len() - 1)]);
    }
}

proof fn lemma_action(d: NodeDef, label: Seq<char>, v: Seq<Seq<char>>, a: Scope, b: Scope)
    requires
        knows_more(a, b),
    ensures
        keeps(a, action_of(d, label, v, a), action_of(d, label, v, b)),
{
    lemma_ask(a, b, AskView { topic: Topic::Index, a: v[0], b: Seq::empty(), c: Seq::empty() });
    lemma_figure2(a, b, Topic::Delta, v[1], Seq::empty());
}

proof fn lemma_dimmed(a: Scope, b: Scope, above: Seq<char>, own: Seq<char>)
    requires
        knows_more(a, b),
    ensures
        keeps(a, dimmed(above, own, a), dimmed(above, own, b)),
{
    lemma_figure2(a, b, Topic::Unit, own, Seq::empty());
    if let OutView::Done(u, _) = figure2(Topic::Unit, own, Seq::empty(), a) {
        lemma_figure2(a, b, Topic::Times, above, u);
    }
}

proof fn lemma_assembled(
    d: NodeDef,
    anims: Seq<AnimateDef>,
    v: Settled,
    site: SiteView,
    a: Scope,
    b: Scope,
)
    requires
        knows_more(a, b),
    ensures
        keeps(a, assembled(d, anims, v, site, a), assembled(d, anims, v, site, b)),
{
    lemma_figure2(a, b, Topic::Sum, site.x, v.base[0]);
    lemma_figure2(a, b, Topic::Sum, site.y, v.base[1]);
    lemma_dimmed(a, b, site.opacity, v.base[4]);
    lemma_points(v.points, a, b);
    lemma_baked(anims, v.anims, a, b);
    lemma_action(d, site.label, v.action, a, b);
}

proof fn lemma_placed(d: NodeDef, anims: Seq<AnimateDef>, site: SiteView, a: Scope, b: Scope)
    requires
        knows_more(a, b),
    ensures
        keeps(a, placed(d, anims, site, a), placed(d, anims, site, b)),
{
    lemma_settled(d, anims, a, b);
    if let OutView::Done(v, _) = settled(d, anims, a) {
        lemma_assembled(d, anims, v, site, a, b);
    }
}

proof fn lemma_shown(d: NodeDef, label: Seq<char>, a: Scope, b: Scope)
    requires
        knows_more(a, b),
    ensures
        keeps(a, shown_view(d, label, a), shown_view(d, label, b)),
{
    if d.visible is Some {
        lemma_truth(d.visible->0@, a, b, true);
    }
}

proof fn lemma_delegate(
    d: NodeDef,
    x: Seq<char>,
    y: Seq<char>,
    above: Seq<char>,
    row: RowView,
    a: Scope,
    b: Scope,
)
    requires
        knows_more(a, b),
    ensures
        keeps(a, delegate_view(d, x, y, above, row, a), delegate_view(d, x, y, above, row, b)),
    decreases d, 0nat,
{
    let label = d.id@ + row.suffix;
    lemma_shown(d, label, a, b);
    let site = SiteView {
        label,
        id: label,
        x,
        y,
        opacity: above,
        index: Some(row.index),
        clip: row.clip,
    };
    lemma_placed(d, d.animate@ + row.animate, site, a, b);
    if let OutView::Done(node, _) = placed(d, d.animate@ + row.animate, site, a) {
        lemma_delegates(d.children, d.children@.len(), node.x, node.y, node.opacity, row, a, b);
    }
}

proof fn lemma_delegates(
    l: Vec<NodeDef>,
    k: nat,
    x: Seq<char>,
    y: Seq<char>,
    above: Seq<char>,
    row: RowView,
    a: Scope,
    b: Scope,
)
    requires
        knows_more(a, b),
    ensures
        keeps(a, delegates_view(l, k, x, y, above, row, a), delegates_view(l, k, x, y, above, row, b)),
    decreases l, k,
{
    if k > 0 && k <= l@.len() {
        lemma_delegates(l, (k - 1) as nat, x, y, above, row, a, b);
        lemma_delegate(l[k - 1], x, y, above, row, a, b);
    }
}

proof fn lemma_count(d: NodeDef, a: Scope, b: Scope)
    requires
        knows_more(a, b),
    ensures
        keeps(a, count_view(d, a), count_view(d, b)),
{
    match crate::binding::local_value(crate::binding::pairs(d.props@), "count"@) {
        Some(e) => {
            let l = seq![ItemView::Figure(e, "0"@)];
            lemma_values(l, a, b);
            if let OutView::Done(v, _) = values(l, a) {
                lemma_natural(a, b, v[0]);
            }
        },
        None => {},
    }
}

proof fn lemma_clip(
    layout: Seq<char>,
    ox: Seq<char>,
    cy: Seq<char>,
    pad: Seq<char>,
    vw: Seq<char>,
    vh: Seq<char>,
    ih: Seq<char>,
    a: Scope,
    b: Scope,
)
    requires
        knows_more(a, b),
    ensures
        keeps(
            a,
            clip_of(layout, ox, cy, pad, vw, vh, ih, a),
            clip_of(layout, ox, cy, pad, vw, vh, ih, b),
        ),
{
    lemma_figure2(a, b, Topic::Minus, ox, pad);
    lemma_figure2(a, b, Topic::Minus, cy, "0.5"@);
    lemma_figure2(a, b, Topic::Times, "2"@, pad);
    if let OutView::Done(pads, _) = figure2(Topic::Times, "2"@, pad, a) {
        lemma_figure2(a, b, Topic::Sum, vw, pads);
    }
    lemma_figure2(a, b, Topic::Sum, vh, "1"@);
    lemma_figure2(a, b, Topic::Sum, ih, "1"@);
}

proof fn lemma_rest(own: Option<String>, size: u32, origin: Seq<char>, a: Scope, b: Scope)
    requires
        knows_more(a, b),
    ensures
        keeps(a, rest_of(own, size, origin, a), rest_of(own, size, origin, b)),
{
    lemma_figure2(a, b, Topic::Rest, decimal(size as nat), origin);
}

#[verifier::rlimit(60)]
proof fn lemma_band(d: NodeDef, x: Seq<char>, y: Seq<char>, above: Seq<char>, a: Scope, b: Scope)
    requires
        knows_more(a, b),
    ensures
        keeps(a, band_view(d, x, y, above, a), band_view(d, x, y, above, b)),
{
    lemma_values(band_items(d), a, b);
    if let OutView::Done(v, _) = values(band_items(d), a) {
        lemma_figure2(a, b, Topic::Sum, x, v[0]);
        lemma_figure2(a, b, Topic::Sum, y, v[1]);
        lemma_natural(a, b, v[5]);
        lemma_dimmed(a, b, above, v[6]);
        if let OutView::Done(ox, _) = figure2(Topic::Sum, x, v[0], a) {
            if let OutView::Done(oy, _) = figure2(Topic::Sum, y, v[1], a) {
                lemma_rest(d.height, a.window_size.1, oy, a, b);
                lemma_rest(d.width, a.window_size.0, ox, a, b);
                if let OutView::Done(rest_h, _) = rest_of(d.height, a.window_size.1, oy, a) {
                    if let OutView::Done(rest_w, _) = rest_of(d.width, a.window_size.0, ox, a) {
                        let l = view_items(d, rest_h, rest_w, oy);
                        lemma_values(l, a, b);
                        if let OutView::Done(w, _) = values(l, a) {
                            lemma_clip(
                                prop_or(d, "layout"@, "vertical"@),
                                ox,
                                w[2],
                                w[3],
                                w[1],
                                w[0],
                                v[3],
                                a,
                                b,
                            );
                        }
                    }
                }
            }
        }
    }
}

proof fn lemma_list_offset(bv: BandView, idx: nat, a: Scope, b: Scope)
    requires
        knows_more(a, b),
    ensures
        keeps(a, list_offset(bv, idx, a), list_offset(bv, idx, b)),
{
    lemma_figure2(a, b, Topic::Sum, bv.item_height, bv.gap);
    if let OutView::Done(p, _) = pitch(bv, a) {
        lemma_figure2(a, b, Topic::Times, decimal(idx), p);
    }
}

proof fn lemma_relates(r: Relation, x: Seq<char>, y: Seq<char>, a: Scope, b: Scope)
    requires
        knows_more(a, b),
    ensures
        keeps(a, relates(r, x, y, a), relates(r, x, y, b)),
{
    lemma_ask(a, b, AskView { topic: Topic::Relate(r), a: x, b: y, c: Seq::empty() });
}

#[verifier::rlimit(60)]
proof fn lemma_overlaps(bv: BandView, idx: nat, a: Scope, b: Scope)
    requires
        knows_more(a, b),
    ensures
        keeps(a, overlaps_band(bv, idx, a), overlaps_band(bv, idx, b)),
{
    lemma_list_offset(bv, idx, a, b);
    lemma_figure2(a, b, Topic::Sum, bv.clip_y, bv.view_height);
    lemma_figure2(a, b, Topic::Minus, bv.clip_y, "0.5"@);
    if let OutView::Done(off, _) = list_offset(bv, idx, a) {
        lemma_figure2(a, b, Topic::Sum, bv.origin_y, off);
        if let OutView::Done(top, _) = figure2(Topic::Sum, bv.origin_y, off, a) {
            lemma_figure2(a, b, Topic::Sum, top, bv.item_height);
            if let OutView::Done(edge, _) = figure2(Topic::Sum, bv.clip_y, bv.view_height, a) {
                lemma_figure2(a, b, Topic::Sum, edge, "0.5"@);
                if let OutView::Done(end, _) = figure2(Topic::Sum, edge, "0.5"@, a) {
                    lemma_relates(Relation::Ge, top, end, a, b);
                }
            }
            if let OutView::Done(bottom, _) = figure2(Topic::Sum, top, bv.item_height, a) {
                if let OutView::Done(start, _) = figure2(Topic::Minus, bv.clip_y, "0.5"@, a) {
                    lemma_relates(Relation::Le, bottom, start, a, b);
                }
            }
        }
    }
}

proof fn lemma_offset(bv: BandView, idx: nat, count: nat, a: Scope, b: Scope)
    requires
        knows_more(a, b),
    ensures
        keeps(a, offset_of(bv, idx, count, a), offset_of(bv, idx, count, b)),
{
    lemma_ask(
        a,
        b,
        AskView { topic: Topic::RingX, a: decimal(idx), b: decimal(count), c: bv.radius },
    );
    lemma_ask(
        a,
        b,
        AskView { topic: Topic::RingY, a: decimal(idx), b: decimal(count), c: bv.radius },
    );
    lemma_list_offset(bv, idx, a, b);
}

proof fn lemma_locals(idx: nat, count: nat, results: bool, a: Scope, b: Scope)
    requires
        knows_more(a, b),
    ensures
        keeps(a, locals_view(idx, count, results, a), locals_view(idx, count, results, b)),
{
    if results && idx < a.launcher.results@.len() {
        lemma_ask(
            a,
            b,
            AskView {
                topic: Topic::Icon,
                a: a.launcher.results@[idx as int].icon@,
                b: Seq::empty(),
                c: Seq::empty(),
            },
        );
    }
}

#[verifier::rlimit(60)]
proof fn lemma_row(
    comp: ComponentDef,
    bv: BandView,
    idx: nat,
    count: nat,
    results: bool,
    a: Scope,
    b: Scope,
)
    requires
        knows_more(a, b),
    ensures
        keeps(a, row_view(comp, bv, idx, count, results, a), row_view(comp, bv, idx, count, results, b)),
{
    lemma_overlaps(bv, idx, a, b);
    lemma_locals(idx, count, results, a, b);
    lemma_offset(bv, idx, count, a, b);
    if let OutView::Done(locals, _) = locals_view(idx, count, results, a) {
        if let OutView::Done(o, _) = offset_of(bv, idx, count, a) {
            lemma_figure2(a, b, Topic::Sum, bv.origin_x, o.0);
            lemma_figure2(a, b, Topic::Sum, bv.origin_y, o.1);
            if let OutView::Done(x, _) = figure2(Topic::Sum, bv.origin_x, o.0, a) {
                if let OutView::Done(y, _) = figure2(Topic::Sum, bv.origin_y, o.1, a) {
                    let row = RowView {
                        suffix: "-"@ + decimal(idx),
                        index: idx as usize,
                        clip: bv.clip,
                        animate: comp.animate@,
                    };
                    let a2 = Scope { locals, ..a };
                    let b2 = Scope { locals, ..b };
                    assert(knows_more(a2, b2));
                    lemma_delegates(comp.nodes, comp.nodes@.len(), x, y, bv.opacity, row, a2, b2);
                }
            }
        }
    }
}

proof fn lemma_rows(
    k: nat,
    comp: ComponentDef,
    bv: BandView,
    count: nat,
    results: bool,
    a: Scope,
    b: Scope,
)
    requires
        knows_more(a, b),
    ensures
        keeps(
            a,
            rows_view(k, comp, bv, count, results, a),
            rows_view(k, comp, bv, count, results, b),
        ),
    decreases k,
{
    if k > 0 {
        lemma_rows((k - 1) as nat, comp, bv, count, results, a, b);
        lemma_row(comp, bv, (k - 1) as nat, count, results, a, b);
    }
}

proof fn lemma_repeater(
    d: NodeDef,
    t: Theme,
    x: Seq<char>,
    y: Seq<char>,
    above: Seq<char>,
    a: Scope,
    b: Scope,
)
    requires
        knows_more(a, b),
    ensures
        keeps(a, repeater_view(d, t, x, y, above, a), repeater_view(d, t, x, y, above, b)),
{
    lemma_count(d, a, b);
    lemma_band(d, x, y, above, a, b);
    let name = crate::text::or_default(d.delegate, Seq::empty());
    if let Some(comp) = component_of(t.components@, name) {
        if let OutView::Done(count, _) = count_view(d, a) {
            if let OutView::Done(bv, _) = band_view(d, x, y, above, a) {
                lemma_rows(count, comp, bv, count, over_results(d), a, b);
            }
        }
    }
}

proof fn lemma_advanced(at: Seq<char>, by: Seq<char>, gap: Seq<char>, a: Scope, b: Scope)
    requires
        knows_more(a, b),
    ensures
        keeps(a, advanced(at, by, gap, a), advanced(at, by, gap, b)),
{
    lemma_figure2(a, b, Topic::Sum, by, gap);
    if let OutView::Done(step, _) = figure2(Topic::Sum, by, gap, a) {
        lemma_figure2(a, b, Topic::Sum, at, step);
    }
}

#[verifier::rlimit(60)]
proof fn lemma_tree(
    d: NodeDef,
    t: Theme,
    x: Seq<char>,
    y: Seq<char>,
    above: Seq<char>,
    a: Scope,
    b: Scope,
)
    requires
        knows_more(a, b),
    ensures
        keeps(a, tree_view(d, t, x, y, above, a), tree_view(d, t, x, y, above, b)),
    decreases d, 0nat,
{
    lemma_shown(d, d.id@, a, b);
    lemma_repeater(d, t, x, y, above, a, b);
    let site = top_site(d, x, y, above);
    lemma_placed(d, d.animate@, site, a, b);
    let gl = seq![prop_figure(d, "gap"@, "8"@)];
    lemma_values(gl, a, b);
    if let OutView::Done(node, _) = placed(d, d.animate@, site, a) {
        if let OutView::Done(g, _) = values(gl, a) {
            let f = FlowView {
                layout: prop_or(d, "layout"@, "free"@),
                gap: g[0],
                x: node.x,
                y: node.y,
                opacity: node.opacity,
            };
            lemma_flow(d.children, d.children@.len(), f, t, a, b);
        }
    }
}

#[verifier::rlimit(60)]
proof fn lemma_child(
    d: NodeDef,
    x: Seq<char>,
    y: Seq<char>,
    f: FlowView,
    t: Theme,
    a: Scope,
    b: Scope,
)
    requires
        knows_more(a, b),
    ensures
        keeps(a, child_view(d, x, y, f, t, a), child_view(d, x, y, f, t, b)),
    decreases d, 1nat,
{
    let flows = f.layout == "column"@ || f.layout == "row"@;
    let dx = if flows {
        x
    } else {
        "0"@
    };
    let dy = if flows {
        y
    } else {
        "0"@
    };
    lemma_figure2(a, b, Topic::Sum, f.x, dx);
    lemma_figure2(a, b, Topic::Sum, f.y, dy);
    lemma_values(size_items(d), a, b);
    if let OutView::Done(left, _) = figure2(Topic::Sum, f.x, dx, a) {
        if let OutView::Done(top, _) = figure2(Topic::Sum, f.y, dy, a) {
            lemma_tree(d, t, left, top, f.opacity, a, b);
        }
    }
    if let OutView::Done(v, _) = values(size_items(d), a) {
        lemma_advanced(y, v[1], f.gap, a, b);
        lemma_advanced(x, v[0], f.gap, a, b);
    }
}

proof fn lemma_flow(l: Vec<NodeDef>, k: nat, f: FlowView, t: Theme, a: Scope, b: Scope)
    requires
        knows_more(a, b),
    ensures
        keeps(a, flow_view(l, k, f, t, a), flow_view(l, k, f, t, b)),
    decreases l, k,
{
    if k > 0 && k <= l@.len() {
        lemma_flow(l, (k - 1) as nat, f, t, a, b);
        if let OutView::Done(s, _) = flow_view(l, (k - 1) as nat, f, t, a) {
            lemma_child(l[k - 1], s.x, s.y, f, t, a, b);
        }
    }
}

proof fn lemma_forest(k: nat, t: Theme, a: Scope, b: Scope)
    requires
        knows_more(a, b),
    ensures
        keeps(a, forest_view(k, t, a), forest_view(k, t, b)),
    decreases k,
{
    if k > 0 && k <= t.nodes@.len() {
        lemma_forest((k - 1) as nat, t, a, b);
        lemma_tree(t.nodes@[k - 1], t, "0"@, "0"@, "1"@, a, b);
    }
}

/// A layout that is settled stays the same however much more becomes known.
pub proof fn layouts_are_stable(t: Theme, a: Scope, b: Scope)
    requires
        knows_more(a, b),
        resolved(t, a) is Done,
    ensures
        resolved(t, b) == resolved(t, a),
{
    lemma_forest(t.nodes@.len(), t, a, b);
}

/// Layout only asks what has not been answered.
pub proof fn layout_questions_are_new(t: Theme, c: Scope)
    requires
        resolved(t, c) is Need,
    ensures
        answer_in(c.answers.entries@, resolved(t, c)->Need_0) is None,
{
    lemma_forest(t.nodes@.len(), t, c, c);
}

} // verus!
