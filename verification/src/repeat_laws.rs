//! What repeaters and whole scenes promise.
use crate::ask::{answer_in, AskView, OutView, Relation, Topic};
use crate::binding::{local_value, pairs, Scope};
use crate::flow_laws::{
    answer, leaf, lemma_number, lemma_values, nodes_stand_where_they_say, number, plus, text_of,
};
use crate::layout::{
    band_items, band_view, built, clip_of, count_view, default_window, delegate_view,
    delegates_view, forest_view, item_locals, layered, locals_view, near_selection, offset_of,
    over_results, prop_figure, repeater_view, resolved, row_locals, row_view, rows_view, tree_view,
    view_items, BandView, RowView,
};
use crate::node::{ClipView, NodeView};
use crate::place::{figure2, figure_item, placed, values, ItemView, SiteView};
use crate::text::{decimal, or_default, unsigned_value};
use crate::theme::{component_of, ComponentDef, NodeDef, Theme};
use vstd::prelude::*;

verus! {

/// Lists of nodes one after the other.
pub open spec fn in_order(parts: Seq<Seq<NodeView>>) -> Seq<NodeView>
    decreases parts.len(),
{
    if parts.len() == 0 {
        Seq::empty()
    } else {
        parts[0] + in_order(parts.skip(1))
    }
}

proof fn lemma_in_order_push(parts: Seq<Seq<NodeView>>, p: Seq<NodeView>)
    ensures
        in_order(parts.push(p)) == in_order(parts) + p,
    decreases parts.len(),
{
    let all = parts.push(p);
    if parts.len() == 0 {
        assert(all.skip(1) =~= Seq::empty());
        assert(in_order(all.skip(1)) =~= Seq::empty());
        assert(p + Seq::<NodeView>::empty() =~= Seq::<NodeView>::empty() + p);
    } else {
        assert(all.skip(1) =~= parts.skip(1).push(p));
        lemma_in_order_push(parts.skip(1), p);
        assert(parts[0] + (in_order(parts.skip(1)) + p) =~= in_order(parts) + p);
    }
}

// ---------------------------------------------------------------------------
// Instances
// ---------------------------------------------------------------------------

/// The nodes of instance `i`.
#[verifier::opaque]
pub open spec fn is_instance(
    nodes: Seq<NodeView>,
    comp: ComponentDef,
    b: BandView,
    i: int,
    count: nat,
    results: bool,
    c: Scope,
) -> bool {
    row_view(comp, b, i as nat, count, results, c) matches OutView::Done(l, _) && l == nodes
}

proof fn lemma_rows(k: nat, comp: ComponentDef, b: BandView, count: nat, results: bool, c: Scope) -> (parts:
    Seq<Seq<NodeView>>)
    requires
        rows_view(k, comp, b, count, results, c) is Done,
    ensures
        parts.len() == k,
        rows_view(k, comp, b, count, results, c)->Done_0 == in_order(parts),
        forall|i: int|
            0 <= i < k ==> is_instance(#[trigger] parts[i], comp, b, i, count, results, c),
    decreases k,
{
    if k == 0 {
        Seq::empty()
    } else {
        let j = (k - 1) as nat;
        let parts = lemma_rows(j, comp, b, count, results, c);
        let p = row_view(comp, b, j, count, results, c)->Done_0;
        lemma_in_order_push(parts, p);
        let all = parts.push(p);
        assert(is_instance(p, comp, b, j as int, count, results, c)) by {
            reveal(is_instance);
        }
        assert forall|i: int| 0 <= i < k implies is_instance(
            #[trigger] all[i],
            comp,
            b,
            i,
            count,
            results,
            c,
        ) by {
            if i < j {
                assert(all[i] == parts[i]);
            }
        }
        all
    }
}

/// A repeater shows its instances one after the other, from the first to the last,
/// as many as its count says.
pub proof fn repeaters_show_every_instance(
    d: NodeDef,
    t: Theme,
    x: Seq<char>,
    y: Seq<char>,
    above: Seq<char>,
    c: Scope,
    comp: ComponentDef,
    count: nat,
) -> (parts: Seq<Seq<NodeView>>)
    requires
        component_of(t.components@, or_default(d.delegate, Seq::empty())) == Some(comp),
        count_view(d, c) is Done,
        count_view(d, c)->Done_0 == count,
        count > 0,
        repeater_view(d, t, x, y, above, c) is Done,
    ensures
        band_view(d, x, y, above, c) is Done,
        parts.len() == count,
        repeater_view(d, t, x, y, above, c)->Done_0 == in_order(parts),
        forall|i: int|
            0 <= i < count ==> is_instance(
                #[trigger] parts[i],
                comp,
                band_view(d, x, y, above, c)->Done_0,
                i,
                count,
                over_results(d),
                c,
            ),
{
    let b = band_view(d, x, y, above, c)->Done_0;
    lemma_rows(count, comp, b, count, over_results(d), c)
}

/// A repeater without a count of its own has one instance for every result.
pub proof fn results_are_counted(d: NodeDef, c: Scope)
    requires
        local_value(pairs(d.props@), "count"@) is None,
    ensures
        d.model is None || d.model->0@ == "launcher.results"@ ==> over_results(d) && count_view(d, c)
            is Done && count_view(d, c)->Done_0 == c.launcher.results@.len(),
        d.model matches Some(m) ==> m@ != "launcher.results"@ ==> !over_results(d) && count_view(d, c)
            is Done && count_view(d, c)->Done_0 == 0,
{
}

/// A repeater with a count of its own has that many instances.
pub proof fn counts_are_taken(d: NodeDef, c: Scope, e: Seq<char>, n: nat)
    requires
        local_value(pairs(d.props@), "count"@) == Some(e),
        count_view(d, c) is Done,
        unsigned_value(answer(Topic::Natural, number(Some(e), "0"@, c), Seq::empty(), c), usize::MAX as nat)
            == Some(n),
    ensures
        count_view(d, c)->Done_0 == n,
        !over_results(d),
{
    let items = seq![ItemView::Figure(e, "0"@)];
    lemma_values(items, c);
    assert(items[0] == ItemView::Figure(e, "0"@));
}

proof fn lemma_band(d: NodeDef, c: Scope)
    requires
        values(band_items(d), c) is Done,
    ensures
        ({
            let v = values(band_items(d), c)->Done_0;
            let p = pairs(d.props@);
            &&& v.len() == 7
            &&& v[0] == number(text_of(d.x), "0"@, c)
            &&& v[1] == number(text_of(d.y), "0"@, c)
            &&& v[2] == number(local_value(p, "gap"@), "8"@, c)
            &&& v[3] == number(local_value(p, "item_height"@), "44"@, c)
            &&& v[4] == number(local_value(p, "radius"@), "120"@, c)
            &&& v[6] == number(text_of(d.opacity), "1"@, c)
        }),
{
    let items = band_items(d);
    lemma_values(items, c);
    assert(items[0] == figure_item(d.x, "0"@));
    assert(items[1] == figure_item(d.y, "0"@));
    assert(items[2] == prop_figure(d, "gap"@, "8"@));
    assert(items[3] == prop_figure(d, "item_height"@, "44"@));
    assert(items[4] == prop_figure(d, "radius"@, "120"@));
    assert(items[6] == figure_item(d.opacity, "1"@));
    lemma_number(d.x, "0"@, c);
    lemma_number(d.y, "0"@, c);
    lemma_number(d.opacity, "1"@, c);
}

/// How a repeater is arranged: at its own place from where it was put, with a gap of
/// 8, items 44 high and a radius of 120 unless it says otherwise, as a vertical list
/// unless it names another layout.
#[verifier::spinoff_prover]
#[verifier::rlimit(40)]
pub proof fn repeaters_are_arranged(d: NodeDef, x: Seq<char>, y: Seq<char>, above: Seq<char>, c: Scope)
    requires
        band_view(d, x, y, above, c) is Done,
    ensures
        ({
            let b = band_view(d, x, y, above, c)->Done_0;
            let p = pairs(d.props@);
            &&& b.origin_x == plus(x, number(text_of(d.x), "0"@, c), c)
            &&& b.origin_y == plus(y, number(text_of(d.y), "0"@, c), c)
            &&& b.gap == number(local_value(p, "gap"@), "8"@, c)
            &&& b.item_height == number(local_value(p, "item_height"@), "44"@, c)
            &&& b.radius == number(local_value(p, "radius"@), "120"@, c)
            &&& b.opacity == answer(
                Topic::Times,
                above,
                answer(Topic::Unit, number(text_of(d.opacity), "1"@, c), Seq::empty(), c),
                c,
            )
            &&& local_value(p, "layout"@) matches Some(l) ==> b.layout == l
            &&& local_value(p, "layout"@) is None ==> b.layout == "vertical"@
        }),
{
    assert(values(band_items(d), c) is Done);
    lemma_band(d, c);
}

proof fn lemma_view_items(d: NodeDef, rh: Seq<char>, rw: Seq<char>, oy: Seq<char>, c: Scope)
    requires
        values(view_items(d, rh, rw, oy), c) is Done,
    ensures
        ({
            let w = values(view_items(d, rh, rw, oy), c)->Done_0;
            &&& w.len() == 4
            &&& w[0] == if d.height is Some {
                number(text_of(d.height), "0"@, c)
            } else {
                rh
            }
            &&& w[1] == if d.width is Some {
                number(text_of(d.width), "0"@, c)
            } else {
                rw
            }
            &&& w[2] == number(local_value(pairs(d.props@), "clip_y"@), oy, c)
        }),
{
    let more = view_items(d, rh, rw, oy);
    lemma_values(more, c);
    assert(more[2] == prop_figure(d, "clip_y"@, oy));
    if let Some(e) = d.height {
        assert(more[0] == ItemView::Figure(e@, "0"@));
    } else {
        assert(more[0] == ItemView::Fixed(rh));
    }
    if let Some(e) = d.width {
        assert(more[1] == ItemView::Figure(e@, "0"@));
    } else {
        assert(more[1] == ItemView::Fixed(rw));
    }
}

/// What is seen of a repeater: its own size, or what is left of the window behind
/// its origin, from its origin down unless `clip_y` says otherwise.
#[verifier::spinoff_prover]
#[verifier::rlimit(40)]
pub proof fn repeaters_see_a_band(d: NodeDef, x: Seq<char>, y: Seq<char>, above: Seq<char>, c: Scope)
    requires
        band_view(d, x, y, above, c) is Done,
    ensures
        ({
            let b = band_view(d, x, y, above, c)->Done_0;
            &&& b.clip_y == number(local_value(pairs(d.props@), "clip_y"@), b.origin_y, c)
            &&& b.view_height == if d.height is Some {
                number(text_of(d.height), "0"@, c)
            } else {
                answer(Topic::Rest, decimal(c.window_size.1 as nat), b.origin_y, c)
            }
            &&& b.view_width == if d.width is Some {
                number(text_of(d.width), "0"@, c)
            } else {
                answer(Topic::Rest, decimal(c.window_size.0 as nat), b.origin_x, c)
            }
        }),
{
    let b = band_view(d, x, y, above, c)->Done_0;
    let rh = crate::layout::rest_of(d.height, c.window_size.1, b.origin_y, c)->Done_0;
    let rw = crate::layout::rest_of(d.width, c.window_size.0, b.origin_x, c)->Done_0;
    assert(values(view_items(d, rh, rw, b.origin_y), c) is Done);
    lemma_view_items(d, rh, rw, b.origin_y, c);
}

/// An instance in a window of instances around the selection is at most half the
/// window away from it, or one; without a window every instance is in it.
pub proof fn windows_lie_around_the_selection(window: nat, idx: int, selected: int)
    ensures
        window == 0 ==> near_selection(window, idx, selected),
        window >= 2 ==> (near_selection(window, idx, selected) <==> 2 * (idx - selected) <= window && 2 * (
        selected - idx) <= window),
        window == 1 ==> (near_selection(window, idx, selected) <==> -1 <= idx - selected <= 1),
{
}

/// The caller says that the first number relates to the second.
pub open spec fn said(r: Relation, a: Seq<char>, b: Seq<char>, c: Scope) -> bool {
    answer_in(
        c.answers.entries@,
        AskView { topic: Topic::Relate(r), a, b, c: Seq::empty() },
    ) == Some(Some("true"@))
}

/// An item of a list is built where it overlaps the visible band, half a pixel spared:
/// it neither starts at or below the band's end nor ends at or above its start.
pub proof fn items_in_the_band_are_built(b: BandView, idx: nat, c: Scope)
    requires
        b.layout == "vertical"@,
        built(b, idx, c) is Done,
    ensures
        ({
            let top = plus(
                b.origin_y,
                answer(Topic::Times, decimal(idx), plus(b.item_height, b.gap, c), c),
                c,
            );
            let end = plus(plus(b.clip_y, b.view_height, c), "0.5"@, c);
            let start = answer(Topic::Minus, b.clip_y, "0.5"@, c);
            built(b, idx, c)->Done_0 <==> !said(Relation::Ge, top, end, c) && !said(
                Relation::Le,
                plus(top, b.item_height, c),
                start,
                c,
            )
        }),
{
}

/// On rings, in rows and in free arrangements those instances are built that lie in
/// the window around the selection; in any other arrangement all of them.
pub proof fn instances_in_the_window_are_built(b: BandView, idx: nat, c: Scope)
    requires
        b.layout != "vertical"@,
    ensures
        built(b, idx, c) is Done,
        b.layout == "circular"@ || b.layout == "row"@ || b.layout == "free"@ ==> (built(b, idx, c)->Done_0
            <==> near_selection(b.window, idx as int, c.launcher.selected_index as int)),
        b.layout != "circular"@ && b.layout != "row"@ && b.layout != "free"@ ==> built(b, idx, c)->Done_0,
{
}

/// An instance that is not built adds nothing.
pub proof fn unbuilt_instances_add_nothing(
    comp: ComponentDef,
    b: BandView,
    idx: nat,
    count: nat,
    results: bool,
    c: Scope,
)
    requires
        built(b, idx, c) is Done,
        !built(b, idx, c)->Done_0,
    ensures
        row_view(comp, b, idx, count, results, c) matches OutView::Done(l, _) && l.len() == 0,
{
}

/// The place of an instance within its repeater: on a ring where the caller says,
/// in a row or a free arrangement at the origin, in a list as many steps down as
/// there are instances before it, each as long as an item and the gap.
pub open spec fn stands_off(b: BandView, idx: nat, count: nat, ox: Seq<char>, oy: Seq<char>, c: Scope) -> bool {
    if b.layout == "circular"@ {
        &&& answer_in(
            c.answers.entries@,
            AskView { topic: Topic::RingX, a: decimal(idx), b: decimal(count), c: b.radius },
        ) matches Some(r) && ox == (match r {
            Some(s) => s,
            None => "0"@,
        })
        &&& answer_in(
            c.answers.entries@,
            AskView { topic: Topic::RingY, a: decimal(idx), b: decimal(count), c: b.radius },
        ) matches Some(r) && oy == (match r {
            Some(s) => s,
            None => "0"@,
        })
    } else if b.layout == "row"@ || b.layout == "free"@ {
        ox == "0"@ && oy == "0"@
    } else {
        ox == "0"@ && oy == answer(Topic::Times, decimal(idx), plus(b.item_height, b.gap, c), c)
    }
}

/// A built instance stands at its place behind the repeater's origin. The ids of
/// its nodes end in its number, and its bindings know its local names.
pub proof fn instances_stand_in_line(
    comp: ComponentDef,
    b: BandView,
    idx: nat,
    count: nat,
    results: bool,
    c: Scope,
) -> (off: (Seq<char>, Seq<char>))
    requires
        idx <= usize::MAX,
        row_view(comp, b, idx, count, results, c) is Done,
        built(b, idx, c) is Done,
        built(b, idx, c)->Done_0,
        forall|i: int|
            0 <= i < comp.nodes@.len() ==> leaf(#[trigger] comp.nodes@[i]),
    ensures
        stands_off(b, idx, count, off.0, off.1, c),
        locals_view(idx, count, results, c) is Done,
        ({
            let l = row_view(comp, b, idx, count, results, c)->Done_0;
            let s = Scope { locals: locals_view(idx, count, results, c)->Done_0, ..c };
            &&& l.len() == comp.nodes@.len()
            &&& forall|i: int|
                0 <= i < comp.nodes@.len() ==> {
                    let d = #[trigger] comp.nodes@[i];
                    &&& l[i].id == d.id@ + seq!['-'] + decimal(idx)
                    &&& l[i].index == Some(idx as usize)
                    &&& l[i].clip == b.clip
                    &&& l[i].x == plus(plus(b.origin_x, off.0, c), number(text_of(d.x), "0"@, s), c)
                    &&& l[i].y == plus(plus(b.origin_y, off.1, c), number(text_of(d.y), "0"@, s), c)
                    &&& l[i].width == number(text_of(d.width), "100"@, s)
                    &&& l[i].height == number(text_of(d.height), "40"@, s)
                }
        }),
{
    reveal_strlit("-");
    assert("-"@ =~= seq!['-']);
    let locals = locals_view(idx, count, results, c)->Done_0;
    let s = Scope { locals, ..c };
    let off = offset_of(b, idx, count, c)->Done_0;
    assert(offset_of(b, idx, count, c) is Done);
    let x = figure2(Topic::Sum, b.origin_x, off.0, c)->Done_0;
    let y = figure2(Topic::Sum, b.origin_y, off.1, c)->Done_0;
    let row = RowView {
        suffix: "-"@ + decimal(idx),
        index: idx as usize,
        clip: b.clip,
        animate: comp.animate@,
    };
    assert(delegates_view(comp.nodes, comp.nodes@.len(), x, y, b.opacity, row, s) is Done);
    lemma_leaf_delegates(comp.nodes, comp.nodes@.len(), x, y, b.opacity, row, s);
    let l = row_view(comp, b, idx, count, results, c)->Done_0;
    assert forall|i: int| 0 <= i < comp.nodes@.len() implies l[i].id == (
    #[trigger] comp.nodes@[i]).id@ + seq!['-'] + decimal(idx) by {
        assert(l[i].id == comp.nodes@[i].id@ + row.suffix);
        assert(comp.nodes@[i].id@ + row.suffix =~= comp.nodes@[i].id@ + seq!['-'] + decimal(idx));
    }
    off
}

proof fn lemma_leaf_delegates(
    l: Vec<NodeDef>,
    k: nat,
    x: Seq<char>,
    y: Seq<char>,
    above: Seq<char>,
    row: RowView,
    c: Scope,
)
    requires
        k <= l@.len(),
        delegates_view(l, k, x, y, above, row, c) is Done,
        forall|i: int| 0 <= i < k ==> leaf(#[trigger] l@[i]),
    ensures
        ({
            let r = delegates_view(l, k, x, y, above, row, c)->Done_0;
            &&& r.len() == k
            &&& forall|i: int|
                0 <= i < k ==> {
                    let d = #[trigger] l@[i];
                    &&& r[i].id == d.id@ + row.suffix
                    &&& r[i].index == Some(row.index)
                    &&& r[i].clip == row.clip
                    &&& r[i].x == plus(x, number(text_of(d.x), "0"@, c), c)
                    &&& r[i].y == plus(y, number(text_of(d.y), "0"@, c), c)
                    &&& r[i].width == number(text_of(d.width), "100"@, c)
                    &&& r[i].height == number(text_of(d.height), "40"@, c)
                }
        }),
    decreases k,
{
    broadcast use vstd::std_specs::vec::group_vec_axioms;

    if k > 0 {
        let j = (k - 1) as nat;
        lemma_leaf_delegates(l, j, x, y, above, row, c);
        let head = delegates_view(l, j, x, y, above, row, c)->Done_0;
        let d = l@[j as int];
        assert(leaf(l@[j as int]));
        assert(delegate_view(d, x, y, above, row, c) is Done);
        let label = d.id@ + row.suffix;
        let site = SiteView {
            label,
            id: label,
            x,
            y,
            opacity: above,
            index: Some(row.index),
            clip: row.clip,
        };
        let n = placed(d, d.animate@ + row.animate, site, c)->Done_0;
        assert(placed(d, d.animate@ + row.animate, site, c) is Done);
        nodes_stand_where_they_say(d, d.animate@ + row.animate, site, c);
        let rest = delegates_view(d.children, 0, n.x, n.y, n.opacity, row, c)->Done_0;
        assert(delegate_view(d, x, y, above, row, c)->Done_0 == seq![n] + rest);
        assert(rest.len() == 0);
        let r = delegates_view(l, k, x, y, above, row, c)->Done_0;
        assert(r =~= head.push(n));
    }
}

proof fn lemma_named(l: Seq<(Seq<char>, Seq<char>)>, i: int)
    requires
        0 <= i < l.len(),
        forall|j: int| 0 <= j < i ==> (#[trigger] l[j]).0 != l[i].0,
    ensures
        local_value(l, l[i].0) == Some(l[i].1),
    decreases i,
{
    if i > 0 {
        assert(l[0].0 != l[i].0);
        let r = l.skip(1);
        assert(r[i - 1] == l[i]);
        assert forall|j: int| 0 <= j < i - 1 implies (#[trigger] r[j]).0 != r[i - 1].0 by {
            assert(r[j] == l[j + 1]);
            assert(l[j + 1].0 != l[i].0);
        }
        lemma_named(r, i - 1);
    }
}

/// Every instance knows its number, how many there are and whether it is the
/// selected one.
pub proof fn instances_know_their_number(idx: nat, count: nat, results: bool, c: Scope)
    requires
        locals_view(idx, count, results, c) is Done,
    ensures
        ({
            let l = locals_view(idx, count, results, c)->Done_0;
            &&& local_value(l, "index"@) == Some(decimal(idx))
            &&& local_value(l, "count"@) == Some(decimal(count))
            &&& local_value(l, "is_selected"@) == Some(
                if results && idx == c.launcher.selected_index {
                    "true"@
                } else {
                    "false"@
                },
            )
            &&& local_value(l, "selected_index"@) == Some(decimal(c.launcher.selected_index as nat))
        }),
{
    reveal_strlit("index");
    reveal_strlit("count");
    reveal_strlit("is_selected");
    reveal_strlit("selected_index");
    assert("index"@[0] == 'i' && "count"@[0] == 'c');
    assert("index"@.len() == 5 && "count"@.len() == 5 && "is_selected"@.len() == 11
        && "selected_index"@.len() == 14);
    let l = locals_view(idx, count, results, c)->Done_0;
    let common = row_locals(
        idx,
        count,
        results && idx == c.launcher.selected_index,
        c.launcher.selected_index as nat,
    );
    assert(l.take(4) =~= common);
    assert(l[0] == common[0] && l[1] == common[1] && l[2] == common[2] && l[3] == common[3]);
    lemma_named(l, 0);
    lemma_named(l, 1);
    lemma_named(l, 2);
    lemma_named(l, 3);
}

/// An instance over the results knows the result it stands for.
pub proof fn instances_know_their_result(idx: nat, count: nat, c: Scope)
    requires
        idx < c.launcher.results@.len(),
        locals_view(idx, count, true, c) is Done,
    ensures
        ({
            let l = locals_view(idx, count, true, c)->Done_0;
            let e = c.launcher.results@[idx as int];
            &&& local_value(l, "item_name"@) == Some(e.name@)
            &&& local_value(l, "item_exec"@) == Some(e.command@)
            &&& local_value(l, "item_id"@) == Some(e.id@)
            &&& e.description is Some ==> local_value(l, "item_description"@) == Some(e.description->0@)
            &&& e.description is None ==> local_value(l, "item_description"@) == Some(Seq::<char>::empty())
            &&& local_value(l, "item_keywords"@) == Some(e.keywords@)
        }),
{
    let l = locals_view(idx, count, true, c)->Done_0;
    let e = c.launcher.results@[idx as int];
    let common = row_locals(
        idx,
        count,
        idx == c.launcher.selected_index,
        c.launcher.selected_index as nat,
    );
    let icon = match answer_in(
        c.answers.entries@,
        AskView { topic: Topic::Icon, a: e.icon@, b: Seq::empty(), c: Seq::empty() },
    ) {
        Some(Some(t)) => t,
        _ => Seq::empty(),
    };
    let own = item_locals(e, icon);
    assert(l == common + own);
    lemma_result_names(common, own, l);
}

proof fn lemma_result_names(
    common: Seq<(Seq<char>, Seq<char>)>,
    own: Seq<(Seq<char>, Seq<char>)>,
    l: Seq<(Seq<char>, Seq<char>)>,
)
    requires
        l == common + own,
        common.len() == 4,
        own.len() == 7,
        common[0].0 == "index"@,
        common[1].0 == "count"@,
        common[2].0 == "is_selected"@,
        common[3].0 == "selected_index"@,
        own[0].0 == "item_name"@,
        own[1].0 == "item_exec"@,
        own[2].0 == "item_id"@,
        own[3].0 == "item_description"@,
        own[4].0 == "item_keywords"@,
    ensures
        local_value(l, "item_name"@) == Some(own[0].1),
        local_value(l, "item_exec"@) == Some(own[1].1),
        local_value(l, "item_id"@) == Some(own[2].1),
        local_value(l, "item_description"@) == Some(own[3].1),
        local_value(l, "item_keywords"@) == Some(own[4].1),
{
    reveal_strlit("index");
    reveal_strlit("count");
    reveal_strlit("is_selected");
    reveal_strlit("selected_index");
    reveal_strlit("item_name");
    reveal_strlit("item_exec");
    reveal_strlit("item_id");
    reveal_strlit("item_description");
    reveal_strlit("item_keywords");
    assert("item_name"@[5] == 'n' && "item_exec"@[5] == 'e');
    assert("index"@.len() == 5 && "count"@.len() == 5 && "is_selected"@.len() == 11
        && "selected_index"@.len() == 14 && "item_name"@.len() == 9 && "item_exec"@.len() == 9
        && "item_id"@.len() == 7 && "item_description"@.len() == 16 && "item_keywords"@.len() == 13);
    assert(l[0] == common[0] && l[1] == common[1] && l[2] == common[2] && l[3] == common[3]);
    assert(l[4] == own[0] && l[5] == own[1] && l[6] == own[2] && l[7] == own[3] && l[8] == own[4]);
    lemma_named(l, 4);
    lemma_named(l, 5);
    lemma_named(l, 6);
    lemma_named(l, 7);
    lemma_named(l, 8);
}

// ---------------------------------------------------------------------------
// Scenes
// ---------------------------------------------------------------------------

/// The nodes that a top-level node expands to, at the window's corner and in full
/// opacity.
#[verifier::opaque]
pub open spec fn is_tree(nodes: Seq<NodeView>, d: NodeDef, t: Theme, c: Scope) -> bool {
    tree_view(d, t, "0"@, "0"@, "1"@, c) matches OutView::Done(l, _) && l == nodes
}

proof fn lemma_forest(k: nat, t: Theme, c: Scope) -> (parts: Seq<Seq<NodeView>>)
    requires
        k <= t.nodes@.len(),
        forest_view(k, t, c) is Done,
    ensures
        parts.len() == k,
        forest_view(k, t, c)->Done_0 == in_order(parts),
        forall|i: int| 0 <= i < k ==> is_tree(#[trigger] parts[i], t.nodes@[i], t, c),
    decreases k,
{
    if k == 0 {
        Seq::empty()
    } else {
        let j = (k - 1) as nat;
        let parts = lemma_forest(j, t, c);
        let p = tree_view(t.nodes@[j as int], t, "0"@, "0"@, "1"@, c)->Done_0;
        lemma_in_order_push(parts, p);
        let all = parts.push(p);
        assert(is_tree(p, t.nodes@[j as int], t, c)) by {
            reveal(is_tree);
        }
        assert forall|i: int| 0 <= i < k implies is_tree(#[trigger] all[i], t.nodes@[i], t, c) by {
            if i < j {
                assert(all[i] == parts[i]);
            }
        }
        all
    }
}

/// A scene is every top-level node of the theme with all that belongs to it, put at
/// the window's corner and in full opacity. Nothing is left out and nothing shown
/// twice: `parts` are the nodes in document order, and `at` says where in that order
/// each node of the scene stands. Lower layers come first, and within a layer the
/// document order stays.
pub proof fn scenes_show_everything_by_layer(t: Theme, c: Scope) -> (r: (
    Seq<Seq<NodeView>>,
    Seq<int>,
))
    requires
        resolved(t, c) is Done,
    ensures
        ({
            let scene = resolved(t, c)->Done_0;
            let parts = r.0;
            let at = r.1;
            let all = in_order(parts);
            &&& parts.len() == t.nodes@.len()
            &&& forall|i: int|
                0 <= i < parts.len() ==> is_tree(#[trigger] parts[i], t.nodes@[i], t, c)
            &&& scene.len() == all.len()
            &&& at.len() == all.len()
            &&& at.no_duplicates()
            &&& forall|i: int|
                0 <= i < at.len() ==> 0 <= #[trigger] at[i] < all.len() && scene[i] == all[at[i]]
            &&& forall|i: int, j: int|
                0 <= i < j < at.len() ==> scene[i].z < scene[j].z || (scene[i].z == scene[j].z
                    && #[trigger] at[i] < #[trigger] at[j])
        }),
{
    let parts = lemma_forest(t.nodes@.len(), t, c);
    let all = in_order(parts);
    let keys = crate::layout::layer_keys(all);
    let rank = crate::order::ranking(keys);
    crate::order::ranking_exists(keys);
    crate::order::ranking_is_permutation(keys, rank);
    let scene = resolved(t, c)->Done_0;
    assert(scene == layered(all));
    assert forall|i: int, j: int| 0 <= i < j < rank.len() implies scene[i].z < scene[j].z || (scene[i].z
        == scene[j].z && #[trigger] rank[i] < #[trigger] rank[j]) by {
        assert(crate::order::goes_before(keys, rank[i], rank[j]));
        assert(scene[i] == all[rank[i]] && scene[j] == all[rank[j]]);
    }
    (parts, rank)
}

/// Rings and rows of results show nine of them around the selection; lists, free
/// arrangements and repeaters over something else show all.
pub proof fn windows_have_defaults(d: NodeDef)
    ensures
        ({
            let layout = local_value(pairs(d.props@), "layout"@);
            &&& layout is None || layout == Some("vertical"@) || layout == Some("free"@) ==> default_window(
                d,
            ) == "0"@
            &&& layout is Some && layout != Some("vertical"@) && layout != Some("free"@) && over_results(d)
                ==> default_window(d) == "9"@
            &&& !over_results(d) ==> default_window(d) == "0"@
        }),
{
}

/// A list is cut to its visible band, wider by the padding on both sides and half a pixel
/// taller at either end; a row to its line; anything else is not cut.
pub proof fn repeaters_are_cut(
    layout: Seq<char>,
    ox: Seq<char>,
    cy: Seq<char>,
    pad: Seq<char>,
    vw: Seq<char>,
    vh: Seq<char>,
    ih: Seq<char>,
    c: Scope,
)
    requires
        clip_of(layout, ox, cy, pad, vw, vh, ih, c) is Done,
    ensures
        ({
            let r = clip_of(layout, ox, cy, pad, vw, vh, ih, c)->Done_0;
            &&& layout == "vertical"@ ==> r == Some(
                ClipView {
                    x: answer(Topic::Minus, ox, pad, c),
                    y: answer(Topic::Minus, cy, "0.5"@, c),
                    width: plus(vw, answer(Topic::Times, "2"@, pad, c), c),
                    height: plus(vh, "1"@, c),
                },
            )
            &&& layout == "row"@ ==> r == Some(
                ClipView {
                    x: ox,
                    y: answer(Topic::Minus, cy, "0.5"@, c),
                    width: vw,
                    height: plus(ih, "1"@, c),
                },
            )
            &&& layout != "vertical"@ && layout != "row"@ ==> r is None
        }),
{
    reveal_strlit("vertical");
    reveal_strlit("row");
    assert("vertical"@.len() == 8 && "row"@.len() == 3);
}

/// The children of a node within an instance lie relative to that node and below its
/// opacity, behind it in order.
pub proof fn children_of_instances_lie_within(
    d: NodeDef,
    x: Seq<char>,
    y: Seq<char>,
    above: Seq<char>,
    row: RowView,
    c: Scope,
)
    requires
        d.visible is None,
        delegate_view(d, x, y, above, row, c) is Done,
    ensures
        ({
            let l = delegate_view(d, x, y, above, row, c)->Done_0;
            &&& l.len() > 0
            &&& l[0].x == plus(x, number(text_of(d.x), "0"@, c), c)
            &&& l[0].y == plus(y, number(text_of(d.y), "0"@, c), c)
            &&& delegates_view(d.children, d.children@.len(), l[0].x, l[0].y, l[0].opacity, row, c)
                matches OutView::Done(rest, _) && l == seq![l[0]] + rest
        }),
{
    let label = d.id@ + row.suffix;
    let site = SiteView {
        label,
        id: label,
        x,
        y,
        opacity: above,
        index: Some(row.index),
        clip: row.clip,
    };
    let n = placed(d, d.animate@ + row.animate, site, c)->Done_0;
    assert(placed(d, d.animate@ + row.animate, site, c) is Done);
    nodes_stand_where_they_say(d, d.animate@ + row.animate, site, c);
    let rest = delegates_view(d.children, d.children@.len(), n.x, n.y, n.opacity, row, c)->Done_0;
    assert(delegate_view(d, x, y, above, row, c)->Done_0 == seq![n] + rest);
    assert((seq![n] + rest)[0] == n);
}

} // verus!
