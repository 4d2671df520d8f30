//! What keys, clicks and searches do to the launcher.
use crate::bridge::{by_name, combined, folded_names, listed, shown, shows, source, worth_showing};
use crate::config::{KeyBinding, Modifiers};
use crate::entry::{AppEntry, AppMode};
use crate::freq::launches;
use crate::frontend::{
    click_done, counts_as_launch, hover_done, key_done, launch_command, picks, reacts,
    return_prefix, AppCore, Effect, Outcome, Reaction, UiKey, UiMods,
};
use crate::launcher::{clamp_index, LauncherState};
use crate::listview::{bound, label_of, navigated, pressed, ListKey};
use crate::modes::{SearchResult, Tools};
use crate::node::{NodeAction, ResolvedNode};
use crate::order::{text_before, text_ranking, text_ranking_exists, text_ranking_is_permutation};
use crate::text::{lex_less, lower_of, white};
use vstd::prelude::*;

verus! {

/// The launcher stays open, and only the selection may have changed.
pub open spec fn only_selection(a: AppCore, b: AppCore, r: Reaction) -> bool {
    &&& r.outcome == Outcome::Stay
    &&& r.effect is Nothing
    &&& b.state.inner == (LauncherState {
        selected_index: b.state.inner.selected_index,
        ..a.state.inner
    })
    &&& b.input_buffer == a.input_buffer
    &&& b.config == a.config
}

/// Down and Tab go to the next row, Up and Shift-Tab to the one before, and the page
/// keys six rows on; every one of them stops at the last row and at the first.
pub proof fn keys_step_through_the_rows(
    a: AppCore,
    key: UiKey,
    mods: UiMods,
    now_ms: u64,
    b: AppCore,
    r: Reaction,
)
    requires
        key_done(a, key, mods, now_ms, b, r),
        a.state.inner.selected_index < a.state.inner.results@.len(),
    ensures
        ({
            let last = a.state.inner.results@.len() - 1;
            let from = a.state.inner.selected_index as int;
            let to = b.state.inner.selected_index as int;
            &&& key is ArrowDown || key is Tab ==> only_selection(a, b, r) && (from < last ==> to == from
                + 1) && (from == last ==> to == last)
            &&& key is ArrowUp || key is BackTab ==> only_selection(a, b, r) && (from > 0 ==> to == from
                - 1) && (from == 0 ==> to == 0)
            &&& key is PageDown ==> only_selection(a, b, r) && (from + 6 <= last ==> to == from + 6) && (
            from + 6 > last ==> to == last)
            &&& key is PageUp ==> only_selection(a, b, r) && (from >= 6 ==> to == from - 6) && (from < 6
                ==> to == 0)
            &&& key is Home ==> only_selection(a, b, r) && to == 0
            &&& key is End ==> only_selection(a, b, r) && to == last
        }),
{
    vstd::std_specs::vec::axiom_spec_len(&a.state.inner.results);
}

/// In an empty list no key selects anything.
pub proof fn nothing_is_selected_in_an_empty_list(
    a: AppCore,
    key: UiKey,
    mods: UiMods,
    now_ms: u64,
    b: AppCore,
    r: Reaction,
)
    requires
        key_done(a, key, mods, now_ms, b, r),
        a.state.inner.results@.len() == 0,
    ensures
        b.state.inner.selected_index == a.state.inner.selected_index,
        !(r.effect is Launch),
{
}

/// Enter launches the selected row, with the prefix bound to Return or to
/// Ctrl-Return, marks it and closes.
pub proof fn enter_launches_the_selected_row(
    a: AppCore,
    mods: UiMods,
    now_ms: u64,
    b: AppCore,
    r: Reaction,
)
    requires
        key_done(a, UiKey::Enter, mods, now_ms, b, r),
    ensures
        ({
            let s = a.state.inner;
            if s.selected_index < s.results@.len() {
                &&& r.outcome == Outcome::Exit
                &&& r.effect matches Effect::Launch(e, p) && e == s.results@[s.selected_index as int] && p
                    == return_prefix(
                    a.config.bindings@,
                    if mods.ctrl {
                        1
                    } else {
                        0
                    },
                )
                &&& b.state.inner.launching
                &&& b.state.inner.selected_index == s.selected_index
                &&& b.state.inner.results == s.results
            } else {
                r.outcome == Outcome::Stay && r.effect is Nothing && b.state == a.state
            }
        }),
{
}

/// Escape closes and launches nothing.
pub proof fn escape_closes(a: AppCore, mods: UiMods, now_ms: u64, b: AppCore, r: Reaction)
    requires
        key_done(a, UiKey::Escape, mods, now_ms, b, r),
    ensures
        r.outcome == Outcome::Exit,
        r.effect is Nothing,
        b.state == a.state,
{
}

/// Typing puts the text behind what was typed and searches for all of it; with Ctrl,
/// Alt or Super nothing is typed.
pub proof fn typing_searches(
    a: AppCore,
    t: String,
    mods: UiMods,
    now_ms: u64,
    b: AppCore,
    r: Reaction,
)
    requires
        key_done(a, UiKey::Char(t), mods, now_ms, b, r),
    ensures
        !mods.ctrl && !mods.alt && !mods.super_key ==> b.input_buffer@ == a.input_buffer@ + t@ && (
        r.effect matches Effect::Search(q) && q@ == a.input_buffer@ + t@) && r.outcome == Outcome::Stay,
        mods.ctrl || mods.alt || mods.super_key ==> b.input_buffer == a.input_buffer && r.effect
            is Nothing && r.outcome == Outcome::Stay,
        b.state == a.state,
{
}

/// Backspace takes the last character away and searches for the rest; with Ctrl it
/// takes all of them.
pub proof fn backspace_shortens(a: AppCore, mods: UiMods, now_ms: u64, b: AppCore, r: Reaction)
    requires
        key_done(a, UiKey::Backspace, mods, now_ms, b, r),
    ensures
        mods.ctrl ==> b.input_buffer@.len() == 0,
        !mods.ctrl && a.input_buffer@.len() > 0 ==> b.input_buffer@.push(a.input_buffer@.last())
            == a.input_buffer@,
        a.input_buffer@.len() == 0 ==> b.input_buffer@.len() == 0,
        r.effect matches Effect::Search(q) && q@ == b.input_buffer@,
        r.outcome == Outcome::Stay,
{
    if !mods.ctrl && a.input_buffer@.len() > 0 {
        assert(b.input_buffer@.push(a.input_buffer@.last()) =~= a.input_buffer@);
    }
}

/// Every key starts the time to close by itself anew, where there is such a time.
pub proof fn keys_hold_it_open(
    a: AppCore,
    key: UiKey,
    mods: UiMods,
    now_ms: u64,
    b: AppCore,
    r: Reaction,
)
    requires
        key_done(a, key, mods, now_ms, b, r),
        now_ms + a.config.auto_close_timeout_secs * 1000 <= u128::MAX,
    ensures
        a.config.auto_close_timeout_secs > 0 ==> (b.auto_close matches Some(t) && t == now_ms
            + a.config.auto_close_timeout_secs * 1000),
        a.config.auto_close_timeout_secs == 0 ==> b.auto_close == a.auto_close,
{
}

/// Of the bindings of Return with the given modifiers the first gives the prefix;
/// without one there is none.
pub proof fn the_first_binding_of_return_counts(l: Seq<KeyBinding>, flags: u8, i: int)
    requires
        0 <= i <= l.len(),
        i < l.len() ==> l[i].key_name@ == "return"@ && l[i].modifiers.0 == flags,
        forall|j: int|
            0 <= j < i ==> (#[trigger] l[j]).key_name@ != "return"@ || l[j].modifiers.0 != flags,
    ensures
        return_prefix(l, flags) == if i < l.len() {
            l[i].prefix
        } else {
            None
        },
    decreases i,
{
    if i > 0 {
        assert(l[0].key_name@ != "return"@ || l[0].modifiers.0 != flags);
        let t = l.skip(1);
        assert forall|j: int| 0 <= j < i - 1 implies (#[trigger] t[j]).key_name@ != "return"@
            || t[j].modifiers.0 != flags by {
            assert(t[j] == l[j + 1]);
        }
        the_first_binding_of_return_counts(t, flags, i - 1);
    }
}

/// Of the bindings of a key with the given modifiers the first counts.
pub proof fn the_first_binding_counts(l: Seq<KeyBinding>, name: Seq<char>, mods: Modifiers, i: int)
    requires
        0 <= i <= l.len(),
        i < l.len() ==> l[i].key_name@ == name && l[i].modifiers == mods,
        forall|j: int| 0 <= j < i ==> (#[trigger] l[j]).key_name@ != name || l[j].modifiers != mods,
    ensures
        i < l.len() ==> bound(l, name, mods) == Some(l[i]),
        i == l.len() ==> bound(l, name, mods) is None,
    decreases i,
{
    if i > 0 {
        assert(l[0].key_name@ != name || l[0].modifiers != mods);
        let t = l.skip(1);
        assert forall|j: int| 0 <= j < i - 1 implies (#[trigger] t[j]).key_name@ != name
            || t[j].modifiers != mods by {
            assert(t[j] == l[j + 1]);
        }
        the_first_binding_counts(t, name, mods, i - 1);
    }
}

/// A click launches the row that the action names, else the row that was clicked,
/// else the selected one; it selects in the same way, and moves by the steps that the
/// action names.
pub proof fn clicks_act_on_their_row(
    a: AppCore,
    action: NodeAction,
    row: Option<usize>,
    mods: UiMods,
    now_ms: u64,
    b: AppCore,
    r: Reaction,
)
    requires
        click_done(a, action, row, mods, now_ms, b, r),
        a.state.inner.selected_index < a.state.inner.results@.len(),
    ensures
        ({
            let s = a.state.inner;
            let n = s.results@.len();
            let to = b.state.inner.selected_index as int;
            match action {
                NodeAction::Activate(own) => {
                    let i = if own is Some {
                        own->0
                    } else if row is Some {
                        row->0
                    } else {
                        s.selected_index
                    };
                    if i < n {
                        &&& r.outcome == Outcome::Exit
                        &&& r.effect matches Effect::Launch(e, _) && e == s.results@[i as int]
                        &&& to == i
                        &&& b.state.inner.launching
                    } else {
                        r.outcome == Outcome::Stay && r.effect is Nothing && b.state == a.state
                    }
                },
                NodeAction::Select(own) => {
                    let i = if own is Some {
                        Some(own->0)
                    } else {
                        row
                    };
                    &&& only_selection(a, b, r)
                    &&& to == (if i is Some && i->0 < n {
                        i->0 as int
                    } else {
                        s.selected_index as int
                    })
                },
                NodeAction::Move(d) => {
                    &&& only_selection(a, b, r)
                    &&& 0 <= s.selected_index + d < n ==> to == s.selected_index + d
                    &&& s.selected_index + d < 0 ==> to == 0
                    &&& s.selected_index + d >= n ==> to == n - 1
                },
                NodeAction::SetQuery(q) => b.input_buffer@ == q@ && (r.effect matches Effect::Search(t)
                    && t@ == q@) && r.outcome == Outcome::Stay,
                NodeAction::Close => r.outcome == Outcome::Exit && r.effect is Nothing && b.state
                    == a.state,
            }
        }),
{
    vstd::std_specs::vec::axiom_spec_len(&a.state.inner.results);
}

/// A search keeps the selection where it is while there are enough results, and
/// brings it to the last result otherwise.
pub proof fn searches_keep_the_selection(
    a: LauncherState,
    query: Seq<char>,
    results: Vec<AppEntry>,
    b: LauncherState,
)
    requires
        shows(a, query, results, b),
    ensures
        b.results@ == results@,
        a.selected_index < results@.len() ==> b.selected_index == a.selected_index,
        results@.len() > 0 && a.selected_index >= results@.len() ==> b.selected_index == results@.len() - 1,
        results@.len() == 0 ==> b.selected_index == 0,
        !b.loading,
        b.query@ == crate::text::trimmed(query),
{
}

/// A number is brought into the rows by the shortest way.
pub proof fn rows_are_clamped(i: int, n: nat)
    requires
        n > 0,
    ensures
        0 <= clamp_index(i, n) < n,
        0 <= i < n ==> clamp_index(i, n) == i,
        i < 0 ==> clamp_index(i, n) == 0,
        i >= n ==> clamp_index(i, n) == n - 1,
{
}

/// Navigation goes by the given steps and stops at either end; with no row selected
/// it begins at the end that it comes from.
pub proof fn navigation_stops_at_the_ends(count: nat, current: Option<u32>, delta: i32)
    requires
        count > 0,
    ensures
        0 <= navigated(count, current, delta) < count,
        current matches Some(k) ==> (0 <= k + delta < count ==> navigated(count, current, delta) == k
            + delta) && (k + delta < 0 ==> navigated(count, current, delta) == 0) && (k + delta >= count
            ==> navigated(count, current, delta) == count - 1),
        current is None && delta > 0 ==> navigated(count, current, delta) == 0,
        current is None && delta <= 0 ==> navigated(count, current, delta) == count - 1,
{
}

// ---------------------------------------------------------------------------
// What is listed
// ---------------------------------------------------------------------------

/// Only calculator rows that say something are shown, all of them and in order.
pub proof fn useless_rows_are_dropped(l: Seq<AppEntry>) -> (at: Seq<int>)
    ensures
        at.len() == shown(l).len(),
        forall|i: int, j: int| 0 <= i < j < at.len() ==> #[trigger] at[i] < #[trigger] at[j],
        forall|i: int|
            0 <= i < at.len() ==> 0 <= #[trigger] at[i] < l.len() && shown(l)[i] == l[at[i]] && worth_showing(
                l[at[i]],
            ),
        forall|k: int| 0 <= k < l.len() && worth_showing(#[trigger] l[k]) ==> at.contains(k),
    decreases l.len(),
{
    if l.len() == 0 {
        Seq::empty()
    } else {
        let d = l.drop_last();
        let at = useless_rows_are_dropped(d);
        let n = d.len() as int;
        let w = if worth_showing(l.last()) {
            at.push(n)
        } else {
            at
        };
        assert forall|k: int| 0 <= k < l.len() && worth_showing(#[trigger] l[k]) implies w.contains(k) by {
            if k < n {
                assert(d[k] == l[k]);
                assert(at.contains(k));
                let i = choose|i: int| 0 <= i < at.len() && at[i] == k;
                assert(w[i] == k);
            } else {
                assert(w[at.len() as int] == k);
            }
        }
        assert forall|i: int| 0 <= i < w.len() implies 0 <= #[trigger] w[i] < l.len() && shown(l)[i]
            == l[w[i]] && worth_showing(l[w[i]]) by {
            if i < at.len() {
                assert(w[i] == at[i]);
                assert(d[at[i]] == l[at[i]]);
            }
        }
        w
    }
}

/// A row that reports an error or invites to type is not worth showing; any other is.
pub proof fn rows_worth_showing(e: AppEntry)
    ensures
        worth_showing(e) <==> !(exists|r: Seq<char>| e.name@ == #[trigger] ("Error"@ + r)) && !(exists|
            a: Seq<char>,
            b: Seq<char>,
        |
            e.name@ == #[trigger] (a + "Enter a math"@ + b)),
{
    crate::text_laws::prefixes_and_suffixes(e.name@, "Error"@);
    crate::text_laws::occurrences(e.name@, "Enter a math"@);
}

/// By name means by the small letters of the names, in the order of code points, and
/// in the old order where those are the same. Every entry is listed once.
pub proof fn names_are_sorted(l: Seq<AppEntry>) -> (at: Seq<int>)
    ensures
        by_name(l).len() == l.len(),
        at.len() == l.len(),
        at.no_duplicates(),
        forall|i: int| 0 <= i < at.len() ==> 0 <= #[trigger] at[i] < l.len() && by_name(l)[i] == l[at[i]],
        forall|i: int, j: int|
            0 <= i < j < at.len() ==> {
                let x = lower_of(by_name(l)[i].name@);
                let y = lower_of(by_name(l)[j].name@);
                lex_less(x, y) || (x == y && #[trigger] at[i] < #[trigger] at[j])
            },
{
    let keys = folded_names(l);
    let rank = text_ranking(keys);
    text_ranking_exists(keys);
    text_ranking_is_permutation(keys, rank);
    assert forall|i: int, j: int| 0 <= i < j < rank.len() implies {
        let x = lower_of(by_name(l)[i].name@);
        let y = lower_of(by_name(l)[j].name@);
        lex_less(x, y) || (x == y && #[trigger] rank[i] < #[trigger] rank[j])
    } by {
        assert(text_before(keys, rank[i], rank[j]));
        assert(by_name(l)[i] == l[rank[i]] && by_name(l)[j] == l[rank[j]]);
        assert(keys[rank[i]] == lower_of(l[rank[i]].name@));
        assert(keys[rank[j]] == lower_of(l[rank[j]].name@));
        crate::text::lex_is_linear(keys[rank[i]], keys[rank[j]]);
    }
    rank
}

/// The calculator comes first, then the windows, then the programs.
pub proof fn sources_come_in_order(
    query: Seq<char>,
    calc: Seq<AppEntry>,
    windows: Seq<AppEntry>,
    other: Seq<AppEntry>,
    counts: Seq<(String, u64)>,
    boosts: Seq<i64>,
)
    ensures
        ({
            let r = combined(query, calc, windows, other, counts, boosts);
            let a = shown(calc);
            let p = listed(query, other, counts, boosts);
            &&& r.len() == a.len() + windows.len() + p.len()
            &&& forall|i: int| 0 <= i < a.len() ==> r[i] == #[trigger] a[i]
            &&& forall|i: int| 0 <= i < windows.len() ==> r[a.len() + i] == #[trigger] windows[i]
            &&& forall|i: int| 0 <= i < p.len() ==> r[a.len() + windows.len() + i] == #[trigger] p[i]
        }),
{
}

/// For a blank query the programs that were started before come first, the one
/// started most often in front, and the others follow by name.
pub proof fn blank_queries_list_the_most_used_first(
    query: Seq<char>,
    other: Seq<AppEntry>,
    counts: Seq<(String, u64)>,
    boosts: Seq<i64>,
)
    requires
        forall|i: int| 0 <= i < query.len() ==> white(#[trigger] query[i]),
    ensures
        ({
            let r = listed(query, other, counts, boosts);
            &&& r.len() == other.len()
            &&& forall|i: int, j: int|
                0 <= i < j < r.len() ==> launches(counts, (#[trigger] r[i]).command@) >= launches(
                    counts,
                    (#[trigger] r[j]).command@,
                )
            &&& forall|i: int, j: int|
                0 <= i < j < r.len() && launches(counts, (#[trigger] r[i]).command@) == 0 ==> !lex_less(
                    lower_of((#[trigger] r[j]).name@),
                    lower_of(r[i].name@),
                )
        }),
{
    crate::text_laws::blank_texts_vanish(query);
    let r = listed(query, other, counts, boosts);
    let f = crate::freq::frequent(counts, other);
    let u = crate::freq::unused(counts, other);
    let at = crate::rank_laws::most_used_come_first(counts, other);
    let pos = names_are_sorted(u);
    crate::freq::partition_keeps_all(counts, other);
    let b = by_name(u);
    assert(r == f + b);
    assert forall|i: int| 0 <= i < f.len() implies launches(counts, (#[trigger] f[i]).command@) > 0 by {
        assert(f[i] == other[at.0[i]]);
        assert(at.0.contains(at.0[i]));
        assert(launches(counts, other[at.0[i]].command@) > 0);
    }
    assert forall|i: int| 0 <= i < b.len() implies launches(counts, (#[trigger] b[i]).command@) == 0 by {
        let k = pos[i];
        assert(b[i] == u[k]);
        assert(u[k] == other[at.1[k]]);
        assert(at.1.contains(at.1[k]));
        assert(launches(counts, other[at.1[k]].command@) == 0);
    }
    assert forall|i: int, j: int| 0 <= i < j < r.len() implies launches(
        counts,
        (#[trigger] r[i]).command@,
    ) >= launches(counts, (#[trigger] r[j]).command@) by {
        if j < f.len() {
            assert(r[i] == f[i] && r[j] == f[j]);
        } else {
            assert(r[j] == b[j - f.len()]);
        }
    }
    assert forall|i: int, j: int|
        0 <= i < j < r.len() && launches(counts, (#[trigger] r[i]).command@) == 0 implies !lex_less(
        lower_of((#[trigger] r[j]).name@),
        lower_of(r[i].name@),
    ) by {
        if i < f.len() {
            assert(r[i] == f[i]);
        } else {
            let m = i - f.len();
            let n = j - f.len();
            assert(r[i] == b[m] && r[j] == b[n]);
            assert(pos[m] != pos[n]);
            crate::text::lex_is_linear(lower_of(r[i].name@), lower_of(r[j].name@));
            crate::text::lex_is_linear(lower_of(r[j].name@), lower_of(r[i].name@));
        }
    }
}

/// A program is run by its command, behind the prefix and a space where there is one.
pub proof fn programs_run_behind_their_prefix(
    e: AppEntry,
    prefix: Option<Seq<char>>,
    tools: Tools,
    activate: Option<Seq<char>>,
)
    requires
        e.mode == AppMode::Drun || e.mode == AppMode::Run,
    ensures
        prefix matches Some(p) ==> launch_command(e, prefix, tools, activate) == Some(
            p + " "@ + e.command@,
        ),
        prefix is None ==> launch_command(e, prefix, tools, activate) == Some(e.command@),
{
    reveal_strlit(" ");
    assert(" "@ =~= seq![' ']);
}

/// A window is activated by the command for it, its id put in where the command names
/// it; a result of the calculator is copied.
pub proof fn windows_are_activated(
    e: AppEntry,
    prefix: Option<Seq<char>>,
    tools: Tools,
    a: Seq<char>,
    b: Seq<char>,
)
    requires
        !a.contains('{'),
        !b.contains('{'),
    ensures
        e.mode == AppMode::Window ==> launch_command(e, prefix, tools, Some(a + "{id}"@ + b)) == Some(
            a + e.command@ + b,
        ),
        e.mode == AppMode::Window ==> launch_command(e, prefix, tools, None) is None,
        e.mode == AppMode::Calc && tools.wl_copy ==> launch_command(e, prefix, tools, None) == Some(
            "printf '%s' '"@ + crate::calc::escaped(e.command@) + "' | wl-copy"@,
        ),
{
    reveal_strlit("{id}");
    let p = seq!['{', 'i', 'd', '}'];
    assert("{id}"@ =~= p);
    crate::source_laws::patterns_are_replaced(a, p, b, e.command@);
    crate::source_laws::patterns_are_replaced(b, p, b, e.command@);
}

/// Applications and programs count for the history; windows and results do not.
pub proof fn programs_are_counted(m: AppMode)
    ensures
        counts_as_launch(m) <==> m != AppMode::Window && m != AppMode::Calc,
{
}

/// The pointer picks the topmost of the nodes that have an action, are to be seen and
/// lie under it, and none where there is no such node.
pub proof fn the_topmost_node_is_picked(
    nodes: Seq<ResolvedNode>,
    solid: Seq<bool>,
    hit: Seq<bool>,
    r: Option<usize>,
    k: int,
)
    requires
        picks(nodes, solid, hit, r),
        0 <= k < nodes.len(),
        nodes[k].action is Some,
        solid[k],
        hit[k],
    ensures
        r matches Some(i) && k <= i < nodes.len() && nodes[i as int].action is Some && solid[i as int]
            && hit[i as int],
{
    assert(reacts(nodes, solid, hit, k));
}

/// In the list Escape closes, a bound key launches with its prefix, and the arrows,
/// also those of the keypad, move by one row unless the user is typing.
pub proof fn list_keys(
    sym: u32,
    name: Seq<char>,
    mods: Modifiers,
    bindings: Seq<KeyBinding>,
    typing: bool,
    r: ListKey,
    i: int,
)
    requires
        pressed(sym, name, mods, bindings, typing, r),
    ensures
        sym == 65307 ==> r is Close,
        sym != 65307 && 0 <= i < bindings.len() && bindings[i].key_name@ == name && bindings[i].modifiers
            == mods && (forall|j: int|
            0 <= j < i ==> (#[trigger] bindings[j]).key_name@ != name || bindings[j].modifiers != mods)
            ==> r == ListKey::Launch(bindings[i].prefix),
        (forall|j: int|
            0 <= j < bindings.len() ==> (#[trigger] bindings[j]).key_name@ != name
                || bindings[j].modifiers != mods) ==> {
            &&& !typing && (sym == 65364 || sym == 65434) ==> (r matches ListKey::Navigate(d) && d == 1)
            &&& !typing && (sym == 65362 || sym == 65432) ==> (r matches ListKey::Navigate(d) && d == -1)
            &&& typing && sym != 65307 ==> r is Pass
        },
{
    if 0 <= i < bindings.len() && bindings[i].key_name@ == name && bindings[i].modifiers == mods && (
    forall|j: int|
        0 <= j < i ==> (#[trigger] bindings[j]).key_name@ != name || bindings[j].modifiers != mods) {
        the_first_binding_counts(bindings, name, mods, i);
    }
    if forall|j: int|
        0 <= j < bindings.len() ==> (#[trigger] bindings[j]).key_name@ != name || bindings[j].modifiers
            != mods {
        the_first_binding_counts(bindings, name, mods, bindings.len() as int);
    }
}

/// Hovering over a node that launches or selects selects its row, the one that the
/// action names or else the one the node belongs to; it launches nothing. Over any other
/// node nothing changes.
pub proof fn hovering_selects(
    a: AppCore,
    action: NodeAction,
    row: Option<usize>,
    now_ms: u64,
    b: AppCore,
)
    requires
        hover_done(a, action, row, now_ms, b),
    ensures
        ({
            let n = a.state.inner.results@.len();
            let from = a.state.inner.selected_index;
            let to = b.state.inner.selected_index;
            &&& action == NodeAction::Activate(None) || action == NodeAction::Select(None) ==> (row
                matches Some(k) ==> to == (if k < n {
                k
            } else {
                from
            }))
            &&& forall|k: usize|
                (action == NodeAction::Activate(Some(k)) || action == NodeAction::Select(Some(k)))
                    && k < n ==> to == k
            &&& action is Move || action is SetQuery || action is Close ==> b == a
            &&& b.state.inner.launching == a.state.inner.launching
            &&& b.state.inner.results == a.state.inner.results
            &&& b.input_buffer == a.input_buffer
        }),
{
}

/// The labels of the modes.
pub proof fn modes_have_labels()
    ensures
        label_of(AppMode::Drun) == "app"@,
        label_of(AppMode::Run) == "terminal"@,
        label_of(AppMode::Window) == "window"@,
        label_of(AppMode::Calc) == "calc"@,
{
}

/// Applications stand in front of programs; a mode that failed or is off adds none.
pub proof fn sources_give_their_entries(v: Vec<AppEntry>, e: String)
    ensures
        source(Some(SearchResult::Entries(v))) == v@,
        source(Some(SearchResult::Error(e))).len() == 0,
        source(None).len() == 0,
{
}

/// For a query the programs come by relevance and launches together: the larger sum of
/// score and boost stands in front, and every one of them is listed.
pub proof fn queries_list_by_relevance(
    query: Seq<char>,
    other: Seq<AppEntry>,
    counts: Seq<(String, u64)>,
    boosts: Seq<i64>,
) -> (at: Seq<int>)
    requires
        exists|i: int| 0 <= i < query.len() && !white(#[trigger] query[i]),
        boosts.len() == other.len(),
    ensures
        at.no_duplicates(),
        at.len() == other.len(),
        listed(query, other, counts, boosts).len() == at.len(),
        forall|i: int|
            0 <= i < at.len() ==> 0 <= #[trigger] at[i] < other.len() && listed(
                query,
                other,
                counts,
                boosts,
            )[i] == other[at[i]],
        forall|i: int, j: int|
            #![trigger at[i], at[j]]
            0 <= i < j < at.len() ==> {
                let x = other[at[i]].score + boosts[at[i]];
                let y = other[at[j]].score + boosts[at[j]];
                x > y || (x == y && at[i] < at[j])
            },
{
    crate::text_laws::blank_texts_vanish(query);
    let at = crate::rank_laws::frecency_sorts_all(other, boosts);
    assert forall|i: int| 0 <= i < at.len() implies 0 <= #[trigger] at[i] < other.len() && listed(
        query,
        other,
        counts,
        boosts,
    )[i] == other[at[i]] by {
        assert(at.contains(at[i]));
    }
    at
}

} // verus!
