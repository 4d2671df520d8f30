//! Joining the modes' results into one list for the launcher.
use crate::entry::{arrange_entries, AppEntry};
use crate::freq::{by_frecency, frequent, unused, FreqHistory};
use crate::launcher::{clamp_index, notified, LauncherState, ObservableState};
use crate::modes::SearchResult;
use crate::order::{arranged, rank_text, text_ranking};
use crate::scan::{has, occurs};
use crate::text::{
    chars_of, has_prefix, lower_of, starts_with_str, string_of, to_lower, trim, trimmed, views,
};
use vstd::prelude::*;

verus! {

/// A calculator row worth showing: neither an error nor the invitation.
pub open spec fn worth_showing(e: AppEntry) -> bool {
    !has_prefix(e.name@, "Error"@) && !occurs(e.name@, "Enter a math"@)
}

/// The entries worth showing, in order.
pub open spec fn shown(l: Seq<AppEntry>) -> Seq<AppEntry>
    decreases l.len(),
{
    if l.len() == 0 {
        Seq::empty()
    } else {
        let before = shown(l.drop_last());
        if worth_showing(l.last()) {
            before.push(l.last())
        } else {
            before
        }
    }
}

/// The entries of a result; an error has none.
pub open spec fn entries_in(r: SearchResult) -> Seq<AppEntry> {
    match r {
        SearchResult::Entries(v) => v@,
        SearchResult::Error(_) => Seq::empty(),
    }
}

/// The entries of an optional source; a mode that is off has none.
pub open spec fn source(o: Option<SearchResult>) -> Seq<AppEntry> {
    match o {
        Some(r) => entries_in(r),
        None => Seq::empty(),
    }
}

fn take_entries(o: Option<SearchResult>) -> (r: Vec<AppEntry>)
    ensures
        r@ == source(o),
{
    match o {
        Some(SearchResult::Entries(v)) => v,
        _ => {
            let v: Vec<AppEntry> = Vec::new();
            proof {
                assert(v@ =~= source(o));
            }
            v
        },
    }
}

fn keep_shown(l: &Vec<AppEntry>) -> (r: Vec<AppEntry>)
    ensures
        r@ == shown(l@),
{
    let mut out: Vec<AppEntry> = Vec::new();
    let mut i: usize = 0;
    proof {
        assert(l@.take(0) =~= Seq::empty());
    }
    while i < l.len()
        invariant
            i <= l@.len(),
            out@ == shown(l@.take(i as int)),
        decreases l@.len() - i,
    {
        proof {
            assert(l@.take(i + 1).drop_last() =~= l@.take(i as int));
        }
        let name = chars_of(l[i].name.as_str());
        let invites = has(name.as_slice(), "Enter a math");
        if !starts_with_str(name.as_slice(), "Error") && !invites {
            out.push(l[i].copy());
        }
        i += 1;
    }
    proof {
        assert(l@.take(l@.len() as int) =~= l@);
    }
    out
}

/// Applications and programs, in this order: what frequency is counted for.
pub fn launchable(drun: Option<SearchResult>, run: Option<SearchResult>) -> (r: Vec<AppEntry>)
    ensures
        r@ == source(drun) + source(run),
{
    let mut a = take_entries(drun);
    let mut b = take_entries(run);
    a.append(&mut b);
    a
}

/// The names in lower case, for sorting.
pub open spec fn folded_names(l: Seq<AppEntry>) -> Seq<Seq<char>> {
    Seq::new(l.len(), |i: int| lower_of(l[i].name@))
}

/// The entries by name, letter case aside.
pub open spec fn by_name(l: Seq<AppEntry>) -> Seq<AppEntry> {
    arranged(l, text_ranking(folded_names(l)))
}

fn sort_by_name(l: &Vec<AppEntry>) -> (r: Vec<AppEntry>)
    ensures
        r@ == by_name(l@),
{
    let mut keys: Vec<Vec<char>> = Vec::new();
    let mut i: usize = 0;
    while i < l.len()
        invariant
            i <= l@.len(),
            keys@.len() == i,
            forall|k: int| 0 <= k < i ==> (#[trigger] keys@[k])@ == lower_of(l@[k].name@),
        decreases l@.len() - i,
    {
        let low = to_lower(l[i].name.as_str());
        keys.push(chars_of(low.as_str()));
        i += 1;
    }
    proof {
        assert(views(keys@) =~= folded_names(l@));
    }
    let order = rank_text(&keys);
    arrange_entries(l, &order)
}

/// Applications and programs as they are listed: for a blank query the ones in
/// use first and the rest by name, else by relevance and frequency.
pub open spec fn listed(
    query: Seq<char>,
    other: Seq<AppEntry>,
    counts: Seq<(String, u64)>,
    boosts: Seq<i64>,
) -> Seq<AppEntry> {
    if trimmed(query).len() == 0 {
        frequent(counts, other) + by_name(unused(counts, other))
    } else {
        by_frecency(other, boosts)
    }
}

/// Everything found for a query: calculator, then windows, then the rest.
pub open spec fn combined(
    query: Seq<char>,
    calc: Seq<AppEntry>,
    windows: Seq<AppEntry>,
    other: Seq<AppEntry>,
    counts: Seq<(String, u64)>,
    boosts: Seq<i64>,
) -> Seq<AppEntry> {
    shown(calc) + windows + listed(query, other, counts, boosts)
}

/// Join the results of all modes. `boosts` holds the weighted frequency boost
/// of each entry of `other`.
pub fn combine(
    query: &str,
    calc: Option<SearchResult>,
    windows: Option<SearchResult>,
    other: &Vec<AppEntry>,
    history: &FreqHistory,
    boosts: &Vec<i64>,
) -> (r: Vec<AppEntry>)
    requires
        boosts@.len() == other@.len(),
    ensures
        r@ == combined(
            query@,
            source(calc),
            source(windows),
            other@,
            history.counts@,
            boosts@,
        ),
{
    let c = take_entries(calc);
    let mut all = keep_shown(&c);
    let mut w = take_entries(windows);
    let q = chars_of(query);
    let mut rest = if trim(q.as_slice()).len() == 0 {
        let (mut often, never) = history.partition_by_freq(other);
        let mut named = sort_by_name(&never);
        often.append(&mut named);
        often
    } else {
        history.sort_by_frecency(other, boosts)
    };
    all.append(&mut w);
    all.append(&mut rest);
    all
}

/// The state after a search: the results, the query trimmed, loading over, and
/// the selection where it was if it still fits.
pub open spec fn shows(
    before: LauncherState,
    query: Seq<char>,
    results: Vec<AppEntry>,
    after: LauncherState,
) -> bool {
    &&& after.results == results
    &&& after.selected_index == clamp_index(before.selected_index as int, results@.len())
    &&& after.query@ == trimmed(query)
    &&& !after.loading
    &&& after.launching == before.launching
    &&& after.error == before.error
    &&& after.in_bounds()
}

/// Show new results, and tell every subscriber once.
pub fn show_results(state: &mut ObservableState, query: &str, results: Vec<AppEntry>)
    ensures
        shows(old(state).inner, query@, results, final(state).inner),
        notified(*old(state), *final(state)),
{
    let c = chars_of(query);
    let mut s = state.lift();
    s.set_results(results);
    s.query = string_of(trim(c.as_slice()));
    s.loading = false;
    state.settle(s);
}

} // verus!
