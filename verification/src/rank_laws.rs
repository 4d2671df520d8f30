//! What search and launch history promise of the lists they give.
use crate::entry::AppEntry;
use crate::freq::{by_frecency, count_keys, frecency_keys, frequent, launches, unused, used};
use crate::order::{goes_before, ranking, ranking_exists, ranking_is_permutation};
use crate::search::{found, match_keys, match_score, matched, ranked, text_scores};
use crate::text::{trimmed, white};
use vstd::prelude::*;

verus! {

/// `at` lists every number below `n` that `chosen` picks, each once.
pub open spec fn lists_all(at: Seq<int>, n: nat, chosen: spec_fn(int) -> bool) -> bool {
    &&& at.no_duplicates()
    &&& forall|i: int| 0 <= i < at.len() ==> 0 <= #[trigger] at[i] < n && chosen(at[i])
    &&& forall|k: int| 0 <= k < n && #[trigger] chosen(k) ==> at.contains(k)
}

pub open spec fn rising(at: Seq<int>) -> bool {
    forall|i: int, j: int| 0 <= i < j < at.len() ==> #[trigger] at[i] < #[trigger] at[j]
}

proof fn lemma_rising_push(at: Seq<int>, n: nat, chosen: spec_fn(int) -> bool)
    requires
        lists_all(at, n, chosen),
        rising(at),
    ensures
        chosen(n as int) ==> lists_all(at.push(n as int), n + 1, chosen) && rising(at.push(n as int)),
        !chosen(n as int) ==> lists_all(at, n + 1, chosen),
{
    if chosen(n as int) {
        let w = at.push(n as int);
        assert forall|k: int| 0 <= k < n + 1 && #[trigger] chosen(k) implies w.contains(k) by {
            if k < n {
                let i = choose|i: int| 0 <= i < at.len() && at[i] == k;
                assert(w[i] == k);
            } else {
                assert(w[at.len() as int] == k);
            }
        }
    }
}

/// A rearranged list of positions names the same positions.
proof fn lemma_rearranged(at: Seq<int>, n: nat, chosen: spec_fn(int) -> bool, keys: Seq<int>) -> (w:
    Seq<int>)
    requires
        lists_all(at, n, chosen),
        keys.len() == at.len(),
    ensures
        lists_all(w, n, chosen),
        w.len() == at.len(),
        ranking(keys).len() == at.len(),
        forall|i: int| 0 <= i < w.len() ==> #[trigger] w[i] == at[ranking(keys)[i]],
        forall|i: int| 0 <= i < w.len() ==> 0 <= #[trigger] ranking(keys)[i] < at.len(),
        forall|i: int, j: int|
            0 <= i < j < w.len() ==> goes_before(
                keys,
                #[trigger] ranking(keys)[i],
                #[trigger] ranking(keys)[j],
            ) && ranking(keys)[i] != ranking(keys)[j],
{
    let rank = ranking(keys);
    ranking_exists(keys);
    ranking_is_permutation(keys, rank);
    let w = Seq::new(rank.len(), |i: int| at[rank[i]]);
    assert forall|k: int| 0 <= k < n && #[trigger] chosen(k) implies w.contains(k) by {
        let i = choose|i: int| 0 <= i < at.len() && at[i] == k;
        assert(rank.contains(i));
        let a = choose|a: int| 0 <= a < rank.len() && rank[a] == i;
        assert(w[a] == k);
    }
    w
}

// ---------------------------------------------------------------------------
// Search
// ---------------------------------------------------------------------------

proof fn lemma_matched(entries: Seq<AppEntry>, scores: Seq<Option<i64>>) -> (at: Seq<int>)
    requires
        scores.len() == entries.len(),
    ensures
        lists_all(at, entries.len(), |k: int| scores[k] is Some),
        rising(at),
        at.len() == matched(entries, scores).len(),
        forall|i: int|
            0 <= i < at.len() ==> #[trigger] matched(entries, scores)[i] == (
                entries[at[i]],
                scores[at[i]]->0,
            ),
    decreases entries.len(),
{
    let chosen = |k: int| scores[k] is Some;
    if entries.len() == 0 {
        assert(lists_all(Seq::empty(), 0, chosen));
        Seq::empty()
    } else {
        let e = entries.drop_last();
        let s = scores.drop_last();
        let at = lemma_matched(e, s);
        let short = |k: int| s[k] is Some;
        let n = e.len();
        assert(lists_all(at, n, chosen)) by {
            assert forall|i: int| 0 <= i < at.len() implies 0 <= #[trigger] at[i] < n && chosen(
                at[i],
            ) by {
                assert(short(at[i]));
            }
            assert forall|k: int| 0 <= k < n && #[trigger] chosen(k) implies at.contains(k) by {
                assert(short(k));
            }
        }
        lemma_rising_push(at, n, chosen);
        if scores.last() is Some {
            assert(chosen(n as int));
            at.push(n as int)
        } else {
            assert(!chosen(n as int));
            at
        }
    }
}

/// Ranking is complete and exact: every entry with a score is listed once, with
/// that score, and no other. A better score stands first, and of equal scores
/// the entry that came first.
pub proof fn ranking_lists_every_match(entries: Seq<AppEntry>, scores: Seq<Option<i64>>) -> (at: Seq<
    int,
>)
    requires
        scores.len() == entries.len(),
    ensures
        at.no_duplicates(),
        at.len() == ranked(entries, scores).len(),
        forall|k: int| at.contains(k) <==> 0 <= k < entries.len() && #[trigger] scores[k] is Some,
        forall|i: int|
            0 <= i < at.len() ==> (#[trigger] ranked(entries, scores)[i]).0 == entries[at[i]]
                && scores[at[i]] == Some(ranked(entries, scores)[i].1),
        forall|i: int, j: int|
            0 <= i < j < at.len() ==> scores[#[trigger] at[i]]->0 > scores[#[trigger] at[j]]->0 || (
            scores[at[i]] == scores[at[j]] && at[i] < at[j]),
{
    let chosen = |k: int| scores[k] is Some;
    let pos = lemma_matched(entries, scores);
    let m = matched(entries, scores);
    let keys = match_keys(m);
    let w = lemma_rearranged(pos, entries.len(), chosen, keys);
    let rank = ranking(keys);
    assert forall|k: int| w.contains(k) <==> 0 <= k < entries.len() && #[trigger] scores[k] is Some by {
        if w.contains(k) {
            let i = choose|i: int| 0 <= i < w.len() && w[i] == k;
            assert(chosen(w[i]));
        }
        if 0 <= k < entries.len() && scores[k] is Some {
            assert(chosen(k));
        }
    }
    assert forall|i: int| 0 <= i < w.len() implies (#[trigger] ranked(entries, scores)[i]).0
        == entries[w[i]] && scores[w[i]] == Some(ranked(entries, scores)[i].1) by {
        assert(ranked(entries, scores)[i] == m[rank[i]]);
        assert(chosen(w[i]));
    }
    assert forall|i: int, j: int| 0 <= i < j < w.len() implies scores[#[trigger] w[i]]->0
        > scores[#[trigger] w[j]]->0 || (scores[w[i]] == scores[w[j]] && w[i] < w[j]) by {
        assert(goes_before(keys, rank[i], rank[j]));
        assert(keys[rank[i]] == m[rank[i]].1 && keys[rank[j]] == m[rank[j]].1);
        assert(chosen(w[i]) && chosen(w[j]));
        if rank[i] < rank[j] {
            assert(pos[rank[i]] < pos[rank[j]]);
        }
    }
    w
}

/// Search is complete and exact. For a query that is not blank, `at` names the
/// places of the cache whose search text has a score for the trimmed query, each
/// once; the results are the entries at those places in that order, unchanged but
/// for the score, which is theirs. A better score stands first, and of equal
/// scores the entry that came first.
pub proof fn search_finds_every_match(cache: Seq<AppEntry>, query: Seq<char>) -> (at: Seq<int>)
    requires
        exists|i: int| 0 <= i < query.len() && !white(#[trigger] query[i]),
    ensures
        at.no_duplicates(),
        forall|k: int|
            at.contains(k) <==> 0 <= k < cache.len() && match_score(
                (#[trigger] cache[k]).search_text@,
                trimmed(query),
            ) is Some,
        found(cache, query).len() == at.len(),
        forall|i: int|
            0 <= i < at.len() ==> match_score(cache[#[trigger] at[i]].search_text@, trimmed(query))
                == Some(found(cache, query)[i].score) && found(cache, query)[i] == (AppEntry {
                score: found(cache, query)[i].score,
                ..cache[at[i]]
            }),
        forall|i: int, j: int|
            0 <= i < j < at.len() ==> found(cache, query)[i].score > found(cache, query)[j].score || (
            found(cache, query)[i].score == found(cache, query)[j].score && #[trigger] at[i]
                < #[trigger] at[j]),
{
    crate::text_laws::blank_texts_vanish(query);
    let q = trimmed(query);
    let scores = text_scores(cache, q);
    let at = ranking_lists_every_match(cache, scores);
    assert forall|k: int|
        at.contains(k) <==> 0 <= k < cache.len() && match_score(
            (#[trigger] cache[k]).search_text@,
            q,
        ) is Some by {
        if 0 <= k < cache.len() {
            assert(scores[k] == match_score(cache[k].search_text@, q));
        }
        if at.contains(k) {
            assert(scores[k] is Some);
        }
    }
    assert forall|i: int| 0 <= i < at.len() implies match_score(
        cache[#[trigger] at[i]].search_text@,
        q,
    ) == Some(found(cache, query)[i].score) && found(cache, query)[i] == (AppEntry {
        score: found(cache, query)[i].score,
        ..cache[at[i]]
    }) by {
        assert(at.contains(at[i]));
        assert(scores[at[i]] is Some);
        assert(ranked(cache, scores)[i].0 == cache[at[i]]);
    }
    assert forall|i: int, j: int| 0 <= i < j < at.len() implies found(cache, query)[i].score > found(
        cache,
        query,
    )[j].score || (found(cache, query)[i].score == found(cache, query)[j].score && #[trigger] at[i]
        < #[trigger] at[j]) by {
        assert(at.contains(at[i]) && at.contains(at[j]));
        assert(scores[at[i]] is Some && scores[at[j]] is Some);
        assert(ranked(cache, scores)[i].0 == cache[at[i]]);
        assert(ranked(cache, scores)[j].0 == cache[at[j]]);
    }
    at
}

/// An entry that matches is among the results with its score, and everything
/// that is found matches.
pub proof fn matches_are_found(cache: Seq<AppEntry>, query: Seq<char>, k: int, s: i64)
    requires
        exists|i: int| 0 <= i < query.len() && !white(#[trigger] query[i]),
        0 <= k < cache.len(),
        match_score(cache[k].search_text@, trimmed(query)) == Some(s),
    ensures
        found(cache, query).contains(AppEntry { score: s, ..cache[k] }),
{
    let at = search_finds_every_match(cache, query);
    assert(at.contains(k));
    let i = choose|i: int| 0 <= i < at.len() && at[i] == k;
    assert(match_score(cache[at[i]].search_text@, trimmed(query)) == Some(found(cache, query)[i].score));
    assert(found(cache, query)[i] == AppEntry { score: s, ..cache[k] });
}

/// A blank query shows the whole cache as it stands.
pub proof fn blank_queries_show_all(cache: Seq<AppEntry>, query: Seq<char>)
    requires
        forall|i: int| 0 <= i < query.len() ==> white(#[trigger] query[i]),
    ensures
        found(cache, query) == cache,
{
    crate::text_laws::blank_texts_vanish(query);
}

// ---------------------------------------------------------------------------
// Launch history
// ---------------------------------------------------------------------------

proof fn lemma_used(c: Seq<(String, u64)>, entries: Seq<AppEntry>) -> (at: (Seq<int>, Seq<int>))
    ensures
        lists_all(at.0, entries.len(), |k: int| launches(c, entries[k].command@) > 0),
        lists_all(at.1, entries.len(), |k: int| launches(c, entries[k].command@) == 0),
        rising(at.0),
        rising(at.1),
        at.0.len() == used(c, entries).len(),
        at.1.len() == unused(c, entries).len(),
        forall|i: int| 0 <= i < at.0.len() ==> #[trigger] used(c, entries)[i] == entries[at.0[i]],
        forall|i: int| 0 <= i < at.1.len() ==> #[trigger] unused(c, entries)[i] == entries[at.1[i]],
    decreases entries.len(),
{
    let often = |k: int| launches(c, entries[k].command@) > 0;
    let never = |k: int| launches(c, entries[k].command@) == 0;
    if entries.len() == 0 {
        assert(lists_all(Seq::empty(), 0, often));
        assert(lists_all(Seq::empty(), 0, never));
        (Seq::empty(), Seq::empty())
    } else {
        let e = entries.drop_last();
        let at = lemma_used(c, e);
        let o = |k: int| launches(c, e[k].command@) > 0;
        let v = |k: int| launches(c, e[k].command@) == 0;
        let n = e.len();
        assert(lists_all(at.0, n, often)) by {
            assert forall|i: int| 0 <= i < at.0.len() implies 0 <= #[trigger] at.0[i] < n && often(
                at.0[i],
            ) by {
                assert(o(at.0[i]));
            }
            assert forall|k: int| 0 <= k < n && #[trigger] often(k) implies at.0.contains(k) by {
                assert(o(k));
            }
        }
        assert(lists_all(at.1, n, never)) by {
            assert forall|i: int| 0 <= i < at.1.len() implies 0 <= #[trigger] at.1[i] < n && never(
                at.1[i],
            ) by {
                assert(v(at.1[i]));
            }
            assert forall|k: int| 0 <= k < n && #[trigger] never(k) implies at.1.contains(k) by {
                assert(v(k));
            }
        }
        lemma_rising_push(at.0, n, often);
        lemma_rising_push(at.1, n, never);
        if launches(c, entries.last().command@) > 0 {
            assert(often(n as int) && !never(n as int));
            (at.0.push(n as int), at.1)
        } else {
            assert(!often(n as int) && never(n as int));
            (at.0, at.1.push(n as int))
        }
    }
}

/// Partitioning by history: the first part holds the entries that were started
/// before, each once. An entry with more launches stands before one with fewer,
/// and entries with equally many keep their order. The second part holds those
/// that were never started, in order.
pub proof fn most_used_come_first(c: Seq<(String, u64)>, entries: Seq<AppEntry>) -> (at: (
    Seq<int>,
    Seq<int>,
))
    ensures
        at.0.no_duplicates(),
        at.1.no_duplicates(),
        forall|k: int|
            at.0.contains(k) <==> 0 <= k < entries.len() && launches(
                c,
                (#[trigger] entries[k]).command@,
            ) > 0,
        forall|k: int|
            at.1.contains(k) <==> 0 <= k < entries.len() && launches(
                c,
                (#[trigger] entries[k]).command@,
            ) == 0,
        frequent(c, entries).len() == at.0.len(),
        unused(c, entries).len() == at.1.len(),
        forall|i: int| 0 <= i < at.0.len() ==> frequent(c, entries)[i] == entries[#[trigger] at.0[i]],
        forall|i: int| 0 <= i < at.1.len() ==> unused(c, entries)[i] == entries[#[trigger] at.1[i]],
        forall|i: int, j: int|
            0 <= i < j < at.0.len() ==> launches(c, (#[trigger] frequent(c, entries)[i]).command@)
                >= launches(c, (#[trigger] frequent(c, entries)[j]).command@),
        forall|i: int, j: int|
            0 <= i < j < at.0.len() && launches(c, entries[#[trigger] at.0[i]].command@) == launches(
                c,
                entries[#[trigger] at.0[j]].command@,
            ) ==> at.0[i] < at.0[j],
        forall|i: int, j: int| 0 <= i < j < at.1.len() ==> #[trigger] at.1[i] < #[trigger] at.1[j],
{
    let often = |k: int| launches(c, entries[k].command@) > 0;
    let never = |k: int| launches(c, entries[k].command@) == 0;
    let pos = lemma_used(c, entries);
    let u = used(c, entries);
    let keys = count_keys(c, u);
    let w = lemma_rearranged(pos.0, entries.len(), often, keys);
    let rank = ranking(keys);
    let f = frequent(c, entries);
    assert forall|k: int|
        w.contains(k) <==> 0 <= k < entries.len() && launches(c, (#[trigger] entries[k]).command@) > 0 by {
        if w.contains(k) {
            let i = choose|i: int| 0 <= i < w.len() && w[i] == k;
            assert(often(w[i]));
        }
        if 0 <= k < entries.len() && launches(c, entries[k].command@) > 0 {
            assert(often(k));
        }
    }
    assert forall|k: int|
        pos.1.contains(k) <==> 0 <= k < entries.len() && launches(c, (#[trigger] entries[k]).command@)
            == 0 by {
        if pos.1.contains(k) {
            let i = choose|i: int| 0 <= i < pos.1.len() && pos.1[i] == k;
            assert(never(pos.1[i]));
        }
        if 0 <= k < entries.len() && launches(c, entries[k].command@) == 0 {
            assert(never(k));
        }
    }
    assert forall|i: int| 0 <= i < w.len() implies f[i] == entries[#[trigger] w[i]] by {
        assert(f[i] == u[rank[i]]);
    }
    assert forall|i: int| 0 <= i < pos.1.len() implies unused(c, entries)[i] == entries[#[trigger] pos.1[i]] by {
        assert(unused(c, entries)[i] == entries[pos.1[i]]);
    }
    assert forall|i: int, j: int| 0 <= i < j < w.len() implies launches(
        c,
        (#[trigger] f[i]).command@,
    ) >= launches(c, (#[trigger] f[j]).command@) by {
        assert(goes_before(keys, rank[i], rank[j]));
        assert(f[i] == u[rank[i]] && f[j] == u[rank[j]]);
        assert(keys[rank[i]] == launches(c, u[rank[i]].command@));
        assert(keys[rank[j]] == launches(c, u[rank[j]].command@));
    }
    assert forall|i: int, j: int|
        0 <= i < j < w.len() && launches(c, entries[#[trigger] w[i]].command@) == launches(
            c,
            entries[#[trigger] w[j]].command@,
        ) implies w[i] < w[j] by {
        assert(goes_before(keys, rank[i], rank[j]));
        assert(u[rank[i]] == entries[w[i]] && u[rank[j]] == entries[w[j]]);
        assert(keys[rank[i]] == launches(c, u[rank[i]].command@));
        assert(keys[rank[j]] == launches(c, u[rank[j]].command@));
        assert(pos.0[rank[i]] < pos.0[rank[j]]);
    }
    (w, pos.1)
}

/// Sorting by frecency keeps every entry once. The larger sum of score and boost
/// stands first, and of equal sums the entry that came first.
pub proof fn frecency_sorts_all(entries: Seq<AppEntry>, boosts: Seq<i64>) -> (at: Seq<int>)
    requires
        boosts.len() == entries.len(),
    ensures
        at.no_duplicates(),
        forall|k: int| #[trigger] at.contains(k) <==> 0 <= k < entries.len(),
        by_frecency(entries, boosts).len() == at.len(),
        at.len() == entries.len(),
        forall|i: int| 0 <= i < at.len() ==> by_frecency(entries, boosts)[i] == entries[#[trigger] at[i]],
        forall|i: int, j: int|
            #![trigger at[i], at[j]]
            0 <= i < j < at.len() ==> {
                let x = entries[at[i]].score + boosts[at[i]];
                let y = entries[at[j]].score + boosts[at[j]];
                x > y || (x == y && at[i] < at[j])
            },
{
    let keys = frecency_keys(entries, boosts);
    let rank = ranking(keys);
    ranking_exists(keys);
    ranking_is_permutation(keys, rank);
    assert forall|k: int| #[trigger] rank.contains(k) implies 0 <= k < entries.len() by {
        let i = choose|i: int| 0 <= i < rank.len() && rank[i] == k;
    }
    assert forall|i: int, j: int|
        #![trigger rank[i], rank[j]]
        0 <= i < j < rank.len() implies {
            let x = entries[rank[i]].score + boosts[rank[i]];
            let y = entries[rank[j]].score + boosts[rank[j]];
            x > y || (x == y && rank[i] < rank[j])
        } by {
        assert(goes_before(keys, rank[i], rank[j]));
    }
    rank
}

} // verus!
