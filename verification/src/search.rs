//! Fuzzy search over entries, and the daemon's cache.
use crate::entry::{copy_entries, AppEntry};
use crate::frame::IPCMessage;
use crate::order::{arranged, rank_desc, ranking, ranking_exists, ranking_is_permutation, wide};
use crate::path::{extension_of, has_extension};
use crate::text::{chars_of, same_str, string_of, texts, trim, trimmed};
use fuzzy_matcher::skim::SkimMatcherV2;
use fuzzy_matcher::FuzzyMatcher;
use vstd::prelude::*;
use vstd::string::StrSliceExecFns;

verus! {

// ---------------------------------------------------------------------------
// Matching
// ---------------------------------------------------------------------------

/// The score that skim's fuzzy matcher, with its default settings, gives a
/// pattern within a text; nothing where it does not match.
pub uninterp spec fn skim_score(choice: Seq<char>, pattern: Seq<char>) -> Option<i64>;

/// The longest pattern whose score is sure to fit the matcher's 32 bits. A
/// pattern scores at most 32 for each of its characters.
pub const PATTERN_LIMIT: usize = 67108863;

/// `SkimMatcherV2::default().fuzzy_match(choice, pattern)`: the score depends on
/// the two texts alone. A longer pattern could overflow the matcher's scores.
#[verifier::external_body]
fn fuzzy_score(choice: &str, pattern: &str) -> (r: Option<i64>)
    requires
        pattern@.len() <= PATTERN_LIMIT,
    ensures
        r == skim_score(choice@, pattern@),
{
    SkimMatcherV2::default().fuzzy_match(choice, pattern)
}

/// How well a pattern matches a text. The limit on the pattern is this library's
/// own: skim would still try to score a longer one, here it matches nothing.
pub open spec fn match_score(choice: Seq<char>, pattern: Seq<char>) -> Option<i64> {
    if pattern.len() <= PATTERN_LIMIT {
        skim_score(choice, pattern)
    } else {
        None
    }
}

/// Score a pattern within a text; see [`match_score`] for very long patterns.
pub fn score_match(choice: &str, pattern: &str) -> (r: Option<i64>)
    ensures
        r == match_score(choice@, pattern@),
{
    if pattern.unicode_len() <= PATTERN_LIMIT {
        fuzzy_score(choice, pattern)
    } else {
        None
    }
}

/// The entries that have a score, in order, each with its score.
pub open spec fn matched(entries: Seq<AppEntry>, scores: Seq<Option<i64>>) -> Seq<(AppEntry, i64)>
    decreases entries.len(),
{
    if entries.len() == 0 {
        Seq::empty()
    } else {
        let before = matched(entries.drop_last(), scores.drop_last());
        match scores.last() {
            Some(s) => before.push((entries.last(), s)),
            None => before,
        }
    }
}

pub open spec fn match_keys(m: Seq<(AppEntry, i64)>) -> Seq<int> {
    Seq::new(m.len(), |i: int| m[i].1 as int)
}

/// The entries that have a score, best first, ties in order.
pub open spec fn ranked(entries: Seq<AppEntry>, scores: Seq<Option<i64>>) -> Seq<(AppEntry, i64)> {
    let m = matched(entries, scores);
    arranged(m, ranking(match_keys(m)))
}

/// The entries that have a score, best first, with their scores.
pub fn rank_matches(entries: &Vec<AppEntry>, scores: &Vec<Option<i64>>) -> (r: Vec<(AppEntry, i64)>)
    requires
        scores@.len() == entries@.len(),
    ensures
        r@ == ranked(entries@, scores@),
        r@.len() == matched(entries@, scores@).len(),
{
    let n: usize = entries.len();
    let mut found: Vec<(AppEntry, i64)> = Vec::new();
    let mut keys: Vec<i128> = Vec::new();
    let mut i: usize = 0;
    proof {
        assert(entries@.take(0) =~= Seq::empty());
    }
    while i < n
        invariant
            n == entries@.len(),
            n == scores@.len(),
            i <= n,
            found@ == matched(entries@.take(i as int), scores@.take(i as int)),
            keys@.len() == found@.len(),
            forall|k: int| 0 <= k < keys@.len() ==> #[trigger] keys@[k] == found@[k].1,
        decreases n - i,
    {
        proof {
            assert(entries@.take(i + 1).drop_last() =~= entries@.take(i as int));
            assert(scores@.take(i + 1).drop_last() =~= scores@.take(i as int));
        }
        match scores[i] {
            Some(s) => {
                found.push((entries[i].copy(), s));
                keys.push(s as i128);
            },
            None => {},
        }
        i += 1;
    }
    proof {
        assert(entries@.take(n as int) =~= entries@);
        assert(scores@.take(n as int) =~= scores@);
        assert(wide(keys@) =~= match_keys(found@));
    }
    let order = rank_desc(&keys);
    let ghost rank = ranking(match_keys(found@));
    let mut out: Vec<(AppEntry, i64)> = Vec::new();
    let mut j: usize = 0;
    while j < order.len()
        invariant
            j <= order@.len(),
            order@.len() == found@.len(),
            order@.map_values(|x: usize| x as int) == rank,
            forall|k: int| 0 <= k < order@.len() ==> #[trigger] order@[k] < found@.len(),
            out@ == arranged(found@, rank.take(j as int)),
        decreases order@.len() - j,
    {
        let at: usize = order[j];
        out.push((found[at].0.copy(), found[at].1));
        proof {
            assert(rank[j as int] == at);
            assert(out@ =~= arranged(found@, rank.take(j + 1)));
        }
        j += 1;
    }
    proof {
        assert(rank.take(order@.len() as int) =~= rank);
    }
    out
}

/// The scores of the entries' search texts for a pattern.
pub open spec fn text_scores(entries: Seq<AppEntry>, pattern: Seq<char>) -> Seq<Option<i64>> {
    Seq::new(entries.len(), |i: int| match_score(entries[i].search_text@, pattern))
}

/// The scores of the entries' names for a pattern.
pub open spec fn name_scores(entries: Seq<AppEntry>, pattern: Seq<char>) -> Seq<Option<i64>> {
    Seq::new(entries.len(), |i: int| match_score(entries[i].name@, pattern))
}

pub fn score_texts(entries: &Vec<AppEntry>, pattern: &str) -> (r: Vec<Option<i64>>)
    ensures
        r@ == text_scores(entries@, pattern@),
{
    let mut out: Vec<Option<i64>> = Vec::new();
    let mut i: usize = 0;
    while i < entries.len()
        invariant
            i <= entries@.len(),
            out@.len() == i,
            forall|k: int| 0 <= k < i ==> #[trigger] out@[k] == text_scores(entries@, pattern@)[k],
        decreases entries@.len() - i,
    {
        out.push(score_match(entries[i].search_text.as_str(), pattern));
        i += 1;
    }
    proof {
        assert(out@ =~= text_scores(entries@, pattern@));
    }
    out
}

pub fn score_names(entries: &Vec<AppEntry>, pattern: &str) -> (r: Vec<Option<i64>>)
    ensures
        r@ == name_scores(entries@, pattern@),
{
    let mut out: Vec<Option<i64>> = Vec::new();
    let mut i: usize = 0;
    while i < entries.len()
        invariant
            i <= entries@.len(),
            out@.len() == i,
            forall|k: int| 0 <= k < i ==> #[trigger] out@[k] == name_scores(entries@, pattern@)[k],
        decreases entries@.len() - i,
    {
        out.push(score_match(entries[i].name.as_str(), pattern));
        i += 1;
    }
    proof {
        assert(out@ =~= name_scores(entries@, pattern@));
    }
    out
}

/// The entries of a ranking, each carrying the score it was ranked by.
pub open spec fn scored(m: Seq<(AppEntry, i64)>) -> Seq<AppEntry> {
    Seq::new(m.len(), |i: int| AppEntry { score: m[i].1, ..m[i].0 })
}

pub fn with_scores(m: Vec<(AppEntry, i64)>) -> (r: Vec<AppEntry>)
    ensures
        r@ == scored(m@),
{
    let ghost src = m@;
    let mut out: Vec<AppEntry> = Vec::new();
    for pair in it: m
        invariant
            it.seq() == src,
            out@.len() == it.index(),
            forall|k: int| 0 <= k < it.index() ==> #[trigger] out@[k] == scored(src)[k],
    {
        let mut e = pair.0;
        e.score = pair.1;
        out.push(e);
    }
    proof {
        assert(out@ =~= scored(src));
    }
    out
}

/// What a ranking leaves: every entry in it has a score, and a better score
/// never stands behind a worse one.
pub proof fn ranking_is_by_score(entries: Seq<AppEntry>, scores: Seq<Option<i64>>)
    requires
        scores.len() == entries.len(),
    ensures
        ranked(entries, scores).len() == matched(entries, scores).len(),
        forall|i: int, j: int|
            0 <= i < j < ranked(entries, scores).len() ==> (#[trigger] ranked(entries, scores)[i]).1
                >= (#[trigger] ranked(entries, scores)[j]).1,
        forall|i: int|
            0 <= i < ranked(entries, scores).len() ==> exists|k: int|
                0 <= k < entries.len() && (#[trigger] ranked(entries, scores)[i]).0 == entries[k]
                    && #[trigger] scores[k] == Some(ranked(entries, scores)[i].1),
{
    let m = matched(entries, scores);
    let keys = match_keys(m);
    let rank = ranking(keys);
    ranking_exists(keys);
    ranking_is_permutation(keys, rank);
    let r = ranked(entries, scores);
    assert forall|i: int, j: int| 0 <= i < j < r.len() implies (#[trigger] r[i]).1 >= (#[trigger] r[j]).1 by {
        assert(crate::order::goes_before(keys, rank[i], rank[j]));
        assert(r[i] == m[rank[i]]);
        assert(r[j] == m[rank[j]]);
    }
    assert forall|i: int| 0 <= i < r.len() implies exists|k: int|
        0 <= k < entries.len() && (#[trigger] r[i]).0 == entries[k] && #[trigger] scores[k] == Some(r[i].1) by {
        assert(r[i] == m[rank[i]]);
        lemma_matched_source(entries, scores, rank[i]);
    }
}

proof fn lemma_matched_source(entries: Seq<AppEntry>, scores: Seq<Option<i64>>, i: int)
    requires
        scores.len() == entries.len(),
        0 <= i < matched(entries, scores).len(),
    ensures
        exists|k: int|
            0 <= k < entries.len() && matched(entries, scores)[i].0 == entries[k] && #[trigger] scores[k]
                == Some(matched(entries, scores)[i].1),
    decreases entries.len(),
{
    if entries.len() > 0 {
        let e = entries.drop_last();
        let s = scores.drop_last();
        if i < matched(e, s).len() {
            lemma_matched_source(e, s, i);
            let k = choose|k: int|
                0 <= k < e.len() && matched(e, s)[i].0 == e[k] && #[trigger] s[k] == Some(matched(e, s)[i].1);
            assert(scores[k] == s[k] && entries[k] == e[k]);
        } else {
            let k = entries.len() - 1;
            assert(scores[k] == Some(matched(entries, scores)[i].1));
        }
    }
}

// ---------------------------------------------------------------------------
// The daemon's cache
// ---------------------------------------------------------------------------

/// No later entry has the id of entry `i`.
pub open spec fn is_last_of_id(l: Seq<AppEntry>, i: int) -> bool {
    forall|j: int| i < j < l.len() ==> (#[trigger] l[j]).id@ != l[i].id@
}

/// The entries that no later one of the same id replaces.
pub open spec fn last_of_each(l: Seq<AppEntry>, upto: nat) -> Seq<AppEntry>
    decreases upto,
{
    if upto == 0 || upto > l.len() {
        Seq::empty()
    } else {
        let before = last_of_each(l, (upto - 1) as nat);
        if is_last_of_id(l, upto - 1) {
            before.push(l[upto - 1])
        } else {
            before
        }
    }
}

fn replaced_later(l: &Vec<AppEntry>, i: usize) -> (r: bool)
    requires
        i < l@.len(),
    ensures
        r == !is_last_of_id(l@, i as int),
{
    let n: usize = l.len();
    let mut j: usize = i + 1;
    while j < n
        invariant
            n == l@.len(),
            i < n,
            i < j <= n,
            forall|k: int| i < k < j ==> (#[trigger] l@[k]).id@ != l@[i as int].id@,
        decreases n - j,
    {
        if same_str(l[j].id.as_str(), l[i].id.as_str()) {
            proof {
                assert(l@[j as int].id@ == l@[i as int].id@);
            }
            return true;
        }
        j += 1;
    }
    false
}

/// One entry for each id. A later one, from the user's own directory, replaces
/// an earlier one from the system's.
pub fn unique_by_id(entries: &Vec<AppEntry>) -> (r: Vec<AppEntry>)
    ensures
        r@ == last_of_each(entries@, entries@.len()),
{
    let n: usize = entries.len();
    let mut out: Vec<AppEntry> = Vec::new();
    let mut i: usize = 0;
    while i < n
        invariant
            n == entries@.len(),
            i <= n,
            out@ == last_of_each(entries@, i as nat),
        decreases n - i,
    {
        if !replaced_later(entries, i) {
            out.push(entries[i].copy());
        }
        i += 1;
    }
    out
}

/// An entry comes from one of the first `n` positions that nothing replaces.
pub open spec fn comes_from(l: Seq<AppEntry>, n: nat, e: AppEntry) -> bool {
    exists|k: int| 0 <= k < n && #[trigger] is_last_of_id(l, k) && l[k] == e
}

/// An entry of the list has that id.
pub open spec fn has_id(l: Seq<AppEntry>, id: Seq<char>) -> bool {
    exists|i: int| 0 <= i < l.len() && (#[trigger] l[i]).id@ == id
}

/// No two entries have the same id.
pub open spec fn ids_unique(l: Seq<AppEntry>) -> bool {
    forall|i: int, j: int| 0 <= i < j < l.len() ==> (#[trigger] l[i]).id@ != (#[trigger] l[j]).id@
}

/// The cache holds each id once and every id that came in, each with the last
/// entry that came in under it.
pub proof fn cache_is_keyed_by_id(l: Seq<AppEntry>)
    ensures
        ids_unique(last_of_each(l, l.len())),
        forall|k: int| 0 <= k < l.len() ==> has_id(last_of_each(l, l.len()), (#[trigger] l[k]).id@),
        forall|i: int|
            0 <= i < last_of_each(l, l.len()).len() ==> comes_from(
                l,
                l.len(),
                #[trigger] last_of_each(l, l.len())[i],
            ),
{
    let r = last_of_each(l, l.len());
    assert forall|i: int, j: int| 0 <= i < j < r.len() implies (#[trigger] r[i]).id@ != (#[trigger] r[j]).id@ by {
        lemma_distinct(l, l.len(), i, j);
    }
    assert forall|k: int| 0 <= k < l.len() implies has_id(r, (#[trigger] l[k]).id@) by {
        let m = lemma_find_last(l, k);
        lemma_kept(l, l.len(), m);
        let i = choose|i: int| 0 <= i < r.len() && #[trigger] r[i] == l[m];
        assert(r[i].id@ == l[k].id@);
    }
    assert forall|i: int| 0 <= i < r.len() implies comes_from(l, l.len(), #[trigger] r[i]) by {
        lemma_source(l, l.len(), i);
    }
}

/// The last position that has the id of entry `k`.
proof fn lemma_find_last(l: Seq<AppEntry>, k: int) -> (m: int)
    requires
        0 <= k < l.len(),
    ensures
        k <= m < l.len(),
        l[m].id@ == l[k].id@,
        is_last_of_id(l, m),
    decreases l.len() - k,
{
    if is_last_of_id(l, k) {
        k
    } else {
        let j = choose|j: int| k < j < l.len() && (#[trigger] l[j]).id@ == l[k].id@;
        lemma_find_last(l, j)
    }
}

proof fn lemma_kept(l: Seq<AppEntry>, n: nat, k: int)
    requires
        n <= l.len(),
        0 <= k < n,
        is_last_of_id(l, k),
    ensures
        last_of_each(l, n).contains(l[k]),
    decreases n,
{
    let p = (n - 1) as nat;
    let b = last_of_each(l, p);
    let r = last_of_each(l, n);
    if k < p {
        lemma_kept(l, p, k);
        let i = choose|i: int| 0 <= i < b.len() && b[i] == l[k];
        assert(r[i] == l[k]);
    } else {
        assert(r[r.len() - 1] == l[k]);
    }
}

proof fn lemma_source(l: Seq<AppEntry>, n: nat, i: int)
    requires
        n <= l.len(),
        0 <= i < last_of_each(l, n).len(),
    ensures
        comes_from(l, n, last_of_each(l, n)[i]),
    decreases n,
{
    let p = (n - 1) as nat;
    let b = last_of_each(l, p);
    if i < b.len() {
        lemma_source(l, p, i);
        let k = choose|k: int| 0 <= k < p && #[trigger] is_last_of_id(l, k) && l[k] == b[i];
        assert(is_last_of_id(l, k));
    } else {
        assert(is_last_of_id(l, n - 1));
    }
}

proof fn lemma_distinct(l: Seq<AppEntry>, n: nat, i: int, j: int)
    requires
        n <= l.len(),
        0 <= i < j < last_of_each(l, n).len(),
    ensures
        last_of_each(l, n)[i].id@ != last_of_each(l, n)[j].id@,
    decreases n,
{
    let p = (n - 1) as nat;
    let b = last_of_each(l, p);
    if j < b.len() {
        lemma_distinct(l, p, i, j);
    } else {
        lemma_source(l, p, i);
        let k = choose|k: int| 0 <= k < p && #[trigger] is_last_of_id(l, k) && l[k] == b[i];
        assert(l[n - 1].id@ != l[k].id@);
    }
}

/// What the daemon finds: everything for a blank query, else the entries whose
/// search text matches, best first and with their scores.
pub open spec fn found(cache: Seq<AppEntry>, query: Seq<char>) -> Seq<AppEntry> {
    let q = trimmed(query);
    if q.len() == 0 {
        cache
    } else {
        scored(ranked(cache, text_scores(cache, q)))
    }
}

/// What is found comes by relevance: a better score never stands behind a worse
/// one, and each entry's score is the one its search text has.
pub proof fn results_carry_relevance(cache: Seq<AppEntry>, query: Seq<char>)
    requires
        trimmed(query).len() > 0,
    ensures
        forall|i: int, j: int|
            0 <= i < j < found(cache, query).len() ==> (#[trigger] found(cache, query)[i]).score >= (
            #[trigger] found(cache, query)[j]).score,
        forall|i: int|
            0 <= i < found(cache, query).len() ==> match_score(
                (#[trigger] found(cache, query)[i]).search_text@,
                trimmed(query),
            ) == Some(found(cache, query)[i].score),
{
    let scores = text_scores(cache, trimmed(query));
    let m = ranked(cache, scores);
    let r = found(cache, query);
    ranking_is_by_score(cache, scores);
    assert forall|i: int, j: int| 0 <= i < j < r.len() implies (#[trigger] r[i]).score >= (#[trigger] r[j]).score by {
        assert(m[i].1 >= m[j].1);
    }
    assert forall|i: int| 0 <= i < r.len() implies match_score(
        (#[trigger] r[i]).search_text@,
        trimmed(query),
    ) == Some(r[i].score) by {
        let k = choose|k: int|
            0 <= k < cache.len() && m[i].0 == cache[k] && #[trigger] scores[k] == Some(m[i].1);
        assert(scores[k] == match_score(cache[k].search_text@, trimmed(query)));
    }
}

/// Search the cache.
pub fn search(cache: &Vec<AppEntry>, query: &str) -> (r: Vec<AppEntry>)
    ensures
        r@ == found(cache@, query@),
{
    let c = chars_of(query);
    let q = trim(c.as_slice());
    if q.len() == 0 {
        return copy_entries(cache);
    }
    let pattern = string_of(q);
    let scores = score_texts(cache, pattern.as_str());
    with_scores(rank_matches(cache, &scores))
}

/// The daemon's answer to a message: results for a request, silence for
/// anything else.
pub fn respond(cache: &Vec<AppEntry>, msg: &IPCMessage) -> (r: Option<IPCMessage>)
    ensures
        match *msg {
            IPCMessage::RequestSearch(q) => r matches Some(IPCMessage::ResponseApps(apps)) && apps@
                == found(cache@, q@),
            IPCMessage::ResponseApps(_) => r is None,
        },
{
    match msg {
        IPCMessage::RequestSearch(q) => Some(IPCMessage::ResponseApps(search(cache, q.as_str()))),
        IPCMessage::ResponseApps(_) => None,
    }
}

/// The entries of the daemon's answer; anything else is not an answer, and its
/// query is handed back.
pub fn response_apps(msg: IPCMessage) -> (r: Result<Vec<AppEntry>, String>)
    ensures
        match msg {
            IPCMessage::ResponseApps(apps) => r == Ok::<Vec<AppEntry>, String>(apps),
            IPCMessage::RequestSearch(q) => r == Err::<Vec<AppEntry>, String>(q),
        },
{
    match msg {
        IPCMessage::ResponseApps(apps) => Ok(apps),
        IPCMessage::RequestSearch(q) => Err(q),
    }
}

// ---------------------------------------------------------------------------
// Watching for changes
// ---------------------------------------------------------------------------

/// What happened to a file.
#[derive(Debug, Clone, Copy, PartialEq, Eq, Structural)]
pub enum FileChange {
    Create,
    /// Its contents were written.
    Data,
    /// It was renamed.
    Name,
    Remove,
    /// Anything else, such as access or metadata.
    Other,
}

pub open spec fn desktop_path(p: Seq<char>) -> bool {
    extension_of(p) == Some("desktop"@)
}

/// A change counts if it can alter the cache: a `.desktop` file came, went, was
/// renamed or rewritten.
pub open spec fn relevant(change: FileChange, paths: Seq<String>) -> bool {
    &&& change != FileChange::Other
    &&& exists|i: int| 0 <= i < paths.len() && desktop_path((#[trigger] paths[i])@)
}

pub fn is_relevant_event(change: FileChange, paths: &Vec<String>) -> (r: bool)
    ensures
        r == relevant(change, paths@),
{
    if change == FileChange::Other {
        return false;
    }
    let mut i: usize = 0;
    while i < paths.len()
        invariant
            i <= paths@.len(),
            change != FileChange::Other,
            forall|k: int| 0 <= k < i ==> !desktop_path((#[trigger] paths@[k])@),
        decreases paths@.len() - i,
    {
        if has_extension(paths[i].as_str(), "desktop") {
            proof {
                assert(desktop_path(paths@[i as int]@));
            }
            return true;
        }
        i += 1;
    }
    false
}

/// How long changes have to stay away before the cache is rebuilt.
pub const DEBOUNCE_MS: u64 = 500;

/// Collects changes until they calm down.
#[derive(Debug, Clone, Copy)]
pub struct Debouncer {
    pub pending: bool,
    /// Time of the last change that counts.
    pub last_ms: u64,
}

/// What a change leaves behind.
pub open spec fn noticed(before: Debouncer, counts: bool, now_ms: u64, after: Debouncer) -> bool {
    if counts {
        after.pending && after.last_ms == now_ms
    } else {
        after == before
    }
}

/// What a moment without changes leaves behind, and whether to rebuild then.
pub open spec fn rested(before: Debouncer, now_ms: u64, rebuild: bool, after: Debouncer) -> bool {
    &&& rebuild <==> before.pending && now_ms >= before.last_ms + DEBOUNCE_MS
    &&& after.pending == (before.pending && !rebuild)
    &&& after.last_ms == before.last_ms
}

impl Debouncer {
    pub fn new(now_ms: u64) -> (r: Debouncer)
        ensures
            !r.pending,
            r.last_ms == now_ms,
    {
        Debouncer { pending: false, last_ms: now_ms }
    }

    /// A change came in.
    pub fn event(&mut self, counts: bool, now_ms: u64)
        ensures
            *final(self) == (if counts {
                Debouncer { pending: true, last_ms: now_ms }
            } else {
                *old(self)
            }),
            noticed(*old(self), counts, now_ms, *final(self)),
    {
        if counts {
            self.pending = true;
            self.last_ms = now_ms;
        }
    }

    /// Nothing came in for a while: whether to rebuild now.
    pub fn quiet(&mut self, now_ms: u64) -> (rebuild: bool)
        ensures
            rebuild == (old(self).pending && now_ms - old(self).last_ms >= DEBOUNCE_MS),
            *final(self) == (if rebuild {
                Debouncer { pending: false, ..*old(self) }
            } else {
                *old(self)
            }),
            rested(*old(self), now_ms, rebuild, *final(self)),
    {
        let rebuild = self.pending && now_ms >= self.last_ms && now_ms - self.last_ms >= DEBOUNCE_MS;
        if rebuild {
            self.pending = false;
        }
        rebuild
    }
}

} // verus!
