//! Launch history: how often each command was started.
use crate::entry::{arrange_entries, AppEntry};
use crate::order::{arranged, goes_before, rank_desc, ranking, ranking_exists, ranking_is_permutation, wide};
use crate::path::{file_name, file_name_of, last_named, names_something};
use crate::text::{
    chars_of, has_prefix, index_or_len, is_white, lemma_index_or_len, same_str, split_on,
    starts_with_str, string_of, trim_start, trimmed_start, white,
};
use crate::theme::owned;
use std::collections::BTreeMap;
use vstd::prelude::*;
use vstd::slice::slice_subrange;

verus! {

/// The end of the run of characters that are not white space.
pub open spec fn word_len(s: Seq<char>) -> nat
    decreases s.len(),
{
    if s.len() == 0 || white(s[0]) {
        0
    } else {
        1 + word_len(s.skip(1))
    }
}

/// The first word of a command, or the whole of it where it is blank.
pub open spec fn first_word(s: Seq<char>) -> Seq<char> {
    let t = trimmed_start(s);
    if t.len() == 0 {
        s
    } else {
        t.take(word_len(t) as int)
    }
}

/// The history key of a command: commands that set an environment count as they
/// stand, others by the file name of their program.
pub open spec fn key_of(command: Seq<char>) -> Seq<char> {
    if has_prefix(command, "env "@) {
        command
    } else {
        match file_name_of(first_word(command)) {
            Some(name) => name,
            None => command,
        }
    }
}

pub(crate) fn word_end(s: &[char]) -> (r: usize)
    ensures
        r == word_len(s@),
        r <= s@.len(),
{
    let mut i: usize = 0;
    proof {
        assert(s@.skip(0) =~= s@);
    }
    while i < s.len() && !is_white(s[i])
        invariant
            i <= s@.len(),
            word_len(s@) == i + word_len(s@.skip(i as int)),
        decreases s@.len() - i,
    {
        i += 1;
        proof {
            assert(s@.skip(i - 1).skip(1) =~= s@.skip(i as int));
        }
    }
    i
}

/// Launch counts by key, each key once.
#[derive(Debug)]
pub struct FreqHistory {
    pub counts: Vec<(String, u64)>,
}

/// The count stored under exactly that key.
pub open spec fn stored(c: Seq<(String, u64)>, key: Seq<char>) -> Option<u64>
    decreases c.len(),
{
    if c.len() == 0 {
        None
    } else if c[0].0@ == key {
        Some(c[0].1)
    } else {
        stored(c.skip(1), key)
    }
}

/// The counts stored under all keys that normalize to that key, added up.
pub open spec fn total(c: Seq<(String, u64)>, key: Seq<char>) -> nat
    decreases c.len(),
{
    if c.len() == 0 {
        0
    } else {
        total(c.drop_last(), key) + if key_of(c.last().0@) == key {
            c.last().1 as nat
        } else {
            0
        }
    }
}

/// A count, up to the largest there is.
pub open spec fn capped(n: nat) -> u64 {
    if n > u64::MAX {
        u64::MAX
    } else {
        n as u64
    }
}

/// How often a command was started: records with a full path and records with
/// the program's name alone count together.
pub open spec fn launches(c: Seq<(String, u64)>, command: Seq<char>) -> u64 {
    capped(total(c, key_of(command)))
}

/// One more, up to the largest count there is.
pub open spec fn one_more(n: u64) -> u64 {
    if n == u64::MAX {
        n
    } else {
        (n + 1) as u64
    }
}

/// The count that a launch leaves under its key.
pub open spec fn counted(c: Seq<(String, u64)>, key: Seq<char>) -> u64 {
    match stored(c, key) {
        Some(n) => one_more(n),
        None => 1,
    }
}

pub open spec fn keys_unique(c: Seq<(String, u64)>) -> bool {
    forall|i: int, j: int| 0 <= i < j < c.len() ==> (#[trigger] c[i]).0@ != (#[trigger] c[j]).0@
}

proof fn lemma_stored(c: Seq<(String, u64)>, i: int)
    requires
        keys_unique(c),
        0 <= i < c.len(),
    ensures
        stored(c, c[i].0@) == Some(c[i].1),
    decreases c.len(),
{
    if i > 0 {
        assert(c[0].0@ != c[i].0@);
        assert(c.skip(1)[i - 1] == c[i]);
        assert(keys_unique(c.skip(1))) by {
            assert forall|a: int, b: int| 0 <= a < b < c.skip(1).len() implies (#[trigger] c.skip(
                1,
            )[a]).0@ != (#[trigger] c.skip(1)[b]).0@ by {
                assert(c[a + 1].0@ != c[b + 1].0@);
            }
        }
        lemma_stored(c.skip(1), i - 1);
    }
}

proof fn lemma_not_stored(c: Seq<(String, u64)>, key: Seq<char>)
    requires
        forall|i: int| 0 <= i < c.len() ==> (#[trigger] c[i]).0@ != key,
    ensures
        stored(c, key) is None,
    decreases c.len(),
{
    if c.len() > 0 {
        assert(c[0].0@ != key);
        assert forall|i: int| 0 <= i < c.skip(1).len() implies (#[trigger] c.skip(1)[i]).0@ != key by {
            assert(c[i + 1].0@ != key);
        }
        lemma_not_stored(c.skip(1), key);
    }
}

proof fn lemma_stored_update(c: Seq<(String, u64)>, i: int, n: u64, key: Seq<char>)
    requires
        keys_unique(c),
        0 <= i < c.len(),
    ensures
        stored(c.update(i, (c[i].0, n)), key) == (if key == c[i].0@ {
            Some(n)
        } else {
            stored(c, key)
        }),
    decreases c.len(),
{
    let d = c.update(i, (c[i].0, n));
    if i == 0 {
        assert(d.skip(1) =~= c.skip(1));
    } else {
        assert(d.skip(1) =~= c.skip(1).update(i - 1, (c[i].0, n)));
        assert(c.skip(1)[i - 1] == c[i]);
        assert(keys_unique(c.skip(1))) by {
            assert forall|a: int, b: int| 0 <= a < b < c.skip(1).len() implies (#[trigger] c.skip(
                1,
            )[a]).0@ != (#[trigger] c.skip(1)[b]).0@ by {
                assert(c[a + 1].0@ != c[b + 1].0@);
            }
        }
        lemma_stored_update(c.skip(1), i - 1, n, key);
        assert(c[0].0@ != c[i].0@);
    }
}

proof fn lemma_stored_push(c: Seq<(String, u64)>, e: (String, u64), key: Seq<char>)
    ensures
        stored(c.push(e), key) == (match stored(c, key) {
            Some(n) => Some(n),
            None => if e.0@ == key {
                Some(e.1)
            } else {
                None
            },
        }),
    decreases c.len(),
{
    let d = c.push(e);
    if c.len() == 0 {
        assert(d.skip(1) =~= Seq::empty());
        assert(stored(d.skip(1), key) is None);
    } else {
        assert(d.skip(1) =~= c.skip(1).push(e));
        lemma_stored_push(c.skip(1), e, key);
    }
}

/// The count stored under exactly that key, or zero.
pub open spec fn stored_or_zero(c: Seq<(String, u64)>, key: Seq<char>) -> u64 {
    match stored(c, key) {
        Some(n) => n,
        None => 0,
    }
}

proof fn lemma_total_update(c: Seq<(String, u64)>, i: int, n: u64, key: Seq<char>)
    requires
        0 <= i < c.len(),
    ensures
        key_of(c[i].0@) == key ==> total(c.update(i, (c[i].0, n)), key) + c[i].1 == total(c, key) + n,
        key_of(c[i].0@) != key ==> total(c.update(i, (c[i].0, n)), key) == total(c, key),
    decreases c.len(),
{
    let d = c.update(i, (c[i].0, n));
    if i == c.len() - 1 {
        assert(d.drop_last() =~= c.drop_last());
    } else {
        assert(d.drop_last() =~= c.drop_last().update(i, (c[i].0, n)));
        lemma_total_update(c.drop_last(), i, n, key);
    }
}

proof fn lemma_total_push(c: Seq<(String, u64)>, e: (String, u64), key: Seq<char>)
    ensures
        total(c.push(e), key) == total(c, key) + if key_of(e.0@) == key {
            e.1 as nat
        } else {
            0
        },
{
    assert(c.push(e).drop_last() =~= c);
}

proof fn lemma_total_covers(c: Seq<(String, u64)>, key: Seq<char>)
    ensures
        stored_or_zero(c, key) <= total(c, key_of(key)),
    decreases c.len(),
{
    if c.len() > 0 {
        lemma_total_covers(c.drop_last(), key);
        lemma_stored_push(c.drop_last(), c.last(), key);
        assert(c.drop_last().push(c.last()) =~= c);
    }
}

// ---------------------------------------------------------------------------
// The history file
// ---------------------------------------------------------------------------

/// The counts as keys and numbers.
pub open spec fn count_views(c: Seq<(String, u64)>) -> Seq<(Seq<char>, u64)> {
    Seq::new(c.len(), |i: int| (c[i].0@, c[i].1))
}

/// The count listed under exactly that key.
pub open spec fn listed_count(l: Seq<(Seq<char>, u64)>, key: Seq<char>) -> Option<u64>
    decreases l.len(),
{
    if l.len() == 0 {
        None
    } else if l[0].0 == key {
        Some(l[0].1)
    } else {
        listed_count(l.skip(1), key)
    }
}

/// Both lists give every key the same count.
pub open spec fn same_counts(a: Seq<(Seq<char>, u64)>, b: Seq<(Seq<char>, u64)>) -> bool {
    forall|k: Seq<char>| #[trigger] listed_count(a, k) == listed_count(b, k)
}

/// The counts in a JSON object of numbers, by ascending key; nothing where a
/// text is no such object.
pub uninterp spec fn counts_of(text: Seq<char>) -> Option<Seq<(Seq<char>, u64)>>;

/// The JSON object that holds the counts, spread over lines.
pub uninterp spec fn counts_text(c: Seq<(Seq<char>, u64)>) -> Seq<char>;

pub open spec fn counts_result(r: Option<Vec<(String, u64)>>) -> Option<Seq<(Seq<char>, u64)>> {
    match r {
        Some(l) => Some(count_views(l@)),
        None => None,
    }
}

/// `serde_json::from_str` into a map of strings and 64-bit numbers, listed by
/// ascending key. The outcome depends on the text alone, and a map holds each
/// key once.
#[verifier::external_body]
fn read_counts(text: &str) -> (r: Option<Vec<(String, u64)>>)
    ensures
        counts_result(r) == counts_of(text@),
        r matches Some(l) ==> keys_unique(l@),
{
    serde_json::from_str::<BTreeMap<String, u64>>(text).ok().map(|m| m.into_iter().collect())
}

/// `serde_json::to_string_pretty` of a map of strings and 64-bit numbers. It
/// does not fail on string keys, the text depends on the counts alone, and
/// reading it gives every key its count back.
#[verifier::external_body]
fn write_counts(c: &Vec<(String, u64)>) -> (r: Option<String>)
    requires
        keys_unique(c@),
    ensures
        r is Some,
        r matches Some(t) ==> t@ == counts_text(count_views(c@)),
        r matches Some(t) ==> (counts_of(t@) matches Some(l) && same_counts(l, count_views(c@))),
{
    let map: BTreeMap<&str, u64> = c.iter().map(|(k, n)| (k.as_str(), *n)).collect();
    serde_json::to_string_pretty(&map).ok()
}

/// The history is the one that a file's text holds, or empty.
pub open spec fn is_loaded(h: FreqHistory, text: Seq<char>) -> bool {
    match counts_of(text) {
        Some(l) => count_views(h.counts@) == l,
        None => h.counts@.len() == 0,
    }
}

/// The text of a file holds the history.
pub open spec fn is_saved(h: FreqHistory, text: Seq<char>) -> bool {
    counts_of(text) matches Some(l) && same_counts(l, count_views(h.counts@))
}

proof fn lemma_listed(c: Seq<(String, u64)>, key: Seq<char>)
    ensures
        listed_count(count_views(c), key) == stored(c, key),
    decreases c.len(),
{
    if c.len() > 0 {
        assert(count_views(c).skip(1) =~= count_views(c.skip(1)));
        lemma_listed(c.skip(1), key);
    }
}

proof fn lemma_total_remove(c: Seq<(String, u64)>, i: int, key: Seq<char>)
    requires
        0 <= i < c.len(),
    ensures
        total(c, key) == total(c.remove(i), key) + if key_of(c[i].0@) == key {
            c[i].1 as nat
        } else {
            0
        },
    decreases c.len(),
{
    let d = c.remove(i);
    if i == c.len() - 1 {
        assert(d =~= c.drop_last());
    } else {
        assert(d.drop_last() =~= c.drop_last().remove(i));
        assert(d.last() == c.last());
        lemma_total_remove(c.drop_last(), i, key);
    }
}

proof fn lemma_stored_somewhere(c: Seq<(String, u64)>, key: Seq<char>) -> (i: int)
    requires
        stored(c, key) is Some,
    ensures
        0 <= i < c.len(),
        c[i].0@ == key,
        stored(c, key) == Some(c[i].1),
    decreases c.len(),
{
    if c[0].0@ == key {
        0
    } else {
        let j = lemma_stored_somewhere(c.skip(1), key);
        j + 1
    }
}

proof fn lemma_remove_keeps(c: Seq<(String, u64)>, i: int, key: Seq<char>)
    requires
        keys_unique(c),
        0 <= i < c.len(),
    ensures
        keys_unique(c.remove(i)),
        stored(c.remove(i), key) == (if key == c[i].0@ {
            None
        } else {
            stored(c, key)
        }),
{
    let d = c.remove(i);
    assert forall|a: int, b: int| 0 <= a < b < d.len() implies (#[trigger] d[a]).0@ != (#[trigger] d[b]).0@ by {
        let x = if a < i {
            a
        } else {
            a + 1
        };
        let y = if b < i {
            b
        } else {
            b + 1
        };
        assert(d[a] == c[x] && d[b] == c[y]);
    }
    if key == c[i].0@ {
        assert forall|k: int| 0 <= k < d.len() implies (#[trigger] d[k]).0@ != key by {
            if k < i {
                assert(d[k] == c[k]);
            } else {
                assert(d[k] == c[k + 1]);
            }
        }
        lemma_not_stored(d, key);
    } else if stored(c, key) is Some {
        let j = lemma_stored_somewhere(c, key);
        let m = if j < i {
            j
        } else {
            j - 1
        };
        assert(d[m] == c[j]);
        lemma_stored(d, m);
    } else if stored(d, key) is Some {
        let j = lemma_stored_somewhere(d, key);
        let m = if j < i {
            j
        } else {
            j + 1
        };
        assert(d[j] == c[m]);
        lemma_stored(c, m);
    }
}

proof fn lemma_same_totals(a: Seq<(String, u64)>, b: Seq<(String, u64)>, key: Seq<char>)
    requires
        keys_unique(a),
        keys_unique(b),
        forall|k: Seq<char>| #[trigger] stored(a, k) == stored(b, k),
    ensures
        total(a, key) == total(b, key),
    decreases a.len(),
{
    if a.len() == 0 {
        if b.len() > 0 {
            lemma_stored(b, 0);
            assert(stored(a, b[0].0@) is None);
        }
    } else {
        let i = a.len() - 1;
        let k = a[i].0@;
        lemma_stored(a, i);
        assert(stored(b, k) == stored(a, k));
        let j = lemma_stored_somewhere(b, k);
        let c = a.remove(i);
        let d = b.remove(j);
        assert forall|x: Seq<char>| #[trigger] stored(c, x) == stored(d, x) by {
            lemma_remove_keeps(a, i, x);
            lemma_remove_keeps(b, j, x);
            assert(stored(a, x) == stored(b, x));
        }
        lemma_remove_keeps(a, i, k);
        lemma_remove_keeps(b, j, k);
        lemma_same_totals(c, d, key);
        lemma_total_remove(a, i, key);
        lemma_total_remove(b, j, key);
    }
}

/// What is read back of a written file is the history that was written: every
/// key has its count, and every command its launches.
pub proof fn saved_history_is_read_back(h: FreqHistory, text: Seq<char>, r: FreqHistory)
    requires
        h.well_formed(),
        r.well_formed(),
        is_saved(h, text),
        is_loaded(r, text),
    ensures
        forall|k: Seq<char>| #[trigger] stored(r.counts@, k) == stored(h.counts@, k),
        forall|c: Seq<char>| #[trigger] launches(r.counts@, c) == launches(h.counts@, c),
{
    assert forall|k: Seq<char>| #[trigger] stored(r.counts@, k) == stored(h.counts@, k) by {
        lemma_listed(r.counts@, k);
        lemma_listed(h.counts@, k);
        assert(listed_count(counts_of(text)->0, k) == listed_count(count_views(h.counts@), k));
    }
    assert forall|c: Seq<char>| #[trigger] launches(r.counts@, c) == launches(h.counts@, c) by {
        lemma_same_totals(r.counts@, h.counts@, key_of(c));
    }
}

impl FreqHistory {
    /// Every key is stored once.
    pub open spec fn well_formed(self) -> bool {
        keys_unique(self.counts@)
    }

    pub fn new() -> (r: FreqHistory)
        ensures
            r.counts@.len() == 0,
            r.well_formed(),
    {
        FreqHistory { counts: Vec::new() }
    }

    /// The history in a file's text; an empty one where there is no file, or no
    /// JSON object of counts in it.
    pub fn load(text: Option<&str>) -> (r: FreqHistory)
        ensures
            r.well_formed(),
            match text {
                Some(t) => is_loaded(r, t@),
                None => r.counts@.len() == 0,
            },
    {
        match text {
            Some(t) => match read_counts(t) {
                Some(counts) => FreqHistory { counts },
                None => FreqHistory::new(),
            },
            None => FreqHistory::new(),
        }
    }

    /// The text of the file to keep the history in.
    pub fn save(&self) -> (r: Option<String>)
        requires
            self.well_formed(),
        ensures
            r is Some,
            r matches Some(t) ==> t@ == counts_text(count_views(self.counts@)) && is_saved(*self, t@),
    {
        write_counts(&self.counts)
    }

    /// The history key of a command.
    pub fn key_for(command: &str) -> (r: String)
        ensures
            r@ == key_of(command@),
    {
        let c = chars_of(command);
        let s = c.as_slice();
        if starts_with_str(s, "env ") {
            return owned(command);
        }
        let t = trim_start(s);
        let first = if t.len() == 0 {
            s
        } else {
            let k: usize = word_end(t);
            let w = slice_subrange(t, 0, k);
            proof {
                assert(w@ =~= t@.take(k as int));
            }
            w
        };
        match file_name(first) {
            Some(name) => string_of(name.as_slice()),
            None => owned(command),
        }
    }

    /// How often a command was started.
    pub fn lookup(&self, command: &str) -> (r: u64)
        ensures
            r == launches(self.counts@, command@),
    {
        let key = FreqHistory::key_for(command);
        let n: usize = self.counts.len();
        let mut sum: u64 = 0;
        let mut i: usize = 0;
        proof {
            assert(self.counts@.take(0) =~= Seq::empty());
        }
        while i < n
            invariant
                n == self.counts@.len(),
                i <= n,
                key@ == key_of(command@),
                sum == capped(total(self.counts@.take(i as int), key@)),
            decreases n - i,
        {
            proof {
                assert(self.counts@.take(i + 1).drop_last() =~= self.counts@.take(i as int));
            }
            let k = FreqHistory::key_for(self.counts[i].0.as_str());
            if same_str(k.as_str(), key.as_str()) {
                let more: u64 = self.counts[i].1;
                sum = if more > u64::MAX - sum {
                    u64::MAX
                } else {
                    sum + more
                };
            }
            i += 1;
        }
        proof {
            assert(self.counts@.take(n as int) =~= self.counts@);
        }
        sum
    }

    /// Store a count under a key, replacing an earlier one.
    pub fn set_count(&mut self, key: String, count: u64)
        requires
            old(self).well_formed(),
        ensures
            final(self).well_formed(),
            stored(final(self).counts@, key@) == Some(count),
            forall|k: Seq<char>|
                k != key@ ==> #[trigger] stored(final(self).counts@, k) == stored(
                    old(self).counts@,
                    k,
                ),
            total(final(self).counts@, key_of(key@)) + stored_or_zero(old(self).counts@, key@) == total(
                old(self).counts@,
                key_of(key@),
            ) + count,
            forall|k: Seq<char>|
                k != key_of(key@) ==> #[trigger] total(final(self).counts@, k) == total(
                    old(self).counts@,
                    k,
                ),
    {
        let ghost before = self.counts@;
        let n: usize = self.counts.len();
        let mut i: usize = 0;
        while i < n
            invariant
                n == self.counts@.len(),
                i <= n,
                self.counts@ == before,
                before == old(self).counts@,
                keys_unique(before),
                forall|k: int| 0 <= k < i ==> (#[trigger] before[k]).0@ != key@,
            decreases n - i,
        {
            if same_str(self.counts[i].0.as_str(), key.as_str()) {
                let kept = self.counts[i].0.clone();
                self.counts[i] = (kept, count);
                proof {
                    let ghost now = self.counts@;
                    assert(now =~= before.update(i as int, (before[i as int].0, count)));
                    assert(keys_unique(now)) by {
                        assert forall|a: int, b: int| 0 <= a < b < now.len() implies (
                        #[trigger] now[a]).0@ != (#[trigger] now[b]).0@ by {
                            assert(before[a].0@ != before[b].0@);
                        }
                    }
                    lemma_stored_update(before, i as int, count, key@);
                    assert forall|k: Seq<char>| k != key@ implies #[trigger] stored(now, k) == stored(
                        before,
                        k,
                    ) by {
                        lemma_stored_update(before, i as int, count, k);
                    }
                    lemma_stored(before, i as int);
                    lemma_total_update(before, i as int, count, key_of(key@));
                    assert forall|k: Seq<char>| k != key_of(key@) implies #[trigger] total(now, k)
                        == total(before, k) by {
                        lemma_total_update(before, i as int, count, k);
                    }
                }
                return;
            }
            i += 1;
        }
        self.counts.push((key, count));
        proof {
            let now = self.counts@;
            lemma_not_stored(before, key@);
            lemma_stored_push(before, (key, count), key@);
            assert forall|k: Seq<char>| k != key@ implies #[trigger] stored(now, k) == stored(
                before,
                k,
            ) by {
                lemma_stored_push(before, (key, count), k);
            }
            lemma_total_push(before, (key, count), key_of(key@));
            assert forall|k: Seq<char>| k != key_of(key@) implies #[trigger] total(now, k) == total(
                before,
                k,
            ) by {
                lemma_total_push(before, (key, count), k);
            }
            assert forall|a: int, b: int| 0 <= a < b < now.len() implies (#[trigger] now[a]).0@ != (
            #[trigger] now[b]).0@ by {
                if b < before.len() {
                    assert(before[a].0@ != before[b].0@);
                } else {
                    assert(before[a].0@ != key@);
                }
            }
        }
    }

    /// Count a launch under the command's own key. An empty command is not counted.
    pub fn record_launch(&mut self, command: &str)
        requires
            old(self).well_formed(),
        ensures
            final(self).well_formed(),
            command@.len() == 0 ==> final(self).counts@ == old(self).counts@,
            command@.len() > 0 ==> stored(final(self).counts@, key_of(command@)) == Some(
                counted(old(self).counts@, key_of(command@)),
            ),
            command@.len() > 0 ==> launches(final(self).counts@, command@) == one_more(
                launches(old(self).counts@, command@),
            ),
            forall|k: Seq<char>|
                key_of(k) != key_of(command@) ==> #[trigger] launches(final(self).counts@, k) == launches(
                    old(self).counts@,
                    k,
                ),
            forall|k: Seq<char>|
                k != key_of(command@) ==> #[trigger] stored(final(self).counts@, k) == stored(
                    old(self).counts@,
                    k,
                ),
    {
        let c = chars_of(command);
        if c.len() == 0 {
            return;
        }
        let key = FreqHistory::key_for(command);
        let mut count: u64 = 1;
        let n: usize = self.counts.len();
        let mut i: usize = 0;
        let mut seen = false;
        proof {
            assert(self.counts@.skip(0) =~= self.counts@);
        }
        while i < n && !seen
            invariant
                n == self.counts@.len(),
                i <= n,
                *self == *old(self),
                key@ == key_of(command@),
                !seen ==> count == 1 && stored(self.counts@, key@) == stored(
                    self.counts@.skip(i as int),
                    key@,
                ),
                seen ==> count == counted(self.counts@, key@),
            decreases n - i,
        {
            proof {
                assert(self.counts@.skip(i as int).skip(1) =~= self.counts@.skip(i + 1));
            }
            if same_str(self.counts[i].0.as_str(), key.as_str()) {
                let was: u64 = self.counts[i].1;
                count = if was == u64::MAX {
                    was
                } else {
                    was + 1
                };
                seen = true;
            }
            i += 1;
        }
        proof {
            keys_are_stable(command@);
            lemma_total_covers(self.counts@, key@);
        }
        self.set_count(key, count);
    }

    /// The launch counts of a list of entries.
    pub fn counts_for(&self, entries: &Vec<AppEntry>) -> (r: Vec<u64>)
        ensures
            r@ == entry_counts(self.counts@, entries@),
    {
        let mut out: Vec<u64> = Vec::new();
        let mut i: usize = 0;
        while i < entries.len()
            invariant
                i <= entries@.len(),
                out@.len() == i,
                forall|k: int|
                    0 <= k < i ==> #[trigger] out@[k] == launches(self.counts@, entries@[k].command@),
            decreases entries@.len() - i,
        {
            out.push(self.lookup(entries[i].command.as_str()));
            i += 1;
        }
        proof {
            assert(out@ =~= entry_counts(self.counts@, entries@));
        }
        out
    }

    /// Split entries into those started before, most often first, and the rest
    /// in order.
    pub fn partition_by_freq(&self, entries: &Vec<AppEntry>) -> (r: (Vec<AppEntry>, Vec<AppEntry>))
        ensures
            r.0@ == frequent(self.counts@, entries@),
            r.1@ == unused(self.counts@, entries@),
    {
        let mut often: Vec<AppEntry> = Vec::new();
        let mut rest: Vec<AppEntry> = Vec::new();
        let mut keys: Vec<i128> = Vec::new();
        let n: usize = entries.len();
        let mut i: usize = 0;
        proof {
            assert(entries@.take(0) =~= Seq::empty());
        }
        while i < n
            invariant
                n == entries@.len(),
                i <= n,
                often@ == used(self.counts@, entries@.take(i as int)),
                rest@ == unused(self.counts@, entries@.take(i as int)),
                keys@.len() == often@.len(),
                forall|k: int|
                    0 <= k < keys@.len() ==> #[trigger] keys@[k] == launches(
                        self.counts@,
                        often@[k].command@,
                    ),
            decreases n - i,
        {
            proof {
                assert(entries@.take(i + 1).drop_last() =~= entries@.take(i as int));
            }
            let c: u64 = self.lookup(entries[i].command.as_str());
            if c > 0 {
                often.push(entries[i].copy());
                keys.push(c as i128);
            } else {
                rest.push(entries[i].copy());
            }
            i += 1;
        }
        proof {
            assert(entries@.take(n as int) =~= entries@);
            assert(wide(keys@) =~= count_keys(self.counts@, often@));
        }
        let order = rank_desc(&keys);
        (arrange_entries(&often, &order), rest)
    }

    /// Order entries by relevance and frequency: the score and the given boost,
    /// added up, best first, ties in order.
    pub fn sort_by_frecency(&self, entries: &Vec<AppEntry>, boosts: &Vec<i64>) -> (r: Vec<AppEntry>)
        requires
            boosts@.len() == entries@.len(),
        ensures
            r@ == by_frecency(entries@, boosts@),
    {
        let mut keys: Vec<i128> = Vec::new();
        let mut i: usize = 0;
        while i < entries.len()
            invariant
                i <= entries@.len(),
                boosts@.len() == entries@.len(),
                keys@.len() == i,
                forall|k: int| 0 <= k < i ==> #[trigger] keys@[k] == entries@[k].score + boosts@[k],
            decreases entries@.len() - i,
        {
            keys.push(entries[i].score as i128 + boosts[i] as i128);
            i += 1;
        }
        proof {
            assert(wide(keys@) =~= frecency_keys(entries@, boosts@));
        }
        let order = rank_desc(&keys);
        arrange_entries(entries, &order)
    }
}

pub open spec fn entry_counts(c: Seq<(String, u64)>, entries: Seq<AppEntry>) -> Seq<u64> {
    Seq::new(entries.len(), |i: int| launches(c, entries[i].command@))
}

/// The entries that were started before, in order.
pub open spec fn used(c: Seq<(String, u64)>, entries: Seq<AppEntry>) -> Seq<AppEntry>
    decreases entries.len(),
{
    if entries.len() == 0 {
        Seq::empty()
    } else {
        let before = used(c, entries.drop_last());
        if launches(c, entries.last().command@) > 0 {
            before.push(entries.last())
        } else {
            before
        }
    }
}

/// The entries that were never started, in order.
pub open spec fn unused(c: Seq<(String, u64)>, entries: Seq<AppEntry>) -> Seq<AppEntry>
    decreases entries.len(),
{
    if entries.len() == 0 {
        Seq::empty()
    } else {
        let before = unused(c, entries.drop_last());
        if launches(c, entries.last().command@) > 0 {
            before
        } else {
            before.push(entries.last())
        }
    }
}

pub open spec fn count_keys(c: Seq<(String, u64)>, entries: Seq<AppEntry>) -> Seq<int> {
    Seq::new(entries.len(), |i: int| launches(c, entries[i].command@) as int)
}

/// The entries that were started before, most often first.
pub open spec fn frequent(c: Seq<(String, u64)>, entries: Seq<AppEntry>) -> Seq<AppEntry> {
    let u = used(c, entries);
    arranged(u, ranking(count_keys(c, u)))
}

/// Relevance and boost of each entry.
pub open spec fn frecency_keys(entries: Seq<AppEntry>, boosts: Seq<i64>) -> Seq<int> {
    Seq::new(entries.len(), |i: int| entries[i].score + boosts[i])
}

/// The entries by relevance and boost.
pub open spec fn by_frecency(entries: Seq<AppEntry>, boosts: Seq<i64>) -> Seq<AppEntry> {
    arranged(entries, ranking(frecency_keys(entries, boosts)))
}

// ---------------------------------------------------------------------------
// Laws
// ---------------------------------------------------------------------------

proof fn lemma_split_whole(s: Seq<char>, c: char)
    requires
        !s.contains(c),
    ensures
        split_on(s, c) == seq![s],
{
    lemma_index_or_len(s, c);
}

/// A piece of a split holds no separator and only characters of the whole.
proof fn lemma_split_piece(s: Seq<char>, c: char, i: int)
    requires
        0 <= i < split_on(s, c).len(),
    ensures
        !split_on(s, c)[i].contains(c),
        forall|j: int|
            0 <= j < split_on(s, c)[i].len() ==> s.contains(#[trigger] split_on(s, c)[i][j]),
    decreases s.len(),
{
    lemma_index_or_len(s, c);
    let k = index_or_len(s, c);
    if k >= s.len() {
        assert(split_on(s, c)[0] == s);
    } else if i == 0 {
        assert(split_on(s, c)[0] == s.take(k as int));
        assert forall|j: int| 0 <= j < k implies s.contains(#[trigger] s.take(k as int)[j]) by {
            assert(s[j] == s.take(k as int)[j]);
        }
    } else {
        let t = s.skip(k as int + 1);
        lemma_split_piece(t, c, i - 1);
        assert(split_on(s, c)[i] == split_on(t, c)[i - 1]);
        let piece = split_on(t, c)[i - 1];
        assert forall|j: int| 0 <= j < piece.len() implies s.contains(#[trigger] piece[j]) by {
            assert(t.contains(piece[j]));
            let m = choose|m: int| 0 <= m < t.len() && t[m] == piece[j];
            assert(s[m + k + 1] == piece[j]);
        }
    }
}

proof fn lemma_last_named(parts: Seq<Seq<char>>)
    ensures
        last_named(parts) matches Some(p) ==> names_something(p) && parts.contains(p),
    decreases parts.len(),
{
    if parts.len() > 0 {
        if names_something(parts.last()) {
            assert(parts[parts.len() - 1] == parts.last());
        } else {
            lemma_last_named(parts.drop_last());
            if let Some(p) = last_named(parts.drop_last()) {
                let i = choose|i: int| 0 <= i < parts.drop_last().len() && parts.drop_last()[i] == p;
                assert(parts[i] == p);
            }
        }
    }
}

proof fn lemma_word(s: Seq<char>)
    ensures
        word_len(s) <= s.len(),
        forall|j: int| 0 <= j < word_len(s) ==> !white(#[trigger] s[j]),
        (forall|j: int| 0 <= j < s.len() ==> !white(#[trigger] s[j])) ==> word_len(s) == s.len(),
    decreases s.len(),
{
    if s.len() > 0 && !white(s[0]) {
        let t = s.skip(1);
        lemma_word(t);
        assert forall|j: int| 0 <= j < word_len(s) implies !white(#[trigger] s[j]) by {
            if j > 0 {
                assert(t[j - 1] == s[j]);
            }
        }
        if forall|j: int| 0 <= j < s.len() ==> !white(#[trigger] s[j]) {
            assert forall|j: int| 0 <= j < t.len() implies !white(#[trigger] t[j]) by {
                assert(t[j] == s[j + 1]);
            }
        }
    }
}

/// A program name without spaces and slashes is its own key.
pub proof fn plain_names_are_keys(name: Seq<char>)
    requires
        names_something(name),
        name != ".."@,
        !name.contains('/'),
        forall|j: int| 0 <= j < name.len() ==> !white(#[trigger] name[j]),
    ensures
        key_of(name) == name,
{
    reveal_strlit("env ");
    if has_prefix(name, "env "@) {
        assert(name.take(4)[3] == name[3]);
        assert("env "@[3] == ' ');
        assert(white(name[3]));
        assert(false);
    }
    assert(!white(name[0]));
    assert(trimmed_start(name) == name);
    lemma_word(name);
    assert(name.take(name.len() as int) =~= name);
    lemma_split_whole(name, '/');
    assert(seq![name].last() == name);
}

/// Normalizing a key changes nothing: stored keys are found by themselves.
pub proof fn keys_are_stable(command: Seq<char>)
    ensures
        key_of(key_of(command)) == key_of(command),
{
    let first = first_word(command);
    let t = trimmed_start(command);
    if !has_prefix(command, "env "@) && file_name_of(first) is Some && t.len() > 0 {
        let name = file_name_of(first)->0;
        let parts = split_on(first, '/');
        lemma_last_named(parts);
        let i = choose|i: int| 0 <= i < parts.len() && parts[i] == name;
        lemma_split_piece(first, '/', i);
        lemma_word(t);
        assert forall|j: int| 0 <= j < name.len() implies !white(#[trigger] name[j]) by {
            assert(first.contains(parts[i][j]));
            let m = choose|m: int| 0 <= m < first.len() && first[m] == name[j];
            assert(t[m] == first[m]);
        }
        plain_names_are_keys(name);
    } else if !has_prefix(command, "env "@) && file_name_of(first) is Some {
        // a blank command is one piece and names itself
        lemma_blank(command);
        lemma_split_whole(command, '/');
        assert(seq![command].last() == command);
        lemma_last_named(seq![command]);
    }
}

proof fn lemma_blank(s: Seq<char>)
    requires
        trimmed_start(s).len() == 0,
    ensures
        !s.contains('/'),
    decreases s.len(),
{
    if s.len() > 0 {
        lemma_blank(s.skip(1));
        if s.contains('/') {
            let j = choose|j: int| 0 <= j < s.len() && s[j] == '/';
            assert(!white('/'));
            assert(s.skip(1)[j - 1] == '/');
        }
    }
}

/// Where a program lies does not matter: the directory in front of a program
/// name is dropped from the key.
pub proof fn directory_does_not_count(dir: Seq<char>, name: Seq<char>)
    requires
        names_something(name),
        name != ".."@,
        !name.contains('/'),
        forall|j: int| 0 <= j < name.len() ==> !white(#[trigger] name[j]),
        forall|j: int| 0 <= j < dir.len() ==> !white(#[trigger] dir[j]),
    ensures
        key_of(dir + seq!['/'] + name) == name,
{
    let path = dir + seq!['/'] + name;
    reveal_strlit("env ");
    assert forall|j: int| 0 <= j < path.len() implies !white(#[trigger] path[j]) by {
        if j < dir.len() {
            assert(path[j] == dir[j]);
        } else if j > dir.len() {
            assert(path[j] == name[j - dir.len() - 1]);
        }
    }
    if has_prefix(path, "env "@) {
        assert(path.take(4)[3] == path[3]);
        assert("env "@[3] == ' ');
        assert(white(path[3]));
        assert(false);
    }
    assert(!white(path[0]));
    assert(trimmed_start(path) == path);
    lemma_word(path);
    assert(path.take(path.len() as int) =~= path);
    lemma_split_last(dir, name);
}

proof fn lemma_split_last(dir: Seq<char>, name: Seq<char>)
    requires
        !name.contains('/'),
    ensures
        split_on(dir + seq!['/'] + name, '/').last() == name,
        split_on(dir + seq!['/'] + name, '/').len() >= 1,
    decreases dir.len(),
{
    let path = dir + seq!['/'] + name;
    lemma_index_or_len(path, '/');
    let k = index_or_len(path, '/');
    assert(path[dir.len() as int] == '/');
    assert(k <= dir.len()) by {
        if k > dir.len() {
            assert(path[dir.len() as int] != '/');
        }
    }
    let rest = path.skip(k as int + 1);
    if k == dir.len() {
        assert(rest =~= name);
        lemma_split_whole(name, '/');
    } else {
        let d = dir.skip(k as int + 1);
        assert(rest =~= d + seq!['/'] + name);
        lemma_split_last(d, name);
    }
}

/// Without any boost, entries come by relevance alone.
pub proof fn no_boost_is_pure_relevance(entries: Seq<AppEntry>, boosts: Seq<i64>)
    requires
        boosts.len() == entries.len(),
        forall|i: int| 0 <= i < boosts.len() ==> #[trigger] boosts[i] == 0,
    ensures
        by_frecency(entries, boosts) == arranged(
            entries,
            ranking(Seq::new(entries.len(), |i: int| entries[i].score as int)),
        ),
{
    assert(frecency_keys(entries, boosts) =~= Seq::new(
        entries.len(),
        |i: int| entries[i].score as int,
    ));
}

/// Position `i` in a list stands in front of position `j` after sorting.
pub open spec fn sorted_before(order: Seq<int>, i: int, j: int) -> bool {
    exists|a: int, b: int|
        0 <= a < b < order.len() && #[trigger] order[a] == i && #[trigger] order[b] == j
}

/// Sorting is decided by relevance and boost together: the larger sum stands in
/// front, and of equal sums the one that came first.
pub proof fn frecency_decides(entries: Seq<AppEntry>, boosts: Seq<i64>, i: int, j: int)
    requires
        boosts.len() == entries.len(),
        0 <= i < entries.len(),
        0 <= j < entries.len(),
        entries[i].score + boosts[i] > entries[j].score + boosts[j] || (entries[i].score + boosts[i]
            == entries[j].score + boosts[j] && i < j),
    ensures
        sorted_before(ranking(frecency_keys(entries, boosts)), i, j),
{
    let keys = frecency_keys(entries, boosts);
    let rank = ranking(keys);
    ranking_exists(keys);
    ranking_is_permutation(keys, rank);
    assert(rank.contains(i) && rank.contains(j));
    let a = choose|a: int| 0 <= a < rank.len() && rank[a] == i;
    let b = choose|b: int| 0 <= b < rank.len() && rank[b] == j;
    if b <= a {
        if b < a {
            assert(goes_before(keys, rank[b], rank[a]));
        }
        assert(false);
    }
}

/// Partitioning loses no entry and makes none up.
pub proof fn partition_keeps_all(c: Seq<(String, u64)>, entries: Seq<AppEntry>)
    ensures
        frequent(c, entries).len() + unused(c, entries).len() == entries.len(),
        forall|i: int|
            0 <= i < entries.len() ==> (frequent(c, entries).contains(#[trigger] entries[i])
                || unused(c, entries).contains(entries[i])),
{
    let u = used(c, entries);
    let keys = count_keys(c, u);
    ranking_exists(keys);
    ranking_is_permutation(keys, ranking(keys));
    lemma_partition(c, entries);
    assert forall|i: int| 0 <= i < entries.len() implies (frequent(c, entries).contains(
        #[trigger] entries[i],
    ) || unused(c, entries).contains(entries[i])) by {
        if u.contains(entries[i]) {
            let k = choose|k: int| 0 <= k < u.len() && u[k] == entries[i];
            assert(ranking(keys).contains(k));
            let a = choose|a: int| 0 <= a < ranking(keys).len() && ranking(keys)[a] == k;
            assert(frequent(c, entries)[a] == entries[i]);
        }
    }
}

proof fn lemma_partition(c: Seq<(String, u64)>, entries: Seq<AppEntry>)
    ensures
        used(c, entries).len() + unused(c, entries).len() == entries.len(),
        forall|i: int|
            0 <= i < entries.len() ==> (used(c, entries).contains(#[trigger] entries[i]) || unused(
                c,
                entries,
            ).contains(entries[i])),
    decreases entries.len(),
{
    if entries.len() > 0 {
        let d = entries.drop_last();
        lemma_partition(c, d);
        let u = used(c, entries);
        let v = unused(c, entries);
        assert forall|i: int| 0 <= i < entries.len() implies (u.contains(#[trigger] entries[i])
            || v.contains(entries[i])) by {
            if i < d.len() {
                assert(d[i] == entries[i]);
                if used(c, d).contains(d[i]) {
                    let k = choose|k: int| 0 <= k < used(c, d).len() && used(c, d)[k] == d[i];
                    assert(u[k] == d[i]);
                } else {
                    let k = choose|k: int| 0 <= k < unused(c, d).len() && unused(c, d)[k] == d[i];
                    assert(v[k] == d[i]);
                }
            } else if launches(c, entries.last().command@) > 0 {
                assert(u[u.len() - 1] == entries[i]);
            } else {
                assert(v[v.len() - 1] == entries[i]);
            }
        }
    }
}

} // verus!
