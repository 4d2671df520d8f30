//! Reading `.desktop` files.
//!
//! Only the `[Desktop Entry]` section counts. Hidden entries, other types than
//! applications and entries without a name or a command give nothing, and the
//! command loses its field codes.
use crate::entry::AppEntry;
use crate::path::{below, join_path};
use crate::scan::{lower, lowered};
use crate::text::{
    chars_of, eq_chars, eq_str, find_char, index_or_len, join, joined, split_char, split_on,
    string_of, texts, to_vec, trim, trimmed, views,
};
use crate::theme::owned;
use vstd::prelude::*;
use vstd::slice::slice_subrange;

verus! {

// ---------------------------------------------------------------------------
// Exec lines
// ---------------------------------------------------------------------------

/// The letters that stand for files, names and icons behind a percent sign.
pub open spec fn field_code(c: char) -> bool {
    c == 'f' || c == 'F' || c == 'u' || c == 'U' || c == 'd' || c == 'D' || c == 'n' || c == 'N'
        || c == 'i' || c == 'c' || c == 'k' || c == 'v' || c == 'm'
}

fn is_field_code(c: char) -> (r: bool)
    ensures
        r == field_code(c),
{
    c == 'f' || c == 'F' || c == 'u' || c == 'U' || c == 'd' || c == 'D' || c == 'n' || c == 'N'
        || c == 'i' || c == 'c' || c == 'k' || c == 'v' || c == 'm'
}

/// A command without its field codes; a doubled percent sign stands for one.
pub open spec fn without_codes(s: Seq<char>) -> Seq<char>
    decreases s.len(),
{
    if s.len() == 0 {
        Seq::empty()
    } else if s[0] == '%' && s.len() >= 2 && field_code(s[1]) {
        without_codes(s.skip(2))
    } else if s[0] == '%' && s.len() >= 2 && s[1] == '%' {
        seq!['%'] + without_codes(s.skip(2))
    } else {
        seq![s[0]] + without_codes(s.skip(1))
    }
}

/// What an `Exec=` value runs.
pub open spec fn cleaned(s: Seq<char>) -> Seq<char> {
    trimmed(without_codes(s))
}

fn strip_codes(s: &[char]) -> (r: Vec<char>)
    ensures
        r@ == without_codes(s@),
{
    let n: usize = s.len();
    let mut out: Vec<char> = Vec::new();
    let mut i: usize = 0;
    proof {
        assert(s@.skip(0) =~= s@);
        assert(out@ + without_codes(s@) =~= without_codes(s@));
    }
    while i < n
        invariant
            n == s@.len(),
            i <= n,
            out@ + without_codes(s@.skip(i as int)) == without_codes(s@),
        decreases n - i,
    {
        let ghost rest = s@.skip(i as int);
        let ghost before = out@;
        proof {
            assert(rest.skip(1) =~= s@.skip(i + 1));
            if i + 1 < n {
                assert(rest.skip(2) =~= s@.skip(i + 2));
            }
        }
        if s[i] == '%' && i + 1 < n && is_field_code(s[i + 1]) {
            i += 2;
        } else if s[i] == '%' && i + 1 < n && s[i + 1] == '%' {
            out.push('%');
            proof {
                assert(out@ + without_codes(s@.skip(i + 2)) =~= before + (seq!['%']
                    + without_codes(s@.skip(i + 2))));
            }
            i += 2;
        } else {
            out.push(s[i]);
            proof {
                assert(out@ + without_codes(s@.skip(i + 1)) =~= before + (seq![s@[i as int]]
                    + without_codes(s@.skip(i + 1))));
            }
            i += 1;
        }
    }
    proof {
        assert(s@.skip(n as int) =~= Seq::empty());
        assert(out@ + without_codes(s@.skip(n as int)) =~= out@);
    }
    out
}

/// Take the field codes out of a command.
pub fn clean_exec(s: &str) -> (r: String)
    ensures
        r@ == cleaned(s@),
{
    let c = chars_of(s);
    let v = strip_codes(c.as_slice());
    string_of(trim(v.as_slice()))
}

/// A command without percent signs is only trimmed.
pub proof fn plain_commands_stay(s: Seq<char>)
    requires
        !s.contains('%'),
    ensures
        cleaned(s) == trimmed(s),
{
    lemma_plain(s);
}

proof fn lemma_plain(s: Seq<char>)
    requires
        !s.contains('%'),
    ensures
        without_codes(s) == s,
    decreases s.len(),
{
    if s.len() > 0 {
        assert(s[0] != '%') by {
            if s[0] == '%' {
                assert(s.contains('%'));
            }
        }
        assert(!s.skip(1).contains('%')) by {
            if s.skip(1).contains('%') {
                let j = choose|j: int| 0 <= j < s.skip(1).len() && s.skip(1)[j] == '%';
                assert(s[j + 1] == '%');
            }
        }
        lemma_plain(s.skip(1));
        assert(seq![s[0]] + s.skip(1) =~= s);
    } else {
        assert(s =~= Seq::empty());
    }
}

/// Cleaning never makes a command longer.
pub proof fn cleaning_shrinks(s: Seq<char>)
    ensures
        cleaned(s).len() <= s.len(),
{
    lemma_codes_len(s);
    crate::binding::lemma_trimmed_len(without_codes(s));
}

proof fn lemma_codes_len(s: Seq<char>)
    ensures
        without_codes(s).len() <= s.len(),
    decreases s.len(),
{
    if s.len() > 0 {
        lemma_codes_len(s.skip(1));
        if s.len() >= 2 {
            lemma_codes_len(s.skip(2));
        }
    }
}

// ---------------------------------------------------------------------------
// Keys and values
// ---------------------------------------------------------------------------

/// A line that opens a section.
pub open spec fn section_line(l: Seq<char>) -> bool {
    l.len() > 0 && l[0] == '[' && l.last() == ']'
}

/// The section that counts.
pub open spec fn entry_section(l: Seq<char>) -> bool {
    lowered(l) == "[desktop entry]"@
}

/// The key and value of a line, split at its first equals sign.
pub open spec fn key_value(l: Seq<char>) -> Option<(Seq<char>, Seq<char>)> {
    let k = index_or_len(l, '=');
    if k < l.len() {
        Some((l.take(k as int), l.skip(k as int + 1)))
    } else {
        None
    }
}

/// What one trimmed line adds while the section that counts is open.
pub open spec fn line_pairs(l: Seq<char>) -> Seq<(Seq<char>, Seq<char>)> {
    match key_value(l) {
        Some(kv) => seq![kv],
        None => Seq::empty(),
    }
}

pub open spec fn ignored_line(l: Seq<char>) -> bool {
    l.len() == 0 || l[0] == '#'
}

/// Whether the section that counts is open behind the given lines.
pub open spec fn open_after(lines: Seq<Seq<char>>) -> bool
    decreases lines.len(),
{
    if lines.len() == 0 {
        false
    } else {
        let l = trimmed(lines.last());
        if !ignored_line(l) && section_line(l) {
            entry_section(l)
        } else {
            open_after(lines.drop_last())
        }
    }
}

/// The keys and values of the section that counts, in order.
pub open spec fn entry_pairs(lines: Seq<Seq<char>>) -> Seq<(Seq<char>, Seq<char>)>
    decreases lines.len(),
{
    if lines.len() == 0 {
        Seq::empty()
    } else {
        let l = trimmed(lines.last());
        let before = entry_pairs(lines.drop_last());
        if ignored_line(l) || section_line(l) || !open_after(lines.drop_last()) {
            before
        } else {
            before + line_pairs(l)
        }
    }
}

/// The text without a byte order mark in front.
pub open spec fn without_mark(s: Seq<char>) -> Seq<char> {
    if s.len() > 0 && s[0] == '\u{feff}' {
        s.skip(1)
    } else {
        s
    }
}

/// The keys and values of a file.
pub open spec fn file_pairs(content: Seq<char>) -> Seq<(Seq<char>, Seq<char>)> {
    entry_pairs(split_on(without_mark(content), '\n'))
}

pub open spec fn pair_views(l: Seq<(Vec<char>, Vec<char>)>) -> Seq<(Seq<char>, Seq<char>)> {
    Seq::new(l.len(), |i: int| (l[i].0@, l[i].1@))
}

fn is_entry_section(l: &[char]) -> (r: bool)
    ensures
        r == entry_section(l@),
{
    let low = lower(l);
    eq_str(low.as_slice(), "[desktop entry]")
}

fn read_pairs(content: &str) -> (r: Vec<(Vec<char>, Vec<char>)>)
    ensures
        pair_views(r@) == file_pairs(content@),
{
    let all = chars_of(content);
    let total: usize = all.len();
    let from: usize = if total > 0 && all[0] == '\u{feff}' {
        1
    } else {
        0
    };
    let text = slice_subrange(all.as_slice(), from, total);
    proof {
        assert(text@ =~= without_mark(content@));
    }
    let lines = split_char(text, '\n');
    let ghost lv = views(lines@);
    let mut out: Vec<(Vec<char>, Vec<char>)> = Vec::new();
    let mut open = false;
    let mut i: usize = 0;
    proof {
        assert(lv.take(0) =~= Seq::empty());
        assert(pair_views(out@) =~= Seq::empty());
    }
    while i < lines.len()
        invariant
            i <= lines@.len(),
            lv == views(lines@),
            open == open_after(lv.take(i as int)),
            pair_views(out@) == entry_pairs(lv.take(i as int)),
        decreases lines@.len() - i,
    {
        let l = trim(lines[i].as_slice());
        let n: usize = l.len();
        proof {
            assert(lv.take(i + 1).last() == lines@[i as int]@);
            assert(lv.take(i + 1).drop_last() =~= lv.take(i as int));
        }
        if n == 0 || l[0] == '#' {
        } else if l[0] == '[' && l[n - 1] == ']' {
            open = is_entry_section(l);
        } else if open {
            let k: usize = find_char(l, '=');
            let ghost before = pair_views(out@);
            if k < n {
                let a = slice_subrange(l, 0, k);
                let b = slice_subrange(l, k + 1, n);
                proof {
                    assert(a@ =~= l@.take(k as int));
                    assert(b@ =~= l@.skip(k + 1));
                }
                out.push((to_vec(a), to_vec(b)));
                proof {
                    assert(pair_views(out@) =~= before + line_pairs(l@));
                }
            } else {
                proof {
                    assert(before + line_pairs(l@) =~= before);
                }
            }
        }
        i += 1;
    }
    proof {
        assert(lv.take(lines@.len() as int) =~= lv);
    }
    out
}

/// The first value under a key.
pub open spec fn first_value(p: Seq<(Seq<char>, Seq<char>)>, key: Seq<char>) -> Option<Seq<char>>
    decreases p.len(),
{
    if p.len() == 0 {
        None
    } else if p[0].0 == key {
        Some(p[0].1)
    } else {
        first_value(p.skip(1), key)
    }
}

/// The last value under a key.
pub open spec fn last_value(p: Seq<(Seq<char>, Seq<char>)>, key: Seq<char>) -> Option<Seq<char>>
    decreases p.len(),
{
    if p.len() == 0 {
        None
    } else if p.last().0 == key {
        Some(p.last().1)
    } else {
        last_value(p.drop_last(), key)
    }
}

pub open spec fn opt_slice(o: Option<&Vec<char>>) -> Option<Seq<char>> {
    match o {
        Some(v) => Some(v@),
        None => None,
    }
}

fn find_first<'a>(p: &'a Vec<(Vec<char>, Vec<char>)>, key: &str) -> (r: Option<&'a Vec<char>>)
    ensures
        opt_slice(r) == first_value(pair_views(p@), key@),
{
    let ghost pv = pair_views(p@);
    let mut i: usize = 0;
    proof {
        assert(pv.skip(0) =~= pv);
    }
    while i < p.len()
        invariant
            i <= p@.len(),
            pv == pair_views(p@),
            first_value(pv, key@) == first_value(pv.skip(i as int), key@),
        decreases p@.len() - i,
    {
        proof {
            assert(pv.skip(i as int).skip(1) =~= pv.skip(i + 1));
        }
        if eq_str(p[i].0.as_slice(), key) {
            return Some(&p[i].1);
        }
        i += 1;
    }
    None
}

fn find_last<'a>(p: &'a Vec<(Vec<char>, Vec<char>)>, key: &str) -> (r: Option<&'a Vec<char>>)
    ensures
        opt_slice(r) == last_value(pair_views(p@), key@),
{
    let ghost pv = pair_views(p@);
    let mut n: usize = p.len();
    proof {
        assert(pv.take(n as int) =~= pv);
    }
    while n > 0
        invariant
            n <= p@.len(),
            pv == pair_views(p@),
            last_value(pv, key@) == last_value(pv.take(n as int), key@),
        decreases n,
    {
        proof {
            assert(pv.take(n as int).last() == pv[n - 1]);
            assert(pv.take(n as int).drop_last() =~= pv.take(n - 1));
        }
        if eq_str(p[n - 1].0.as_slice(), key) {
            return Some(&p[n - 1].1);
        }
        n -= 1;
    }
    None
}

/// `true` in any letter case, or `1`.
pub open spec fn truthy(s: Seq<char>) -> bool {
    lowered(s) == "true"@ || lowered(s) == "1"@
}

fn is_truthy(s: &[char]) -> (r: bool)
    ensures
        r == truthy(s@),
{
    let low = lower(s);
    eq_str(low.as_slice(), "true") || eq_str(low.as_slice(), "1")
}

/// One of the values hides the entry: it says so, or names another type.
pub open spec fn hiding(kv: (Seq<char>, Seq<char>)) -> bool {
    ||| (kv.0 == "NoDisplay"@ || kv.0 == "Hidden"@) && truthy(kv.1)
    ||| kv.0 == "Type"@ && kv.1 != "Application"@
}

pub open spec fn hidden(p: Seq<(Seq<char>, Seq<char>)>) -> bool {
    exists|i: int| 0 <= i < p.len() && hiding(#[trigger] p[i])
}

fn is_hidden(p: &Vec<(Vec<char>, Vec<char>)>) -> (r: bool)
    ensures
        r == hidden(pair_views(p@)),
{
    let mut i: usize = 0;
    while i < p.len()
        invariant
            i <= p@.len(),
            forall|k: int| 0 <= k < i ==> !hiding(#[trigger] pair_views(p@)[k]),
        decreases p@.len() - i,
    {
        let k = p[i].0.as_slice();
        let v = p[i].1.as_slice();
        if ((eq_str(k, "NoDisplay") || eq_str(k, "Hidden")) && is_truthy(v)) || (eq_str(k, "Type")
            && !eq_str(v, "Application")) {
            proof {
                assert(hiding(pair_views(p@)[i as int]));
            }
            return true;
        }
        i += 1;
    }
    false
}

/// The pieces of a list value that are not blank, trimmed.
pub open spec fn pieces(l: Seq<Seq<char>>) -> Seq<Seq<char>>
    decreases l.len(),
{
    if l.len() == 0 {
        Seq::empty()
    } else {
        let p = trimmed(l.last());
        let before = pieces(l.drop_last());
        if p.len() == 0 {
            before
        } else {
            before.push(p)
        }
    }
}

/// All pieces under a key, in order.
pub open spec fn words_under(p: Seq<(Seq<char>, Seq<char>)>, key: Seq<char>) -> Seq<Seq<char>>
    decreases p.len(),
{
    if p.len() == 0 {
        Seq::empty()
    } else {
        let before = words_under(p.drop_last(), key);
        if p.last().0 == key {
            before + pieces(split_on(p.last().1, ';'))
        } else {
            before
        }
    }
}

fn push_pieces(out: &mut Vec<Vec<char>>, value: &[char])
    ensures
        views(final(out)@) == views(old(out)@) + pieces(split_on(value@, ';')),
{
    let l = split_char(value, ';');
    let ghost lv = views(l@);
    let ghost start = views(out@);
    let mut i: usize = 0;
    proof {
        assert(lv.take(0) =~= Seq::empty());
        assert(start + pieces(lv.take(0)) =~= start);
    }
    while i < l.len()
        invariant
            i <= l@.len(),
            lv == views(l@),
            views(out@) == start + pieces(lv.take(i as int)),
        decreases l@.len() - i,
    {
        let p = trim(l[i].as_slice());
        proof {
            assert(lv.take(i + 1).last() == l@[i as int]@);
            assert(lv.take(i + 1).drop_last() =~= lv.take(i as int));
        }
        if p.len() > 0 {
            let ghost before = out@;
            out.push(to_vec(p));
            proof {
                assert(views(out@) =~= views(before).push(p@));
                assert(start + pieces(lv.take(i as int)).push(p@) =~= (start + pieces(
                    lv.take(i as int),
                )).push(p@));
            }
        }
        i += 1;
    }
    proof {
        assert(lv.take(l@.len() as int) =~= lv);
    }
}

fn gather_words(out: &mut Vec<Vec<char>>, p: &Vec<(Vec<char>, Vec<char>)>, key: &str)
    ensures
        views(final(out)@) == views(old(out)@) + words_under(pair_views(p@), key@),
{
    let ghost pv = pair_views(p@);
    let ghost start = views(out@);
    let mut i: usize = 0;
    proof {
        assert(pv.take(0) =~= Seq::empty());
        assert(start + words_under(pv.take(0), key@) =~= start);
    }
    while i < p.len()
        invariant
            i <= p@.len(),
            pv == pair_views(p@),
            views(out@) == start + words_under(pv.take(i as int), key@),
        decreases p@.len() - i,
    {
        proof {
            assert(pv.take(i + 1).last() == pv[i as int]);
            assert(pv.take(i + 1).drop_last() =~= pv.take(i as int));
        }
        if eq_str(p[i].0.as_slice(), key) {
            push_pieces(out, p[i].1.as_slice());
            proof {
                let more = pieces(split_on(p@[i as int].1@, ';'));
                let w = words_under(pv.take(i as int), key@);
                assert((start + w) + more =~= start + (w + more));
            }
        }
        i += 1;
    }
    proof {
        assert(pv.take(p@.len() as int) =~= pv);
    }
}

/// The list with runs of equal neighbours cut to one.
pub open spec fn deduped(l: Seq<Seq<char>>) -> Seq<Seq<char>>
    decreases l.len(),
{
    if l.len() == 0 {
        Seq::empty()
    } else {
        let before = deduped(l.drop_last());
        if before.len() > 0 && before.last() == l.last() {
            before
        } else {
            before.push(l.last())
        }
    }
}

fn dedup(l: &Vec<Vec<char>>) -> (r: Vec<Vec<char>>)
    ensures
        views(r@) == deduped(views(l@)),
{
    let ghost lv = views(l@);
    let mut out: Vec<Vec<char>> = Vec::new();
    let mut i: usize = 0;
    proof {
        assert(lv.take(0) =~= Seq::empty());
        assert(views(out@) =~= Seq::empty());
    }
    while i < l.len()
        invariant
            i <= l@.len(),
            lv == views(l@),
            views(out@) == deduped(lv.take(i as int)),
        decreases l@.len() - i,
    {
        proof {
            assert(lv.take(i + 1).last() == l@[i as int]@);
            assert(lv.take(i + 1).drop_last() =~= lv.take(i as int));
            assert(views(out@).len() == out@.len());
        }
        let k: usize = out.len();
        let same = k > 0 && eq_chars(out[k - 1].as_slice(), l[i].as_slice());
        if !same {
            let ghost before = out@;
            out.push(to_vec(l[i].as_slice()));
            proof {
                assert(views(out@) =~= views(before).push(l@[i as int]@));
            }
        }
        i += 1;
    }
    proof {
        assert(lv.take(l@.len() as int) =~= lv);
    }
    out
}

/// Categories and keywords of an entry, in one line.
pub open spec fn keyword_line(p: Seq<(Seq<char>, Seq<char>)>) -> Seq<char> {
    joined(deduped(words_under(p, "Categories"@) + words_under(p, "Keywords"@)), " "@)
}

// ---------------------------------------------------------------------------
// Entries
// ---------------------------------------------------------------------------

/// A value that is not empty.
pub open spec fn filled(o: Option<Seq<char>>) -> Option<Seq<char>> {
    match o {
        Some(s) => if s.len() == 0 {
            None
        } else {
            Some(s)
        },
        None => None,
    }
}

/// A file gives an entry: it is not hidden, has a name and a command, and the
/// program it depends on can be run.
pub open spec fn usable(p: Seq<(Seq<char>, Seq<char>)>, runnable: bool) -> bool {
    &&& !hidden(p)
    &&& last_value(p, "TryExec"@) is Some ==> runnable
    &&& first_value(p, "Name"@) is Some
    &&& last_value(p, "Exec"@) is Some
}

/// The entry that a file gives.
pub open spec fn is_entry_of(e: AppEntry, stem: Seq<char>, p: Seq<(Seq<char>, Seq<char>)>) -> bool {
    &&& e.id@ == stem
    &&& first_value(p, "Name"@) == Some(e.name@)
    &&& last_value(p, "Exec"@) is Some && e.command@ == cleaned(last_value(p, "Exec"@)->0)
    &&& crate::node::opt_view(e.description) == filled(first_value(p, "Comment"@))
    &&& e.mode == crate::entry::AppMode::Drun
    &&& e.keywords@ == keyword_line(p)
    &&& e.search_text@ == crate::entry::drun_search_text(e.name@, e.keywords@)
    &&& e.score == 0
    &&& e.icon@ == match first_value(p, "Icon"@) {
        Some(s) => s,
        None => Seq::empty(),
    }
}

/// The program that an entry depends on, if it names one.
pub fn try_exec_of(content: &str) -> (r: Option<String>)
    ensures
        crate::node::opt_view(r) == last_value(file_pairs(content@), "TryExec"@),
{
    let p = read_pairs(content);
    match find_last(&p, "TryExec") {
        Some(v) => Some(string_of(v.as_slice())),
        None => None,
    }
}

/// Read a `.desktop` file. `stem` is the file's name without its extension, and
/// `runnable` tells whether the program under `TryExec` can be run.
pub fn parse_desktop_file(content: &str, stem: &str, runnable: bool) -> (r: Option<AppEntry>)
    ensures
        r is Some <==> usable(file_pairs(content@), runnable),
        r matches Some(e) ==> is_entry_of(e, stem@, file_pairs(content@)),
{
    let p = read_pairs(content);
    if is_hidden(&p) {
        return None;
    }
    if find_last(&p, "TryExec").is_some() && !runnable {
        return None;
    }
    let name = match find_first(&p, "Name") {
        Some(v) => string_of(v.as_slice()),
        None => {
            return None;
        },
    };
    let command = match find_last(&p, "Exec") {
        Some(v) => {
            let t = strip_codes(v.as_slice());
            string_of(trim(t.as_slice()))
        },
        None => {
            return None;
        },
    };
    let comment = match find_first(&p, "Comment") {
        Some(v) => if v.len() == 0 {
            None
        } else {
            Some(string_of(v.as_slice()))
        },
        None => None,
    };
    let icon = match find_first(&p, "Icon") {
        Some(v) => string_of(v.as_slice()),
        None => String::new(),
    };
    let mut words: Vec<Vec<char>> = Vec::new();
    proof {
        assert(views(words@) =~= Seq::empty());
    }
    gather_words(&mut words, &p, "Categories");
    proof {
        let w = words_under(pair_views(p@), "Categories"@);
        assert(Seq::<Seq<char>>::empty() + w =~= w);
    }
    gather_words(&mut words, &p, "Keywords");
    let unique = dedup(&words);
    let line = join(&unique, " ");
    let mut e = AppEntry::drun(
        owned(stem),
        name,
        command,
        comment,
        string_of(line.as_slice()),
    );
    e.icon = icon;
    proof {
        assert(e.icon@ =~= match first_value(file_pairs(content@), "Icon"@) {
            Some(s) => s,
            None => Seq::empty(),
        });
    }
    Some(e)
}

/// Where a program may lie: at its own path if it has a slash, else below each
/// directory of the search path.
pub open spec fn program_paths(value: Seq<char>, search: Option<Seq<char>>) -> Seq<Seq<char>> {
    if value.contains('/') {
        seq![value]
    } else {
        match search {
            None => Seq::empty(),
            Some(s) => split_on(s, ':').map_values(|d: Seq<char>| below(d, value)),
        }
    }
}

pub open spec fn opt_str(o: Option<&str>) -> Option<Seq<char>> {
    match o {
        Some(s) => Some(s@),
        None => None,
    }
}

/// The paths at which a program named under `TryExec` may lie.
pub fn try_exec_candidates(value: &str, search: Option<&str>) -> (r: Vec<String>)
    ensures
        texts(r@) == program_paths(value@, opt_str(search)),
{
    let c = chars_of(value);
    let mut out: Vec<String> = Vec::new();
    if find_char(c.as_slice(), '/') < c.len() {
        out.push(owned(value));
        proof {
            assert(texts(out@) =~= seq![value@]);
        }
        return out;
    }
    match search {
        None => {
            proof {
                assert(texts(out@) =~= Seq::empty());
            }
        },
        Some(s) => {
            let sc = chars_of(s);
            let dirs = split_char(sc.as_slice(), ':');
            let ghost want = split_on(s@, ':').map_values(|d: Seq<char>| below(d, value@));
            let mut i: usize = 0;
            while i < dirs.len()
                invariant
                    i <= dirs@.len(),
                    views(dirs@) == split_on(s@, ':'),
                    want == split_on(s@, ':').map_values(|d: Seq<char>| below(d, value@)),
                    out@.len() == i,
                    forall|k: int| 0 <= k < i ==> (#[trigger] out@[k])@ == want[k],
                decreases dirs@.len() - i,
            {
                let d = string_of(dirs[i].as_slice());
                proof {
                    assert(views(dirs@)[i as int] == dirs@[i as int]@);
                }
                out.push(join_path(d.as_str(), value));
                i += 1;
            }
            proof {
                assert(views(dirs@).len() == dirs@.len());
                assert(texts(out@) =~= want);
            }
        },
    }
    out
}

} // verus!
