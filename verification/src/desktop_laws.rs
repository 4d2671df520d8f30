//! What reading a `.desktop` file promises.
use crate::desktop::{
    cleaned, deduped, entry_pairs, field_code, file_pairs, first_value, hidden, hiding,
    ignored_line, is_entry_of, key_value, keyword_line, last_value, line_pairs, open_after, pieces,
    program_paths, section_line, usable, without_codes, without_mark, words_under,
};
use crate::entry::AppEntry;
use crate::path::below;
use crate::scan::lowered;
use crate::text::{joined, lemma_index_or_len, split_on, trimmed, white};
use crate::text_laws::{blank, blank_texts_vanish, joined_pieces_split, tight, tight_texts_stay};
use vstd::prelude::*;

verus! {

// ---------------------------------------------------------------------------
// Lines
// ---------------------------------------------------------------------------

/// Cutting a line into key and value loses nothing but the first equals sign: a
/// key holds none, and the value is all that follows, whatever it holds. A line
/// without an equals sign gives nothing.
pub proof fn lines_are_cut_at_the_first_equals_sign(l: Seq<char>)
    ensures
        key_value(l) is Some <==> l.contains('='),
        key_value(l) matches Some(kv) ==> l == kv.0 + seq!['='] + kv.1 && !kv.0.contains('='),
{
    lemma_index_or_len(l, '=');
    if let Some(kv) = key_value(l) {
        assert(l =~= kv.0 + seq!['='] + kv.1);
        if kv.0.contains('=') {
            let j = choose|j: int| 0 <= j < kv.0.len() && kv.0[j] == '=';
            assert(l[j] == '=');
        }
    }
}

/// A key without an equals sign and any value are read back from their line.
pub proof fn written_lines_are_read_back(k: Seq<char>, v: Seq<char>)
    requires
        !k.contains('='),
    ensures
        key_value(k + seq!['='] + v) == Some((k, v)),
{
    let l = k + seq!['='] + v;
    lines_are_cut_at_the_first_equals_sign(l);
    assert(l[k.len() as int] == '=');
    let kv = key_value(l)->0;
    if kv.0.len() < k.len() {
        assert(k[kv.0.len() as int] == l[kv.0.len() as int]);
        assert((kv.0 + seq!['='] + kv.1)[kv.0.len() as int] == '=');
    }
    if kv.0.len() > k.len() {
        assert((kv.0 + seq!['='] + kv.1)[k.len() as int] == kv.0[k.len() as int]);
    }
    assert(kv.0 =~= k) by {
        assert forall|i: int| 0 <= i < k.len() implies kv.0[i] == k[i] by {
            assert((kv.0 + seq!['='] + kv.1)[i] == l[i]);
        }
    }
    assert(kv.1 =~= v) by {
        assert forall|i: int| 0 <= i < v.len() implies kv.1[i] == v[i] by {
            assert((kv.0 + seq!['='] + kv.1)[k.len() + 1 + i] == l[k.len() + 1 + i]);
        }
    }
}

/// A key that can stand at the front of a line.
pub open spec fn plain_key(k: Seq<char>) -> bool {
    &&& k.len() > 0
    &&& !white(k[0])
    &&& k[0] != '#'
    &&& k[0] != '['
    &&& !k.contains('=')
    &&& !k.contains('\n')
}

/// A value that can stand at the end of a line.
pub open spec fn plain_value(v: Seq<char>) -> bool {
    &&& v.len() > 0 ==> !white(v.last())
    &&& !v.contains('\n')
}

pub open spec fn line_of(kv: (Seq<char>, Seq<char>)) -> Seq<char> {
    kv.0 + seq!['='] + kv.1
}

proof fn lemma_line(kv: (Seq<char>, Seq<char>))
    requires
        plain_key(kv.0),
        plain_value(kv.1),
    ensures
        trimmed(line_of(kv)) == line_of(kv),
        !ignored_line(line_of(kv)),
        !section_line(line_of(kv)),
        line_pairs(line_of(kv)) == seq![kv],
        !line_of(kv).contains('\n'),
{
    let l = line_of(kv);
    assert(l[0] == kv.0[0]);
    assert(l.last() == if kv.1.len() > 0 {
        kv.1.last()
    } else {
        '='
    });
    tight_texts_stay(l);
    written_lines_are_read_back(kv.0, kv.1);
    if l.contains('\n') {
        let j = choose|j: int| 0 <= j < l.len() && l[j] == '\n';
        if j < kv.0.len() {
            assert(kv.0[j] == '\n');
        } else if j > kv.0.len() {
            assert(kv.1[j - kv.0.len() - 1] == '\n');
        }
    }
}

/// In the section that counts, a line adds its key and its whole value.
pub proof fn lines_add_whole_values(lines: Seq<Seq<char>>, k: Seq<char>, v: Seq<char>)
    requires
        open_after(lines),
        plain_key(k),
        plain_value(v),
    ensures
        entry_pairs(lines.push(k + seq!['='] + v)) == entry_pairs(lines).push((k, v)),
        open_after(lines.push(k + seq!['='] + v)),
{
    lemma_line((k, v));
    let l = k + seq!['='] + v;
    assert(lines.push(l).drop_last() =~= lines);
    assert(entry_pairs(lines) + seq![(k, v)] =~= entry_pairs(lines).push((k, v)));
}

/// Comments and blank lines change nothing.
pub proof fn comments_are_skipped(lines: Seq<Seq<char>>, l: Seq<char>)
    requires
        blank(l) || trimmed(l)[0] == '#',
    ensures
        entry_pairs(lines.push(l)) == entry_pairs(lines),
        open_after(lines.push(l)) == open_after(lines),
{
    blank_texts_vanish(l);
    assert(lines.push(l).drop_last() =~= lines);
}

/// The line opens a section: it stands in square brackets.
pub open spec fn bracketed(l: Seq<char>) -> bool {
    trimmed(l).len() > 0 && trimmed(l)[0] == '[' && trimmed(l).last() == ']'
}

/// Lines behind the header of another section add nothing, nor do lines in front
/// of the first header.
pub proof fn other_sections_are_skipped(lines: Seq<Seq<char>>, head: Seq<char>, more: Seq<Seq<char>>)
    requires
        bracketed(head),
        lowered(trimmed(head)) != "[desktop entry]"@,
        forall|i: int| 0 <= i < more.len() ==> !bracketed(#[trigger] more[i]),
    ensures
        entry_pairs(lines + seq![head] + more) == entry_pairs(lines),
        !open_after(lines + seq![head] + more),
        entry_pairs(more).len() == 0,
        !open_after(more),
    decreases more.len(),
{
    let all = lines + seq![head] + more;
    if more.len() == 0 {
        assert(all.drop_last() =~= lines);
        assert(all.last() == head);
    } else {
        let d = more.drop_last();
        assert forall|i: int| 0 <= i < d.len() implies !bracketed(#[trigger] d[i]) by {
            assert(d[i] == more[i]);
        }
        other_sections_are_skipped(lines, head, d);
        assert(all.drop_last() =~= lines + seq![head] + d);
        assert(all.last() == more.last());
        assert(!bracketed(more[more.len() - 1]));
    }
}

/// The header of the section that counts opens it, in any letter case and
/// wherever it stands.
pub proof fn entry_headers_open(lines: Seq<Seq<char>>, head: Seq<char>)
    requires
        lowered(trimmed(head)) == "[desktop entry]"@,
    ensures
        open_after(lines.push(head)),
        entry_pairs(lines.push(head)) == entry_pairs(lines),
{
    reveal_strlit("[desktop entry]");
    let t = trimmed(head);
    let low = lowered(t);
    assert(low[0] == '[' && low[14] == ']');
    crate::text_laws::letter_case(t, 0);
    crate::text_laws::letter_case(t, 14);
    assert(lines.push(head).drop_last() =~= lines);
    assert(t[0] == '[');
    assert(t.last() == ']');
}

// ---------------------------------------------------------------------------
// Files
// ---------------------------------------------------------------------------

/// The lines of a file with the given keys and values.
pub open spec fn file_lines(p: Seq<(Seq<char>, Seq<char>)>) -> Seq<Seq<char>> {
    seq!["[Desktop Entry]"@] + p.map_values(|kv: (Seq<char>, Seq<char>)| line_of(kv))
}

pub open spec fn plain_pairs(p: Seq<(Seq<char>, Seq<char>)>) -> bool {
    forall|i: int| 0 <= i < p.len() ==> plain_key((#[trigger] p[i]).0) && plain_value(p[i].1)
}

proof fn lemma_header()
    ensures
        lowered(trimmed("[Desktop Entry]"@)) == "[desktop entry]"@,
        "[Desktop Entry]"@[0] == '[',
        "[Desktop Entry]"@.len() > 0,
        !"[Desktop Entry]"@.contains('\n'),
{
    reveal_strlit("[desktop entry]");
    reveal_strlit("[Desktop Entry]");
    tight_texts_stay("[Desktop Entry]"@);
    assert(lowered("[Desktop Entry]"@) =~= "[desktop entry]"@);
}

proof fn lemma_file(p: Seq<(Seq<char>, Seq<char>)>)
    requires
        plain_pairs(p),
    ensures
        entry_pairs(file_lines(p)) == p,
        open_after(file_lines(p)),
    decreases p.len(),
{
    let lines = file_lines(p);
    if p.len() == 0 {
        lemma_header();
        entry_headers_open(Seq::empty(), "[Desktop Entry]"@);
        assert(lines =~= Seq::empty().push("[Desktop Entry]"@));
        assert(entry_pairs(lines) =~= p);
    } else {
        let d = p.drop_last();
        assert(plain_pairs(d)) by {
            assert forall|i: int| 0 <= i < d.len() implies plain_key((#[trigger] d[i]).0) && plain_value(
                d[i].1,
            ) by {
                assert(d[i] == p[i]);
            }
        }
        lemma_file(d);
        let kv = p[p.len() - 1];
        lines_add_whole_values(file_lines(d), kv.0, kv.1);
        assert(lines =~= file_lines(d).push(line_of(kv)));
        assert(d.push(kv) =~= p);
    }
}

/// A file that was written line by line, with or without a byte order mark, gives
/// back every key and value, in order.
pub proof fn files_give_their_pairs(p: Seq<(Seq<char>, Seq<char>)>)
    requires
        plain_pairs(p),
    ensures
        file_pairs(joined(file_lines(p), seq!['\n'])) == p,
        file_pairs(seq!['\u{feff}'] + joined(file_lines(p), seq!['\n'])) == p,
{
    let lines = file_lines(p);
    let text = joined(lines, seq!['\n']);
    lemma_header();
    assert forall|i: int| 0 <= i < lines.len() implies !(#[trigger] lines[i]).contains('\n') by {
        if i > 0 {
            assert(plain_key(p[i - 1].0));
            lemma_line(p[i - 1]);
            assert(lines[i] == line_of(p[i - 1]));
        }
    }
    joined_pieces_split(lines, '\n');
    lemma_file(p);
    lemma_front(lines);
    assert(without_mark(text) == text);
    assert((seq!['\u{feff}'] + text).skip(1) =~= text);
}

proof fn lemma_front(lines: Seq<Seq<char>>)
    requires
        lines.len() > 0,
        lines[0].len() > 0,
    ensures
        joined(lines, seq!['\n']).len() > 0,
        joined(lines, seq!['\n'])[0] == lines[0][0],
    decreases lines.len(),
{
    if lines.len() > 1 {
        lemma_front(lines.drop_last());
    }
}

/// Of several lines under one key, `first_value` gives the first.
pub proof fn first_values(p: Seq<(Seq<char>, Seq<char>)>, key: Seq<char>, i: int)
    requires
        0 <= i <= p.len(),
        i < p.len() ==> p[i].0 == key,
        forall|j: int| 0 <= j < i ==> (#[trigger] p[j]).0 != key,
    ensures
        first_value(p, key) == if i < p.len() {
            Some(p[i].1)
        } else {
            None
        },
    decreases i,
{
    if i > 0 {
        assert(p[0].0 != key);
        let t = p.skip(1);
        assert forall|j: int| 0 <= j < i - 1 implies (#[trigger] t[j]).0 != key by {
            assert(t[j] == p[j + 1]);
        }
        first_values(t, key, i - 1);
    }
}

/// Of several lines under one key, `last_value` gives the last.
pub proof fn last_values(p: Seq<(Seq<char>, Seq<char>)>, key: Seq<char>, i: int)
    requires
        -1 <= i < p.len(),
        i >= 0 ==> p[i].0 == key,
        forall|j: int| i < j < p.len() ==> (#[trigger] p[j]).0 != key,
    ensures
        last_value(p, key) == if i >= 0 {
            Some(p[i].1)
        } else {
            None
        },
    decreases p.len(),
{
    if p.len() > 0 && i < p.len() - 1 {
        assert(p[p.len() - 1].0 != key);
        let d = p.drop_last();
        assert forall|j: int| i < j < d.len() implies (#[trigger] d[j]).0 != key by {
            assert(d[j] == p[j]);
        }
        last_values(d, key, i);
    }
}

/// A line that says so, or that names another type, hides the entry.
pub proof fn hiding_lines_hide(p: Seq<(Seq<char>, Seq<char>)>, i: int, runnable: bool)
    requires
        0 <= i < p.len(),
        ((p[i].0 == "NoDisplay"@ || p[i].0 == "Hidden"@) && (lowered(p[i].1) == "true"@ || p[i].1
            == "1"@)) || (p[i].0 == "Type"@ && p[i].1 != "Application"@),
    ensures
        !usable(p, runnable),
{
    reveal_strlit("1");
    if p[i].1 == "1"@ {
        assert(lowered("1"@) =~= "1"@);
    }
    assert(hiding(p[i]));
}

/// A file without a name or without a command gives no entry, nor does one whose
/// program cannot be run.
pub proof fn unusable_files(p: Seq<(Seq<char>, Seq<char>)>, i: int, runnable: bool)
    requires
        (forall|j: int| 0 <= j < p.len() ==> (#[trigger] p[j]).0 != "Name"@) || (forall|j: int|
            0 <= j < p.len() ==> (#[trigger] p[j]).0 != "Exec"@) || (0 <= i < p.len() && p[i].0
            == "TryExec"@ && !runnable),
    ensures
        !usable(p, runnable),
{
    if forall|j: int| 0 <= j < p.len() ==> (#[trigger] p[j]).0 != "Name"@ {
        first_values(p, "Name"@, p.len() as int);
    } else if forall|j: int| 0 <= j < p.len() ==> (#[trigger] p[j]).0 != "Exec"@ {
        last_values(p, "Exec"@, -1);
    } else {
        lemma_some_last(p, "TryExec"@, i);
    }
}

proof fn lemma_some_last(p: Seq<(Seq<char>, Seq<char>)>, key: Seq<char>, i: int)
    requires
        0 <= i < p.len(),
        p[i].0 == key,
    ensures
        last_value(p, key) is Some,
    decreases p.len(),
{
    if i < p.len() - 1 {
        lemma_some_last(p.drop_last(), key, i);
    }
}

proof fn lemma_some_first(p: Seq<(Seq<char>, Seq<char>)>, key: Seq<char>, i: int)
    requires
        0 <= i < p.len(),
        p[i].0 == key,
    ensures
        first_value(p, key) is Some,
    decreases p.len(),
{
    if i > 0 {
        assert(p.skip(1)[i - 1] == p[i]);
        lemma_some_first(p.skip(1), key, i - 1);
    }
}

/// A file that has a name and a command, that nothing hides and whose program can
/// be run gives an entry.
pub proof fn usable_files(p: Seq<(Seq<char>, Seq<char>)>, n: int, x: int, runnable: bool)
    requires
        0 <= n < p.len(),
        p[n].0 == "Name"@,
        0 <= x < p.len(),
        p[x].0 == "Exec"@,
        runnable || (forall|j: int| 0 <= j < p.len() ==> (#[trigger] p[j]).0 != "TryExec"@),
        forall|j: int|
            0 <= j < p.len() && ((#[trigger] p[j]).0 == "NoDisplay"@ || p[j].0 == "Hidden"@)
                ==> lowered(p[j].1) != "true"@ && p[j].1 != "1"@,
        forall|j: int| 0 <= j < p.len() && (#[trigger] p[j]).0 == "Type"@ ==> p[j].1 == "Application"@,
    ensures
        usable(p, runnable),
{
    lemma_some_first(p, "Name"@, n);
    lemma_some_last(p, "Exec"@, x);
    if !runnable {
        last_values(p, "TryExec"@, -1);
    }
    reveal_strlit("1");
    if hidden(p) {
        let j = choose|j: int| 0 <= j < p.len() && hiding(#[trigger] p[j]);
        if p[j].0 == "NoDisplay"@ || p[j].0 == "Hidden"@ {
            if lowered(p[j].1) == "1"@ {
                crate::text_laws::letter_case(p[j].1, 0);
                assert(lowered(p[j].1)[0] == '1');
                assert(p[j].1 =~= "1"@);
            }
        }
    }
}

/// An entry says what its file says: the id is the file's, the name and the
/// comment are the first of their kind, and the command is the last one without
/// its field codes.
pub proof fn entries_say_what_files_say(
    e: AppEntry,
    stem: Seq<char>,
    p: Seq<(Seq<char>, Seq<char>)>,
    n: int,
    x: int,
)
    requires
        is_entry_of(e, stem, p),
        0 <= n < p.len(),
        p[n].0 == "Name"@,
        forall|j: int| 0 <= j < n ==> (#[trigger] p[j]).0 != "Name"@,
        0 <= x < p.len(),
        p[x].0 == "Exec"@,
        forall|j: int| x < j < p.len() ==> (#[trigger] p[j]).0 != "Exec"@,
    ensures
        e.id@ == stem,
        e.name@ == p[n].1,
        e.command@ == cleaned(p[x].1),
        forall|k: int|
            0 <= k < p.len() && (#[trigger] p[k]).0 == "Comment"@ && p[k].1.len() > 0 && (forall|j: int|
                0 <= j < k ==> (#[trigger] p[j]).0 != "Comment"@) ==> e.description is Some
                && e.description->0@ == p[k].1,
        (forall|j: int| 0 <= j < p.len() ==> (#[trigger] p[j]).0 != "Comment"@)
            ==> e.description is None,
        forall|k: int|
            0 <= k < p.len() && (#[trigger] p[k]).0 == "Icon"@ && (forall|j: int|
                0 <= j < k ==> (#[trigger] p[j]).0 != "Icon"@) ==> e.icon@ == p[k].1,
        e.mode == crate::entry::AppMode::Drun,
        e.score == 0,
{
    first_values(p, "Name"@, n);
    last_values(p, "Exec"@, x);
    assert forall|k: int|
        0 <= k < p.len() && (#[trigger] p[k]).0 == "Comment"@ && p[k].1.len() > 0 && (forall|j: int|
            0 <= j < k ==> (#[trigger] p[j]).0 != "Comment"@) implies e.description is Some
        && e.description->0@ == p[k].1 by {
        first_values(p, "Comment"@, k);
    }
    if forall|j: int| 0 <= j < p.len() ==> (#[trigger] p[j]).0 != "Comment"@ {
        first_values(p, "Comment"@, p.len() as int);
    }
    assert forall|k: int|
        0 <= k < p.len() && (#[trigger] p[k]).0 == "Icon"@ && (forall|j: int|
            0 <= j < k ==> (#[trigger] p[j]).0 != "Icon"@) implies e.icon@ == p[k].1 by {
        first_values(p, "Icon"@, k);
    }
}

// ---------------------------------------------------------------------------
// Commands
// ---------------------------------------------------------------------------

/// The field codes are these letters and no others.
pub proof fn field_codes(c: char)
    ensures
        field_code(c) <==> "fFuUdDnNickvm"@.contains(c),
{
    reveal_strlit("fFuUdDnNickvm");
    let t = "fFuUdDnNickvm"@;
    assert(t.len() == 13);
    if field_code(c) {
        assert(t[0] == 'f' && t[1] == 'F' && t[2] == 'u' && t[3] == 'U' && t[4] == 'd' && t[5] == 'D'
            && t[6] == 'n' && t[7] == 'N' && t[8] == 'i' && t[9] == 'c' && t[10] == 'k' && t[11] == 'v'
            && t[12] == 'm');
    }
}

/// What stands in front of the first percent sign stays as it is.
pub proof fn plain_fronts_stay(a: Seq<char>, b: Seq<char>)
    requires
        !a.contains('%'),
    ensures
        without_codes(a + b) == a + without_codes(b),
    decreases a.len(),
{
    let s = a + b;
    if a.len() == 0 {
        assert(s =~= b);
        assert(a + without_codes(b) =~= without_codes(b));
    } else {
        assert(s[0] == a[0]);
        assert(a.contains(a[0]));
        let t = a.skip(1);
        assert(!t.contains('%')) by {
            if t.contains('%') {
                let j = choose|j: int| 0 <= j < t.len() && t[j] == '%';
                assert(a[j + 1] == '%');
            }
        }
        plain_fronts_stay(t, b);
        assert(s.skip(1) =~= t + b);
        assert(seq![a[0]] + (t + without_codes(b)) =~= a + without_codes(b));
    }
}

/// A percent sign with a field code goes, a doubled one leaves one, and any other
/// stays with what follows it.
pub proof fn percent_signs(a: Seq<char>, c: char, b: Seq<char>)
    requires
        !a.contains('%'),
    ensures
        without_codes(a + seq!['%', c] + b) == a + (if "fFuUdDnNickvm"@.contains(c) {
            without_codes(b)
        } else if c == '%' {
            seq!['%'] + without_codes(b)
        } else {
            seq!['%'] + without_codes(seq![c] + b)
        }),
        without_codes(a + seq!['%']) == a + seq!['%'],
{
    field_codes(c);
    let t = seq!['%', c] + b;
    assert(a + seq!['%', c] + b =~= a + t);
    plain_fronts_stay(a, t);
    assert(t.skip(2) =~= b);
    assert(t.skip(1) =~= seq![c] + b);
    let o = seq!['%'];
    plain_fronts_stay(a, o);
    assert(o.skip(1) =~= Seq::empty());
    assert(without_codes(o.skip(1)) =~= Seq::empty());
    assert(o + Seq::<char>::empty() =~= o);
}

/// Every percent sign doubled.
pub open spec fn doubled(s: Seq<char>) -> Seq<char>
    decreases s.len(),
{
    if s.len() == 0 {
        Seq::empty()
    } else {
        (if s[0] == '%' {
            seq!['%', '%']
        } else {
            seq![s[0]]
        }) + doubled(s.skip(1))
    }
}

/// A command whose percent signs are doubled is run as it was before.
pub proof fn doubled_signs_are_literal(s: Seq<char>)
    ensures
        without_codes(doubled(s)) == s,
        cleaned(doubled(s)) == trimmed(s),
    decreases s.len(),
{
    if s.len() == 0 {
        assert(s =~= Seq::empty());
    } else {
        let r = s.skip(1);
        doubled_signs_are_literal(r);
        let d = doubled(s);
        if s[0] == '%' {
            assert(d.skip(2) =~= doubled(r));
        } else {
            assert(d.skip(1) =~= doubled(r));
        }
        assert(seq![s[0]] + r =~= s);
    }
}

// ---------------------------------------------------------------------------
// Keywords
// ---------------------------------------------------------------------------

/// A list value gives its pieces in order, each trimmed and the blank ones left
/// out.
pub proof fn pieces_are_trimmed_and_filled(a: Seq<Seq<char>>, b: Seq<Seq<char>>, w: Seq<char>)
    ensures
        pieces(a + b) == pieces(a) + pieces(b),
        blank(w) ==> pieces(seq![w]).len() == 0,
        !blank(w) ==> pieces(seq![w]) == seq![trimmed(w)],
    decreases b.len(),
{
    blank_texts_vanish(w);
    assert(seq![w].drop_last() =~= Seq::empty());
    assert(pieces(seq![w].drop_last()) =~= Seq::empty());
    assert(Seq::<Seq<char>>::empty().push(trimmed(w)) =~= seq![trimmed(w)]);
    if b.len() == 0 {
        assert(a + b =~= a);
        assert(pieces(a) + pieces(b) =~= pieces(a));
    } else {
        pieces_are_trimmed_and_filled(a, b.drop_last(), w);
        assert((a + b).drop_last() =~= a + b.drop_last());
        let p = trimmed(b.last());
        assert(pieces(a) + pieces(b.drop_last()).push(p) =~= (pieces(a) + pieces(b.drop_last())).push(
            p,
        ));
    }
}

/// The words under a key come from all of its lines, in order, and from no other.
pub proof fn words_come_line_by_line(
    p: Seq<(Seq<char>, Seq<char>)>,
    key: Seq<char>,
    kv: (Seq<char>, Seq<char>),
)
    ensures
        kv.0 == key ==> words_under(p.push(kv), key) == words_under(p, key) + pieces(
            split_on(kv.1, ';'),
        ),
        kv.0 != key ==> words_under(p.push(kv), key) == words_under(p, key),
        words_under(Seq::empty(), key).len() == 0,
{
    assert(p.push(kv).drop_last() =~= p);
}

/// Words written with semicolons between them are read back.
pub proof fn listed_words_are_read(ws: Seq<Seq<char>>)
    requires
        ws.len() > 0,
        forall|i: int|
            0 <= i < ws.len() ==> (#[trigger] ws[i]).len() > 0 && tight(ws[i]) && !ws[i].contains(';'),
    ensures
        pieces(split_on(joined(ws, seq![';']), ';')) == ws,
{
    joined_pieces_split(ws, ';');
    lemma_pieces_same(ws);
}

proof fn lemma_pieces_same(ws: Seq<Seq<char>>)
    requires
        forall|i: int| 0 <= i < ws.len() ==> (#[trigger] ws[i]).len() > 0 && tight(ws[i]),
    ensures
        pieces(ws) == ws,
    decreases ws.len(),
{
    if ws.len() > 0 {
        let d = ws.drop_last();
        assert forall|i: int| 0 <= i < d.len() implies (#[trigger] d[i]).len() > 0 && tight(d[i]) by {
            assert(d[i] == ws[i]);
        }
        lemma_pieces_same(d);
        assert(tight(ws[ws.len() - 1]));
        tight_texts_stay(ws.last());
        assert(d.push(ws.last()) =~= ws);
    } else {
        assert(pieces(ws) =~= ws);
    }
}

/// Taking out repeats leaves no two equal neighbours, keeps every word and makes
/// none up; a list without equal neighbours stays as it is.
pub proof fn repeats_are_cut(l: Seq<Seq<char>>)
    ensures
        forall|i: int| 0 < i < deduped(l).len() ==> #[trigger] deduped(l)[i] != deduped(l)[i - 1],
        forall|w: Seq<char>| #[trigger] deduped(l).contains(w) <==> l.contains(w),
        deduped(l).len() <= l.len(),
        l.len() > 0 ==> deduped(l).len() > 0 && deduped(l).last() == l.last(),
        (forall|i: int| 0 < i < l.len() ==> #[trigger] l[i] != l[i - 1]) ==> deduped(l) == l,
    decreases l.len(),
{
    let r = deduped(l);
    if l.len() == 0 {
        assert(r =~= l);
    } else {
        let d = l.drop_last();
        let b = deduped(d);
        repeats_are_cut(d);
        assert forall|w: Seq<char>| #[trigger] r.contains(w) implies l.contains(w) by {
            let i = choose|i: int| 0 <= i < r.len() && r[i] == w;
            if i < b.len() {
                assert(b[i] == w);
                assert(b.contains(w));
                let j = choose|j: int| 0 <= j < d.len() && d[j] == w;
                assert(l[j] == w);
            } else {
                assert(l[l.len() - 1] == w);
            }
        }
        assert forall|w: Seq<char>| l.contains(w) implies #[trigger] r.contains(w) by {
            let j = choose|j: int| 0 <= j < l.len() && l[j] == w;
            if j < d.len() {
                assert(d[j] == w);
                assert(d.contains(w));
                assert(b.contains(w));
                let i = choose|i: int| 0 <= i < b.len() && b[i] == w;
                assert(r[i] == w);
            } else {
                assert(r[r.len() - 1] == w);
            }
        }
        if forall|i: int| 0 < i < l.len() ==> #[trigger] l[i] != l[i - 1] {
            assert forall|i: int| 0 < i < d.len() implies #[trigger] d[i] != d[i - 1] by {
                assert(l[i] != l[i - 1]);
            }
            if d.len() > 0 {
                assert(l[l.len() - 1] != l[l.len() - 2]);
            }
            assert(d.push(l.last()) =~= l);
        }
    }
}

/// A part of a text.
pub open spec fn within(s: Seq<char>, w: Seq<char>) -> bool {
    exists|a: Seq<char>, b: Seq<char>| s == #[trigger] (a + w + b)
}

proof fn lemma_within_joined(l: Seq<Seq<char>>, sep: Seq<char>, i: int)
    requires
        0 <= i < l.len(),
    ensures
        within(joined(l, sep), l[i]),
    decreases l.len(),
{
    let s = joined(l, sep);
    let w = l[i];
    if l.len() == 1 {
        assert(s =~= Seq::<char>::empty() + w + Seq::<char>::empty());
    } else if i == l.len() - 1 {
        assert(s =~= (joined(l.drop_last(), sep) + sep) + w + Seq::<char>::empty());
    } else {
        let d = l.drop_last();
        lemma_within_joined(d, sep, i);
        let (a, b) = choose|a: Seq<char>, b: Seq<char>| joined(d, sep) == #[trigger] (a + d[i] + b);
        assert(s =~= a + w + (b + sep + l.last()));
    }
}

proof fn lemma_word_of(p: Seq<(Seq<char>, Seq<char>)>, key: Seq<char>, i: int, w: Seq<char>)
    requires
        0 <= i < p.len(),
        p[i].0 == key,
        pieces(split_on(p[i].1, ';')).contains(w),
    ensures
        words_under(p, key).contains(w),
    decreases p.len(),
{
    let d = p.drop_last();
    let before = words_under(d, key);
    let all = words_under(p, key);
    if i < d.len() {
        lemma_word_of(d, key, i, w);
        let j = choose|j: int| 0 <= j < before.len() && before[j] == w;
        assert(all[j] == w);
    } else {
        let more = pieces(split_on(p[i].1, ';'));
        let j = choose|j: int| 0 <= j < more.len() && more[j] == w;
        assert(all[before.len() + j] == w);
    }
}

/// Every category and every keyword of a file can be searched for: it stands in
/// the entry's keywords and in its search text, and so does the name.
pub proof fn keywords_are_searched(
    e: AppEntry,
    stem: Seq<char>,
    p: Seq<(Seq<char>, Seq<char>)>,
    i: int,
    w: Seq<char>,
)
    requires
        is_entry_of(e, stem, p),
        0 <= i < p.len(),
        p[i].0 == "Categories"@ || p[i].0 == "Keywords"@,
        pieces(split_on(p[i].1, ';')).contains(w),
    ensures
        within(e.keywords@, w),
        e.keywords@.len() > 0 ==> e.search_text@ == e.name@ + seq![' '] + e.keywords@,
        e.keywords@.len() == 0 ==> e.search_text@ == e.name@,
{
    let a = words_under(p, "Categories"@);
    let b = words_under(p, "Keywords"@);
    lemma_word_of(p, p[i].0, i, w);
    if p[i].0 == "Categories"@ {
        let j = choose|j: int| 0 <= j < a.len() && a[j] == w;
        assert((a + b)[j] == w);
    } else {
        let j = choose|j: int| 0 <= j < b.len() && b[j] == w;
        assert((a + b)[a.len() + j] == w);
    }
    repeats_are_cut(a + b);
    let l = deduped(a + b);
    assert(l.contains(w));
    let k = choose|k: int| 0 <= k < l.len() && l[k] == w;
    lemma_within_joined(l, " "@, k);
}

/// Categories come before keywords, with spaces between all of them.
pub proof fn keywords_are_listed(cats: Seq<Seq<char>>, keys: Seq<Seq<char>>)
    requires
        cats.len() > 0,
        keys.len() > 0,
        forall|i: int|
            0 <= i < cats.len() ==> (#[trigger] cats[i]).len() > 0 && tight(cats[i])
                && !cats[i].contains(';'),
        forall|i: int|
            0 <= i < keys.len() ==> (#[trigger] keys[i]).len() > 0 && tight(keys[i])
                && !keys[i].contains(';'),
        forall|i: int| 0 < i < (cats + keys).len() ==> #[trigger] (cats + keys)[i] != (cats + keys)[i - 1],
    ensures
        keyword_line(
            seq![
                ("Categories"@, joined(cats, seq![';'])),
                ("Keywords"@, joined(keys, seq![';'])),
            ],
        ) == joined(cats + keys, seq![' ']),
{
    reveal_strlit("Categories");
    reveal_strlit("Keywords");
    reveal_strlit(" ");
    assert(" "@ =~= seq![' ']);
    let a = ("Categories"@, joined(cats, seq![';']));
    let b = ("Keywords"@, joined(keys, seq![';']));
    let none = Seq::<(Seq<char>, Seq<char>)>::empty();
    let p = seq![a, b];
    assert("Categories"@.len() != "Keywords"@.len());
    assert(p =~= none.push(a).push(b));
    listed_words_are_read(cats);
    listed_words_are_read(keys);
    words_come_line_by_line(none, "Categories"@, a);
    words_come_line_by_line(none, "Keywords"@, a);
    words_come_line_by_line(none.push(a), "Categories"@, b);
    words_come_line_by_line(none.push(a), "Keywords"@, b);
    assert(words_under(p, "Categories"@) =~= cats);
    assert(words_under(p, "Keywords"@) =~= keys);
    repeats_are_cut(cats + keys);
}

// ---------------------------------------------------------------------------
// Programs
// ---------------------------------------------------------------------------

/// A program with a slash in its name is looked for there alone; any other below
/// each directory of the search path, in order.
pub proof fn programs_are_looked_up(value: Seq<char>, dirs: Seq<Seq<char>>)
    requires
        dirs.len() > 0,
        forall|i: int| 0 <= i < dirs.len() ==> !(#[trigger] dirs[i]).contains(':'),
    ensures
        value.contains('/') ==> program_paths(value, Some(joined(dirs, seq![':']))) == seq![value],
        !value.contains('/') ==> {
            let l = program_paths(value, Some(joined(dirs, seq![':'])));
            l.len() == dirs.len() && forall|i: int|
                0 <= i < dirs.len() ==> (#[trigger] dirs[i].len() > 0 && dirs[i].last() != '/'
                    ==> l[i] == dirs[i] + seq!['/'] + value) && (dirs[i].len() > 0 && dirs[i].last() == '/'
                    ==> l[i] == dirs[i] + value)
        },
{
    joined_pieces_split(dirs, ':');
    let l = program_paths(value, Some(joined(dirs, seq![':'])));
    if !value.contains('/') {
        assert forall|i: int| 0 <= i < dirs.len() implies (#[trigger] dirs[i].len() > 0
            && dirs[i].last() != '/' ==> l[i] == dirs[i] + seq!['/'] + value) && (dirs[i].len() > 0
            && dirs[i].last() == '/' ==> l[i] == dirs[i] + value) by {
            assert(l[i] == below(dirs[i], value));
        }
    }
}

} // verus!
