//! Lexical scanning of binding expressions: quotes, brackets, top-level splits.
use crate::text::{eq_chars, to_vec, views};
use vstd::prelude::*;
use vstd::slice::slice_subrange;

verus! {

pub open spec fn quote_char(c: char) -> bool {
    c == '\'' || c == '"'
}

pub open spec fn opener(c: char) -> bool {
    c == '(' || c == '['
}

pub open spec fn closer(c: char) -> bool {
    c == ')' || c == ']'
}

/// The first position at or after `i` that holds `q`, or the length.
pub open spec fn next_char(s: Seq<char>, q: char, i: int) -> int
    decreases s.len() - i,
{
    if i >= s.len() {
        s.len() as int
    } else if s[i] == q {
        i
    } else {
        next_char(s, q, i + 1)
    }
}

pub proof fn lemma_next_char(s: Seq<char>, q: char, i: int)
    requires
        0 <= i,
    ensures
        i <= s.len() ==> i <= next_char(s, q, i) <= s.len(),
        i > s.len() ==> next_char(s, q, i) == s.len(),
    decreases s.len() - i,
{
    if i < s.len() && s[i] != q {
        lemma_next_char(s, q, i + 1);
    }
}

pub fn find_from(s: &[char], q: char, i: usize) -> (r: usize)
    requires
        i <= s@.len(),
    ensures
        r == next_char(s@, q, i as int),
        i <= r <= s@.len(),
{
    let mut k: usize = i;
    while k < s.len() && s[k] != q
        invariant
            i <= k <= s@.len(),
            next_char(s@, q, i as int) == next_char(s@, q, k as int),
        decreases s@.len() - k,
    {
        k += 1;
    }
    k
}

/// Where a scan at position `i` goes on: behind a quoted region, or one further.
pub open spec fn past(s: Seq<char>, i: int) -> int {
    if quote_char(s[i]) {
        let j = next_char(s, s[i], i + 1);
        if j >= s.len() {
            s.len() as int
        } else {
            j + 1
        }
    } else {
        i + 1
    }
}

pub proof fn lemma_past(s: Seq<char>, i: int)
    requires
        0 <= i < s.len(),
    ensures
        i < past(s, i) <= s.len(),
{
    lemma_next_char(s, s[i], i + 1);
}

pub fn skip_past(s: &[char], i: usize) -> (r: usize)
    requires
        i < s@.len(),
    ensures
        r == past(s@, i as int),
        i < r <= s@.len(),
{
    let c = s[i];
    if c == '\'' || c == '"' {
        let j = find_from(s, c, i + 1);
        if j >= s.len() {
            s.len()
        } else {
            j + 1
        }
    } else {
        i + 1
    }
}

/// How a character outside quotes changes the bracket depth.
pub open spec fn depth_change(c: char) -> int {
    if opener(c) {
        1
    } else if closer(c) {
        -1
    } else {
        0
    }
}

/// `needle` stands in `s` at position `i`.
pub open spec fn stands_at(s: Seq<char>, needle: Seq<char>, i: int) -> bool {
    0 <= i && i + needle.len() <= s.len() && s.subrange(i, i + needle.len()) == needle
}

pub fn stands(s: &[char], needle: &[char], i: usize) -> (r: bool)
    ensures
        r == stands_at(s@, needle@, i as int),
{
    if i > s.len() || needle.len() > s.len() - i {
        return false;
    }
    eq_chars(slice_subrange(s, i, i + needle.len()), needle)
}

/// The first position at or after `i` where `needle` stands outside quotes and
/// brackets, the scan having reached `i` at bracket depth `depth`.
pub open spec fn top_from(s: Seq<char>, needle: Seq<char>, i: int, depth: int) -> Option<int>
    decreases s.len() - i,
{
    if i < 0 || i >= s.len() {
        None
    } else {
        proof {
            lemma_past(s, i);
        }
        let plain = !quote_char(s[i]) && !opener(s[i]) && !closer(s[i]);
        if plain && depth == 0 && stands_at(s, needle, i) {
            Some(i)
        } else {
            top_from(s, needle, past(s, i), depth + depth_change(s[i]))
        }
    }
}

/// The first top-level position of `needle`.
pub open spec fn top_index(s: Seq<char>, needle: Seq<char>) -> Option<int> {
    top_from(s, needle, 0, 0)
}

pub proof fn lemma_top_from(s: Seq<char>, needle: Seq<char>, i: int, depth: int)
    requires
        0 <= i,
    ensures
        top_from(s, needle, i, depth) matches Some(p) ==> i <= p < s.len() && stands_at(s, needle, p),
    decreases s.len() - i,
{
    if i < s.len() {
        lemma_past(s, i);
        lemma_top_from(s, needle, past(s, i), depth + depth_change(s[i]));
    }
}

/// A split at a top-level separator loses nothing but the separator.
pub proof fn top_split_rebuilds(s: Seq<char>, needle: Seq<char>)
    ensures
        top_index(s, needle) matches Some(p) ==> {
            &&& 0 <= p
            &&& p + needle.len() <= s.len()
            &&& s == s.take(p) + needle + s.skip(p + needle.len() as int)
        },
{
    lemma_top_from(s, needle, 0, 0);
    if let Some(p) = top_index(s, needle) {
        assert(s =~= s.take(p) + s.subrange(p, p + needle.len()) + s.skip(p + needle.len() as int));
    }
}

pub fn find_top(s: &[char], needle: &[char]) -> (r: Option<usize>)
    ensures
        (r matches Some(p) ==> top_index(s@, needle@) == Some(p as int)),
        r is None ==> top_index(s@, needle@) is None,
        r matches Some(p) ==> p < s@.len() && p + needle@.len() <= s@.len(),
{
    let n: usize = s.len();
    let mut i: usize = 0;
    let mut depth: i128 = 0;
    while i < n
        invariant
            n == s@.len(),
            i <= n,
            -(i as int) <= depth <= i,
            top_index(s@, needle@) == top_from(s@, needle@, i as int, depth as int),
        decreases n - i,
    {
        let c = s[i];
        let next: usize = skip_past(s, i);
        if c == '(' || c == '[' {
            depth += 1;
        } else if c == ')' || c == ']' {
            depth -= 1;
        } else if c != '\'' && c != '"' && depth == 0 && stands(s, needle, i) {
            return Some(i);
        }
        i = next;
    }
    None
}

/// The position of the `:` that answers a `?` in front of position `i`.
pub open spec fn colon_from(s: Seq<char>, i: int, depth: int, pending: int) -> Option<int>
    decreases s.len() - i,
{
    if i < 0 || i >= s.len() {
        None
    } else {
        proof {
            lemma_past(s, i);
        }
        let top = depth == 0;
        if top && s[i] == ':' && pending == 0 {
            Some(i)
        } else {
            let open = if top && s[i] == '?' {
                pending + 1
            } else if top && s[i] == ':' {
                pending - 1
            } else {
                pending
            };
            colon_from(s, past(s, i), depth + depth_change(s[i]), open)
        }
    }
}

pub proof fn lemma_colon_from(s: Seq<char>, i: int, depth: int, pending: int)
    requires
        0 <= i,
    ensures
        colon_from(s, i, depth, pending) matches Some(p) ==> i <= p < s.len(),
    decreases s.len() - i,
{
    if i < s.len() {
        lemma_past(s, i);
        let top = depth == 0;
        let open = if top && s[i] == '?' {
            pending + 1
        } else if top && s[i] == ':' {
            pending - 1
        } else {
            pending
        };
        lemma_colon_from(s, past(s, i), depth + depth_change(s[i]), open);
    }
}

/// The positions of the `?` and the `:` of a conditional: the first top-level
/// `?`, and the `:` behind it that no nested `?` claims.
pub open spec fn ternary(s: Seq<char>) -> Option<(int, int)> {
    match top_index(s, seq!['?']) {
        Some(p) => match colon_from(s.skip(p + 1), 0, 0, 0) {
            Some(q) => Some((p, p + 1 + q)),
            None => None,
        },
        None => None,
    }
}

pub proof fn lemma_ternary(s: Seq<char>)
    ensures
        ternary(s) matches Some((p, q)) ==> 0 <= p < q < s.len() && s[p] == '?',
{
    lemma_top_from(s, seq!['?'], 0, 0);
    if let Some(p) = top_index(s, seq!['?']) {
        lemma_colon_from(s.skip(p + 1), 0, 0, 0);
        assert(s.subrange(p, p + 1)[0] == s[p]);
    }
}

pub fn find_ternary(s: &[char]) -> (r: Option<(usize, usize)>)
    ensures
        r matches Some((p, q)) ==> ternary(s@) == Some((p as int, q as int)) && p < q < s@.len(),
        r is None ==> ternary(s@) is None,
{
    let mark: [char; 1] = ['?'];
    let needle = vstd::array::array_as_slice(&mark);
    proof {
        assert(needle@ =~= seq!['?']);
    }
    match find_top(s, needle) {
        None => None,
        Some(p) => {
            let total: usize = s.len();
            let rest = slice_subrange(s, p + 1, total);
            proof {
                assert(rest@ =~= s@.skip(p + 1));
            }
            let n: usize = rest.len();
            let mut i: usize = 0;
            let mut depth: i128 = 0;
            let mut pending: i128 = 0;
            while i < n
                invariant
                    n == rest@.len(),
                    total == s@.len(),
                    n == total - p - 1,
                    i <= n,
                    -(i as int) <= depth <= i,
                    0 <= pending <= i,
                    colon_from(rest@, 0, 0, 0) == colon_from(
                        rest@,
                        i as int,
                        depth as int,
                        pending as int,
                    ),
                    rest@ == s@.skip(p + 1),
                    top_index(s@, seq!['?']) == Some(p as int),
                decreases n - i,
            {
                let c = rest[i];
                let next: usize = skip_past(rest, i);
                if depth == 0 && c == ':' {
                    if pending == 0 {
                        return Some((p, p + 1 + i));
                    }
                    pending -= 1;
                } else if depth == 0 && c == '?' {
                    pending += 1;
                }
                if c == '(' || c == '[' {
                    depth += 1;
                } else if c == ')' || c == ']' {
                    depth -= 1;
                }
                i = next;
            }
            None
        },
    }
}

/// The comma-separated pieces from `start` on, the scan standing at `i`.
pub open spec fn args_from(s: Seq<char>, start: int, i: int, depth: int) -> Seq<Seq<char>>
    decreases s.len() - i,
{
    if i < 0 || i >= s.len() {
        seq![s.skip(start)]
    } else {
        proof {
            lemma_past(s, i);
        }
        if s[i] == ',' && depth == 0 {
            seq![s.subrange(start, i)] + args_from(s, i + 1, i + 1, depth)
        } else {
            args_from(s, start, past(s, i), depth + depth_change(s[i]))
        }
    }
}

/// The top-level comma-separated arguments; an empty list has none.
pub open spec fn args(s: Seq<char>) -> Seq<Seq<char>> {
    if s.len() == 0 {
        Seq::empty()
    } else {
        args_from(s, 0, 0, 0)
    }
}

pub proof fn lemma_args_from(s: Seq<char>, start: int, i: int, depth: int)
    requires
        0 <= start <= i,
        start <= s.len(),
    ensures
        args_from(s, start, i, depth).len() >= 1,
        forall|k: int|
            0 <= k < args_from(s, start, i, depth).len() ==> (#[trigger] args_from(
                s,
                start,
                i,
                depth,
            )[k]).len() <= s.len(),
    decreases s.len() - i,
{
    if i < s.len() {
        lemma_past(s, i);
        if s[i] == ',' && depth == 0 {
            lemma_args_from(s, i + 1, i + 1, depth);
        } else {
            lemma_args_from(s, start, past(s, i), depth + depth_change(s[i]));
        }
    }
}

pub proof fn lemma_args(s: Seq<char>)
    ensures
        s.len() > 0 ==> args(s).len() >= 1,
        forall|k: int| 0 <= k < args(s).len() ==> (#[trigger] args(s)[k]).len() <= s.len(),
{
    lemma_args_from(s, 0, 0, 0);
}

pub fn split_args(s: &[char]) -> (r: Vec<Vec<char>>)
    ensures
        views(r@) == args(s@),
{
    let mut out: Vec<Vec<char>> = Vec::new();
    let n: usize = s.len();
    if n == 0 {
        proof {
            assert(views(out@) =~= args(s@));
        }
        return out;
    }
    let mut start: usize = 0;
    let mut i: usize = 0;
    let mut depth: i128 = 0;
    proof {
        assert(views(out@) + args(s@) =~= args(s@));
    }
    while i < n
        invariant
            n == s@.len(),
            start <= i <= n,
            -(i as int) <= depth <= i,
            views(out@) + args_from(s@, start as int, i as int, depth as int) == args(s@),
        decreases n - i,
    {
        let c = s[i];
        let next: usize = skip_past(s, i);
        let ghost rest = args_from(s@, start as int, i as int, depth as int);
        if c == ',' && depth == 0 {
            let ghost before = out@;
            out.push(to_vec(slice_subrange(s, start, i)));
            start = i + 1;
            proof {
                let tail = args_from(s@, i + 1, i + 1, 0);
                assert(views(out@) =~= views(before).push(rest[0]));
                assert(views(out@) + tail =~= views(before) + (seq![rest[0]] + tail));
            }
        } else if c == '(' || c == '[' {
            depth += 1;
        } else if c == ')' || c == ']' {
            depth -= 1;
        }
        i = next;
    }
    let ghost before = out@;
    out.push(to_vec(slice_subrange(s, start, n)));
    proof {
        assert(s@.subrange(start as int, n as int) =~= s@.skip(start as int));
        assert(views(out@) =~= views(before) + seq![s@.skip(start as int)]);
    }
    out
}

/// The position of the `)` that balances the `(` at `i`; quotes do not count.
pub open spec fn close_from(s: Seq<char>, i: int, depth: int) -> Option<int>
    decreases s.len() - i,
{
    if i < 0 || i >= s.len() {
        None
    } else if s[i] == ')' && depth == 1 {
        Some(i)
    } else {
        let d = if s[i] == '(' {
            depth + 1
        } else if s[i] == ')' {
            depth - 1
        } else {
            depth
        };
        close_from(s, i + 1, d)
    }
}

/// The position that closes the parenthesis opened at `i`.
pub open spec fn closing(s: Seq<char>, i: int) -> Option<int> {
    if 0 <= i < s.len() && s[i] == '(' {
        close_from(s, i, 0)
    } else {
        None
    }
}

pub proof fn lemma_close_from(s: Seq<char>, i: int, depth: int)
    requires
        0 <= i,
    ensures
        close_from(s, i, depth) matches Some(p) ==> i <= p < s.len() && s[p] == ')',
    decreases s.len() - i,
{
    if i < s.len() && !(s[i] == ')' && depth == 1) {
        let d = if s[i] == '(' {
            depth + 1
        } else if s[i] == ')' {
            depth - 1
        } else {
            depth
        };
        lemma_close_from(s, i + 1, d);
    }
}

pub fn find_closing(s: &[char], at: usize) -> (r: Option<usize>)
    ensures
        r matches Some(p) ==> closing(s@, at as int) == Some(p as int) && at < p < s@.len(),
        r is None ==> closing(s@, at as int) is None,
{
    if at >= s.len() || s[at] != '(' {
        return None;
    }
    let n: usize = s.len();
    let mut i: usize = at;
    let mut depth: i128 = 0;
    proof {
        lemma_close_from(s@, at as int, 0);
    }
    while i < n
        invariant
            n == s@.len(),
            at <= i <= n,
            at < n,
            s@[at as int] == '(',
            -(i as int) <= depth <= i + 1,
            depth <= i - at,
            closing(s@, at as int) == close_from(s@, i as int, depth as int),
        decreases n - i,
    {
        let c = s[i];
        if c == ')' && depth == 1 {
            return Some(i);
        }
        if c == '(' {
            depth += 1;
        } else if c == ')' {
            depth -= 1;
        }
        i += 1;
    }
    None
}

/// A text in matching quotes.
pub open spec fn quoted(s: Seq<char>) -> bool {
    s.len() >= 2 && quote_char(s[0]) && s.last() == s[0]
}

/// The text between the quotes, or the text itself.
pub open spec fn unquoted(s: Seq<char>) -> Seq<char> {
    if quoted(s) {
        s.subrange(1, s.len() - 1)
    } else {
        s
    }
}

pub fn is_quoted(s: &[char]) -> (r: bool)
    ensures
        r == quoted(s@),
{
    let n: usize = s.len();
    n >= 2 && (s[0] == '\'' || s[0] == '"') && s[n - 1] == s[0]
}

pub fn strip_quotes(s: &[char]) -> (r: &[char])
    ensures
        r@ == unquoted(s@),
{
    if is_quoted(s) {
        slice_subrange(s, 1, s.len() - 1)
    } else {
        s
    }
}

/// `needle` occurs in `s`.
pub open spec fn occurs(s: Seq<char>, needle: Seq<char>) -> bool {
    exists|i: int| #[trigger] stands_at(s, needle, i)
}

pub fn has(s: &[char], needle: &str) -> (r: bool)
    ensures
        r == occurs(s@, needle@),
{
    let l = crate::text::chars_of(needle);
    let mut i: usize = 0;
    while i <= s.len()
        invariant
            i <= s@.len() + 1,
            l@ == needle@,
            forall|k: int| 0 <= k < i ==> !#[trigger] stands_at(s@, needle@, k),
        decreases s@.len() + 1 - i,
    {
        if stands(s, l.as_slice(), i) {
            return true;
        }
        if i == s.len() {
            return false;
        }
        i += 1;
    }
    false
}

pub open spec fn ascii_digit(c: char) -> bool {
    '0' <= c <= '9'
}

pub open spec fn ascii_alpha(c: char) -> bool {
    ('a' <= c <= 'z') || ('A' <= c <= 'Z')
}

pub open spec fn word_char(c: char) -> bool {
    ascii_alpha(c) || ascii_digit(c) || c == '_'
}

pub fn is_digit(c: char) -> (r: bool)
    ensures
        r == ascii_digit(c),
{
    '0' <= c && c <= '9'
}

pub fn is_alpha(c: char) -> (r: bool)
    ensures
        r == ascii_alpha(c),
{
    ('a' <= c && c <= 'z') || ('A' <= c && c <= 'Z')
}

pub fn is_word(c: char) -> (r: bool)
    ensures
        r == word_char(c),
{
    is_alpha(c) || is_digit(c) || c == '_'
}

/// `w` stands at `i` with no word character on either side.
pub open spec fn word_at(s: Seq<char>, w: Seq<char>, i: int) -> bool {
    &&& stands_at(s, w, i)
    &&& i == 0 || !word_char(s[i - 1])
    &&& i + w.len() == s.len() || !word_char(s[i + w.len()])
}

pub open spec fn has_word(s: Seq<char>, w: Seq<char>) -> bool {
    exists|i: int| #[trigger] word_at(s, w, i)
}

pub fn contains_word(s: &[char], word: &str) -> (r: bool)
    ensures
        r == has_word(s@, word@),
{
    let l = crate::text::chars_of(word);
    let mut i: usize = 0;
    while i <= s.len()
        invariant
            i <= s@.len() + 1,
            l@ == word@,
            forall|k: int| 0 <= k < i ==> !#[trigger] word_at(s@, word@, k),
        decreases s@.len() + 1 - i,
    {
        if stands(s, l.as_slice(), i) {
            let end: usize = i + l.len();
            if (i == 0 || !is_word(s[i - 1])) && (end == s.len() || !is_word(s[end])) {
                proof {
                    assert(word_at(s@, word@, i as int));
                }
                return true;
            }
        }
        if i == s.len() {
            return false;
        }
        i += 1;
    }
    false
}

/// The end of the run of digits that starts at `i`.
pub open spec fn digits_end(s: Seq<char>, i: int) -> int
    decreases s.len() - i,
{
    if 0 <= i < s.len() && ascii_digit(s[i]) {
        digits_end(s, i + 1)
    } else {
        i
    }
}

pub proof fn lemma_digits_end(s: Seq<char>, i: int)
    requires
        0 <= i <= s.len(),
    ensures
        i <= digits_end(s, i) <= s.len(),
        forall|k: int| i <= k < digits_end(s, i) ==> ascii_digit(#[trigger] s[k]),
        digits_end(s, i) < s.len() ==> !ascii_digit(s[digits_end(s, i)]),
    decreases s.len() - i,
{
    if i < s.len() && ascii_digit(s[i]) {
        lemma_digits_end(s, i + 1);
    }
}

pub fn skip_digits(s: &[char], i: usize) -> (r: usize)
    requires
        i <= s@.len(),
    ensures
        r == digits_end(s@, i as int),
        i <= r <= s@.len(),
{
    let mut k: usize = i;
    while k < s.len() && is_digit(s[k])
        invariant
            i <= k <= s@.len(),
            digits_end(s@, i as int) == digits_end(s@, k as int),
        decreases s@.len() - k,
    {
        k += 1;
    }
    k
}

/// The exponent part `e[+-]digits` fills `s` from `i` on, or nothing is left there.
pub open spec fn exponent_or_end(s: Seq<char>, i: int) -> bool {
    if i == s.len() {
        true
    } else if 0 <= i < s.len() && (s[i] == 'e' || s[i] == 'E') {
        let k = if i + 1 < s.len() && (s[i + 1] == '+' || s[i + 1] == '-') {
            i + 2
        } else {
            i + 1
        };
        k < s.len() && digits_end(s, k) == s.len()
    } else {
        false
    }
}

/// A decimal number without its sign: digits with an optional point, at least
/// one digit, and an optional exponent.
pub open spec fn unsigned_number(s: Seq<char>) -> bool {
    let a = digits_end(s, 0);
    if 0 <= a < s.len() && s[a] == '.' {
        let b = digits_end(s, a + 1);
        (a > 0 || b > a + 1) && exponent_or_end(s, b)
    } else {
        a > 0 && exponent_or_end(s, a)
    }
}

pub open spec fn lower_ascii(c: char) -> char {
    if 'A' <= c <= 'Z' {
        ((c as u32 + 32) as u8) as char
    } else {
        c
    }
}

pub open spec fn lowered(s: Seq<char>) -> Seq<char> {
    s.map_values(|c: char| lower_ascii(c))
}

pub fn to_lower_ascii(c: char) -> (r: char)
    ensures
        r == lower_ascii(c),
{
    if 'A' <= c && c <= 'Z' {
        ((c as u32 + 32) as u8) as char
    } else {
        c
    }
}

pub fn lower(s: &[char]) -> (r: Vec<char>)
    ensures
        r@ == lowered(s@),
{
    let mut out: Vec<char> = Vec::new();
    let n: usize = s.len();
    let mut i: usize = 0;
    while i < n
        invariant
            n == s@.len(),
            i <= n,
            out@ == lowered(s@).take(i as int),
        decreases n - i,
    {
        out.push(to_lower_ascii(s[i]));
        i += 1;
        proof {
            assert(lowered(s@).take(i as int) =~= lowered(s@).take(i - 1).push(
                lower_ascii(s@[i - 1]),
            ));
        }
    }
    proof {
        assert(lowered(s@).take(n as int) =~= lowered(s@));
    }
    out
}

/// The texts that parse as a floating point number.
pub open spec fn number_text(s: Seq<char>) -> bool {
    let body = if s.len() > 0 && (s[0] == '+' || s[0] == '-') {
        s.skip(1)
    } else {
        s
    };
    let word = lowered(body);
    ||| word == "inf"@
    ||| word == "infinity"@
    ||| word == "nan"@
    ||| unsigned_number(body)
}

fn ends_in_exponent(s: &[char], i: usize) -> (r: bool)
    requires
        i <= s@.len(),
    ensures
        r == exponent_or_end(s@, i as int),
{
    if i == s.len() {
        true
    } else if s[i] == 'e' || s[i] == 'E' {
        let k: usize = if i + 1 < s.len() && (s[i + 1] == '+' || s[i + 1] == '-') {
            i + 2
        } else {
            i + 1
        };
        k < s.len() && skip_digits(s, k) == s.len()
    } else {
        false
    }
}

pub fn is_unsigned_number(s: &[char]) -> (r: bool)
    ensures
        r == unsigned_number(s@),
{
    let a: usize = skip_digits(s, 0);
    if a < s.len() && s[a] == '.' {
        let b: usize = skip_digits(s, a + 1);
        (a > 0 || b > a + 1) && ends_in_exponent(s, b)
    } else {
        a > 0 && ends_in_exponent(s, a)
    }
}

pub fn is_number(s: &[char]) -> (r: bool)
    ensures
        r == number_text(s@),
{
    let n: usize = s.len();
    let from: usize = if n > 0 && (s[0] == '+' || s[0] == '-') {
        1
    } else {
        0
    };
    let body = slice_subrange(s, from, n);
    proof {
        if from == 0 {
            assert(body@ =~= s@);
        } else {
            assert(body@ =~= s@.skip(1));
        }
    }
    let word = lower(body);
    crate::text::eq_str(word.as_slice(), "inf") || crate::text::eq_str(word.as_slice(), "infinity")
        || crate::text::eq_str(word.as_slice(), "nan") || is_unsigned_number(body)
}

} // verus!
