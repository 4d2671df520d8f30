//! What the calculator, the programs and the windows promise.
use crate::calc::{
    copy_line, decimals, escaped, finite_text, is_calc_row, nearly_whole, number_shown, padded,
    round_half_even, round_half_up, rounding_gap, without_trailing,
};
use crate::entry::AppEntry;
use crate::json::{field, int_field, text_field, JsonView};
use crate::math::{lemma_two_positive, ten, two};
use crate::modes::{
    hypr_title, hypr_windows, replaced, sway_children, sway_list, sway_own, sway_windows, with_app,
    wm_activate, wm_list, wm_type_of, wmctrl_window, wmctrl_windows, WmEnv, WmType,
};
use crate::scan::stands_at;
use crate::text::{all_digits, decimal, decimal_int, digit_char, digits_value, index_or_len};
use crate::text_laws::digits_are_worth_their_place;
use vstd::prelude::*;

verus! {

// ---------------------------------------------------------------------------
// Numbers
// ---------------------------------------------------------------------------

/// Rounding to the even neighbour is never more than half off, and a half goes to
/// the even neighbour.
pub proof fn rounding_is_to_the_nearest(n: nat, d: nat)
    requires
        d > 0,
    ensures
        2 * n <= 2 * (round_half_even(n, d) * d) + d,
        2 * (round_half_even(n, d) * d) <= 2 * n + d,
        2 * n == 2 * (round_half_even(n, d) * d) + d || 2 * n + d == 2 * (round_half_even(n, d) * d)
            ==> round_half_even(n, d) % 2 == 0,
        2 * n <= 2 * (round_half_up(n, d) * d) + d,
        2 * (round_half_up(n, d) * d) <= 2 * n + d,
        2 * n != 2 * (round_half_up(n, d) * d) + d,
{
    let q = n / d;
    let r = n % d;
    assert(n == q * d + r && 0 <= r < d) by {
        vstd::arithmetic::div_mod::lemma_fundamental_div_mod(n as int, d as int);
        assert(q * d == d * q) by (nonlinear_arith);
    }
    assert((q + 1) * d == q * d + d) by (nonlinear_arith);
}

/// A whole number is shown as its digits.
pub proof fn whole_numbers_are_exact(neg: bool, v: nat, k: nat)
    requires
        v <= 9223372036854775807,
    ensures
        finite_text(neg, v * two(k), -(k as int)) == decimal_int(
            if neg {
                -(v as int)
            } else {
                v as int
            },
        ),
{
    lemma_two_positive(k);
    let d = two(k);
    let n = v * d;
    assert(n % d == 0 && n / d == v) by {
        vstd::arithmetic::div_mod::lemma_div_multiples_vanish(v as int, d as int);
        vstd::arithmetic::div_mod::lemma_mod_multiples_basic(v as int, d as int);
        assert(v * d == d * v) by (nonlinear_arith);
    }
    if k == 0 {
        assert(two(0) == 1);
        assert(v * 1 == v && n * 1 == n);
        assert(d == 1);
        assert(n == v * 1);
        assert(n * two(0) == v);
    } else {
        assert(rounding_gap(n, d) == 0);
        assert(0 * two(86) < crate::calc::TOLERANCE * d) by (nonlinear_arith)
            requires
                d > 0,
        ;
        assert(nearly_whole(n, k));
        assert(round_half_up(n, d) == v);
    }
}

proof fn lemma_padded(n: nat, w: nat)
    ensures
        padded(n, w).len() == w,
        all_digits(padded(n, w)),
        digits_value(padded(n, w)) == n % ten(w),
    decreases w,
{
    crate::math::lemma_ten_positive(w);
    if w == 0 {
        assert(ten(0) == 1);
    } else {
        let u = (w - 1) as nat;
        lemma_padded(n / 10, u);
        crate::math::lemma_ten_positive(u);
        let s = padded(n / 10, u);
        let c = digit_char(n % 10);
        digits_are_worth_their_place(s, c);
        assert(ten(w) == 10 * ten(u)) by {
            crate::math::lemma_ten_adds(1, u);
            reveal_with_fuel(ten, 2);
        }
        assert(n % (10 * ten(u)) == 10 * ((n / 10) % ten(u)) + n % 10) by {
            vstd::arithmetic::div_mod::lemma_mod_breakdown(n as int, 10, ten(u) as int);
        }
        assert forall|i: int| 0 <= i < padded(n, w).len() implies '0' <= #[trigger] padded(n, w)[i] <= '9' by {
            if i < s.len() {
                assert(s[i] == padded(n, w)[i]);
            }
        }
    }
}

/// Only characters of the given kind go from the back, and all of those.
pub proof fn trailing_characters_go(s: Seq<char>, c: char) -> (k: int)
    ensures
        0 <= k <= s.len(),
        without_trailing(s, c) == s.take(k),
        forall|i: int| k <= i < s.len() ==> #[trigger] s[i] == c,
        k > 0 ==> s[k - 1] != c,
    decreases s.len(),
{
    if s.len() > 0 && s.last() == c {
        let d = s.drop_last();
        let k = trailing_characters_go(d, c);
        assert(d.take(k) =~= s.take(k));
        assert forall|i: int| k <= i < s.len() implies #[trigger] s[i] == c by {
            if i < d.len() {
                assert(d[i] == s[i]);
            }
        }
        k
    } else {
        assert(s.take(s.len() as int) =~= s);
        s.len() as int
    }
}

/// A number of ten-thousand-millionths is shown by its whole part and, where there
/// is one, a point and its decimals: ten digits that are worth the rest, less the
/// zeros at their end. A number without a rest has no point.
pub proof fn decimals_are_exact(neg: bool, q: nat) -> (f: Seq<char>)
    ensures
        f.len() == 10,
        all_digits(f),
        digits_value(f) == q % 10000000000,
        ({
            let sign = if neg {
                seq!['-']
            } else {
                Seq::<char>::empty()
            };
            let whole = sign + decimal(q / 10000000000);
            if forall|i: int| 0 <= i < 10 ==> #[trigger] f[i] == '0' {
                decimals(neg, q) == whole
            } else {
                exists|k: int|
                    0 < k <= 10 && #[trigger] f[k - 1] != '0' && (forall|i: int|
                        k <= i < 10 ==> #[trigger] f[i] == '0') && decimals(neg, q) == whole + seq!['.']
                        + f.take(k)
            }
        }),
{
    let sign = if neg {
        seq!['-']
    } else {
        Seq::<char>::empty()
    };
    let f = padded(q % 10000000000, 10);
    lemma_padded(q % 10000000000, 10);
    assert(ten(10) == 10000000000) by {
        reveal_with_fuel(ten, 11);
    }
    assert((q % 10000000000) % 10000000000 == q % 10000000000);
    crate::text_laws::numerals_are_read_back(q / 10000000000);
    let w = decimal(q / 10000000000);
    let whole = sign + w;
    let s = sign + w + seq!['.'] + f;
    let n = whole.len() as int;
    assert(s =~= whole + seq!['.'] + f);
    let k = trailing_characters_go(s, '0');
    assert(s[n] == '.');
    assert(k > n) by {
        if k <= n {
            assert(s[n] == '0');
        }
    }
    let t = s.take(k);
    let j = trailing_characters_go(t, '.');
    assert(decimals(neg, q) == t.take(j));
    if forall|i: int| 0 <= i < 10 ==> #[trigger] f[i] == '0' {
        if k > n + 1 {
            assert(s[k - 1] == f[k - 1 - n - 1]);
        }
        assert(k == n + 1);
        assert(t[n] == '.');
        assert(whole.last() == w.last());
        assert('0' <= w[w.len() - 1] <= '9');
        assert(t[n - 1] == whole[n - 1]);
        if j == n + 1 {
            assert(t[j - 1] == '.');
        }
        if j < n {
            assert(t[n - 1] == '.');
        }
        assert(t.take(j) =~= whole);
    } else {
        let i0 = choose|i: int| 0 <= i < 10 && #[trigger] f[i] != '0';
        assert(s[n + 1 + i0] == f[i0]);
        assert(k > n + 1 + i0);
        let m = k - n - 1;
        assert(s[k - 1] == f[m - 1]);
        assert('0' <= f[m - 1] <= '9');
        assert(t.last() == s[k - 1]);
        assert(j == k) by {
            if j < k {
                assert(t[k - 1] == '.');
            }
        }
        assert(t.take(j) =~= whole + seq!['.'] + f.take(m));
        assert forall|i: int| m <= i < 10 implies #[trigger] f[i] == '0' by {
            assert(s[n + 1 + i] == f[i]);
        }
        assert(f[m - 1] != '0');
    }
    f
}

/// A number that is not nearly whole is shown by the nearest number of decimals, a half
/// going to the even neighbour.
pub proof fn fractions_are_rounded(neg: bool, mant: nat, k: nat) -> (q: nat)
    requires
        k > 0,
        !nearly_whole(mant, k),
    ensures
        finite_text(neg, mant, -(k as int)) == decimals(neg, q),
        2 * (mant * 10000000000) <= 2 * (q * two(k)) + two(k),
        2 * (q * two(k)) <= 2 * (mant * 10000000000) + two(k),
{
    lemma_two_positive(k);
    rounding_is_to_the_nearest(mant * 10000000000, two(k));
    round_half_even(mant * 10000000000, two(k))
}

/// The bits of a number are its sign, its exponent and its fraction; the largest
/// exponent stands for what is not finite.
pub proof fn bits_are_taken_apart(neg: bool, e: int, f: int, bits: u64)
    requires
        0 <= e < 2048,
        0 <= f < 4503599627370496,
        bits == (if neg {
            9223372036854775808int
        } else {
            0
        }) + e * 4503599627370496 + f,
    ensures
        e == 2047 && f != 0 ==> number_shown(bits) == "NaN"@,
        e == 2047 && f == 0 && neg ==> number_shown(bits) == "-∞"@,
        e == 2047 && f == 0 && !neg ==> number_shown(bits) == "∞"@,
        0 < e < 2047 ==> number_shown(bits) == finite_text(neg, (f + 4503599627370496) as nat, e - 1075),
        e == 0 ==> number_shown(bits) == finite_text(neg, f as nat, -1074),
{
    let b = bits as int;
    assert(b % 4503599627370496 == f);
    assert(b / 4503599627370496 % 2048 == e);
}

/// What is copied of a result is what stands behind the equals sign of its row.
pub proof fn results_are_copied(e: AppEntry, query: Seq<char>, bits: u64)
    requires
        is_calc_row(e, query, Ok(bits)),
    ensures
        e.name@ == query + " = "@ + e.command@,
        e.command@ == number_shown(bits),
{
}

// ---------------------------------------------------------------------------
// Commands
// ---------------------------------------------------------------------------

/// Quoting for a shell goes character by character: an apostrophe closes the quote,
/// stands behind a backslash and opens it again, and anything else is itself.
pub proof fn quoting_is_by_character(a: Seq<char>, b: Seq<char>, c: char)
    ensures
        escaped(a + b) == escaped(a) + escaped(b),
        c != '\'' ==> escaped(seq![c]) == seq![c],
        escaped(seq!['\'']) == "'\\''"@,
    decreases b.len(),
{
    reveal_strlit("'\\''");
    let none = Seq::<char>::empty();
    assert(seq![c].drop_last() =~= none);
    assert(seq!['\''].drop_last() =~= none);
    assert(escaped(none) =~= none);
    assert(none.push(c) =~= seq![c]);
    assert(none + seq!['\'', '\\', '\'', '\''] =~= "'\\''"@);
    if b.len() == 0 {
        assert(a + b =~= a);
        assert(escaped(a) + escaped(b) =~= escaped(a));
    } else {
        let d = b.drop_last();
        quoting_is_by_character(a, d, c);
        assert((a + b).drop_last() =~= a + d);
        assert((a + b).last() == b.last());
        let x = escaped(a);
        let y = escaped(d);
        assert(x + y.push(b.last()) =~= (x + y).push(b.last()));
        let q = seq!['\'', '\\', '\'', '\''];
        assert(x + (y + q) =~= (x + y) + q);
    }
}

/// A text is copied by `wl-copy` where it is there, else by `xclip`, else not.
pub proof fn copying_takes_what_is_there(text: Seq<char>, xclip: bool)
    ensures
        copy_line(text, true, xclip) == Some("printf '%s' '"@ + escaped(text) + "' | wl-copy"@),
        copy_line(text, false, true) == Some(
            "printf '%s' '"@ + escaped(text) + "' | xclip -selection clipboard"@,
        ),
        copy_line(text, false, false) is None,
{
}

/// Where a pattern first stands, it is replaced, and what follows is treated in the
/// same way; a text without the pattern's first character stays.
pub proof fn patterns_are_replaced(a: Seq<char>, pattern: Seq<char>, b: Seq<char>, with: Seq<char>)
    requires
        pattern.len() > 0,
        !a.contains(pattern[0]),
    ensures
        replaced(a + pattern + b, pattern, with) == a + with + replaced(b, pattern, with),
        replaced(a, pattern, with) == a,
    decreases a.len(),
{
    let s = a + pattern + b;
    if a.len() == 0 {
        assert(s =~= pattern + b);
        assert(s.subrange(0, pattern.len() as int) =~= pattern);
        assert(s.skip(pattern.len() as int) =~= b);
        assert(a + with =~= with);
        assert(a =~= Seq::empty());
    } else {
        let t = a.skip(1);
        assert(!t.contains(pattern[0])) by {
            if t.contains(pattern[0]) {
                let j = choose|j: int| 0 <= j < t.len() && t[j] == pattern[0];
                assert(a[j + 1] == pattern[0]);
            }
        }
        patterns_are_replaced(t, pattern, b, with);
        assert(a.contains(a[0]));
        if stands_at(s, pattern, 0) {
            assert(s.subrange(0, pattern.len() as int)[0] == s[0]);
        }
        if stands_at(a, pattern, 0) {
            assert(a.subrange(0, pattern.len() as int)[0] == a[0]);
        }
        assert(s.skip(1) =~= t + pattern + b);
        assert(seq![a[0]] + (t + with + replaced(b, pattern, with)) =~= a + with + replaced(
            b,
            pattern,
            with,
        ));
        assert(seq![a[0]] + t =~= a);
    }
}

// ---------------------------------------------------------------------------
// Windows
// ---------------------------------------------------------------------------

/// The application stands in front of the title where it is known.
pub proof fn titles_name_the_application(app: Seq<char>, title: Seq<char>)
    ensures
        app.len() > 0 ==> with_app(app, title) == app + " — "@ + title,
        app.len() == 0 ==> with_app(app, title) == title,
{
}

/// A container of sway's tree that has an id and a name other than the root's is the
/// first window of its part of the tree; anything else is none.
pub proof fn containers_are_windows(v: JsonView, id: i64, name: Seq<char>, kind: Seq<char>)
    requires
        int_field(v, "id"@) == Some(id),
        text_field(v, "name"@) == Some(name),
        text_field(v, "type"@) == Some(kind),
    ensures
        name.len() > 0 && name != "root"@ && (kind == "con"@ || kind == "floating_con"@)
            ==> sway_windows(v).len() > 0 && sway_windows(v)[0].0 == decimal_int(id as int) && (
        text_field(v, "app_id"@) is None ==> sway_windows(v)[0].1 == name) && (text_field(
            v,
            "app_id"@,
        ) matches Some(app) ==> app.len() > 0 ==> sway_windows(v)[0].1 == app + " — "@ + name),
        name.len() == 0 || name == "root"@ || (kind != "con"@ && kind != "floating_con"@)
            ==> sway_own(v).len() == 0,
{
}

/// `part` stands in `whole` in one piece.
pub open spec fn within_list(part: Seq<(Seq<char>, Seq<char>)>, whole: Seq<(Seq<char>, Seq<char>)>) -> bool {
    exists|a: Seq<(Seq<char>, Seq<char>)>, b: Seq<(Seq<char>, Seq<char>)>|
        whole == #[trigger] (a + part + b)
}

proof fn lemma_sway_list(l: Seq<JsonView>, k: nat, i: int)
    requires
        k <= l.len(),
        0 <= i < k,
    ensures
        within_list(sway_windows(l[i]), sway_list(l, k)),
    decreases k,
{
    let j = (k - 1) as nat;
    let head = sway_list(l, j);
    let part = sway_windows(l[i]);
    let all = sway_list(l, k);
    assert(all == head + sway_windows(l[k - 1]));
    if i == j {
        let none = Seq::<(Seq<char>, Seq<char>)>::empty();
        assert(all =~= head + part + none);
    } else {
        lemma_sway_list(l, j, i);
        let (a, b) = choose|a: Seq<(Seq<char>, Seq<char>)>, b: Seq<(Seq<char>, Seq<char>)>|
            head == #[trigger] (a + part + b);
        assert(all =~= a + part + (b + sway_windows(l[k - 1])));
    }
}

/// The windows of every tiled and of every floating child are listed.
pub proof fn children_are_listed(v: JsonView, l: Seq<JsonView>, i: int)
    requires
        field(v, "nodes"@) == Some(JsonView::List(l)) || field(v, "floating_nodes"@) == Some(
            JsonView::List(l),
        ),
        0 <= i < l.len(),
    ensures
        within_list(sway_windows(l[i]), sway_windows(v)),
{
    lemma_sway_list(l, l.len(), i);
    let part = sway_windows(l[i]);
    let whole = sway_list(l, l.len());
    let (a, b) = choose|a: Seq<(Seq<char>, Seq<char>)>, b: Seq<(Seq<char>, Seq<char>)>|
        whole == #[trigger] (a + part + b);
    let own = sway_own(v);
    let x = sway_children(v, "nodes"@);
    let y = sway_children(v, "floating_nodes"@);
    assert(sway_windows(v) == own + x + y);
    if field(v, "nodes"@) == Some(JsonView::List(l)) {
        assert(x == whole);
        assert(own + x + y =~= (own + a) + part + (b + y));
    } else {
        assert(y == whole);
        assert(own + x + y =~= (own + x + a) + part + b);
    }
}

/// Of Hyprland's clients those are listed, in order, that have an address and a title
/// or a class.
pub proof fn clients_are_listed(l: Seq<JsonView>, v: JsonView, address: Seq<char>)
    ensures
        hypr_windows(Seq::empty()).len() == 0,
        text_field(v, "address"@) == Some(address) && hypr_title(v).len() > 0 ==> hypr_windows(l.push(v))
            == hypr_windows(l).push((address, hypr_title(v))),
        text_field(v, "address"@) is None || hypr_title(v).len() == 0 ==> hypr_windows(l.push(v))
            == hypr_windows(l),
{
    assert(l.push(v).drop_last() =~= l);
}

/// A client is shown by class and title, or by the one that it has.
pub proof fn clients_are_named(v: JsonView, title: Seq<char>, class: Seq<char>)
    requires
        text_field(v, "title"@) == Some(title),
        text_field(v, "class"@) == Some(class),
    ensures
        title.len() > 0 && class.len() > 0 ==> hypr_title(v) == class + " — "@ + title,
        title.len() > 0 && class.len() == 0 ==> hypr_title(v) == title,
        title.len() == 0 ==> hypr_title(v) == class,
{
}

/// The first column of a text goes with the spaces behind it.
proof fn lemma_column(a: Seq<char>, b: Seq<char>)
    requires
        !a.contains(' '),
        b.len() > 0,
        b[0] != ' ',
    ensures
        crate::modes::after_column(Some(a + seq![' '] + b)) == Some(b),
        index_or_len(a + seq![' '] + b, ' ') == a.len(),
{
    let s = a + seq![' '] + b;
    crate::text::lemma_index_or_len(s, ' ');
    let k = index_or_len(s, ' ');
    assert(s[a.len() as int] == ' ');
    if k < a.len() {
        assert(a[k as int] == ' ');
    }
    let t = s.skip(k as int);
    assert(t.skip(1) =~= b);
    assert(t[0] == ' ');
    assert(crate::modes::past_spaces(b) == b);
    assert(crate::modes::past_spaces(t) == crate::modes::past_spaces(t.skip(1)));
}

/// A line of `wmctrl` tells the window's id in its first column and its title behind
/// the third, whatever the title holds.
pub proof fn lines_tell_windows(id: Seq<char>, desk: Seq<char>, host: Seq<char>, title: Seq<char>)
    requires
        !id.contains(' '),
        !desk.contains(' '),
        !host.contains(' '),
        desk.len() > 0,
        host.len() > 0,
        title.len() > 0,
        title[0] != ' ',
        !crate::text::has_prefix(title, "N/A"@),
    ensures
        wmctrl_window(id + seq![' '] + (desk + seq![' '] + (host + seq![' '] + title))) == Some(
            (id, title),
        ),
{
    let h = host + seq![' '] + title;
    let d = desk + seq![' '] + h;
    assert(host.contains(host[0]));
    assert(desk.contains(desk[0]));
    assert(h[0] == host[0]);
    assert(d[0] == desk[0]);
    lemma_column(host, title);
    lemma_column(desk, h);
    lemma_column(id, d);
    let l = id + seq![' '] + d;
    assert(l.take(id.len() as int) =~= id);
}

/// Lines are read one by one; a line that tells no window adds none.
pub proof fn windows_come_line_by_line(lines: Seq<Seq<char>>, l: Seq<char>)
    requires
        crate::text_laws::tight(l),
        l.len() > 0,
    ensures
        wmctrl_window(l) matches Some(w) ==> wmctrl_windows(lines.push(l)) == wmctrl_windows(lines).push(
            w,
        ),
        wmctrl_window(l) is None ==> wmctrl_windows(lines.push(l)) == wmctrl_windows(lines),
        wmctrl_windows(Seq::empty()).len() == 0,
{
    crate::text_laws::tight_texts_stay(l);
    assert(lines.push(l).drop_last() =~= lines);
}

/// A field of a JSON object is found by its name.
pub proof fn fields_are_found(l: Seq<(Seq<char>, JsonView)>, name: Seq<char>, i: int)
    requires
        0 <= i <= l.len(),
        i < l.len() ==> l[i].0 == name,
        forall|j: int| 0 <= j < i ==> (#[trigger] l[j]).0 != name,
    ensures
        i < l.len() ==> field(JsonView::Fields(l), name) == Some(l[i].1),
        i == l.len() ==> field(JsonView::Fields(l), name) is None,
    decreases l.len(),
{
    if l.len() > 0 {
        let d = l.drop_last();
        if i < d.len() {
            assert(d[i] == l[i]);
            fields_are_found(d, name, i);
        } else {
            fields_are_found(d, name, d.len() as int);
            if i == l.len() {
                assert(l[l.len() - 1].0 != name);
            }
        }
    }
}

/// A text field is the text under its name and a number field the number; a field of
/// another kind is none.
pub proof fn fields_have_kinds(v: JsonView, name: Seq<char>, t: Seq<char>, n: i64)
    ensures
        field(v, name) == Some(JsonView::Text(t)) ==> text_field(v, name) == Some(t) && int_field(v, name)
            is None,
        field(v, name) == Some(JsonView::Int(n)) ==> int_field(v, name) == Some(n) && text_field(v, name)
            is None,
        field(v, name) is None ==> text_field(v, name) is None && int_field(v, name) is None,
{
}

/// Sway answers where its socket is there, else Hyprland where its signature is, else
/// `wmctrl`; each lists and activates windows by its own commands.
pub proof fn window_managers_have_commands(env: WmEnv)
    ensures
        env.sway ==> wm_type_of(env) == WmType::Sway,
        !env.sway && env.hyprland ==> wm_type_of(env) == WmType::Hyprland,
        !env.sway && !env.hyprland ==> wm_type_of(env) == WmType::Wmctrl,
        wm_list(WmType::Sway) == "swaymsg -t get_tree"@,
        wm_list(WmType::Hyprland) == "hyprctl clients -j"@,
        wm_list(WmType::Wmctrl) == "wmctrl -l"@,
        wm_activate(WmType::Sway) == "swaymsg \"[con_id={id}] focus\""@,
        wm_activate(WmType::Hyprland) == "hyprctl dispatch focuswindow address:{id}"@,
        wm_activate(WmType::Wmctrl) == "wmctrl -i -a {id}"@,
{
}

/// A window that has no title to show is not listed.
pub proof fn untitled_windows_are_left_out(id: Seq<char>, desk: Seq<char>, host: Seq<char>, rest: Seq<char>)
    requires
        !id.contains(' '),
        !desk.contains(' '),
        !host.contains(' '),
        desk.len() > 0,
        host.len() > 0,
    ensures
        wmctrl_window(id + seq![' '] + (desk + seq![' '] + (host + seq![' '] + ("N/A"@ + rest)))) is None,
{
    reveal_strlit("N/A");
    let title = "N/A"@ + rest;
    let h = host + seq![' '] + title;
    let d = desk + seq![' '] + h;
    assert(title[0] == 'N');
    assert(title.take(3) =~= "N/A"@);
    assert(host.contains(host[0]));
    assert(desk.contains(desk[0]));
    assert(h[0] == host[0]);
    assert(d[0] == desk[0]);
    lemma_column(host, title);
    lemma_column(desk, h);
    lemma_column(id, d);
}

/// A number counts as whole if it is closer than a ten-thousand-millionth to a whole
/// number, up to one part in as many.
pub proof fn nearly_whole_is_within_the_tolerance(n: nat, k: nat)
    ensures
        rounding_gap(n, two(k)) * 10000000001 < two(k) ==> nearly_whole(n, k),
        nearly_whole(n, k) ==> rounding_gap(n, two(k)) * 9999999999 < two(k),
{
    let g = rounding_gap(n, two(k)) as int;
    let d = two(k) as int;
    let t = crate::calc::TOLERANCE as int;
    let m = two(86) as int;
    assert(m == 77371252455336267181195264) by {
        reveal_with_fuel(two, 60);
        crate::math::lemma_two_adds(43, 43);
        assert(two(43) == 8796093022208);
    }
    assert(m < t * 10000000001);
    assert(t * 9999999999 < m);
    lemma_two_positive(k);
    if g * 10000000001 < d {
        assert(g * m < t * d) by (nonlinear_arith)
            requires
                0 <= g,
                g * 10000000001 < d,
                0 < m < t * 10000000001,
                0 < t,
        ;
    }
    if g * m < t * d {
        assert(g * 9999999999 < d) by (nonlinear_arith)
            requires
                0 <= g,
                0 < d,
                0 < t,
                t * 9999999999 < m,
                g * m < t * d,
        ;
    }
}

} // verus!
