//! What colors, settings and options promise.
use crate::cli::option_value;
use crate::color::{alpha_of, alpha_text, channel_color, color_of, hex_pair, hex_value, premultiply};
use crate::config::{
    active, align_of, chosen_place, effective_bindings, effective_modes, effective_theme, filled,
    first_installed, flags_of, key_combo, keyboard_of, modifier_flag, read_bindings, theme_places,
    BindingView, KeyboardModeConfig, ModeConfig, RawBinding, RawModes, TextAlign,
};
use crate::entry::AppMode;
use crate::path::{below, extension_of, file_name_of, last_dot};
use crate::scan::lowered;
use crate::text::{decimal, has_prefix, joined, lower_of, split_on, trimmed, unsigned_value};
use crate::text_laws::{
    bounded_numerals, joined_pieces_split, letter_case, numerals_are_read_back, tight,
    tight_texts_stay,
};
use crate::theme::{component_of, ComponentDef};
use vstd::prelude::*;

verus! {

// ---------------------------------------------------------------------------
// Colors
// ---------------------------------------------------------------------------

/// A hexadecimal digit, small or capital.
pub open spec fn hex_digit(d: nat, capital: bool) -> char {
    if capital {
        "0123456789ABCDEF"@[d as int]
    } else {
        "0123456789abcdef"@[d as int]
    }
}

proof fn lemma_hex_digit(d: nat, capital: bool)
    requires
        d < 16,
    ensures
        hex_value(hex_digit(d, capital)) == Some(d),
        hex_digit(d, capital) != '+',
        !crate::text::white(hex_digit(d, capital)),
{
    reveal_strlit("0123456789ABCDEF");
    reveal_strlit("0123456789abcdef");
}

/// A byte is read back from its two hexadecimal digits, small or capital.
pub proof fn hex_bytes_are_read_back(v: u8, capital: bool)
    ensures
        hex_pair(hex_digit(v as nat / 16, capital), hex_digit(v as nat % 16, capital)) == Some(
            v as nat,
        ),
{
    lemma_hex_digit(v as nat / 16, capital);
    lemma_hex_digit(v as nat % 16, capital);
}

/// The two digits of a byte.
pub open spec fn hex_byte(v: u8, capital: bool) -> Seq<char> {
    seq![hex_digit(v as nat / 16, capital), hex_digit(v as nat % 16, capital)]
}

/// A color is read back from `#` and its channels in hexadecimal; without a fourth
/// channel it is opaque.
pub proof fn hex_colors_are_read_back(r: u8, g: u8, b: u8, a: u8, capital: bool)
    ensures
        color_of(
            seq!['#'] + hex_byte(r, capital) + hex_byte(g, capital) + hex_byte(b, capital) + hex_byte(
                a,
                capital,
            ),
        ) == Some((r, g, b, a)),
        color_of(seq!['#'] + hex_byte(r, capital) + hex_byte(g, capital) + hex_byte(b, capital)) == Some(
            (r, g, b, 255u8),
        ),
{
    hex_bytes_are_read_back(r, capital);
    hex_bytes_are_read_back(g, capital);
    hex_bytes_are_read_back(b, capital);
    hex_bytes_are_read_back(a, capital);
    lemma_hex_digit(a as nat % 16, capital);
    lemma_hex_digit(b as nat % 16, capital);
    let l = seq!['#'] + hex_byte(r, capital) + hex_byte(g, capital) + hex_byte(b, capital) + hex_byte(
        a,
        capital,
    );
    let s = seq!['#'] + hex_byte(r, capital) + hex_byte(g, capital) + hex_byte(b, capital);
    assert(l.last() == hex_digit(a as nat % 16, capital));
    assert(s.last() == hex_digit(b as nat % 16, capital));
    assert(l[0] == '#' && s[0] == '#');
    tight_texts_stay(l);
    tight_texts_stay(s);
    lemma_not_word(l);
    lemma_not_word(s);
    let h = l.skip(1);
    let k = s.skip(1);
    assert(h.len() == 8 && k.len() == 6);
    assert(h[0] == hex_byte(r, capital)[0] && h[1] == hex_byte(r, capital)[1]);
    assert(h[2] == hex_byte(g, capital)[0] && h[3] == hex_byte(g, capital)[1]);
    assert(h[4] == hex_byte(b, capital)[0] && h[5] == hex_byte(b, capital)[1]);
    assert(h[6] == hex_byte(a, capital)[0] && h[7] == hex_byte(a, capital)[1]);
    assert(k[0] == h[0] && k[1] == h[1] && k[2] == h[2] && k[3] == h[3] && k[4] == h[4] && k[5]
        == h[5]);
}

proof fn lemma_not_word(s: Seq<char>)
    requires
        s.len() > 0,
        s[0] == '#' || s[0] == 'r',
    ensures
        lowered(s) != "transparent"@,
        lowered(s) != "none"@,
{
    reveal_strlit("transparent");
    reveal_strlit("none");
    letter_case(s, 0);
    assert("transparent"@[0] == 't' && "none"@[0] == 'n');
}

/// A color is read back from its channels as decimal numbers between `rgb(` and `)`.
pub proof fn channel_colors_are_read_back(r: u8, g: u8, b: u8)
    ensures
        color_of(
            "rgb("@ + joined(seq![decimal(r as nat), decimal(g as nat), decimal(b as nat)], seq![','])
                + ")"@,
        ) == Some((r, g, b, 255u8)),
{
    reveal_strlit("rgb(");
    reveal_strlit("rgba(");
    reveal_strlit(")");
    let parts = seq![decimal(r as nat), decimal(g as nat), decimal(b as nat)];
    let inner = joined(parts, seq![',']);
    let s = "rgb("@ + inner + ")"@;
    lemma_numeral(r);
    lemma_numeral(g);
    lemma_numeral(b);
    assert forall|i: int| 0 <= i < parts.len() implies !(#[trigger] parts[i]).contains(',') by {
        if i == 0 {
        } else if i == 1 {
        } else {
        }
    }
    joined_pieces_split(parts, ',');
    assert(s[0] == 'r' && s.last() == ')');
    tight_texts_stay(s);
    lemma_not_word(s);
    lemma_joined_small(parts);
    assert forall|i: int| 0 <= i < s.len() implies !('A' <= #[trigger] s[i] <= 'Z') by {
        if 4 <= i < s.len() - 1 {
            assert(s[i] == inner[i - 4]);
        }
    }
    assert(lowered(s) =~= s);
    assert(s[3] == '(' && "rgba("@[3] == 'a');
    if has_prefix(s, "rgba("@) {
        assert(s.take(5)[3] == s[3]);
    }
    assert(s.take(4) =~= "rgb("@);
    assert(s.subrange(4, s.len() - 1) =~= inner);
    assert(split_on(inner, ',') == parts);
}

proof fn lemma_numeral(v: u8)
    ensures
        !decimal(v as nat).contains(','),
        trimmed(decimal(v as nat)) == decimal(v as nat),
        unsigned_value(decimal(v as nat), 255) == Some(v as nat),
        crate::text::all_digits(decimal(v as nat)),
{
    let d = decimal(v as nat);
    numerals_are_read_back(v as nat);
    bounded_numerals(v as nat, 255);
    assert('0' <= d[0] <= '9' && '0' <= d[d.len() - 1] <= '9');
    tight_texts_stay(d);
    if d.contains(',') {
        let j = choose|j: int| 0 <= j < d.len() && d[j] == ',';
        assert('0' <= d[j] <= '9');
    }
}

proof fn lemma_joined_small(parts: Seq<Seq<char>>)
    requires
        forall|i: int| 0 <= i < parts.len() ==> crate::text::all_digits(#[trigger] parts[i]),
    ensures
        forall|i: int|
            0 <= i < joined(parts, seq![',']).len() ==> !('A' <= #[trigger] joined(parts, seq![','])[i]
                <= 'Z'),
    decreases parts.len(),
{
    let s = joined(parts, seq![',']);
    if parts.len() > 1 {
        let d = parts.drop_last();
        assert forall|i: int| 0 <= i < d.len() implies crate::text::all_digits(#[trigger] d[i]) by {
            assert(d[i] == parts[i]);
        }
        lemma_joined_small(d);
        let f = joined(d, seq![',']);
        assert(crate::text::all_digits(parts[parts.len() - 1]));
        assert forall|i: int| 0 <= i < s.len() implies !('A' <= #[trigger] s[i] <= 'Z') by {
            if i < f.len() {
                assert(s[i] == f[i]);
            } else if i > f.len() {
                assert(s[i] == parts.last()[i - f.len() - 1]);
            }
        }
    } else if parts.len() == 1 {
        assert(crate::text::all_digits(parts[0]));
        assert forall|i: int| 0 <= i < s.len() implies !('A' <= #[trigger] s[i] <= 'Z') by {
            assert(s[i] == parts[0][i]);
        }
    }
}

/// A whole number of alpha is that many of 255.
pub proof fn whole_alpha_is_a_byte(v: u8)
    ensures
        alpha_text(decimal(v as nat)) == Some(v as nat),
{
    lemma_numeral(v);
    let d = decimal(v as nat);
    if d.contains('.') {
        let j = choose|j: int| 0 <= j < d.len() && d[j] == '.';
        assert('0' <= d[j] <= '9');
    }
}

/// Nothing is transparent, and a whole or more is opaque.
pub proof fn alpha_ends(n: nat, more: bool)
    ensures
        alpha_of(0, more) == 0,
        n >= 17179869184 ==> alpha_of(n, more) == 255,
        alpha_of(n, more) <= 255,
{
}

/// A channel times alpha is within half of the true value.
pub proof fn premultiplying_is_to_the_nearest(v: u8, a: u8)
    ensures
        2 * (255 * premultiply(v, a) - v * a) <= 255,
        2 * (v * a - 255 * premultiply(v, a)) <= 255,
{
    crate::color::lemma_premultiply(v, a);
}

// ---------------------------------------------------------------------------
// Keys
// ---------------------------------------------------------------------------

/// Modifiers go by these names, in any letter case.
pub proof fn modifiers_have_names(name: Seq<char>)
    ensures
        lowered(name) == "ctrl"@ || lowered(name) == "control"@ ==> modifier_flag(name) == Some(1u8),
        lowered(name) == "shift"@ ==> modifier_flag(name) == Some(2u8),
        lowered(name) == "alt"@ || lowered(name) == "meta"@ ==> modifier_flag(name) == Some(4u8),
        lowered(name) == "super"@ || lowered(name) == "win"@ || lowered(name) == "mod4"@
            ==> modifier_flag(name) == Some(8u8),
{
    reveal_strlit("ctrl");
    reveal_strlit("control");
    reveal_strlit("shift");
    reveal_strlit("alt");
    reveal_strlit("meta");
    reveal_strlit("super");
    reveal_strlit("win");
    reveal_strlit("mod4");
    assert("ctrl"@.len() == 4 && "control"@.len() == 7 && "shift"@.len() == 5 && "alt"@.len() == 3
        && "meta"@.len() == 4 && "super"@.len() == 5 && "win"@.len() == 3 && "mod4"@.len() == 4);
    assert("ctrl"@[0] == 'c' && "meta"@[0] == 'm' && "meta"@[1] == 'e' && "mod4"@[0] == 'm'
        && "mod4"@[1] == 'o' && "shift"@[1] == 'h' && "super"@[1] == 'u' && "alt"@[0] == 'a'
        && "win"@[0] == 'w');
}

/// Every modifier in front of a key counts, and one that is unknown spoils the
/// combination.
pub proof fn modifiers_add_up(parts: Seq<Seq<char>>, name: Seq<char>)
    ensures
        flags_of(Seq::empty()) == Some(0u8),
        modifier_flag(trimmed(name)) is None ==> flags_of(parts.push(name)) is None,
        flags_of(parts) matches Some(m) ==> (modifier_flag(trimmed(name)) matches Some(f) ==> flags_of(
            parts.push(name),
        ) == Some(m | f)),
{
    assert(parts.push(name).drop_last() =~= parts);
}

/// A key combination is read from its modifiers and its key, with plus signs between
/// them.
pub proof fn combinations_are_read(mods: Seq<Seq<char>>, key: Seq<char>, m: u8)
    requires
        forall|i: int| 0 <= i < mods.len() ==> !(#[trigger] mods[i]).contains('+'),
        flags_of(mods) == Some(m),
        !key.contains('+'),
        key.len() > 0,
        tight(key),
    ensures
        key_combo(joined(mods.push(key), seq!['+'])) == Some((m, lower_of(key))),
{
    let parts = mods.push(key);
    assert forall|i: int| 0 <= i < parts.len() implies !(#[trigger] parts[i]).contains('+') by {
        if i < mods.len() {
            assert(parts[i] == mods[i]);
        }
    }
    joined_pieces_split(parts, '+');
    assert(parts.drop_last() =~= mods);
    tight_texts_stay(key);
}

/// Bindings that can be read are kept in order, and the others left out.
pub proof fn readable_bindings_are_kept(l: Seq<RawBinding>, b: RawBinding)
    ensures
        read_bindings(Seq::empty()).len() == 0,
        key_combo(b.key@) is None ==> read_bindings(l.push(b)) == read_bindings(l),
        key_combo(b.key@) matches Some(k) ==> read_bindings(l.push(b)) == read_bindings(l).push(
            BindingView { key: b.key@, prefix: filled(b.prefix), modifiers: k.0, key_name: k.1 },
        ),
{
    assert(l.push(b).drop_last() =~= l);
}

/// Without a binding that can be read, Return launches, alone and with Ctrl.
pub proof fn there_always_are_bindings(o: Option<Vec<RawBinding>>)
    ensures
        effective_bindings(o).len() > 0,
        o is None ==> effective_bindings(o).len() == 2 && effective_bindings(o)[0].modifiers == 0
            && effective_bindings(o)[0].key_name == "return"@ && effective_bindings(o)[1].modifiers == 1
            && effective_bindings(o)[1].key_name == "return"@ && effective_bindings(o)[0].prefix is None
            && effective_bindings(o)[1].prefix is None,
        o matches Some(v) ==> read_bindings(v@).len() > 0 ==> effective_bindings(o) == read_bindings(v@),
{
}

// ---------------------------------------------------------------------------
// Settings
// ---------------------------------------------------------------------------

/// Applications are shown unless they are switched off; programs, windows and the
/// calculator only if they are switched on.
pub proof fn modes_are_switched(o: Option<RawModes>)
    ensures
        effective_modes(o).drun <==> !(o matches Some(m) && m.drun == Some(false)),
        effective_modes(o).run <==> (o matches Some(m) && m.run == Some(true)),
        effective_modes(o).window <==> (o matches Some(m) && m.window == Some(true)),
        effective_modes(o).calc <==> (o matches Some(m) && m.calc == Some(true)),
{
}

/// The modes that are on are listed once each: applications, programs, windows, the
/// calculator.
pub proof fn active_modes_are_listed(m: ModeConfig, k: AppMode)
    ensures
        active(m).contains(k) <==> (match k {
            AppMode::Drun => m.drun,
            AppMode::Run => m.run,
            AppMode::Window => m.window,
            AppMode::Calc => m.calc,
        }),
        active(m).no_duplicates(),
        m.drun ==> active(m)[0] == AppMode::Drun,
        m.calc ==> active(m).last() == AppMode::Calc,
        m.run && m.window ==> active(m).index_of(AppMode::Run) < active(m).index_of(AppMode::Window),
{
    let l = active(m);
    let a = (if m.drun {
        1int
    } else {
        0
    });
    let b = a + (if m.run {
        1int
    } else {
        0
    });
    let c = b + (if m.window {
        1int
    } else {
        0
    });
    if m.drun {
        assert(l[0] == AppMode::Drun);
    }
    if m.run {
        assert(l[a] == AppMode::Run);
    }
    if m.window {
        assert(l[b] == AppMode::Window);
    }
    if m.calc {
        assert(l[c] == AppMode::Calc);
    }
}

/// The theme section names the theme, else the interface section, else it is the
/// default one.
pub proof fn themes_are_named(named: Option<String>, ui: Option<String>)
    ensures
        named matches Some(s) ==> effective_theme(named, ui) == s@,
        named is None ==> (ui matches Some(s) ==> effective_theme(named, ui) == s@),
        named is None && ui is None ==> effective_theme(named, ui) == "default"@,
{
}

/// The first terminal that is installed is taken, and the first of all where none is.
pub proof fn the_first_terminal_is_taken(installed: Seq<bool>, i: int)
    requires
        0 <= i < installed.len(),
        installed[i],
        forall|j: int| 0 <= j < i ==> !#[trigger] installed[j],
    ensures
        first_installed(installed) == i,
    decreases installed.len(),
{
    let d = installed.drop_last();
    if i < d.len() {
        assert(d[i] == installed[i]);
        assert(d.contains(true));
        assert forall|j: int| 0 <= j < i implies !#[trigger] d[j] by {
            assert(d[j] == installed[j]);
        }
        the_first_terminal_is_taken(d, i);
    } else {
        assert(!d.contains(true)) by {
            if d.contains(true) {
                let j = choose|j: int| 0 <= j < d.len() && d[j] == true;
                assert(installed[j]);
            }
        }
    }
}

/// The first of the places that exists is taken; without one, the fallback.
pub proof fn the_first_place_is_taken(
    places: Seq<(Seq<char>, Seq<char>)>,
    there: Seq<bool>,
    fallback: Seq<char>,
    i: int,
)
    requires
        places.len() == there.len(),
        0 <= i <= places.len(),
        i < places.len() ==> there[i],
        forall|j: int| 0 <= j < i ==> !#[trigger] there[j],
    ensures
        chosen_place(places, there, fallback) == if i < places.len() {
            places[i].1
        } else {
            fallback
        },
    decreases i,
{
    if i > 0 {
        assert(!there[0]);
        let p = places.skip(1);
        let t = there.skip(1);
        assert forall|j: int| 0 <= j < i - 1 implies !#[trigger] t[j] by {
            assert(t[j] == there[j + 1]);
        }
        the_first_place_is_taken(p, t, fallback, i - 1);
    }
}

/// The user's own theme comes first, then those next to the program, then those of
/// the sources.
pub proof fn the_users_theme_comes_first(
    theme: Seq<char>,
    config_dir: Seq<char>,
    exe_dir: Seq<char>,
    source_dir: Seq<char>,
)
    requires
        theme != "default"@,
    ensures
        ({
            let l = theme_places(theme, Some(config_dir), Some(exe_dir), source_dir);
            &&& l.len() == 4
            &&& l[0].1 == below(below(below(config_dir, "hiren"@), "themes"@), theme)
            &&& l[1].1 == below(below(exe_dir, "themes"@), theme)
            &&& l[2].1 == below(below(exe_dir, "../share/hiren/themes"@), theme)
            &&& l[3].1 == below(below(source_dir, "themes"@), theme)
            &&& forall|i: int| 0 <= i < 4 ==> (#[trigger] l[i]).0 == l[i].1
        }),
{
}

/// Texts are set to the left unless they are to be in the middle or to the right.
pub proof fn alignments_have_names(s: Seq<char>)
    ensures
        align_of(s) == TextAlign::Center <==> trimmed(lowered(s)) == "center"@ || trimmed(lowered(s))
            == "middle"@,
        align_of(s) == TextAlign::Right <==> trimmed(lowered(s)) == "right"@,
{
    reveal_strlit("center");
    reveal_strlit("middle");
    reveal_strlit("right");
    assert("center"@.len() == 6 && "middle"@.len() == 6 && "right"@.len() == 5);
}

/// The keyboard is taken for the launcher alone unless the settings say on demand.
pub proof fn keyboards_are_exclusive(o: Option<String>)
    ensures
        keyboard_of(o) == KeyboardModeConfig::OnDemand <==> (o matches Some(s) && (lowered(s@)
            == "on_demand"@ || lowered(s@) == "ondemand"@)),
{
}

// ---------------------------------------------------------------------------
// Options
// ---------------------------------------------------------------------------

/// The value of an option is the argument behind it, or what follows its equals sign;
/// arguments in front that are something else do not matter.
pub proof fn options_have_values(
    front: Seq<Seq<char>>,
    flag: Seq<char>,
    v: Seq<char>,
    rest: Seq<Seq<char>>,
)
    requires
        forall|i: int|
            0 <= i < front.len() ==> #[trigger] front[i] != flag && !has_prefix(
                front[i],
                flag + seq!['='],
            ),
    ensures
        option_value(front + seq![flag, v] + rest, flag) == Some(v),
        option_value(front + seq![flag + seq!['='] + v] + rest, flag) == Some(v),
        option_value(front, flag) is None,
    decreases front.len(),
{
    let a = front + seq![flag, v] + rest;
    let b = front + seq![flag + seq!['='] + v] + rest;
    let w = flag + seq!['='] + v;
    if front.len() == 0 {
        assert(a[0] == flag && a[1] == v);
        assert(b[0] == w);
        assert(w != flag) by {
            assert(w.len() > flag.len());
        }
        assert(w.take(flag.len() as int + 1) =~= flag + seq!['=']);
        assert(w.skip(flag.len() as int + 1) =~= v);
    } else {
        let f = front.skip(1);
        assert(front[0] != flag);
        assert forall|i: int| 0 <= i < f.len() implies #[trigger] f[i] != flag && !has_prefix(
            f[i],
            flag + seq!['='],
        ) by {
            assert(f[i] == front[i + 1]);
        }
        options_have_values(f, flag, v, rest);
        assert(a[0] == front[0] && b[0] == front[0]);
        assert(a.skip(1) =~= f + seq![flag, v] + rest);
        assert(b.skip(1) =~= f + seq![w] + rest);
    }
}

/// A component is found by its name, the first of them.
pub proof fn components_are_found(l: Seq<(String, ComponentDef)>, name: Seq<char>, i: int)
    requires
        0 <= i <= l.len(),
        i < l.len() ==> l[i].0@ == name,
        forall|j: int| 0 <= j < i ==> (#[trigger] l[j]).0@ != name,
    ensures
        i < l.len() ==> component_of(l, name) == Some(l[i].1),
        i == l.len() ==> component_of(l, name) is None,
    decreases i,
{
    if i > 0 {
        assert(l[0].0@ != name);
        let t = l.skip(1);
        assert forall|j: int| 0 <= j < i - 1 implies (#[trigger] t[j]).0@ != name by {
            assert(t[j] == l[j + 1]);
        }
        components_are_found(t, name, i - 1);
    }
}

// ---------------------------------------------------------------------------
// Paths
// ---------------------------------------------------------------------------

/// A file below a directory keeps its name, and one slash parts the two.
pub proof fn files_keep_their_names(dir: Seq<char>, name: Seq<char>)
    requires
        !name.contains('/'),
        name.len() > 0,
        name != "."@,
        name != ".."@,
        dir.len() > 0,
    ensures
        file_name_of(below(dir, name)) == Some(name),
        dir.last() != '/' ==> below(dir, name) == dir + seq!['/'] + name,
        dir.last() == '/' ==> below(dir, name) == dir + name,
{
    let d = if dir.last() == '/' {
        dir.drop_last()
    } else {
        dir
    };
    assert(below(dir, name) =~= d + seq!['/'] + name);
    crate::text_laws::separators_part(d, '/', name);
    crate::text_laws::unsplit_texts_stay(name, '/');
    let l = split_on(below(dir, name), '/');
    assert(l.last() == name);
}

/// The extension of a file is what follows its last dot.
pub proof fn extensions_follow_the_last_dot(stem: Seq<char>, ext: Seq<char>)
    requires
        stem.len() > 0,
        !stem.contains('/'),
        !ext.contains('/'),
        !ext.contains('.'),
        stem + seq!['.'] + ext != ".."@,
    ensures
        extension_of(stem + seq!['.'] + ext) == Some(ext),
{
    let s = stem + seq!['.'] + ext;
    assert(!s.contains('/')) by {
        if s.contains('/') {
            let j = choose|j: int| 0 <= j < s.len() && s[j] == '/';
            if j < stem.len() {
                assert(stem[j] == '/');
            } else if j > stem.len() {
                assert(ext[j - stem.len() - 1] == '/');
            }
        }
    }
    reveal_strlit(".");
    reveal_strlit("..");
    assert(s.len() >= 2);
    crate::text_laws::unsplit_texts_stay(s, '/');
    assert(seq![s].last() == s);
    lemma_last_dot(stem, ext);
    assert(s.skip(stem.len() as int + 1) =~= ext);
}

proof fn lemma_last_dot(a: Seq<char>, b: Seq<char>)
    requires
        !b.contains('.'),
    ensures
        last_dot(a + seq!['.'] + b) == a.len(),
    decreases b.len(),
{
    let s = a + seq!['.'] + b;
    if b.len() == 0 {
        assert(s.last() == '.');
    } else {
        let d = b.drop_last();
        assert(b.contains(b.last())) by {
            assert(b[b.len() - 1] == b.last());
        }
        assert(!d.contains('.')) by {
            if d.contains('.') {
                let j = choose|j: int| 0 <= j < d.len() && d[j] == '.';
                assert(b[j] == '.');
            }
        }
        lemma_last_dot(a, d);
        assert(s.drop_last() =~= a + seq!['.'] + d);
        assert(s.last() == b.last());
    }
}

/// No color, and the words for it in any letter case, are transparent.
pub proof fn nothing_is_transparent(s: Seq<char>)
    requires
        tight(s),
        s.len() == 0 || lowered(s) == "transparent"@ || lowered(s) == "none"@,
    ensures
        color_of(s) == Some((0u8, 0u8, 0u8, 0u8)),
{
    tight_texts_stay(s);
}

/// Four channels are read with their alpha, three without; any other number of channels is
/// no color.
pub proof fn channels_are_counted(parts: Seq<Seq<char>>, r: u8, g: u8, b: u8, a: u8)
    requires
        parts.len() > 0,
        forall|i: int| 0 <= i < parts.len() ==> !(#[trigger] parts[i]).contains(','),
    ensures
        parts == seq![decimal(r as nat), decimal(g as nat), decimal(b as nat), decimal(a as nat)]
            ==> channel_color(joined(parts, seq![',']), true) == Some((r, g, b, a)),
        parts.len() != 4 ==> channel_color(joined(parts, seq![',']), true) is None,
        parts.len() != 3 ==> channel_color(joined(parts, seq![',']), false) is None,
{
    joined_pieces_split(parts, ',');
    lemma_numeral(r);
    lemma_numeral(g);
    lemma_numeral(b);
    lemma_numeral(a);
    whole_alpha_is_a_byte(a);
}

} // verus!
