//! What themes, icons and the words in bindings promise.
use crate::cli::{option_value, pictured, pixels};
use crate::config::{has_settings_of, LauncherConfig, RawUi};
use crate::icon::{
    dir_paths, first_there, icon_dirs, icon_paths, joined_path, named_paths, themed_path,
    without_suffix,
};
use crate::layout::{
    component_uses, expr_uses, impulse_names, node_uses, nodes_use, opt_uses, props_use, theme_uses,
    time_names,
};
use crate::path::below;
use crate::scan::{has_word, word_at, word_char};
use crate::text::{decimal, has_prefix, has_suffix};
use crate::text_laws::{tight, tight_texts_stay};
use crate::theme::{dangling, effective, has_component, repeats_id, NodeDef, Theme};
use vstd::prelude::*;

verus! {

// ---------------------------------------------------------------------------
// Themes
// ---------------------------------------------------------------------------

/// A theme is sound exactly if no two of its nodes share an id and every repeater
/// names a component that is there.
pub proof fn sound_themes(t: Theme)
    ensures
        t.sound() <==> (forall|i: int, j: int|
            0 <= i < j < t.nodes@.len() ==> (#[trigger] t.nodes@[i]).id@ != (#[trigger] t.nodes@[j]).id@)
            && (forall|i: int|
            0 <= i < t.nodes@.len() && (#[trigger] t.nodes@[i]).kind@ == "Repeater"@
                && t.nodes@[i].delegate is Some ==> exists|j: int|
                0 <= j < t.components@.len() && (#[trigger] t.components@[j]).0@
                    == t.nodes@[i].delegate->0@),
{
    let n = t.nodes@;
    if t.sound() {
        assert forall|i: int, j: int| 0 <= i < j < n.len() implies (#[trigger] n[i]).id@ != (
        #[trigger] n[j]).id@ by {
            assert(!repeats_id(n, j));
        }
        assert forall|i: int|
            0 <= i < n.len() && (#[trigger] n[i]).kind@ == "Repeater"@ && n[i].delegate is Some implies exists|
            j: int,
        |
            0 <= j < t.components@.len() && (#[trigger] t.components@[j]).0@ == n[i].delegate->0@ by {
            assert(!dangling(t, i));
            assert(has_component(t.components@, n[i].delegate->0@));
        }
    }
    if (forall|i: int, j: int|
        0 <= i < j < n.len() ==> (#[trigger] n[i]).id@ != (#[trigger] n[j]).id@) && (forall|i: int|
        0 <= i < n.len() && (#[trigger] n[i]).kind@ == "Repeater"@ && n[i].delegate is Some ==> exists|
            j: int,
        |
            0 <= j < t.components@.len() && (#[trigger] t.components@[j]).0@ == n[i].delegate->0@) {
        assert forall|i: int| 0 <= i < n.len() implies !#[trigger] repeats_id(n, i) by {
            if repeats_id(n, i) {
                let j = choose|j: int| 0 <= j < i && (#[trigger] n[j]).id@ == n[i].id@;
                assert(n[j].id@ != n[i].id@);
            }
        }
        assert forall|i: int| 0 <= i < n.len() implies !#[trigger] dangling(t, i) by {
            assert(n[i].kind@ == n[i].kind@);
        }
    }
}

/// A theme's own length counts, else the fallback; it is never less than one pixel.
pub proof fn lengths_are_positive(own: Option<u32>, fallback: u32)
    ensures
        effective(own, fallback) >= 1,
        own matches Some(x) ==> x > 0 ==> effective(own, fallback) == x,
        own is None && fallback > 0 ==> effective(own, fallback) == fallback,
        own == Some(0u32) || (own is None && fallback == 0) ==> effective(own, fallback) == 1,
{
}

/// A settings file that leaves them out closes the launcher after 8 seconds, in a window
/// of 620 by 360, and weighs launches by 0.8; what it says counts.
pub proof fn settings_have_defaults(r: LauncherConfig, ui: RawUi)
    requires
        has_settings_of(r, ui),
    ensures
        ui.auto_close_timeout_secs is None ==> r.auto_close_timeout_secs == 8,
        ui.auto_close_timeout_secs matches Some(s) ==> r.auto_close_timeout_secs == s,
        ui.width is None ==> r.window_width == 620,
        ui.width matches Some(w) ==> r.window_width == w,
        ui.height is None ==> r.window_height == 360,
        ui.height matches Some(h) ==> r.window_height == h,
        ui.freq_weight is None ==> r.freq_weight@ == "0.8"@,
        ui.freq_weight matches Some(s) ==> r.freq_weight@ == s@,
{
}

// ---------------------------------------------------------------------------
// Words in bindings
// ---------------------------------------------------------------------------

/// A word stands in a text exactly if the text has it somewhere with no letter, digit or
/// underscore on either side.
pub proof fn words_stand_alone(s: Seq<char>, w: Seq<char>)
    ensures
        has_word(s, w) <==> exists|a: Seq<char>, b: Seq<char>|
            s == #[trigger] (a + w + b) && (a.len() > 0 ==> !word_char(a.last())) && (b.len() > 0
                ==> !word_char(b[0])),
{
    if has_word(s, w) {
        let i = choose|i: int| #[trigger] word_at(s, w, i);
        let a = s.take(i);
        let b = s.skip(i + w.len());
        assert(s =~= a + s.subrange(i, i + w.len()) + b);
        assert(s == a + w + b);
        if a.len() > 0 {
            assert(a.last() == s[i - 1]);
        }
        if b.len() > 0 {
            assert(b[0] == s[i + w.len()]);
        }
    }
    if exists|a: Seq<char>, b: Seq<char>|
        s == #[trigger] (a + w + b) && (a.len() > 0 ==> !word_char(a.last())) && (b.len() > 0
            ==> !word_char(b[0])) {
        let (a, b) = choose|a: Seq<char>, b: Seq<char>|
            s == #[trigger] (a + w + b) && (a.len() > 0 ==> !word_char(a.last())) && (b.len() > 0
                ==> !word_char(b[0]));
        let i = a.len() as int;
        assert(s.subrange(i, i + w.len()) =~= w);
        if i > 0 {
            assert(s[i - 1] == a.last());
        }
        if b.len() > 0 {
            assert(s[i + w.len()] == b[0]);
        }
        assert(word_at(s, w, i));
    }
}

/// The characters that words are made of.
pub proof fn word_characters(c: char)
    ensures
        word_char(c) <==> (48 <= c as u32 <= 57) || (65 <= c as u32 <= 90) || c as u32 == 95 || (97 <= c as u32
            <= 122),
{
}

proof fn lemma_nodes_use(l: Vec<NodeDef>, k: nat, names: Seq<Seq<char>>, i: int)
    requires
        k <= l@.len(),
        0 <= i < k,
        node_uses(l@[i], names),
    ensures
        nodes_use(l, k, names),
    decreases k,
{
    broadcast use vstd::std_specs::vec::group_vec_axioms;

    if i < k - 1 {
        lemma_nodes_use(l, (k - 1) as nat, names, i);
    }
}

/// A binding that follows a name makes its node follow it, the node makes its parent
/// follow it, and a top-level node makes the theme follow it.
pub proof fn uses_are_passed_up(d: NodeDef, i: int, t: Theme, j: int, names: Seq<Seq<char>>)
    ensures
        opt_uses(d.x, names) || opt_uses(d.y, names) || opt_uses(d.width, names) || opt_uses(
            d.height,
            names,
        ) || opt_uses(d.visible, names) || opt_uses(d.opacity, names) || opt_uses(d.rotation, names)
            || opt_uses(d.skew, names) || opt_uses(d.scale, names) || opt_uses(d.points, names)
            || props_use(d.props@, names) ==> node_uses(d, names),
        0 <= i < d.children@.len() && node_uses(d.children@[i], names) ==> node_uses(d, names),
        0 <= j < t.nodes@.len() && node_uses(t.nodes@[j], names) ==> theme_uses(t, names),
        0 <= j < t.components@.len() && component_uses(t.components@[j].1, names) ==> theme_uses(
            t,
            names,
        ),
{
    if 0 <= i < d.children@.len() && node_uses(d.children@[i], names) {
        lemma_nodes_use(d.children, d.children@.len(), names, i);
    }
    if 0 <= j < t.nodes@.len() && node_uses(t.nodes@[j], names) {
        lemma_nodes_use(t.nodes, t.nodes@.len(), names, j);
    }
}

/// The clock is followed by the word `time`, and impacts by the words for what was
/// selected and typed.
pub proof fn followed_words(e: Seq<char>)
    ensures
        expr_uses(e, time_names()) <==> has_word(e, "time"@),
        expr_uses(e, impulse_names()) <==> has_word(e, "hit"@) || has_word(e, "hit_type"@) || has_word(
            e,
            "since_select"@,
        ) || has_word(e, "since_type"@) || has_word(e, "shake"@) || has_word(e, "type_shake"@),
{
    let a = time_names();
    let b = impulse_names();
    assert(a[0] == "time"@);
    assert(b[0] == "hit"@ && b[1] == "hit_type"@ && b[2] == "since_select"@ && b[3] == "since_type"@
        && b[4] == "shake"@ && b[5] == "type_shake"@);
}

// ---------------------------------------------------------------------------
// Icons
// ---------------------------------------------------------------------------

/// The first place that holds a file is taken, and nothing where none does.
pub proof fn the_first_file_is_taken(places: Seq<Seq<char>>, there: Seq<bool>, i: int)
    requires
        places.len() == there.len(),
        0 <= i <= places.len(),
        i < places.len() ==> there[i],
        forall|j: int| 0 <= j < i ==> !#[trigger] there[j],
    ensures
        i < places.len() ==> first_there(places, there) == places[i],
        i == places.len() ==> first_there(places, there).len() == 0,
    decreases i,
{
    if i > 0 {
        assert(!there[0]);
        let p = places.skip(1);
        let t = there.skip(1);
        assert forall|j: int| 0 <= j < i - 1 implies !#[trigger] t[j] by {
            assert(t[j] == there[j + 1]);
        }
        the_first_file_is_taken(p, t, i - 1);
    }
}

/// Extensions of image files come off an icon's name, and a name without one stays.
pub proof fn extensions_come_off(name: Seq<char>, suffix: Seq<char>)
    requires
        suffix.len() > 0,
        !has_suffix(name, suffix),
    ensures
        without_suffix(name + suffix, suffix) == name,
        without_suffix(name, suffix) == name,
{
    let s = name + suffix;
    assert(s.skip(s.len() - suffix.len()) =~= suffix);
    assert(s.take(s.len() - suffix.len()) =~= name);
    assert(without_suffix(name, suffix) == name);
    assert(has_suffix(s, suffix));
}

/// An icon is looked for by its file, first loose and then in every theme, size and
/// folder of each directory, in the order of the directories.
pub proof fn every_directory_is_searched(dirs: Seq<Seq<char>>, file: Seq<char>, i: int, k: int)
    requires
        0 <= i < dirs.len(),
        0 <= k < 176,
    ensures
        named_paths(dirs, file).len() == 176 * dirs.len(),
        named_paths(dirs, file)[176 * i + k] == dir_paths(dirs[i], file)[k],
        dir_paths(dirs[i], file)[0] == joined_path(dirs[i], file),
    decreases dirs.len(),
{
    let d = dirs.drop_last();
    lemma_paths_len(d, file);
    lemma_paths_len(dirs, file);
    assert(dir_paths(dirs.last(), file).len() == 176);
    if i < d.len() {
        every_directory_is_searched(d, file, i, k);
        assert(176 * i + k < 176 * d.len()) by (nonlinear_arith)
            requires
                0 <= i < d.len(),
                0 <= k < 176,
        ;
        assert(d[i] == dirs[i]);
    }
}

proof fn lemma_paths_len(dirs: Seq<Seq<char>>, file: Seq<char>)
    ensures
        named_paths(dirs, file).len() == 176 * dirs.len(),
    decreases dirs.len(),
{
    if dirs.len() > 0 {
        lemma_paths_len(dirs.drop_last(), file);
        assert(dir_paths(dirs.last(), file).len() == 176);
    }
}

/// The best themed place is the 48-pixel folder of applications in the theme that all
/// others rest on.
pub proof fn the_best_place_comes_first(dir: Seq<char>, file: Seq<char>)
    ensures
        dir_paths(dir, file)[1] == joined_path(
            below(below(below(dir, "hicolor"@), "48x48"@), "apps"@),
            file,
        ),
{
    assert(dir_paths(dir, file)[1] == themed_path(dir, file, 0));
}

/// An icon named by its path is taken from there first; a blank name has no place.
pub proof fn icon_paths_come_first(name: Seq<char>, home: Option<Seq<char>>, data: Option<Seq<char>>)
    requires
        tight(name),
    ensures
        name.len() == 0 ==> icon_paths(name, home, data).len() == 0,
        name.len() > 0 && name[0] == '/' ==> icon_paths(name, home, data).len() > 0 && icon_paths(
            name,
            home,
            data,
        )[0] == name,
{
    tight_texts_stay(name);
}

/// The user's own icons come first.
pub proof fn the_users_icons_come_first(home: Seq<char>, data: Option<Seq<char>>)
    ensures
        icon_dirs(Some(home), data).len() >= 4,
        icon_dirs(Some(home), data)[0] == below(home, ".local/share/icons"@),
        icon_dirs(Some(home), data)[1] == below(home, ".icons"@),
        icon_dirs(Some(home), data).last() == "/usr/share/icons"@,
{
}

// ---------------------------------------------------------------------------
// Options
// ---------------------------------------------------------------------------

/// A screenshot is taken of the theme that is named, or of the default one where another
/// option follows.
pub proof fn screenshots_name_a_theme(args: Seq<Seq<char>>, default: Seq<char>)
    ensures
        option_value(args, "--screenshot"@) is None ==> pictured(args, default) == default,
        option_value(args, "--screenshot"@) matches Some(v) ==> (has_prefix(v, "--"@) ==> pictured(
            args,
            default,
        ) == default) && (!has_prefix(v, "--"@) ==> pictured(args, default) == v),
{
}

/// A length in pixels is read from its option where it is a number.
pub proof fn lengths_are_read(args: Seq<Seq<char>>, flag: Seq<char>, n: u32)
    requires
        option_value(args, flag) == Some(decimal(n as nat)),
    ensures
        pixels(args, flag) == Some(n as nat),
{
    crate::text_laws::bounded_numerals(n as nat, u32::MAX as nat);
}

} // verus!
