//! What words, shadows, borders, gradients and cut-out letters promise.
use crate::binding::{local_value, pairs};
use crate::color::{color_of, Color};
use crate::freq::word_len;
use crate::modes::words;
use crate::node::{opt_view, ResolvedNode};
use crate::paint::{
    border_of, gradient_of, gradient_parts, layers_of, px_index, shadow_of, stop_parts, text_layer,
    unitless, LayerView, Props, ShadowView, StopView, StrokeView,
};
use crate::ransom::{
    bare_name, cap_family, font_list, glyph_at, ink_pixel, mix_of, named_alike, names_in, picked,
    serves, serving, spot, visible, weight_number, Face,
};
use crate::scan::{lower_ascii, lowered, number_text, occurs};
use crate::text::{has_prefix, has_suffix, joined, split_on, trimmed, trimmed_start, white};
use crate::text_laws::{
    blank, joined_pieces_split, padding_is_trimmed, prefixes_and_suffixes, separators_part, tight,
    tight_texts_stay, unsplit_texts_stay,
};
use vstd::prelude::*;

verus! {

// ---------------------------------------------------------------------------
// Words
// ---------------------------------------------------------------------------

proof fn lemma_start(x: Seq<char>, y: Seq<char>)
    ensures
        blank(x) ==> trimmed_start(x + y) == trimmed_start(y),
        !blank(x) ==> trimmed_start(x + y) == trimmed_start(x) + y,
        blank(x) ==> trimmed_start(x).len() == 0,
        !blank(x) ==> trimmed_start(x).len() > 0 && !white(trimmed_start(x)[0]),
        trimmed_start(x).len() <= x.len(),
    decreases x.len(),
{
    let s = x + y;
    if x.len() == 0 {
        assert(s =~= y);
    } else if white(x[0]) {
        let t = x.skip(1);
        lemma_start(t, y);
        assert(s[0] == x[0]);
        assert(s.skip(1) =~= t + y);
        assert(blank(x) == blank(t)) by {
            if blank(t) {
                assert forall|i: int| 0 <= i < x.len() implies white(#[trigger] x[i]) by {
                    if i > 0 {
                        assert(t[i - 1] == x[i]);
                    }
                }
            }
            if blank(x) {
                assert forall|i: int| 0 <= i < t.len() implies white(#[trigger] t[i]) by {
                    assert(t[i] == x[i + 1]);
                }
            }
        }
    } else {
        assert(s[0] == x[0]);
        assert(!blank(x));
    }
}

proof fn lemma_word_len(x: Seq<char>, y: Seq<char>)
    requires
        y.len() == 0 || white(y[0]),
    ensures
        word_len(x + y) == word_len(x),
        word_len(x) <= x.len(),
        x.len() > 0 && !white(x[0]) ==> word_len(x) > 0,
    decreases x.len(),
{
    let s = x + y;
    if x.len() == 0 {
        assert(s =~= y);
    } else if !white(x[0]) {
        let t = x.skip(1);
        lemma_word_len(t, y);
        assert(s.skip(1) =~= t + y);
        assert(s[0] == x[0]);
    }
}

/// White space parts words, and nothing else does.
pub proof fn white_space_parts_words(a: Seq<char>, sp: char, b: Seq<char>)
    requires
        white(sp),
    ensures
        words(a + seq![sp] + b) == words(a) + words(b),
    decreases a.len(),
{
    let s = a + seq![sp] + b;
    let y = seq![sp] + b;
    assert(s =~= a + y);
    lemma_start(a, y);
    if blank(a) {
        lemma_start(seq![sp], b);
        assert(blank(seq![sp]));
        assert(trimmed_start(s) == trimmed_start(b));
        assert(words(s) == words(b));
        assert(words(a) =~= Seq::empty());
        assert(Seq::<Seq<char>>::empty() + words(b) =~= words(b));
    } else {
        let ta = trimmed_start(a);
        let t = trimmed_start(s);
        assert(t == ta + y);
        lemma_word_len(ta, y);
        let k = word_len(ta) as int;
        let r = ta.skip(k);
        assert(t.take(k) =~= ta.take(k));
        assert(t.skip(k) =~= r + seq![sp] + b);
        white_space_parts_words(r, sp, b);
        assert(seq![ta.take(k)] + (words(r) + words(b)) =~= (seq![ta.take(k)] + words(r)) + words(b));
    }
}

/// A text without white space.
pub open spec fn one_word(w: Seq<char>) -> bool {
    w.len() > 0 && forall|i: int| 0 <= i < w.len() ==> !white(#[trigger] w[i])
}

/// A text without white space is one word.
pub proof fn unbroken_texts_are_words(w: Seq<char>)
    requires
        one_word(w),
    ensures
        words(w) == seq![w],
{
    assert(!white(w[0]));
    lemma_whole_word(w);
    let k = w.len() as int;
    assert(w.take(k) =~= w);
    assert(w.skip(k) =~= Seq::empty());
    assert(words(w.skip(k)) =~= Seq::empty());
    assert(seq![w] + Seq::<Seq<char>>::empty() =~= seq![w]);
}

proof fn lemma_whole_word(w: Seq<char>)
    requires
        forall|i: int| 0 <= i < w.len() ==> !white(#[trigger] w[i]),
    ensures
        word_len(w) == w.len(),
    decreases w.len(),
{
    if w.len() > 0 {
        assert(!white(w[0]));
        let t = w.skip(1);
        assert forall|i: int| 0 <= i < t.len() implies !white(#[trigger] t[i]) by {
            assert(t[i] == w[i + 1]);
        }
        lemma_whole_word(t);
    }
}

proof fn lemma_four_words(a: Seq<char>, b: Seq<char>, c: Seq<char>, d: Seq<char>)
    requires
        one_word(a),
        one_word(b),
        one_word(c),
        one_word(d),
    ensures
        words(a + seq![' '] + (b + seq![' '] + (c + seq![' '] + d))) == seq![a, b, c, d],
        words(a + seq![' '] + (b + seq![' '] + c)) == seq![a, b, c],
{
    white_space_parts_words(c, ' ', d);
    white_space_parts_words(b, ' ', c + seq![' '] + d);
    white_space_parts_words(a, ' ', b + seq![' '] + (c + seq![' '] + d));
    white_space_parts_words(b, ' ', c);
    white_space_parts_words(a, ' ', b + seq![' '] + c);
    unbroken_texts_are_words(a);
    unbroken_texts_are_words(b);
    unbroken_texts_are_words(c);
    unbroken_texts_are_words(d);
    assert(seq![a] + (seq![b] + (seq![c] + seq![d])) =~= seq![a, b, c, d]);
    assert(seq![a] + (seq![b] + seq![c]) =~= seq![a, b, c]);
}

// ---------------------------------------------------------------------------
// Shadows and borders
// ---------------------------------------------------------------------------

/// The unit comes off a length, and a length without a unit stays.
pub proof fn units_come_off(n: Seq<char>)
    ensures
        unitless(n + "px"@) == n,
        n.len() > 0 && n.last() != 'x' ==> unitless(n) == n,
{
    reveal_strlit("px");
    let s = n + "px"@;
    prefixes_and_suffixes(s, "px"@);
    assert(s.take(s.len() - 2) =~= n);
    if has_suffix(n, "px"@) {
        let t = n.skip(n.len() - 2);
        assert(t[1] == n.last());
    }
}

/// A shadow is read from its offsets, its blur and its color; the blur may be left
/// out and is zero then.
pub proof fn shadows_are_read(
    dx: Seq<char>,
    dy: Seq<char>,
    blur: Seq<char>,
    col: Seq<char>,
    color: Color,
)
    requires
        one_word(dx),
        one_word(dy),
        one_word(blur),
        one_word(col),
        number_text(unitless(dx)),
        number_text(unitless(dy)),
        number_text(unitless(blur)),
        color_of(col) == Some(color),
    ensures
        shadow_of(dx + seq![' '] + (dy + seq![' '] + (blur + seq![' '] + col))) == Some(
            ShadowView { dx: unitless(dx), dy: unitless(dy), blur: unitless(blur), color },
        ),
        shadow_of(dx + seq![' '] + (dy + seq![' '] + col)) == Some(
            ShadowView { dx: unitless(dx), dy: unitless(dy), blur: "0"@, color },
        ),
{
    lemma_four_words(dx, dy, blur, col);
    lemma_four_words(dx, dy, col, col);
    let w = seq![dx, dy, blur, col];
    assert(w.skip(3) =~= seq![col]);
    let v = seq![dx, dy, col];
    assert(v.skip(2) =~= seq![col]);
}

/// A border is read from its width in pixels and its color.
pub proof fn borders_are_read(width: Seq<char>, col: Seq<char>, color: Color)
    requires
        one_word(width),
        number_text(width),
        !width.contains('p'),
        col.len() > 0,
        tight(col),
        color_of(col) == Some(color),
    ensures
        border_of(width + seq!['p', 'x', ' '] + col) == Some(StrokeView { width, color }),
{
    let s = width + seq!['p', 'x', ' '] + col;
    let k = width.len() as int;
    lemma_px(s, 0, k);
    assert(s.take(k) =~= width);
    unbroken_texts_are_words(width);
    let rest = s.skip(k + 2);
    assert(rest =~= seq![' '] + col + Seq::<char>::empty());
    assert(blank(seq![' ']) && blank(Seq::<char>::empty()));
    padding_is_trimmed(seq![' '], col, Seq::empty());
}

proof fn lemma_px(s: Seq<char>, i: int, k: int)
    requires
        0 <= i <= k,
        k + 2 <= s.len(),
        s[k] == 'p',
        s[k + 1] == 'x',
        forall|j: int| i <= j < k ==> #[trigger] s[j] != 'p',
    ensures
        px_index(s, i) == k,
    decreases k - i,
{
    if i < k {
        assert(s[i] != 'p');
        lemma_px(s, i + 1, k);
    }
}

// ---------------------------------------------------------------------------
// Gradients
// ---------------------------------------------------------------------------

/// The parts of a gradient are read in order: an angle turns it, a color adds a stop
/// behind the others, and a stop without a percentage spaces them evenly.
pub proof fn gradients_are_read_part_by_part(parts: Seq<Seq<char>>, p: Seq<char>)
    requires
        tight(p),
    ensures
        gradient_parts(Seq::empty()).angle == "180"@,
        gradient_parts(Seq::empty()).stops.len() == 0,
        !gradient_parts(Seq::empty()).even,
        ({
            let g = gradient_parts(parts);
            let h = gradient_parts(parts.push(p));
            if has_suffix(p, "deg"@) {
                &&& h.stops == g.stops
                &&& h.even == g.even
                &&& number_text(trimmed(p.take(p.len() - 3))) ==> h.angle == trimmed(p.take(p.len() - 3))
            } else {
                &&& h.angle == g.angle
                &&& color_of(stop_parts(p).0) matches Some(color) ==> h.stops == g.stops.push(
                    StopView { color, percent: stop_parts(p).1 },
                )
                &&& color_of(stop_parts(p).0) is None ==> h.stops == g.stops
                &&& h.even <==> g.even || stop_parts(p).1 is None
            }
        }),
{
    tight_texts_stay(p);
    assert(parts.push(p).drop_last() =~= parts);
}

/// A stop is a color, or a color with a number and a percent sign behind it.
pub proof fn stops_are_read(col: Seq<char>, n: Seq<char>)
    requires
        tight(col),
        one_word(n),
        number_text(n),
    ensures
        stop_parts(col + seq![' '] + n + seq!['%']) == (col, Some(n)),
        col.len() > 0 && col.last() != '%' ==> stop_parts(col) == (col, None::<Seq<char>>),
{
    let p = col + seq![' '] + n + seq!['%'];
    let k = col.len() as int;
    lemma_last_white(col + seq![' '], n + seq!['%']);
    assert(p =~= (col + seq![' ']) + (n + seq!['%']));
    assert(p.take(k) =~= col);
    tight_texts_stay(col);
    assert(p.subrange(k + 1, p.len() - 1) =~= n);
    assert(!white(n[0]) && !white(n[n.len() - 1]));
    tight_texts_stay(n);
}

proof fn lemma_last_white(a: Seq<char>, b: Seq<char>)
    requires
        a.len() > 0,
        white(a.last()),
        forall|i: int| 0 <= i < b.len() ==> !white(#[trigger] b[i]),
    ensures
        crate::paint::last_white(a + b) == a.len() - 1,
    decreases b.len(),
{
    let s = a + b;
    if b.len() == 0 {
        assert(s =~= a);
    } else {
        let d = b.drop_last();
        assert(!white(b[b.len() - 1]));
        assert forall|i: int| 0 <= i < d.len() implies !white(#[trigger] d[i]) by {
            assert(d[i] == b[i]);
        }
        lemma_last_white(a, d);
        assert(s.drop_last() =~= a + d);
        assert(s.last() == b.last());
    }
}

/// A gradient has at least two colors.
pub proof fn gradients_have_two_colors(s: Seq<char>)
    ensures
        gradient_of(s) matches Some(g) ==> g.stops.len() >= 2,
{
}

// ---------------------------------------------------------------------------
// Layers
// ---------------------------------------------------------------------------

/// The order in which layers are drawn.
pub open spec fn depth(l: LayerView) -> int {
    match l {
        LayerView::Shadow(_) => 0,
        LayerView::Gradient(_) => 1,
        LayerView::Fill(_) => 1,
        LayerView::Image(_) => 2,
        LayerView::Text(_) => 3,
        LayerView::Border(_) => 4,
    }
}

/// A node's shadow is drawn first, then its ground, its image, its text and its
/// border, each at most once.
pub proof fn layers_are_drawn_in_order(n: ResolvedNode)
    ensures
        forall|i: int, j: int|
            0 <= i < j < layers_of(n).len() ==> depth(#[trigger] layers_of(n)[i]) < depth(
                #[trigger] layers_of(n)[j],
            ),
{
    let p = pairs(n.props@);
    let a = crate::paint::shadow_layers(p);
    let b = crate::paint::fill_layers(p, n.background);
    let c = crate::paint::image_layers(p);
    let d = crate::paint::text_layers(opt_view(n.text), n.color, p);
    let e = crate::paint::border_layers(p);
    assert(a.len() <= 1 && b.len() <= 1 && c.len() <= 1 && d.len() <= 1 && e.len() <= 1);
    assert(layers_of(n) == a + b + c + d + e);
}

/// A node that has text, and a border, a shadow or an image that can be read, shows
/// them.
pub proof fn nodes_show_what_they_have(n: ResolvedNode)
    ensures
        n.text matches Some(t) ==> t@.len() > 0 ==> layers_of(n).contains(
            LayerView::Text(text_layer(t@, n.color, pairs(n.props@))),
        ),
        local_value(pairs(n.props@), "border"@) matches Some(s) ==> (border_of(s) matches Some(b)
            ==> layers_of(n).contains(LayerView::Border(b))),
        local_value(pairs(n.props@), "shadow"@) matches Some(s) ==> (shadow_of(s) matches Some(b)
            ==> layers_of(n).contains(LayerView::Shadow(b))),
        local_value(pairs(n.props@), "src"@) matches Some(s) ==> layers_of(n).contains(
            LayerView::Image(bare_name(s)),
        ),
{
    let p = pairs(n.props@);
    let a = crate::paint::shadow_layers(p);
    let b = crate::paint::fill_layers(p, n.background);
    let c = crate::paint::image_layers(p);
    let d = crate::paint::text_layers(opt_view(n.text), n.color, p);
    let e = crate::paint::border_layers(p);
    let l = layers_of(n);
    assert(l == a + b + c + d + e);
    if a.len() > 0 {
        assert(l[0] == a[0]);
    }
    if c.len() > 0 {
        assert(l[(a + b).len() as int] == c[0]);
    }
    if d.len() > 0 {
        assert(l[(a + b + c).len() as int] == d[0]);
    }
    if e.len() > 0 {
        assert(l[(a + b + c + d).len() as int] == e[0]);
    }
}

/// A node is filled by its `background` property or, without one, by `fill`; without
/// either by the color it was given.
pub proof fn nodes_are_filled(n: ResolvedNode, s: Seq<char>, color: Color)
    requires
        !has_prefix(trimmed(s), "linear-gradient"@),
        color_of(trimmed(s)) == Some(color),
    ensures
        local_value(pairs(n.props@), "background"@) == Some(s) ==> layers_of(n).contains(
            LayerView::Fill(color),
        ),
        local_value(pairs(n.props@), "background"@) is None && local_value(pairs(n.props@), "fill"@)
            == Some(s) ==> layers_of(n).contains(LayerView::Fill(color)),
        local_value(pairs(n.props@), "background"@) is None && local_value(pairs(n.props@), "fill"@)
            is None && n.background == Some(color) ==> layers_of(n).contains(LayerView::Fill(color)),
{
    let p = pairs(n.props@);
    let a = crate::paint::shadow_layers(p);
    let b = crate::paint::fill_layers(p, n.background);
    let l = layers_of(n);
    if b.len() > 0 {
        assert(l[a.len() as int] == b[0]);
    }
}

/// Text is 15 high, of weight 400, to the left and light blue unless the properties
/// say otherwise.
pub proof fn texts_have_a_look(t: Seq<char>, color: Option<Color>, p: Props)
    ensures
        ({
            let l = text_layer(t, color, p);
            &&& l.text == t
            &&& color matches Some(c) ==> l.color == c
            &&& color is None ==> l.color == (205u8, 214u8, 244u8, 255u8)
            &&& local_value(p, "font_size"@) is None ==> l.size == "15"@
            &&& local_value(p, "font_size"@) matches Some(s) ==> number_text(trimmed(s)) ==> l.size
                == trimmed(s)
            &&& local_value(p, "align"@) is None ==> l.align == "left"@
            &&& local_value(p, "align"@) matches Some(s) ==> l.align == s
            &&& local_value(p, "font_weight"@) is None ==> l.weight == 400
            &&& local_value(p, "font_family"@) matches Some(s) ==> l.family == s
        }),
{
}

// ---------------------------------------------------------------------------
// Cut-out letters
// ---------------------------------------------------------------------------

/// The letters that are set are those of the text, in order, control characters left
/// out.
pub proof fn control_characters_are_left_out(s: Seq<char>, c: char)
    ensures
        visible(Seq::empty()).len() == 0,
        c as u32 >= 32 && !(127 <= c as u32 <= 159) ==> visible(s.push(c)) == visible(s).push(c),
        (c as u32) < 32 || 127 <= c as u32 <= 159 ==> visible(s.push(c)) == visible(s),
{
    assert(s.push(c).drop_last() =~= s);
}

/// A letter may be set as a capital or small, but it stays that letter; white space
/// becomes a gap.
pub proof fn letters_stay_themselves(
    v: Seq<char>,
    b: Seq<u8>,
    fonts: Seq<Seq<char>>,
    thin: Seq<bool>,
    i: nat,
)
    requires
        i < v.len(),
    ensures
        white(v[i as int]) ==> glyph_at(v, b, fonts, thin, i).space && glyph_at(v, b, fonts, thin, i).ch
            == ' ',
        !white(v[i as int]) ==> !glyph_at(v, b, fonts, thin, i).space && lower_ascii(
            glyph_at(v, b, fonts, thin, i).ch,
        ) == lower_ascii(v[i as int]),
{
    let c = v[i as int];
    lemma_case(c);
}

proof fn lemma_case(c: char)
    ensures
        lower_ascii(lower_ascii(c)) == lower_ascii(c),
        lower_ascii(crate::ransom::upper_ascii(c)) == lower_ascii(c),
{
    if 'A' <= c <= 'Z' {
        let v = (c as u32 + 32) as u8;
        assert(v as char as u32 == v as u32);
    }
    if 'a' <= c <= 'z' {
        let v = (c as u32 - 32) as u8;
        let w = v as char;
        assert(w as u32 == v as u32);
        let x = (w as u32 + 32) as u8;
        assert(x as char as u32 == x as u32);
        assert(x as char == c);
    }
}

/// The families of a list come in order, without the space and quotes around them, and
/// empty ones are left out.
pub proof fn families_are_listed(l: Seq<Seq<char>>, p: Seq<char>)
    ensures
        names_in(Seq::empty()).len() == 0,
        bare_name(p).len() > 0 ==> names_in(l.push(p)) == names_in(l).push(bare_name(p)),
        bare_name(p).len() == 0 ==> names_in(l.push(p)) == names_in(l),
{
    assert(l.push(p).drop_last() =~= l);
}

/// Listed families are mixed as they are; else those of the family list; else a
/// single family joins the three standard ones in front, unless it is one of them.
pub proof fn families_are_mixed(listed: Seq<Seq<char>>, family: Seq<char>)
    ensures
        listed.len() > 0 ==> mix_of(listed, family) == listed,
        listed.len() == 0 && family.contains(',') ==> mix_of(listed, family) == font_list(family),
        listed.len() == 0 && family.len() == 0 ==> mix_of(listed, family).len() == 3 && mix_of(
            listed,
            family,
        )[0] == "Anton"@ && mix_of(listed, family)[1] == "Archivo Black"@ && mix_of(listed, family)[2]
            == "Titan One"@,
        listed.len() == 0 && family.len() > 0 && !family.contains(',') && !named_alike(
            mix_of(listed, Seq::empty()),
            family,
        ) ==> mix_of(listed, family) == seq![family] + mix_of(listed, Seq::empty()),
{
    let none = Seq::<char>::empty();
    assert(!none.contains(','));
    if family.len() == 0 {
        assert(family =~= none);
    }
}

/// A spot of an image lies in the row `y` and the column `x`, and no two spots share a
/// place.
pub proof fn spots_have_their_own_place(x: i32, y: i32, u: i32, v: i32, width: u32, height: u32)
    ensures
        spot(x, y, width, height) is Some <==> 0 <= x < width && 0 <= y < height,
        spot(x, y, width, height) matches Some(k) ==> 0 <= k < width * height && k / (width as int) == y
            && k % (width as int) == x,
        spot(x, y, width, height) is Some && spot(x, y, width, height) == spot(u, v, width, height)
            ==> x == u && y == v,
{
    let w = width as int;
    if 0 <= x < width && 0 <= y < height {
        lemma_spot(x as int, y as int, w, height as int);
    }
    if 0 <= u < width && 0 <= v < height {
        lemma_spot(u as int, v as int, w, height as int);
    }
}

proof fn lemma_spot(x: int, y: int, w: int, h: int)
    requires
        0 <= x < w,
        0 <= y < h,
    ensures
        0 <= y * w + x < w * h,
        (y * w + x) / w == y,
        (y * w + x) % w == x,
{
    assert(y * w + x < w * h && 0 <= y * w + x) by (nonlinear_arith)
        requires
            0 <= x < w,
            0 <= y < h,
    ;
    vstd::arithmetic::div_mod::lemma_fundamental_div_mod_converse(y * w + x, w, y, x);
}

/// Where nothing of a glyph shows, nothing is drawn; a full cover in full alpha gives
/// the color itself.
pub proof fn ink_follows_the_cover(pass: Color, coverage: u8, alpha: u8)
    ensures
        coverage == 0 || alpha == 0 ==> ink_pixel(pass, coverage, alpha, false) is None,
        ink_pixel(pass, 255, 255, false) == Some((pass.0, pass.1, pass.2, 255u8)),
        ink_pixel(pass, 255, 255, true) == Some((pass.0, pass.1, pass.2, 255u8)),
{
    let z = 0int;
    assert(z * alpha == 0 && coverage * z == 0) by (nonlinear_arith)
        requires
            z == 0,
    ;
}

/// The families that serve are those of the list that do, in order.
pub proof fn serving_families_are_kept(l: Seq<Seq<char>>, f: Seq<char>, face: Face)
    ensures
        serving(Seq::empty(), face).len() == 0,
        serves(f, face) ==> serving(l.push(f), face) == serving(l, face).push(f),
        !serves(f, face) ==> serving(l.push(f), face) == serving(l, face),
{
    assert(l.push(f).drop_last() =~= l);
}

/// Which families serve, by what their names hold in any letter case.
pub proof fn faces_go_by_name(f: Seq<char>)
    ensures
        serves(f, Face::Condensed) <==> occurs(lowered(f), "anton"@),
        serves(f, Face::Wide) <==> occurs(lowered(f), "titan"@) || occurs(lowered(f), "archivo"@),
        serves(f, Face::Small) <==> occurs(lowered(f), "archivo"@),
        serves(f, Face::Heavy) <==> !occurs(lowered(f), "playfair"@) && !occurs(lowered(f), "abril"@)
            && !occurs(lowered(f), "oswald"@),
{
}

proof fn lemma_serving_within(l: Seq<Seq<char>>, face: Face, k: int)
    requires
        0 <= k < serving(l, face).len(),
    ensures
        l.contains(serving(l, face)[k]),
    decreases l.len(),
{
    if l.len() > 0 {
        let d = l.drop_last();
        let s = serving(d, face);
        if k < s.len() {
            lemma_serving_within(d, face, k);
            let j = choose|j: int| 0 <= j < d.len() && d[j] == s[k];
            assert(l[j] == s[k]);
        } else {
            assert(l[l.len() - 1] == l.last());
        }
    }
}

proof fn lemma_picked(pool: Seq<Seq<char>>, h: u32, all: Seq<Seq<char>>, face: Face)
    requires
        pool == serving(all, face),
        all.len() > 0,
    ensures
        all.contains(picked(pool, h, all)),
{
    if pool.len() == 0 {
        let k = h as int % all.len() as int;
        assert(0 <= k < all.len());
        assert(all[k] == picked(pool, h, all));
    } else {
        let k = h as int % pool.len() as int;
        assert(0 <= k < pool.len());
        lemma_serving_within(all, face, k);
    }
}

proof fn lemma_cap_family(fonts: Seq<Seq<char>>, h: u32, lc: char)
    requires
        fonts.len() > 0,
    ensures
        fonts.contains(cap_family(fonts, h, lc)),
{
    lemma_picked(serving(fonts, Face::Wide), h, fonts, Face::Wide);
    lemma_picked(serving(fonts, Face::Condensed), h, fonts, Face::Condensed);
    lemma_picked(serving(fonts, Face::Heavy), h, fonts, Face::Heavy);
}

/// Every letter is set in one of the given families.
pub proof fn letters_use_the_given_families(
    v: Seq<char>,
    b: Seq<u8>,
    fonts: Seq<Seq<char>>,
    thin: Seq<bool>,
    i: nat,
)
    requires
        i < v.len(),
        fonts.len() > 0,
        !white(v[i as int]),
    ensures
        fonts.contains(glyph_at(v, b, fonts, thin, i).family),
{
    let c = v[i as int];
    let h = crate::ransom::letter_hash(b, i);
    lemma_cap_family(fonts, h, lower_ascii(c));
    if serving(fonts, Face::Small).len() > 0 {
        lemma_serving_within(fonts, Face::Small, 0);
    }
}

/// Weights go by their numbers and by their names; anything else is of weight 400.
pub proof fn weights_have_names(s: Seq<char>)
    ensures
        s == "100"@ || s == "thin"@ ==> weight_number(s) == 100,
        s == "200"@ || s == "extralight"@ ==> weight_number(s) == 200,
        s == "300"@ || s == "light"@ ==> weight_number(s) == 300,
        s == "500"@ || s == "medium"@ ==> weight_number(s) == 500,
        s == "600"@ || s == "semibold"@ ==> weight_number(s) == 600,
        s == "700"@ || s == "bold"@ ==> weight_number(s) == 700,
        s == "800"@ || s == "extrabold"@ ==> weight_number(s) == 800,
        s == "900"@ || s == "black"@ ==> weight_number(s) == 900,
        weight_number(s) % 100 == 0 && 100 <= weight_number(s) <= 900,
{
    reveal_strlit("100");
    reveal_strlit("200");
    reveal_strlit("300");
    reveal_strlit("500");
    reveal_strlit("600");
    reveal_strlit("700");
    reveal_strlit("800");
    reveal_strlit("900");
    reveal_strlit("thin");
    reveal_strlit("extralight");
    reveal_strlit("light");
    reveal_strlit("medium");
    reveal_strlit("semibold");
    reveal_strlit("bold");
    reveal_strlit("extrabold");
    reveal_strlit("black");
    assert("100"@[0] == '1' && "200"@[0] == '2' && "300"@[0] == '3' && "500"@[0] == '5' && "600"@[0] == '6'
        && "700"@[0] == '7' && "800"@[0] == '8' && "900"@[0] == '9');
    assert("thin"@[0] == 't' && "extralight"@[0] == 'e' && "light"@[0] == 'l' && "medium"@[0] == 'm'
        && "semibold"@[0] == 's' && "bold"@[0] == 'b' && "bold"@[1] == 'o' && "extrabold"@[0] == 'e'
        && "black"@[0] == 'b' && "black"@[1] == 'l');
    assert("extralight"@.len() == 10 && "extrabold"@.len() == 9);
}

/// Small letters are `a`, `e`, `o` and `u`, never at the front of a word, and capitals are
/// all the others.
pub proof fn only_some_letters_are_small(
    v: Seq<char>,
    b: Seq<u8>,
    fonts: Seq<Seq<char>>,
    thin: Seq<bool>,
    i: nat,
)
    requires
        i < v.len(),
        glyph_at(v, b, fonts, thin, i).lower,
    ensures
        i > 0,
        !white(v[i as int]),
        ({
            let c = lower_ascii(v[i as int]);
            c == 'a' || c == 'e' || c == 'o' || c == 'u'
        }),
        glyph_at(v, b, fonts, thin, i).ch == lower_ascii(v[i as int]),
{
}

/// What a gradient text holds between its parentheses is cut at the commas.
pub proof fn gradients_are_cut_at_commas(name: Seq<char>, parts: Seq<Seq<char>>)
    requires
        !name.contains('('),
        parts.len() > 0,
        forall|i: int|
            0 <= i < parts.len() ==> !(#[trigger] parts[i]).contains(',') && !parts[i].contains('(')
                && !parts[i].contains(')'),
        !joined(parts, seq![',']).contains('('),
        !joined(parts, seq![',']).contains(')'),
    ensures
        parts.len() >= 2 && gradient_parts(parts).stops.len() >= 2 ==> gradient_of(
            name + seq!['('] + (joined(parts, seq![',']) + seq![')']),
        ) == Some(gradient_parts(parts)),
        parts.len() < 2 || gradient_parts(parts).stops.len() < 2 ==> gradient_of(
            name + seq!['('] + (joined(parts, seq![',']) + seq![')']),
        ) is None,
{
    let inner = joined(parts, seq![',']);
    let tail = inner + seq![')'];
    assert(!tail.contains('(')) by {
        if tail.contains('(') {
            let j = choose|j: int| 0 <= j < tail.len() && tail[j] == '(';
            if j < inner.len() {
                assert(inner[j] == '(');
            }
        }
    }
    let none = Seq::<char>::empty();
    assert(tail =~= inner + seq![')'] + none);
    assert(!none.contains(')'));
    separators_part(name, '(', tail);
    unsplit_texts_stay(name, '(');
    unsplit_texts_stay(tail, '(');
    separators_part(inner, ')', none);
    unsplit_texts_stay(inner, ')');
    assert(split_on(tail, ')')[0] == inner);
    joined_pieces_split(parts, ',');
}

/// Of the words in front of the unit the last is the width of a border.
pub proof fn the_last_word_is_the_width(front: Seq<char>, width: Seq<char>, col: Seq<char>, color: Color)
    requires
        one_word(width),
        !front.contains('p'),
        !width.contains('p'),
        col.len() > 0,
        tight(col),
        color_of(col) == Some(color),
    ensures
        number_text(width) ==> border_of(front + seq![' '] + width + seq!['p', 'x', ' '] + col) == Some(
            StrokeView { width, color },
        ),
        !number_text(width) ==> border_of(front + seq![' '] + width + seq!['p', 'x', ' '] + col) == Some(
            StrokeView { width: "1"@, color },
        ),
{
    let a = front + seq![' '] + width;
    let s = a + seq!['p', 'x', ' '] + col;
    let k = a.len() as int;
    assert forall|j: int| 0 <= j < k implies #[trigger] s[j] != 'p' by {
        if j < front.len() {
            assert(s[j] == front[j]);
        } else if j > front.len() {
            assert(s[j] == width[j - front.len() - 1]);
        }
    }
    lemma_px(s, 0, k);
    assert(s.take(k) =~= a);
    white_space_parts_words(front, ' ', width);
    unbroken_texts_are_words(width);
    assert(words(a).last() == width);
    let rest = s.skip(k + 2);
    assert(rest =~= seq![' '] + col + Seq::<char>::empty());
    assert(blank(seq![' ']) && blank(Seq::<char>::empty()));
    padding_is_trimmed(seq![' '], col, Seq::empty());
}

} // verus!
