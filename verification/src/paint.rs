//! What is drawn of a node, and in which order.
//!
//! Lengths and positions stay numbers in text; colors are settled.
use crate::binding::{find_named, local_value, pairs};
use crate::color::{color_from, color_of, Color};
use crate::modes::{split_words, words};
use crate::node::{opt_view, ResolvedNode};
use crate::ransom::{
    bare_name, font_list, nowrap_of, parse_font_list, ransom_of, strip_char, wants_one_line,
    wants_ransom, weight_number, weight_of,
};
use crate::scan::{is_number, number_text};
use crate::text::{
    chars_of, has_prefix, has_suffix, is_white, join, joined, split_char, split_on,
    starts_with_str, string_of, texts, to_vec, trim, trimmed, views, white,
};
use crate::theme::owned;
use vstd::prelude::*;
use vstd::slice::slice_subrange;

verus! {

/// A shadow: offset, blur and color.
#[derive(Debug)]
pub struct Shadow {
    pub dx: String,
    pub dy: String,
    pub blur: String,
    pub color: Color,
}

/// A line of some width and color.
#[derive(Debug)]
pub struct Stroke {
    pub width: String,
    pub color: Color,
}

pub struct ShadowView {
    pub dx: Seq<char>,
    pub dy: Seq<char>,
    pub blur: Seq<char>,
    pub color: Color,
}

pub struct StrokeView {
    pub width: Seq<char>,
    pub color: Color,
}

impl View for Shadow {
    type V = ShadowView;

    open spec fn view(&self) -> ShadowView {
        ShadowView { dx: self.dx@, dy: self.dy@, blur: self.blur@, color: self.color }
    }
}

impl View for Stroke {
    type V = StrokeView;

    open spec fn view(&self) -> StrokeView {
        StrokeView { width: self.width@, color: self.color }
    }
}

pub open spec fn shadow_view(o: Option<Shadow>) -> Option<ShadowView> {
    match o {
        Some(s) => Some(s@),
        None => None,
    }
}

pub open spec fn stroke_view(o: Option<Stroke>) -> Option<StrokeView> {
    match o {
        Some(s) => Some(s@),
        None => None,
    }
}

// ---------------------------------------------------------------------------
// Shadows
// ---------------------------------------------------------------------------

/// A length without its unit.
pub open spec fn unitless(s: Seq<char>) -> Seq<char> {
    if has_suffix(s, "px"@) {
        s.take(s.len() - 2)
    } else {
        s
    }
}

fn drop_unit<'a>(s: &'a [char]) -> (r: &'a [char])
    ensures
        r@ == unitless(s@),
{
    proof {
        reveal_strlit("px");
    }
    if crate::text::ends_with_str(s, "px") {
        let r = slice_subrange(s, 0, s.len() - 2);
        proof {
            assert(r@ =~= s@.take(s@.len() - 2));
        }
        r
    } else {
        s
    }
}

/// The words from position `k` on, in one text.
pub open spec fn tail_text(w: Seq<Seq<char>>, k: int) -> Seq<char> {
    joined(w.skip(k), " "@)
}

/// A shadow text: two offsets, an optional blur, and a color.
pub open spec fn shadow_of(s: Seq<char>) -> Option<ShadowView> {
    let w = words(s);
    if w.len() < 3 || !number_text(unitless(w[0])) || !number_text(unitless(w[1])) {
        None
    } else if w.len() >= 4 && number_text(unitless(w[2])) {
        match color_of(tail_text(w, 3)) {
            Some(color) => Some(
                ShadowView {
                    dx: unitless(w[0]),
                    dy: unitless(w[1]),
                    blur: unitless(w[2]),
                    color,
                },
            ),
            None => None,
        }
    } else {
        match color_of(tail_text(w, 2)) {
            Some(color) => Some(
                ShadowView { dx: unitless(w[0]), dy: unitless(w[1]), blur: "0"@, color },
            ),
            None => None,
        }
    }
}

fn tail_of(w: &Vec<Vec<char>>, k: usize) -> (r: Vec<char>)
    requires
        k <= w@.len(),
    ensures
        r@ == tail_text(views(w@), k as int),
{
    let mut rest: Vec<Vec<char>> = Vec::new();
    let mut i: usize = k;
    while i < w.len()
        invariant
            k <= i <= w@.len(),
            rest@.len() == i - k,
            forall|j: int| 0 <= j < rest@.len() ==> (#[trigger] rest@[j])@ == w@[j + k]@,
        decreases w@.len() - i,
    {
        rest.push(to_vec(w[i].as_slice()));
        i += 1;
    }
    proof {
        assert(views(rest@) =~= views(w@).skip(k as int));
    }
    join(&rest, " ")
}

/// Read a shadow such as `0 12 32 rgba(0,0,0,0.35)` or `3px 3px #000000`.
pub fn parse_shadow(s: &str) -> (r: Option<Shadow>)
    ensures
        shadow_view(r) == shadow_of(s@),
{
    let c = chars_of(s);
    let w = split_words(c.as_slice());
    proof {
        assert(views(w@).len() == w@.len());
    }
    if w.len() < 3 {
        return None;
    }
    let dx = drop_unit(w[0].as_slice());
    let dy = drop_unit(w[1].as_slice());
    if !is_number(dx) || !is_number(dy) {
        return None;
    }
    let third = drop_unit(w[2].as_slice());
    if w.len() >= 4 && is_number(third) {
        let t = tail_of(&w, 3);
        match color_from(t.as_slice()) {
            Some(color) => Some(
                Shadow { dx: string_of(dx), dy: string_of(dy), blur: string_of(third), color },
            ),
            None => None,
        }
    } else {
        let t = tail_of(&w, 2);
        match color_from(t.as_slice()) {
            Some(color) => Some(
                Shadow { dx: string_of(dx), dy: string_of(dy), blur: owned("0"), color },
            ),
            None => None,
        }
    }
}

// ---------------------------------------------------------------------------
// Borders
// ---------------------------------------------------------------------------

/// The first position of `px`, or the length.
pub open spec fn px_index(s: Seq<char>, i: int) -> int
    decreases s.len() - i,
{
    if i < 0 || i + 2 > s.len() {
        s.len() as int
    } else if s[i] == 'p' && s[i + 1] == 'x' {
        i
    } else {
        px_index(s, i + 1)
    }
}

fn find_px(s: &[char]) -> (r: usize)
    ensures
        r == px_index(s@, 0),
        r <= s@.len(),
        r < s@.len() ==> r + 2 <= s@.len(),
{
    let n: usize = s.len();
    let mut i: usize = 0;
    while i < n && i + 1 < n
        invariant
            n == s@.len(),
            i <= n,
            px_index(s@, 0) == px_index(s@, i as int),
        decreases n - i,
    {
        if s[i] == 'p' && s[i + 1] == 'x' {
            return i;
        }
        i += 1;
    }
    n
}

/// The width in front of `px`: its last word, one where that is no number.
pub open spec fn border_width(before: Seq<char>) -> Seq<char> {
    let w = words(before);
    if w.len() > 0 && number_text(w.last()) {
        w.last()
    } else {
        "1"@
    }
}

/// A border text: a width with its unit and a color, or a color alone.
pub open spec fn border_of(s: Seq<char>) -> Option<StrokeView> {
    let k = px_index(s, 0);
    if k < s.len() {
        let rest = trimmed(s.skip(k + 2));
        let text = if rest.len() == 0 {
            "rgba(255,255,255,0.08)"@
        } else {
            rest
        };
        match color_of(text) {
            Some(color) => Some(StrokeView { width: border_width(s.take(k)), color }),
            None => None,
        }
    } else if has_prefix(s, "rgba"@) || has_prefix(s, "rgb"@) || has_prefix(s, "#"@) {
        match color_of(trimmed(s)) {
            Some(color) => Some(StrokeView { width: "1"@, color }),
            None => None,
        }
    } else {
        None
    }
}

fn width_before(before: &[char]) -> (r: String)
    ensures
        r@ == border_width(before@),
{
    let w = split_words(before);
    proof {
        assert(views(w@).len() == w@.len());
    }
    let n: usize = w.len();
    if n > 0 && is_number(w[n - 1].as_slice()) {
        proof {
            assert(views(w@).last() == w@[n - 1]@);
        }
        string_of(w[n - 1].as_slice())
    } else {
        proof {
            if n > 0 {
                assert(views(w@).last() == w@[n - 1]@);
            }
        }
        owned("1")
    }
}

/// Read a border such as `1px rgba(255,255,255,0.08)` or `#fff`.
pub fn parse_border(s: &str) -> (r: Option<Stroke>)
    ensures
        stroke_view(r) == border_of(s@),
{
    let c = chars_of(s);
    let t = c.as_slice();
    let n: usize = t.len();
    let k: usize = find_px(t);
    if k < n {
        let before = slice_subrange(t, 0, k);
        let after = slice_subrange(t, k + 2, n);
        proof {
            assert(before@ =~= t@.take(k as int));
            assert(after@ =~= t@.skip(k + 2));
        }
        let width = width_before(before);
        let rest = trim(after);
        let color = if rest.len() == 0 {
            let d = chars_of("rgba(255,255,255,0.08)");
            color_from(d.as_slice())
        } else {
            color_from(rest)
        };
        match color {
            Some(color) => Some(Stroke { width, color }),
            None => None,
        }
    } else if starts_with_str(t, "rgba") || starts_with_str(t, "rgb") || starts_with_str(t, "#") {
        match color_from(trim(t)) {
            Some(color) => Some(Stroke { width: owned("1"), color }),
            None => None,
        }
    } else {
        None
    }
}

// ---------------------------------------------------------------------------
// Gradients
// ---------------------------------------------------------------------------

/// A color of a gradient, with the percentage given for it.
#[derive(Debug)]
pub struct Stop {
    pub color: Color,
    pub percent: Option<String>,
}

pub struct StopView {
    pub color: Color,
    pub percent: Option<Seq<char>>,
}

impl View for Stop {
    type V = StopView;

    open spec fn view(&self) -> StopView {
        StopView { color: self.color, percent: opt_view(self.percent) }
    }
}

pub open spec fn stop_views(l: Seq<Stop>) -> Seq<StopView> {
    Seq::new(l.len(), |i: int| l[i]@)
}

/// A linear gradient. Where `even` holds, the stops are spread evenly.
#[derive(Debug)]
pub struct Gradient {
    /// Degrees, as text.
    pub angle: String,
    pub stops: Vec<Stop>,
    pub even: bool,
}

pub struct GradientView {
    pub angle: Seq<char>,
    pub stops: Seq<StopView>,
    pub even: bool,
}

impl View for Gradient {
    type V = GradientView;

    open spec fn view(&self) -> GradientView {
        GradientView { angle: self.angle@, stops: stop_views(self.stops@), even: self.even }
    }
}

pub open spec fn gradient_view(o: Option<Gradient>) -> Option<GradientView> {
    match o {
        Some(g) => Some(g@),
        None => None,
    }
}

/// What stands between the first parenthesis and the next one of either kind.
pub open spec fn first_group(s: Seq<char>) -> Option<Seq<char>> {
    let p = split_on(s, '(');
    if p.len() < 2 {
        None
    } else {
        Some(split_on(p[1], ')')[0])
    }
}

/// The position of the last white space, or the length where there is none.
pub open spec fn last_white(s: Seq<char>) -> nat
    decreases s.len(),
{
    if s.len() == 0 {
        0
    } else if white(s.last()) {
        (s.len() - 1) as nat
    } else {
        let k = last_white(s.drop_last());
        if k == s.len() - 1 {
            s.len()
        } else {
            k
        }
    }
}

/// A part of a gradient: a color with its percentage, or a color alone.
pub open spec fn stop_parts(p: Seq<char>) -> (Seq<char>, Option<Seq<char>>) {
    let k = last_white(p);
    if k < p.len() && p.last() == '%' {
        let number = trimmed(p.subrange(k as int + 1, p.len() - 1));
        (
            trimmed(p.take(k as int)),
            Some(
                if number_text(number) {
                    number
                } else {
                    "0"@
                },
            ),
        )
    } else {
        (p, None)
    }
}

/// A part that gives the angle.
pub open spec fn angle_part(p: Seq<char>) -> Option<Seq<char>> {
    if has_suffix(p, "deg"@) {
        let n = trimmed(p.take(p.len() - 3));
        Some(
            if number_text(n) {
                n
            } else {
                "180"@
            },
        )
    } else {
        None
    }
}

/// The gradient that the first parts describe, before it is known to be usable.
pub open spec fn gradient_parts(parts: Seq<Seq<char>>) -> GradientView
    decreases parts.len(),
{
    if parts.len() == 0 {
        GradientView { angle: "180"@, stops: Seq::empty(), even: false }
    } else {
        let g = gradient_parts(parts.drop_last());
        let p = trimmed(parts.last());
        match angle_part(p) {
            Some(a) => GradientView { angle: a, ..g },
            None => {
                let (text, percent) = stop_parts(p);
                GradientView {
                    stops: match color_of(text) {
                        Some(color) => g.stops.push(StopView { color, percent }),
                        None => g.stops,
                    },
                    even: g.even || percent is None,
                    ..g
                }
            },
        }
    }
}

/// The gradient of a `linear-gradient(..)` text: an angle and at least two colors.
pub open spec fn gradient_of(s: Seq<char>) -> Option<GradientView> {
    match first_group(s) {
        None => None,
        Some(inner) => {
            let parts = split_on(inner, ',');
            let g = gradient_parts(parts);
            if parts.len() < 2 || g.stops.len() < 2 {
                None
            } else {
                Some(g)
            }
        },
    }
}

proof fn lemma_last_white(s: Seq<char>)
    ensures
        last_white(s) <= s.len(),
        last_white(s) < s.len() ==> white(s[last_white(s) as int]),
        forall|i: int| last_white(s) < i < s.len() ==> !white(#[trigger] s[i]),
        last_white(s) == s.len() ==> forall|i: int| 0 <= i < s.len() ==> !white(#[trigger] s[i]),
    decreases s.len(),
{
    if s.len() > 0 && !white(s.last()) {
        let d = s.drop_last();
        lemma_last_white(d);
        assert forall|i: int| last_white(s) < i < s.len() implies !white(#[trigger] s[i]) by {
            if i < d.len() {
                assert(d[i] == s[i]);
            }
        }
        if last_white(s) == s.len() {
            assert forall|i: int| 0 <= i < s.len() implies !white(#[trigger] s[i]) by {
                if i < d.len() {
                    assert(d[i] == s[i]);
                }
            }
        }
    }
}

fn find_last_white(s: &[char]) -> (r: usize)
    ensures
        r == last_white(s@),
        r <= s@.len(),
{
    let total: usize = s.len();
    let mut n: usize = total;
    proof {
        lemma_last_white(s@);
    }
    while n > 0
        invariant
            n <= total,
            total == s@.len(),
            forall|i: int| n <= i < total ==> !white(#[trigger] s@[i]),
            last_white(s@) <= s@.len(),
            last_white(s@) < s@.len() ==> white(s@[last_white(s@) as int]),
            forall|i: int| last_white(s@) < i < s@.len() ==> !white(#[trigger] s@[i]),
            last_white(s@) == s@.len() ==> forall|i: int|
                0 <= i < s@.len() ==> !white(#[trigger] s@[i]),
        decreases n,
    {
        if is_white(s[n - 1]) {
            proof {
                assert(white(s@[n - 1]));
                assert(last_white(s@) >= n - 1);
                if last_white(s@) < s@.len() {
                    assert(last_white(s@) < n);
                }
            }
            return n - 1;
        }
        n -= 1;
    }
    total
}

fn split_stop<'a>(p: &'a [char]) -> (r: (&'a [char], Option<String>))
    ensures
        r.0@ == stop_parts(p@).0,
        opt_view(r.1) == stop_parts(p@).1,
{
    let n: usize = p.len();
    let k: usize = find_last_white(p);
    if k < n && p[n - 1] == '%' {
        proof {
            lemma_last_white(p@);
            assert(k < n - 1) by {
                assert(white(p@[k as int]));
                assert(!white('%'));
            }
        }
        let number = trim(slice_subrange(p, k + 1, n - 1));
        let text = slice_subrange(p, 0, k);
        proof {
            assert(text@ =~= p@.take(k as int));
        }
        let percent = if is_number(number) {
            string_of(number)
        } else {
            owned("0")
        };
        (trim(text), Some(percent))
    } else {
        (p, None)
    }
}

fn read_angle(p: &[char]) -> (r: Option<String>)
    ensures
        opt_view(r) == angle_part(p@),
{
    proof {
        reveal_strlit("deg");
    }
    if crate::text::ends_with_str(p, "deg") {
        let s = slice_subrange(p, 0, p.len() - 3);
        proof {
            assert(s@ =~= p@.take(p@.len() - 3));
        }
        let n = trim(s);
        if is_number(n) {
            Some(string_of(n))
        } else {
            Some(owned("180"))
        }
    } else {
        None
    }
}

/// Read a `linear-gradient(<angle>deg, color pos%, ...)` text.
pub fn parse_linear_gradient(s: &str) -> (r: Option<Gradient>)
    ensures
        gradient_view(r) == gradient_of(s@),
{
    let c = chars_of(s);
    let opened = split_char(c.as_slice(), '(');
    proof {
        assert(views(opened@).len() == opened@.len());
    }
    if opened.len() < 2 {
        return None;
    }
    proof {
        assert(views(opened@)[1] == opened@[1]@);
    }
    let closed = split_char(opened[1].as_slice(), ')');
    proof {
        assert(views(closed@)[0] == closed@[0]@);
    }
    let parts = split_char(closed[0].as_slice(), ',');
    let ghost pv = views(parts@);
    let mut g = Gradient { angle: owned("180"), stops: Vec::new(), even: false };
    let mut i: usize = 0;
    proof {
        assert(pv.take(0) =~= Seq::empty());
        assert(stop_views(g.stops@) =~= Seq::empty());
    }
    while i < parts.len()
        invariant
            i <= parts@.len(),
            pv == views(parts@),
            g@ == gradient_parts(pv.take(i as int)),
        decreases parts@.len() - i,
    {
        let p = trim(parts[i].as_slice());
        proof {
            assert(pv.take(i + 1).last() == parts@[i as int]@);
            assert(pv.take(i + 1).drop_last() =~= pv.take(i as int));
        }
        match read_angle(p) {
            Some(a) => {
                g.angle = a;
            },
            None => {
                let (text, percent) = split_stop(p);
                if percent.is_none() {
                    g.even = true;
                }
                match color_from(text) {
                    Some(color) => {
                        let ghost before = g.stops@;
                        let stop = Stop { color, percent };
                        g.stops.push(stop);
                        proof {
                            assert(stop_views(g.stops@) =~= stop_views(before).push(stop@));
                        }
                    },
                    None => {},
                }
            },
        }
        i += 1;
    }
    proof {
        assert(pv.take(parts@.len() as int) =~= pv);
        assert(stop_views(g.stops@).len() == g.stops@.len());
        assert(pv.len() == parts@.len());
    }
    if parts.len() < 2 || g.stops.len() < 2 {
        None
    } else {
        Some(g)
    }
}

// ---------------------------------------------------------------------------
// Layers
// ---------------------------------------------------------------------------

/// How a text is set.
#[derive(Debug)]
pub struct TextLayer {
    pub text: String,
    pub color: Color,
    pub size: String,
    pub align: String,
    pub weight: u16,
    pub family: String,
    pub outline: Option<Stroke>,
    pub shadow: Option<Shadow>,
    pub ransom: bool,
    pub ransom_fonts: Vec<String>,
    pub ransom_paper: Option<Color>,
    pub nowrap: bool,
}

pub struct TextLayerView {
    pub text: Seq<char>,
    pub color: Color,
    pub size: Seq<char>,
    pub align: Seq<char>,
    pub weight: u16,
    pub family: Seq<char>,
    pub outline: Option<StrokeView>,
    pub shadow: Option<ShadowView>,
    pub ransom: bool,
    pub ransom_fonts: Seq<Seq<char>>,
    pub ransom_paper: Option<Color>,
    pub nowrap: bool,
}

impl View for TextLayer {
    type V = TextLayerView;

    open spec fn view(&self) -> TextLayerView {
        TextLayerView {
            text: self.text@,
            color: self.color,
            size: self.size@,
            align: self.align@,
            weight: self.weight,
            family: self.family@,
            outline: stroke_view(self.outline),
            shadow: shadow_view(self.shadow),
            ransom: self.ransom,
            ransom_fonts: texts(self.ransom_fonts@),
            ransom_paper: self.ransom_paper,
            nowrap: self.nowrap,
        }
    }
}

/// One thing to draw.
#[derive(Debug)]
pub enum Layer {
    Shadow(Shadow),
    Gradient(Gradient),
    Fill(Color),
    /// An image file.
    Image(String),
    Text(TextLayer),
    Border(Stroke),
}

pub enum LayerView {
    Shadow(ShadowView),
    Gradient(GradientView),
    Fill(Color),
    Image(Seq<char>),
    Text(TextLayerView),
    Border(StrokeView),
}

impl View for Layer {
    type V = LayerView;

    open spec fn view(&self) -> LayerView {
        match *self {
            Layer::Shadow(s) => LayerView::Shadow(s@),
            Layer::Gradient(g) => LayerView::Gradient(g@),
            Layer::Fill(c) => LayerView::Fill(c),
            Layer::Image(p) => LayerView::Image(p@),
            Layer::Text(t) => LayerView::Text(t@),
            Layer::Border(b) => LayerView::Border(b@),
        }
    }
}

pub open spec fn layer_views(l: Seq<Layer>) -> Seq<LayerView> {
    Seq::new(l.len(), |i: int| l[i]@)
}

pub type Props = Seq<(Seq<char>, Seq<char>)>;

pub open spec fn shadow_layers(p: Props) -> Seq<LayerView> {
    match local_value(p, "shadow"@) {
        Some(s) => match shadow_of(s) {
            Some(v) => seq![LayerView::Shadow(v)],
            None => Seq::empty(),
        },
        None => Seq::empty(),
    }
}

/// The `background` property, or `fill` in its place.
pub open spec fn fill_text(p: Props) -> Option<Seq<char>> {
    match local_value(p, "background"@) {
        Some(s) => Some(s),
        None => local_value(p, "fill"@),
    }
}

/// The fill: a gradient, a color, or the node's background where no property
/// says otherwise.
pub open spec fn fill_layers(p: Props, background: Option<Color>) -> Seq<LayerView> {
    match fill_text(p) {
        Some(s) => if has_prefix(trimmed(s), "linear-gradient"@) {
            match gradient_of(trimmed(s)) {
                Some(g) => seq![LayerView::Gradient(g)],
                None => Seq::empty(),
            }
        } else {
            match color_of(trimmed(s)) {
                Some(c) => seq![LayerView::Fill(c)],
                None => Seq::empty(),
            }
        },
        None => match background {
            Some(c) => seq![LayerView::Fill(c)],
            None => Seq::empty(),
        },
    }
}

pub open spec fn image_layers(p: Props) -> Seq<LayerView> {
    match local_value(p, "src"@) {
        Some(s) => seq![LayerView::Image(bare_name(s))],
        None => Seq::empty(),
    }
}

pub open spec fn prop_text(p: Props, name: Seq<char>, default: Seq<char>) -> Seq<char> {
    match local_value(p, name) {
        Some(s) => s,
        None => default,
    }
}

pub open spec fn font_size_of(p: Props) -> Seq<char> {
    match local_value(p, "font_size"@) {
        Some(s) => if number_text(trimmed(s)) {
            trimmed(s)
        } else {
            "15"@
        },
        None => "15"@,
    }
}

pub open spec fn text_layer(text: Seq<char>, color: Option<Color>, p: Props) -> TextLayerView {
    TextLayerView {
        text,
        color: match color {
            Some(c) => c,
            None => (205, 214, 244, 255),
        },
        size: font_size_of(p),
        align: prop_text(p, "align"@, "left"@),
        weight: match local_value(p, "font_weight"@) {
            Some(s) => weight_number(s),
            None => 400,
        },
        family: prop_text(p, "font_family"@, Seq::empty()),
        outline: match local_value(p, "outline"@) {
            Some(s) => border_of(s),
            None => None,
        },
        shadow: match local_value(p, "text_shadow"@) {
            Some(s) => shadow_of(s),
            None => None,
        },
        ransom: wants_ransom(p),
        ransom_fonts: match local_value(p, "ransom_fonts"@) {
            Some(s) => font_list(s),
            None => Seq::empty(),
        },
        ransom_paper: match local_value(p, "ransom_paper"@) {
            Some(s) => color_of(s),
            None => None,
        },
        nowrap: wants_one_line(p),
    }
}

pub open spec fn text_layers(text: Option<Seq<char>>, color: Option<Color>, p: Props) -> Seq<LayerView> {
    match text {
        Some(t) => if t.len() == 0 {
            Seq::empty()
        } else {
            seq![LayerView::Text(text_layer(t, color, p))]
        },
        None => Seq::empty(),
    }
}

pub open spec fn border_layers(p: Props) -> Seq<LayerView> {
    match local_value(p, "border"@) {
        Some(s) => match border_of(s) {
            Some(b) => seq![LayerView::Border(b)],
            None => Seq::empty(),
        },
        None => Seq::empty(),
    }
}

/// What is drawn of a node: shadow, fill, image, text and border, in this order.
pub open spec fn layers_of(n: ResolvedNode) -> Seq<LayerView> {
    let p = pairs(n.props@);
    shadow_layers(p) + fill_layers(p, n.background) + image_layers(p) + text_layers(
        opt_view(n.text),
        n.color,
        p,
    ) + border_layers(p)
}

fn push_layer(out: &mut Vec<Layer>, l: Layer)
    ensures
        layer_views(final(out)@) == layer_views(old(out)@) + seq![l@],
{
    let ghost before = out@;
    out.push(l);
    proof {
        assert(layer_views(out@) =~= layer_views(before) + seq![l@]);
    }
}

fn add_shadow(out: &mut Vec<Layer>, props: &Vec<(String, String)>)
    ensures
        layer_views(final(out)@) == layer_views(old(out)@) + shadow_layers(pairs(props@)),
{
    let ghost none = Seq::<LayerView>::empty();
    proof {
        assert(layer_views(out@) + none =~= layer_views(out@));
    }
    match find_named(props, "shadow") {
        Some(s) => match parse_shadow(s.as_str()) {
            Some(v) => {
                push_layer(out, Layer::Shadow(v));
            },
            None => {},
        },
        None => {},
    }
}

fn add_fill(out: &mut Vec<Layer>, props: &Vec<(String, String)>, background: Option<Color>)
    ensures
        layer_views(final(out)@) == layer_views(old(out)@) + fill_layers(pairs(props@), background),
{
    let ghost none = Seq::<LayerView>::empty();
    proof {
        assert(layer_views(out@) + none =~= layer_views(out@));
    }
    let text = match find_named(props, "background") {
        Some(s) => Some(s),
        None => find_named(props, "fill"),
    };
    match text {
        Some(s) => {
            let c = chars_of(s.as_str());
            let t = trim(c.as_slice());
            if starts_with_str(t, "linear-gradient") {
                let ts = string_of(t);
                match parse_linear_gradient(ts.as_str()) {
                    Some(g) => {
                        push_layer(out, Layer::Gradient(g));
                    },
                    None => {},
                }
            } else {
                match color_from(t) {
                    Some(k) => {
                        push_layer(out, Layer::Fill(k));
                    },
                    None => {},
                }
            }
        },
        None => match background {
            Some(k) => {
                push_layer(out, Layer::Fill(k));
            },
            None => {},
        },
    }
}

fn add_image(out: &mut Vec<Layer>, props: &Vec<(String, String)>)
    ensures
        layer_views(final(out)@) == layer_views(old(out)@) + image_layers(pairs(props@)),
{
    let ghost none = Seq::<LayerView>::empty();
    proof {
        assert(layer_views(out@) + none =~= layer_views(out@));
    }
    match find_named(props, "src") {
        Some(s) => {
            let c = chars_of(s.as_str());
            let name = strip_char(strip_char(trim(c.as_slice()), '"'), '\'');
            push_layer(out, Layer::Image(string_of(name)));
        },
        None => {},
    }
}

fn text_or(props: &Vec<(String, String)>, name: &str, default: &str) -> (r: String)
    ensures
        r@ == prop_text(pairs(props@), name@, default@),
{
    match find_named(props, name) {
        Some(s) => s.clone(),
        None => owned(default),
    }
}

fn font_size(props: &Vec<(String, String)>) -> (r: String)
    ensures
        r@ == font_size_of(pairs(props@)),
{
    match find_named(props, "font_size") {
        Some(s) => {
            let c = chars_of(s.as_str());
            let t = trim(c.as_slice());
            if is_number(t) {
                string_of(t)
            } else {
                owned("15")
            }
        },
        None => owned("15"),
    }
}

fn set_text(text: &String, color: Option<Color>, props: &Vec<(String, String)>) -> (r: TextLayer)
    ensures
        r@ == text_layer(text@, color, pairs(props@)),
{
    proof {
        reveal_strlit("");
        assert(""@ =~= Seq::<char>::empty());
    }
    let outline = match find_named(props, "outline") {
        Some(s) => parse_border(s.as_str()),
        None => None,
    };
    let shadow = match find_named(props, "text_shadow") {
        Some(s) => parse_shadow(s.as_str()),
        None => None,
    };
    let ransom_fonts = match find_named(props, "ransom_fonts") {
        Some(s) => parse_font_list(s.as_str()),
        None => {
            let v: Vec<String> = Vec::new();
            proof {
                assert(texts(v@) =~= Seq::empty());
            }
            v
        },
    };
    let ransom_paper = match find_named(props, "ransom_paper") {
        Some(s) => {
            let c = chars_of(s.as_str());
            color_from(c.as_slice())
        },
        None => None,
    };
    TextLayer {
        text: text.clone(),
        color: match color {
            Some(c) => c,
            None => (205, 214, 244, 255),
        },
        size: font_size(props),
        align: text_or(props, "align", "left"),
        weight: weight_of(props),
        family: text_or(props, "font_family", ""),
        outline,
        shadow,
        ransom: ransom_of(props),
        ransom_fonts,
        ransom_paper,
        nowrap: nowrap_of(props),
    }
}

fn add_text(
    out: &mut Vec<Layer>,
    text: &Option<String>,
    color: Option<Color>,
    props: &Vec<(String, String)>,
)
    ensures
        layer_views(final(out)@) == layer_views(old(out)@) + text_layers(
            opt_view(*text),
            color,
            pairs(props@),
        ),
{
    let ghost none = Seq::<LayerView>::empty();
    proof {
        assert(layer_views(out@) + none =~= layer_views(out@));
    }
    match text {
        Some(t) => {
            if chars_of(t.as_str()).len() > 0 {
                let l = set_text(t, color, props);
                push_layer(out, Layer::Text(l));
            }
        },
        None => {},
    }
}

fn add_border(out: &mut Vec<Layer>, props: &Vec<(String, String)>)
    ensures
        layer_views(final(out)@) == layer_views(old(out)@) + border_layers(pairs(props@)),
{
    let ghost none = Seq::<LayerView>::empty();
    proof {
        assert(layer_views(out@) + none =~= layer_views(out@));
    }
    match find_named(props, "border") {
        Some(s) => match parse_border(s.as_str()) {
            Some(b) => {
                push_layer(out, Layer::Border(b));
            },
            None => {},
        },
        None => {},
    }
}

/// List what is drawn of a node, in order.
pub fn draw_node(n: &ResolvedNode) -> (r: Vec<Layer>)
    ensures
        layer_views(r@) == layers_of(*n),
{
    let mut out: Vec<Layer> = Vec::new();
    proof {
        assert(layer_views(out@) =~= Seq::empty());
    }
    add_shadow(&mut out, &n.props);
    proof {
        let s = shadow_layers(pairs(n.props@));
        assert(Seq::<LayerView>::empty() + s =~= s);
    }
    add_fill(&mut out, &n.props, n.background);
    add_image(&mut out, &n.props);
    add_text(&mut out, &n.text, n.color, &n.props);
    add_border(&mut out, &n.props);
    out
}

/// Whether a scissored node may be drawn without a scratch surface: it casts no
/// shadow, and it lies within its clip.
pub fn draws_directly(n: &ResolvedNode, inside_clip: bool) -> (r: bool)
    ensures
        r == (inside_clip && local_value(pairs(n.props@), "shadow"@) is None),
{
    inside_clip && find_named(&n.props, "shadow").is_none()
}

} // verus!
