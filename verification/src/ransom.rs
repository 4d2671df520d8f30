//! Mixed-letter type: which face, case and size each letter of a word gets.
//!
//! The plan is a function of the text and the font list, but for one thing: a
//! letter that turns out too thin in its face falls back to a plain capital.
//! Whether it does is for the caller to measure.
use crate::binding::{find_named, local_value, pairs};
use crate::color::Color;
use crate::scan::{ascii_alpha, has, is_alpha, lower, lower_ascii, lowered, occurs, to_lower_ascii};
use crate::text::{
    chars_of, eq_str, find_char, is_white, same_str, split_char, split_on, string_of, texts, trim,
    trimmed, views, white,
};
use crate::theme::owned;
use vstd::prelude::*;
use vstd::slice::slice_subrange;
use vstd::string::StringSliceAdditionalSpecFns;

verus! {

// ---------------------------------------------------------------------------
// Text properties
// ---------------------------------------------------------------------------

/// Font weights, by their usual numbers.
pub open spec fn weight_number(s: Seq<char>) -> u16 {
    if s == "100"@ || s == "thin"@ {
        100
    } else if s == "200"@ || s == "extralight"@ {
        200
    } else if s == "300"@ || s == "light"@ {
        300
    } else if s == "500"@ || s == "medium"@ {
        500
    } else if s == "600"@ || s == "semibold"@ {
        600
    } else if s == "700"@ || s == "bold"@ {
        700
    } else if s == "800"@ || s == "extrabold"@ {
        800
    } else if s == "900"@ || s == "black"@ {
        900
    } else {
        400
    }
}

pub fn weight_from(s: &str) -> (r: u16)
    ensures
        r == weight_number(s@),
{
    if same_str(s, "100") || same_str(s, "thin") {
        100
    } else if same_str(s, "200") || same_str(s, "extralight") {
        200
    } else if same_str(s, "300") || same_str(s, "light") {
        300
    } else if same_str(s, "500") || same_str(s, "medium") {
        500
    } else if same_str(s, "600") || same_str(s, "semibold") {
        600
    } else if same_str(s, "700") || same_str(s, "bold") {
        700
    } else if same_str(s, "800") || same_str(s, "extrabold") {
        800
    } else if same_str(s, "900") || same_str(s, "black") {
        900
    } else {
        400
    }
}

/// The weight a node asks for.
pub fn weight_of(props: &Vec<(String, String)>) -> (r: u16)
    ensures
        r == (match local_value(pairs(props@), "font_weight"@) {
            Some(s) => weight_number(s),
            None => 400,
        }),
{
    match find_named(props, "font_weight") {
        Some(s) => weight_from(s.as_str()),
        None => 400,
    }
}

pub open spec fn yes_word(s: Seq<char>) -> bool {
    s == "true"@ || s == "1"@ || s == "yes"@
}

pub open spec fn wants_ransom(props: Seq<(Seq<char>, Seq<char>)>) -> bool {
    match local_value(props, "ransom"@) {
        Some(s) => yes_word(trimmed(s)),
        None => false,
    }
}

/// Whether a node asks for mixed letters.
pub fn ransom_of(props: &Vec<(String, String)>) -> (r: bool)
    ensures
        r == wants_ransom(pairs(props@)),
{
    match find_named(props, "ransom") {
        Some(s) => {
            let c = chars_of(s.as_str());
            let t = trim(c.as_slice());
            eq_str(t, "true") || eq_str(t, "1") || eq_str(t, "yes")
        },
        None => false,
    }
}

pub open spec fn wants_one_line(props: Seq<(Seq<char>, Seq<char>)>) -> bool {
    match local_value(props, "wrap"@) {
        Some(s) => trimmed(s) == "none"@ || trimmed(s) == "nowrap"@ || trimmed(s) == "clip"@,
        None => false,
    }
}

/// Whether a node asks for a single line.
pub fn nowrap_of(props: &Vec<(String, String)>) -> (r: bool)
    ensures
        r == wants_one_line(pairs(props@)),
{
    match find_named(props, "wrap") {
        Some(s) => {
            let c = chars_of(s.as_str());
            let t = trim(c.as_slice());
            eq_str(t, "none") || eq_str(t, "nowrap") || eq_str(t, "clip")
        },
        None => false,
    }
}

/// Without the given character at either end.
pub open spec fn stripped(s: Seq<char>, c: char) -> Seq<char> {
    stripped_end(stripped_start(s, c), c)
}

pub open spec fn stripped_start(s: Seq<char>, c: char) -> Seq<char>
    decreases s.len(),
{
    if s.len() > 0 && s[0] == c {
        stripped_start(s.skip(1), c)
    } else {
        s
    }
}

pub open spec fn stripped_end(s: Seq<char>, c: char) -> Seq<char>
    decreases s.len(),
{
    if s.len() > 0 && s.last() == c {
        stripped_end(s.drop_last(), c)
    } else {
        s
    }
}

pub fn strip_char(s: &[char], c: char) -> (r: &[char])
    ensures
        r@ == stripped(s@, c),
{
    let n: usize = s.len();
    let mut i: usize = 0;
    proof {
        assert(s@.skip(0) =~= s@);
    }
    while i < n && s[i] == c
        invariant
            n == s@.len(),
            i <= n,
            stripped_start(s@, c) == stripped_start(s@.skip(i as int), c),
        decreases n - i,
    {
        i += 1;
        proof {
            assert(s@.skip(i - 1).skip(1) =~= s@.skip(i as int));
        }
    }
    let t = slice_subrange(s, i, n);
    proof {
        assert(t@ =~= s@.skip(i as int));
    }
    let mut k: usize = t.len();
    proof {
        assert(t@.take(k as int) =~= t@);
    }
    while k > 0 && t[k - 1] == c
        invariant
            k <= t@.len(),
            stripped_end(t@, c) == stripped_end(t@.take(k as int), c),
        decreases k,
    {
        k -= 1;
        proof {
            assert(t@.take(k + 1).drop_last() =~= t@.take(k as int));
        }
    }
    slice_subrange(t, 0, k)
}

/// A name without white space and quotes around it.
pub open spec fn bare_name(s: Seq<char>) -> Seq<char> {
    stripped(stripped(trimmed(s), '"'), '\'')
}

/// The names of a comma-separated list that are not empty.
pub open spec fn names_in(pieces: Seq<Seq<char>>) -> Seq<Seq<char>>
    decreases pieces.len(),
{
    if pieces.len() == 0 {
        Seq::empty()
    } else {
        let before = names_in(pieces.drop_last());
        let name = bare_name(pieces.last());
        if name.len() == 0 {
            before
        } else {
            before.push(name)
        }
    }
}

pub open spec fn font_list(s: Seq<char>) -> Seq<Seq<char>> {
    names_in(split_on(s, ','))
}

/// Read a comma-separated list of font families.
pub fn parse_font_list(s: &str) -> (r: Vec<String>)
    ensures
        texts(r@) == font_list(s@),
{
    let c = chars_of(s);
    let pieces = split_char(c.as_slice(), ',');
    let ghost pv = views(pieces@);
    let mut out: Vec<String> = Vec::new();
    let mut i: usize = 0;
    proof {
        assert(pv.take(0) =~= Seq::empty());
        assert(texts(out@) =~= Seq::empty());
    }
    while i < pieces.len()
        invariant
            i <= pieces@.len(),
            pv == views(pieces@),
            texts(out@) == names_in(pv.take(i as int)),
        decreases pieces@.len() - i,
    {
        proof {
            assert(pv.take(i + 1).last() == pieces@[i as int]@);
            assert(pv.take(i + 1).drop_last() =~= pv.take(i as int));
        }
        let name = strip_char(strip_char(trim(pieces[i].as_slice()), '"'), '\'');
        if name.len() > 0 {
            let ghost before = out@;
            let t = string_of(name);
            out.push(t);
            proof {
                assert(texts(out@) =~= texts(before).push(name@));
            }
        }
        i += 1;
    }
    proof {
        assert(pv.take(pieces@.len() as int) =~= pv);
    }
    out
}

/// The families used where none are named.
pub open spec fn standard_fonts() -> Seq<Seq<char>> {
    seq!["Anton"@, "Archivo Black"@, "Titan One"@]
}

pub fn default_ransom_fonts() -> (r: Vec<String>)
    ensures
        texts(r@) == standard_fonts(),
        r@.len() == 3,
{
    let mut v: Vec<String> = Vec::new();
    v.push(owned("Anton"));
    v.push(owned("Archivo Black"));
    v.push(owned("Titan One"));
    proof {
        assert(texts(v@) =~= standard_fonts());
    }
    v
}

pub open spec fn named_alike(l: Seq<Seq<char>>, name: Seq<char>) -> bool {
    exists|i: int| 0 <= i < l.len() && lowered(#[trigger] l[i]) == lowered(name)
}

/// The families to mix: the listed ones, those of a family list, or the
/// standard ones with a single family in front unless it is among them.
pub open spec fn mix_of(listed: Seq<Seq<char>>, family: Seq<char>) -> Seq<Seq<char>> {
    if listed.len() > 0 {
        listed
    } else if family.contains(',') {
        font_list(family)
    } else if family.len() > 0 && !named_alike(standard_fonts(), family) {
        seq![family] + standard_fonts()
    } else {
        standard_fonts()
    }
}

fn copy_names(l: &Vec<String>) -> (r: Vec<String>)
    ensures
        texts(r@) == texts(l@),
        r@.len() == l@.len(),
{
    let mut out: Vec<String> = Vec::new();
    let mut i: usize = 0;
    while i < l.len()
        invariant
            i <= l@.len(),
            out@.len() == i,
            forall|k: int| 0 <= k < i ==> (#[trigger] out@[k])@ == l@[k]@,
        decreases l@.len() - i,
    {
        out.push(l[i].clone());
        i += 1;
    }
    proof {
        assert(texts(out@) =~= texts(l@));
    }
    out
}

fn alike(a: &str, b: &str) -> (r: bool)
    ensures
        r == (lowered(a@) == lowered(b@)),
{
    let x = chars_of(a);
    let y = chars_of(b);
    let lx = lower(x.as_slice());
    let ly = lower(y.as_slice());
    crate::text::eq_chars(lx.as_slice(), ly.as_slice())
}

pub fn ransom_font_list(listed: &Vec<String>, family: &str) -> (r: Vec<String>)
    ensures
        texts(r@) == mix_of(texts(listed@), family@),
{
    proof {
        assert(texts(listed@).len() == listed@.len());
    }
    if listed.len() > 0 {
        return copy_names(listed);
    }
    let f = chars_of(family);
    if find_char(f.as_slice(), ',') < f.len() {
        return parse_font_list(family);
    }
    let mut v = default_ransom_fonts();
    if f.len() > 0 {
        let known = alike(v[0].as_str(), family) || alike(v[1].as_str(), family) || alike(
            v[2].as_str(),
            family,
        );
        proof {
            let s = standard_fonts();
            assert(texts(v@)[0] == v@[0]@ && texts(v@)[1] == v@[1]@ && texts(v@)[2] == v@[2]@);
            if known {
                let k: int = if lowered(s[0]) == lowered(family@) {
                    0
                } else if lowered(s[1]) == lowered(family@) {
                    1
                } else {
                    2
                };
                assert(lowered(s[k]) == lowered(family@));
            }
        }
        if !known {
            let ghost before = v@;
            v.insert(0, owned(family));
            proof {
                assert(texts(v@) =~= seq![family@] + texts(before));
            }
        }
    }
    v
}

// ---------------------------------------------------------------------------
// Choosing faces
// ---------------------------------------------------------------------------

/// What a face is good for.
#[derive(Debug, Clone, Copy, PartialEq, Eq, Structural)]
pub enum Face {
    /// Condensed black.
    Condensed,
    /// Round and heavy.
    Wide,
    /// Neither hairline nor narrow.
    Heavy,
    /// Has small letters.
    Small,
}

pub open spec fn serves(f: Seq<char>, face: Face) -> bool {
    let n = lowered(f);
    match face {
        Face::Condensed => occurs(n, "anton"@),
        Face::Wide => occurs(n, "titan"@) || occurs(n, "archivo"@),
        Face::Heavy => !(occurs(n, "playfair"@) || occurs(n, "abril"@)) && !occurs(n, "oswald"@),
        Face::Small => occurs(n, "archivo"@),
    }
}

fn does_serve(f: &str, face: Face) -> (r: bool)
    ensures
        r == serves(f@, face),
{
    let c = chars_of(f);
    let n = lower(c.as_slice());
    let s = n.as_slice();
    match face {
        Face::Condensed => has(s, "anton"),
        Face::Wide => has(s, "titan") || has(s, "archivo"),
        Face::Heavy => {
            let hairline = has(s, "playfair") || has(s, "abril");
            let narrow = has(s, "oswald");
            !hairline && !narrow
        },
        Face::Small => has(s, "archivo"),
    }
}

/// The families that serve, in order.
pub open spec fn serving(fonts: Seq<Seq<char>>, face: Face) -> Seq<Seq<char>>
    decreases fonts.len(),
{
    if fonts.len() == 0 {
        Seq::empty()
    } else {
        let before = serving(fonts.drop_last(), face);
        if serves(fonts.last(), face) {
            before.push(fonts.last())
        } else {
            before
        }
    }
}

fn families(fonts: &Vec<String>, face: Face) -> (r: Vec<String>)
    ensures
        texts(r@) == serving(texts(fonts@), face),
{
    let ghost fv = texts(fonts@);
    let mut out: Vec<String> = Vec::new();
    let mut i: usize = 0;
    proof {
        assert(fv.take(0) =~= Seq::empty());
        assert(texts(out@) =~= Seq::empty());
    }
    while i < fonts.len()
        invariant
            i <= fonts@.len(),
            fv == texts(fonts@),
            texts(out@) == serving(fv.take(i as int), face),
        decreases fonts@.len() - i,
    {
        proof {
            assert(fv.take(i + 1).last() == fonts@[i as int]@);
            assert(fv.take(i + 1).drop_last() =~= fv.take(i as int));
        }
        if does_serve(fonts[i].as_str(), face) {
            let ghost before = out@;
            out.push(fonts[i].clone());
            proof {
                assert(texts(out@) =~= texts(before).push(fonts@[i as int]@));
            }
        }
        i += 1;
    }
    proof {
        assert(fv.take(fonts@.len() as int) =~= fv);
    }
    out
}

/// The family at a hash, of a pool or else of all fonts.
pub open spec fn picked(pool: Seq<Seq<char>>, h: u32, all: Seq<Seq<char>>) -> Seq<char> {
    if pool.len() == 0 {
        all[h as int % all.len() as int]
    } else {
        pool[h as int % pool.len() as int]
    }
}

fn pick_from(pool: &Vec<String>, h: u32, all: &Vec<String>) -> (r: String)
    requires
        all@.len() > 0,
    ensures
        r@ == picked(texts(pool@), h, texts(all@)),
{
    proof {
        assert(texts(pool@).len() == pool@.len());
        assert(texts(all@).len() == all@.len());
    }
    if pool.len() == 0 {
        let k: usize = h as usize % all.len();
        all[k].clone()
    } else {
        let k: usize = h as usize % pool.len();
        pool[k].clone()
    }
}

/// Letters that go to a wide face: thin stems, which would vanish, and rounds.
pub open spec fn goes_wide(c: char) -> bool {
    c == 'i' || c == 'l' || c == 'j' || c == 'f' || c == 't' || c == '1' || c == 'o' || c == 'c' || c
        == 'd' || c == 'g' || c == 'q' || c == '0'
}

/// The family of a capital.
pub open spec fn cap_family(fonts: Seq<Seq<char>>, h: u32, lc: char) -> Seq<char> {
    let wide = serving(fonts, Face::Wide);
    let condensed = serving(fonts, Face::Condensed);
    if goes_wide(lc) && wide.len() > 0 {
        picked(wide, h, fonts)
    } else if condensed.len() > 0 {
        picked(condensed, h, fonts)
    } else {
        picked(serving(fonts, Face::Heavy), h, fonts)
    }
}

fn pick_cap_family(fonts: &Vec<String>, h: u32, lc: char) -> (r: String)
    requires
        fonts@.len() > 0,
    ensures
        r@ == cap_family(texts(fonts@), h, lc),
{
    let wide = families(fonts, Face::Wide);
    proof {
        assert(texts(wide@).len() == wide@.len());
    }
    if (lc == 'i' || lc == 'l' || lc == 'j' || lc == 'f' || lc == 't' || lc == '1' || lc == 'o' || lc
        == 'c' || lc == 'd' || lc == 'g' || lc == 'q' || lc == '0') && wide.len() > 0 {
        return pick_from(&wide, h, fonts);
    }
    let condensed = families(fonts, Face::Condensed);
    proof {
        assert(texts(condensed@).len() == condensed@.len());
    }
    if condensed.len() > 0 {
        return pick_from(&condensed, h, fonts);
    }
    let heavy = families(fonts, Face::Heavy);
    pick_from(&heavy, h, fonts)
}

/// The weight a family is set in.
pub open spec fn mix_weight(family: Seq<char>) -> u16 {
    let n = lowered(family);
    if occurs(n, "playfair"@) {
        900
    } else if occurs(n, "oswald"@) {
        700
    } else {
        400
    }
}

fn ransom_weight(family: &str) -> (r: u16)
    ensures
        r == mix_weight(family@),
{
    let c = chars_of(family);
    let n = lower(c.as_slice());
    if has(n.as_slice(), "playfair") {
        900
    } else if has(n.as_slice(), "oswald") {
        700
    } else {
        400
    }
}

// ---------------------------------------------------------------------------
// Hashing
// ---------------------------------------------------------------------------

/// The running hash of a text's bytes.
pub open spec fn byte_hash(b: Seq<u8>) -> u32
    decreases b.len(),
{
    if b.len() == 0 {
        2166136261
    } else {
        (byte_hash(b.drop_last()) ^ (b.last() as u32)).wrapping_mul(16777619)
    }
}

/// The hash that decides about letter `i` of a text.
pub open spec fn letter_hash(b: Seq<u8>, i: nat) -> u32 {
    (byte_hash(b) ^ ((i % 4294967296) as u32).wrapping_mul(0x9E3779B9)).wrapping_mul(16777619)
}

fn hash_bytes(b: &[u8]) -> (r: u32)
    ensures
        r == byte_hash(b@),
{
    let mut h: u32 = 2166136261;
    let mut i: usize = 0;
    proof {
        assert(b@.take(0) =~= Seq::empty());
    }
    while i < b.len()
        invariant
            i <= b@.len(),
            h == byte_hash(b@.take(i as int)),
        decreases b@.len() - i,
    {
        proof {
            assert(b@.take(i + 1).drop_last() =~= b@.take(i as int));
        }
        h = (h ^ (b[i] as u32)).wrapping_mul(16777619);
        i += 1;
    }
    proof {
        assert(b@.take(b@.len() as int) =~= b@);
    }
    h
}

pub fn ransom_hash(text: &str, i: usize) -> (r: u32)
    ensures
        r == letter_hash(text.spec_bytes(), i as nat),
{
    let h: u32 = hash_bytes(text.as_bytes());
    let k: u32 = (i as u64 % 4294967296) as u32;
    (h ^ k.wrapping_mul(0x9E3779B9)).wrapping_mul(16777619)
}

// ---------------------------------------------------------------------------
// The plan
// ---------------------------------------------------------------------------

/// Control characters, which are left out.
pub open spec fn control(c: char) -> bool {
    c <= '\u{1f}' || ('\u{7f}' <= c <= '\u{9f}')
}

/// The characters that are set, in order.
pub open spec fn visible(s: Seq<char>) -> Seq<char>
    decreases s.len(),
{
    if s.len() == 0 {
        Seq::empty()
    } else {
        let before = visible(s.drop_last());
        if control(s.last()) {
            before
        } else {
            before.push(s.last())
        }
    }
}

pub fn visible_chars(s: &[char]) -> (r: Vec<char>)
    ensures
        r@ == visible(s@),
{
    let mut out: Vec<char> = Vec::new();
    let mut i: usize = 0;
    proof {
        assert(s@.take(0) =~= Seq::empty());
    }
    while i < s.len()
        invariant
            i <= s@.len(),
            out@ == visible(s@.take(i as int)),
        decreases s@.len() - i,
    {
        proof {
            assert(s@.take(i + 1).drop_last() =~= s@.take(i as int));
        }
        let c = s[i];
        if !(c <= '\u{1f}' || ('\u{7f}' <= c && c <= '\u{9f}')) {
            out.push(c);
        }
        i += 1;
    }
    proof {
        assert(s@.take(s@.len() as int) =~= s@);
    }
    out
}

pub open spec fn upper_ascii(c: char) -> char {
    if 'a' <= c <= 'z' {
        ((c as u32 - 32) as u8) as char
    } else {
        c
    }
}

fn to_upper_ascii(c: char) -> (r: char)
    ensures
        r == upper_ascii(c),
{
    if 'a' <= c && c <= 'z' {
        ((c as u32 - 32) as u8) as char
    } else {
        c
    }
}

/// What is remembered from letter to letter.
#[derive(Debug, Clone, Copy, PartialEq, Eq, Structural)]
pub struct Rhythm {
    /// Small letters in a row.
    pub streak: u32,
    /// The next letter opens a word.
    pub word_start: bool,
}

/// One letter of the plan.
#[derive(Debug)]
pub struct RansomGlyph {
    pub ch: char,
    pub family: String,
    pub weight: u16,
    /// Size in hundredths of the base size.
    pub percent: u32,
    /// Vertical shift in pixels.
    pub dy: i32,
    pub hash: u32,
    /// Set as a small letter.
    pub lower: bool,
    /// A gap between words.
    pub space: bool,
}

pub struct GlyphView {
    pub ch: char,
    pub family: Seq<char>,
    pub weight: u16,
    pub percent: u32,
    pub dy: i32,
    pub hash: u32,
    pub lower: bool,
    pub space: bool,
}

impl View for RansomGlyph {
    type V = GlyphView;

    open spec fn view(&self) -> GlyphView {
        GlyphView {
            ch: self.ch,
            family: self.family@,
            weight: self.weight,
            percent: self.percent,
            dy: self.dy,
            hash: self.hash,
            lower: self.lower,
            space: self.space,
        }
    }
}

/// A letter is set small: inside a word, after fewer than two small letters, if
/// it is one of `a e o u`, a face has small letters, and its hash says so.
pub open spec fn small(s: Rhythm, c: char, h: u32, fonts: Seq<Seq<char>>) -> bool {
    let lc = lower_ascii(c);
    &&& !s.word_start
    &&& ascii_alpha(c)
    &&& s.streak < 2
    &&& serving(fonts, Face::Small).len() > 0
    &&& lc == 'a' || lc == 'e' || lc == 'o' || lc == 'u'
    &&& h / 65536 % 4 != 0
}

/// The size of a letter: small letters a little below, first letters a little
/// above, others about the base size.
pub open spec fn percent_of(lower: bool, s: Rhythm, h: u32) -> u32 {
    let k = h / 32;
    if lower {
        (88 + k % 5) as u32
    } else if s.word_start {
        (104 + k % 4) as u32
    } else {
        (98 + k % 5) as u32
    }
}

pub open spec fn shift_of(h: u32) -> i32 {
    ((h / 256 % 3) - 1) as i32
}

pub open spec fn gap_glyph(h: u32) -> GlyphView {
    GlyphView {
        ch: ' ',
        family: Seq::empty(),
        weight: 400,
        percent: 100,
        dy: 0,
        hash: h,
        lower: false,
        space: true,
    }
}

/// A letter as first chosen.
pub open spec fn drafted(s: Rhythm, c: char, h: u32, fonts: Seq<Seq<char>>) -> GlyphView {
    if white(c) {
        gap_glyph(h)
    } else {
        let lower = small(s, c, h, fonts);
        let family = if lower {
            serving(fonts, Face::Small)[0]
        } else {
            cap_family(fonts, h, lower_ascii(c))
        };
        GlyphView {
            ch: if !ascii_alpha(c) {
                c
            } else if lower {
                lower_ascii(c)
            } else {
                upper_ascii(c)
            },
            family,
            weight: mix_weight(family),
            percent: percent_of(lower, s, h),
            dy: shift_of(h),
            hash: h,
            lower,
            space: false,
        }
    }
}

/// Letters that are thin by nature.
pub open spec fn narrow(c: char) -> bool {
    c == 'I' || c == 'i' || c == 'l' || c == 'j' || c == 'J' || c == 't' || c == 'f' || c == 'r' || c
        == '1' || c == '\'' || c == ',' || c == '.'
}

/// A letter as it is set: one that came out too thin becomes a plain capital.
pub open spec fn settled_glyph(d: GlyphView, c: char, fonts: Seq<Seq<char>>, thin: bool) -> GlyphView {
    if d.space || narrow(d.ch) || !thin {
        d
    } else {
        let family = cap_family(fonts, d.hash, lower_ascii(c));
        GlyphView {
            ch: upper_ascii(c),
            family,
            weight: mix_weight(family),
            percent: 100,
            lower: false,
            ..d
        }
    }
}

/// What is remembered behind a letter.
pub open spec fn next_rhythm(s: Rhythm, g: GlyphView) -> Rhythm {
    if g.space {
        Rhythm { streak: 0, word_start: true }
    } else {
        Rhythm {
            streak: if g.lower {
                (s.streak + 1) as u32
            } else {
                0
            },
            word_start: false,
        }
    }
}

/// What is remembered behind the first `k` letters.
pub open spec fn rhythm(v: Seq<char>, b: Seq<u8>, fonts: Seq<Seq<char>>, thin: Seq<bool>, k: nat) -> Rhythm
    decreases k, 0nat,
{
    if k == 0 {
        Rhythm { streak: 0, word_start: true }
    } else {
        next_rhythm(
            rhythm(v, b, fonts, thin, (k - 1) as nat),
            glyph_at(v, b, fonts, thin, (k - 1) as nat),
        )
    }
}

/// Letter `i` of the plan.
pub open spec fn glyph_at(v: Seq<char>, b: Seq<u8>, fonts: Seq<Seq<char>>, thin: Seq<bool>, i: nat) -> GlyphView
    decreases i, 1nat,
{
    let h = letter_hash(b, i);
    settled_glyph(
        drafted(rhythm(v, b, fonts, thin, i), v[i as int], h, fonts),
        v[i as int],
        fonts,
        thin[i as int],
    )
}

/// The letters settled so far, and the next one to be measured.
#[derive(Debug)]
pub struct RansomPlan {
    pub glyphs: Vec<RansomGlyph>,
    pub next: Option<RansomGlyph>,
}

pub open spec fn or_standard(fonts: Seq<Seq<char>>) -> Seq<Seq<char>> {
    if fonts.len() == 0 {
        standard_fonts()
    } else {
        fonts
    }
}

fn small_now(s: Rhythm, c: char, h: u32, fonts: &Vec<String>, smalls: &Vec<String>) -> (r: bool)
    requires
        texts(smalls@) == serving(texts(fonts@), Face::Small),
    ensures
        r == small(s, c, h, texts(fonts@)),
{
    let lc = to_lower_ascii(c);
    proof {
        assert(texts(smalls@).len() == smalls@.len());
    }
    !s.word_start && is_alpha(c) && s.streak < 2 && smalls.len() > 0 && (lc == 'a' || lc == 'e' || lc == 'o'
        || lc == 'u') && h / 65536 % 4 != 0
}

fn draft(s: Rhythm, c: char, h: u32, fonts: &Vec<String>) -> (r: RansomGlyph)
    requires
        fonts@.len() > 0,
    ensures
        r@ == drafted(s, c, h, texts(fonts@)),
{
    if is_white(c) {
        return RansomGlyph {
            ch: ' ',
            family: String::new(),
            weight: 400,
            percent: 100,
            dy: 0,
            hash: h,
            lower: false,
            space: true,
        };
    }
    let smalls = families(fonts, Face::Small);
    proof {
        assert(texts(smalls@).len() == smalls@.len());
    }
    let lower = small_now(s, c, h, fonts, &smalls);
    let family = if lower {
        proof {
            assert(texts(smalls@)[0] == smalls@[0]@);
        }
        smalls[0].clone()
    } else {
        pick_cap_family(fonts, h, to_lower_ascii(c))
    };
    let weight: u16 = ransom_weight(family.as_str());
    let ch = if !is_alpha(c) {
        c
    } else if lower {
        to_lower_ascii(c)
    } else {
        to_upper_ascii(c)
    };
    let k: u32 = h / 32;
    let percent: u32 = if lower {
        88 + k % 5
    } else if s.word_start {
        104 + k % 4
    } else {
        98 + k % 5
    };
    let dy: i32 = (h / 256 % 3) as i32 - 1;
    RansomGlyph { ch, family, weight, percent, dy, hash: h, lower, space: false }
}

fn is_narrow(c: char) -> (r: bool)
    ensures
        r == narrow(c),
{
    c == 'I' || c == 'i' || c == 'l' || c == 'j' || c == 'J' || c == 't' || c == 'f' || c == 'r' || c
        == '1' || c == '\'' || c == ',' || c == '.'
}

fn settle(d: RansomGlyph, c: char, fonts: &Vec<String>, thin: bool) -> (r: RansomGlyph)
    requires
        fonts@.len() > 0,
    ensures
        r@ == settled_glyph(d@, c, texts(fonts@), thin),
{
    if d.space || is_narrow(d.ch) || !thin {
        return d;
    }
    let family = pick_cap_family(fonts, d.hash, to_lower_ascii(c));
    let weight: u16 = ransom_weight(family.as_str());
    RansomGlyph {
        ch: to_upper_ascii(c),
        family,
        weight,
        percent: 100,
        dy: d.dy,
        hash: d.hash,
        lower: false,
        space: false,
    }
}

proof fn lemma_small_has_room(s: Rhythm, c: char, h: u32, fonts: Seq<Seq<char>>, thin: bool)
    ensures
        settled_glyph(drafted(s, c, h, fonts), c, fonts, thin).lower ==> s.streak < 2,
{
}

fn remember(s: Rhythm, g: &RansomGlyph) -> (r: Rhythm)
    requires
        g.lower ==> s.streak < 2,
    ensures
        r == next_rhythm(s, g@),
        s.streak <= 2 ==> r.streak <= 2,
{
    if g.space {
        Rhythm { streak: 0, word_start: true }
    } else {
        let streak: u32 = if g.lower {
            s.streak + 1
        } else {
            0
        };
        Rhythm { streak, word_start: false }
    }
}

/// Plan the letters of a text. `thin` tells of the letters measured so far which
/// came out too thin; the letter behind them, if there is one, is the next to
/// measure.
pub fn plan_ransom(text: &str, fonts: &Vec<String>, thin: &Vec<bool>) -> (r: RansomPlan)
    ensures
        ({
            let v = visible(text@);
            let b = text.spec_bytes();
            let f = or_standard(texts(fonts@));
            let n = if thin@.len() < v.len() {
                thin@.len()
            } else {
                v.len()
            };
            &&& r.glyphs@.len() == n
            &&& forall|i: int|
                0 <= i < n ==> (#[trigger] r.glyphs@[i])@ == glyph_at(v, b, f, thin@, i as nat)
            &&& r.next is Some <==> n < v.len()
            &&& r.next matches Some(g) ==> g@ == drafted(
                rhythm(v, b, f, thin@, n),
                v[n as int],
                letter_hash(b, n),
                f,
            )
        }),
{
    let given = copy_names(fonts);
    proof {
        assert(texts(fonts@).len() == fonts@.len());
    }
    let faces = if given.len() == 0 {
        default_ransom_fonts()
    } else {
        given
    };
    let ghost f = or_standard(texts(fonts@));
    proof {
        assert(texts(faces@) == f);
    }
    let c = chars_of(text);
    let v = visible_chars(c.as_slice());
    let ghost b = text.spec_bytes();
    let mut glyphs: Vec<RansomGlyph> = Vec::new();
    let mut s = Rhythm { streak: 0, word_start: true };
    let mut i: usize = 0;
    while i < v.len() && i < thin.len()
        invariant
            i <= v@.len(),
            i <= thin@.len(),
            faces@.len() > 0,
            v@ == visible(text@),
            b == text.spec_bytes(),
            texts(faces@) == f,
            s == rhythm(v@, b, f, thin@, i as nat),
            s.streak <= 2,
            glyphs@.len() == i,
            forall|k: int|
                0 <= k < i ==> (#[trigger] glyphs@[k])@ == glyph_at(v@, b, f, thin@, k as nat),
        decreases v@.len() - i,
    {
        let h: u32 = ransom_hash(text, i);
        let d = draft(s, v[i], h, &faces);
        let g = settle(d, v[i], &faces, thin[i]);
        proof {
            lemma_small_has_room(s, v@[i as int], h, f, thin@[i as int]);
            assert(g@ == glyph_at(v@, b, f, thin@, i as nat));
        }
        s = remember(s, &g);
        glyphs.push(g);
        i += 1;
    }
    if i < v.len() {
        let h: u32 = ransom_hash(text, i);
        let d = draft(s, v[i], h, &faces);
        RansomPlan { glyphs, next: Some(d) }
    } else {
        RansomPlan { glyphs, next: None }
    }
}

/// The first letter of a text is never set small.
pub proof fn first_letter_is_large(v: Seq<char>, b: Seq<u8>, fonts: Seq<Seq<char>>, thin: Seq<bool>)
    ensures
        !glyph_at(v, b, fonts, thin, 0).lower,
{
}

/// A letter set small has a face with small letters, unless a thin one was
/// replaced, and then it is a capital.
pub proof fn small_letters_have_a_face(
    v: Seq<char>,
    b: Seq<u8>,
    fonts: Seq<Seq<char>>,
    thin: Seq<bool>,
    i: nat,
)
    requires
        glyph_at(v, b, fonts, thin, i).lower,
    ensures
        serves(glyph_at(v, b, fonts, thin, i).family, Face::Small),
{
    lemma_serving(fonts, Face::Small);
    assert(serving(fonts, Face::Small).len() > 0);
    assert(serves(serving(fonts, Face::Small)[0], Face::Small));
}

proof fn lemma_serving(fonts: Seq<Seq<char>>, face: Face)
    ensures
        forall|k: int|
            0 <= k < serving(fonts, face).len() ==> serves(#[trigger] serving(fonts, face)[k], face),
    decreases fonts.len(),
{
    if fonts.len() > 0 {
        let d = fonts.drop_last();
        lemma_serving(d, face);
        let all = serving(fonts, face);
        assert forall|k: int| 0 <= k < all.len() implies serves(#[trigger] all[k], face) by {
            if k < serving(d, face).len() {
                assert(all[k] == serving(d, face)[k]);
            }
        }
    }
}

/// No letter is set below 88 or above 107 hundredths of the base size.
pub proof fn sizes_stay_in_band(
    v: Seq<char>,
    b: Seq<u8>,
    fonts: Seq<Seq<char>>,
    thin: Seq<bool>,
    i: nat,
)
    ensures
        88 <= glyph_at(v, b, fonts, thin, i).percent <= 107,
{
}

/// At most two small letters stand in a row.
pub proof fn streaks_are_short(
    v: Seq<char>,
    b: Seq<u8>,
    fonts: Seq<Seq<char>>,
    thin: Seq<bool>,
    k: nat,
)
    ensures
        rhythm(v, b, fonts, thin, k).streak <= 2,
    decreases k,
{
    if k > 0 {
        let p = (k - 1) as nat;
        streaks_are_short(v, b, fonts, thin, p);
        lemma_small_has_room(
            rhythm(v, b, fonts, thin, p),
            v[p as int],
            letter_hash(b, p),
            fonts,
            thin[p as int],
        );
        let before = rhythm(v, b, fonts, thin, p);
        let g = glyph_at(v, b, fonts, thin, p);
        assert(g == settled_glyph(
            drafted(before, v[p as int], letter_hash(b, p), fonts),
            v[p as int],
            fonts,
            thin[p as int],
        ));
        assert(rhythm(v, b, fonts, thin, k) == next_rhythm(before, g));
    }
}

// ---------------------------------------------------------------------------
// Pixels
// ---------------------------------------------------------------------------

/// How much of a glyph's pixel shows: its coverage under the text's alpha.
pub open spec fn ink(coverage: u8, alpha: u8) -> int {
    coverage * alpha / 255
}

/// The premultiplied pixel that a covered spot gets; none where nothing shows.
/// A hard cut keeps only the dense part of a glyph, and that fully opaque.
pub open spec fn ink_pixel(pass: Color, coverage: u8, alpha: u8, hard_cut: bool) -> Option<Color> {
    let a = ink(coverage, alpha);
    if a == 0 || (hard_cut && a < 64) {
        None
    } else if hard_cut {
        Some((pass.0, pass.1, pass.2, 255))
    } else {
        Some(
            (
                (pass.0 * a / 255) as u8,
                (pass.1 * a / 255) as u8,
                (pass.2 * a / 255) as u8,
                a as u8,
            ),
        )
    }
}

proof fn lemma_ink(x: u8, y: u8)
    ensures
        0 <= x * y / 255 <= y,
        x * y <= 65025,
{
    let a = x as int;
    let b = y as int;
    assert(0 <= a * b <= 255 * b) by (nonlinear_arith)
        requires
            0 <= a <= 255,
            0 <= b,
    ;
}

/// The pixel for a covered spot of a glyph.
pub fn glyph_pixel(pass: Color, coverage: u8, alpha: u8, hard_cut: bool) -> (r: Option<Color>)
    ensures
        r == ink_pixel(pass, coverage, alpha, hard_cut),
        r matches Some(p) ==> p.0 <= p.3 && p.1 <= p.3 && p.2 <= p.3,
{
    proof {
        lemma_ink(coverage, alpha);
    }
    let a: u32 = coverage as u32 * alpha as u32 / 255;
    if a == 0 || (hard_cut && a < 64) {
        return None;
    }
    if hard_cut {
        return Some((pass.0, pass.1, pass.2, 255));
    }
    let b: u8 = a as u8;
    proof {
        lemma_ink(pass.0, b);
        lemma_ink(pass.1, b);
        lemma_ink(pass.2, b);
    }
    Some(
        (
            (pass.0 as u32 * a / 255) as u8,
            (pass.1 as u32 * a / 255) as u8,
            (pass.2 as u32 * a / 255) as u8,
            b,
        ),
    )
}

/// The position of a spot in an image of rows, none outside it.
pub open spec fn spot(x: i32, y: i32, width: u32, height: u32) -> Option<int> {
    if 0 <= x < width && 0 <= y < height {
        Some(y * width + x)
    } else {
        None
    }
}

/// Find a spot in an image of rows.
pub fn spot_index(x: i32, y: i32, width: u32, height: u32) -> (r: Option<u64>)
    ensures
        r is Some <==> spot(x, y, width, height) is Some,
        r matches Some(i) ==> spot(x, y, width, height) == Some(i as int),
        r matches Some(i) ==> i < width * height,
{
    if x < 0 || y < 0 || x as i64 >= width as i64 || y as i64 >= height as i64 {
        return None;
    }
    proof {
        let w = width as int;
        let h = height as int;
        let a = x as int;
        let b = y as int;
        assert(b * w + a < w * h) by (nonlinear_arith)
            requires
                0 <= a < w,
                0 <= b < h,
        ;
        assert(0 <= b * w) by (nonlinear_arith)
            requires
                0 <= b,
                0 <= w,
        ;
        assert(w * h <= 4294967295 * 4294967295) by (nonlinear_arith)
            requires
                0 <= w <= 4294967295,
                0 <= h <= 4294967295,
        ;
    }
    Some(y as u64 * width as u64 + x as u64)
}

} // verus!
