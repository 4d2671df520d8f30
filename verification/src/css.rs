//! Color names of CSS.
use crate::color::Color;
use crate::text::eq_str;
use vstd::prelude::*;

verus! {

/// Names from `a` to `b`.
pub open spec fn css_a_to_b(n: Seq<char>) -> Option<Color> {
    if n == "aliceblue"@ {
        Some((240, 248, 255, 255))
    } else if n == "antiquewhite"@ {
        Some((250, 235, 215, 255))
    } else if n == "aqua"@ {
        Some((0, 255, 255, 255))
    } else if n == "aquamarine"@ {
        Some((127, 255, 212, 255))
    } else if n == "azure"@ {
        Some((240, 255, 255, 255))
    } else if n == "beige"@ {
        Some((245, 245, 220, 255))
    } else if n == "bisque"@ {
        Some((255, 228, 196, 255))
    } else if n == "black"@ {
        Some((0, 0, 0, 255))
    } else if n == "blanchedalmond"@ {
        Some((255, 235, 205, 255))
    } else if n == "blue"@ {
        Some((0, 0, 255, 255))
    } else if n == "blueviolet"@ {
        Some((138, 43, 226, 255))
    } else if n == "brown"@ {
        Some((165, 42, 42, 255))
    } else if n == "burlywood"@ {
        Some((222, 184, 135, 255))
    } else {
        None
    }
}

fn find_a_to_b(n: &[char]) -> (r: Option<Color>)
    ensures
        r == css_a_to_b(n@),
{
    if eq_str(n, "aliceblue") {
        Some((240, 248, 255, 255))
    } else if eq_str(n, "antiquewhite") {
        Some((250, 235, 215, 255))
    } else if eq_str(n, "aqua") {
        Some((0, 255, 255, 255))
    } else if eq_str(n, "aquamarine") {
        Some((127, 255, 212, 255))
    } else if eq_str(n, "azure") {
        Some((240, 255, 255, 255))
    } else if eq_str(n, "beige") {
        Some((245, 245, 220, 255))
    } else if eq_str(n, "bisque") {
        Some((255, 228, 196, 255))
    } else if eq_str(n, "black") {
        Some((0, 0, 0, 255))
    } else if eq_str(n, "blanchedalmond") {
        Some((255, 235, 205, 255))
    } else if eq_str(n, "blue") {
        Some((0, 0, 255, 255))
    } else if eq_str(n, "blueviolet") {
        Some((138, 43, 226, 255))
    } else if eq_str(n, "brown") {
        Some((165, 42, 42, 255))
    } else if eq_str(n, "burlywood") {
        Some((222, 184, 135, 255))
    } else {
        None
    }
}

/// Names with `c`.
pub open spec fn css_c(n: Seq<char>) -> Option<Color> {
    if n == "cadetblue"@ {
        Some((95, 158, 160, 255))
    } else if n == "chartreuse"@ {
        Some((127, 255, 0, 255))
    } else if n == "chocolate"@ {
        Some((210, 105, 30, 255))
    } else if n == "coral"@ {
        Some((255, 127, 80, 255))
    } else if n == "cornflowerblue"@ {
        Some((100, 149, 237, 255))
    } else if n == "cornsilk"@ {
        Some((255, 248, 220, 255))
    } else if n == "crimson"@ {
        Some((220, 20, 60, 255))
    } else if n == "cyan"@ {
        Some((0, 255, 255, 255))
    } else {
        None
    }
}

fn find_c(n: &[char]) -> (r: Option<Color>)
    ensures
        r == css_c(n@),
{
    if eq_str(n, "cadetblue") {
        Some((95, 158, 160, 255))
    } else if eq_str(n, "chartreuse") {
        Some((127, 255, 0, 255))
    } else if eq_str(n, "chocolate") {
        Some((210, 105, 30, 255))
    } else if eq_str(n, "coral") {
        Some((255, 127, 80, 255))
    } else if eq_str(n, "cornflowerblue") {
        Some((100, 149, 237, 255))
    } else if eq_str(n, "cornsilk") {
        Some((255, 248, 220, 255))
    } else if eq_str(n, "crimson") {
        Some((220, 20, 60, 255))
    } else if eq_str(n, "cyan") {
        Some((0, 255, 255, 255))
    } else {
        None
    }
}

/// Names that start with `dark`.
pub open spec fn css_dark(n: Seq<char>) -> Option<Color> {
    if n == "darkblue"@ {
        Some((0, 0, 139, 255))
    } else if n == "darkcyan"@ {
        Some((0, 139, 139, 255))
    } else if n == "darkgoldenrod"@ {
        Some((184, 134, 11, 255))
    } else if n == "darkgray"@ {
        Some((169, 169, 169, 255))
    } else if n == "darkgreen"@ {
        Some((0, 100, 0, 255))
    } else if n == "darkgrey"@ {
        Some((169, 169, 169, 255))
    } else if n == "darkkhaki"@ {
        Some((189, 183, 107, 255))
    } else if n == "darkmagenta"@ {
        Some((139, 0, 139, 255))
    } else if n == "darkolivegreen"@ {
        Some((85, 107, 47, 255))
    } else if n == "darkorange"@ {
        Some((255, 140, 0, 255))
    } else if n == "darkorchid"@ {
        Some((153, 50, 204, 255))
    } else if n == "darkred"@ {
        Some((139, 0, 0, 255))
    } else if n == "darksalmon"@ {
        Some((233, 150, 122, 255))
    } else if n == "darkseagreen"@ {
        Some((143, 188, 143, 255))
    } else if n == "darkslateblue"@ {
        Some((72, 61, 139, 255))
    } else if n == "darkslategray"@ {
        Some((47, 79, 79, 255))
    } else if n == "darkslategrey"@ {
        Some((47, 79, 79, 255))
    } else if n == "darkturquoise"@ {
        Some((0, 206, 209, 255))
    } else if n == "darkviolet"@ {
        Some((148, 0, 211, 255))
    } else {
        None
    }
}

fn find_dark(n: &[char]) -> (r: Option<Color>)
    ensures
        r == css_dark(n@),
{
    if eq_str(n, "darkblue") {
        Some((0, 0, 139, 255))
    } else if eq_str(n, "darkcyan") {
        Some((0, 139, 139, 255))
    } else if eq_str(n, "darkgoldenrod") {
        Some((184, 134, 11, 255))
    } else if eq_str(n, "darkgray") {
        Some((169, 169, 169, 255))
    } else if eq_str(n, "darkgreen") {
        Some((0, 100, 0, 255))
    } else if eq_str(n, "darkgrey") {
        Some((169, 169, 169, 255))
    } else if eq_str(n, "darkkhaki") {
        Some((189, 183, 107, 255))
    } else if eq_str(n, "darkmagenta") {
        Some((139, 0, 139, 255))
    } else if eq_str(n, "darkolivegreen") {
        Some((85, 107, 47, 255))
    } else if eq_str(n, "darkorange") {
        Some((255, 140, 0, 255))
    } else if eq_str(n, "darkorchid") {
        Some((153, 50, 204, 255))
    } else if eq_str(n, "darkred") {
        Some((139, 0, 0, 255))
    } else if eq_str(n, "darksalmon") {
        Some((233, 150, 122, 255))
    } else if eq_str(n, "darkseagreen") {
        Some((143, 188, 143, 255))
    } else if eq_str(n, "darkslateblue") {
        Some((72, 61, 139, 255))
    } else if eq_str(n, "darkslategray") {
        Some((47, 79, 79, 255))
    } else if eq_str(n, "darkslategrey") {
        Some((47, 79, 79, 255))
    } else if eq_str(n, "darkturquoise") {
        Some((0, 206, 209, 255))
    } else if eq_str(n, "darkviolet") {
        Some((148, 0, 211, 255))
    } else {
        None
    }
}

/// Other names from `d` to `g`.
pub open spec fn css_d_to_g(n: Seq<char>) -> Option<Color> {
    if n == "deeppink"@ {
        Some((255, 20, 147, 255))
    } else if n == "deepskyblue"@ {
        Some((0, 191, 255, 255))
    } else if n == "dimgray"@ {
        Some((105, 105, 105, 255))
    } else if n == "dimgrey"@ {
        Some((105, 105, 105, 255))
    } else if n == "dodgerblue"@ {
        Some((30, 144, 255, 255))
    } else if n == "firebrick"@ {
        Some((178, 34, 34, 255))
    } else if n == "floralwhite"@ {
        Some((255, 250, 240, 255))
    } else if n == "forestgreen"@ {
        Some((34, 139, 34, 255))
    } else if n == "fuchsia"@ {
        Some((255, 0, 255, 255))
    } else if n == "gainsboro"@ {
        Some((220, 220, 220, 255))
    } else if n == "ghostwhite"@ {
        Some((248, 248, 255, 255))
    } else if n == "gold"@ {
        Some((255, 215, 0, 255))
    } else if n == "goldenrod"@ {
        Some((218, 165, 32, 255))
    } else if n == "gray"@ {
        Some((128, 128, 128, 255))
    } else if n == "green"@ {
        Some((0, 128, 0, 255))
    } else if n == "greenyellow"@ {
        Some((173, 255, 47, 255))
    } else if n == "grey"@ {
        Some((128, 128, 128, 255))
    } else {
        None
    }
}

fn find_d_to_g(n: &[char]) -> (r: Option<Color>)
    ensures
        r == css_d_to_g(n@),
{
    if eq_str(n, "deeppink") {
        Some((255, 20, 147, 255))
    } else if eq_str(n, "deepskyblue") {
        Some((0, 191, 255, 255))
    } else if eq_str(n, "dimgray") {
        Some((105, 105, 105, 255))
    } else if eq_str(n, "dimgrey") {
        Some((105, 105, 105, 255))
    } else if eq_str(n, "dodgerblue") {
        Some((30, 144, 255, 255))
    } else if eq_str(n, "firebrick") {
        Some((178, 34, 34, 255))
    } else if eq_str(n, "floralwhite") {
        Some((255, 250, 240, 255))
    } else if eq_str(n, "forestgreen") {
        Some((34, 139, 34, 255))
    } else if eq_str(n, "fuchsia") {
        Some((255, 0, 255, 255))
    } else if eq_str(n, "gainsboro") {
        Some((220, 220, 220, 255))
    } else if eq_str(n, "ghostwhite") {
        Some((248, 248, 255, 255))
    } else if eq_str(n, "gold") {
        Some((255, 215, 0, 255))
    } else if eq_str(n, "goldenrod") {
        Some((218, 165, 32, 255))
    } else if eq_str(n, "gray") {
        Some((128, 128, 128, 255))
    } else if eq_str(n, "green") {
        Some((0, 128, 0, 255))
    } else if eq_str(n, "greenyellow") {
        Some((173, 255, 47, 255))
    } else if eq_str(n, "grey") {
        Some((128, 128, 128, 255))
    } else {
        None
    }
}

/// Names from `h` to `l`, but for the light ones.
pub open spec fn css_h_to_l(n: Seq<char>) -> Option<Color> {
    if n == "honeydew"@ {
        Some((240, 255, 240, 255))
    } else if n == "hotpink"@ {
        Some((255, 105, 180, 255))
    } else if n == "indianred"@ {
        Some((205, 92, 92, 255))
    } else if n == "indigo"@ {
        Some((75, 0, 130, 255))
    } else if n == "ivory"@ {
        Some((255, 255, 240, 255))
    } else if n == "khaki"@ {
        Some((240, 230, 140, 255))
    } else if n == "lavender"@ {
        Some((230, 230, 250, 255))
    } else if n == "lavenderblush"@ {
        Some((255, 240, 245, 255))
    } else if n == "lawngreen"@ {
        Some((124, 252, 0, 255))
    } else if n == "lemonchiffon"@ {
        Some((255, 250, 205, 255))
    } else if n == "lime"@ {
        Some((0, 255, 0, 255))
    } else if n == "limegreen"@ {
        Some((50, 205, 50, 255))
    } else if n == "linen"@ {
        Some((250, 240, 230, 255))
    } else {
        None
    }
}

fn find_h_to_l(n: &[char]) -> (r: Option<Color>)
    ensures
        r == css_h_to_l(n@),
{
    if eq_str(n, "honeydew") {
        Some((240, 255, 240, 255))
    } else if eq_str(n, "hotpink") {
        Some((255, 105, 180, 255))
    } else if eq_str(n, "indianred") {
        Some((205, 92, 92, 255))
    } else if eq_str(n, "indigo") {
        Some((75, 0, 130, 255))
    } else if eq_str(n, "ivory") {
        Some((255, 255, 240, 255))
    } else if eq_str(n, "khaki") {
        Some((240, 230, 140, 255))
    } else if eq_str(n, "lavender") {
        Some((230, 230, 250, 255))
    } else if eq_str(n, "lavenderblush") {
        Some((255, 240, 245, 255))
    } else if eq_str(n, "lawngreen") {
        Some((124, 252, 0, 255))
    } else if eq_str(n, "lemonchiffon") {
        Some((255, 250, 205, 255))
    } else if eq_str(n, "lime") {
        Some((0, 255, 0, 255))
    } else if eq_str(n, "limegreen") {
        Some((50, 205, 50, 255))
    } else if eq_str(n, "linen") {
        Some((250, 240, 230, 255))
    } else {
        None
    }
}

/// Names that start with `light`.
pub open spec fn css_light(n: Seq<char>) -> Option<Color> {
    if n == "lightblue"@ {
        Some((173, 216, 230, 255))
    } else if n == "lightcoral"@ {
        Some((240, 128, 128, 255))
    } else if n == "lightcyan"@ {
        Some((224, 255, 255, 255))
    } else if n == "lightgoldenrodyellow"@ {
        Some((250, 250, 210, 255))
    } else if n == "lightgray"@ {
        Some((211, 211, 211, 255))
    } else if n == "lightgreen"@ {
        Some((144, 238, 144, 255))
    } else if n == "lightgrey"@ {
        Some((211, 211, 211, 255))
    } else if n == "lightpink"@ {
        Some((255, 182, 193, 255))
    } else if n == "lightsalmon"@ {
        Some((255, 160, 122, 255))
    } else if n == "lightseagreen"@ {
        Some((32, 178, 170, 255))
    } else if n == "lightskyblue"@ {
        Some((135, 206, 250, 255))
    } else if n == "lightslategray"@ {
        Some((119, 136, 153, 255))
    } else if n == "lightslategrey"@ {
        Some((119, 136, 153, 255))
    } else if n == "lightsteelblue"@ {
        Some((176, 196, 222, 255))
    } else if n == "lightyellow"@ {
        Some((255, 255, 224, 255))
    } else {
        None
    }
}

fn find_light(n: &[char]) -> (r: Option<Color>)
    ensures
        r == css_light(n@),
{
    if eq_str(n, "lightblue") {
        Some((173, 216, 230, 255))
    } else if eq_str(n, "lightcoral") {
        Some((240, 128, 128, 255))
    } else if eq_str(n, "lightcyan") {
        Some((224, 255, 255, 255))
    } else if eq_str(n, "lightgoldenrodyellow") {
        Some((250, 250, 210, 255))
    } else if eq_str(n, "lightgray") {
        Some((211, 211, 211, 255))
    } else if eq_str(n, "lightgreen") {
        Some((144, 238, 144, 255))
    } else if eq_str(n, "lightgrey") {
        Some((211, 211, 211, 255))
    } else if eq_str(n, "lightpink") {
        Some((255, 182, 193, 255))
    } else if eq_str(n, "lightsalmon") {
        Some((255, 160, 122, 255))
    } else if eq_str(n, "lightseagreen") {
        Some((32, 178, 170, 255))
    } else if eq_str(n, "lightskyblue") {
        Some((135, 206, 250, 255))
    } else if eq_str(n, "lightslategray") {
        Some((119, 136, 153, 255))
    } else if eq_str(n, "lightslategrey") {
        Some((119, 136, 153, 255))
    } else if eq_str(n, "lightsteelblue") {
        Some((176, 196, 222, 255))
    } else if eq_str(n, "lightyellow") {
        Some((255, 255, 224, 255))
    } else {
        None
    }
}

/// Names from `m` to `o`.
pub open spec fn css_m_to_o(n: Seq<char>) -> Option<Color> {
    if n == "magenta"@ {
        Some((255, 0, 255, 255))
    } else if n == "maroon"@ {
        Some((128, 0, 0, 255))
    } else if n == "mediumaquamarine"@ {
        Some((102, 205, 170, 255))
    } else if n == "mediumblue"@ {
        Some((0, 0, 205, 255))
    } else if n == "mediumorchid"@ {
        Some((186, 85, 211, 255))
    } else if n == "mediumpurple"@ {
        Some((147, 112, 219, 255))
    } else if n == "mediumseagreen"@ {
        Some((60, 179, 113, 255))
    } else if n == "mediumslateblue"@ {
        Some((123, 104, 238, 255))
    } else if n == "mediumspringgreen"@ {
        Some((0, 250, 154, 255))
    } else if n == "mediumturquoise"@ {
        Some((72, 209, 204, 255))
    } else if n == "mediumvioletred"@ {
        Some((199, 21, 133, 255))
    } else if n == "midnightblue"@ {
        Some((25, 25, 112, 255))
    } else if n == "mintcream"@ {
        Some((245, 255, 250, 255))
    } else if n == "mistyrose"@ {
        Some((255, 228, 225, 255))
    } else if n == "moccasin"@ {
        Some((255, 228, 181, 255))
    } else if n == "navajowhite"@ {
        Some((255, 222, 173, 255))
    } else if n == "navy"@ {
        Some((0, 0, 128, 255))
    } else if n == "oldlace"@ {
        Some((253, 245, 230, 255))
    } else if n == "olive"@ {
        Some((128, 128, 0, 255))
    } else if n == "olivedrab"@ {
        Some((107, 142, 35, 255))
    } else if n == "orange"@ {
        Some((255, 165, 0, 255))
    } else if n == "orangered"@ {
        Some((255, 69, 0, 255))
    } else if n == "orchid"@ {
        Some((218, 112, 214, 255))
    } else {
        None
    }
}

fn find_m_to_o(n: &[char]) -> (r: Option<Color>)
    ensures
        r == css_m_to_o(n@),
{
    if eq_str(n, "magenta") {
        Some((255, 0, 255, 255))
    } else if eq_str(n, "maroon") {
        Some((128, 0, 0, 255))
    } else if eq_str(n, "mediumaquamarine") {
        Some((102, 205, 170, 255))
    } else if eq_str(n, "mediumblue") {
        Some((0, 0, 205, 255))
    } else if eq_str(n, "mediumorchid") {
        Some((186, 85, 211, 255))
    } else if eq_str(n, "mediumpurple") {
        Some((147, 112, 219, 255))
    } else if eq_str(n, "mediumseagreen") {
        Some((60, 179, 113, 255))
    } else if eq_str(n, "mediumslateblue") {
        Some((123, 104, 238, 255))
    } else if eq_str(n, "mediumspringgreen") {
        Some((0, 250, 154, 255))
    } else if eq_str(n, "mediumturquoise") {
        Some((72, 209, 204, 255))
    } else if eq_str(n, "mediumvioletred") {
        Some((199, 21, 133, 255))
    } else if eq_str(n, "midnightblue") {
        Some((25, 25, 112, 255))
    } else if eq_str(n, "mintcream") {
        Some((245, 255, 250, 255))
    } else if eq_str(n, "mistyrose") {
        Some((255, 228, 225, 255))
    } else if eq_str(n, "moccasin") {
        Some((255, 228, 181, 255))
    } else if eq_str(n, "navajowhite") {
        Some((255, 222, 173, 255))
    } else if eq_str(n, "navy") {
        Some((0, 0, 128, 255))
    } else if eq_str(n, "oldlace") {
        Some((253, 245, 230, 255))
    } else if eq_str(n, "olive") {
        Some((128, 128, 0, 255))
    } else if eq_str(n, "olivedrab") {
        Some((107, 142, 35, 255))
    } else if eq_str(n, "orange") {
        Some((255, 165, 0, 255))
    } else if eq_str(n, "orangered") {
        Some((255, 69, 0, 255))
    } else if eq_str(n, "orchid") {
        Some((218, 112, 214, 255))
    } else {
        None
    }
}

/// Names from `p` to `r`.
pub open spec fn css_p_to_r(n: Seq<char>) -> Option<Color> {
    if n == "palegoldenrod"@ {
        Some((238, 232, 170, 255))
    } else if n == "palegreen"@ {
        Some((152, 251, 152, 255))
    } else if n == "paleturquoise"@ {
        Some((175, 238, 238, 255))
    } else if n == "palevioletred"@ {
        Some((219, 112, 147, 255))
    } else if n == "papayawhip"@ {
        Some((255, 239, 213, 255))
    } else if n == "peachpuff"@ {
        Some((255, 218, 185, 255))
    } else if n == "peru"@ {
        Some((205, 133, 63, 255))
    } else if n == "pink"@ {
        Some((255, 192, 203, 255))
    } else if n == "plum"@ {
        Some((221, 160, 221, 255))
    } else if n == "powderblue"@ {
        Some((176, 224, 230, 255))
    } else if n == "purple"@ {
        Some((128, 0, 128, 255))
    } else if n == "rebeccapurple"@ {
        Some((102, 51, 153, 255))
    } else if n == "red"@ {
        Some((255, 0, 0, 255))
    } else if n == "rosybrown"@ {
        Some((188, 143, 143, 255))
    } else if n == "royalblue"@ {
        Some((65, 105, 225, 255))
    } else {
        None
    }
}

fn find_p_to_r(n: &[char]) -> (r: Option<Color>)
    ensures
        r == css_p_to_r(n@),
{
    if eq_str(n, "palegoldenrod") {
        Some((238, 232, 170, 255))
    } else if eq_str(n, "palegreen") {
        Some((152, 251, 152, 255))
    } else if eq_str(n, "paleturquoise") {
        Some((175, 238, 238, 255))
    } else if eq_str(n, "palevioletred") {
        Some((219, 112, 147, 255))
    } else if eq_str(n, "papayawhip") {
        Some((255, 239, 213, 255))
    } else if eq_str(n, "peachpuff") {
        Some((255, 218, 185, 255))
    } else if eq_str(n, "peru") {
        Some((205, 133, 63, 255))
    } else if eq_str(n, "pink") {
        Some((255, 192, 203, 255))
    } else if eq_str(n, "plum") {
        Some((221, 160, 221, 255))
    } else if eq_str(n, "powderblue") {
        Some((176, 224, 230, 255))
    } else if eq_str(n, "purple") {
        Some((128, 0, 128, 255))
    } else if eq_str(n, "rebeccapurple") {
        Some((102, 51, 153, 255))
    } else if eq_str(n, "red") {
        Some((255, 0, 0, 255))
    } else if eq_str(n, "rosybrown") {
        Some((188, 143, 143, 255))
    } else if eq_str(n, "royalblue") {
        Some((65, 105, 225, 255))
    } else {
        None
    }
}

/// Names from `s` to `y`.
pub open spec fn css_s_to_y(n: Seq<char>) -> Option<Color> {
    if n == "saddlebrown"@ {
        Some((139, 69, 19, 255))
    } else if n == "salmon"@ {
        Some((250, 128, 114, 255))
    } else if n == "sandybrown"@ {
        Some((244, 164, 96, 255))
    } else if n == "seagreen"@ {
        Some((46, 139, 87, 255))
    } else if n == "seashell"@ {
        Some((255, 245, 238, 255))
    } else if n == "sienna"@ {
        Some((160, 82, 45, 255))
    } else if n == "silver"@ {
        Some((192, 192, 192, 255))
    } else if n == "skyblue"@ {
        Some((135, 206, 235, 255))
    } else if n == "slateblue"@ {
        Some((106, 90, 205, 255))
    } else if n == "slategray"@ {
        Some((112, 128, 144, 255))
    } else if n == "slategrey"@ {
        Some((112, 128, 144, 255))
    } else if n == "snow"@ {
        Some((255, 250, 250, 255))
    } else if n == "springgreen"@ {
        Some((0, 255, 127, 255))
    } else if n == "steelblue"@ {
        Some((70, 130, 180, 255))
    } else if n == "tan"@ {
        Some((210, 180, 140, 255))
    } else if n == "teal"@ {
        Some((0, 128, 128, 255))
    } else if n == "thistle"@ {
        Some((216, 191, 216, 255))
    } else if n == "tomato"@ {
        Some((255, 99, 71, 255))
    } else if n == "turquoise"@ {
        Some((64, 224, 208, 255))
    } else if n == "violet"@ {
        Some((238, 130, 238, 255))
    } else if n == "wheat"@ {
        Some((245, 222, 179, 255))
    } else if n == "white"@ {
        Some((255, 255, 255, 255))
    } else if n == "whitesmoke"@ {
        Some((245, 245, 245, 255))
    } else if n == "yellow"@ {
        Some((255, 255, 0, 255))
    } else if n == "yellowgreen"@ {
        Some((154, 205, 50, 255))
    } else {
        None
    }
}

fn find_s_to_y(n: &[char]) -> (r: Option<Color>)
    ensures
        r == css_s_to_y(n@),
{
    if eq_str(n, "saddlebrown") {
        Some((139, 69, 19, 255))
    } else if eq_str(n, "salmon") {
        Some((250, 128, 114, 255))
    } else if eq_str(n, "sandybrown") {
        Some((244, 164, 96, 255))
    } else if eq_str(n, "seagreen") {
        Some((46, 139, 87, 255))
    } else if eq_str(n, "seashell") {
        Some((255, 245, 238, 255))
    } else if eq_str(n, "sienna") {
        Some((160, 82, 45, 255))
    } else if eq_str(n, "silver") {
        Some((192, 192, 192, 255))
    } else if eq_str(n, "skyblue") {
        Some((135, 206, 235, 255))
    } else if eq_str(n, "slateblue") {
        Some((106, 90, 205, 255))
    } else if eq_str(n, "slategray") {
        Some((112, 128, 144, 255))
    } else if eq_str(n, "slategrey") {
        Some((112, 128, 144, 255))
    } else if eq_str(n, "snow") {
        Some((255, 250, 250, 255))
    } else if eq_str(n, "springgreen") {
        Some((0, 255, 127, 255))
    } else if eq_str(n, "steelblue") {
        Some((70, 130, 180, 255))
    } else if eq_str(n, "tan") {
        Some((210, 180, 140, 255))
    } else if eq_str(n, "teal") {
        Some((0, 128, 128, 255))
    } else if eq_str(n, "thistle") {
        Some((216, 191, 216, 255))
    } else if eq_str(n, "tomato") {
        Some((255, 99, 71, 255))
    } else if eq_str(n, "turquoise") {
        Some((64, 224, 208, 255))
    } else if eq_str(n, "violet") {
        Some((238, 130, 238, 255))
    } else if eq_str(n, "wheat") {
        Some((245, 222, 179, 255))
    } else if eq_str(n, "white") {
        Some((255, 255, 255, 255))
    } else if eq_str(n, "whitesmoke") {
        Some((245, 245, 245, 255))
    } else if eq_str(n, "yellow") {
        Some((255, 255, 0, 255))
    } else if eq_str(n, "yellowgreen") {
        Some((154, 205, 50, 255))
    } else {
        None
    }
}

/// The color of a name in lower case.
pub open spec fn css_color(n: Seq<char>) -> Option<Color> {
    match css_a_to_b(n) {
        Some(c) => Some(c),
        None => match css_c(n) {
            Some(c) => Some(c),
            None => match css_dark(n) {
                Some(c) => Some(c),
                None => match css_d_to_g(n) {
                    Some(c) => Some(c),
                    None => match css_h_to_l(n) {
                        Some(c) => Some(c),
                        None => match css_light(n) {
                            Some(c) => Some(c),
                            None => match css_m_to_o(n) {
                                Some(c) => Some(c),
                                None => match css_p_to_r(n) {
                                    Some(c) => Some(c),
                                    None => css_s_to_y(n),
                                },
                            },
                        },
                    },
                },
            },
        },
    }
}

/// Find the color of a name in lower case.
pub fn find_css_color(n: &[char]) -> (r: Option<Color>)
    ensures
        r == css_color(n@),
{
    match find_a_to_b(n) {
        Some(c) => Some(c),
        None => match find_c(n) {
            Some(c) => Some(c),
            None => match find_dark(n) {
                Some(c) => Some(c),
                None => match find_d_to_g(n) {
                    Some(c) => Some(c),
                    None => match find_h_to_l(n) {
                        Some(c) => Some(c),
                        None => match find_light(n) {
                            Some(c) => Some(c),
                            None => match find_m_to_o(n) {
                                Some(c) => Some(c),
                                None => match find_p_to_r(n) {
                                    Some(c) => Some(c),
                                    None => find_s_to_y(n),
                                },
                            },
                        },
                    },
                },
            },
        },
    }
}

} // verus!
