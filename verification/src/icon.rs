//! Where an icon's image file may lie.
//!
//! A name is looked up in the icon directories of the user and the system:
//! loose files first, then the common themes at usable sizes. Raster images
//! come before vector ones.
use crate::path::{below, join_path};
use crate::text::{
    append_str, chars_of, ends_with_str, has_suffix, split_char, split_on, string_of, texts,
    to_vec, trim, trimmed, views,
};
use crate::theme::owned;
use vstd::prelude::*;

verus! {

/// A path below a directory; an absolute one stands for itself.
pub open spec fn joined_path(dir: Seq<char>, p: Seq<char>) -> Seq<char> {
    if p.len() > 0 && p[0] == '/' {
        p
    } else {
        below(dir, p)
    }
}

fn join_any(dir: &str, p: &str) -> (r: String)
    ensures
        r@ == joined_path(dir@, p@),
{
    let c = chars_of(p);
    if c.len() > 0 && c[0] == '/' {
        owned(p)
    } else {
        join_path(dir, p)
    }
}

/// Without a suffix, however often it stands at the back.
pub open spec fn without_suffix(s: Seq<char>, suffix: Seq<char>) -> Seq<char>
    decreases s.len(),
{
    if suffix.len() > 0 && has_suffix(s, suffix) {
        without_suffix(s.take(s.len() - suffix.len()), suffix)
    } else {
        s
    }
}

fn drop_suffix(s: Vec<char>, suffix: &str) -> (r: Vec<char>)
    requires
        suffix@.len() > 0,
    ensures
        r@ == without_suffix(s@, suffix@),
{
    let l = chars_of(suffix);
    let k: usize = l.len();
    let mut v = s;
    while ends_with_str(v.as_slice(), suffix)
        invariant
            k == suffix@.len(),
            k > 0,
            without_suffix(s@, suffix@) == without_suffix(v@, suffix@),
        decreases v@.len(),
    {
        let ghost before = v@;
        let n: usize = v.len();
        v.truncate(n - k);
        proof {
            assert(v@ =~= before.take(n - k));
        }
    }
    v
}

/// An icon name without the extensions of image files.
pub open spec fn icon_stem(name: Seq<char>) -> Seq<char> {
    without_suffix(without_suffix(without_suffix(name, ".png"@), ".svg"@), ".xpm"@)
}

/// The directories that are searched.
pub open spec fn icon_dirs(home: Option<Seq<char>>, data: Option<Seq<char>>) -> Seq<Seq<char>> {
    home_dirs(home) + data_dirs(
        split_on(
            match data {
                Some(d) => d,
                None => "/usr/local/share:/usr/share"@,
            },
            ':',
        ),
    ) + seq!["/usr/share/pixmaps"@, "/usr/share/icons"@]
}

pub open spec fn home_dirs(home: Option<Seq<char>>) -> Seq<Seq<char>> {
    match home {
        Some(h) => seq![below(h, ".local/share/icons"@), below(h, ".icons"@)],
        None => Seq::empty(),
    }
}

pub open spec fn data_dirs(parts: Seq<Seq<char>>) -> Seq<Seq<char>>
    decreases parts.len(),
{
    if parts.len() == 0 {
        Seq::empty()
    } else {
        let before = data_dirs(parts.drop_last());
        let d = parts.last();
        if d.len() == 0 {
            before
        } else {
            before + seq![below(d, "icons"@), below(d, "pixmaps"@)]
        }
    }
}

fn push_text(v: &mut Vec<String>, s: String)
    ensures
        texts(final(v)@) == texts(old(v)@).push(s@),
{
    let ghost before = v@;
    v.push(s);
    proof {
        assert(texts(v@) =~= texts(before).push(s@));
    }
}

fn search_dirs(home: Option<&str>, data: Option<&str>) -> (r: Vec<String>)
    ensures
        texts(r@) == icon_dirs(crate::desktop::opt_str(home), crate::desktop::opt_str(data)),
{
    let mut v: Vec<String> = Vec::new();
    proof {
        assert(texts(v@) =~= Seq::empty());
    }
    match home {
        Some(h) => {
            push_text(&mut v, join_path(h, ".local/share/icons"));
            push_text(&mut v, join_path(h, ".icons"));
        },
        None => {},
    }
    let ghost own = home_dirs(crate::desktop::opt_str(home));
    assert(texts(v@) =~= own);
    let list = match data {
        Some(d) => d,
        None => "/usr/local/share:/usr/share",
    };
    let c = chars_of(list);
    let parts = split_char(c.as_slice(), ':');
    let ghost pv = views(parts@);
    let mut i: usize = 0;
    proof {
        assert(pv.take(0) =~= Seq::empty());
        assert(own + data_dirs(pv.take(0)) =~= own);
    }
    while i < parts.len()
        invariant
            i <= parts@.len(),
            pv == views(parts@),
            texts(v@) == own + data_dirs(pv.take(i as int)),
        decreases parts@.len() - i,
    {
        proof {
            assert(pv.take(i + 1).last() == parts@[i as int]@);
            assert(pv.take(i + 1).drop_last() =~= pv.take(i as int));
        }
        if parts[i].len() > 0 {
            let d = string_of(parts[i].as_slice());
            let ghost before = texts(v@);
            push_text(&mut v, join_path(d.as_str(), "icons"));
            push_text(&mut v, join_path(d.as_str(), "pixmaps"));
            proof {
                assert(texts(v@) =~= own + (data_dirs(pv.take(i as int)) + seq![
                    below(d@, "icons"@),
                    below(d@, "pixmaps"@),
                ]));
            }
        }
        i += 1;
    }
    proof {
        assert(pv.take(parts@.len() as int) =~= pv);
    }
    let ghost before = texts(v@);
    push_text(&mut v, owned("/usr/share/pixmaps"));
    push_text(&mut v, owned("/usr/share/icons"));
    proof {
        assert(texts(v@) =~= before + seq!["/usr/share/pixmaps"@, "/usr/share/icons"@]);
    }
    v
}

pub open spec fn theme_name(k: int) -> Seq<char> {
    if k == 0 {
        "hicolor"@
    } else if k == 1 {
        "Adwaita"@
    } else if k == 2 {
        "Papirus"@
    } else if k == 3 {
        "breeze"@
    } else {
        "elementary"@
    }
}

pub open spec fn size_name(k: int) -> Seq<char> {
    if k == 0 {
        "48x48"@
    } else if k == 1 {
        "32x32"@
    } else if k == 2 {
        "64x64"@
    } else if k == 3 {
        "128x128"@
    } else if k == 4 {
        "24x24"@
    } else if k == 5 {
        "256x256"@
    } else {
        "scalable"@
    }
}

pub open spec fn folder_name(k: int) -> Seq<char> {
    if k == 0 {
        "apps"@
    } else if k == 1 {
        "places"@
    } else if k == 2 {
        "mimetypes"@
    } else if k == 3 {
        "devices"@
    } else {
        "actions"@
    }
}

fn theme_str(k: usize) -> (r: &'static str)
    ensures
        r@ == theme_name(k as int),
{
    if k == 0 {
        "hicolor"
    } else if k == 1 {
        "Adwaita"
    } else if k == 2 {
        "Papirus"
    } else if k == 3 {
        "breeze"
    } else {
        "elementary"
    }
}

fn size_str(k: usize) -> (r: &'static str)
    ensures
        r@ == size_name(k as int),
{
    if k == 0 {
        "48x48"
    } else if k == 1 {
        "32x32"
    } else if k == 2 {
        "64x64"
    } else if k == 3 {
        "128x128"
    } else if k == 4 {
        "24x24"
    } else if k == 5 {
        "256x256"
    } else {
        "scalable"
    }
}

fn folder_str(k: usize) -> (r: &'static str)
    ensures
        r@ == folder_name(k as int),
{
    if k == 0 {
        "apps"
    } else if k == 1 {
        "places"
    } else if k == 2 {
        "mimetypes"
    } else if k == 3 {
        "devices"
    } else {
        "actions"
    }
}

/// The `k`th place within the themes of a directory: by theme, then size, then
/// folder.
pub open spec fn themed_path(dir: Seq<char>, file: Seq<char>, k: int) -> Seq<char> {
    joined_path(
        below(below(below(dir, theme_name(k / 35)), size_name(k / 5 % 7)), folder_name(k % 5)),
        file,
    )
}

/// All places of a file within one directory: loose, then in the themes.
pub open spec fn dir_paths(dir: Seq<char>, file: Seq<char>) -> Seq<Seq<char>> {
    seq![joined_path(dir, file)] + Seq::new(175, |k: int| themed_path(dir, file, k))
}

/// All places of a file within the directories.
pub open spec fn named_paths(dirs: Seq<Seq<char>>, file: Seq<char>) -> Seq<Seq<char>>
    decreases dirs.len(),
{
    if dirs.len() == 0 {
        Seq::empty()
    } else {
        named_paths(dirs.drop_last(), file) + dir_paths(dirs.last(), file)
    }
}

/// All places where the image of an icon may lie, best first.
pub open spec fn icon_paths(name: Seq<char>, home: Option<Seq<char>>, data: Option<Seq<char>>) -> Seq<
    Seq<char>,
> {
    let n = trimmed(name);
    let dirs = icon_dirs(home, data);
    let stem = icon_stem(n);
    if n.len() == 0 {
        Seq::empty()
    } else {
        (if n[0] == '/' {
            seq![n]
        } else {
            Seq::empty()
        }) + named_paths(dirs, stem + ".png"@) + named_paths(dirs, stem + ".svg"@)
    }
}

fn push_dir(out: &mut Vec<String>, dir: &str, file: &str)
    ensures
        texts(final(out)@) == texts(old(out)@) + dir_paths(dir@, file@),
{
    let ghost start = texts(out@);
    push_text(out, join_any(dir, file));
    let mut k: usize = 0;
    let ghost all = dir_paths(dir@, file@);
    proof {
        assert(texts(out@) =~= start + all.take(1));
    }
    while k < 175
        invariant
            k <= 175,
            all == dir_paths(dir@, file@),
            texts(out@) == start + all.take(k + 1),
        decreases 175 - k,
    {
        let a = join_path(dir, theme_str(k / 35));
        let b = join_path(a.as_str(), size_str(k / 5 % 7));
        let c = join_path(b.as_str(), folder_str(k % 5));
        push_text(out, join_any(c.as_str(), file));
        proof {
            assert(all[k + 1] == themed_path(dir@, file@, k as int));
            assert(start + all.take(k + 2) =~= (start + all.take(k + 1)).push(all[k + 1]));
        }
        k += 1;
    }
    proof {
        assert(all.take(176) =~= all);
    }
}

fn push_named(out: &mut Vec<String>, dirs: &Vec<String>, file: &str)
    ensures
        texts(final(out)@) == texts(old(out)@) + named_paths(texts(dirs@), file@),
{
    let ghost start = texts(out@);
    let ghost dv = texts(dirs@);
    let mut i: usize = 0;
    proof {
        assert(dv.take(0) =~= Seq::empty());
        assert(start + named_paths(dv.take(0), file@) =~= start);
    }
    while i < dirs.len()
        invariant
            i <= dirs@.len(),
            dv == texts(dirs@),
            texts(out@) == start + named_paths(dv.take(i as int), file@),
        decreases dirs@.len() - i,
    {
        proof {
            assert(dv.take(i + 1).last() == dirs@[i as int]@);
            assert(dv.take(i + 1).drop_last() =~= dv.take(i as int));
        }
        let ghost before = texts(out@);
        push_dir(out, dirs[i].as_str(), file);
        proof {
            let a = named_paths(dv.take(i as int), file@);
            let b = dir_paths(dirs@[i as int]@, file@);
            assert((start + a) + b =~= start + (a + b));
        }
        i += 1;
    }
    proof {
        assert(dv.take(dirs@.len() as int) =~= dv);
    }
}

/// List the places where the image of an icon may lie, best first.
pub fn candidates(name: &str, home: Option<&str>, data: Option<&str>) -> (r: Vec<String>)
    ensures
        texts(r@) == icon_paths(name@, crate::desktop::opt_str(home), crate::desktop::opt_str(data)),
{
    let c = chars_of(name);
    let n = trim(c.as_slice());
    let mut out: Vec<String> = Vec::new();
    proof {
        assert(texts(out@) =~= Seq::empty());
    }
    if n.len() == 0 {
        return out;
    }
    if n[0] == '/' {
        push_text(&mut out, string_of(n));
        proof {
            assert(texts(out@) =~= seq![n@]);
        }
    }
    proof {
        reveal_strlit(".png");
        reveal_strlit(".svg");
        reveal_strlit(".xpm");
    }
    let stem = drop_suffix(drop_suffix(drop_suffix(to_vec(n), ".png"), ".svg"), ".xpm");
    let mut png = to_vec(stem.as_slice());
    append_str(&mut png, ".png");
    let mut svg = to_vec(stem.as_slice());
    append_str(&mut svg, ".svg");
    let png_file = string_of(png.as_slice());
    let svg_file = string_of(svg.as_slice());
    let dirs = search_dirs(home, data);
    push_named(&mut out, &dirs, png_file.as_str());
    push_named(&mut out, &dirs, svg_file.as_str());
    out
}

/// The first place that holds a file, nothing where none does.
pub open spec fn first_there(places: Seq<Seq<char>>, there: Seq<bool>) -> Seq<char>
    decreases places.len(),
{
    if places.len() == 0 || there.len() == 0 {
        Seq::empty()
    } else if there[0] {
        places[0]
    } else {
        first_there(places.skip(1), there.skip(1))
    }
}

/// The image file of an icon: the first of its places that holds a file, as
/// `there` tells of them in order. Empty where none does.
pub fn resolve(name: &str, home: Option<&str>, data: Option<&str>, there: &Vec<bool>) -> (r: String)
    ensures
        r@ == first_there(
            icon_paths(name@, crate::desktop::opt_str(home), crate::desktop::opt_str(data)),
            there@,
        ),
        trimmed(name@).len() == 0 ==> r@.len() == 0,
{
    let places = candidates(name, home, data);
    let ghost pv = texts(places@);
    let mut i: usize = 0;
    proof {
        assert(pv.skip(0) =~= pv);
        assert(there@.skip(0) =~= there@);
    }
    while i < places.len() && i < there.len()
        invariant
            i <= places@.len(),
            i <= there@.len(),
            pv == texts(places@),
            pv == icon_paths(
                name@,
                crate::desktop::opt_str(home),
                crate::desktop::opt_str(data),
            ),
            first_there(pv, there@) == first_there(pv.skip(i as int), there@.skip(i as int)),
        decreases places@.len() - i,
    {
        proof {
            assert(pv.skip(i as int).skip(1) =~= pv.skip(i + 1));
            assert(there@.skip(i as int).skip(1) =~= there@.skip(i + 1));
        }
        if there[i] {
            return places[i].clone();
        }
        i += 1;
    }
    String::new()
}

} // verus!
