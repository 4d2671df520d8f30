//! The parts of a slash-separated path that names are taken from.
use crate::ask::opt_chars;
use crate::text::{append_str, chars_of, eq_str, split_char, split_on, string_of, to_vec, views};
use vstd::prelude::*;
use vstd::slice::slice_subrange;

verus! {

/// A path component that names something: not empty and not `.`.
pub open spec fn names_something(part: Seq<char>) -> bool {
    part.len() > 0 && part != "."@
}

/// The last of the components that name something.
pub open spec fn last_named(parts: Seq<Seq<char>>) -> Option<Seq<char>>
    decreases parts.len(),
{
    if parts.len() == 0 {
        None
    } else if names_something(parts.last()) {
        Some(parts.last())
    } else {
        last_named(parts.drop_last())
    }
}

/// The final component of a path, unless it is `..` or there is none.
pub open spec fn file_name_of(path: Seq<char>) -> Option<Seq<char>> {
    match last_named(split_on(path, '/')) {
        Some(p) => if p == ".."@ {
            None
        } else {
            Some(p)
        },
        None => None,
    }
}

pub fn file_name(path: &[char]) -> (r: Option<Vec<char>>)
    ensures
        opt_chars(r) == file_name_of(path@),
{
    let parts = split_char(path, '/');
    let ghost pv = views(parts@);
    let mut n: usize = parts.len();
    proof {
        assert(pv.take(n as int) =~= pv);
    }
    while n > 0
        invariant
            n <= parts@.len(),
            pv == views(parts@),
            last_named(pv) == last_named(pv.take(n as int)),
            pv == split_on(path@, '/'),
        decreases n,
    {
        let part = parts[n - 1].as_slice();
        proof {
            assert(pv.take(n as int).last() == part@);
            assert(pv.take(n as int).drop_last() =~= pv.take(n - 1));
        }
        if part.len() > 0 && !eq_str(part, ".") {
            if eq_str(part, "..") {
                return None;
            }
            return Some(to_vec(part));
        }
        n -= 1;
    }
    None
}

/// The position of the last dot, or the length where there is none.
pub open spec fn last_dot(s: Seq<char>) -> nat
    decreases s.len(),
{
    if s.len() == 0 {
        0
    } else if s.last() == '.' {
        (s.len() - 1) as nat
    } else {
        let k = last_dot(s.drop_last());
        if k == s.len() - 1 {
            s.len()
        } else {
            k
        }
    }
}

/// The extension of a path: what follows the last dot of its file name, if the
/// dot is not its first character.
pub open spec fn extension_of(path: Seq<char>) -> Option<Seq<char>> {
    match file_name_of(path) {
        None => None,
        Some(name) => {
            let k = last_dot(name);
            if 0 < k < name.len() {
                Some(name.skip(k as int + 1))
            } else {
                None
            }
        },
    }
}

proof fn lemma_last_dot(s: Seq<char>)
    ensures
        last_dot(s) <= s.len(),
        last_dot(s) < s.len() ==> s[last_dot(s) as int] == '.',
        forall|i: int| last_dot(s) < i < s.len() ==> s[i] != '.',
        last_dot(s) == s.len() ==> forall|i: int| 0 <= i < s.len() ==> s[i] != '.',
    decreases s.len(),
{
    if s.len() > 0 && s.last() != '.' {
        let d = s.drop_last();
        lemma_last_dot(d);
        assert forall|i: int| last_dot(s) < i < s.len() implies s[i] != '.' by {
            if i < d.len() {
                assert(d[i] == s[i]);
            }
        }
        if last_dot(s) == s.len() {
            assert forall|i: int| 0 <= i < s.len() implies s[i] != '.' by {
                if i < d.len() {
                    assert(d[i] == s[i]);
                }
            }
        }
    }
}

fn find_last_dot(s: &[char]) -> (r: usize)
    ensures
        r == last_dot(s@),
        r <= s@.len(),
{
    let total: usize = s.len();
    let mut n: usize = total;
    proof {
        lemma_last_dot(s@);
    }
    while n > 0
        invariant
            n <= total,
            total == s@.len(),
            forall|i: int| n <= i < total ==> s@[i] != '.',
            last_dot(s@) <= s@.len(),
            last_dot(s@) < s@.len() ==> s@[last_dot(s@) as int] == '.',
            forall|i: int| last_dot(s@) < i < s@.len() ==> s@[i] != '.',
            last_dot(s@) == s@.len() ==> forall|i: int| 0 <= i < s@.len() ==> s@[i] != '.',
        decreases n,
    {
        if s[n - 1] == '.' {
            proof {
                assert(s@[n - 1] == '.');
                assert(last_dot(s@) >= n - 1);
                if last_dot(s@) < s@.len() {
                    assert(last_dot(s@) < n);
                }
            }
            return n - 1;
        }
        n -= 1;
    }
    total
}

/// Whether a path's extension is `ext`.
pub fn has_extension(path: &str, ext: &str) -> (r: bool)
    ensures
        r == (extension_of(path@) == Some(ext@)),
{
    let p = chars_of(path);
    match file_name(p.as_slice()) {
        None => false,
        Some(name) => {
            let s = name.as_slice();
            let n: usize = s.len();
            let k: usize = find_last_dot(s);
            if 0 < k && k < n {
                let e = slice_subrange(s, k + 1, n);
                proof {
                    assert(e@ =~= s@.skip(k as int + 1));
                }
                eq_str(e, ext)
            } else {
                false
            }
        },
    }
}

/// A relative path below a directory.
pub open spec fn below(dir: Seq<char>, name: Seq<char>) -> Seq<char> {
    if dir.len() == 0 || dir.last() == '/' {
        dir + name
    } else {
        dir + seq!['/'] + name
    }
}

/// Put a relative path below a directory.
pub fn join_path(dir: &str, name: &str) -> (r: String)
    ensures
        r@ == below(dir@, name@),
{
    let mut d = chars_of(dir);
    let n: usize = d.len();
    if !(n == 0 || d[n - 1] == '/') {
        d.push('/');
        proof {
            assert(d@ =~= dir@ + seq!['/']);
        }
    }
    append_str(&mut d, name);
    string_of(d.as_slice())
}

} // verus!
