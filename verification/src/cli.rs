//! Command line options and the scenes shown without a search.
use crate::binding::strip;
use crate::entry::{drun_search_text, AppEntry, AppMode};
use crate::launcher::LauncherState;
use crate::text::{
    chars_of, has_prefix, parse_unsigned, same_str, starts_with_str, string_of, texts, unsigned_value,
};
use crate::theme::owned;
use vstd::prelude::*;

verus! {

/// The value of an option: the next argument, or what follows `flag=`.
pub open spec fn option_value(args: Seq<Seq<char>>, flag: Seq<char>) -> Option<Seq<char>>
    decreases args.len(),
{
    if args.len() == 0 {
        None
    } else if args[0] == flag && args.len() > 1 {
        Some(args[1])
    } else if has_prefix(args[0], flag + seq!['=']) {
        Some(args[0].skip(flag.len() as int + 1))
    } else {
        option_value(args.skip(1), flag)
    }
}

/// Find the value of an option.
pub fn arg_value(args: &Vec<String>, flag: &str) -> (r: Option<String>)
    ensures
        crate::node::opt_view(r) == option_value(texts(args@), flag@),
{
    let ghost av = texts(args@);
    let mut eq = chars_of(flag);
    eq.push('=');
    proof {
        assert(eq@ =~= flag@ + seq!['=']);
    }
    let with_eq = string_of(eq.as_slice());
    let n: usize = args.len();
    let mut i: usize = 0;
    proof {
        assert(av.skip(0) =~= av);
    }
    while i < n
        invariant
            n == args@.len(),
            i <= n,
            av == texts(args@),
            with_eq@ == flag@ + seq!['='],
            option_value(av, flag@) == option_value(av.skip(i as int), flag@),
        decreases n - i,
    {
        proof {
            assert(av.skip(i as int).skip(1) =~= av.skip(i + 1));
            assert(av.skip(i as int)[0] == args@[i as int]@);
        }
        if same_str(args[i].as_str(), flag) && i + 1 < n {
            proof {
                assert(av.skip(i as int)[1] == args@[i + 1]@);
            }
            return Some(args[i + 1].clone());
        }
        let c = chars_of(args[i].as_str());
        match strip(c.as_slice(), with_eq.as_str()) {
            Some(rest) => {
                proof {
                    assert((flag@ + seq!['=']).len() == flag@.len() + 1);
                }
                return Some(string_of(rest));
            },
            None => {},
        }
        i += 1;
    }
    None
}

/// The theme that `--screenshot` names; its name may be left out in front of
/// another option.
pub open spec fn pictured(args: Seq<Seq<char>>, default: Seq<char>) -> Seq<char> {
    match option_value(args, "--screenshot"@) {
        Some(v) => if has_prefix(v, "--"@) {
            default
        } else {
            v
        },
        None => default,
    }
}

/// Find the theme to take a picture of.
pub fn screenshot_theme(args: &Vec<String>, default: &str) -> (r: String)
    ensures
        r@ == pictured(texts(args@), default@),
{
    match arg_value(args, "--screenshot") {
        Some(v) => {
            let c = chars_of(v.as_str());
            if starts_with_str(c.as_slice(), "--") {
                owned(default)
            } else {
                v
            }
        },
        None => owned(default),
    }
}

/// Whether an option is given.
pub fn has_flag(args: &Vec<String>, flag: &str) -> (r: bool)
    ensures
        r == texts(args@).contains(flag@),
{
    let mut i: usize = 0;
    while i < args.len()
        invariant
            i <= args@.len(),
            forall|k: int| 0 <= k < i ==> #[trigger] texts(args@)[k] != flag@,
        decreases args@.len() - i,
    {
        if same_str(args[i].as_str(), flag) {
            proof {
                assert(texts(args@)[i as int] == flag@);
            }
            return true;
        }
        i += 1;
    }
    false
}

/// A length in pixels, given as an option.
pub open spec fn pixels(args: Seq<Seq<char>>, flag: Seq<char>) -> Option<nat> {
    match option_value(args, flag) {
        Some(v) => unsigned_value(v, u32::MAX as nat),
        None => None,
    }
}

fn pixel_option(args: &Vec<String>, flag: &str) -> (r: Option<u32>)
    ensures
        r is Some <==> pixels(texts(args@), flag@) is Some,
        r matches Some(v) ==> pixels(texts(args@), flag@) == Some(v as nat),
{
    match arg_value(args, flag) {
        Some(v) => {
            let c = chars_of(v.as_str());
            match parse_unsigned(c.as_slice(), u32::MAX as u64) {
                Some(n) => Some(n as u32),
                None => None,
            }
        },
        None => None,
    }
}

/// The window size given on the command line; both lengths are needed.
pub fn size_override(args: &Vec<String>) -> (r: Option<(u32, u32)>)
    ensures
        r is Some <==> pixels(texts(args@), "--width"@) is Some && pixels(texts(args@), "--height"@) is Some,
        r matches Some((w, h)) ==> pixels(texts(args@), "--width"@) == Some(w as nat) && pixels(
            texts(args@),
            "--height"@,
        ) == Some(h as nat),
{
    match (pixel_option(args, "--width"), pixel_option(args, "--height")) {
        (Some(w), Some(h)) => Some((w, h)),
        _ => None,
    }
}

/// An application of the demonstration scene.
pub open spec fn is_demo_app(
    e: AppEntry,
    id: Seq<char>,
    name: Seq<char>,
    command: Seq<char>,
    description: Seq<char>,
    keywords: Seq<char>,
) -> bool {
    &&& e.id@ == id && e.name@ == name && e.command@ == command
    &&& e.description matches Some(d) && d@ == description
    &&& e.mode == AppMode::Drun
    &&& e.keywords@ == keywords
    &&& e.search_text@ == drun_search_text(name, keywords)
    &&& e.score == 0
    &&& e.icon@.len() == 0
}

/// A program of the demonstration scene.
pub open spec fn is_demo_program(e: AppEntry, id: Seq<char>, name: Seq<char>, command: Seq<char>) -> bool {
    &&& e.id@ == id && e.name@ == name && e.command@ == command
    &&& e.search_text@ == name
    &&& e.bare(AppMode::Run)
}

/// A state with a few entries to show, without a search.
pub fn demo_state() -> (r: LauncherState)
    ensures
        r.query@ == "f"@,
        r.selected_index == 0,
        r.results@.len() == 5,
        is_demo_app(
            r.results@[0],
            "firefox"@,
            "Firefox"@,
            "firefox"@,
            "Browse the Web"@,
            "Internet WWW Browser"@,
        ),
        is_demo_app(
            r.results@[1],
            "org.gnome.Files"@,
            "Files"@,
            "nautilus"@,
            "Access and organize files"@,
            "folder manager explore disk"@,
        ),
        is_demo_program(r.results@[2], "foot"@, "Foot terminal"@, "foot"@),
        is_demo_app(
            r.results@[3],
            "code"@,
            "Visual Studio Code"@,
            "code"@,
            "Code Editing. Redefined."@,
            "editor ide development"@,
        ),
        is_demo_program(r.results@[4], "calc"@, "Calculator 4*7"@, "gnome-calculator"@),
        !r.loading && !r.launching && r.error is None,
        r.in_bounds(),
{
    let mut v: Vec<AppEntry> = Vec::new();
    v.push(
        AppEntry::drun(
            owned("firefox"),
            owned("Firefox"),
            owned("firefox"),
            Some(owned("Browse the Web")),
            owned("Internet WWW Browser"),
        ),
    );
    v.push(
        AppEntry::drun(
            owned("org.gnome.Files"),
            owned("Files"),
            owned("nautilus"),
            Some(owned("Access and organize files")),
            owned("folder manager explore disk"),
        ),
    );
    v.push(AppEntry::run(owned("foot"), owned("Foot terminal"), owned("foot")));
    v.push(
        AppEntry::drun(
            owned("code"),
            owned("Visual Studio Code"),
            owned("code"),
            Some(owned("Code Editing. Redefined.")),
            owned("editor ide development"),
        ),
    );
    v.push(AppEntry::run(owned("calc"), owned("Calculator 4*7"), owned("gnome-calculator")));
    let mut s = LauncherState::new();
    s.query = owned("f");
    s.set_results(v);
    s.selected_index = 0;
    s
}

} // verus!
