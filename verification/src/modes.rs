//! Search modes: applications, programs, windows and the calculator.
use crate::calc::{are_calc_rows, clipboard_command, copy_command, CalcMode};
use crate::entry::{AppEntry, AppMode};
use crate::freq::{word_end, word_len};
use crate::json::{
    field, find_field, find_int, find_text, int_field, json_list_of, json_of, json_views, lemma_field,
    lemma_list_view, parse_json, parse_json_list, text_field, Json, JsonView,
};
use crate::order::{rank_text, text_ranking, text_ranking_is_permutation};
use crate::scan::{stands, stands_at};
use crate::search::{name_scores, rank_matches, ranked, score_names, scored, with_scores};
use crate::text::{
    append, append_str, chars_of, decimal_int, decimal_signed, eq_str, find_char, has_prefix,
    index_or_len, join, joined, lex_less, split_char, split_on, starts_with_str,
    string_of, texts, to_vec, trim, trim_start, trimmed, trimmed_start, views, white,
};
use crate::theme::owned;
use vstd::prelude::*;
use vstd::slice::slice_subrange;

verus! {

/// What a mode has found.
#[derive(Debug)]
pub enum SearchResult {
    Entries(Vec<AppEntry>),
    Error(String),
}

/// What the outside world listed for a mode: entries, or why there are none.
pub type Listing = Result<Vec<AppEntry>, String>;

/// Which tools are installed.
#[derive(Debug, Clone, Copy)]
pub struct Tools {
    pub wl_copy: bool,
    pub xclip: bool,
}

/// A source of entries.
pub trait SearchMode {
    /// The entries for a query, given what was listed for the mode.
    fn search(&self, query: &str, listing: Listing) -> SearchResult;

    /// The shell command that carries an entry out, if there is one.
    fn execute(&self, entry: &AppEntry, tools: Tools) -> Option<String>;
}

/// A mode by its kind.
#[derive(Debug)]
pub enum Mode {
    Drun(DrunMode),
    Run(RunMode),
    Window(WindowMode),
    Calc(CalcMode),
}

pub open spec fn mode_kind(m: Mode) -> AppMode {
    match m {
        Mode::Drun(_) => AppMode::Drun,
        Mode::Run(_) => AppMode::Run,
        Mode::Window(_) => AppMode::Window,
        Mode::Calc(_) => AppMode::Calc,
    }
}

/// A fresh mode of the given kind.
pub fn create_mode(mode: AppMode) -> (r: Mode)
    ensures
        mode_kind(r) == mode,
        r matches Mode::Run(m) ==> m.executables@.len() == 0 && !m.is_initialized,
        r matches Mode::Window(m) ==> m.list_cmd@.len() == 0 && m.activate_cmd@.len() == 0 && m.wm_type
            == WmType::Wmctrl,
{
    match mode {
        AppMode::Drun => Mode::Drun(DrunMode::new()),
        AppMode::Run => Mode::Run(RunMode::new()),
        AppMode::Window => Mode::Window(WindowMode::new()),
        AppMode::Calc => Mode::Calc(CalcMode::new()),
    }
}

// ---------------------------------------------------------------------------
// Applications
// ---------------------------------------------------------------------------

/// Applications, found by the daemon.
#[derive(Debug, Clone, Copy)]
pub struct DrunMode;

/// An entry marked as an application.
pub open spec fn as_drun(e: AppEntry) -> AppEntry {
    AppEntry { mode: AppMode::Drun, ..e }
}

impl DrunMode {
    pub fn new() -> (r: DrunMode)
        ensures
            r == DrunMode,
    {
        DrunMode
    }
}

impl SearchMode for DrunMode {
    fn search(&self, query: &str, listing: Listing) -> (r: SearchResult)
        ensures
            listing matches Ok(apps) ==> (r matches SearchResult::Entries(v) && v@ == apps@.map_values(
                |e: AppEntry| as_drun(e),
            )),
            listing matches Err(e) ==> (r matches SearchResult::Error(t) && t@ == "IPC error: "@ + e@),
    {
        match listing {
            Ok(apps) => {
                let ghost src = apps@;
                let mut out: Vec<AppEntry> = Vec::new();
                for entry in it: apps
                    invariant
                        it.seq() == src,
                        out@.len() == it.index(),
                        forall|k: int| 0 <= k < it.index() ==> #[trigger] out@[k] == as_drun(src[k]),
                {
                    let mut e = entry;
                    e.mode = AppMode::Drun;
                    out.push(e);
                }
                proof {
                    assert(out@ =~= src.map_values(|e: AppEntry| as_drun(e)));
                }
                SearchResult::Entries(out)
            },
            Err(e) => {
                let mut t = chars_of("IPC error: ");
                append_str(&mut t, e.as_str());
                SearchResult::Error(string_of(t.as_slice()))
            },
        }
    }

    fn execute(&self, entry: &AppEntry, tools: Tools) -> (r: Option<String>)
        ensures
            r == Some(entry.command),
    {
        Some(entry.command.clone())
    }
}

// ---------------------------------------------------------------------------
// Programs
// ---------------------------------------------------------------------------

/// How many programs are shown at once.
pub const RUN_LIMIT: usize = 50;

/// Programs of the search path.
#[derive(Debug)]
pub struct RunMode {
    pub executables: Vec<String>,
    pub is_initialized: bool,
}

/// Ascending, and nothing twice.
pub open spec fn strictly_ascending(l: Seq<Seq<char>>) -> bool {
    forall|i: int, j: int| 0 <= i < j < l.len() ==> lex_less(#[trigger] l[i], #[trigger] l[j])
}

/// The same texts, whatever their order and number.
pub open spec fn same_members(a: Seq<Seq<char>>, b: Seq<Seq<char>>) -> bool {
    forall|t: Seq<char>| #[trigger] a.contains(t) <==> b.contains(t)
}

fn first_names(names: &Vec<String>) -> (r: Vec<Vec<char>>)
    ensures
        views(r@).no_duplicates(),
        same_members(views(r@), texts(names@)),
{
    let ghost tn = texts(names@);
    let mut out: Vec<Vec<char>> = Vec::new();
    let mut i: usize = 0;
    proof {
        assert(tn.take(0) =~= Seq::empty());
        assert(views(out@) =~= Seq::empty());
    }
    while i < names.len()
        invariant
            i <= names@.len(),
            tn == texts(names@),
            views(out@).no_duplicates(),
            same_members(views(out@), tn.take(i as int)),
        decreases names@.len() - i,
    {
        let name = chars_of(names[i].as_str());
        let mut j: usize = 0;
        let mut seen = false;
        while j < out.len() && !seen
            invariant
                j <= out@.len(),
                name@ == tn[i as int],
                seen ==> views(out@).contains(name@),
                !seen ==> forall|k: int| 0 <= k < j ==> views(out@)[k] != name@,
            decreases out@.len() - j,
        {
            if crate::text::eq_chars(out[j].as_slice(), name.as_slice()) {
                proof {
                    assert(views(out@)[j as int] == name@);
                }
                seen = true;
            }
            j += 1;
        }
        let ghost before = views(out@);
        proof {
            assert(tn.take(i + 1) =~= tn.take(i as int).push(name@));
        }
        if !seen {
            let ghost old_out = out@;
            proof {
                assert(!before.contains(name@));
            }
            out.push(name);
            proof {
                assert(views(out@) =~= before.push(name@));
            }
        }
        proof {
            let now = views(out@);
            let want = tn.take(i + 1);
            let prev = tn.take(i as int);
            assert forall|t: Seq<char>| #[trigger] now.contains(t) <==> want.contains(t) by {
                if now.contains(t) {
                    let k = choose|k: int| 0 <= k < now.len() && now[k] == t;
                    if k < before.len() {
                        assert(before[k] == t);
                        assert(before.contains(t));
                        assert(prev.contains(t));
                        let m = choose|m: int| 0 <= m < prev.len() && prev[m] == t;
                        assert(want[m] == t);
                    } else {
                        assert(want[i as int] == t);
                    }
                }
                if want.contains(t) {
                    let m = choose|m: int| 0 <= m < want.len() && want[m] == t;
                    if m < i {
                        assert(prev[m] == t);
                        assert(prev.contains(t));
                        assert(before.contains(t));
                        let k = choose|k: int| 0 <= k < before.len() && before[k] == t;
                        assert(now[k] == t);
                    } else {
                        assert(t == name@);
                        if seen {
                            assert(before.contains(t));
                        } else {
                            assert(now[now.len() - 1] == t);
                        }
                    }
                }
            }
        }
        i += 1;
    }
    proof {
        assert(tn.take(names@.len() as int) =~= tn);
    }
    out
}

/// The names in ascending order, each once.
pub fn sorted_names(names: &Vec<String>) -> (r: Vec<String>)
    ensures
        strictly_ascending(texts(r@)),
        same_members(texts(r@), texts(names@)),
{
    let unique = first_names(names);
    let ghost uv = views(unique@);
    let order = rank_text(&unique);
    let ghost rank = text_ranking(uv);
    proof {
        text_ranking_is_permutation(uv, rank);
    }
    let mut out: Vec<String> = Vec::new();
    let mut j: usize = 0;
    while j < order.len()
        invariant
            j <= order@.len(),
            order@.len() == unique@.len(),
            uv == views(unique@),
            forall|k: int| 0 <= k < order@.len() ==> #[trigger] order@[k] < unique@.len(),
            out@.len() == j,
            forall|k: int| 0 <= k < j ==> (#[trigger] out@[k])@ == uv[order@[k] as int],
        decreases order@.len() - j,
    {
        out.push(string_of(unique[order[j]].as_slice()));
        j += 1;
    }
    proof {
        let now = texts(out@);
        assert forall|k: int| 0 <= k < order@.len() implies order@[k] == #[trigger] rank[k] by {
            assert(order@.map_values(|x: usize| x as int)[k] == rank[k]);
        }
        assert forall|a: int, b: int| 0 <= a < b < now.len() implies lex_less(
            #[trigger] now[a],
            #[trigger] now[b],
        ) by {
            assert(crate::order::text_before(uv, rank[a], rank[b]));
            assert(rank[a] != rank[b]);
            assert(uv[rank[a]] != uv[rank[b]]);
            assert(order@[a] == rank[a] && order@[b] == rank[b]);
            assert(out@[a]@ == uv[rank[a]] && out@[b]@ == uv[rank[b]]);
        }
        assert forall|t: Seq<char>| #[trigger] now.contains(t) <==> texts(names@).contains(t) by {
            if now.contains(t) {
                let k = choose|k: int| 0 <= k < now.len() && now[k] == t;
                assert(out@[k]@ == uv[order@[k] as int]);
                assert(uv.contains(t));
            }
            if texts(names@).contains(t) {
                assert(uv.contains(t));
                let m = choose|m: int| 0 <= m < uv.len() && uv[m] == t;
                assert(rank.contains(m));
                let k = choose|k: int| 0 <= k < rank.len() && rank[k] == m;
                assert(order@[k] == rank[k]);
                assert(now[k] == t);
            }
        }
    }
    out
}

/// The entry for a program.
pub open spec fn is_program(e: AppEntry, name: Seq<char>) -> bool {
    &&& e.id@ == name
    &&& e.name@ == name
    &&& e.command@ == name
    &&& e.search_text@ == name
    &&& e.bare(AppMode::Run)
}

/// One entry for each name.
pub open spec fn are_programs(l: Seq<AppEntry>, names: Seq<Seq<char>>) -> bool {
    l.len() == names.len() && forall|i: int| 0 <= i < l.len() ==> is_program(#[trigger] l[i], names[i])
}

fn program_entries(names: &Vec<String>, limit: usize) -> (r: Vec<AppEntry>)
    ensures
        are_programs(
            r@,
            texts(names@).take(
                if names@.len() < limit {
                    names@.len() as int
                } else {
                    limit as int
                },
            ),
        ),
{
    let mut out: Vec<AppEntry> = Vec::new();
    let mut i: usize = 0;
    while i < names.len() && i < limit
        invariant
            i <= names@.len(),
            i <= limit,
            out@.len() == i,
            forall|k: int| 0 <= k < i ==> is_program(#[trigger] out@[k], names@[k]@),
        decreases names@.len() - i,
    {
        let n = names[i].clone();
        out.push(AppEntry::run(n.clone(), n.clone(), n));
        i += 1;
    }
    out
}

pub open spec fn min_len(a: nat, b: nat) -> nat {
    if a < b {
        a
    } else {
        b
    }
}

impl RunMode {
    pub fn new() -> (r: RunMode)
        ensures
            r.executables@.len() == 0,
            !r.is_initialized,
    {
        RunMode { executables: Vec::new(), is_initialized: false }
    }

    /// Take over the programs found on the search path, the first time only.
    pub fn init(&mut self, scanned: &Vec<String>)
        ensures
            final(self).is_initialized,
            old(self).is_initialized ==> *final(self) == *old(self),
            !old(self).is_initialized ==> strictly_ascending(texts(final(self).executables@))
                && same_members(texts(final(self).executables@), texts(scanned@)),
    {
        if !self.is_initialized {
            self.executables = sorted_names(scanned);
            self.is_initialized = true;
        }
    }
}

impl SearchMode for RunMode {
    fn search(&self, query: &str, listing: Listing) -> (r: SearchResult)
        ensures
            r is Entries,
            trimmed(query@).len() == 0 ==> are_programs(
                r->Entries_0@,
                texts(self.executables@).take(
                    min_len(self.executables@.len(), RUN_LIMIT as nat) as int,
                ),
            ),
            trimmed(query@).len() > 0 ==> exists|all: Seq<AppEntry>|
                #[trigger] are_programs(all, texts(self.executables@)) && ({
                    let m = scored(ranked(all, name_scores(all, trimmed(query@))));
                    r->Entries_0@ == m.take(min_len(m.len(), RUN_LIMIT as nat) as int)
                }),
            trimmed(query@).len() > 0 ==> programs_found(
                texts(self.executables@),
                query@,
                r->Entries_0@,
            ),
    {
        let c = chars_of(query);
        let q = trim(c.as_slice());
        if q.len() == 0 {
            return SearchResult::Entries(program_entries(&self.executables, RUN_LIMIT));
        }
        let pattern = string_of(q);
        let n: usize = self.executables.len();
        let all = program_entries(&self.executables, n);
        proof {
            assert(texts(self.executables@).take(n as int) =~= texts(self.executables@));
            assert(are_programs(all@, texts(self.executables@)));
        }
        let scores = score_names(&all, pattern.as_str());
        let mut found = with_scores(rank_matches(&all, &scores));
        let ghost m = found@;
        if found.len() > RUN_LIMIT {
            found.truncate(RUN_LIMIT);
        }
        proof {
            assert(found@ =~= m.take(min_len(m.len(), RUN_LIMIT as nat) as int));
        }
        SearchResult::Entries(found)
    }

    fn execute(&self, entry: &AppEntry, tools: Tools) -> (r: Option<String>)
        ensures
            r == Some(entry.command),
    {
        Some(entry.command.clone())
    }
}

// ---------------------------------------------------------------------------
// Windows
// ---------------------------------------------------------------------------

/// Which window manager answers.
#[derive(Debug, Clone, Copy, PartialEq, Eq, Structural)]
pub enum WmType {
    Sway,
    Hyprland,
    Wmctrl,
}

/// What the environment tells about the window manager.
#[derive(Debug, Clone, Copy)]
pub struct WmEnv {
    /// `SWAYSOCK` is set.
    pub sway: bool,
    /// `HYPRLAND_INSTANCE_SIGNATURE` is set.
    pub hyprland: bool,
}

pub open spec fn wm_type_of(env: WmEnv) -> WmType {
    if env.sway {
        WmType::Sway
    } else if env.hyprland {
        WmType::Hyprland
    } else {
        WmType::Wmctrl
    }
}

/// Commands that list and activate windows; `{id}` stands for the window.
#[derive(Debug)]
pub struct WindowCommands {
    pub list: String,
    pub activate: String,
}

pub open spec fn wm_list(t: WmType) -> Seq<char> {
    match t {
        WmType::Sway => "swaymsg -t get_tree"@,
        WmType::Hyprland => "hyprctl clients -j"@,
        WmType::Wmctrl => "wmctrl -l"@,
    }
}

pub open spec fn wm_activate(t: WmType) -> Seq<char> {
    match t {
        WmType::Sway => "swaymsg \"[con_id={id}] focus\""@,
        WmType::Hyprland => "hyprctl dispatch focuswindow address:{id}"@,
        WmType::Wmctrl => "wmctrl -i -a {id}"@,
    }
}

pub fn detect_wm(env: WmEnv) -> (r: WmType)
    ensures
        r == wm_type_of(env),
{
    if env.sway {
        WmType::Sway
    } else if env.hyprland {
        WmType::Hyprland
    } else {
        WmType::Wmctrl
    }
}

/// The configured commands if both are given, else those of the window manager.
pub fn detect_window_commands(
    list: &Option<String>,
    activate: &Option<String>,
    env: WmEnv,
) -> (r: WindowCommands)
    ensures
        list is Some && activate is Some ==> r.list@ == list->0@ && r.activate@ == activate->0@,
        !(list is Some && activate is Some) ==> r.list@ == wm_list(wm_type_of(env)) && r.activate@
            == wm_activate(wm_type_of(env)),
{
    match (list, activate) {
        (Some(l), Some(a)) => {
            return WindowCommands { list: l.clone(), activate: a.clone() };
        },
        _ => {},
    }
    match detect_wm(env) {
        WmType::Sway => WindowCommands {
            list: owned("swaymsg -t get_tree"),
            activate: owned("swaymsg \"[con_id={id}] focus\""),
        },
        WmType::Hyprland => WindowCommands {
            list: owned("hyprctl clients -j"),
            activate: owned("hyprctl dispatch focuswindow address:{id}"),
        },
        WmType::Wmctrl => WindowCommands {
            list: owned("wmctrl -l"),
            activate: owned("wmctrl -i -a {id}"),
        },
    }
}

/// The words of a text, as white space separates them.
pub open spec fn words(s: Seq<char>) -> Seq<Seq<char>>
    decreases s.len(),
{
    proof {
        lemma_next_word(s);
    }
    let t = trimmed_start(s);
    if t.len() == 0 {
        Seq::empty()
    } else {
        seq![t.take(word_len(t) as int)] + words(t.skip(word_len(t) as int))
    }
}

pub proof fn lemma_next_word(s: Seq<char>)
    ensures
        trimmed_start(s).len() <= s.len(),
        trimmed_start(s).len() > 0 ==> 1 <= word_len(trimmed_start(s)) <= trimmed_start(s).len(),
    decreases s.len(),
{
    if s.len() > 0 && white(s[0]) {
        lemma_next_word(s.skip(1));
    } else {
        lemma_word_bound(s);
    }
}

proof fn lemma_word_bound(s: Seq<char>)
    ensures
        word_len(s) <= s.len(),
    decreases s.len(),
{
    if s.len() > 0 {
        lemma_word_bound(s.skip(1));
    }
}

pub fn split_words(s: &[char]) -> (r: Vec<Vec<char>>)
    ensures
        views(r@) == words(s@),
{
    let mut out: Vec<Vec<char>> = Vec::new();
    let mut from: usize = 0;
    let n: usize = s.len();
    proof {
        assert(s@.skip(0) =~= s@);
        assert(views(out@) + words(s@) =~= words(s@));
    }
    loop
        invariant
            n == s@.len(),
            from <= n,
            views(out@) + words(s@.skip(from as int)) == words(s@),
        decreases n - from,
    {
        let rest = slice_subrange(s, from, n);
        let t = trim_start(rest);
        let k: usize = t.len();
        proof {
            assert(rest@ =~= s@.skip(from as int));
            lemma_next_word(rest@);
        }
        if k == 0 {
            proof {
                assert(views(out@) + Seq::empty() =~= views(out@));
            }
            return out;
        }
        let w: usize = word_end(t);
        let word = slice_subrange(t, 0, w);
        let ghost before = out@;
        out.push(to_vec(word));
        proof {
            lemma_trim_is_suffix(rest@);
            assert(word@ =~= t@.take(w as int));
            assert(views(out@) =~= views(before).push(t@.take(w as int)));
            assert(t@.skip(w as int) =~= s@.skip(n - (k - w)));
            assert(views(out@) + words(t@.skip(w as int)) =~= views(before) + words(rest@));
        }
        from = n - (k - w);
    }
}

proof fn lemma_trim_is_suffix(s: Seq<char>)
    ensures
        trimmed_start(s).len() <= s.len(),
        trimmed_start(s) == s.skip(s.len() - trimmed_start(s).len()),
    decreases s.len(),
{
    if s.len() > 0 && white(s[0]) {
        lemma_trim_is_suffix(s.skip(1));
        let k = trimmed_start(s.skip(1)).len();
        assert(s.skip(1).skip(s.len() - 1 - k) =~= s.skip(s.len() - k));
    } else {
        assert(s.skip(0) =~= s);
    }
}

/// A program and its arguments, as a command line lists them.
pub fn command_words(cmd: &str) -> (r: Result<Vec<String>, String>)
    ensures
        words(cmd@).len() > 0 ==> (r matches Ok(v) && texts(v@) == words(cmd@)),
        words(cmd@).len() == 0 ==> (r matches Err(e) && e@ == "Empty command string"@),
{
    let c = chars_of(cmd);
    let w = split_words(c.as_slice());
    proof {
        assert(views(w@).len() == w@.len());
    }
    if w.len() == 0 {
        return Err(owned("Empty command string"));
    }
    let mut out: Vec<String> = Vec::new();
    let mut i: usize = 0;
    while i < w.len()
        invariant
            i <= w@.len(),
            out@.len() == i,
            forall|k: int| 0 <= k < i ==> (#[trigger] out@[k])@ == w@[k]@,
        decreases w@.len() - i,
    {
        out.push(string_of(w[i].as_slice()));
        i += 1;
    }
    proof {
        assert(texts(out@) =~= views(w@));
    }
    Ok(out)
}

/// The entry for a window.
pub open spec fn is_window(e: AppEntry, id: Seq<char>, title: Seq<char>) -> bool {
    &&& e.id@ == id
    &&& e.name@ == title
    &&& e.command@ == id
    &&& e.search_text@ == title
    &&& e.bare(AppMode::Window)
}

/// One entry for each window, given by id and title.
pub open spec fn are_windows(l: Seq<AppEntry>, w: Seq<(Seq<char>, Seq<char>)>) -> bool {
    l.len() == w.len() && forall|i: int| 0 <= i < l.len() ==> is_window(#[trigger] l[i], w[i].0, w[i].1)
}

fn window_entry(id: &[char], title: &[char]) -> (r: AppEntry)
    ensures
        is_window(r, id@, title@),
{
    AppEntry::window(string_of(id), string_of(title), string_of(id))
}

/// A text that may be missing.
pub open spec fn or_blank(o: Option<Seq<char>>) -> Seq<char> {
    match o {
        Some(t) => t,
        None => Seq::empty(),
    }
}

fn text_at(v: &Json, name: &str) -> (r: Vec<char>)
    ensures
        r@ == or_blank(text_field(v@, name@)),
{
    match find_text(v, name) {
        Some(t) => chars_of(t.as_str()),
        None => {
            let none: Vec<char> = Vec::new();
            proof {
                assert(none@ =~= Seq::empty());
            }
            none
        },
    }
}

/// A node of sway's tree is a window: it has an id, a name other than the
/// root's, and a container's type.
pub open spec fn sway_window(v: JsonView) -> bool {
    let name = or_blank(text_field(v, "name"@));
    let kind = or_blank(text_field(v, "type"@));
    &&& name.len() > 0 && name != "root"@
    &&& int_field(v, "id"@) is Some
    &&& kind == "con"@ || kind == "floating_con"@
}

/// A title with the application in front, where it is known.
pub open spec fn with_app(app: Seq<char>, title: Seq<char>) -> Seq<char> {
    if app.len() == 0 {
        title
    } else {
        app + " — "@ + title
    }
}

pub open spec fn sway_own(v: JsonView) -> Seq<(Seq<char>, Seq<char>)> {
    if sway_window(v) {
        seq![
            (
                decimal_int(int_field(v, "id"@)->0 as int),
                with_app(or_blank(text_field(v, "app_id"@)), or_blank(text_field(v, "name"@))),
            ),
        ]
    } else {
        Seq::empty()
    }
}

/// The windows of a tree: the node itself, then its tiled children, then its
/// floating ones.
pub open spec fn sway_windows(v: JsonView) -> Seq<(Seq<char>, Seq<char>)>
    decreases v, 1nat,
{
    sway_own(v) + sway_children(v, "nodes"@) + sway_children(v, "floating_nodes"@)
}

/// The windows of the nodes listed in a field.
pub open spec fn sway_children(v: JsonView, name: Seq<char>) -> Seq<(Seq<char>, Seq<char>)>
    decreases v, 0nat,
{
    proof {
        lemma_field(v, name);
    }
    match field(v, name) {
        Some(JsonView::List(l)) => sway_list(l, l.len()),
        _ => Seq::empty(),
    }
}

/// The windows of the first `k` nodes of a list.
pub open spec fn sway_list(l: Seq<JsonView>, k: nat) -> Seq<(Seq<char>, Seq<char>)>
    decreases l, k,
{
    if k == 0 || k > l.len() {
        Seq::empty()
    } else {
        sway_list(l, (k - 1) as nat) + sway_windows(l[k - 1])
    }
}

fn titled(app: &[char], title: &[char]) -> (r: Vec<char>)
    ensures
        r@ == with_app(app@, title@),
{
    if app.len() == 0 {
        to_vec(title)
    } else {
        let mut t = to_vec(app);
        append_str(&mut t, " — ");
        append(&mut t, title);
        t
    }
}

proof fn lemma_windows_concat(
    a: Seq<AppEntry>,
    wa: Seq<(Seq<char>, Seq<char>)>,
    b: Seq<AppEntry>,
    wb: Seq<(Seq<char>, Seq<char>)>,
)
    requires
        are_windows(a, wa),
        are_windows(b, wb),
    ensures
        are_windows(a + b, wa + wb),
{
    assert forall|i: int| 0 <= i < (a + b).len() implies is_window(
        #[trigger] (a + b)[i],
        (wa + wb)[i].0,
        (wa + wb)[i].1,
    ) by {
        if i < a.len() {
            assert((a + b)[i] == a[i]);
        } else {
            assert((a + b)[i] == b[i - a.len()]);
        }
    }
}

/// List the windows of a tree.
pub fn extract_sway_nodes(v: &Json) -> (r: Vec<AppEntry>)
    ensures
        are_windows(r@, sway_windows(v@)),
    decreases *v, 1nat,
{
    let name = text_at(v, "name");
    let kind = text_at(v, "type");
    let app = text_at(v, "app_id");
    let mut out: Vec<AppEntry> = Vec::new();
    match find_int(v, "id") {
        Some(id) => {
            if name.len() > 0 && !eq_str(name.as_slice(), "root") && (eq_str(kind.as_slice(), "con")
                || eq_str(kind.as_slice(), "floating_con")) {
                let t = titled(app.as_slice(), name.as_slice());
                let d = decimal_signed(id);
                let dc = chars_of(d.as_str());
                out.push(window_entry(dc.as_slice(), t.as_slice()));
            }
        },
        None => {},
    }
    assert(are_windows(out@, sway_own(v@)));
    let ghost own = out@;
    let mut tiled = extract_sway_children(v, "nodes");
    let mut floating = extract_sway_children(v, "floating_nodes");
    proof {
        let a = sway_children(v@, "nodes"@);
        let b = sway_children(v@, "floating_nodes"@);
        lemma_windows_concat(own, sway_own(v@), tiled@, a);
        lemma_windows_concat(own + tiled@, sway_own(v@) + a, floating@, b);
    }
    out.append(&mut tiled);
    out.append(&mut floating);
    out
}

fn extract_sway_children(v: &Json, name: &str) -> (r: Vec<AppEntry>)
    ensures
        are_windows(r@, sway_children(v@, name@)),
    decreases *v, 0nat,
{
    match find_field(v, name) {
        Some(Json::List(l)) => {
            proof {
                lemma_list_view(*l, l@.len());
                assert(json_views(l@).take(l@.len() as int) =~= json_views(l@));
            }
            extract_sway_list(l)
        },
        _ => Vec::new(),
    }
}

fn extract_sway_list(l: &Vec<Json>) -> (r: Vec<AppEntry>)
    ensures
        are_windows(r@, sway_list(json_views(l@), l@.len())),
    decreases *l, l@.len(),
{
    broadcast use vstd::std_specs::vec::group_vec_axioms;

    let mut out: Vec<AppEntry> = Vec::new();
    let mut i: usize = 0;
    while i < l.len()
        invariant
            i <= l@.len(),
            are_windows(out@, sway_list(json_views(l@), i as nat)),
        decreases l@.len() - i,
    {
        proof {
            assert(decreases_to!(*l => l@[i as int]));
        }
        let mut more = extract_sway_nodes(&l[i]);
        proof {
            lemma_windows_concat(
                out@,
                sway_list(json_views(l@), i as nat),
                more@,
                sway_windows(l@[i as int]@),
            );
        }
        out.append(&mut more);
        i += 1;
    }
    out
}

fn explain(lead: &str, why: &str) -> (r: String)
    ensures
        r@ == lead@ + why@,
{
    let mut t = chars_of(lead);
    append_str(&mut t, why);
    string_of(t.as_slice())
}

/// List the windows that the output of `swaymsg -t get_tree` tells.
pub fn get_sway_windows(output: &str) -> (r: Listing)
    ensures
        match json_of(output@) {
            Ok(v) => r matches Ok(w) && are_windows(w@, sway_windows(v)),
            Err(m) => r matches Err(e) && e@ == "swaymsg JSON parse: "@ + m,
        },
{
    match parse_json(output) {
        Ok(v) => Ok(extract_sway_nodes(&v)),
        Err(e) => Err(explain("swaymsg JSON parse: ", e.as_str())),
    }
}

/// What is shown of one of Hyprland's clients: class and title, or the one that
/// is there.
pub open spec fn hypr_title(c: JsonView) -> Seq<char> {
    let title = or_blank(text_field(c, "title"@));
    let class = or_blank(text_field(c, "class"@));
    if title.len() == 0 {
        class
    } else {
        with_app(class, title)
    }
}

/// The windows of Hyprland's clients: those with an address and something to show.
pub open spec fn hypr_windows(l: Seq<JsonView>) -> Seq<(Seq<char>, Seq<char>)>
    decreases l.len(),
{
    if l.len() == 0 {
        Seq::empty()
    } else {
        let before = hypr_windows(l.drop_last());
        let c = l.last();
        match text_field(c, "address"@) {
            Some(a) => if hypr_title(c).len() > 0 {
                before.push((a, hypr_title(c)))
            } else {
                before
            },
            None => before,
        }
    }
}

/// List the windows of Hyprland's clients.
pub fn extract_hypr_clients(clients: &Vec<Json>) -> (r: Vec<AppEntry>)
    ensures
        are_windows(r@, hypr_windows(json_views(clients@))),
{
    let ghost all = json_views(clients@);
    let mut out: Vec<AppEntry> = Vec::new();
    let mut i: usize = 0;
    proof {
        assert(all.take(0) =~= Seq::empty());
    }
    while i < clients.len()
        invariant
            i <= clients@.len(),
            all == json_views(clients@),
            are_windows(out@, hypr_windows(all.take(i as int))),
        decreases clients@.len() - i,
    {
        let c = &clients[i];
        proof {
            assert(all.take(i + 1).drop_last() =~= all.take(i as int));
            assert(all.take(i + 1).last() == c@);
        }
        let title = text_at(c, "title");
        let class = text_at(c, "class");
        let shown = if title.len() == 0 {
            class
        } else {
            titled(class.as_slice(), title.as_slice())
        };
        match find_text(c, "address") {
            Some(a) => {
                if shown.len() > 0 {
                    let ac = chars_of(a.as_str());
                    out.push(window_entry(ac.as_slice(), shown.as_slice()));
                }
            },
            None => {},
        }
        i += 1;
    }
    proof {
        assert(all.take(clients@.len() as int) =~= all);
    }
    out
}

/// List the windows that the output of `hyprctl clients -j` tells.
pub fn get_hyprland_windows(output: &str) -> (r: Listing)
    ensures
        match json_list_of(output@) {
            Ok(l) => r matches Ok(w) && are_windows(w@, hypr_windows(l)),
            Err(m) => r matches Err(e) && e@ == "hyprctl JSON parse: "@ + m,
        },
{
    match parse_json_list(output) {
        Ok(l) => Ok(extract_hypr_clients(&l)),
        Err(e) => Err(explain("hyprctl JSON parse: ", e.as_str())),
    }
}

/// The text without the spaces in front.
pub open spec fn past_spaces(s: Seq<char>) -> Seq<char>
    decreases s.len(),
{
    if s.len() > 0 && s[0] == ' ' {
        past_spaces(s.skip(1))
    } else {
        s
    }
}

/// What follows the first column and its spaces.
pub open spec fn after_column(s: Option<Seq<char>>) -> Option<Seq<char>> {
    match s {
        None => None,
        Some(t) => {
            let k = index_or_len(t, ' ');
            if k < t.len() {
                Some(past_spaces(t.skip(k as int)))
            } else {
                None
            }
        },
    }
}

/// The window that a line of `wmctrl -l` tells. Columns are separated by one or
/// more spaces, and what follows the third is the title; where spaces make
/// fewer columns, it is the words from the fourth on.
pub open spec fn wmctrl_window(l: Seq<char>) -> Option<(Seq<char>, Seq<char>)> {
    match after_column(after_column(after_column(Some(l)))) {
        Some(title) => if title.len() == 0 || has_prefix(title, "N/A"@) {
            None
        } else {
            Some((l.take(index_or_len(l, ' ') as int), title))
        },
        None => {
            let w = words(l);
            if w.len() >= 4 && joined(w.skip(3), " "@).len() > 0 {
                Some((w[0], joined(w.skip(3), " "@)))
            } else {
                None
            }
        },
    }
}

/// The windows that the output of `wmctrl -l` tells, line by line.
pub open spec fn wmctrl_windows(lines: Seq<Seq<char>>) -> Seq<(Seq<char>, Seq<char>)>
    decreases lines.len(),
{
    if lines.len() == 0 {
        Seq::empty()
    } else {
        let before = wmctrl_windows(lines.drop_last());
        let l = trimmed(lines.last());
        if l.len() > 0 && wmctrl_window(l) is Some {
            before.push(wmctrl_window(l)->0)
        } else {
            before
        }
    }
}

fn skip_spaces<'a>(s: &'a [char]) -> (r: &'a [char])
    ensures
        r@ == past_spaces(s@),
{
    let n: usize = s.len();
    let mut i: usize = 0;
    proof {
        assert(s@.skip(0) =~= s@);
    }
    while i < n && s[i] == ' '
        invariant
            n == s@.len(),
            i <= n,
            past_spaces(s@) == past_spaces(s@.skip(i as int)),
        decreases n - i,
    {
        i += 1;
        proof {
            assert(s@.skip(i - 1).skip(1) =~= s@.skip(i as int));
        }
    }
    let r = slice_subrange(s, i, n);
    proof {
        assert(r@ =~= s@.skip(i as int));
    }
    r
}

fn behind_column<'a>(s: &'a [char]) -> (r: Option<&'a [char]>)
    ensures
        r matches Some(x) ==> after_column(Some(s@)) == Some(x@),
        r is None ==> after_column(Some(s@)) is None,
{
    let n: usize = s.len();
    let k: usize = find_char(s, ' ');
    if k < n {
        let x = slice_subrange(s, k, n);
        proof {
            assert(x@ =~= s@.skip(k as int));
        }
        Some(skip_spaces(x))
    } else {
        None
    }
}

fn title_column<'a>(l: &'a [char]) -> (r: Option<&'a [char]>)
    ensures
        r matches Some(x) ==> after_column(after_column(after_column(Some(l@)))) == Some(x@),
        r is None ==> after_column(after_column(after_column(Some(l@)))) is None,
{
    match behind_column(l) {
        None => None,
        Some(a) => match behind_column(a) {
            None => None,
            Some(b) => behind_column(b),
        },
    }
}

fn read_wmctrl_line(l: &[char]) -> (r: Option<AppEntry>)
    ensures
        r is Some <==> wmctrl_window(l@) is Some,
        r matches Some(e) ==> is_window(e, (wmctrl_window(l@)->0).0, (wmctrl_window(l@)->0).1),
{
    match title_column(l) {
        Some(title) => {
            if title.len() == 0 || starts_with_str(title, "N/A") {
                return None;
            }
            let k: usize = find_char(l, ' ');
            let id = slice_subrange(l, 0, k);
            proof {
                assert(id@ =~= l@.take(k as int));
            }
            Some(window_entry(id, title))
        },
        None => {
            let w = split_words(l);
            proof {
                assert(views(w@).len() == w@.len());
            }
            if w.len() < 4 {
                return None;
            }
            let mut rest: Vec<Vec<char>> = Vec::new();
            let mut i: usize = 3;
            while i < w.len()
                invariant
                    3 <= i <= w@.len(),
                    rest@.len() == i - 3,
                    forall|k: int| 0 <= k < rest@.len() ==> (#[trigger] rest@[k])@ == w@[k + 3]@,
                decreases w@.len() - i,
            {
                rest.push(to_vec(w[i].as_slice()));
                i += 1;
            }
            proof {
                assert(views(rest@) =~= words(l@).skip(3));
                assert(views(w@)[0] == w@[0]@);
            }
            let title = join(&rest, " ");
            if title.len() == 0 {
                None
            } else {
                Some(window_entry(w[0].as_slice(), title.as_slice()))
            }
        },
    }
}

pub fn get_wmctrl_windows(output: &str) -> (r: Vec<AppEntry>)
    ensures
        are_windows(r@, wmctrl_windows(split_on(output@, '\n'))),
{
    let c = chars_of(output);
    let lines = split_char(c.as_slice(), '\n');
    let ghost lv = views(lines@);
    let mut out: Vec<AppEntry> = Vec::new();
    let mut i: usize = 0;
    proof {
        assert(lv.take(0) =~= Seq::empty());
    }
    while i < lines.len()
        invariant
            i <= lines@.len(),
            lv == views(lines@),
            are_windows(out@, wmctrl_windows(lv.take(i as int))),
        decreases lines@.len() - i,
    {
        let l = trim(lines[i].as_slice());
        proof {
            assert(lv.take(i + 1).last() == lines@[i as int]@);
            assert(lv.take(i + 1).drop_last() =~= lv.take(i as int));
        }
        if l.len() > 0 {
            match read_wmctrl_line(l) {
                Some(e) => {
                    out.push(e);
                },
                None => {},
            }
        }
        i += 1;
    }
    proof {
        assert(lv.take(lines@.len() as int) =~= lv);
    }
    out
}

/// A text with every occurrence of a pattern replaced.
pub open spec fn replaced(s: Seq<char>, pattern: Seq<char>, with: Seq<char>) -> Seq<char>
    decreases s.len(),
{
    if s.len() == 0 {
        Seq::empty()
    } else if pattern.len() > 0 && stands_at(s, pattern, 0) {
        with + replaced(s.skip(pattern.len() as int), pattern, with)
    } else {
        seq![s[0]] + replaced(s.skip(1), pattern, with)
    }
}

fn replace(s: &[char], pattern: &[char], with: &[char]) -> (r: Vec<char>)
    requires
        pattern@.len() > 0,
    ensures
        r@ == replaced(s@, pattern@, with@),
{
    let n: usize = s.len();
    let mut out: Vec<char> = Vec::new();
    let mut i: usize = 0;
    proof {
        assert(s@.skip(0) =~= s@);
        assert(out@ + replaced(s@, pattern@, with@) =~= replaced(s@, pattern@, with@));
    }
    while i < n
        invariant
            n == s@.len(),
            i <= n,
            pattern@.len() > 0,
            out@ + replaced(s@.skip(i as int), pattern@, with@) == replaced(s@, pattern@, with@),
        decreases n - i,
    {
        let rest = slice_subrange(s, i, n);
        let ghost before = out@;
        proof {
            assert(rest@ =~= s@.skip(i as int));
            assert(rest@.skip(1) =~= s@.skip(i + 1));
        }
        if stands(rest, pattern, 0) {
            append(&mut out, with);
            let k: usize = pattern.len();
            proof {
                assert(rest@.skip(k as int) =~= s@.skip(i + k));
                assert(out@ + replaced(s@.skip(i + k), pattern@, with@) =~= before + (with@
                    + replaced(s@.skip(i + k), pattern@, with@)));
            }
            i += k;
        } else {
            out.push(s[i]);
            proof {
                assert(out@ + replaced(s@.skip(i + 1), pattern@, with@) =~= before + (seq![s@[i as int]]
                    + replaced(s@.skip(i + 1), pattern@, with@)));
            }
            i += 1;
        }
    }
    proof {
        assert(s@.skip(n as int) =~= Seq::empty());
        assert(out@ + replaced(s@.skip(n as int), pattern@, with@) =~= out@);
    }
    out
}

/// Open windows.
#[derive(Debug)]
pub struct WindowMode {
    pub list_cmd: String,
    pub activate_cmd: String,
    pub wm_type: WmType,
}

impl WindowMode {
    pub fn new() -> (r: WindowMode)
        ensures
            r.list_cmd@.len() == 0,
            r.activate_cmd@.len() == 0,
            r.wm_type == WmType::Wmctrl,
    {
        WindowMode { list_cmd: String::new(), activate_cmd: String::new(), wm_type: WmType::Wmctrl }
    }

    /// Find out which window manager answers and how.
    pub fn init(&mut self, list: &Option<String>, activate: &Option<String>, env: WmEnv)
        ensures
            final(self).wm_type == wm_type_of(env),
            list is Some && activate is Some ==> {
                &&& final(self).list_cmd@ == list->0@
                &&& final(self).activate_cmd@ == activate->0@
            },
            !(list is Some && activate is Some) ==> {
                &&& final(self).list_cmd@ == wm_list(wm_type_of(env))
                &&& final(self).activate_cmd@ == wm_activate(wm_type_of(env))
            },
    {
        let c = detect_window_commands(list, activate, env);
        self.list_cmd = c.list;
        self.activate_cmd = c.activate;
        self.wm_type = detect_wm(env);
    }
}

impl WindowMode {
    /// List the windows that the output of the listing command tells.
    pub fn get_windows(&self, output: &str) -> (r: Listing)
        ensures
            match self.wm_type {
                WmType::Sway => match json_of(output@) {
                    Ok(v) => r matches Ok(w) && are_windows(w@, sway_windows(v)),
                    Err(m) => r matches Err(e) && e@ == "swaymsg JSON parse: "@ + m,
                },
                WmType::Hyprland => match json_list_of(output@) {
                    Ok(l) => r matches Ok(w) && are_windows(w@, hypr_windows(l)),
                    Err(m) => r matches Err(e) && e@ == "hyprctl JSON parse: "@ + m,
                },
                WmType::Wmctrl => r matches Ok(w) && are_windows(
                    w@,
                    wmctrl_windows(split_on(output@, '\n')),
                ),
            },
    {
        match self.wm_type {
            WmType::Sway => get_sway_windows(output),
            WmType::Hyprland => get_hyprland_windows(output),
            WmType::Wmctrl => Ok(get_wmctrl_windows(output)),
        }
    }
}

/// The entries whose names match, best first and with their scores; all of them for
/// a blank query.
pub open spec fn found_by_name(l: Seq<AppEntry>, query: Seq<char>) -> Seq<AppEntry> {
    if trimmed(query).len() == 0 {
        l
    } else {
        scored(ranked(l, name_scores(l, trimmed(query))))
    }
}

/// The programs found for a query, as many as are shown at once.
pub open spec fn programs_found(names: Seq<Seq<char>>, query: Seq<char>, found: Seq<AppEntry>) -> bool {
    exists|all: Seq<AppEntry>|
        #[trigger] are_programs(all, names) && found == found_by_name(all, query).take(
            min_len(found_by_name(all, query).len(), RUN_LIMIT as nat) as int,
        )
}

impl SearchMode for WindowMode {
    fn search(&self, query: &str, listing: Listing) -> (r: SearchResult)
        ensures
            listing matches Err(e) ==> r == SearchResult::Error(e),
            listing matches Ok(w) ==> (r matches SearchResult::Entries(v) && v@ == (if trimmed(
                query@,
            ).len() == 0 {
                w@
            } else {
                scored(ranked(w@, name_scores(w@, trimmed(query@))))
            })),
            listing matches Ok(w) ==> (r matches SearchResult::Entries(v) && v@ == found_by_name(
                w@,
                query@,
            )),
    {
        let windows = match listing {
            Ok(w) => w,
            Err(e) => {
                return SearchResult::Error(e);
            },
        };
        let c = chars_of(query);
        let q = trim(c.as_slice());
        if q.len() == 0 {
            return SearchResult::Entries(windows);
        }
        let pattern = string_of(q);
        let scores = score_names(&windows, pattern.as_str());
        SearchResult::Entries(with_scores(rank_matches(&windows, &scores)))
    }

    fn execute(&self, entry: &AppEntry, tools: Tools) -> (r: Option<String>)
        ensures
            r matches Some(cmd) && cmd@ == replaced(
                self.activate_cmd@,
                seq!['{', 'i', 'd', '}'],
                entry.command@,
            ),
    {
        let a = chars_of(self.activate_cmd.as_str());
        let id = chars_of(entry.command.as_str());
        let mut p: Vec<char> = Vec::new();
        p.push('{');
        p.push('i');
        p.push('d');
        p.push('}');
        proof {
            assert(p@ =~= seq!['{', 'i', 'd', '}']);
        }
        let v = replace(a.as_slice(), p.as_slice(), id.as_slice());
        Some(string_of(v.as_slice()))
    }
}

impl SearchMode for CalcMode {
    fn search(&self, query: &str, listing: Listing) -> (r: SearchResult)
        ensures
            r matches SearchResult::Entries(v) && are_calc_rows(v@, query@),
    {
        SearchResult::Entries(CalcMode::rows(query))
    }

    fn execute(&self, entry: &AppEntry, tools: Tools) -> (r: Option<String>)
        ensures
            crate::node::opt_view(r) == copy_command(entry.command@, tools.wl_copy, tools.xclip),
    {
        clipboard_command(entry.command.as_str(), tools.wl_copy, tools.xclip)
    }
}

} // verus!
