//! Launcher entries and the modes they come from.
use crate::order::arranged;
use crate::text::{append, append_str, chars_of, string_of};
use vstd::prelude::*;

verus! {

/// Which search an entry belongs to.
#[derive(Debug, Clone, Copy, PartialEq, Eq, Structural, Hash)]
pub enum AppMode {
    /// Applications from `.desktop` files.
    Drun,
    /// Executables from `$PATH`.
    Run,
    /// Open windows.
    Window,
    /// Evaluated expressions.
    Calc,
}

impl Default for AppMode {
    fn default() -> (r: Self)
        ensures
            r == AppMode::Drun,
    {
        AppMode::Drun
    }
}

/// One selectable row.
#[derive(Debug, Clone)]
pub struct AppEntry {
    /// Stem of the file name, or another identifier of the source.
    pub id: String,
    /// Name shown to people.
    pub name: String,
    /// Command to run, without field codes.
    pub command: String,
    /// The `Comment=` text.
    pub description: Option<String>,
    pub mode: AppMode,
    /// Categories and keywords, separated by spaces.
    pub keywords: String,
    /// What the fuzzy matcher looks at.
    pub search_text: String,
    /// Relevance given by the search that found the entry.
    pub score: i64,
    /// The raw `Icon=` value: a name or a path.
    pub icon: String,
}

/// The text that a drun entry is searched by.
pub open spec fn drun_search_text(name: Seq<char>, keywords: Seq<char>) -> Seq<char> {
    if keywords.len() == 0 {
        name
    } else {
        name + seq![' '] + keywords
    }
}

impl AppEntry {
    /// An entry with no description, keywords, score or icon.
    pub open spec fn bare(self, mode: AppMode) -> bool {
        &&& self.description is None
        &&& self.mode == mode
        &&& self.keywords@.len() == 0
        &&& self.score == 0
        &&& self.icon@.len() == 0
    }

    pub fn drun(
        id: String,
        name: String,
        command: String,
        description: Option<String>,
        keywords: String,
    ) -> (r: AppEntry)
        ensures
            r.id == id,
            r.name == name,
            r.command == command,
            r.description == description,
            r.mode == AppMode::Drun,
            r.keywords == keywords,
            r.search_text@ == drun_search_text(name@, keywords@),
            r.score == 0,
            r.icon@.len() == 0,
    {
        let words = chars_of(keywords.as_str());
        let search_text = if words.len() == 0 {
            name.clone()
        } else {
            let mut t = chars_of(name.as_str());
            t.push(' ');
            append(&mut t, words.as_slice());
            proof {
                assert(t@ =~= name@ + seq![' '] + keywords@);
            }
            string_of(t.as_slice())
        };
        AppEntry {
            id,
            name,
            command,
            description,
            mode: AppMode::Drun,
            keywords,
            search_text,
            score: 0,
            icon: String::new(),
        }
    }

    pub fn run(id: String, name: String, command: String) -> (r: AppEntry)
        ensures
            r.id == id,
            r.name == name,
            r.command == command,
            r.search_text == name,
            r.bare(AppMode::Run),
    {
        let search_text = name.clone();
        AppEntry {
            id,
            name,
            command,
            description: None,
            mode: AppMode::Run,
            keywords: String::new(),
            search_text,
            score: 0,
            icon: String::new(),
        }
    }

    pub fn window(id: String, name: String, command: String) -> (r: AppEntry)
        ensures
            r.id == id,
            r.name == name,
            r.command == command,
            r.search_text == name,
            r.bare(AppMode::Window),
    {
        let search_text = name.clone();
        AppEntry {
            id,
            name,
            command,
            description: None,
            mode: AppMode::Window,
            keywords: String::new(),
            search_text,
            score: 0,
            icon: String::new(),
        }
    }

    /// The row `expression = result`; running it copies the result.
    pub fn calc_result(expression: String, result: String) -> (r: AppEntry)
        ensures
            r.id@.len() == 0,
            r.name@ == expression@ + " = "@ + result@,
            r.command == result,
            r.search_text@ == r.name@,
            r.bare(AppMode::Calc),
    {
        let mut t = chars_of(expression.as_str());
        append_str(&mut t, " = ");
        append_str(&mut t, result.as_str());
        let name = string_of(t.as_slice());
        let search_text = name.clone();
        AppEntry {
            id: String::new(),
            name,
            command: result,
            description: None,
            mode: AppMode::Calc,
            keywords: String::new(),
            search_text,
            score: 0,
            icon: String::new(),
        }
    }

    /// The row `Error: msg`; there is nothing to run.
    pub fn calc_error(msg: String) -> (r: AppEntry)
        ensures
            r.id@.len() == 0,
            r.name@ == "Error: "@ + msg@,
            r.command@.len() == 0,
            r.search_text@ == r.name@,
            r.bare(AppMode::Calc),
    {
        let mut t = chars_of("Error: ");
        append_str(&mut t, msg.as_str());
        let name = string_of(t.as_slice());
        let search_text = name.clone();
        AppEntry {
            id: String::new(),
            name,
            command: String::new(),
            description: None,
            mode: AppMode::Calc,
            keywords: String::new(),
            search_text,
            score: 0,
            icon: String::new(),
        }
    }

    /// A copy of the entry.
    pub fn copy(&self) -> (r: AppEntry)
        ensures
            r == *self,
    {
        AppEntry {
            id: self.id.clone(),
            name: self.name.clone(),
            command: self.command.clone(),
            description: copy_text(&self.description),
            mode: self.mode,
            keywords: self.keywords.clone(),
            search_text: self.search_text.clone(),
            score: self.score,
            icon: self.icon.clone(),
        }
    }
}

pub(crate) fn copy_text(t: &Option<String>) -> (r: Option<String>)
    ensures
        r == *t,
{
    match t {
        Some(s) => Some(s.clone()),
        None => None,
    }
}

pub fn copy_entries(entries: &Vec<AppEntry>) -> (r: Vec<AppEntry>)
    ensures
        r@ == entries@,
{
    let mut out: Vec<AppEntry> = Vec::new();
    let mut i: usize = 0;
    while i < entries.len()
        invariant
            i <= entries@.len(),
            out@ == entries@.take(i as int),
        decreases entries@.len() - i,
    {
        out.push(entries[i].copy());
        i += 1;
        proof {
            assert(entries@.take(i as int) =~= entries@.take(i - 1).push(entries@[i - 1]));
        }
    }
    proof {
        assert(entries@.take(entries@.len() as int) =~= entries@);
    }
    out
}

/// The entries at the listed positions.
pub fn arrange_entries(items: &Vec<AppEntry>, order: &Vec<usize>) -> (r: Vec<AppEntry>)
    requires
        forall|k: int| 0 <= k < order@.len() ==> #[trigger] order@[k] < items@.len(),
    ensures
        r@ == arranged(items@, order@.map_values(|x: usize| x as int)),
{
    let ghost rank = order@.map_values(|x: usize| x as int);
    let mut out: Vec<AppEntry> = Vec::new();
    let mut j: usize = 0;
    while j < order.len()
        invariant
            j <= order@.len(),
            rank == order@.map_values(|x: usize| x as int),
            forall|k: int| 0 <= k < order@.len() ==> #[trigger] order@[k] < items@.len(),
            out@ == arranged(items@, rank.take(j as int)),
        decreases order@.len() - j,
    {
        out.push(items[order[j]].copy());
        proof {
            assert(rank[j as int] == order@[j as int]);
            assert(out@ =~= arranged(items@, rank.take(j + 1)));
        }
        j += 1;
    }
    proof {
        assert(rank.take(order@.len() as int) =~= rank);
    }
    out
}

} // verus!
