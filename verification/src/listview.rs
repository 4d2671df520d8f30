//! A plain list of results: labels, navigation and what a launch is about.
use crate::config::{KeyBinding, Modifiers};
use crate::entry::{copy_text, AppMode};
use crate::text::same_str;
use vstd::prelude::*;

verus! {

/// The label of an entry's mode.
pub open spec fn label_of(m: AppMode) -> Seq<char> {
    match m {
        AppMode::Drun => "app"@,
        AppMode::Run => "terminal"@,
        AppMode::Window => "window"@,
        AppMode::Calc => "calc"@,
    }
}

pub fn mode_label(m: AppMode) -> (r: &'static str)
    ensures
        r@ == label_of(m),
{
    match m {
        AppMode::Drun => "app",
        AppMode::Run => "terminal",
        AppMode::Window => "window",
        AppMode::Calc => "calc",
    }
}

/// The row that navigation leads to: the neighbour, stopping at either end; the
/// first or the last row where none was selected.
pub open spec fn navigated(count: nat, current: Option<u32>, delta: i32) -> int {
    match current {
        None => if delta > 0 {
            0
        } else {
            count - 1
        },
        Some(c) => if c + delta < 0 {
            0
        } else if c + delta >= count {
            count - 1
        } else {
            c + delta
        },
    }
}

/// Move the selection of a list; an empty list has none.
pub fn navigate(count: u32, current: Option<u32>, delta: i32) -> (r: Option<u32>)
    ensures
        count == 0 ==> r is None,
        count > 0 ==> r is Some && r->0 == navigated(count as nat, current, delta) && r->0 < count,
{
    if count == 0 {
        return None;
    }
    match current {
        None => if delta > 0 {
            Some(0)
        } else {
            Some(count - 1)
        },
        Some(c) => {
            let t: i64 = c as i64 + delta as i64;
            if t < 0 {
                Some(0)
            } else if t >= count as i64 {
                Some(count - 1)
            } else {
                Some(t as u32)
            }
        },
    }
}

/// What a key does to a list.
#[derive(Debug)]
pub enum ListKey {
    Close,
    /// Launch, with a command prefix if the binding has one.
    Launch(Option<String>),
    Navigate(i32),
    /// The key is left to the input field.
    Pass,
}

/// The first binding of a key with exactly these modifiers.
pub open spec fn bound(l: Seq<KeyBinding>, name: Seq<char>, mods: Modifiers) -> Option<KeyBinding>
    decreases l.len(),
{
    if l.len() == 0 {
        None
    } else if l[0].key_name@ == name && l[0].modifiers == mods {
        Some(l[0])
    } else {
        bound(l.skip(1), name, mods)
    }
}

pub open spec fn moves_down(sym: u32) -> bool {
    sym == 0xff54 || sym == 0xff9a
}

pub open spec fn moves_up(sym: u32) -> bool {
    sym == 0xff52 || sym == 0xff98
}

/// What a key does in the list.
pub open spec fn pressed(
    sym: u32,
    name: Seq<char>,
    mods: Modifiers,
    bindings: Seq<KeyBinding>,
    typing: bool,
    r: ListKey,
) -> bool {
    if sym == 0xff1b {
        r is Close
    } else if bound(bindings, name, mods) is Some {
        r == ListKey::Launch(bound(bindings, name, mods)->0.prefix)
    } else if !typing && moves_down(sym) {
        r matches ListKey::Navigate(d) && d == 1
    } else if !typing && moves_up(sym) {
        r matches ListKey::Navigate(d) && d == -1
    } else {
        r is Pass
    }
}

/// React to a key: Escape closes, a bound key launches, arrows move unless the
/// input field has the focus, anything else passes.
pub fn press(sym: u32, name: &str, mods: Modifiers, bindings: &Vec<KeyBinding>, typing: bool) -> (r:
    ListKey)
    ensures
        sym == 0xff1b ==> r is Close,
        sym != 0xff1b ==> match bound(bindings@, name@, mods) {
            Some(b) => r == ListKey::Launch(b.prefix),
            None => if !typing && moves_down(sym) {
                r matches ListKey::Navigate(d) && d == 1
            } else if !typing && moves_up(sym) {
                r matches ListKey::Navigate(d) && d == -1
            } else {
                r is Pass
            },
        },
        pressed(sym, name@, mods, bindings@, typing, r),
{
    if sym == 0xff1b {
        return ListKey::Close;
    }
    let mut i: usize = 0;
    proof {
        assert(bindings@.skip(0) =~= bindings@);
    }
    while i < bindings.len()
        invariant
            sym != 0xff1b,
            i <= bindings@.len(),
            bound(bindings@, name@, mods) == bound(bindings@.skip(i as int), name@, mods),
        decreases bindings@.len() - i,
    {
        proof {
            assert(bindings@.skip(i as int).skip(1) =~= bindings@.skip(i + 1));
        }
        if same_str(bindings[i].key_name.as_str(), name) && bindings[i].modifiers == mods {
            return ListKey::Launch(copy_text(&bindings[i].prefix));
        }
        i += 1;
    }
    if !typing && (sym == 0xff54 || sym == 0xff9a) {
        ListKey::Navigate(1)
    } else if !typing && (sym == 0xff52 || sym == 0xff98) {
        ListKey::Navigate(-1)
    } else {
        ListKey::Pass
    }
}

/// The entry that a launch is about: the selected one, else the first.
pub fn launch_target(count: usize, selected: Option<usize>) -> (r: Option<usize>)
    ensures
        count == 0 ==> r is None,
        count > 0 ==> r == Some(
            match selected {
                Some(i) => if i < count {
                    i
                } else {
                    0
                },
                None => 0usize,
            },
        ),
{
    if count == 0 {
        return None;
    }
    match selected {
        Some(i) => if i < count {
            Some(i)
        } else {
            Some(0)
        },
        None => Some(0),
    }
}

/// The height left for the list below the input.
pub fn list_height(window_height: i32) -> (r: i32)
    ensures
        r == (if window_height - 100 < 100 {
            100
        } else {
            window_height - 100
        }),
{
    if window_height < 200 {
        100
    } else {
        window_height - 100
    }
}

} // verus!
