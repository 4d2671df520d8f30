//! Launcher behavior shared by all window backends.
//!
//! Backends translate their events into keys, clicks and hovers. The core
//! answers with what to do: search, launch, close, or nothing.
use crate::bridge::{show_results, shows};
use crate::calc::{copy_line, copy_shell_line};
use crate::config::{KeyBinding, LauncherConfig, Modifiers};
use crate::entry::{copy_text, AppEntry, AppMode};
use crate::launcher::{clamp_index, notified, LauncherState, ObservableState};
use crate::modes::{replaced, SearchMode, Tools, WindowMode};
use crate::node::{NodeAction, ResolvedNode};
use crate::text::{append_str, chars_of, same_str, string_of};
use crate::theme::{effective, WindowTheme};
use vstd::prelude::*;
use vstd::slice::slice_subrange;

verus! {

/// A key, whatever the backend.
#[derive(Debug, Clone)]
pub enum UiKey {
    Char(String),
    Backspace,
    Escape,
    Enter,
    ArrowUp,
    ArrowDown,
    Home,
    End,
    PageUp,
    PageDown,
    Tab,
    BackTab,
}

/// The modifiers held down.
#[derive(Debug, Clone, Copy, PartialEq, Eq, Structural)]
pub struct UiMods {
    pub ctrl: bool,
    pub alt: bool,
    pub super_key: bool,
    pub shift: bool,
}

impl Default for UiMods {
    fn default() -> (r: Self)
        ensures
            r == (UiMods { ctrl: false, alt: false, super_key: false, shift: false }),
    {
        UiMods { ctrl: false, alt: false, super_key: false, shift: false }
    }
}

/// Whether the launcher is done.
#[derive(Debug, Clone, Copy, PartialEq, Eq, Structural)]
pub enum Outcome {
    /// Still open.
    Stay,
    /// Closed, or an entry is being launched.
    Exit,
}

/// What is left for the backend to do.
#[derive(Debug)]
pub enum Effect {
    Nothing,
    /// Search and show what was found.
    Search(String),
    /// Carry an entry out, with a command prefix if given.
    Launch(AppEntry, Option<String>),
}

/// The answer to an input.
#[derive(Debug)]
pub struct Reaction {
    pub outcome: Outcome,
    pub effect: Effect,
}

/// Nothing to do, and the launcher stays open.
pub open spec fn idle(r: Reaction) -> bool {
    r.outcome == Outcome::Stay && r.effect is Nothing
}

fn stay() -> (r: Reaction)
    ensures
        idle(r),
{
    Reaction { outcome: Outcome::Stay, effect: Effect::Nothing }
}

/// The launcher's behavior and state.
#[derive(Debug)]
pub struct AppCore {
    pub state: ObservableState,
    pub config: LauncherConfig,
    /// What was typed so far.
    pub input_buffer: String,
    /// When the launcher closes by itself, in milliseconds.
    pub auto_close: Option<u128>,
    pub size: (u32, u32),
    /// The theme follows the clock.
    pub uses_time: bool,
    /// The theme follows impacts.
    pub uses_impulse: bool,
}

/// The time to close at, if nothing happens from now on.
pub open spec fn deadline(secs: u64, now_ms: u64, before: Option<u128>) -> Option<u128> {
    if secs > 0 {
        Some((now_ms + secs * 1000) as u128)
    } else {
        before
    }
}

/// The prefix of the first binding of Return with exactly these modifiers.
pub open spec fn return_prefix(l: Seq<KeyBinding>, flags: u8) -> Option<String>
    decreases l.len(),
{
    if l.len() == 0 {
        None
    } else if l[0].key_name@ == "return"@ && l[0].modifiers.0 == flags {
        l[0].prefix
    } else {
        return_prefix(l.skip(1), flags)
    }
}

/// The prefix for Enter, with or without Ctrl.
pub open spec fn prefix_for(c: AppCore, ctrl: bool) -> Option<String> {
    return_prefix(
        c.config.bindings@,
        if ctrl {
            Modifiers::CTRL
        } else {
            0
        },
    )
}

/// The new core differs from the old one in its timer only.
pub open spec fn only_timer(old_core: AppCore, now_ms: u64, new_core: AppCore) -> bool {
    new_core == (AppCore {
        auto_close: deadline(old_core.config.auto_close_timeout_secs, now_ms, old_core.auto_close),
        ..old_core
    })
}

/// The launcher state was replaced and every subscriber told of it once; beyond
/// that the new core differs from the old one in its timer only.
pub open spec fn updates(old_core: AppCore, now_ms: u64, inner: LauncherState, new_core: AppCore) -> bool {
    &&& new_core.state.inner == inner
    &&& notified(old_core.state, new_core.state)
    &&& new_core == (AppCore {
        auto_close: deadline(old_core.config.auto_close_timeout_secs, now_ms, old_core.auto_close),
        state: new_core.state,
        ..old_core
    })
}

/// The launcher state with the selection moved.
pub open spec fn moved(s: LauncherState, delta: int) -> LauncherState {
    LauncherState {
        selected_index: if s.results@.len() == 0 {
            s.selected_index
        } else {
            clamp_index(s.selected_index + delta, s.results@.len()) as usize
        },
        ..s
    }
}

/// The launcher state with a row selected, if there is one.
pub open spec fn with_row(s: LauncherState, row: int) -> LauncherState {
    LauncherState {
        selected_index: if 0 <= row < s.results@.len() {
            row as usize
        } else {
            s.selected_index
        },
        ..s
    }
}

/// A row is selected; in an empty list there is nothing to do.
pub open spec fn jumps(old_core: AppCore, now_ms: u64, row: int, new_core: AppCore) -> bool {
    if old_core.state.inner.results@.len() > 0 {
        updates(old_core, now_ms, with_row(old_core.state.inner, row), new_core)
    } else {
        only_timer(old_core, now_ms, new_core)
    }
}

/// A search was asked for: the query is remembered as typed.
pub open spec fn searches(old_core: AppCore, now_ms: u64, q: Seq<char>, new_core: AppCore, r: Reaction) -> bool {
    &&& new_core.state == old_core.state
    &&& new_core.config == old_core.config
    &&& new_core.size == old_core.size
    &&& new_core.uses_time == old_core.uses_time
    &&& new_core.uses_impulse == old_core.uses_impulse
    &&& new_core.auto_close == deadline(
        old_core.config.auto_close_timeout_secs,
        now_ms,
        old_core.auto_close,
    )
    &&& new_core.input_buffer@ == q
    &&& r.outcome == Outcome::Stay
    &&& r.effect matches Effect::Search(s) && s@ == q
}

/// An activation: the given row, or the selected one, is launched and the
/// launcher is done; without such a row nothing happens.
pub open spec fn activates(
    old_core: AppCore,
    now_ms: u64,
    row: Option<usize>,
    prefix: Option<String>,
    new_core: AppCore,
    r: Reaction,
) -> bool {
    let s = old_core.state.inner;
    let i = match row {
        Some(k) => k,
        None => s.selected_index,
    };
    if i < s.results@.len() {
        &&& updates(
            old_core,
            now_ms,
            LauncherState { selected_index: i, launching: true, ..s },
            new_core,
        )
        &&& r.outcome == Outcome::Exit
        &&& r.effect == Effect::Launch(s.results@[i as int], prefix)
    } else {
        only_timer(old_core, now_ms, new_core) && idle(r)
    }
}

/// What a key does.
pub open spec fn key_done(
    old_core: AppCore,
    key: UiKey,
    mods: UiMods,
    now_ms: u64,
    new_core: AppCore,
    r: Reaction,
) -> bool {
    let s = old_core.state.inner;
    match key {
        UiKey::Escape => only_timer(old_core, now_ms, new_core) && r.outcome == Outcome::Exit
            && r.effect is Nothing,
        UiKey::Enter => activates(
            old_core,
            now_ms,
            None,
            prefix_for(old_core, mods.ctrl),
            new_core,
            r,
        ),
        UiKey::ArrowDown | UiKey::Tab => updates(old_core, now_ms, moved(s, 1), new_core)
            && idle(r),
        UiKey::ArrowUp | UiKey::BackTab => updates(old_core, now_ms, moved(s, -1), new_core)
            && idle(r),
        UiKey::Home => jumps(old_core, now_ms, 0, new_core) && idle(r),
        UiKey::End => jumps(old_core, now_ms, s.results@.len() - 1, new_core) && idle(r),
        UiKey::PageDown => updates(old_core, now_ms, moved(s, 6), new_core) && idle(r),
        UiKey::PageUp => updates(old_core, now_ms, moved(s, -6), new_core) && idle(r),
        UiKey::Backspace => searches(
            old_core,
            now_ms,
            if mods.ctrl || old_core.input_buffer@.len() == 0 {
                Seq::empty()
            } else {
                old_core.input_buffer@.drop_last()
            },
            new_core,
            r,
        ),
        UiKey::Char(t) => if mods.ctrl || mods.alt || mods.super_key {
            only_timer(old_core, now_ms, new_core) && idle(r)
        } else {
            searches(old_core, now_ms, old_core.input_buffer@ + t@, new_core, r)
        },
    }
}

/// The row that a click on a node is about: the action's own, else the row of
/// the repeater instance that the node belongs to.
pub open spec fn row_of(own: Option<usize>, node: Option<usize>) -> Option<usize> {
    match own {
        Some(i) => Some(i),
        None => node,
    }
}

/// What a click on a node with an action does.
pub open spec fn click_done(
    old_core: AppCore,
    action: NodeAction,
    node_row: Option<usize>,
    mods: UiMods,
    now_ms: u64,
    new_core: AppCore,
    r: Reaction,
) -> bool {
    let s = old_core.state.inner;
    match action {
        NodeAction::Activate(i) => activates(
            old_core,
            now_ms,
            row_of(i, node_row),
            prefix_for(old_core, mods.ctrl),
            new_core,
            r,
        ),
        NodeAction::Select(i) => match row_of(i, node_row) {
            Some(k) => updates(old_core, now_ms, with_row(s, k as int), new_core) && idle(r),
            None => only_timer(old_core, now_ms, new_core) && idle(r),
        },
        NodeAction::Move(d) => updates(old_core, now_ms, moved(s, d as int), new_core)
            && idle(r),
        NodeAction::SetQuery(q) => searches(old_core, now_ms, q@, new_core, r),
        NodeAction::Close => only_timer(old_core, now_ms, new_core) && r.outcome == Outcome::Exit
            && r.effect is Nothing,
    }
}

/// The row that hovering over a node selects.
pub open spec fn hovered_row(action: NodeAction, node_row: Option<usize>) -> Option<usize> {
    match action {
        NodeAction::Activate(i) => row_of(i, node_row),
        NodeAction::Select(i) => row_of(i, node_row),
        _ => None,
    }
}

impl AppCore {
    /// A launcher with nothing typed and nothing found.
    pub fn new(
        window: &WindowTheme,
        config: LauncherConfig,
        size_override: Option<(u32, u32)>,
        now_ms: u64,
    ) -> (r: AppCore)
        ensures
            r.config == config,
            r.state.inner.query@.len() == 0 && r.state.inner.results@.len() == 0,
            r.state.inner.selected_index == 0,
            !r.state.inner.loading && !r.state.inner.launching && r.state.inner.error is None,
            r.state.subscribers == 0 && r.state.calls@.len() == 0,
            r.input_buffer@.len() == 0,
            r.auto_close == deadline(config.auto_close_timeout_secs, now_ms, None),
            !r.uses_time && !r.uses_impulse,
            match size_override {
                Some(s) => r.size == s,
                None => {
                    &&& r.size.0 == effective(
                        window.width,
                        if config.window_width < 1 {
                            1
                        } else {
                            config.window_width as u32
                        },
                    )
                    &&& r.size.1 == effective(
                        window.height,
                        if config.window_height < 1 {
                            1
                        } else {
                            config.window_height as u32
                        },
                    )
                },
            },
    {
        let size = match size_override {
            Some(s) => s,
            None => window.effective_size(config.fallback_size()),
        };
        let mut core = AppCore {
            state: ObservableState::new(LauncherState::new()),
            config,
            input_buffer: String::new(),
            auto_close: None,
            size,
            uses_time: false,
            uses_impulse: false,
        };
        core.reset_idle_timer(now_ms);
        core
    }

    /// Adopt a new window size; empty sizes are ignored.
    pub fn set_size(&mut self, w: u32, h: u32)
        ensures
            *final(self) == (AppCore {
                size: if w > 0 && h > 0 {
                    (w, h)
                } else {
                    old(self).size
                },
                ..*old(self)
            }),
    {
        if w > 0 && h > 0 {
            self.size = (w, h);
        }
    }

    /// Whether a deadline is set.
    pub fn auto_close_pending(&self) -> (r: bool)
        ensures
            r == (self.auto_close is Some),
    {
        self.auto_close.is_some()
    }

    /// Whether the deadline has passed.
    pub fn auto_close_expired(&self, now_ms: u64) -> (r: bool)
        ensures
            r == (match self.auto_close {
                Some(d) => now_ms >= d,
                None => false,
            }),
    {
        match self.auto_close {
            Some(d) => now_ms as u128 >= d,
            None => false,
        }
    }

    /// Whether frames have to go on: something moves, the theme follows the
    /// clock, or it follows an impact that is still felt.
    pub fn needs_frame(&self, animating: bool, impulse_active: bool) -> (r: bool)
        ensures
            r == (animating || self.uses_time || (self.uses_impulse && impulse_active)),
    {
        animating || self.uses_time || (self.uses_impulse && impulse_active)
    }

    fn reset_idle_timer(&mut self, now_ms: u64)
        ensures
            only_timer(*old(self), now_ms, *final(self)),
    {
        let secs: u64 = self.config.auto_close_timeout_secs;
        if secs > 0 {
            self.auto_close = Some(now_ms as u128 + secs as u128 * 1000);
        }
    }

    fn set_query(&mut self, q: String, now_ms: u64) -> (r: Reaction)
        ensures
            searches(*old(self), now_ms, q@, *final(self), r),
    {
        self.reset_idle_timer(now_ms);
        self.input_buffer = q.clone();
        Reaction { outcome: Outcome::Stay, effect: Effect::Search(q) }
    }

    fn enter_prefix(&self, ctrl: bool) -> (r: Option<String>)
        ensures
            r == prefix_for(*self, ctrl),
    {
        let flags: u8 = if ctrl {
            Modifiers::CTRL
        } else {
            0
        };
        let l = &self.config.bindings;
        let mut i: usize = 0;
        proof {
            assert(l@.skip(0) =~= l@);
        }
        while i < l.len()
            invariant
                i <= l@.len(),
                l@ == self.config.bindings@,
                flags == (if ctrl {
                    Modifiers::CTRL
                } else {
                    0
                }),
                return_prefix(l@, flags) == return_prefix(l@.skip(i as int), flags),
            decreases l@.len() - i,
        {
            proof {
                assert(l@.skip(i as int).skip(1) =~= l@.skip(i + 1));
            }
            if same_str(l[i].key_name.as_str(), "return") && l[i].modifiers.0 == flags {
                return copy_text(&l[i].prefix);
            }
            i += 1;
        }
        None
    }

    fn activate(&mut self, row: Option<usize>, prefix: Option<String>, now_ms: u64) -> (r: Reaction)
        ensures
            activates(*old(self), now_ms, row, prefix, *final(self), r),
    {
        self.reset_idle_timer(now_ms);
        let i: usize = match row {
            Some(k) => k,
            None => self.state.inner.selected_index,
        };
        if i < self.state.inner.results.len() {
            let entry = self.state.inner.results[i].copy();
            let mut s = self.state.lift();
            s.selected_index = i;
            s.launching = true;
            self.state.settle(s);
            Reaction { outcome: Outcome::Exit, effect: Effect::Launch(entry, prefix) }
        } else {
            stay()
        }
    }

    fn move_by(&mut self, delta: i32, now_ms: u64) -> (r: Reaction)
        ensures
            updates(*old(self), now_ms, moved(old(self).state.inner, delta as int), *final(self)),
            idle(r),
    {
        self.reset_idle_timer(now_ms);
        let mut s = self.state.lift();
        s.select_next(delta);
        self.state.settle(s);
        stay()
    }

    fn select_row(&mut self, row: usize, now_ms: u64) -> (r: Reaction)
        ensures
            updates(*old(self), now_ms, with_row(old(self).state.inner, row as int), *final(self)),
            idle(r),
    {
        self.reset_idle_timer(now_ms);
        let mut s = self.state.lift();
        s.select(row);
        self.state.settle(s);
        stay()
    }

    /// React to a key.
    pub fn handle_key(&mut self, key: UiKey, mods: UiMods, now_ms: u64) -> (r: Reaction)
        ensures
            key_done(*old(self), key, mods, now_ms, *final(self), r),
    {
        match key {
            UiKey::Escape => {
                self.reset_idle_timer(now_ms);
                Reaction { outcome: Outcome::Exit, effect: Effect::Nothing }
            },
            UiKey::Enter => {
                let prefix = self.enter_prefix(mods.ctrl);
                self.activate(None, prefix, now_ms)
            },
            UiKey::ArrowDown => self.move_by(1, now_ms),
            UiKey::Tab => self.move_by(1, now_ms),
            UiKey::ArrowUp => self.move_by(-1, now_ms),
            UiKey::BackTab => self.move_by(-1, now_ms),
            UiKey::Home => {
                if self.state.inner.results.len() > 0 {
                    self.select_row(0, now_ms)
                } else {
                    self.reset_idle_timer(now_ms);
                    stay()
                }
            },
            UiKey::End => {
                let n: usize = self.state.inner.results.len();
                if n > 0 {
                    self.select_row(n - 1, now_ms)
                } else {
                    self.reset_idle_timer(now_ms);
                    stay()
                }
            },
            UiKey::PageDown => self.move_by(6, now_ms),
            UiKey::PageUp => self.move_by(-6, now_ms),
            UiKey::Backspace => {
                let c = chars_of(self.input_buffer.as_str());
                let n: usize = c.len();
                if mods.ctrl || n == 0 {
                    self.set_query(String::new(), now_ms)
                } else {
                    let s = slice_subrange(c.as_slice(), 0, n - 1);
                    proof {
                        assert(s@ =~= c@.drop_last());
                    }
                    let q = string_of(s);
                    self.set_query(q, now_ms)
                }
            },
            UiKey::Char(t) => {
                if mods.ctrl || mods.alt || mods.super_key {
                    self.reset_idle_timer(now_ms);
                    stay()
                } else {
                    let mut c = chars_of(self.input_buffer.as_str());
                    append_str(&mut c, t.as_str());
                    let q = string_of(c.as_slice());
                    self.set_query(q, now_ms)
                }
            },
        }
    }

    /// React to a click on the topmost node that has an action.
    pub fn handle_click(
        &mut self,
        action: &NodeAction,
        node_row: Option<usize>,
        mods: UiMods,
        now_ms: u64,
    ) -> (r: Reaction)
        ensures
            click_done(*old(self), *action, node_row, mods, now_ms, *final(self), r),
    {
        match action {
            NodeAction::Activate(i) => {
                let prefix = self.enter_prefix(mods.ctrl);
                let row = match i {
                    Some(k) => Some(*k),
                    None => node_row,
                };
                self.activate(row, prefix, now_ms)
            },
            NodeAction::Select(i) => {
                let row = match i {
                    Some(k) => Some(*k),
                    None => node_row,
                };
                match row {
                    Some(k) => self.select_row(k, now_ms),
                    None => {
                        self.reset_idle_timer(now_ms);
                        stay()
                    },
                }
            },
            NodeAction::Move(d) => self.move_by(*d, now_ms),
            NodeAction::SetQuery(q) => self.set_query(q.clone(), now_ms),
            NodeAction::Close => {
                self.reset_idle_timer(now_ms);
                Reaction { outcome: Outcome::Exit, effect: Effect::Nothing }
            },
        }
    }

    /// Hovering over a row's node selects the row, if it is not selected yet.
    pub fn handle_hover(&mut self, action: &NodeAction, node_row: Option<usize>, now_ms: u64)
        ensures
            match hovered_row(*action, node_row) {
                Some(k) => if k == old(self).state.inner.selected_index {
                    *final(self) == *old(self)
                } else {
                    updates(
                        *old(self),
                        now_ms,
                        with_row(old(self).state.inner, k as int),
                        *final(self),
                    )
                },
                None => *final(self) == *old(self),
            },
            hover_done(*old(self), *action, node_row, now_ms, *final(self)),
    {
        let row = match action {
            NodeAction::Activate(i) => match i {
                Some(k) => Some(*k),
                None => node_row,
            },
            NodeAction::Select(i) => match i {
                Some(k) => Some(*k),
                None => node_row,
            },
            _ => None,
        };
        match row {
            Some(k) => {
                if k != self.state.inner.selected_index {
                    self.select_row(k, now_ms);
                }
            },
            None => {},
        }
    }

    /// Show what a search has found, and tell every subscriber once.
    pub fn finish_search(&mut self, query: &str, results: Vec<AppEntry>)
        ensures
            *final(self) == (AppCore { state: final(self).state, ..*old(self) }),
            shows(old(self).state.inner, query@, results, final(self).state.inner),
            notified(old(self).state, final(self).state),
    {
        show_results(&mut self.state, query, results);
    }
}

/// No input takes the selection out of bounds.
pub proof fn input_keeps_selection_in_bounds(
    old_core: AppCore,
    key: UiKey,
    mods: UiMods,
    now_ms: u64,
    new_core: AppCore,
    r: Reaction,
)
    requires
        old_core.state.inner.in_bounds(),
        key_done(old_core, key, mods, now_ms, new_core, r),
    ensures
        new_core.state.inner.in_bounds(),
        new_core.state.inner.results == old_core.state.inner.results,
{
}

/// No click takes the selection out of bounds.
pub proof fn click_keeps_selection_in_bounds(
    old_core: AppCore,
    action: NodeAction,
    node_row: Option<usize>,
    mods: UiMods,
    now_ms: u64,
    new_core: AppCore,
    r: Reaction,
)
    requires
        old_core.state.inner.in_bounds(),
        click_done(old_core, action, node_row, mods, now_ms, new_core, r),
    ensures
        new_core.state.inner.in_bounds(),
        new_core.state.inner.results == old_core.state.inner.results,
{
}

/// A key that changes the state tells every subscriber once; otherwise nobody is
/// told and the state stays.
pub proof fn changes_by_keys_are_told(
    old_core: AppCore,
    key: UiKey,
    mods: UiMods,
    now_ms: u64,
    new_core: AppCore,
    r: Reaction,
)
    requires
        key_done(old_core, key, mods, now_ms, new_core, r),
    ensures
        notified(old_core.state, new_core.state) || new_core.state == old_core.state,
{
}

/// A click that changes the state tells every subscriber once; otherwise nobody
/// is told and the state stays.
pub proof fn changes_by_clicks_are_told(
    old_core: AppCore,
    action: NodeAction,
    node_row: Option<usize>,
    mods: UiMods,
    now_ms: u64,
    new_core: AppCore,
    r: Reaction,
)
    requires
        click_done(old_core, action, node_row, mods, now_ms, new_core, r),
    ensures
        notified(old_core.state, new_core.state) || new_core.state == old_core.state,
{
}

/// Typing a text and erasing its last character returns to what was typed before.
pub proof fn backspace_undoes_typing(
    a: AppCore,
    t: String,
    now1: u64,
    b: AppCore,
    r1: Reaction,
    now2: u64,
    c: AppCore,
    r2: Reaction,
)
    requires
        t@.len() == 1,
        key_done(
            a,
            UiKey::Char(t),
            UiMods { ctrl: false, alt: false, super_key: false, shift: false },
            now1,
            b,
            r1,
        ),
        key_done(
            b,
            UiKey::Backspace,
            UiMods { ctrl: false, alt: false, super_key: false, shift: false },
            now2,
            c,
            r2,
        ),
    ensures
        c.input_buffer@ == a.input_buffer@,
        r2.effect matches Effect::Search(q) && q@ == a.input_buffer@,
{
    assert((a.input_buffer@ + t@).drop_last() =~= a.input_buffer@);
}

/// A launcher that exits through a launch has an entry to launch, and marks it.
pub proof fn launching_is_marked(
    old_core: AppCore,
    key: UiKey,
    mods: UiMods,
    now_ms: u64,
    new_core: AppCore,
    r: Reaction,
)
    requires
        key_done(old_core, key, mods, now_ms, new_core, r),
    ensures
        r.effect is Launch ==> r.outcome == Outcome::Exit && new_core.state.inner.launching
            && new_core.state.inner.selected() == Some(r.effect->Launch_0),
        !(r.effect is Launch) ==> new_core.state.inner.launching == old_core.state.inner.launching,
{
}

/// What hovering over a node leaves behind.
pub open spec fn hover_done(
    old_core: AppCore,
    action: NodeAction,
    node_row: Option<usize>,
    now_ms: u64,
    new_core: AppCore,
) -> bool {
    let s = old_core.state.inner;
    let row = hovered_row(action, node_row);
    if row is Some && row->0 != s.selected_index {
        updates(old_core, now_ms, with_row(s, row->0 as int), new_core)
    } else {
        new_core == old_core
    }
}

/// A node that reacts to the pointer.
pub open spec fn reacts(nodes: Seq<ResolvedNode>, solid: Seq<bool>, hit: Seq<bool>, i: int) -> bool {
    nodes[i].action is Some && solid[i] && hit[i]
}

/// The node that a pointer picks: the last that reacts, as later nodes lie on top.
pub open spec fn picks(
    nodes: Seq<ResolvedNode>,
    solid: Seq<bool>,
    hit: Seq<bool>,
    r: Option<usize>,
) -> bool {
    match r {
        Some(i) => i < nodes.len() && reacts(nodes, solid, hit, i as int) && forall|k: int|
            0 <= k < nodes.len() && #[trigger] reacts(nodes, solid, hit, k) ==> k <= i,
        None => forall|k: int| 0 <= k < nodes.len() ==> !#[trigger] reacts(nodes, solid, hit, k),
    }
}

/// The topmost node under the pointer that has an action. `solid` tells which
/// nodes are opaque enough to be hit, `hit` which of them the pointer is over.
pub fn topmost_actionable(nodes: &Vec<ResolvedNode>, solid: &Vec<bool>, hit: &Vec<bool>) -> (r: Option<
    usize,
>)
    requires
        solid@.len() == nodes@.len(),
        hit@.len() == nodes@.len(),
    ensures
        r matches Some(i) ==> i < nodes@.len() && reacts(nodes@, solid@, hit@, i as int) && forall|
            k: int,
        |
            i < k < nodes@.len() ==> !#[trigger] reacts(nodes@, solid@, hit@, k),
        r is None ==> forall|k: int|
            0 <= k < nodes@.len() ==> !#[trigger] reacts(nodes@, solid@, hit@, k),
        picks(nodes@, solid@, hit@, r),
{
    let mut n: usize = nodes.len();
    while n > 0
        invariant
            n <= nodes@.len(),
            solid@.len() == nodes@.len(),
            hit@.len() == nodes@.len(),
            forall|k: int| n <= k < nodes@.len() ==> !#[trigger] reacts(nodes@, solid@, hit@, k),
        decreases n,
    {
        n -= 1;
        if nodes[n].action.is_some() && solid[n] && hit[n] {
            return Some(n);
        }
    }
    None
}

/// How an entry is carried out.
#[derive(Debug)]
pub struct LaunchPlan {
    /// The shell command, if there is one.
    pub command: Option<String>,
    /// Whether the launch counts for the history.
    pub record: bool,
}

/// A command with a prefix in front.
pub open spec fn prefixed(prefix: Option<Seq<char>>, command: Seq<char>) -> Seq<char> {
    match prefix {
        Some(p) => p + seq![' '] + command,
        None => command,
    }
}

/// The command of a launch: results are copied, windows are activated, anything
/// else is run behind its prefix.
pub open spec fn launch_command(
    e: AppEntry,
    prefix: Option<Seq<char>>,
    tools: Tools,
    activate: Option<Seq<char>>,
) -> Option<Seq<char>> {
    match e.mode {
        AppMode::Calc => copy_line(e.command@, tools.wl_copy, tools.xclip),
        AppMode::Window => match activate {
            Some(a) => Some(replaced(a, seq!['{', 'i', 'd', '}'], e.command@)),
            None => None,
        },
        _ => Some(prefixed(prefix, e.command@)),
    }
}

/// A launch that counts for the history.
pub open spec fn counts_as_launch(m: AppMode) -> bool {
    m == AppMode::Drun || m == AppMode::Run
}

/// Plan a launch. Only applications and programs count for the history.
pub fn plan_launch(entry: &AppEntry, prefix: &Option<String>, tools: Tools, windows: Option<&WindowMode>) -> (r:
    LaunchPlan)
    ensures
        crate::node::opt_view(r.command) == launch_command(
            *entry,
            crate::node::opt_view(*prefix),
            tools,
            match windows {
                Some(w) => Some(w.activate_cmd@),
                None => None,
            },
        ),
        r.record == (entry.mode == AppMode::Drun || entry.mode == AppMode::Run),
        r.record == counts_as_launch(entry.mode),
{
    match entry.mode {
        AppMode::Calc => LaunchPlan {
            command: copy_shell_line(entry.command.as_str(), tools.wl_copy, tools.xclip),
            record: false,
        },
        AppMode::Window => match windows {
            Some(w) => LaunchPlan { command: w.execute(entry, tools), record: false },
            None => LaunchPlan { command: None, record: false },
        },
        _ => {
            let cmd = match prefix {
                Some(p) => {
                    let mut t = chars_of(p.as_str());
                    t.push(' ');
                    append_str(&mut t, entry.command.as_str());
                    proof {
                        assert(t@ =~= p@ + seq![' '] + entry.command@);
                    }
                    string_of(t.as_slice())
                },
                None => entry.command.clone(),
            };
            LaunchPlan { command: Some(cmd), record: true }
        },
    }
}

} // verus!
