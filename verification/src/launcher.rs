//! Launcher state: the single source of truth that the interface shows.
use crate::entry::{copy_entries, copy_text, AppEntry};
use vstd::prelude::*;

verus! {

/// What a theme can see of the launcher.
#[derive(Debug, Clone)]
pub struct LauncherState {
    pub query: String,
    pub results: Vec<AppEntry>,
    pub selected_index: usize,
    pub loading: bool,
    /// True once an entry has been activated.
    pub launching: bool,
    pub error: Option<String>,
}

/// `i` brought into `0..len`, or zero where there is nothing to select.
pub open spec fn clamp_index(i: int, len: nat) -> int {
    if len == 0 || i < 0 {
        0
    } else if i >= len {
        len - 1
    } else {
        i
    }
}

impl LauncherState {
    /// The selection lies within the results; with no results it is zero.
    pub open spec fn in_bounds(self) -> bool {
        self.selected_index == clamp_index(self.selected_index as int, self.results@.len())
    }

    pub fn new() -> (r: LauncherState)
        ensures
            r.query@.len() == 0,
            r.results@.len() == 0,
            r.selected_index == 0,
            !r.loading,
            !r.launching,
            r.error is None,
            r.in_bounds(),
    {
        LauncherState {
            query: String::new(),
            results: Vec::new(),
            selected_index: 0,
            loading: false,
            launching: false,
            error: None,
        }
    }

    /// The entry that the selection points at.
    pub open spec fn selected(self) -> Option<AppEntry> {
        if self.selected_index < self.results@.len() {
            Some(self.results@[self.selected_index as int])
        } else {
            None
        }
    }

    pub fn selected_result(&self) -> (r: Option<&AppEntry>)
        ensures
            r matches Some(e) ==> self.selected() == Some(*e),
            r is None ==> self.selected() is None,
            self.in_bounds() && self.results@.len() > 0 ==> r is Some,
    {
        if self.selected_index < self.results.len() {
            Some(&self.results[self.selected_index])
        } else {
            None
        }
    }

    pub fn results_count(&self) -> (r: usize)
        ensures
            r == self.results@.len(),
    {
        self.results.len()
    }

    /// Replace the results; the selection stays where it is if it still fits.
    pub fn set_results(&mut self, results: Vec<AppEntry>)
        ensures
            *final(self) == (LauncherState {
                results,
                selected_index: clamp_index(
                    old(self).selected_index as int,
                    results@.len(),
                ) as usize,
                ..*old(self)
            }),
            final(self).in_bounds(),
    {
        let n: usize = results.len();
        self.results = results;
        if n == 0 {
            self.selected_index = 0;
        } else if self.selected_index >= n {
            self.selected_index = n - 1;
        }
    }

    /// Move the selection by `delta` rows, stopping at either end.
    pub fn select_next(&mut self, delta: i32)
        ensures
            *final(self) == (LauncherState {
                selected_index: if old(self).results@.len() == 0 {
                    old(self).selected_index
                } else {
                    clamp_index(
                        old(self).selected_index + delta,
                        old(self).results@.len(),
                    ) as usize
                },
                ..*old(self)
            }),
            old(self).in_bounds() ==> final(self).in_bounds(),
    {
        let n: usize = self.results.len();
        if n == 0 {
            return;
        }
        let target: i128 = self.selected_index as i128 + delta as i128;
        self.selected_index =
        if target < 0 {
            0
        } else if target >= n as i128 {
            n - 1
        } else {
            target as usize
        };
    }

    /// Select row `idx` if there is one.
    pub fn select(&mut self, idx: usize)
        ensures
            *final(self) == (LauncherState {
                selected_index: if idx < old(self).results@.len() {
                    idx
                } else {
                    old(self).selected_index
                },
                ..*old(self)
            }),
            old(self).in_bounds() ==> final(self).in_bounds(),
    {
        if idx < self.results.len() {
            self.selected_index = idx;
        }
    }

    /// A copy of the state.
    pub fn copy(&self) -> (r: LauncherState)
        ensures
            r.query == self.query,
            r.results@ == self.results@,
            r.selected_index == self.selected_index,
            r.loading == self.loading,
            r.launching == self.launching,
            r.error == self.error,
    {
        LauncherState {
            query: self.query.clone(),
            results: copy_entries(&self.results),
            selected_index: self.selected_index,
            loading: self.loading,
            launching: self.launching,
            error: copy_text(&self.error),
        }
    }
}

impl Default for LauncherState {
    fn default() -> (r: Self)
        ensures
            r.query@.len() == 0,
            r.results@.len() == 0,
            r.selected_index == 0,
            !r.loading,
            !r.launching,
            r.error is None,
    {
        LauncherState::new()
    }
}

/// Moving by one row and back again returns to the same row, unless the first
/// step ran into an end.
pub proof fn step_and_back(len: nat, i: int, delta: int)
    requires
        0 <= i < len,
        0 <= i + delta < len,
    ensures
        clamp_index(clamp_index(i + delta, len) - delta, len) == i,
{
}

/// Replacing the results twice leaves the selection where the smaller list puts it.
pub proof fn selection_only_shrinks(i: int, first: nat, second: nat)
    requires
        0 <= i,
    ensures
        clamp_index(clamp_index(i, first), second) <= i,
        second <= first ==> clamp_index(clamp_index(i, first), second) == clamp_index(i, second),
{
}

/// Two states that show the same.
pub open spec fn same_state(a: LauncherState, b: LauncherState) -> bool {
    &&& a.query == b.query
    &&& a.results@ == b.results@
    &&& a.selected_index == b.selected_index
    &&& a.loading == b.loading
    &&& a.launching == b.launching
    &&& a.error == b.error
}

/// One call that is owed to a subscriber: who is told, and which state.
#[derive(Debug)]
pub struct Call {
    pub subscriber: usize,
    pub state: LauncherState,
}

/// A state with subscribers, who are numbered in the order in which they came.
/// An update lists the calls to make; whoever runs the subscribers takes them.
#[derive(Debug)]
pub struct ObservableState {
    pub inner: LauncherState,
    pub subscribers: usize,
    /// Calls not made yet, oldest first.
    pub calls: Vec<Call>,
}

/// Each of `n` subscribers is told the state once, in the order of their numbers.
pub open spec fn tells_all(calls: Seq<Call>, n: nat, s: LauncherState) -> bool {
    &&& calls.len() == n
    &&& forall|i: int|
        0 <= i < n ==> (#[trigger] calls[i]).subscriber == i && same_state(calls[i].state, s)
}

/// The calls that were added.
pub open spec fn new_calls(before: ObservableState, after: ObservableState) -> Seq<Call> {
    after.calls@.skip(before.calls@.len() as int)
}

/// All subscribers were told of the state that is there now, behind the calls
/// that were owed before.
pub open spec fn notified(before: ObservableState, after: ObservableState) -> bool {
    &&& after.subscribers == before.subscribers
    &&& after.calls@.len() >= before.calls@.len()
    &&& after.calls@.take(before.calls@.len() as int) == before.calls@
    &&& tells_all(new_calls(before, after), before.subscribers as nat, after.inner)
}

/// A subscriber came: nobody is told, and the state stays.
pub open spec fn subscribed(before: ObservableState, after: ObservableState, id: usize) -> bool {
    &&& id == before.subscribers
    &&& after.subscribers == id + 1
    &&& after.inner == before.inner
    &&& after.calls == before.calls
}

impl ObservableState {
    pub fn new(initial: LauncherState) -> (r: ObservableState)
        ensures
            r.inner == initial,
            r.subscribers == 0,
            r.calls@.len() == 0,
    {
        ObservableState { inner: initial, subscribers: 0, calls: Vec::new() }
    }

    pub fn get(&self) -> (r: LauncherState)
        ensures
            same_state(r, self.inner),
    {
        self.inner.copy()
    }

    /// Look at the state without copying it.
    pub fn with<R, F: FnOnce(&LauncherState) -> R>(&self, f: F) -> (r: R)
        requires
            call_requires(f, (&self.inner,)),
        ensures
            call_ensures(f, (&self.inner,), r),
    {
        f(&self.inner)
    }

    /// Replace the state by `f` of it, then tell every subscriber.
    pub fn update<F: FnOnce(LauncherState) -> LauncherState>(&mut self, f: F)
        requires
            call_requires(f, (old(self).inner,)),
        ensures
            call_ensures(f, (old(self).inner,), final(self).inner),
            notified(*old(self), *final(self)),
    {
        let now = self.lift();
        self.settle(f(now));
    }

    /// Take the state out to change it; nobody is told yet.
    pub(crate) fn lift(&mut self) -> (r: LauncherState)
        ensures
            r == old(self).inner,
            final(self).subscribers == old(self).subscribers,
            final(self).calls == old(self).calls,
    {
        let mut now = LauncherState::new();
        core::mem::swap(&mut self.inner, &mut now);
        now
    }

    /// Put a state in place and tell every subscriber.
    pub(crate) fn settle(&mut self, s: LauncherState)
        ensures
            final(self).inner == s,
            notified(*old(self), *final(self)),
    {
        self.inner = s;
        self.notify();
    }

    fn notify(&mut self)
        ensures
            final(self).inner == old(self).inner,
            notified(*old(self), *final(self)),
    {
        let ghost before = self.calls@;
        let mut i: usize = 0;
        while i < self.subscribers
            invariant
                i <= self.subscribers,
                before == old(self).calls@,
                self.inner == old(self).inner,
                self.subscribers == old(self).subscribers,
                self.calls@.len() == before.len() + i,
                self.calls@.take(before.len() as int) == before,
                forall|k: int|
                    0 <= k < i ==> {
                        let call = #[trigger] self.calls@[before.len() + k];
                        call.subscriber == k && same_state(call.state, self.inner)
                    },
            decreases self.subscribers - i,
        {
            let state = self.inner.copy();
            let ghost was = self.calls@;
            self.calls.push(Call { subscriber: i, state });
            proof {
                assert(self.calls@.take(before.len() as int) =~= was.take(before.len() as int));
                assert forall|k: int| 0 <= k < i + 1 implies {
                    let call = #[trigger] self.calls@[before.len() + k];
                    call.subscriber == k && same_state(call.state, self.inner)
                } by {
                    if k < i {
                        assert(self.calls@[before.len() + k] == was[before.len() + k]);
                    }
                }
            }
            i += 1;
        }
        proof {
            let added = new_calls(*old(self), *self);
            assert forall|k: int| 0 <= k < self.subscribers implies (#[trigger] added[k]).subscriber
                == k && same_state(added[k].state, self.inner) by {
                assert(added[k] == self.calls@[before.len() + k]);
            }
        }
    }

    /// A new subscriber, known by the returned number.
    pub fn subscribe(&mut self) -> (id: usize)
        requires
            old(self).subscribers < usize::MAX,
        ensures
            subscribed(*old(self), *final(self), id),
    {
        let id: usize = self.subscribers;
        self.subscribers = id + 1;
        id
    }

    /// Take the calls that are owed, oldest first, to make them.
    pub fn take_calls(&mut self) -> (r: Vec<Call>)
        ensures
            r@ == old(self).calls@,
            final(self).calls@.len() == 0,
            final(self).inner == old(self).inner,
            final(self).subscribers == old(self).subscribers,
    {
        let mut out: Vec<Call> = Vec::new();
        out.append(&mut self.calls);
        proof {
            assert(out@ =~= old(self).calls@);
        }
        out
    }
}

/// An update tells each subscriber exactly once, in the order in which they
/// subscribed, and tells all of them the state that is there afterwards.
pub proof fn subscribers_are_told_in_order(before: ObservableState, after: ObservableState)
    requires
        notified(before, after),
    ensures
        ({
            let calls = new_calls(before, after);
            &&& calls.len() == before.subscribers
            &&& forall|i: int, j: int|
                0 <= i < j < calls.len() ==> (#[trigger] calls[i]).subscriber < (#[trigger] calls[j]).subscriber
            &&& forall|id: usize|
                id < before.subscribers ==> (#[trigger] calls[id as int]).subscriber == id
            &&& forall|i: int|
                0 <= i < calls.len() ==> (#[trigger] calls[i]).subscriber < before.subscribers
                    && same_state(calls[i].state, after.inner)
        }),
{
}

/// Subscribing tells nobody, and from then on every update tells the new
/// subscriber once, after all who subscribed earlier.
pub proof fn later_subscribers_are_told_later(
    a: ObservableState,
    b: ObservableState,
    id: usize,
    before: ObservableState,
    after: ObservableState,
)
    requires
        subscribed(a, b, id),
        before.subscribers >= b.subscribers,
        notified(before, after),
    ensures
        same_state(b.inner, a.inner),
        b.calls@ == a.calls@,
        ({
            let calls = new_calls(before, after);
            &&& calls[id as int].subscriber == id
            &&& forall|i: int| 0 <= i < calls.len() && i != id ==> (#[trigger] calls[i]).subscriber != id
            &&& forall|i: int|
                0 <= i < calls.len() && (#[trigger] calls[i]).subscriber < a.subscribers ==> i < id
        }),
{
}

/// What the interface can ask of the launcher.
#[derive(Debug, Clone)]
pub enum LauncherAction {
    SetQuery(String),
    MoveSelection(i32),
    SetSelection(usize),
    /// Run the selected entry, with a command prefix if given.
    Activate(Option<String>),
    ActivateIndex(usize, Option<String>),
    Close,
    CopyToClipboard(String),
}

/// Something that carries out launcher actions.
pub trait ActionHandler {
    fn handle(&self, action: LauncherAction);
}

} // verus!
