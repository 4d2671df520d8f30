//! Windows: placement, frame pacing, buffers and pixels.
use crate::config::KeyboardModeConfig;
use crate::frontend::UiKey;
use crate::ransom::{control, visible};
use crate::text::{chars_of, same_str, string_of};
use vstd::prelude::*;

verus! {

// ---------------------------------------------------------------------------
// Placement
// ---------------------------------------------------------------------------

/// The layer of a surface, background to overlay.
pub open spec fn layer_of(s: Seq<char>) -> u32 {
    if s == "background"@ {
        0
    } else if s == "bottom"@ {
        1
    } else if s == "top"@ {
        2
    } else {
        3
    }
}

pub fn layer_number(s: &str) -> (r: u32)
    ensures
        r == layer_of(s@),
{
    if same_str(s, "background") {
        0
    } else if same_str(s, "bottom") {
        1
    } else if same_str(s, "top") {
        2
    } else {
        3
    }
}

/// How a surface is anchored.
#[derive(Debug, Clone, Copy, PartialEq, Eq, Structural)]
pub enum Edge {
    /// Centered, above the space that panels reserve.
    Center,
    Top,
    Bottom,
}

pub open spec fn edge_of(s: Seq<char>) -> Edge {
    if s == "top"@ {
        Edge::Top
    } else if s == "bottom"@ {
        Edge::Bottom
    } else {
        Edge::Center
    }
}

pub fn anchor_edge(s: &str) -> (r: Edge)
    ensures
        r == edge_of(s@),
{
    if same_str(s, "top") {
        Edge::Top
    } else if same_str(s, "bottom") {
        Edge::Bottom
    } else {
        Edge::Center
    }
}

/// The space a surface keeps from others: strips respect panels, centered ones
/// float above them.
pub fn exclusive_zone(e: Edge) -> (r: i32)
    ensures
        r == (if e == Edge::Center {
            -1int
        } else {
            0int
        }),
{
    match e {
        Edge::Center => -1,
        _ => 0,
    }
}

/// How a surface takes the keyboard, as the protocol numbers it.
pub fn keyboard_interactivity(m: KeyboardModeConfig) -> (r: u32)
    ensures
        r == (match m {
            KeyboardModeConfig::Exclusive => 1u32,
            KeyboardModeConfig::OnDemand => 2u32,
        }),
{
    match m {
        KeyboardModeConfig::Exclusive => 1,
        KeyboardModeConfig::OnDemand => 2,
    }
}

/// The size of a surface: what the compositor chose, else the theme's.
pub fn logical_size(configured: Option<(u32, u32)>, own: (u32, u32)) -> (r: (u32, u32))
    ensures
        r == (match configured {
            Some(c) => if c.0 > 0 && c.1 > 0 {
                c
            } else {
                own
            },
            None => own,
        }),
{
    match configured {
        Some(c) => if c.0 > 0 && c.1 > 0 {
            c
        } else {
            own
        },
        None => own,
    }
}

/// Whether a resize is adopted: to a real size, and a new one.
pub fn accepts_size(current: (u32, u32), w: u32, h: u32) -> (r: bool)
    ensures
        r == (w > 0 && h > 0 && current != (w, h)),
{
    w > 0 && h > 0 && (current.0 != w || current.1 != h)
}

// ---------------------------------------------------------------------------
// Frame pacing
// ---------------------------------------------------------------------------

/// Time between frames in motion.
pub const FRAME_MS: i32 = 16;

/// Time between frames for the clock alone, where a theme sets none.
pub const TIME_MS: i32 = 50;

/// Time between looks at the closing deadline.
pub const IDLE_TICK_MS: i32 = 250;

/// What keeps a launcher busy.
#[derive(Debug, Clone, Copy)]
pub struct Activity {
    pub animating: bool,
    /// The theme follows the clock.
    pub uses_time: bool,
    /// An impact is felt that the theme follows.
    pub impact: bool,
    /// Input changed the scene.
    pub dirty: bool,
    pub auto_close_pending: bool,
    /// Frames per second for the clock, if the theme sets them.
    pub time_hz: Option<u32>,
}

/// Time between frames for the clock alone.
pub open spec fn time_interval(hz: Option<u32>) -> int {
    match hz {
        Some(h) => if h == 0 {
            TIME_MS as int
        } else {
            1000int / (h as int)
        },
        None => TIME_MS as int,
    }
}

fn interval_ms(hz: Option<u32>) -> (r: i32)
    ensures
        r == time_interval(hz),
        0 <= r <= 1000,
{
    match hz {
        Some(h) => if h == 0 {
            TIME_MS
        } else {
            proof {
                assert(1000u32 / h <= 1000) by (nonlinear_arith)
                    requires
                        h >= 1,
                ;
            }
            (1000 / h) as i32
        },
        None => TIME_MS,
    }
}

pub open spec fn timeout_of(a: Activity) -> int {
    if a.animating || a.impact {
        FRAME_MS as int
    } else if a.uses_time {
        time_interval(a.time_hz)
    } else if a.dirty {
        0
    } else if a.auto_close_pending {
        IDLE_TICK_MS as int
    } else {
        -1
    }
}

/// How long to wait for events, in milliseconds; negative waits for ever.
pub fn frame_timeout_ms(a: Activity) -> (r: i32)
    ensures
        r == timeout_of(a),
{
    if a.animating || a.impact {
        FRAME_MS
    } else if a.uses_time {
        interval_ms(a.time_hz)
    } else if a.dirty {
        0
    } else if a.auto_close_pending {
        IDLE_TICK_MS
    } else {
        -1
    }
}

/// An idle launcher sleeps: nothing moves, nothing follows the clock, and no
/// deadline is set.
pub proof fn idle_costs_nothing(a: Activity)
    requires
        !a.animating && !a.uses_time && !a.impact && !a.dirty && !a.auto_close_pending,
    ensures
        timeout_of(a) == -1,
{
}

/// What to do after events were handled.
#[derive(Debug, Clone, Copy, PartialEq, Eq, Structural)]
pub enum FrameStep {
    Wait,
    Draw,
    /// The closing deadline has passed.
    Finish,
}

/// The time that has to pass since the last frame: none in motion or after
/// input, a little less than the interval for the clock alone.
pub open spec fn throttle_of(a: Activity) -> int {
    if a.animating || a.dirty || a.impact {
        0
    } else if a.uses_time {
        time_interval(a.time_hz) * 9 / 10
    } else {
        0
    }
}

/// Input is drawn at once; motion waits for the compositor and for its turn.
pub open spec fn frame_step(a: Activity, expired: bool, ready: bool, since_draw: Option<u64>) -> FrameStep {
    let due = match since_draw {
        Some(ms) => ms >= throttle_of(a),
        None => true,
    };
    if expired {
        FrameStep::Finish
    } else if a.dirty || (ready && due && (a.animating || a.uses_time || a.impact)) {
        FrameStep::Draw
    } else {
        FrameStep::Wait
    }
}

/// Decide about a frame. `ready` tells that the compositor asked for one,
/// `since_draw` how long ago the last one was drawn.
pub fn process_frame(a: Activity, expired: bool, ready: bool, since_draw: Option<u64>) -> (r: FrameStep)
    ensures
        r == frame_step(a, expired, ready, since_draw),
{
    if expired {
        return FrameStep::Finish;
    }
    let throttle: u64 = if a.animating || a.dirty || a.impact {
        0
    } else if a.uses_time {
        (interval_ms(a.time_hz) * 9 / 10) as u64
    } else {
        0
    };
    let due = match since_draw {
        Some(ms) => ms >= throttle,
        None => true,
    };
    if a.dirty || (ready && due && (a.animating || a.uses_time || a.impact)) {
        FrameStep::Draw
    } else {
        FrameStep::Wait
    }
}

pub open spec fn wake_of(a: Activity) -> Option<int> {
    if a.animating || a.impact {
        Some(FRAME_MS as int)
    } else if a.uses_time {
        Some(time_interval(a.time_hz) * 9 / 10)
    } else if a.auto_close_pending {
        Some(IDLE_TICK_MS as int)
    } else {
        None
    }
}

/// When to wake up for the next frame, in milliseconds from now.
pub fn schedule(a: Activity) -> (r: Option<u64>)
    ensures
        r is Some <==> wake_of(a) is Some,
        r matches Some(ms) ==> wake_of(a) == Some(ms as int),
{
    if a.animating || a.impact {
        Some(FRAME_MS as u64)
    } else if a.uses_time {
        Some((interval_ms(a.time_hz) * 9 / 10) as u64)
    } else if a.auto_close_pending {
        Some(IDLE_TICK_MS as u64)
    } else {
        None
    }
}

// ---------------------------------------------------------------------------
// Buffers
// ---------------------------------------------------------------------------

/// Two buffers, drawn in turn; the compositor holds a busy one.
#[derive(Debug, Clone, Copy, PartialEq, Eq, Structural)]
pub struct BufferPair {
    pub first_busy: bool,
    pub second_busy: bool,
    /// The next one to draw is the second.
    pub second_next: bool,
}

/// A buffer was handed out for drawing, or none.
pub open spec fn handed_out(before: BufferPair, r: Option<usize>, after: BufferPair) -> bool {
    match r {
        Some(i) => {
            &&& i == (if before.second_next {
                1int
            } else {
                0
            })
            &&& !before.busy(i as int)
            &&& after.busy(i as int)
            &&& after.busy(1 - i) == before.busy(1 - i)
            &&& after.second_next != before.second_next
        },
        None => before.next_busy() && after == before,
    }
}

/// A buffer came back.
pub open spec fn handed_back(before: BufferPair, index: usize, after: BufferPair) -> bool {
    &&& after.second_next == before.second_next
    &&& forall|i: int| 0 <= i <= 1 ==> #[trigger] after.busy(i) == (before.busy(i) && i != index)
}

impl BufferPair {
    /// The compositor holds buffer `i`.
    pub open spec fn busy(self, i: int) -> bool {
        if i == 0 {
            self.first_busy
        } else {
            self.second_busy
        }
    }

    pub fn new() -> (r: BufferPair)
        ensures
            r == (BufferPair { first_busy: false, second_busy: false, second_next: false }),
    {
        BufferPair { first_busy: false, second_busy: false, second_next: false }
    }

    pub open spec fn next_busy(self) -> bool {
        if self.second_next {
            self.second_busy
        } else {
            self.first_busy
        }
    }

    /// Take the next buffer for drawing, unless the compositor still holds it.
    pub fn take(&mut self) -> (r: Option<usize>)
        ensures
            old(self).next_busy() ==> r is None && *final(self) == *old(self),
            !old(self).next_busy() ==> {
                &&& r == Some(
                    if old(self).second_next {
                        1usize
                    } else {
                        0usize
                    },
                )
                &&& final(self).second_next == !old(self).second_next
                &&& final(self).first_busy == (old(self).first_busy || !old(self).second_next)
                &&& final(self).second_busy == (old(self).second_busy || old(self).second_next)
            },
            handed_out(*old(self), r, *final(self)),
    {
        if self.second_next {
            if self.second_busy {
                return None;
            }
            self.second_busy = true;
            self.second_next = false;
            Some(1)
        } else {
            if self.first_busy {
                return None;
            }
            self.first_busy = true;
            self.second_next = true;
            Some(0)
        }
    }

    /// The compositor gave a buffer back.
    pub fn release(&mut self, index: usize)
        ensures
            final(self).second_next == old(self).second_next,
            final(self).first_busy == (old(self).first_busy && index != 0),
            final(self).second_busy == (old(self).second_busy && index != 1),
            handed_back(*old(self), index, *final(self)),
    {
        if index == 0 {
            self.first_busy = false;
        } else if index == 1 {
            self.second_busy = false;
        }
    }
}

// ---------------------------------------------------------------------------
// Pixels
// ---------------------------------------------------------------------------

/// The byte that goes to position `i` when red and blue change places.
pub open spec fn swapped_at(px: Seq<u8>, i: int) -> u8 {
    if i % 4 == 0 {
        px[i + 2]
    } else if i % 4 == 2 {
        px[i - 2]
    } else {
        px[i]
    }
}

/// Pixels of four bytes with red and blue swapped; a rest that is no whole
/// pixel is dropped.
pub open spec fn swapped(px: Seq<u8>) -> Seq<u8> {
    Seq::new((px.len() / 4 * 4) as nat, |i: int| swapped_at(px, i))
}

/// Swap red and blue of every pixel.
pub fn swizzle(px: &[u8]) -> (r: Vec<u8>)
    ensures
        r@ == swapped(px@),
{
    let total: usize = px.len();
    let n: usize = total / 4;
    let mut out: Vec<u8> = Vec::new();
    let mut k: usize = 0;
    while k < n
        invariant
            total == px@.len(),
            n == total / 4,
            k <= n,
            out@.len() == 4 * k,
            forall|i: int| 0 <= i < 4 * k ==> #[trigger] out@[i] == swapped_at(px@, i),
        decreases n - k,
    {
        let at: usize = 4 * k;
        out.push(px[at + 2]);
        out.push(px[at + 1]);
        out.push(px[at]);
        out.push(px[at + 3]);
        k += 1;
    }
    proof {
        assert(out@ =~= swapped(px@));
    }
    out
}

/// Swapping twice gives the pixels back.
pub proof fn swizzle_is_its_own_inverse(px: Seq<u8>)
    requires
        px.len() % 4 == 0,
    ensures
        swapped(swapped(px)) == px,
{
    assert(swapped(swapped(px)) =~= px);
}

/// A pixel in one word: alpha, red, green and blue from the top.
pub fn pack_pixel(r: u8, g: u8, b: u8, a: u8) -> (p: u32)
    ensures
        p == a * 16777216 + r * 65536 + g * 256 + b,
{
    a as u32 * 16777216 + r as u32 * 65536 + g as u32 * 256 + b as u32
}

// ---------------------------------------------------------------------------
// Keys
// ---------------------------------------------------------------------------

/// The key that a keyboard symbol stands for, if it has a name of its own.
pub open spec fn named_key(sym: u32) -> Option<UiKey> {
    if sym == 0xff1b {
        Some(UiKey::Escape)
    } else if sym == 0xff0d || sym == 0xff8d {
        Some(UiKey::Enter)
    } else if sym == 0xff08 {
        Some(UiKey::Backspace)
    } else if sym == 0xff54 || sym == 0xff99 {
        Some(UiKey::ArrowDown)
    } else if sym == 0xff52 || sym == 0xff97 {
        Some(UiKey::ArrowUp)
    } else if sym == 0xff50 {
        Some(UiKey::Home)
    } else if sym == 0xff57 {
        Some(UiKey::End)
    } else if sym == 0xff55 {
        Some(UiKey::PageUp)
    } else if sym == 0xff56 {
        Some(UiKey::PageDown)
    } else if sym == 0xfe20 {
        Some(UiKey::BackTab)
    } else if sym == 0xff09 {
        Some(UiKey::Tab)
    } else {
        None
    }
}

fn key_of_symbol(sym: u32) -> (r: Option<UiKey>)
    ensures
        r == named_key(sym),
{
    if sym == 0xff1b {
        Some(UiKey::Escape)
    } else if sym == 0xff0d || sym == 0xff8d {
        Some(UiKey::Enter)
    } else if sym == 0xff08 {
        Some(UiKey::Backspace)
    } else if sym == 0xff54 || sym == 0xff99 {
        Some(UiKey::ArrowDown)
    } else if sym == 0xff52 || sym == 0xff97 {
        Some(UiKey::ArrowUp)
    } else if sym == 0xff50 {
        Some(UiKey::Home)
    } else if sym == 0xff57 {
        Some(UiKey::End)
    } else if sym == 0xff55 {
        Some(UiKey::PageUp)
    } else if sym == 0xff56 {
        Some(UiKey::PageDown)
    } else if sym == 0xfe20 {
        Some(UiKey::BackTab)
    } else if sym == 0xff09 {
        Some(UiKey::Tab)
    } else {
        None
    }
}

/// The key for a symbol and the text that comes with it: a named key, else the
/// text without control characters, else nothing.
pub fn interpret(sym: u32, text: &str) -> (r: Option<UiKey>)
    ensures
        named_key(sym) is Some ==> r == named_key(sym),
        named_key(sym) is None && visible(text@).len() == 0 ==> r is None,
        named_key(sym) is None && visible(text@).len() > 0 ==> (r matches Some(UiKey::Char(t)) && t@
            == visible(text@)),
{
    match key_of_symbol(sym) {
        Some(k) => {
            return Some(k);
        },
        None => {},
    }
    let c = chars_of(text);
    let v = crate::ransom::visible_chars(c.as_slice());
    if v.len() == 0 {
        None
    } else {
        Some(UiKey::Char(string_of(v.as_slice())))
    }
}

/// The key for typed characters: a tab moves on, nothing is no key.
pub fn typed_key(text: &str) -> (r: Option<UiKey>)
    ensures
        text@.len() == 0 ==> r is None,
        text@ == "\t"@ && text@.len() > 0 ==> r == Some(UiKey::Tab),
        text@.len() > 0 && text@ != "\t"@ ==> (r matches Some(UiKey::Char(t)) && t@ == text@),
{
    let c = chars_of(text);
    if c.len() == 0 {
        None
    } else if same_str(text, "\t") {
        Some(UiKey::Tab)
    } else {
        Some(UiKey::Char(string_of(c.as_slice())))
    }
}

} // verus!
