//! Motion: which animation a property follows, and when impacts are felt.
use crate::ask::warning;
use crate::node::{opt_view, Motion};
use crate::path::{below, join_path};
use crate::place::warning_text;
use crate::ransom::{bare_name, strip_char};
use crate::text::{
    append, append_str, chars_of, decimal, decimal_chars, same_str, string_of, texts, trim,
};
use crate::theme::owned;
use vstd::prelude::*;

verus! {

/// What can be animated.
#[derive(Debug, Clone, Copy, PartialEq, Eq, Structural)]
pub enum Prop {
    X,
    Y,
    Width,
    Height,
    Opacity,
    Rotation,
    Scale,
    Skew,
}

pub open spec fn prop_named(s: Seq<char>) -> Option<Prop> {
    if s == "x"@ {
        Some(Prop::X)
    } else if s == "y"@ {
        Some(Prop::Y)
    } else if s == "width"@ {
        Some(Prop::Width)
    } else if s == "height"@ {
        Some(Prop::Height)
    } else if s == "opacity"@ {
        Some(Prop::Opacity)
    } else if s == "rotation"@ {
        Some(Prop::Rotation)
    } else if s == "scale"@ {
        Some(Prop::Scale)
    } else if s == "skew"@ {
        Some(Prop::Skew)
    } else {
        None
    }
}

pub fn property_of(s: &str) -> (r: Option<Prop>)
    ensures
        r == prop_named(s@),
{
    if same_str(s, "x") {
        Some(Prop::X)
    } else if same_str(s, "y") {
        Some(Prop::Y)
    } else if same_str(s, "width") {
        Some(Prop::Width)
    } else if same_str(s, "height") {
        Some(Prop::Height)
    } else if same_str(s, "opacity") {
        Some(Prop::Opacity)
    } else if same_str(s, "rotation") {
        Some(Prop::Rotation)
    } else if same_str(s, "scale") {
        Some(Prop::Scale)
    } else if same_str(s, "skew") {
        Some(Prop::Skew)
    } else {
        None
    }
}

/// What a trigger adds to an animation's key: a new key replays the animation.
pub open spec fn trigger_suffix(trigger: Option<Seq<char>>, select_gen: u32, type_gen: u32) -> Seq<char> {
    match trigger {
        Some(t) => if t == "select"@ {
            "#s"@ + decimal(select_gen as nat)
        } else if t == "type"@ {
            "#t"@ + decimal(type_gen as nat)
        } else {
            Seq::empty()
        },
        None => Seq::empty(),
    }
}

/// The name that an animation is tracked under.
pub open spec fn motion_key(
    id: Seq<char>,
    property: Seq<char>,
    trigger: Option<Seq<char>>,
    select_gen: u32,
    type_gen: u32,
) -> Seq<char> {
    id + ":"@ + property + trigger_suffix(trigger, select_gen, type_gen)
}

/// The remarks on an animation: unknown triggers and properties.
pub open spec fn motion_notes(id: Seq<char>, property: Seq<char>, trigger: Option<Seq<char>>) -> Seq<
    Seq<char>,
> {
    let a = match trigger {
        Some(t) => if t != "select"@ && t != "type"@ {
            seq![warning(id, "animate"@, "unknown trigger `"@ + t + "`"@)]
        } else {
            Seq::empty()
        },
        None => Seq::empty(),
    };
    let b = if prop_named(property) is None {
        seq![warning(id, "animate"@, "unknown property `"@ + property + "`"@)]
    } else {
        Seq::empty()
    };
    a + b
}

/// How one animation of a node is to be run.
#[derive(Debug)]
pub struct MotionPlan {
    pub key: String,
    /// The property to move; none where it is unknown.
    pub prop: Option<Prop>,
    pub notes: Vec<String>,
}

fn quoted_note(id: &str, lead: &str, what: &str) -> (r: String)
    ensures
        r@ == warning(id@, "animate"@, lead@ + what@ + "`"@),
{
    let mut e = chars_of(lead);
    append_str(&mut e, what);
    append_str(&mut e, "`");
    let t = string_of(e.as_slice());
    warning_text(id, "animate", t.as_str())
}

/// Plan an animation of node `id`.
pub fn plan_motion(id: &str, m: &Motion, select_gen: u32, type_gen: u32) -> (r: MotionPlan)
    ensures
        r.key@ == motion_key(id@, m.property@, opt_view(m.trigger), select_gen, type_gen),
        r.prop == prop_named(m.property@),
        texts(r.notes@) == motion_notes(id@, m.property@, opt_view(m.trigger)),
{
    let mut key = chars_of(id);
    append_str(&mut key, ":");
    append_str(&mut key, m.property.as_str());
    let ghost head = key@;
    let mut notes: Vec<String> = Vec::new();
    proof {
        assert(texts(notes@) =~= Seq::empty());
    }
    match &m.trigger {
        Some(t) => {
            if same_str(t.as_str(), "select") {
                append_str(&mut key, "#s");
                let d = decimal_chars(select_gen as u128);
                append(&mut key, d.as_slice());
                proof {
                    assert(key@ =~= head + ("#s"@ + decimal(select_gen as nat)));
                }
            } else if same_str(t.as_str(), "type") {
                append_str(&mut key, "#t");
                let d = decimal_chars(type_gen as u128);
                append(&mut key, d.as_slice());
                proof {
                    assert(key@ =~= head + ("#t"@ + decimal(type_gen as nat)));
                }
            } else {
                notes.push(quoted_note(id, "unknown trigger `", t.as_str()));
                proof {
                    assert(key@ =~= head + Seq::empty());
                }
            }
        },
        None => {
            proof {
                assert(key@ =~= head + Seq::empty());
            }
        },
    }
    let prop = property_of(m.property.as_str());
    if prop.is_none() {
        notes.push(quoted_note(id, "unknown property `", m.property.as_str()));
    }
    proof {
        assert(texts(notes@) =~= motion_notes(id@, m.property@, opt_view(m.trigger)));
    }
    MotionPlan { key: string_of(key.as_slice()), prop, notes }
}

/// What is known of a tracked value when a new target arrives.
#[derive(Debug, Clone, Copy)]
pub struct Known {
    /// A motion runs; whether its target is far from the new one.
    pub running: Option<bool>,
    /// A last value is known; whether it is far from the new target.
    pub current: Option<bool>,
    /// A start value is given for the first appearance.
    pub has_from: bool,
}

/// Where a motion starts from.
#[derive(Debug, Clone, Copy, PartialEq, Eq, Structural)]
pub enum Start {
    /// The running motion's value.
    Running,
    /// The last value.
    Current,
    /// The given start value.
    From,
    /// The target itself.
    Target,
}

/// A new motion is due: the target moved away, or the value appears with a
/// start value of its own.
pub open spec fn motion_due(t: Known) -> bool {
    match t.running {
        Some(far) => far,
        None => match t.current {
            Some(far) => far,
            None => t.has_from,
        },
    }
}

pub open spec fn start_of(t: Known) -> Start {
    if t.running is Some {
        Start::Running
    } else if t.current is Some {
        Start::Current
    } else if t.has_from {
        Start::From
    } else {
        Start::Target
    }
}

/// Whether a new motion starts, and where from.
pub fn decide_motion(t: Known) -> (r: Option<Start>)
    ensures
        r == (if motion_due(t) {
            Some(start_of(t))
        } else {
            None
        }),
{
    let due = match t.running {
        Some(far) => far,
        None => match t.current {
            Some(far) => far,
            None => t.has_from,
        },
    };
    if !due {
        return None;
    }
    if t.running.is_some() {
        Some(Start::Running)
    } else if t.current.is_some() {
        Some(Start::Current)
    } else if t.has_from {
        Some(Start::From)
    } else {
        Some(Start::Target)
    }
}

/// How a value moves.
#[derive(Debug, Clone, Copy, PartialEq, Eq, Structural)]
pub enum MotionKind {
    /// A spring with its own constants.
    OwnSpring,
    /// The standard spring.
    Spring,
    /// Along an easing curve.
    Easing,
}

/// A spring if it has constants or asks for one, else an easing curve.
pub fn motion_kind(m: &Motion) -> (r: MotionKind)
    ensures
        r == (if m.spring is Some {
            MotionKind::OwnSpring
        } else if m.easing@ == "spring"@ {
            MotionKind::Spring
        } else {
            MotionKind::Easing
        }),
{
    if m.spring.is_some() {
        MotionKind::OwnSpring
    } else if same_str(m.easing.as_str(), "spring") {
        MotionKind::Spring
    } else {
        MotionKind::Easing
    }
}

// ---------------------------------------------------------------------------
// Impacts
// ---------------------------------------------------------------------------

/// When the selection and the query last changed, in milliseconds.
#[derive(Debug)]
pub struct ImpulseClock {
    pub started: bool,
    pub last_sel: usize,
    pub last_query: String,
    pub select_at: u64,
    pub type_at: u64,
    pub select_gen: u32,
    pub type_gen: u32,
}

pub open spec fn next_gen(g: u32) -> u32 {
    if g == u32::MAX {
        0
    } else {
        (g + 1) as u32
    }
}

/// What a look at the launcher's state leaves behind.
pub open spec fn synced(
    before: ImpulseClock,
    selected: usize,
    query: Seq<char>,
    now: u64,
    after: ImpulseClock,
) -> bool {
    let moved = !before.started || selected != before.last_sel;
    let typed = before.started && query != before.last_query@;
    &&& after.started
    &&& after.last_sel == selected
    &&& after.last_query@ == query
    &&& after.select_at == (if moved {
        now
    } else {
        before.select_at
    })
    &&& after.type_at == (if typed {
        now
    } else {
        before.type_at
    })
    &&& !before.started ==> after.select_gen == 1
    &&& before.started ==> after.select_gen == (if moved {
        next_gen(before.select_gen)
    } else {
        before.select_gen
    })
    &&& after.type_gen == (if typed {
        next_gen(before.type_gen)
    } else {
        before.type_gen
    })
}

impl ImpulseClock {
    /// A clock on which nothing has happened for ten seconds.
    pub fn new(now: u64) -> (r: ImpulseClock)
        ensures
            !r.started,
            r.last_sel == 0,
            r.last_query@.len() == 0,
            r.select_at == (if now >= 10000 {
                (now - 10000) as u64
            } else {
                now
            }),
            r.type_at == r.select_at,
            r.select_gen == 0,
            r.type_gen == 0,
    {
        let ago: u64 = if now >= 10000 {
            now - 10000
        } else {
            now
        };
        ImpulseClock {
            started: false,
            last_sel: 0,
            last_query: String::new(),
            select_at: ago,
            type_at: ago,
            select_gen: 0,
            type_gen: 0,
        }
    }

    /// Take note of the launcher's state. The first look counts as a change of
    /// the selection, not of the query.
    pub fn sync(&mut self, selected: usize, query: &str, now: u64)
        ensures
            final(self).started,
            final(self).last_sel == selected,
            final(self).last_query@ == query@,
            !old(self).started ==> {
                &&& final(self).select_at == now
                &&& final(self).select_gen == 1
                &&& final(self).type_at == old(self).type_at
                &&& final(self).type_gen == old(self).type_gen
            },
            old(self).started && selected != old(self).last_sel ==> {
                &&& final(self).select_at == now
                &&& final(self).select_gen == next_gen(old(self).select_gen)
            },
            old(self).started && selected == old(self).last_sel ==> {
                &&& final(self).select_at == old(self).select_at
                &&& final(self).select_gen == old(self).select_gen
            },
            old(self).started && query@ != old(self).last_query@ ==> {
                &&& final(self).type_at == now
                &&& final(self).type_gen == next_gen(old(self).type_gen)
            },
            old(self).started && query@ == old(self).last_query@ ==> {
                &&& final(self).type_at == old(self).type_at
                &&& final(self).type_gen == old(self).type_gen
            },
            synced(*old(self), selected, query@, now, *final(self)),
    {
        if !self.started {
            self.started = true;
            self.last_sel = selected;
            self.last_query = owned(query);
            self.select_at = now;
            self.select_gen = 1;
        } else {
            if selected != self.last_sel {
                self.last_sel = selected;
                self.select_at = now;
                self.select_gen =
                if self.select_gen == u32::MAX {
                    0
                } else {
                    self.select_gen + 1
                };
            }
            if !same_str(query, self.last_query.as_str()) {
                self.last_query = owned(query);
                self.type_at = now;
                self.type_gen =
                if self.type_gen == u32::MAX {
                    0
                } else {
                    self.type_gen + 1
                };
            }
        }
    }
}

// ---------------------------------------------------------------------------
// Stepped noise
// ---------------------------------------------------------------------------

/// One round of mixing.
pub open spec fn mix_round(x: u32) -> u32 {
    let y = x.wrapping_mul(0x45d9f3b);
    y ^ (y >> 16)
}

/// The noise word of a seed.
pub open spec fn noise(seed: u32) -> u32 {
    mix_round(mix_round(seed.wrapping_add(0x9e3779b9)))
}

/// The noise word of a seed; the same seed always gives the same word.
pub fn hash_bits(seed: u32) -> (r: u32)
    ensures
        r == noise(seed),
{
    let mut x: u32 = seed.wrapping_add(0x9e3779b9);
    x = x.wrapping_mul(0x45d9f3b);
    x = x ^ (x >> 16);
    x = x.wrapping_mul(0x45d9f3b);
    x = x ^ (x >> 16);
    x
}

// ---------------------------------------------------------------------------
// Images
// ---------------------------------------------------------------------------

/// An image path: a relative one lies below the theme's directory.
pub open spec fn image_path(src: Seq<char>, base: Seq<char>) -> Seq<char> {
    let p = bare_name(src);
    if p.len() > 0 && p[0] == '/' {
        src
    } else {
        below(base, p)
    }
}

/// Settle the path of an image property.
pub fn settle_image(src: &str, base: &str) -> (r: String)
    ensures
        r@ == image_path(src@, base@),
{
    let c = chars_of(src);
    let p = strip_char(strip_char(trim(c.as_slice()), '"'), '\'');
    if p.len() > 0 && p[0] == '/' {
        owned(src)
    } else {
        let t = string_of(p);
        join_path(base, t.as_str())
    }
}

} // verus!
