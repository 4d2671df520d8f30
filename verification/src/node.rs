//! Resolved nodes: what drawing and input work with.
//!
//! Lengths, angles and factors are numbers in text, exactly as evaluation
//! produced them; no binding is left.
use crate::color::Color;
use crate::theme::SpringDef;
use vstd::prelude::*;

verus! {

/// What a click on a node does.
#[derive(Debug, Clone)]
pub enum NodeAction {
    /// Launch: an explicit row, the node's repeater row, or the selection.
    Activate(Option<usize>),
    /// Select without launching.
    Select(Option<usize>),
    /// Move the selection.
    Move(i32),
    /// Replace the query.
    SetQuery(String),
    Close,
}

/// The mathematical content of an action.
pub enum ActionView {
    Activate(Option<usize>),
    Select(Option<usize>),
    Move(i32),
    SetQuery(Seq<char>),
    Close,
}

impl View for NodeAction {
    type V = ActionView;

    open spec fn view(&self) -> ActionView {
        match *self {
            NodeAction::Activate(i) => ActionView::Activate(i),
            NodeAction::Select(i) => ActionView::Select(i),
            NodeAction::Move(d) => ActionView::Move(d),
            NodeAction::SetQuery(q) => ActionView::SetQuery(q@),
            NodeAction::Close => ActionView::Close,
        }
    }
}

impl NodeAction {
    /// The row an action is about, if it names one.
    pub fn targeted_index(&self) -> (r: Option<usize>)
        ensures
            r == match self@ {
                ActionView::Activate(i) => i,
                ActionView::Select(i) => i,
                _ => None,
            },
    {
        match self {
            NodeAction::Activate(i) => *i,
            NodeAction::Select(i) => *i,
            NodeAction::Move(_) => None,
            NodeAction::SetQuery(_) => None,
            NodeAction::Close => None,
        }
    }
}

/// An animation with its delay and start value settled.
#[derive(Debug)]
pub struct Motion {
    pub property: String,
    pub duration_ms: u32,
    pub delay_ms: u32,
    pub from: Option<String>,
    pub easing: String,
    pub spring: Option<SpringDef>,
    pub trigger: Option<String>,
}

/// The mathematical content of a settled animation.
pub struct MotionView {
    pub property: Seq<char>,
    pub duration_ms: u32,
    pub delay_ms: u32,
    pub from: Option<Seq<char>>,
    pub easing: Seq<char>,
    pub spring: Option<SpringView>,
    pub trigger: Option<Seq<char>>,
}

pub struct SpringView {
    pub damping: Seq<char>,
    pub stiffness: Seq<char>,
    pub mass: Seq<char>,
}

pub open spec fn opt_view(o: Option<String>) -> Option<Seq<char>> {
    match o {
        Some(s) => Some(s@),
        None => None,
    }
}

pub open spec fn spring_view(o: Option<SpringDef>) -> Option<SpringView> {
    match o {
        Some(s) => Some(
            SpringView { damping: s.damping@, stiffness: s.stiffness@, mass: s.mass@ },
        ),
        None => None,
    }
}

impl View for Motion {
    type V = MotionView;

    open spec fn view(&self) -> MotionView {
        MotionView {
            property: self.property@,
            duration_ms: self.duration_ms,
            delay_ms: self.delay_ms,
            from: opt_view(self.from),
            easing: self.easing@,
            spring: spring_view(self.spring),
            trigger: opt_view(self.trigger),
        }
    }
}

/// A rectangle that a node is cut to.
#[derive(Debug, Clone)]
pub struct Clip {
    pub x: String,
    pub y: String,
    pub width: String,
    pub height: String,
}

pub struct ClipView {
    pub x: Seq<char>,
    pub y: Seq<char>,
    pub width: Seq<char>,
    pub height: Seq<char>,
}

pub open spec fn clip_view(o: Option<Clip>) -> Option<ClipView> {
    match o {
        Some(c) => Some(ClipView { x: c.x@, y: c.y@, width: c.width@, height: c.height@ }),
        None => None,
    }
}

/// A node without bindings.
#[derive(Debug)]
pub struct ResolvedNode {
    pub id: String,
    pub kind: String,
    pub x: String,
    pub y: String,
    pub width: String,
    pub height: String,
    pub opacity: String,
    pub z: i32,
    pub props: Vec<(String, String)>,
    pub text: Option<String>,
    /// Text color.
    pub color: Option<Color>,
    /// Solid background; gradients stay in `props`.
    pub background: Option<Color>,
    pub radius: String,
    /// Degrees around the center.
    pub rotation: String,
    /// Horizontal shear in degrees.
    pub skew: String,
    pub scale: String,
    /// Polygon vertices in the node's own coordinates.
    pub points: Vec<(String, String)>,
    pub animate: Vec<Motion>,
    pub clip: Option<Clip>,
    pub action: Option<NodeAction>,
    /// Row of the repeater instance the node belongs to.
    pub index: Option<usize>,
}

/// The mathematical content of a resolved node.
pub struct NodeView {
    pub id: Seq<char>,
    pub kind: Seq<char>,
    pub x: Seq<char>,
    pub y: Seq<char>,
    pub width: Seq<char>,
    pub height: Seq<char>,
    pub opacity: Seq<char>,
    pub z: i32,
    pub props: Seq<(Seq<char>, Seq<char>)>,
    pub text: Option<Seq<char>>,
    pub color: Option<Color>,
    pub background: Option<Color>,
    pub radius: Seq<char>,
    pub rotation: Seq<char>,
    pub skew: Seq<char>,
    pub scale: Seq<char>,
    pub points: Seq<(Seq<char>, Seq<char>)>,
    pub animate: Seq<MotionView>,
    pub clip: Option<ClipView>,
    pub action: Option<ActionView>,
    pub index: Option<usize>,
}

pub open spec fn motions(l: Seq<Motion>) -> Seq<MotionView> {
    Seq::new(l.len(), |i: int| l[i]@)
}

pub open spec fn action_view(o: Option<NodeAction>) -> Option<ActionView> {
    match o {
        Some(a) => Some(a@),
        None => None,
    }
}

impl View for ResolvedNode {
    type V = NodeView;

    open spec fn view(&self) -> NodeView {
        NodeView {
            id: self.id@,
            kind: self.kind@,
            x: self.x@,
            y: self.y@,
            width: self.width@,
            height: self.height@,
            opacity: self.opacity@,
            z: self.z,
            props: crate::binding::pairs(self.props@),
            text: opt_view(self.text),
            color: self.color,
            background: self.background,
            radius: self.radius@,
            rotation: self.rotation@,
            skew: self.skew@,
            scale: self.scale@,
            points: crate::binding::pairs(self.points@),
            animate: motions(self.animate@),
            clip: clip_view(self.clip),
            action: action_view(self.action),
            index: self.index,
        }
    }
}

pub open spec fn node_views(l: Seq<ResolvedNode>) -> Seq<NodeView> {
    Seq::new(l.len(), |i: int| l[i]@)
}

} // verus!
