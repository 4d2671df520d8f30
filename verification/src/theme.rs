//! Theme definition: a scene graph of nodes whose properties are bindings.
use crate::text::{append_str, chars_of, same_str, string_of};
use vstd::prelude::*;

verus! {

/// A theme: window settings, nodes and reusable components.
#[derive(Debug)]
pub struct Theme {
    pub meta: ThemeMeta,
    pub window: WindowTheme,
    pub animations: AnimationsConfig,
    pub nodes: Vec<NodeDef>,
    /// Components by name, each name once.
    pub components: Vec<(String, ComponentDef)>,
}

#[derive(Debug, Clone)]
pub struct ThemeMeta {
    pub name: String,
    pub description: String,
    pub author: String,
}

#[derive(Debug, Clone)]
pub struct WindowTheme {
    pub width: Option<u32>,
    pub height: Option<u32>,
    pub transparent: bool,
    pub blur: bool,
    pub background: Option<String>,
    /// `overlay`, `top`, `bottom` or `background`.
    pub layer: String,
    /// `center`, `top` or `bottom`.
    pub anchor: String,
    /// Frames per second for themes that only follow the clock.
    pub time_hz: Option<u32>,
}

impl Default for WindowTheme {
    fn default() -> (r: Self)
        ensures
            r.width is None,
            r.height is None,
            r.transparent,
            !r.blur,
            r.background is None,
            r.layer@ == "overlay"@,
            r.anchor@ == "center"@,
            r.time_hz is None,
    {
        let layer = chars_of("overlay");
        let anchor = chars_of("center");
        WindowTheme {
            width: None,
            height: None,
            transparent: true,
            blur: false,
            background: None,
            layer: string_of(layer.as_slice()),
            anchor: string_of(anchor.as_slice()),
            time_hz: None,
        }
    }
}

/// The theme's own length, else the fallback; never zero.
pub open spec fn effective(own: Option<u32>, fallback: u32) -> u32 {
    let v = match own {
        Some(x) => x,
        None => fallback,
    };
    if v == 0 {
        1
    } else {
        v
    }
}

impl WindowTheme {
    /// Window size: the theme's value, else the fallback, at least one pixel.
    pub fn effective_size(&self, fallback: (u32, u32)) -> (r: (u32, u32))
        ensures
            r.0 == effective(self.width, fallback.0),
            r.1 == effective(self.height, fallback.1),
            r.0 >= 1,
            r.1 >= 1,
    {
        let w: u32 = match self.width {
            Some(x) => x,
            None => fallback.0,
        };
        let h: u32 = match self.height {
            Some(x) => x,
            None => fallback.1,
        };
        (
            if w == 0 {
                1
            } else {
                w
            },
            if h == 0 {
                1
            } else {
                h
            },
        )
    }
}

#[derive(Debug, Clone)]
pub struct AnimationsConfig {
    pub default_duration_ms: Option<u32>,
    pub default_easing: Option<String>,
}

/// One visual object. Every optional string is a binding.
#[derive(Debug)]
pub struct NodeDef {
    pub id: String,
    /// `Container`, `Rectangle`, `Polygon`, `Text`, `Image`, `TextInput`, `Repeater`, ...
    pub kind: String,
    pub x: Option<String>,
    pub y: Option<String>,
    pub width: Option<String>,
    pub height: Option<String>,
    pub visible: Option<String>,
    pub opacity: Option<String>,
    /// Further properties, each name once.
    pub props: Vec<(String, String)>,
    pub children: Vec<NodeDef>,
    /// What a repeater repeats over.
    pub model: Option<String>,
    /// The component a repeater builds.
    pub delegate: Option<String>,
    pub text: Option<String>,
    pub placeholder: Option<String>,
    /// `upper` or `lower`.
    pub text_case: Option<String>,
    pub rotation: Option<String>,
    pub skew: Option<String>,
    pub scale: Option<String>,
    /// Polygon vertices: `x,y` pairs separated by semicolons.
    pub points: Option<String>,
    pub animate: Vec<AnimateDef>,
    pub z: Option<i32>,
    /// Action on click.
    pub on_click: Option<String>,
}

/// A delay in milliseconds, fixed or bound.
#[derive(Debug, Clone)]
pub enum DelaySpec {
    Fixed(u32),
    Expr(String),
}

/// A start value: a number as text, or a binding.
#[derive(Debug, Clone)]
pub enum FromSpec {
    Fixed(String),
    Expr(String),
}

/// Spring constants, as numbers in text.
#[derive(Debug, Clone)]
pub struct SpringDef {
    pub damping: String,
    pub stiffness: String,
    pub mass: String,
}

/// How one property moves.
#[derive(Debug, Clone)]
pub struct AnimateDef {
    pub property: String,
    pub duration_ms: u32,
    pub delay_ms: u32,
    /// Further delay, evaluated for each repeater instance.
    pub delay: Option<DelaySpec>,
    /// Value to come from on first appearance.
    pub from: Option<FromSpec>,
    pub easing: String,
    pub spring: Option<SpringDef>,
    /// `select` or `type`: replay when that event fires.
    pub trigger: Option<String>,
}

#[derive(Debug)]
pub struct ComponentDef {
    pub nodes: Vec<NodeDef>,
    pub width: Option<String>,
    pub height: Option<String>,
    /// Animations for every node of the component.
    pub animate: Vec<AnimateDef>,
}

/// Why a theme cannot be used.
#[derive(Debug)]
pub enum ThemeError {
    DuplicateId(String),
    UnknownComponent { repeater: String, component: String },
}

impl ThemeError {
    pub open spec fn text(self) -> Seq<char> {
        match self {
            ThemeError::DuplicateId(id) => "Duplicate node id: "@ + id@,
            ThemeError::UnknownComponent { repeater, component } => "Repeater '"@ + repeater@
                + "' references unknown component '"@ + component@ + "'"@,
        }
    }

    /// The message shown for the error.
    pub fn message(&self) -> (r: String)
        ensures
            r@ == self.text(),
    {
        match self {
            ThemeError::DuplicateId(id) => {
                let mut t = chars_of("Duplicate node id: ");
                append_str(&mut t, id.as_str());
                string_of(t.as_slice())
            },
            ThemeError::UnknownComponent { repeater, component } => {
                let mut t = chars_of("Repeater '");
                append_str(&mut t, repeater.as_str());
                append_str(&mut t, "' references unknown component '");
                append_str(&mut t, component.as_str());
                append_str(&mut t, "'");
                string_of(t.as_slice())
            },
        }
    }
}

/// Node `i` has the id of a node in front of it.
pub open spec fn repeats_id(nodes: Seq<NodeDef>, i: int) -> bool {
    exists|j: int| 0 <= j < i && (#[trigger] nodes[j]).id@ == nodes[i].id@
}

pub open spec fn has_component(components: Seq<(String, ComponentDef)>, name: Seq<char>) -> bool {
    exists|j: int| 0 <= j < components.len() && (#[trigger] components[j]).0@ == name
}

/// Node `i` is a repeater of a component that is not there.
pub open spec fn dangling(t: Theme, i: int) -> bool {
    let n = t.nodes@[i];
    &&& n.kind@ == "Repeater"@
    &&& n.delegate is Some
    &&& !has_component(t.components@, n.delegate->0@)
}

/// The first component of that name.
pub open spec fn component_of(
    components: Seq<(String, ComponentDef)>,
    name: Seq<char>,
) -> Option<ComponentDef>
    decreases components.len(),
{
    if components.len() == 0 {
        None
    } else if components[0].0@ == name {
        Some(components[0].1)
    } else {
        component_of(components.skip(1), name)
    }
}

/// A component is there exactly if one has its name.
pub proof fn component_exists(components: Seq<(String, ComponentDef)>, name: Seq<char>)
    ensures
        component_of(components, name) is Some <==> has_component(components, name),
    decreases components.len(),
{
    if components.len() > 0 {
        component_exists(components.skip(1), name);
        if components[0].0@ != name {
            if has_component(components, name) {
                let j = choose|j: int| 0 <= j < components.len() && (#[trigger] components[j]).0@ == name;
                assert(components.skip(1)[j - 1].0@ == name);
            }
            if has_component(components.skip(1), name) {
                let j = choose|j: int|
                    0 <= j < components.skip(1).len() && (#[trigger] components.skip(1)[j]).0@ == name;
                assert(components[j + 1].0@ == name);
            }
        }
    }
}

pub fn find_component<'a>(components: &'a Vec<(String, ComponentDef)>, name: &str) -> (r: Option<
    &'a ComponentDef,
>)
    ensures
        r matches Some(c) ==> component_of(components@, name@) == Some(*c),
        r is None ==> component_of(components@, name@) is None,
{
    let mut i: usize = 0;
    proof {
        assert(components@.skip(0) =~= components@);
    }
    while i < components.len()
        invariant
            i <= components@.len(),
            component_of(components@, name@) == component_of(components@.skip(i as int), name@),
        decreases components@.len() - i,
    {
        proof {
            assert(components@.skip(i as int).skip(1) =~= components@.skip(i + 1));
        }
        if same_str(components[i].0.as_str(), name) {
            return Some(&components[i].1);
        }
        i += 1;
    }
    None
}

impl Theme {
    /// Ids are unique and every repeater finds its component.
    pub open spec fn sound(self) -> bool {
        &&& forall|i: int| 0 <= i < self.nodes@.len() ==> !#[trigger] repeats_id(self.nodes@, i)
        &&& forall|i: int| 0 <= i < self.nodes@.len() ==> !#[trigger] dangling(self, i)
    }

    /// Check the theme. A repeated id is reported before a missing component,
    /// and of each kind the first in document order.
    pub fn validate(&self) -> (r: Result<(), ThemeError>)
        ensures
            r is Ok <==> self.sound(),
            r matches Err(ThemeError::DuplicateId(id)) ==> exists|i: int|
                {
                    &&& 0 <= i < self.nodes@.len()
                    &&& #[trigger] repeats_id(self.nodes@, i)
                    &&& forall|k: int| 0 <= k < i ==> !#[trigger] repeats_id(self.nodes@, k)
                    &&& id@ == self.nodes@[i].id@
                },
            r matches Err(ThemeError::UnknownComponent { repeater, component }) ==> {
                &&& forall|k: int|
                    0 <= k < self.nodes@.len() ==> !#[trigger] repeats_id(self.nodes@, k)
                &&& exists|i: int|
                    {
                        &&& 0 <= i < self.nodes@.len()
                        &&& #[trigger] dangling(*self, i)
                        &&& forall|k: int| 0 <= k < i ==> !#[trigger] dangling(*self, k)
                        &&& repeater@ == self.nodes@[i].id@
                        &&& component@ == self.nodes@[i].delegate->0@
                    }
            },
    {
        let n: usize = self.nodes.len();
        let mut i: usize = 0;
        while i < n
            invariant
                n == self.nodes@.len(),
                i <= n,
                forall|k: int| 0 <= k < i ==> !#[trigger] repeats_id(self.nodes@, k),
            decreases n - i,
        {
            let mut j: usize = 0;
            while j < i
                invariant
                    n == self.nodes@.len(),
                    i < n,
                    j <= i,
                    forall|k: int| 0 <= k < i ==> !#[trigger] repeats_id(self.nodes@, k),
                    forall|k: int| 0 <= k < j ==> (#[trigger] self.nodes@[k]).id@ != self.nodes@[i as int].id@,
                decreases i - j,
            {
                if same_str(self.nodes[j].id.as_str(), self.nodes[i].id.as_str()) {
                    proof {
                        assert(self.nodes@[j as int].id@ == self.nodes@[i as int].id@);
                        assert(repeats_id(self.nodes@, i as int));
                    }
                    return Err(ThemeError::DuplicateId(self.nodes[i].id.clone()));
                }
                j += 1;
            }
            i += 1;
        }
        let mut i: usize = 0;
        while i < n
            invariant
                n == self.nodes@.len(),
                i <= n,
                forall|k: int| 0 <= k < n ==> !#[trigger] repeats_id(self.nodes@, k),
                forall|k: int| 0 <= k < i ==> !#[trigger] dangling(*self, k),
            decreases n - i,
        {
            let node = &self.nodes[i];
            if same_str(node.kind.as_str(), "Repeater") {
                match &node.delegate {
                    Some(d) => {
                        proof {
                            component_exists(self.components@, d@);
                        }
                        if find_component(&self.components, d.as_str()).is_none() {
                            proof {
                                assert(dangling(*self, i as int));
                            }
                            return Err(
                                ThemeError::UnknownComponent {
                                    repeater: node.id.clone(),
                                    component: d.clone(),
                                },
                            );
                        }
                    },
                    None => {},
                }
            }
            i += 1;
        }
        Ok(())
    }

    /// The built-in theme: one line that shows the query.
    pub fn fallback() -> (r: Theme)
        ensures
            r.sound(),
            is_fallback(r),
    {
        let mut props: Vec<(String, String)> = Vec::new();
        props.push((owned("color"), owned("#ffffff")));
        props.push((owned("font_size"), owned("16")));
        let mut node = empty_node("search", "Text");
        node.x = Some(owned("20"));
        node.y = Some(owned("20"));
        node.width = Some(owned("window.width - 40"));
        node.height = Some(owned("40"));
        node.text = Some(owned("launcher.query"));
        node.props = props;
        let mut nodes: Vec<NodeDef> = Vec::new();
        nodes.push(node);
        let r = Theme {
            meta: ThemeMeta {
                name: owned("fallback"),
                description: owned("fallback built-in"),
                author: owned("hiren"),
            },
            window: WindowTheme::default(),
            animations: AnimationsConfig { default_duration_ms: None, default_easing: None },
            nodes,
            components: Vec::new(),
        };
        proof {
            assert(r.nodes@[0].kind@ != "Repeater"@) by {
                reveal_strlit("Text");
                reveal_strlit("Repeater");
                assert("Text"@.len() != "Repeater"@.len());
            }
            assert forall|i: int| 0 <= i < r.nodes@.len() implies !#[trigger] dangling(r, i) by {}
            assert forall|i: int| 0 <= i < r.nodes@.len() implies !#[trigger] repeats_id(
                r.nodes@,
                i,
            ) by {}
        }
        r
    }
}

impl Default for Theme {
    fn default() -> (r: Self)
        ensures
            r.sound(),
            is_fallback(r),
    {
        Theme::fallback()
    }
}

/// The built-in theme.
pub open spec fn is_fallback(r: Theme) -> bool {
    &&& r.meta.name@ == "fallback"@
    &&& r.meta.description@ == "fallback built-in"@
    &&& r.meta.author@ == "hiren"@
    &&& r.window.width is None && r.window.height is None
    &&& r.window.transparent && !r.window.blur
    &&& r.window.background is None
    &&& r.window.layer@ == "overlay"@
    &&& r.window.anchor@ == "center"@
    &&& r.window.time_hz is None
    &&& r.animations.default_duration_ms is None
    &&& r.animations.default_easing is None
    &&& r.components@.len() == 0
    &&& r.nodes@.len() == 1
    &&& is_search_line(r.nodes@[0])
}

/// The text that an optional binding holds.
pub open spec fn opt_is(o: Option<String>, t: Seq<char>) -> bool {
    o matches Some(s) && s@ == t
}

/// The node of the built-in theme.
pub open spec fn is_search_line(n: NodeDef) -> bool {
    &&& n.id@ == "search"@
    &&& n.kind@ == "Text"@
    &&& opt_is(n.x, "20"@)
    &&& opt_is(n.y, "20"@)
    &&& opt_is(n.width, "window.width - 40"@)
    &&& opt_is(n.height, "40"@)
    &&& opt_is(n.text, "launcher.query"@)
    &&& n.visible is None && n.opacity is None && n.model is None && n.delegate is None
    &&& n.placeholder is None && n.text_case is None && n.rotation is None && n.skew is None
    &&& n.scale is None && n.points is None && n.z is None && n.on_click is None
    &&& n.children@.len() == 0
    &&& n.animate@.len() == 0
    &&& n.props@.len() == 2
    &&& n.props@[0].0@ == "color"@ && n.props@[0].1@ == "#ffffff"@
    &&& n.props@[1].0@ == "font_size"@ && n.props@[1].1@ == "16"@
}

pub(crate) fn owned(s: &str) -> (r: String)
    ensures
        r@ == s@,
{
    let c = chars_of(s);
    string_of(c.as_slice())
}

/// A node with nothing but an id and a kind.
pub fn empty_node(id: &str, kind: &str) -> (r: NodeDef)
    ensures
        r.id@ == id@,
        r.kind@ == kind@,
        r.x is None && r.y is None && r.width is None && r.height is None,
        r.visible is None && r.opacity is None && r.model is None && r.delegate is None,
        r.text is None && r.placeholder is None && r.text_case is None,
        r.rotation is None && r.skew is None && r.scale is None && r.points is None,
        r.z is None && r.on_click is None,
        r.props@.len() == 0,
        r.children@.len() == 0,
        r.animate@.len() == 0,
{
    NodeDef {
        id: owned(id),
        kind: owned(kind),
        x: None,
        y: None,
        width: None,
        height: None,
        visible: None,
        opacity: None,
        props: Vec::new(),
        children: Vec::new(),
        model: None,
        delegate: None,
        text: None,
        placeholder: None,
        text_case: None,
        rotation: None,
        skew: None,
        scale: None,
        points: None,
        animate: Vec::new(),
        z: None,
        on_click: None,
    }
}

} // verus!
