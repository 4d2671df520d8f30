use hiren::ask::{Answers, Ask, Diag, Out, Relation, Topic};
use hiren::binding::{eval_bool, eval_color, eval_f32, eval_str, Clock, EvalContext, Reading};
use hiren::entry::AppEntry;
use hiren::launcher::LauncherState;
use hiren::layout::{resolve, theme_uses_token, uses_impulse, uses_time};
use hiren::motion::{decide_motion, hash_bits, plan_motion, ImpulseClock, Known, Prop, Start};
use hiren::node::{NodeAction, ResolvedNode};
use hiren::scan::find_top;
use hiren::theme::{
    empty_node, AnimateDef, AnimationsConfig, ComponentDef, DelaySpec, FromSpec, NodeDef, SpringDef, Theme,
    ThemeError, ThemeMeta, WindowTheme,
};

// ---------------------------------------------------------------------------
// The floating-point side
// ---------------------------------------------------------------------------

type Measure = fn(&str, f32, &str) -> f32;

struct Scene {
    state: LauncherState,
    locals: Vec<(String, String)>,
    size: (u32, u32),
    time: f32,
    hit: f32,
    hit_type: f32,
    since_select: f32,
    since_type: f32,
    measure: Option<Measure>,
}

fn scene(state: LauncherState, size: (u32, u32), time: f32) -> Scene {
    Scene {
        state,
        locals: Vec::new(),
        size,
        time,
        hit: 0.0,
        hit_type: 0.0,
        since_select: 0.0,
        since_type: 0.0,
        measure: None,
    }
}

fn reading(v: f32) -> Reading {
    Reading { single: format!("{v}"), double: format!("{}", v as f64) }
}

fn hash01(n: f64) -> f64 {
    hash_bits(n.floor() as i64 as u32) as f64 / (u32::MAX as f64 + 1.0)
}

fn shake(amp: f64, seed: f64, hit: f64, since: f64) -> f64 {
    if hit < 0.008 || amp.abs() < 1e-9 {
        return 0.0;
    }
    if since <= 0.036 {
        let dir = if hash01(seed.floor()) >= 0.5 { 1.0 } else { -1.0 };
        return dir * amp * hit;
    }
    let frame = (since * 42.0).floor() + seed.floor() * 17.0;
    let stepped = ((hash01(frame) * 2.0 - 1.0) * 4.0).round() / 4.0;
    let stepped = if stepped.abs() < 0.01 { 0.25 } else { stepped };
    stepped * amp * hit
}

impl Scene {
    fn local(&mut self, name: &str, value: &str) {
        self.locals.retain(|(k, _)| k != name);
        self.locals.push((name.to_string(), value.to_string()));
    }

    fn numeric(&self, text: &str) -> Option<String> {
        let (hit, hit_type) = (self.hit as f64, self.hit_type as f64);
        let (ss, st) = (self.since_select as f64, self.since_type as f64);
        let mut m = meval::Context::new();
        m.var("pi", std::f64::consts::PI)
            .var("tau", std::f64::consts::TAU)
            .func("hash", hash01)
            .func2("shake", move |a, s| shake(a, s, hit, ss))
            .func2("type_shake", move |a, s| shake(a, s, hit_type, st))
            .func2("min", f64::min)
            .func2("max", f64::max)
            .func3("clamp", |v: f64, lo: f64, hi: f64| v.max(lo).min(hi))
            .func2("mod", |a: f64, n: f64| {
                if !n.is_finite() || n.abs() < 1e-12 {
                    0.0
                } else {
                    a - (a / n).floor() * n
                }
            });
        let v = text.parse::<meval::Expr>().ok()?.eval_with_context(&m).ok()?;
        if !v.is_finite() {
            return None;
        }
        Some(if (v - v.round()).abs() < 1e-9 {
            format!("{}", v.round() as i64)
        } else {
            format!("{}", (v * 1e4).round() / 1e4)
        })
    }

    fn reply(&self, ask: &Ask) -> Option<String> {
        let f = |s: &str| s.trim().parse::<f32>().unwrap_or(f32::NAN);
        let d = |s: &str| s.trim().parse::<f64>().unwrap_or(f64::NAN);
        let (a, b, c) = (ask.a.as_str(), ask.b.as_str(), ask.c.as_str());
        let width = || (self.measure.unwrap())(a, f(b), c);
        let angle = || {
            let part: f32 = f(a) / f(b);
            part * std::f32::consts::TAU - std::f32::consts::FRAC_PI_2
        };
        match ask.topic {
            Topic::Arithmetic => self.numeric(a),
            Topic::Reprint => Some(format!("{}", d(a))),
            Topic::Width => Some(format!("{}", width() as f64)),
            Topic::RoundedWidth => Some(format!("{}", width().round())),
            Topic::Relate(r) => {
                let (x, y) = (d(a), d(b));
                Some(
                    match r {
                        Relation::Eq => (x - y).abs() < 1e-9,
                        Relation::Ne => (x - y).abs() >= 1e-9,
                        Relation::Ge => x >= y,
                        Relation::Le => x <= y,
                        Relation::Gt => x > y,
                        Relation::Lt => x < y,
                    }
                    .to_string(),
                )
            }
            Topic::NonZero => Some((f(a) != 0.0).to_string()),
            Topic::Icon => Some(format!("/icons/{a}.png")),
            Topic::Sum => Some(format!("{}", f(a) + f(b))),
            Topic::Minus => Some(format!("{}", f(a) - f(b))),
            Topic::Rest => Some(format!("{}", (f(a) - f(b)).max(0.0))),
            Topic::Times => Some(format!("{}", f(a) * f(b))),
            Topic::Unit => Some(format!("{}", f(a).clamp(0.0, 1.0))),
            Topic::RingX => Some(format!("{}", angle().cos() * f(c))),
            Topic::RingY => Some(format!("{}", angle().sin() * f(c))),
            Topic::Natural => Some(format!("{}", f(a).max(0.0) as usize)),
            Topic::Index => {
                if f(a) >= 0.0 {
                    Some(format!("{}", f(a) as usize))
                } else {
                    None
                }
            }
            Topic::Delta => Some(format!("{}", f(a) as i32)),
            Topic::Finite => Some(f(a).is_finite().to_string()),
        }
    }

    fn run<T>(&self, step: impl Fn(&EvalContext) -> Out<T>) -> (T, Vec<String>) {
        let clock = Clock {
            time: reading(self.time),
            hit: reading(self.hit),
            hit_type: reading(self.hit_type),
            since_select: reading(self.since_select),
            since_type: reading(self.since_type),
        };
        let mut answers = Answers::new();
        loop {
            let mut ctx = EvalContext::new(&self.state, &self.locals, self.size, &clock, &answers);
            ctx.measured = self.measure.is_some();
            match step(&ctx) {
                Out::Done(v, n) => return (v, n),
                Out::Need(q) => {
                    let r = self.reply(&q);
                    answers.record(q, r);
                }
            }
        }
    }

    fn str(&self, e: &str) -> String {
        self.run(|c| eval_str(e, c)).0
    }

    fn f32(&self, e: &str, default: f32) -> f32 {
        match self.run(|c| eval_f32(e, c)).0 {
            Some(t) => t.iter().collect::<String>().parse().unwrap(),
            None => default,
        }
    }

    fn bool(&self, e: &str, default: bool) -> bool {
        self.run(|c| eval_bool(e, c, default)).0
    }

    fn layout(&self, t: &Theme) -> Vec<ResolvedNode> {
        self.run(|c| resolve(t, c)).0
    }
}

// ---------------------------------------------------------------------------
// Bindings
// ---------------------------------------------------------------------------

fn ctx(s: LauncherState) -> Scene {
    scene(s, (640, 480), 0.0)
}

fn s_with_results(n: usize, sel: usize) -> LauncherState {
    let mut s = LauncherState::new();
    s.query = "fi".into();
    s.selected_index = sel;
    let v: Vec<AppEntry> = (0..n)
        .map(|i| AppEntry::run(format!("id{i}"), format!("App{i}"), format!("app{i}")))
        .collect();
    s.set_results(v);
    s
}

#[test]
fn literals() {
    let c = ctx(LauncherState::new());
    assert_eq!(c.str("hello"), "hello");
    assert_eq!(c.str("'a,b'"), "a,b");
    assert_eq!(c.str("20"), "20");
    assert_eq!(c.str("#89b4fa"), "#89b4fa");
}

#[test]
fn paths_and_arithmetic() {
    let c = ctx(s_with_results(7, 2));
    assert_eq!(c.str("launcher.selected_index * 56 + 12"), "124");
    assert_eq!(c.str("launcher.results_count"), "7");
    assert_eq!(c.str("window.width / 2 - 140"), "180");
    assert_eq!(c.str("launcher.results[1].name"), "App1");
    assert_eq!(c.str("launcher.selected_result.exec"), "app2");
}

#[test]
fn ternary_and_logic() {
    let mut c = ctx(s_with_results(3, 1));
    c.local("is_selected", "true");
    assert_eq!(c.str("launcher.results_count > 0 ? 10 : 20"), "10");
    assert_eq!(c.str("is_selected ? rgba(255,0,0,0.5) : transparent"), "rgba(255,0,0,0.5)");
    c.local("is_selected", "false");
    assert_eq!(c.str("is_selected ? rgba(255,0,0,0.5) : transparent"), "transparent");
    assert_eq!(c.bool("launcher.results_count > 0", false), true);
    assert_eq!(c.bool("launcher.results_count > 10 || launcher.query == 'fi'", false), true);
    assert_eq!(c.bool("!launcher.loading", false), true);
    assert_eq!(c.bool("launcher.query == ''", false), false);
}

#[test]
fn locals_and_functions() {
    let mut c = ctx(s_with_results(8, 0));
    c.local("index", "3");
    c.local("is_selected", "false");
    c.local("count", "8");
    assert_eq!(c.str("index * 360 / count"), "135");
    assert_eq!(c.str("cos(index * 0.5) * 170"), "12.0253"); // cos(1.5)*170
    assert_eq!(c.str("clamp(index * 100, 0, 250)"), "250");
    assert_eq!(c.str("min(4, 9) + max(1, 2)"), "6");
    assert_eq!(c.str("mod(7, 5)"), "2");
    assert_eq!(c.str("mod(-1, 5)"), "4");
    assert_eq!(c.str("mod(floor(1.5) + 2, 5)"), "3");
}

#[test]
fn passthrough_strings() {
    let c = ctx(LauncherState::new());
    assert_eq!(
        c.str("linear-gradient(180deg, #111 0%, #222 100%)"),
        "linear-gradient(180deg, #111 0%, #222 100%)"
    );
    assert_eq!(c.str("H I R E N"), "H I R E N");
}

#[test]
fn initial_and_text_width() {
    let mut c = ctx(s_with_results(2, 0));
    assert_eq!(c.str("initial(launcher.query)"), "f");
    assert_eq!(c.str("initial('')"), "");
    c.local("item_name", "Alacritty");
    assert_eq!(c.str("initial(item_name)"), "A");
}

#[test]
fn time_binding() {
    let c = scene(LauncherState::new(), (640, 480), 1.5);
    assert_eq!(c.str("sin(time * 2) * 10"), "1.4112"); // sin(3)*10
}

#[test]
fn hit_bindings_and_shake_fn() {
    let mut c = scene(LauncherState::new(), (640, 480), 0.0);
    c.hit = 1.0;
    c.since_select = 0.0;
    c.hit_type = 1.0;
    c.since_type = 0.0;
    let x = c.f32("20 + shake(12, 1)", 0.0);
    assert!((x - 20.0).abs() > 5.0, "shake at hit=1 moves the node, got {x}");
    assert_eq!(c.f32("hit", 0.0), 1.0);
    let typed = c.f32("type_shake(8, 2)", 0.0);
    assert!(typed.abs() > 3.0, "type_shake at hit_type=1, got {typed}");
    assert!(c.f32("hash(3)", -1.0) >= 0.0);
    c.hit = 0.0;
    assert_eq!(c.f32("20 + shake(12, 1)", 0.0), 20.0);
}

#[test]
fn min_plus_shake_and_text_width() {
    let mut s = LauncherState::new();
    s.query = "f".into();
    let mut c = scene(s, (1100, 680), 0.0);
    c.measure = Some(|_: &str, _: f32, _: &str| 40.0);
    assert_eq!(
        c.f32(
            "min(68 + text_width(upper(launcher.query), 42, 'Anton, Archivo Black, Titan One'), 532)",
            -1.0
        ),
        108.0
    );
    assert_eq!(
        c.f32(
            "min(68 + text_width(upper(launcher.query), 42, 'Anton, Archivo Black, Titan One'), 532) + shake(14, 1) + type_shake(8, 1)",
            -1.0
        ),
        108.0
    );
}

#[test]
fn case_folding_reaches_the_whole_text() {
    let c = ctx(LauncherState::new());
    assert_eq!(c.str("upper('straße')"), "STRASSE");
    assert_eq!(c.str("lower('ÀB Σ')"), "àb σ");
    assert_eq!(c.str("upper()"), "upper()");
}

#[test]
fn initials_are_whole_graphemes() {
    let c = ctx(LauncherState::new());
    assert_eq!(c.str("initial('e\u{301}tude')"), "e\u{301}");
    assert_eq!(c.str("initial('\u{1F1F7}\u{1F1F8}x')"), "\u{1F1F7}\u{1F1F8}");
    assert_eq!(c.str("initial('étude')"), "é");
    assert_eq!(c.str("initial('xy')"), "x");
    assert_eq!(c.str("initial('x')"), "x");
}

#[test]
fn measured_text() {
    let mut c = ctx(s_with_results(1, 0));
    assert_eq!(c.str("text_width(launcher.query, 10)"), "0");
    c.measure = Some(|t: &str, s: f32, f: &str| t.chars().count() as f32 * s + f.len() as f32 + 0.4);
    assert_eq!(c.str("text_width(launcher.query, 10)"), "20");
    assert_eq!(c.str("text_width(launcher.query, 10, 'abc')"), "23");
    assert_eq!(c.str("text_width(launcher.query, oops)"), "30");
    assert_eq!(c.str("text_width('é', 10) * 2"), "20.8");
}

#[test]
fn lazy_branches_and_nesting() {
    let mut c = ctx(s_with_results(2, 0));
    c.local("a", "false");
    assert_eq!(c.str("a ? 1 : a ? 2 : 3"), "3");
    assert_eq!(c.str("a ? (launcher.results[9].name) : 'x:y'"), "x:y");
    assert_eq!(c.str("'q ? a : b'"), "q ? a : b");
    assert_eq!(c.str("what?"), "what?");
    let clock_free = Answers::new();
    let clock = Clock {
        time: reading(0.0),
        hit: reading(0.0),
        hit_type: reading(0.0),
        since_select: reading(0.0),
        since_type: reading(0.0),
    };
    let e = EvalContext::new(&c.state, &c.locals, (1, 1), &clock, &clock_free);
    assert!(matches!(eval_str("a ? sin(1) : 'done'", &e), Out::Done(s, _) if s == "done"));
    assert!(matches!(eval_str("!a ? sin(1) : 'done'", &e), Out::Need(q) if q.a == "sin(1)"));
}

#[test]
fn comparisons_of_text_and_numbers() {
    let c = ctx(s_with_results(2, 0));
    assert_eq!(c.str("('abc') < 'abd'"), "true");
    assert_eq!(c.str("launcher.query < 'fj'"), "true");
    assert_eq!(c.str("launcher.query >= 'fj'"), "false");
    assert_eq!(c.str("'abc' < 'abd'"), "abc' < 'abd");
    assert_eq!(c.str("'10' == 10.0"), "true");
    assert_eq!(c.str("launcher.results[0].name != 'App0'"), "false");
    assert_eq!(c.str("2 <= 10"), "true");
    assert_eq!(c.str("'2' <= x10"), "true");
    assert_eq!(c.bool("0.0", true), false);
    assert_eq!(c.bool("-2", false), true);
    assert_eq!(c.bool("words", true), true);
    assert_eq!(c.bool("words", false), false);
    assert_eq!(c.bool("''", true), false);
}

#[test]
fn remaining_paths() {
    let mut s = s_with_results(2, 1);
    s.results[1].description = Some("about".into());
    s.results[1].keywords = "k w".into();
    s.results[1].icon = "ico".into();
    s.results[1].score = -4;
    s.error = Some("bad".into());
    s.loading = true;
    let mut c = ctx(s);
    c.time = 0.1;
    assert_eq!(c.str("launcher.selected_result.mode"), "run");
    assert_eq!(c.str("launcher.selected_result.description"), "about");
    assert_eq!(c.str("launcher.selected_result.icon"), "/icons/ico.png");
    assert_eq!(c.str("launcher.results[ 1 ].score"), "-4");
    assert_eq!(c.str("launcher.results[1].keywords"), "k w");
    assert_eq!(c.str("launcher.results[0].mode"), "run");
    assert_eq!(c.str("launcher.results[1]"), "App1");
    assert_eq!(c.str("launcher.results[7].name"), "launcher.results[7].name");
    assert_eq!(c.str("launcher.error"), "bad");
    assert_eq!(c.str("launcher.loading"), "true");
    assert_eq!(c.str("launcher.launching"), "false");
    assert_eq!(c.str("launcher.loading * 3"), "3");
    assert_eq!(c.str("time"), "0.1");
    assert_eq!(c.str("window.height"), "480");
    c.state.results.clear();
    assert_eq!(c.str("launcher.selected_result.name"), "");
    c.local("window.width", "shadowed");
    assert_eq!(c.str("window.width"), "shadowed");
}

#[test]
fn text_beyond_ascii_is_left_alone() {
    let c = ctx(LauncherState::new());
    assert_eq!(c.str("é1 + 2"), "é1 + 2");
    assert_eq!(c.str("« 1 »"), "« 1 »");
}

#[test]
fn unusable_numbers_are_remarked_on() {
    let c = ctx(LauncherState::new());
    let (v, notes) = c.run(|x| eval_f32("widow + 2", x));
    assert!(v.is_none());
    assert_eq!(notes, vec!["`widow + 2` → `widow + 2` is not a number".to_string()]);
    let (v, notes) = c.run(|x| eval_f32("#abc", x));
    assert!(v.is_none());
    assert!(notes.is_empty());
    let (v, _) = c.run(|x| eval_color("#102030", x, (0, 0, 0, 0)));
    assert_eq!(v, (16, 32, 48, 255));
    let (v, _) = c.run(|x| eval_color("no color", x, (9, 9, 9, 9)));
    assert_eq!(v, (9, 9, 9, 9));
}

#[test]
fn splits_lose_nothing_but_the_separator() {
    let t: Vec<char> = "f(a?b) ? 'x?' : y".chars().collect();
    let p = find_top(&t, &['?']).unwrap();
    assert_eq!(p, 7);
    let back: String = t[..p].iter().chain(&['?']).chain(&t[p + 1..]).collect();
    assert_eq!(back, "f(a?b) ? 'x?' : y");
}

#[test]
fn more_answers_change_no_value() {
    let c = ctx(s_with_results(2, 1));
    let clock = Clock {
        time: reading(0.0),
        hit: reading(0.0),
        hit_type: reading(0.0),
        since_select: reading(0.0),
        since_type: reading(0.0),
    };
    let expr = "launcher.selected_index * 2 > 1 ? sin(1) + 1 : 0";
    let mut answers = Answers::new();
    let mut asked: Vec<String> = Vec::new();
    let value = loop {
        match eval_str(expr, &EvalContext::new(&c.state, &c.locals, (1, 1), &clock, &answers)) {
            Out::Done(v, _) => break v,
            Out::Need(q) => {
                let key = format!("{q:?}");
                assert!(!asked.contains(&key), "asked twice: {key}");
                asked.push(key);
                let r = c.reply(&q);
                answers.record(q, r);
            }
        }
    };
    assert_eq!(asked.len(), 4);
    answers.record(Ask { topic: Topic::Icon, a: "x".into(), b: String::new(), c: String::new() }, None);
    let locals = vec![("unused".to_string(), "1".to_string())];
    let e = EvalContext::new(&c.state, &c.locals, (1, 1), &clock, &answers).with_locals(&locals);
    assert!(matches!(eval_str(expr, &e), Out::Done(v, _) if v == value));
}

#[test]
fn remarks_are_kept_once() {
    let mut d = Diag::new();
    d.warn("a", "binding", "x");
    d.warn("b", "binding", "x");
    d.warn("a", "binding", "x");
    assert_eq!(d.warnings, vec!["node `a`: binding: x", "node `b`: binding: x"]);
}

#[test]
fn first_answers_stay() {
    let q = || Ask { topic: Topic::Icon, a: "i".into(), b: String::new(), c: String::new() };
    let mut a = Answers::new();
    assert!(matches!(a.ask(Topic::Icon, &['i'], &[], &[]), Out::Need(_)));
    a.record(q(), Some("one".into()));
    a.record(q(), Some("two".into()));
    match a.ask(Topic::Icon, &['i'], &[], &[]) {
        Out::Done(Some(v), _) => assert_eq!(v.iter().collect::<String>(), "one"),
        other => panic!("unexpected {other:?}"),
    }
}

// ---------------------------------------------------------------------------
// Layout
// ---------------------------------------------------------------------------

fn text_at(v: &toml::Table, key: &str) -> Option<String> {
    v.get(key).map(|x| x.as_str().unwrap().to_string())
}

fn number_text(v: &toml::Value) -> String {
    match v {
        toml::Value::Integer(i) => i.to_string(),
        toml::Value::Float(f) => f.to_string(),
        other => panic!("no number: {other}"),
    }
}

fn table_list<'a>(v: &'a toml::Table, key: &str) -> Vec<&'a toml::Table> {
    match v.get(key) {
        Some(l) => l.as_array().unwrap().iter().map(|x| x.as_table().unwrap()).collect(),
        None => Vec::new(),
    }
}

fn animation(v: &toml::Table) -> AnimateDef {
    let number = |k: &str, d: i64| v.get(k).map(|x| x.as_integer().unwrap()).unwrap_or(d) as u32;
    AnimateDef {
        property: text_at(v, "property").unwrap(),
        duration_ms: number("duration_ms", 200),
        delay_ms: number("delay_ms", 0),
        delay: v.get("delay").map(|d| match d {
            toml::Value::String(s) => DelaySpec::Expr(s.clone()),
            other => DelaySpec::Fixed(other.as_integer().unwrap() as u32),
        }),
        from: v.get("from").map(|d| match d {
            toml::Value::String(s) => FromSpec::Expr(s.clone()),
            other => FromSpec::Fixed(number_text(other)),
        }),
        easing: text_at(v, "easing").unwrap_or("easeOut".to_string()),
        spring: v.get("spring").map(|s| {
            let t = s.as_table().unwrap();
            SpringDef {
                damping: number_text(&t["damping"]),
                stiffness: number_text(&t["stiffness"]),
                mass: number_text(&t["mass"]),
            }
        }),
        trigger: text_at(v, "trigger"),
    }
}

fn node(v: &toml::Table) -> NodeDef {
    let mut n = empty_node(&text_at(v, "id").unwrap(), &text_at(v, "type").unwrap());
    n.x = text_at(v, "x");
    n.y = text_at(v, "y");
    n.width = text_at(v, "width");
    n.height = text_at(v, "height");
    n.visible = text_at(v, "visible");
    n.opacity = text_at(v, "opacity");
    n.model = text_at(v, "model");
    n.delegate = text_at(v, "delegate");
    n.text = text_at(v, "text");
    n.text_case = text_at(v, "text_case");
    n.rotation = text_at(v, "rotation");
    n.skew = text_at(v, "skew");
    n.scale = text_at(v, "scale");
    n.points = text_at(v, "points");
    n.on_click = text_at(v, "on_click");
    n.z = v.get("z").map(|z| z.as_integer().unwrap() as i32);
    if let Some(p) = v.get("props") {
        for (k, x) in p.as_table().unwrap() {
            n.props.push((k.clone(), x.as_str().unwrap().to_string()));
        }
    }
    n.children = table_list(v, "children").into_iter().map(node).collect();
    n.animate = table_list(v, "animate").into_iter().map(animation).collect();
    n
}

fn theme_parts(text: &str) -> Theme {
    let v: toml::Table = text.parse().unwrap();
    let mut components = Vec::new();
    if let Some(c) = v.get("components") {
        for (k, x) in c.as_table().unwrap() {
            let x = x.as_table().unwrap();
            components.push((
                k.clone(),
                ComponentDef {
                    nodes: table_list(x, "nodes").into_iter().map(node).collect(),
                    width: None,
                    height: None,
                    animate: table_list(x, "animate").into_iter().map(animation).collect(),
                },
            ));
        }
    }
    Theme {
        meta: ThemeMeta { name: String::new(), description: String::new(), author: String::new() },
        window: WindowTheme::default(),
        animations: AnimationsConfig { default_duration_ms: None, default_easing: None },
        nodes: table_list(&v, "nodes").into_iter().map(node).collect(),
        components,
    }
}

fn theme_from(text: &str) -> Theme {
    let t = theme_parts(text);
    t.validate().unwrap();
    t
}

fn state(n: usize, sel: usize) -> LauncherState {
    let mut s = s_with_results(n, sel);
    s.query = String::new();
    s
}

fn num(s: &str) -> f32 {
    s.parse().unwrap()
}

fn find<'a>(nodes: &'a [ResolvedNode], id: &str) -> &'a ResolvedNode {
    nodes.iter().find(|n| n.id == id).unwrap()
}

#[test]
fn free_positioning_and_bindings() {
    let t = theme_from(
        r#"
        [[nodes]]
        id = "a"
        type = "Rectangle"
        x = "window.width / 2 - 50"
        y = "launcher.selected_index * 40 + 10"
        width = "100"
        height = "40"
        props = { background = "rgba(1,2,3,0.5)" }
        "#,
    );
    let out = scene(state(3, 2), (400, 300), 0.0).layout(&t);
    assert_eq!(out.len(), 1);
    let n = &out[0];
    assert_eq!((num(&n.x), num(&n.y)), (150.0, 90.0));
    assert_eq!(n.background, Some((1, 2, 3, 128)));
}

const LIST: &str = r#"
    [[nodes]]
    id = "list"
    type = "Repeater"
    x = "10"
    y = "20"
    model = "launcher.results"
    delegate = "row"
    props = { item_height = "40", gap = "6" }

    [components.row]
    [[components.row.nodes]]
    id = "rowbg"
    type = "Rectangle"
    x = "0"
    y = "0"
    width = "200"
    height = "40"
    props = { background = "is_selected ? #ff0000 : transparent" }
    on_click = "activate(index)"

    [[components.row.nodes]]
    id = "rowtxt"
    type = "Text"
    x = "0"
    y = "0"
    width = "200"
    height = "40"
    text = "item_name"
    "#;

#[test]
fn repeater_vertical_with_locals_and_actions() {
    let t = theme_from(LIST);
    let out = scene(state(3, 1), (400, 300), 0.0).layout(&t);
    assert_eq!(out.len(), 6);
    let row0 = find(&out, "rowbg-0");
    let row1 = find(&out, "rowbg-1");
    assert_eq!((num(&row0.x), num(&row0.y)), (10.0, 20.0));
    assert_eq!(num(&row1.y), 66.0);
    assert_eq!(row0.background, Some((0, 0, 0, 0)));
    assert_eq!(row1.background, Some((255, 0, 0, 255)));
    assert!(matches!(row1.action, Some(NodeAction::Activate(Some(1)))));
    let txt = find(&out, "rowtxt-2");
    assert_eq!(txt.text.as_deref(), Some("App2"));
}

#[test]
fn repeater_circular_arrangement() {
    let t = theme_from(
        r#"
        [[nodes]]
        id = "orbit"
        type = "Repeater"
        x = "200"
        y = "200"
        model = "launcher.results"
        delegate = "it"
        props = { layout = "circular", radius = "100", item_height = "40", gap = "0" }

        [components.it]
        [[components.it.nodes]]
        id = "dot"
        type = "Rectangle"
        x = "-20"
        y = "-20"
        width = "40"
        height = "40"
        "#,
    );
    let out = scene(state(4, 0), (400, 400), 0.0).layout(&t);
    let d0 = find(&out, "dot-0");
    // first item is at -90° (top): center + (0, -100) + delegate offset (-20,-20)
    assert!((num(&d0.x) - (200.0 - 20.0)).abs() < 0.5, "d0.x={}", d0.x);
    assert!((num(&d0.y) - (200.0 - 100.0 - 20.0)).abs() < 0.5, "d0.y={}", d0.y);
}

#[test]
fn static_count_repeater_for_decorations() {
    let t = theme_from(
        r#"
        [[nodes]]
        id = "ticks"
        type = "Repeater"
        x = "0"
        y = "0"
        delegate = "tick"
        props = { count = "5" }

        [components.tick]
        [[components.tick.nodes]]
        id = "tickline"
        type = "Rectangle"
        x = "index * 20"
        y = "0"
        width = "10"
        height = "2"
        "#,
    );
    let out = scene(state(0, 0), (400, 300), 0.0).layout(&t);
    assert_eq!(out.len(), 5);
    assert_eq!(num(&out[3].x), 60.0);
}

#[test]
fn container_column_flow() {
    let t = theme_from(
        r#"
        [[nodes]]
        id = "panel"
        type = "Container"
        x = "10"
        y = "10"
        width = "200"
        height = "200"
        props = { layout = "column", gap = "4" }

        [[nodes.children]]
        id = "c1"
        type = "Rectangle"
        x = "0"
        y = "0"
        width = "100"
        height = "30"

        [[nodes.children]]
        id = "c2"
        type = "Rectangle"
        x = "5"
        y = "0"
        width = "100"
        height = "30"
        "#,
    );
    let out = scene(state(0, 0), (400, 300), 0.0).layout(&t);
    let c1 = find(&out, "c1");
    let c2 = find(&out, "c2");
    assert_eq!((num(&c1.x), num(&c1.y)), (10.0, 10.0));
    assert_eq!((num(&c2.x), num(&c2.y)), (15.0, 44.0)); // 10 + 30 + 4
}

#[test]
fn rotation_scale_and_stagger() {
    let t = theme_from(
        r#"
        [[nodes]]
        id = "card"
        type = "Rectangle"
        x = "10"
        y = "10"
        width = "100"
        height = "50"
        rotation = "-6"
        scale = "1.05"

        [[nodes]]
        id = "rows"
        type = "Repeater"
        x = "0"
        y = "0"
        model = "launcher.results"
        delegate = "r"

        [components.r]
        [[components.r.nodes]]
        id = "rr"
        type = "Rectangle"
        x = "0"
        y = "0"
        width = "50"
        height = "20"
        animate = [{ property = "opacity", from = 0, duration_ms = 200, delay = "index * 30" }]
        "#,
    );
    let out = scene(state(3, 0), (400, 300), 0.0).layout(&t);
    let card = find(&out, "card");
    assert_eq!(num(&card.rotation), -6.0);
    assert_eq!(num(&card.scale), 1.05);
    let rr2 = find(&out, "rr-2");
    assert_eq!(rr2.animate[0].delay_ms, 60); // index * 30 baked
    assert_eq!(rr2.animate[0].from.as_deref(), Some("0"));
}

#[test]
fn uses_time_detection() {
    let t = theme_from(
        r#"
        [[nodes]]
        id = "pulse"
        type = "Rectangle"
        x = "sin(time) * 10"
        y = "0"
        width = "10"
        height = "10"
        "#,
    );
    assert!(uses_time(&t));
    assert!(!uses_impulse(&t));
}

#[test]
fn uses_impulse_detection() {
    let t = theme_from(
        r#"
        [[nodes]]
        id = "slam"
        type = "Rectangle"
        x = "20 + shake(12, 1)"
        y = "0"
        width = "10"
        height = "10"
        "#,
    );
    let out = scene(state(0, 0), (400, 300), 0.0).layout(&t);
    assert!(uses_impulse(&t));
    assert!(!uses_time(&t));
    assert_eq!(num(&out[0].x), 20.0, "hit defaults to 0 so shake is a no-op");
}

#[test]
fn words_are_found_anywhere_in_a_theme() {
    let mut t = theme_from(LIST);
    assert!(!theme_uses_token(&t, &vec!["launching"]));
    assert!(theme_uses_token(&t, &vec!["none", "is_selected"]));
    assert!(!theme_uses_token(&t, &vec!["select"]));
    t.components[0].1.animate.push(animation(&"property = \"x\"\ndelay = \"since_select\"".parse().unwrap()));
    assert!(uses_impulse(&t));
    t.nodes[0].children.push(empty_node("k", "Rectangle"));
    t.nodes[0].children[0].points = Some("0,0; launching,1".into());
    assert!(theme_uses_token(&t, &vec!["launching"]));
}

#[test]
fn lists_are_cut_to_their_box() {
    let mut t = theme_from(LIST);
    t.nodes[0].height = Some("60".into());
    let out = scene(state(9, 0), (400, 300), 0.0).layout(&t);
    // rows at 20 and 66 touch the band from 20 to 80
    assert_eq!(out.len(), 4);
    let c = out[0].clip.as_ref().unwrap();
    assert_eq!((num(&c.x), num(&c.y), num(&c.width), num(&c.height)), (10.0, 19.5, 390.0, 61.0));
    t.nodes[0].props.push(("clip_y".into(), "61".into()));
    t.nodes[0].props.push(("clip_pad".into(), "5".into()));
    let out = scene(state(9, 0), (400, 300), 0.0).layout(&t);
    let ids: Vec<&str> = out.iter().map(|n| n.id.as_str()).collect();
    assert_eq!(ids, vec!["rowbg-1", "rowtxt-1", "rowbg-2", "rowtxt-2"]);
    let c = out[0].clip.as_ref().unwrap();
    assert_eq!((num(&c.x), num(&c.y), num(&c.width), num(&c.height)), (5.0, 60.5, 400.0, 61.0));
}

#[test]
fn rings_show_a_window_around_the_selection() {
    let mut t = theme_from(LIST);
    t.nodes[0].props.push(("layout".into(), "row".into()));
    let out = scene(state(30, 10), (400, 300), 0.0).layout(&t);
    assert_eq!(out.len(), 18);
    assert_eq!(out[0].id, "rowbg-6");
    assert_eq!(out[0].index, Some(6));
    t.nodes[0].props.push(("window".into(), "1".into()));
    let out = scene(state(30, 0), (400, 300), 0.0).layout(&t);
    assert_eq!(out.len(), 4);
    t.nodes[0].props.retain(|(k, _)| k != "layout" && k != "window");
    t.nodes[0].props.push(("layout".into(), "free".into()));
    let out = scene(state(30, 10), (400, 300), 0.0).layout(&t);
    assert_eq!(out.len(), 60);
    assert!(out[0].clip.is_none());
    assert_eq!(num(&out[59].y), 20.0);
}

#[test]
fn invisible_and_unknown_parts() {
    let mut t = theme_parts(LIST);
    t.nodes[0].visible = Some("launcher.results_count > 5".into());
    assert!(scene(state(3, 0), (400, 300), 0.0).layout(&t).is_empty());
    t.nodes[0].visible = None;
    t.nodes[0].model = Some("other".into());
    assert!(scene(state(3, 0), (400, 300), 0.0).layout(&t).is_empty());
    t.nodes[0].delegate = Some("gone".into());
    let (nodes, notes) = scene(state(3, 0), (400, 300), 0.0).run(|c| resolve(&t, c));
    assert!(nodes.is_empty());
    assert_eq!(notes, vec!["node `list`: repeater: unknown delegate component `gone`"]);
    match t.validate().unwrap_err() {
        ThemeError::UnknownComponent { .. } => {}
        other => panic!("unexpected {other:?}"),
    }
    t.nodes[0].delegate = Some("row".into());
    t.nodes.push(empty_node("list", "Rectangle"));
    assert!(matches!(t.validate().unwrap_err(), ThemeError::DuplicateId { .. }));
}

#[test]
fn layers_keep_document_order() {
    let t = theme_from(
        r#"
        nodes = [
          { id = "a", type = "Rectangle", z = 2 },
          { id = "b", type = "Rectangle" },
          { id = "c", type = "Rectangle", z = -1 },
          { id = "d", type = "Rectangle" },
        ]
        "#,
    );
    let out = scene(state(0, 0), (400, 300), 0.0).layout(&t);
    let ids: Vec<&str> = out.iter().map(|n| n.id.as_str()).collect();
    assert_eq!(ids, vec!["c", "b", "d", "a"]);
    assert_eq!((num(&out[0].width), num(&out[0].height), num(&out[0].opacity)), (100.0, 40.0, 1.0));
}

#[test]
fn opacity_multiplies_down_the_tree() {
    let t = theme_from(
        r#"
        [[nodes]]
        id = "a"
        type = "Container"
        opacity = "0.5"
        props = { layout = "column" }
        [[nodes.children]]
        id = "b"
        type = "Rectangle"
        opacity = "0.5"
        [[nodes.children]]
        id = "c"
        type = "Container"
        opacity = "7"
        [[nodes.children.children]]
        id = "d"
        type = "Rectangle"
        opacity = "0.25"

        [[nodes]]
        id = "list"
        type = "Repeater"
        delegate = "row"
        opacity = "0.5"
        [components.row]
        [[components.row.nodes]]
        id = "e"
        type = "Rectangle"
        opacity = "0.5"
        [[components.row.nodes.children]]
        id = "f"
        type = "Rectangle"
        opacity = "0.5"
        "#,
    );
    let out = scene(state(1, 0), (400, 300), 0.0).layout(&t);
    let o = |id: &str| num(&find(&out, id).opacity);
    assert_eq!((o("a"), o("b"), o("c"), o("d")), (0.5, 0.25, 0.5, 0.125));
    assert_eq!((o("e-0"), o("f-0")), (0.25, 0.125));
}

#[test]
fn node_details() {
    let t = theme_from(
        r##"
        [[nodes]]
        id = "p"
        type = "Polygon"
        opacity = "7"
        text = "launcher.query"
        text_case = "upper"
        points = "0,0; window.width,8; bad,9; max(1, 2),'3'; ;5"
        on_click = "select(1)"
        props = { fill = "#010203", color = "white", radius = " 4.5 " }
        animate = [{ property = "x", delay_ms = 5, delay = 7, from = "window.width" }]

        [[nodes]]
        id = "q"
        type = "Rectangle"
        on_click = "move( -2 )"

        [[nodes]]
        id = "r"
        type = "Rectangle"
        on_click = "query('abc')"

        [[nodes]]
        id = "s"
        type = "Rectangle"
        on_click = "quit"

        [[nodes]]
        id = "t"
        type = "Rectangle"
        on_click = "dance(1)"

        [[nodes]]
        id = "u"
        type = "Rectangle"
        on_click = "launch"
        "##,
    );
    let mut s = state(2, 0);
    s.query = "straße".into();
    let (out, notes) = scene(s, (400, 300), 0.0).run(|c| resolve(&t, c));
    let p = &out[0];
    assert_eq!(num(&p.opacity), 1.0);
    assert_eq!(p.text.as_deref(), Some("STRASSE"));
    let pts: Vec<(f32, f32)> = p.points.iter().map(|(x, y)| (num(x), num(y))).collect();
    assert_eq!(pts, vec![(0.0, 0.0), (400.0, 8.0), (2.0, 3.0)]);
    assert!(matches!(p.action, Some(NodeAction::Select(Some(1)))));
    assert_eq!(p.background, Some((1, 2, 3, 255)));
    assert_eq!(p.color, Some((255, 255, 255, 255)));
    assert_eq!(num(&p.radius), 4.5);
    assert_eq!(p.animate[0].delay_ms, 12);
    assert_eq!(p.animate[0].from.as_deref(), Some("400"));
    assert!(matches!(out[1].action, Some(NodeAction::Move(-2))));
    assert!(matches!(&out[2].action, Some(NodeAction::SetQuery(q)) if q == "abc"));
    assert!(matches!(out[3].action, Some(NodeAction::Close)));
    assert!(out[4].action.is_none());
    assert!(matches!(out[5].action, Some(NodeAction::Activate(None))));
    assert_eq!(notes, vec!["node `t`: on_click: unknown action `dance`"]);
    assert_eq!(p.action.as_ref().unwrap().targeted_index(), Some(1));
}

/// Linear motions by key: start, target and the time of the start.
struct Moving(std::collections::HashMap<String, (f32, f32, u64)>);

impl Moving {
    fn scale(&mut self, n: &ResolvedNode, clock: &ImpulseClock, now: u64) -> f32 {
        let m = &n.animate[0];
        let plan = plan_motion(&n.id, m, clock.select_gen, clock.type_gen);
        assert_eq!(plan.prop, Some(Prop::Scale));
        let target = num(&n.scale);
        let at = |(from, to, start): (f32, f32, u64)| {
            from + (to - from) * ((now - start) as f32 / m.duration_ms as f32).clamp(0.0, 1.0)
        };
        let running = self.0.get(&plan.key).copied();
        let known = Known {
            running: running.map(|r| (r.1 - target).abs() > 0.01),
            current: None,
            has_from: m.from.is_some(),
        };
        match decide_motion(known) {
            Some(Start::From) => {
                self.0.insert(plan.key.clone(), (num(m.from.as_ref().unwrap()), target, now));
            }
            Some(other) => panic!("unexpected start {other:?}"),
            None => {}
        }
        at(self.0[&plan.key])
    }
}

#[test]
fn animate_trigger_select_replays_from() {
    let t = theme_from(
        r#"
        [meta]
        name = "t"
        [[nodes]]
        id = "card"
        type = "Rectangle"
        x = "10"
        y = "10"
        width = "40"
        height = "40"
        scale = "1"
        animate = [{ property = "scale", from = 1.4, duration_ms = 200, trigger = "select", easing = "linear" }]
        "#,
    );
    let mut sc = scene(LauncherState::new(), (200, 200), 0.0);
    sc.state.set_results(vec![
        AppEntry::run("a".into(), "A".into(), "a".into()),
        AppEntry::run("b".into(), "B".into(), "b".into()),
    ]);
    let mut clock = ImpulseClock::new(20_000);
    let mut moving = Moving(std::collections::HashMap::new());
    let mut look = |sc: &Scene, now: u64| {
        clock.sync(sc.state.selected_index, &sc.state.query, now);
        let nodes = sc.layout(&t);
        moving.scale(find(&nodes, "card"), &clock, now)
    };
    let s0 = look(&sc, 20_000);
    assert!(s0 > 1.2, "opening trigger plays from=1.4, got {s0}");
    let s1 = look(&sc, 20_250);
    assert!((s1 - 1.0).abs() < 0.05, "settled at 1, got {s1}");
    sc.state.selected_index = 1;
    let s2 = look(&sc, 20_250);
    assert!(s2 > 1.2, "select trigger replays from=1.4, got {s2}");
}

#[test]
fn the_built_in_theme_is_valid() {
    let t = Theme::fallback();
    t.validate().unwrap();
    let out = scene(state(3, 0), (640, 420), 0.0).layout(&t);
    assert!(!out.is_empty());
    assert_eq!(t.window.effective_size((3, 4)), (3, 4));
    assert_eq!(WindowTheme::default().effective_size((3, 4)), (3, 4));
}
