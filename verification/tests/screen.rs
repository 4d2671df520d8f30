use hiren::icon::{candidates, resolve};
use hiren::listview::{launch_target, list_height, mode_label, navigate, press, ListKey};
use hiren::entry::AppMode;
use hiren::frontend::UiKey;
use hiren::motion::{
    decide_motion, hash_bits, motion_kind, plan_motion, property_of, settle_image, ImpulseClock, Known,
    MotionKind, Prop, Start,
};
use hiren::node::{Clip, Motion, ResolvedNode};
use hiren::paint::{draw_node, draws_directly, parse_border, parse_linear_gradient, parse_shadow, Layer};
use hiren::ransom::{
    default_ransom_fonts, glyph_pixel, nowrap_of, parse_font_list, plan_ransom, ransom_font_list,
    ransom_hash, ransom_of, spot_index, weight_from, weight_of, RansomGlyph,
};
use hiren::surface::{
    accepts_size, anchor_edge, exclusive_zone, frame_timeout_ms, interpret, keyboard_interactivity,
    layer_number, logical_size, pack_pixel, process_frame, schedule, swizzle, typed_key, Activity,
    BufferPair, Edge, FrameStep,
};
use hiren::config::{KeyBinding, KeyboardModeConfig, Modifiers};
use hiren::theme::SpringDef;

// ---------------------------------------------------------------------------
// Icons
// ---------------------------------------------------------------------------

fn lookup(name: &str, there: &str) -> String {
    let c = candidates(name, Some("/home/u"), None);
    let flags: Vec<bool> = c.iter().map(|p| p == there).collect();
    resolve(name, Some("/home/u"), None, &flags)
}

#[test]
fn empty_name_is_empty_path() {
    assert_eq!(lookup("", "x"), "");
    assert_eq!(lookup("   ", "x"), "");
}

#[test]
fn absolute_existing_file_passes_through() {
    let f = "/tmp/hiren-icon-test.png";
    assert_eq!(lookup(f, f), f);
    assert_eq!(lookup(f, "elsewhere"), "");
}

#[test]
fn icon_places() {
    assert_eq!(
        lookup("firefox", "/usr/share/icons/hicolor/64x64/apps/firefox.png"),
        "/usr/share/icons/hicolor/64x64/apps/firefox.png"
    );
    assert_eq!(
        lookup("firefox", "/usr/share/pixmaps/firefox.png"),
        "/usr/share/pixmaps/firefox.png"
    );
    assert_eq!(lookup("firefox", "/nowhere/firefox.png"), "");
    let c = candidates("a", Some("/h"), Some("/d"));
    assert!(c.iter().any(|p| p.starts_with("/h/")));
    assert!(c.iter().any(|p| p.starts_with("/d/")));
}

// ---------------------------------------------------------------------------
// Ransom lettering
// ---------------------------------------------------------------------------

fn plan(text: &str) -> Vec<RansomGlyph> {
    let fonts = default_ransom_fonts();
    let mut thin: Vec<bool> = Vec::new();
    loop {
        let p = plan_ransom(text, &fonts, &thin);
        if p.next.is_none() {
            return p.glyphs;
        }
        thin.push(false);
    }
}

fn family_has_lowercase(family: &str) -> bool {
    let f = family.to_ascii_lowercase();
    f.contains("archivo")
}

#[test]
fn ransom_mixes_case_like_p5() {
    let stats = plan("STATS");
    assert_eq!(stats[0].ch, 'S');
    assert!(!stats[0].lower, "first letter stays a large cap");
    let has_lower = stats.iter().any(|g| g.lower);
    let has_cap_after = stats.iter().skip(1).any(|g| !g.lower);
    assert!(has_lower, "STATS must mix minuscule like the CAMP reference");
    assert!(has_cap_after, "STATS must keep some interior caps");
    let families: std::collections::HashSet<_> = stats.iter().map(|g| g.family.as_str()).collect();
    assert!(families.len() >= 2, "one word must use more than one face, got {families:?}");

    let conf = plan("CONFIDANT");
    assert_eq!(conf[0].ch, 'C');
    assert!(conf.iter().any(|g| g.lower && matches!(g.ch, 'a' | 'o' | 'e')));
    let lowers: Vec<char> = conf.iter().filter(|g| g.lower).map(|g| g.ch).collect();
    assert!(
        lowers.iter().all(|c| family_has_lowercase(
            &conf.iter().find(|g| g.ch == *c && g.lower).unwrap().family
        )),
        "minuscule only on Archivo"
    );
}

#[test]
fn ransom_no_micro_glyphs() {
    // faces that are six tenths of their size wide
    let ink = |size: f32| size * 0.6;
    let glyphs = plan("CONFIDANT FIREFOX WALLPAPER ENGINE");
    for g in &glyphs {
        if g.space {
            continue;
        }
        let size = 24.0 * g.percent as f32 / 100.0;
        let f = g.family.to_ascii_lowercase();
        assert!(
            !f.contains("abril") && !f.contains("playfair"),
            "hairline face {} on list-sized {:?}",
            g.family,
            g.ch
        );
        assert!(
            size >= 24.0 * 0.88 - 0.05,
            "micro letter {:?} at {}px (floor is {:.1})",
            g.ch,
            size,
            24.0 * 0.88
        );
        let narrow = matches!(g.ch, 'I' | 'i' | 'l' | 'j' | 'J' | 't' | 'f' | 'r' | '1' | '\'' | ',' | '.');
        if !narrow {
            assert!(ink(size) >= 8.0, "speck glyph {:?} family={} size={:.1}", g.ch, g.family, size);
        }
        if g.lower {
            assert!(family_has_lowercase(&g.family), "lowercase {:?} on caps-only face {}", g.ch, g.family);
            assert!(f.contains("archivo"), "lowercase should use Archivo Black, got {}", g.family);
        }
    }
}

#[test]
fn thin_letters_become_plain_capitals() {
    let fonts = default_ransom_fonts();
    let p = plan_ransom("ABC", &fonts, &vec![true]);
    assert_eq!(p.glyphs.len(), 1);
    assert_eq!((p.glyphs[0].ch, p.glyphs[0].percent), ('A', 100));
    assert_eq!(p.next.unwrap().ch, 'B');
}

#[test]
fn small_letters_do_not_run_on() {
    let mut run = 0;
    for g in plan("aeiounrst aeiounrst") {
        run = if g.lower { run + 1 } else { 0 };
        assert!(run <= 2);
    }
}

#[test]
fn lettering_is_repeatable() {
    assert_eq!(ransom_hash("abc", 1), ransom_hash("abc", 1));
    assert_ne!(ransom_hash("abc", 1), ransom_hash("abc", 2));
    assert_ne!(ransom_hash("abc", 1), ransom_hash("abd", 1));
}

#[test]
fn font_lists() {
    assert_eq!(parse_font_list(" 'Anton' , \"Titan One\",, Oswald "), vec!["Anton", "Titan One", "Oswald"]);
    assert_eq!(ransom_font_list(&vec!["X".to_string()], "A, B"), vec!["X"]);
    let names = |l: Vec<(&str, &str)>| l.into_iter().map(|(a, b)| (a.to_string(), b.to_string())).collect::<Vec<_>>();
    assert!(ransom_of(&names(vec![("ransom", "true")])));
    assert!(!ransom_of(&names(vec![("ransom", "no")])));
    assert!(nowrap_of(&names(vec![("wrap", "none")])));
    assert_eq!(weight_from("bold"), 700);
    assert_eq!(weight_of(&names(vec![("font_weight", "black")])), 900);
    assert_eq!(weight_of(&names(vec![])), 400);
}

#[test]
fn pixels_and_spots() {
    assert_eq!(spot_index(2, 1, 4, 3), Some(6));
    assert_eq!(spot_index(-1, 1, 4, 3), None);
    assert_eq!(spot_index(4, 1, 4, 3), None);
    assert_eq!(glyph_pixel((10, 20, 30, 255), 0, 0, false), None);
    assert_eq!(glyph_pixel((10, 20, 30, 255), 255, 255, false), Some((10, 20, 30, 255)));
}

// ---------------------------------------------------------------------------
// Painting
// ---------------------------------------------------------------------------

fn plain(kind: &str) -> ResolvedNode {
    ResolvedNode {
        id: "n".to_string(),
        kind: kind.to_string(),
        x: "0".to_string(),
        y: "0".to_string(),
        width: "10".to_string(),
        height: "10".to_string(),
        opacity: "1".to_string(),
        z: 0,
        props: Vec::new(),
        text: None,
        color: None,
        background: None,
        radius: "0".to_string(),
        rotation: "0".to_string(),
        skew: "0".to_string(),
        scale: "1".to_string(),
        points: Vec::new(),
        animate: Vec::new(),
        clip: None,
        action: None,
        index: None,
    }
}

fn prop(n: &mut ResolvedNode, k: &str, v: &str) {
    n.props.push((k.to_string(), v.to_string()));
}

#[test]
fn shadows_and_borders() {
    let s = parse_shadow("0 8 24 rgba(0,0,0,0.5)").unwrap();
    assert_eq!((s.dx.as_str(), s.dy.as_str(), s.blur.as_str(), s.color), ("0", "8", "24", (0, 0, 0, 128)));
    let s = parse_shadow("3px 3px #000").unwrap();
    assert_eq!((s.dx.as_str(), s.dy.as_str(), s.color), ("3", "3", (0, 0, 0, 255)));
    assert!(parse_shadow("soft").is_none());
    let b = parse_border("2px #fff").unwrap();
    assert_eq!((b.width.as_str(), b.color), ("2", (255, 255, 255, 255)));
    assert_eq!(parse_border("#fff").unwrap().width, "1");
    assert_eq!(parse_border("3px").unwrap().color, (255, 255, 255, 20));
    assert!(parse_border("wide #fff").is_none());
}

#[test]
fn gradients() {
    let g = parse_linear_gradient("linear-gradient(180deg, #111 0%, #01020380 100%)").unwrap();
    assert_eq!(g.angle, "180");
    assert_eq!(g.stops.len(), 2);
    assert_eq!(g.stops[1].color, (1, 2, 3, 128));
    assert_eq!(g.stops[1].percent.as_deref(), Some("100"));
    assert!(parse_linear_gradient("#fff").is_none());
}

#[test]
fn layers_of_a_node() {
    let mut n = plain("Rectangle");
    assert!(draw_node(&n).is_empty());
    n.background = Some((1, 2, 3, 255));
    prop(&mut n, "shadow", "0 8 24 #000");
    prop(&mut n, "border", "1px #fff");
    n.text = Some("hi".to_string());
    let kinds: Vec<&str> = draw_node(&n)
        .iter()
        .map(|l| match l {
            Layer::Shadow(_) => "shadow",
            Layer::Gradient(_) => "gradient",
            Layer::Fill(_) => "fill",
            Layer::Image(_) => "image",
            Layer::Text(_) => "text",
            Layer::Border(_) => "border",
        })
        .collect();
    assert_eq!(kinds, vec!["shadow", "fill", "text", "border"]);
}

#[test]
fn text_layers_carry_their_style() {
    let mut n = plain("Text");
    n.text = Some("hi".to_string());
    n.color = Some((9, 8, 7, 255));
    prop(&mut n, "ransom", "true");
    prop(&mut n, "ransom_fonts", "Anton, Titan One");
    prop(&mut n, "ransom_paper", "#000");
    prop(&mut n, "wrap", "none");
    prop(&mut n, "text_shadow", "3px 3px #000");
    match &draw_node(&n)[0] {
        Layer::Text(t) => {
            assert_eq!(t.text, "hi");
            assert_eq!(t.color, (9, 8, 7, 255));
            assert!(t.ransom && t.nowrap);
            assert_eq!(t.ransom_fonts, vec!["Anton", "Titan One"]);
            assert_eq!(t.ransom_paper, Some((0, 0, 0, 255)));
            assert_eq!(t.shadow.as_ref().unwrap().dx, "3");
        }
        other => panic!("unexpected {other:?}"),
    }
}

#[test]
fn cut_nodes_need_a_layer_of_their_own() {
    let mut n = plain("Rectangle");
    assert!(draws_directly(&n, true));
    n.clip = Some(Clip { x: "0".into(), y: "0".into(), width: "1".into(), height: "1".into() });
    assert!(draws_directly(&n, true));
    assert!(!draws_directly(&n, false));
}

// ---------------------------------------------------------------------------
// Motion
// ---------------------------------------------------------------------------

fn hit(elapsed_ms: u64) -> f32 {
    let e = elapsed_ms as f32 / 1000.0;
    if e <= 0.036 {
        1.0
    } else {
        (-(e - 0.036) / 0.065).exp()
    }
}

fn active(c: &ImpulseClock, now: u64) -> bool {
    hit(now - c.select_at) > 0.02 || hit(now - c.type_at) > 0.02
}

#[test]
fn opening_slam_decays_and_retriggers_on_select() {
    let mut clock = ImpulseClock::new(50_000);
    assert!(!active(&clock, 50_000), "clock starts cold");
    clock.sync(0, "", 50_000);
    assert!(active(&clock, 50_000), "first frame is an opening slam");
    clock.sync(0, "", 50_400);
    assert!(!active(&clock, 50_400), "envelope decayed");
    clock.sync(1, "", 50_400);
    assert!(active(&clock, 50_400), "moving selection retriggers hit");
}

#[test]
fn typing_counts_apart_from_selecting() {
    let mut c = ImpulseClock::new(20_000);
    c.sync(0, "ready", 20_000);
    assert_eq!((c.select_gen, c.type_gen, c.type_at), (1, 0, 10_000));
    c.sync(0, "ready!", 20_100);
    assert_eq!((c.select_gen, c.type_gen, c.select_at, c.type_at), (1, 1, 20_000, 20_100));
}

fn motion(property: &str, trigger: Option<&str>) -> Motion {
    Motion {
        property: property.to_string(),
        duration_ms: 200,
        delay_ms: 0,
        from: None,
        easing: "linear".to_string(),
        spring: None,
        trigger: trigger.map(|t| t.to_string()),
    }
}

#[test]
fn triggers_start_a_motion_again() {
    let a = plan_motion("card", &motion("scale", Some("select")), 1, 0);
    let b = plan_motion("card", &motion("scale", Some("select")), 2, 0);
    assert_ne!(a.key, b.key);
    assert_eq!(a.prop, Some(Prop::Scale));
    let a = plan_motion("card", &motion("x", None), 1, 0);
    let b = plan_motion("card", &motion("x", None), 2, 5);
    assert_eq!(a.key, b.key);
    assert_eq!(a.key, "card:x");
    let c = plan_motion("card", &motion("hue", Some("click")), 2, 5);
    assert!(c.prop.is_none());
    assert_eq!(
        c.notes,
        vec!["node `card`: animate: unknown trigger `click`", "node `card`: animate: unknown property `hue`"]
    );
    assert_eq!(property_of("skew"), Some(Prop::Skew));
    assert_eq!(property_of("hue"), None);
}

#[test]
fn where_motions_start() {
    let k = |running, current, has_from| decide_motion(Known { running, current, has_from });
    assert_eq!(k(Some(true), Some(true), true), Some(Start::Running));
    assert_eq!(k(Some(false), Some(true), true), None);
    assert_eq!(k(None, Some(true), true), Some(Start::Current));
    assert_eq!(k(None, Some(false), true), None);
    assert_eq!(k(None, None, true), Some(Start::From));
    assert_eq!(k(None, None, false), None);
    let mut m = motion("x", None);
    assert_eq!(motion_kind(&m), MotionKind::Easing);
    m.easing = "spring".to_string();
    assert_eq!(motion_kind(&m), MotionKind::Spring);
    m.spring = Some(SpringDef { damping: "1".into(), stiffness: "2".into(), mass: "3".into() });
    assert_eq!(motion_kind(&m), MotionKind::OwnSpring);
}

#[test]
fn noise_words() {
    let reference = |n: u32| {
        let mut x = n.wrapping_add(0x9e3779b9).wrapping_mul(0x45d9f3b);
        x ^= x >> 16;
        x = x.wrapping_mul(0x45d9f3b);
        x ^ (x >> 16)
    };
    for n in [0, 1, 2, 77, u32::MAX] {
        assert_eq!(hash_bits(n), reference(n));
    }
    assert_ne!(hash_bits(1), hash_bits(2));
    assert_eq!(settle_image("a.png", "/t"), "/t/a.png");
    assert_eq!(settle_image("/a.png", "/t"), "/a.png");
}

// ---------------------------------------------------------------------------
// Surface
// ---------------------------------------------------------------------------

fn activity() -> Activity {
    Activity { animating: false, uses_time: false, impact: false, dirty: false, auto_close_pending: false, time_hz: None }
}

#[test]
fn an_idle_launcher_sleeps() {
    assert_eq!(frame_timeout_ms(activity()), -1);
    assert_eq!(schedule(activity()), None);
    assert_eq!(process_frame(activity(), false, true, None), FrameStep::Wait);
    assert_eq!(process_frame(activity(), true, true, None), FrameStep::Finish);
}

#[test]
fn frames_are_paced() {
    let a = Activity { uses_time: true, ..activity() };
    assert_eq!(frame_timeout_ms(a), 50);
    assert_eq!(schedule(a), Some(45));
    assert_eq!(process_frame(a, false, true, Some(44)), FrameStep::Wait);
    assert_eq!(process_frame(a, false, true, Some(45)), FrameStep::Draw);
    assert_eq!(process_frame(a, false, false, Some(45)), FrameStep::Wait);
    let a = Activity { time_hz: Some(60), ..a };
    assert_eq!(frame_timeout_ms(a), 16);
    let a = Activity { impact: true, ..activity() };
    assert_eq!(frame_timeout_ms(a), 16);
    assert_eq!(process_frame(a, false, true, Some(0)), FrameStep::Draw);
    let a = Activity { dirty: true, ..activity() };
    assert_eq!(frame_timeout_ms(a), 0);
    assert_eq!(process_frame(a, false, false, Some(0)), FrameStep::Draw);
    let a = Activity { auto_close_pending: true, ..activity() };
    assert_eq!((frame_timeout_ms(a), schedule(a)), (250, Some(250)));
}

#[test]
fn surface_settings() {
    assert_eq!(layer_number("background"), 0);
    assert_eq!(layer_number("bottom"), 1);
    assert_eq!(layer_number("top"), 2);
    assert_eq!(layer_number("anything"), 3);
    assert_eq!(anchor_edge("top"), Edge::Top);
    assert_eq!(anchor_edge("bottom"), Edge::Bottom);
    assert_eq!(anchor_edge("center"), Edge::Center);
    assert_eq!(exclusive_zone(Edge::Center), -1);
    assert_eq!(keyboard_interactivity(KeyboardModeConfig::Exclusive), 1);
    assert_eq!(keyboard_interactivity(KeyboardModeConfig::OnDemand), 2);
    assert_eq!(logical_size(Some((0, 5)), (7, 8)), (7, 8));
    assert!(accepts_size((1, 1), 2, 1));
    assert!(!accepts_size((2, 1), 2, 1));
}

#[test]
fn buffers_take_turns() {
    let mut b = BufferPair::new();
    let first = b.take().unwrap();
    let second = b.take().unwrap();
    assert_ne!(first, second);
    assert_eq!(b.take(), None);
    b.release(first);
    assert_eq!(b.take(), Some(first));
}

#[test]
fn pixel_order() {
    let px = [1u8, 2, 3, 4, 5, 6, 7, 8];
    assert_eq!(swizzle(&px), vec![3, 2, 1, 4, 7, 6, 5, 8]);
    assert_eq!(swizzle(&swizzle(&px)), px);
    assert_eq!(pack_pixel(1, 2, 3, 4) & 0x00ff_ffff, 0x010203);
}

#[test]
fn keys_from_symbols() {
    assert!(matches!(interpret(0xff1b, "\u{1b}"), Some(UiKey::Escape)));
    assert!(matches!(interpret(0xff8d, "\r"), Some(UiKey::Enter)));
    assert!(matches!(interpret(0xfe20, ""), Some(UiKey::BackTab)));
    assert!(matches!(interpret(0x61, "a"), Some(UiKey::Char(t)) if t == "a"));
    assert!(interpret(0xffe1, "").is_none());
    assert!(interpret(0x61, "\u{1}").is_none());
    assert!(matches!(typed_key("\t"), Some(UiKey::Tab)));
    assert!(matches!(typed_key("é"), Some(UiKey::Char(t)) if t == "é"));
    assert!(typed_key("").is_none());
}

// ---------------------------------------------------------------------------
// List
// ---------------------------------------------------------------------------

#[test]
fn list_navigation() {
    assert_eq!(navigate(0, None, 1), None);
    assert_eq!(navigate(3, None, 1), Some(0));
    assert_eq!(navigate(3, None, -1), Some(2));
    assert_eq!(navigate(3, Some(2), 5), Some(2));
    assert_eq!(navigate(3, Some(1), -5), Some(0));
    assert_eq!(launch_target(0, Some(1)), None);
    assert_eq!(launch_target(3, None), Some(0));
    assert_eq!(launch_target(3, Some(2)), Some(2));
    assert_eq!(list_height(360), 260);
    assert_eq!(list_height(0), 100);
    assert_eq!(mode_label(AppMode::Calc), "calc");
}

#[test]
fn list_keys() {
    let bind = |mods: u8, prefix: Option<&str>| KeyBinding {
        key: String::new(),
        prefix: prefix.map(|p| p.to_string()),
        modifiers: Modifiers(mods),
        key_name: "return".to_string(),
    };
    let l = vec![bind(0, None), bind(Modifiers::CTRL, Some("pre"))];
    let none = Modifiers::default();
    let ctrl = Modifiers(Modifiers::CTRL);
    assert!(matches!(press(0xff1b, "return", none, &l, true), ListKey::Close));
    assert!(matches!(press(0xff0d, "return", none, &l, true), ListKey::Launch(None)));
    assert!(matches!(press(0xff0d, "return", ctrl, &l, true), ListKey::Launch(Some(p)) if p == "pre"));
    assert!(matches!(press(0xff54, "down", none, &l, false), ListKey::Navigate(1)));
    assert!(matches!(press(0xff52, "up", none, &l, false), ListKey::Navigate(-1)));
    assert!(matches!(press(0xff52, "up", none, &l, true), ListKey::Pass));
    assert!(matches!(press(0x61, "a", none, &l, false), ListKey::Pass));
}
