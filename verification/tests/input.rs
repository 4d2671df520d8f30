use hiren::config::{LauncherConfig, RawBinding, RawConfig, RawUi, TerminalConfig};
use hiren::entry::AppEntry;
use hiren::frontend::{plan_launch, topmost_actionable, AppCore, Effect, Outcome, Reaction, UiKey, UiMods};
use hiren::launcher::{LauncherState, ObservableState};
use hiren::modes::{Tools, WindowMode, WmEnv};
use hiren::node::NodeAction;
use hiren::theme::WindowTheme;

fn config(bindings: Option<Vec<RawBinding>>, secs: Option<u64>) -> LauncherConfig {
    let raw = RawConfig {
        ui: RawUi {
            auto_close_timeout_secs: secs,
            width: None,
            height: None,
            text_align: None,
            freq_weight: None,
            keyboard_mode: None,
            theme: None,
        },
        bindings,
        mode: None,
        terminal: None,
        window: None,
        theme_name: None,
    };
    LauncherConfig::with_defaults_from_toml(
        raw,
        TerminalConfig { command: "foot".to_string(), exec_flag: "-e".to_string() },
    )
}

fn listing() -> AppCore {
    let bindings = vec![
        RawBinding { key: "Return".to_string(), prefix: None },
        RawBinding { key: "Ctrl+Return".to_string(), prefix: Some("pre".to_string()) },
    ];
    let mut c = AppCore::new(&WindowTheme::default(), config(Some(bindings), None), None, 1000);
    c.finish_search(
        "a",
        (0..10).map(|i| AppEntry::run(format!("id{i}"), format!("App{i}"), format!("app{i}"))).collect(),
    );
    c
}

fn press(c: &mut AppCore, k: UiKey) -> Reaction {
    c.handle_key(k, UiMods::default(), 2000)
}

#[test]
fn typing_searches() {
    let mut c = listing();
    let r = press(&mut c, UiKey::Char("fi".to_string()));
    assert_eq!(c.input_buffer, "fi");
    assert_eq!(r.outcome, Outcome::Stay);
    assert!(matches!(r.effect, Effect::Search(q) if q == "fi"));
    let r = press(&mut c, UiKey::Backspace);
    assert!(matches!(r.effect, Effect::Search(q) if q == "f"));
    assert_eq!(c.input_buffer, "f");
    press(&mut c, UiKey::Backspace);
    assert_eq!(c.input_buffer, "");
}

#[test]
fn modified_characters_are_not_typed() {
    let mut c = listing();
    let mods = UiMods { ctrl: true, ..UiMods::default() };
    let r = c.handle_key(UiKey::Char("x".to_string()), mods, 2000);
    assert!(matches!(r.effect, Effect::Nothing));
    assert_eq!(c.input_buffer, "");
}

#[test]
fn moving_the_selection() {
    let mut c = listing();
    press(&mut c, UiKey::ArrowDown);
    assert_eq!(c.state.inner.selected_index, 1);
    press(&mut c, UiKey::ArrowUp);
    assert_eq!(c.state.inner.selected_index, 0);
    press(&mut c, UiKey::End);
    assert_eq!(c.state.inner.selected_index, 9);
    press(&mut c, UiKey::ArrowDown);
    assert_eq!(c.state.inner.selected_index, 9);
    press(&mut c, UiKey::Home);
    assert_eq!(c.state.inner.selected_index, 0);
    press(&mut c, UiKey::PageDown);
    assert!(c.state.inner.selected_index > 1);
    press(&mut c, UiKey::PageUp);
    assert_eq!(c.state.inner.selected_index, 0);
}

#[test]
fn enter_launches_with_the_bound_prefix() {
    let mut c = listing();
    let r = press(&mut c, UiKey::Enter);
    assert_eq!(r.outcome, Outcome::Exit);
    assert!(c.state.inner.launching);
    assert!(matches!(r.effect, Effect::Launch(e, None) if e.command == "app0"));
    let mut c = listing();
    let r = c.handle_key(UiKey::Enter, UiMods { ctrl: true, ..UiMods::default() }, 2000);
    assert!(matches!(r.effect, Effect::Launch(_, Some(p)) if p == "pre"));
    let mut c = listing();
    c.finish_search("zz", Vec::new());
    let r = press(&mut c, UiKey::Enter);
    assert_eq!(r.outcome, Outcome::Stay);
    assert!(matches!(r.effect, Effect::Nothing));
}

#[test]
fn subscribers_hear_of_every_change() {
    let mut c = listing();
    let id = c.state.subscribe();
    let told = |c: &mut AppCore| -> Vec<(usize, usize)> {
        c.state.take_calls().iter().map(|x| (x.subscriber, x.state.selected_index)).collect()
    };
    press(&mut c, UiKey::ArrowDown);
    assert_eq!(told(&mut c), vec![(id, 1)]);
    press(&mut c, UiKey::Char("x".to_string()));
    assert_eq!(told(&mut c), vec![]);
    c.finish_search("x", vec![AppEntry::run("a".to_string(), "a".to_string(), "a".to_string())]);
    assert_eq!(told(&mut c), vec![(id, 0)]);
    c.handle_hover(&NodeAction::Select(Some(0)), None, 2000);
    assert_eq!(told(&mut c), vec![]);
    c.handle_click(&NodeAction::Activate(Some(0)), None, UiMods::default(), 2000);
    assert_eq!(told(&mut c), vec![(id, 0)]);
    c.finish_search("y", Vec::new());
    told(&mut c);
    press(&mut c, UiKey::Home);
    assert_eq!(told(&mut c), vec![]);
}

#[test]
fn escape_leaves() {
    let mut c = listing();
    assert_eq!(press(&mut c, UiKey::Escape).outcome, Outcome::Exit);
}

#[test]
fn clicks() {
    let mut c = listing();
    let mods = UiMods::default();
    let r = c.handle_click(&NodeAction::Activate(Some(3)), None, mods, 2000);
    assert!(matches!(r.effect, Effect::Launch(e, _) if e.command == "app3"));
    let mut c = listing();
    let r = c.handle_click(&NodeAction::Activate(None), Some(4), mods, 2000);
    assert!(matches!(r.effect, Effect::Launch(e, _) if e.command == "app4"));
    let mut c = listing();
    c.handle_click(&NodeAction::Select(Some(2)), None, mods, 2000);
    assert_eq!(c.state.inner.selected_index, 2);
    c.handle_click(&NodeAction::Move(3), None, mods, 2000);
    assert_eq!(c.state.inner.selected_index, 5);
    let r = c.handle_click(&NodeAction::SetQuery("abc".to_string()), None, mods, 2000);
    assert!(matches!(r.effect, Effect::Search(q) if q == "abc"));
    assert_eq!(c.handle_click(&NodeAction::Close, None, mods, 2000).outcome, Outcome::Exit);
    c.handle_hover(&NodeAction::Activate(None), Some(7), 2000);
    assert_eq!(c.state.inner.selected_index, 7);
    c.handle_hover(&NodeAction::Close, Some(1), 2000);
    assert_eq!(c.state.inner.selected_index, 7);
    assert_eq!(topmost_actionable(&Vec::new(), &Vec::new(), &Vec::new()), None);
}

#[test]
fn the_deadline_moves_with_input() {
    let mut c = AppCore::new(&WindowTheme::default(), config(None, Some(8)), Some((300, 200)), 1000);
    assert_eq!(c.size, (300, 200));
    assert!(c.auto_close_pending());
    assert!(!c.auto_close_expired(8999));
    assert!(c.auto_close_expired(9000));
    press(&mut c, UiKey::Home);
    assert!(!c.auto_close_expired(9000));
    assert!(c.auto_close_expired(10000));
    let c = AppCore::new(&WindowTheme::default(), config(None, Some(0)), None, 1000);
    assert!(!c.auto_close_pending());
    assert_eq!(c.size, (620, 360));
}

#[test]
fn frames_are_needed_while_something_moves() {
    let mut c = listing();
    assert!(!c.needs_frame(false, true));
    assert!(c.needs_frame(true, false));
    c.uses_impulse = true;
    assert!(c.needs_frame(false, true));
    c.set_size(5, 6);
    assert_eq!(c.size, (5, 6));
}

#[test]
fn launch_plans() {
    let tools = Tools { wl_copy: true, xclip: false };
    let run = AppEntry::run("a".to_string(), "A".to_string(), "a --x".to_string());
    let p = plan_launch(&run, &Some("pre".to_string()), tools, None);
    assert_eq!((p.command.as_deref(), p.record), (Some("pre a --x"), true));
    let p = plan_launch(&run, &None, tools, None);
    assert_eq!(p.command.as_deref(), Some("a --x"));
    let calc = AppEntry::calc_result("1".to_string(), "2".to_string());
    let p = plan_launch(&calc, &Some("pre".to_string()), tools, None);
    assert_eq!((p.command.as_deref(), p.record), (Some("printf '%s' '2' | wl-copy"), false));
    let win = AppEntry::window("7".to_string(), "W".to_string(), "7".to_string());
    let mut wm = WindowMode::new();
    wm.init(&None, &None, WmEnv { sway: true, hyprland: false });
    let p = plan_launch(&win, &None, tools, Some(&wm));
    assert_eq!((p.command.as_deref(), p.record), (Some("swaymsg \"[con_id=7] focus\""), false));
    assert_eq!(plan_launch(&win, &None, tools, None).command, None);
}

fn three() -> LauncherState {
    let mut s = LauncherState::new();
    s.set_results((0..3).map(|i| AppEntry::run(format!("{i}"), format!("{i}"), format!("{i}"))).collect());
    s
}

#[test]
fn the_state_keeps_its_selection_in_bounds() {
    let mut s = three();
    s.select_next(5);
    assert_eq!(s.selected_index, 2);
    s.select_next(i32::MIN);
    assert_eq!(s.selected_index, 0);
    s.select(9);
    assert_eq!(s.selected_index, 0);
    s.select(2);
    assert_eq!(s.selected_result().unwrap().id, "2");
    s.set_results(vec![AppEntry::run("x".to_string(), "x".to_string(), "x".to_string())]);
    assert_eq!((s.selected_index, s.results_count()), (0, 1));
    s.set_results(Vec::new());
    assert!(s.selected_result().is_none());
    s.select_next(1);
    assert_eq!(s.selected_index, 0);
    assert_eq!(LauncherState::default().query, "");
}

#[test]
fn observers_are_told_of_every_change() {
    let mut o = ObservableState::new(three());
    let first = o.subscribe();
    o.update(|mut s| {
        s.select_next(1);
        s
    });
    let second = o.subscribe();
    o.update(|mut s| {
        s.select_next(1);
        s
    });
    assert_eq!(o.get().selected_index, 2);
    assert_eq!(o.with(|s| s.results.len()), 3);
    let told: Vec<(usize, usize)> =
        o.take_calls().iter().map(|c| (c.subscriber, c.state.selected_index)).collect();
    assert_eq!(told, vec![(first, 1), (first, 2), (second, 2)]);
    assert!(o.take_calls().is_empty());
}
