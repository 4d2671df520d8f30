use hiren::cli::{arg_value, demo_state, has_flag, screenshot_theme, size_override};
use hiren::config::{
    choose_theme_place, default_bindings, detect_terminal, list_theme_places, parse_key_combo,
    parse_keyboard_mode, parse_text_align, terminal_candidates, theme_files, KeyboardModeConfig,
    LauncherConfig, ModeConfig, Modifiers, RawBinding, RawConfig, RawModes, RawTerminal, RawUi,
    TerminalConfig, TextAlign,
};
use hiren::entry::AppMode;
use hiren::modes::sorted_names;

#[test]
fn parse_plain_return() {
    let (m, k) = parse_key_combo("Return").unwrap();
    assert_eq!(m, Modifiers::default());
    assert_eq!(k, "return");
}

#[test]
fn parse_ctrl_return() {
    let (m, k) = parse_key_combo("Ctrl+Return").unwrap();
    assert_eq!(m.0, Modifiers::CTRL);
    assert_eq!(k, "return");
}

#[test]
fn parse_shift_a() {
    let (m, k) = parse_key_combo("Shift+A").unwrap();
    assert_eq!(m.0, Modifiers::SHIFT);
    assert_eq!(k, "a");
}

#[test]
fn parse_unknown_modifier_none() {
    assert!(parse_key_combo("Hyper+Return").is_none());
}

#[test]
fn parse_empty_none() {
    assert!(parse_key_combo("").is_none() || parse_key_combo("").unwrap().1.is_empty());
}

#[test]
fn modifiers_and_their_names() {
    let (m, k) = parse_key_combo(" control + ALT+ Mod4 + É ").unwrap();
    assert_eq!(m.0, Modifiers::CTRL | Modifiers::ALT | Modifiers::SUPER);
    assert_eq!(k, "é");
    assert!(m.contains(Modifiers::ALT));
    assert!(!m.contains(Modifiers::SHIFT));
    assert!(!m.empty());
    assert!(Modifiers::default().empty());
    assert_eq!(parse_key_combo("Meta+x").unwrap().0 .0, Modifiers::ALT);
    assert_eq!(parse_key_combo("win+x").unwrap().0 .0, Modifiers::SUPER);
    assert!(parse_key_combo("Ctrl++").is_none());
    assert!(parse_key_combo("Ctrl+").is_none());
}

fn empty_raw() -> RawConfig {
    RawConfig {
        ui: RawUi {
            auto_close_timeout_secs: None,
            width: None,
            height: None,
            text_align: None,
            freq_weight: None,
            keyboard_mode: None,
            theme: None,
        },
        bindings: None,
        mode: None,
        terminal: None,
        window: None,
        theme_name: None,
    }
}

fn foot() -> TerminalConfig {
    TerminalConfig { command: "foot".to_string(), exec_flag: "-e".to_string() }
}

#[test]
fn defaults_fill_an_empty_file() {
    let c = LauncherConfig::with_defaults_from_toml(empty_raw(), foot());
    assert_eq!(c.auto_close_timeout_secs, 8);
    assert_eq!((c.window_width, c.window_height), (620, 360));
    assert_eq!(c.fallback_size(), (620, 360));
    assert_eq!(c.modes, ModeConfig::default());
    assert_eq!(c.active_modes(), vec![AppMode::Drun]);
    assert_eq!(c.terminal.command, "foot");
    assert_eq!(c.text_align, TextAlign::Left);
    assert_eq!(c.freq_weight, "0.8");
    assert_eq!(c.keyboard_mode, KeyboardModeConfig::Exclusive);
    assert_eq!(c.theme, "default");
    assert_eq!(c.bindings.len(), 2);
    assert_eq!(c.bindings[1].modifiers.0, Modifiers::CTRL);
    assert_eq!(default_bindings()[0].key_name, "return");
}

#[test]
fn settings_override_defaults() {
    let mut raw = empty_raw();
    raw.ui.width = Some(-5);
    raw.ui.height = Some(700);
    raw.ui.text_align = Some("Middle".to_string());
    raw.ui.keyboard_mode = Some("ON_DEMAND".to_string());
    raw.ui.theme = Some("macos".to_string());
    raw.bindings = Some(vec![
        RawBinding { key: "Hyper+x".to_string(), prefix: None },
        RawBinding { key: "Ctrl+Return".to_string(), prefix: Some("proxychains".to_string()) },
        RawBinding { key: "Return".to_string(), prefix: Some(String::new()) },
    ]);
    raw.mode = Some(RawModes { drun: None, run: Some(true), window: None, calc: Some(true) });
    raw.terminal = Some(RawTerminal { command: Some("kitty".to_string()), exec_flag: None });
    let c = LauncherConfig::with_defaults_from_toml(raw, foot());
    assert_eq!(c.fallback_size(), (1, 700));
    assert_eq!(c.text_align, TextAlign::Center);
    assert_eq!(c.keyboard_mode, KeyboardModeConfig::OnDemand);
    assert_eq!(c.theme, "macos");
    assert_eq!(c.bindings.len(), 2);
    assert_eq!(c.bindings[0].prefix, Some("proxychains".to_string()));
    assert_eq!(c.bindings[1].prefix, None);
    assert_eq!(c.active_modes(), vec![AppMode::Drun, AppMode::Run, AppMode::Calc]);
    assert_eq!((c.terminal.command.as_str(), c.terminal.exec_flag.as_str()), ("kitty", "-e"));
    let mut raw = empty_raw();
    raw.ui.theme = Some("macos".to_string());
    raw.theme_name = Some("atlus".to_string());
    assert_eq!(LauncherConfig::with_defaults_from_toml(raw, foot()).theme, "atlus");
}

#[test]
fn small_settings() {
    assert_eq!(parse_text_align(" RIGHT "), TextAlign::Right);
    assert_eq!(parse_text_align("left"), TextAlign::Left);
    assert_eq!(parse_keyboard_mode(&Some("ondemand".to_string())), KeyboardModeConfig::OnDemand);
    assert_eq!(parse_keyboard_mode(&Some("else".to_string())), KeyboardModeConfig::Exclusive);
    assert_eq!(parse_keyboard_mode(&None), KeyboardModeConfig::Exclusive);
}

#[test]
fn terminals_by_preference() {
    let n = terminal_candidates().len();
    let none = vec![false; n];
    assert_eq!(detect_terminal(&None, &none).command, "foot");
    assert_eq!(detect_terminal(&Some("st".to_string()), &none).command, "st");
    assert_eq!(detect_terminal(&Some(String::new()), &none).command, "foot");
    let mut some = none.clone();
    some[3] = true;
    some[6] = true;
    let t = detect_terminal(&None, &some);
    assert_eq!((t.command.as_str(), t.exec_flag.as_str()), ("wezterm", "start"));
}

#[test]
fn theme_places_in_order() {
    let p = list_theme_places("default", Some("/c"), Some("/bin"), "/src");
    let probes: Vec<&str> = p.iter().map(|x| x.probe.as_str()).collect();
    assert_eq!(
        probes,
        vec![
            "/c/hiren/themes/default",
            "/c/hiren/theme.toml",
            "/bin/themes/default",
            "/bin/../share/hiren/themes/default",
            "/src/themes/default"
        ]
    );
    assert_eq!(choose_theme_place(&p, &vec![false, true, true, false, false], "/f"), "/c/hiren");
    assert_eq!(choose_theme_place(&p, &vec![false; 5], "/f"), "/f");
    assert_eq!(list_theme_places("my", Some("/c"), None, "/src").len(), 2);
    assert_eq!(theme_files("/t"), vec!["/t/theme.toml", "/t/main.toml", "/t/theme/main.toml"]);
    let names = vec!["b".to_string(), "a".to_string(), "b".to_string()];
    assert_eq!(sorted_names(&names), vec!["a", "b"]);
}

#[test]
fn options_and_values() {
    let args: Vec<String> = ["--theme", "atlus", "--width=300", "--height", "200", "--reload", "--out"]
        .iter()
        .map(|s| s.to_string())
        .collect();
    assert_eq!(arg_value(&args, "--theme"), Some("atlus".to_string()));
    assert_eq!(arg_value(&args, "--width"), Some("300".to_string()));
    assert_eq!(arg_value(&args, "--out"), None);
    assert_eq!(arg_value(&args, "--query"), None);
    assert!(has_flag(&args, "--reload"));
    assert!(!has_flag(&args, "--help"));
    assert_eq!(size_override(&args), Some((300, 200)));
    let args: Vec<String> = vec!["--width".to_string(), "x".to_string(), "--height=1".to_string()];
    assert_eq!(size_override(&args), None);
    let shot = |l: &[&str]| screenshot_theme(&l.iter().map(|s| s.to_string()).collect(), "mine");
    assert_eq!(shot(&["--screenshot", "atlus", "--out", "x"]), "atlus");
    assert_eq!(shot(&["--screenshot=atlus"]), "atlus");
    assert_eq!(shot(&["--screenshot", "--out", "x"]), "mine");
    assert_eq!(shot(&["--screenshot"]), "mine");
}

#[test]
fn demonstration_scene() {
    let s = demo_state();
    assert_eq!(s.query, "f");
    assert_eq!(s.results[3].description, Some("Code Editing. Redefined.".to_string()));
    assert_eq!(s.results[3].search_text, "Visual Studio Code editor ide development");
    assert_eq!(s.results[4].mode, AppMode::Run);
}
