use hiren::bridge::{combine, launchable, show_results};
use hiren::calc::{clipboard_command, format_result, shell_escape, CalcMode};
use hiren::entry::{AppEntry, AppMode};
use hiren::freq::FreqHistory;
use hiren::json::{parse_json, parse_json_list, Json};
use hiren::launcher::{LauncherState, ObservableState};
use hiren::modes::{
    command_words, create_mode, detect_window_commands, extract_sway_nodes, get_hyprland_windows,
    get_sway_windows, get_wmctrl_windows, DrunMode, Mode, RunMode, SearchMode, SearchResult, Tools, WindowMode,
    WmEnv, WmType,
};

const TOOLS: Tools = Tools { wl_copy: true, xclip: true };

fn entries(r: SearchResult) -> Vec<AppEntry> {
    match r {
        SearchResult::Entries(v) => v,
        SearchResult::Error(e) => panic!("Expected entries, got error: {e}"),
    }
}

#[test]
fn test_basic_arithmetic() {
    let eval = |e: &str| f64::from_bits(CalcMode::evaluate(e).unwrap());
    assert!((eval("1+1") - 2.0).abs() < 0.001);
    assert!((eval("2*3") - 6.0).abs() < 0.001);
    assert!((eval("10/2") - 5.0).abs() < 0.001);
    assert!((eval("5-3") - 2.0).abs() < 0.001);
}

#[test]
fn test_search_returns_result() {
    let mode = CalcMode::new();
    let result = mode.search("1+1", Ok(Vec::new()));
    match result {
        SearchResult::Entries(entries) => {
            assert_eq!(entries.len(), 1);
            assert!(entries[0].name.contains("1+1"));
            assert!(entries[0].name.contains("2"));
        }
        SearchResult::Error(e) => panic!("Expected entries, got error: {e}"),
    }
}

#[test]
fn calculator_rows() {
    let mode = CalcMode::new();
    let row = &entries(mode.search(" 1/4 ", Ok(Vec::new())))[0];
    assert_eq!(row.name, "1/4 = 0.25");
    assert_eq!(row.command, "0.25");
    assert_eq!(row.mode, AppMode::Calc);
    let row = &entries(mode.search("1+", Ok(Vec::new())))[0];
    assert!(row.name.starts_with("Error: Invalid expression: "), "{}", row.name);
    assert_eq!(row.command, "");
    let row = &entries(mode.search("  ", Ok(Vec::new())))[0];
    assert_eq!(row.name, " = Enter a math expression…");
    assert!(CalcMode::evaluate("").is_err());
    let shown = CalcMode::show("q", Ok(2.5f64.to_bits()));
    assert_eq!(shown[0].name, "q = 2.5");
    let shown = CalcMode::show("q", Err("no".to_string()));
    assert_eq!(shown[0].name, "Error: no");
}

fn expected(value: f64) -> String {
    if value.is_nan() {
        return "NaN".into();
    }
    if value.is_infinite() {
        return if value > 0.0 { "∞" } else { "-∞" }.into();
    }
    let rounded = value.round();
    if (value - rounded).abs() < 1e-10 {
        return format!("{}", rounded as i64);
    }
    let s = format!("{:.10}", value);
    let s = s.trim_end_matches('0');
    let s = s.trim_end_matches('.');
    s.to_string()
}

#[test]
fn numbers_print_as_floating_point_does() {
    let mut seed = 1u64;
    let check = |v: f64| {
        assert_eq!(format_result(v.to_bits()), expected(v), "{v:e}");
        assert_eq!(format_result((-v).to_bits()), expected(-v), "-{v:e}");
    };
    for v in [
        0.0, 1.0, 0.5, 0.1, 0.25, 2.5, 1e-10, 9.9e-11, 1.0000000001, 0.99999999995, 1e15, 1e16, 9.3e18,
        9223372036854775807.0, 1e300, 5e-324, 1e-300, f64::MAX, f64::MIN_POSITIVE, 1.0 / 3.0, 2.0 / 3.0,
        0.00048828125, 0.00146484375, 0.000244140625, 1.00048828125, 4503599627370495.5, 4503599627370497.0,
        1e-11, 5e-11, 1.5e-10, 123456.7890123456, 1e21, f64::INFINITY, f64::NAN,
    ] {
        check(v);
    }
    // exact ties at the tenth decimal, odd multiples of 2^-11
    for k in 0..2000u64 {
        check((2 * k + 1) as f64 / 2048.0);
    }
    for _ in 0..20000 {
        seed = seed.wrapping_mul(6364136223846793005).wrapping_add(1442695040888963407);
        check(f64::from_bits(seed));
        let small = (seed >> 11) as f64 / (1u64 << 53) as f64;
        check(small);
        check(small * 1000.0);
        check((small * 1e6).round() / 1e4);
    }
}

#[test]
fn clipboard_lines() {
    assert_eq!(shell_escape("it's"), "it'\\''s");
    assert_eq!(
        clipboard_command("42", true, true),
        Some("printf '%s' '42' | wl-copy".to_string())
    );
    assert_eq!(
        clipboard_command("4'2", false, true),
        Some("printf '%s' '4'\\''2' | xclip -selection clipboard".to_string())
    );
    assert_eq!(clipboard_command("42", false, false), None);
    assert_eq!(clipboard_command("", true, true), None);
    let e = AppEntry::calc_result("1".to_string(), "1".to_string());
    assert_eq!(CalcMode::new().execute(&e, TOOLS), Some("printf '%s' '1' | wl-copy".to_string()));
}

#[test]
fn applications_keep_their_order() {
    let mode = DrunMode::new();
    let mut e = AppEntry::run("a".to_string(), "A".to_string(), "a".to_string());
    e.score = 3;
    let v = entries(mode.search("x", Ok(vec![e])));
    assert_eq!(v[0].mode, AppMode::Drun);
    assert_eq!(v[0].score, 3);
    match mode.search("x", Err("gone".to_string())) {
        SearchResult::Error(e) => assert_eq!(e, "IPC error: gone"),
        SearchResult::Entries(_) => panic!("expected an error"),
    }
    assert_eq!(mode.execute(&v[0], TOOLS), Some("a".to_string()));
}

#[test]
fn programs_are_sorted_and_limited() {
    let mut mode = RunMode::new();
    let names: Vec<String> = (0..60).map(|i| format!("prog{:02}", 59 - i % 60)).chain(vec!["ls".to_string()]).collect();
    mode.init(&names);
    assert_eq!(mode.executables.len(), 61);
    assert_eq!(mode.executables[0], "ls");
    assert_eq!(mode.executables[1], "prog00");
    mode.init(&vec!["other".to_string()]);
    assert_eq!(mode.executables.len(), 61);
    let v = entries(mode.search(" ", Ok(Vec::new())));
    assert_eq!(v.len(), 50);
    assert_eq!(v[0].name, "ls");
    let v = entries(mode.search("prog", Ok(Vec::new())));
    assert_eq!(v.len(), 50);
    let v = entries(mode.search("prog07", Ok(Vec::new())));
    assert_eq!(v[0].name, "prog07");
    assert_eq!(v[0].mode, AppMode::Run);
    assert!(v[0].score > 0);
}

const TREE: &str = r#"{
    "id": 1, "name": "root", "type": "root",
    "nodes": [{
        "id": 2, "name": "1", "type": "workspace",
        "nodes": [
            {"id": 3, "name": "Title", "type": "con", "app_id": "foot", "nodes": []},
            {"id": 4, "name": "", "type": "con"},
            {"id": 5, "name": null, "type": "con"},
            {"id": 6.5, "name": "Half", "type": "con"},
            {"id": "7", "name": "Text", "type": "con"},
            {"id": 8, "name": "Plain", "type": "con", "app_id": null}
        ],
        "floating_nodes": [{"id": -5, "name": "Float", "type": "floating_con", "nodes": "none"}]
    }]
}"#;

#[test]
fn sway_tree() {
    let w = get_sway_windows(TREE).unwrap();
    let got: Vec<(&str, &str)> = w.iter().map(|e| (e.id.as_str(), e.name.as_str())).collect();
    assert_eq!(got, vec![("3", "foot — Title"), ("8", "Plain"), ("-5", "Float")]);
    assert_eq!(w[0].command, "3");
    assert!(extract_sway_nodes(&Json::Other).is_empty());
    let e = get_sway_windows("{").unwrap_err();
    assert_eq!(e, "swaymsg JSON parse: EOF while parsing an object at line 1 column 1");
}

#[test]
fn hyprland_clients() {
    let w = get_hyprland_windows(
        r#"[
        {"address": "0x1", "title": "T", "class": "C"},
        {"address": "0x2", "title": "", "class": "C"},
        {"address": "0x3", "title": "T"},
        {"address": "0x4"},
        {"title": "T", "class": "C"},
        17
    ]"#,
    )
    .unwrap();
    let got: Vec<(&str, &str)> = w.iter().map(|e| (e.id.as_str(), e.name.as_str())).collect();
    assert_eq!(got, vec![("0x1", "C — T"), ("0x2", "C"), ("0x3", "T")]);
    let e = get_hyprland_windows("{}").unwrap_err();
    assert!(e.starts_with("hyprctl JSON parse: invalid type: map, expected a sequence"), "{e}");
}

#[test]
fn listings_by_window_manager() {
    let mut m = WindowMode::new();
    assert_eq!(m.get_windows("0x1 0 h T").unwrap()[0].name, "T");
    m.wm_type = WmType::Sway;
    assert_eq!(m.get_windows(TREE).unwrap().len(), 3);
    assert!(m.get_windows("0x1 0 h T").is_err());
    m.wm_type = WmType::Hyprland;
    assert_eq!(m.get_windows(r#"[{"address": "a", "class": "c"}]"#).unwrap()[0].command, "a");
}

#[test]
fn json_values() {
    match parse_json(r#"{"b": [1, -2, 9223372036854775808, 1.0, true, null], "a": "\u00e9"}"#).unwrap() {
        Json::Fields(l) => {
            assert_eq!(l[0].0, "a");
            assert!(matches!(&l[0].1, Json::Text(t) if t == "é"));
            match &l[1].1 {
                Json::List(v) => {
                    assert!(matches!(v[0], Json::Int(1)) && matches!(v[1], Json::Int(-2)));
                    assert!(v[2..].iter().all(|x| matches!(x, Json::Other)));
                }
                other => panic!("unexpected {other:?}"),
            }
        }
        other => panic!("unexpected {other:?}"),
    }
    assert_eq!(parse_json_list("[[], {}]").unwrap().len(), 2);
}

#[test]
fn wmctrl_lines() {
    let w = get_wmctrl_windows("0x01 0 host My Window\n\n0x02 0 host N/A\n0x03\t0\thost\tTwo\tWords\n0x04 0 host\nshort\n");
    let got: Vec<(&str, &str)> = w.iter().map(|e| (e.id.as_str(), e.name.as_str())).collect();
    assert_eq!(got, vec![("0x01", "My Window"), ("0x03", "Two Words")]);
}

#[test]
fn wmctrl_columns_may_be_wide() {
    let w = get_wmctrl_windows("0x01600003  0  hostname  Window Title\n0x2   -1 host   Two  gaps\n");
    let got: Vec<(&str, &str, &str)> =
        w.iter().map(|e| (e.id.as_str(), e.name.as_str(), e.command.as_str())).collect();
    assert_eq!(
        got,
        vec![("0x01600003", "Window Title", "0x01600003"), ("0x2", "Two  gaps", "0x2")]
    );
}

#[test]
fn windows_are_ranked_with_scores() {
    let mut m = WindowMode::new();
    m.init(&None, &None, WmEnv { sway: true, hyprland: true });
    assert_eq!(m.wm_type, WmType::Sway);
    let list = || vec![
        AppEntry::window("1".to_string(), "Editor".to_string(), "1".to_string()),
        AppEntry::window("2".to_string(), "Firefox".to_string(), "2".to_string()),
    ];
    let v = entries(m.search("", Ok(list())));
    assert_eq!(v.len(), 2);
    assert_eq!(v[0].score, 0);
    let v = entries(m.search("fire", Ok(list())));
    assert_eq!(v.len(), 1);
    assert!(v[0].score > 0);
    assert_eq!(m.execute(&v[0], TOOLS), Some("swaymsg \"[con_id=2] focus\"".to_string()));
    assert!(matches!(m.search("x", Err("no wm".to_string())), SearchResult::Error(e) if e == "no wm"));
}

#[test]
fn window_commands() {
    let c = detect_window_commands(&Some("l".to_string()), &Some("a".to_string()), WmEnv { sway: true, hyprland: false });
    assert_eq!((c.list.as_str(), c.activate.as_str()), ("l", "a"));
    let c = detect_window_commands(&Some("l".to_string()), &None, WmEnv { sway: false, hyprland: true });
    assert_eq!(c.activate, "hyprctl dispatch focuswindow address:{id}");
    let c = detect_window_commands(&None, &None, WmEnv { sway: false, hyprland: false });
    assert_eq!(c.list, "wmctrl -l");
    assert_eq!(command_words(" swaymsg  -t get_tree ").unwrap(), vec!["swaymsg", "-t", "get_tree"]);
    assert_eq!(command_words("  ").unwrap_err(), "Empty command string");
    assert!(matches!(create_mode(AppMode::Window), Mode::Window(_)));
    assert!(matches!(create_mode(AppMode::Calc), Mode::Calc(_)));
    assert!(matches!(create_mode(AppMode::Drun), Mode::Drun(_)));
    assert!(matches!(create_mode(AppMode::Run), Mode::Run(_)));
}

fn run(name: &str) -> AppEntry {
    AppEntry::run(name.to_string(), name.to_string(), name.to_string())
}

#[test]
fn results_are_joined_in_order() {
    let mut h = FreqHistory::new();
    h.set_count("zed".to_string(), 3);
    let other = launchable(
        Some(SearchResult::Entries(vec![run("Beta"), run("alpha")])),
        Some(SearchResult::Entries(vec![run("zed")])),
    );
    let calc = || Some(SearchResult::Entries(vec![
        AppEntry::calc_error("x".to_string()),
        AppEntry::calc_result("1".to_string(), "1".to_string()),
    ]));
    let win = || Some(SearchResult::Entries(vec![AppEntry::window("w".to_string(), "Win".to_string(), "w".to_string())]));
    let names = |v: Vec<AppEntry>| v.into_iter().map(|e| e.name).collect::<Vec<_>>();
    assert_eq!(
        names(combine(" ", calc(), win(), &other, &h, &vec![0, 0, 0])),
        vec!["1 = 1", "Win", "zed", "alpha", "Beta"]
    );
    assert_eq!(
        names(combine("q", calc(), win(), &other, &h, &vec![0, 5, 1])),
        vec!["1 = 1", "Win", "alpha", "zed", "Beta"]
    );
    assert_eq!(
        names(combine("q", Some(SearchResult::Error("x".to_string())), None, &Vec::new(), &h, &Vec::new())),
        Vec::<String>::new()
    );
    let mut s = LauncherState::new();
    s.selected_index = 9;
    s.loading = true;
    let mut o = ObservableState::new(s);
    o.subscribe();
    show_results(&mut o, "  q ", vec![run("a"), run("b")]);
    assert_eq!((o.inner.query.as_str(), o.inner.selected_index, o.inner.loading), ("q", 1, false));
    assert_eq!(o.calls.len(), 1);
}
