use hiren::entry::AppEntry;
use hiren::freq::FreqHistory;

fn entry(exec: &str, score: i64) -> AppEntry {
    let mut e = AppEntry::run(exec.to_string(), exec.to_string(), exec.to_string());
    e.score = score;
    e
}

fn freq_from(map: &[(&str, u64)]) -> FreqHistory {
    let mut f = FreqHistory::new();
    for (k, v) in map {
        f.set_count(k.to_string(), *v);
    }
    f
}

fn boost(count: u64, weight: f64) -> i64 {
    if count == 0 {
        return 0;
    }
    let b = (50.0 * (1.0 + count as f64).ln()) as i64;
    (b as f64 * weight) as i64
}

fn sort(freq: &FreqHistory, entries: Vec<AppEntry>, weight: f64) -> Vec<AppEntry> {
    let boosts: Vec<i64> = freq.counts_for(&entries).into_iter().map(|c| boost(c, weight)).collect();
    freq.sort_by_frecency(&entries, &boosts)
}

#[test]
fn test_key_for_basename() {
    assert_eq!(FreqHistory::key_for("/usr/bin/steam"), "steam");
    assert_eq!(FreqHistory::key_for("vesktop"), "vesktop");
}

#[test]
fn test_key_for_env_keeps_full() {
    let e = "env ALL_PROXY=socks5h://127.0.0.1:2080 vesktop --ozone-platform-hint=auto";
    assert_eq!(FreqHistory::key_for(e), e);
}

#[test]
fn test_lookup_finds_both_full_and_basename() {
    let freq = freq_from(&[("/usr/bin/steam", 11)]);
    assert_eq!(freq.lookup("/usr/bin/steam"), 11);
    assert_eq!(freq.lookup("steam"), 11);
}

#[test]
fn test_frecency_boosts_frequent() {
    let freq = freq_from(&[("rare-app", 1), ("frequent-app", 2)]);
    let entries = vec![entry("rare-app", 100), entry("frequent-app", 100)];
    let sorted = sort(&freq, entries, 0.8);
    assert_eq!(sorted[0].command, "frequent-app");
    assert_eq!(sorted[1].command, "rare-app");
}

#[test]
fn test_frecency_frequency_wins_when_relevance_close() {
    let freq = freq_from(&[("vesktop", 10)]);
    let entries = vec![
        entry("env ALL_PROXY=socks5h://127.0.0.1:2080 vesktop --ozone-platform-hint=auto", 91),
        entry("/usr/bin/vesktop", 89),
    ];
    let sorted = sort(&freq, entries, 0.8);
    assert_eq!(sorted[0].command, "/usr/bin/vesktop");
    assert_eq!(
        sorted[1].command,
        "env ALL_PROXY=socks5h://127.0.0.1:2080 vesktop --ozone-platform-hint=auto"
    );
}

#[test]
fn test_frecency_relevance_wins_when_far() {
    let freq = freq_from(&[("AyuGram", 10)]);
    let entries = vec![
        entry("env DESKTOPINTEGRATION=1 AyuGram --", 36),
        entry("/usr/bin/steam", 109),
    ];
    let sorted = sort(&freq, entries, 0.8);
    assert_eq!(sorted[0].command, "/usr/bin/steam");
    assert_eq!(sorted[1].command, "env DESKTOPINTEGRATION=1 AyuGram --");
}

#[test]
fn test_frecency_within_group_sorts_by_score() {
    let freq = freq_from(&[("app-a", 10), ("app-b", 1)]);
    let entries = vec![entry("app-b", 100), entry("app-a", 90)];
    let sorted = sort(&freq, entries, 0.8);
    assert_eq!(sorted[0].command, "app-a");
}

#[test]
fn test_frecency_zero_weight_uses_score_within_group() {
    let freq = freq_from(&[("frequent-app", 2), ("rare-app", 1)]);
    let entries = vec![entry("rare-app", 200), entry("frequent-app", 100)];
    let sorted = sort(&freq, entries, 0.0);
    assert_eq!(sorted[0].command, "rare-app");
    assert_eq!(sorted[1].command, "frequent-app");
}

#[test]
fn keys_of_odd_commands() {
    for (c, k) in [
        ("", ""),
        ("   ", "   "),
        ("/", "/"),
        ("/usr/bin/", "bin"),
        ("/usr/bin/.", "bin"),
        ("..", ".."),
        ("./run.sh --x", "run.sh"),
        ("  /opt/a b", "a"),
        ("env", "env"),
        ("environment x", "environment"),
    ] {
        assert_eq!(FreqHistory::key_for(c), k, "{c:?}");
        assert_eq!(FreqHistory::key_for(&FreqHistory::key_for(c)), k, "{c:?}");
    }
}

#[test]
fn old_and_new_records_count_together() {
    let mut f = freq_from(&[("/usr/bin/steam", 11)]);
    assert_eq!(f.lookup("steam"), 11);
    f.record_launch("steam");
    assert_eq!(f.lookup("steam"), 12);
    f.record_launch("/opt/steam -x");
    assert_eq!(f.lookup("/usr/bin/steam"), 13);
    assert_eq!(f.counts, vec![("/usr/bin/steam".to_string(), 11), ("steam".to_string(), 2)]);
}

#[test]
fn launches_are_counted_by_program() {
    let mut f = FreqHistory::new();
    f.record_launch("");
    assert!(f.counts.is_empty());
    f.record_launch("/usr/bin/foot -e x");
    f.record_launch("foot");
    f.record_launch("kitty");
    assert_eq!(f.lookup("/opt/foot"), 2);
    assert_eq!(f.lookup("kitty"), 1);
    assert_eq!(f.lookup("other"), 0);
    f.set_count("max".to_string(), u64::MAX);
    f.record_launch("max");
    assert_eq!(f.lookup("max"), u64::MAX);
}

#[test]
fn frequent_entries_come_first() {
    let f = freq_from(&[("b", 1), ("c", 5), ("d", 1)]);
    let (often, rest) = f.partition_by_freq(&vec![entry("a", 0), entry("b", 0), entry("c", 0), entry("d", 0), entry("e", 0)]);
    let names = |l: &Vec<AppEntry>| l.iter().map(|e| e.command.clone()).collect::<Vec<_>>();
    assert_eq!(names(&often), vec!["c", "b", "d"]);
    assert_eq!(names(&rest), vec!["a", "e"]);
}

#[test]
fn histories_are_kept_as_json() {
    let f = freq_from(&[("steam", 11), ("a \"b\" é\n", 1), ("big", u64::MAX)]);
    let text = f.save().unwrap();
    assert_eq!(text, "{\n  \"a \\\"b\\\" é\\n\": 1,\n  \"big\": 18446744073709551615,\n  \"steam\": 11\n}");
    let back = FreqHistory::load(Some(&text));
    assert_eq!(back.counts.len(), 3);
    for (k, n) in &f.counts {
        assert!(back.counts.contains(&(k.clone(), *n)));
    }
    assert_eq!(back.lookup("/usr/bin/steam"), 11);
    for bad in ["", "[]", "{\"a\": -1}", "{\"a\": 1.5}", "{\"a\": \"1\"}", "{"] {
        assert!(FreqHistory::load(Some(bad)).counts.is_empty(), "{bad}");
    }
    assert_eq!(FreqHistory::load(Some("{\"a\": 1, \"a\": 2}")).counts, vec![("a".to_string(), 2)]);
    assert!(FreqHistory::load(None).counts.is_empty());
}
