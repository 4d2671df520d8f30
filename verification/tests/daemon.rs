use hiren::desktop::{clean_exec, parse_desktop_file, try_exec_candidates, try_exec_of};
use hiren::entry::{AppEntry, AppMode};
use hiren::frame::{
    decode_frame, encode_frame, frame_allowed, read_frame_length, IPCMessage, MAX_FRAME_SIZE, SOCKET_PATH,
};
use hiren::search::{
    is_relevant_event, rank_matches, respond, response_apps, search, unique_by_id, Debouncer, FileChange,
};

#[test]
fn test_parse_desktop_with_categories() {
    let desktop_content = "\
[Desktop Entry]
Name=TestApp
Exec=/usr/bin/testapp %u
Type=Application
Categories=Audio;Music;Player;AudioVideo;
Keywords=music;streaming;
";
    let entry = parse_desktop_file(desktop_content, "testapp", true);
    assert!(entry.is_some(), "Test .desktop should parse");
    let entry = entry.unwrap();
    assert_eq!(entry.name, "TestApp");
    assert!(!entry.keywords.is_empty(), "keywords should include categories");
    assert!(entry.keywords.contains("Music"), "keywords should contain 'Music': {}", entry.keywords);
    assert!(entry.keywords.contains("Audio"), "keywords should contain 'Audio': {}", entry.keywords);
    assert!(entry.keywords.contains("streaming"), "keywords should contain 'streaming': {}", entry.keywords);
    assert_eq!(entry.id, "testapp");
    assert_eq!(entry.command, "/usr/bin/testapp");
    assert_eq!(entry.keywords, "Audio Music Player AudioVideo music streaming");
    assert_eq!(entry.search_text, "TestApp Audio Music Player AudioVideo music streaming");
}

#[test]
fn test_clean_exec_strips_field_codes() {
    assert_eq!(clean_exec("firefox %u"), "firefox");
    assert_eq!(clean_exec("app %F %U"), "app");
    assert_eq!(clean_exec("/usr/bin/app %f"), "/usr/bin/app");
}

#[test]
fn test_clean_exec_percent_escape() {
    assert_eq!(clean_exec("echo 100%%"), "echo 100%");
}

#[test]
fn test_clean_exec_preserves_args() {
    assert_eq!(
        clean_exec("env VAR=val /usr/bin/app --flag"),
        "env VAR=val /usr/bin/app --flag"
    );
}

#[test]
fn clean_exec_keeps_unknown_codes() {
    assert_eq!(clean_exec("a %x %"), "a %x %");
    assert_eq!(clean_exec("%%f"), "%f");
}

#[test]
fn desktop_sections_comments_and_marks() {
    let text = "\u{feff}# comment\nName=Outside\n[desktop entry]\r\n  Name=First\nName=Second\nExec=one\nExec=two %f\nComment=\nIcon=my-icon\nComment=later\n[Other]\nExec=three\n";
    let e = parse_desktop_file(text, "x", false).unwrap();
    assert_eq!(e.name, "First");
    assert_eq!(e.command, "two");
    assert_eq!(e.description, None);
    assert_eq!(e.icon, "my-icon");
    assert_eq!(e.keywords, "");
    assert_eq!(e.search_text, "First");
    assert_eq!(e.mode, AppMode::Drun);
}

#[test]
fn desktop_refusals() {
    let base = "[Desktop Entry]\nName=A\nExec=a\n";
    assert!(parse_desktop_file(base, "a", true).is_some());
    for extra in ["NoDisplay=TRUE", "Hidden=1", "Type=Link", "Hidden=True"] {
        assert!(parse_desktop_file(&format!("{base}{extra}\n"), "a", true).is_none(), "{extra}");
    }
    assert!(parse_desktop_file(&format!("{base}NoDisplay=no\n"), "a", true).is_some());
    assert!(parse_desktop_file("[Desktop Entry]\nName=A\n", "a", true).is_none());
    assert!(parse_desktop_file("[Desktop Entry]\nExec=a\n", "a", true).is_none());
    let tried = format!("{base}TryExec=prog\n");
    assert_eq!(try_exec_of(&tried), Some("prog".to_string()));
    assert_eq!(try_exec_of(base), None);
    assert!(parse_desktop_file(&tried, "a", true).is_some());
    assert!(parse_desktop_file(&tried, "a", false).is_none());
}

#[test]
fn equal_neighbours_are_listed_once() {
    let e = parse_desktop_file("[Desktop Entry]\nName=A\nExec=a\nCategories=X;X;Y;\nKeywords=Y; ;X;\n", "a", true).unwrap();
    assert_eq!(e.keywords, "X Y X");
}

#[test]
fn program_places() {
    assert_eq!(try_exec_candidates("/bin/x", Some("/a:/b")), vec!["/bin/x".to_string()]);
    assert_eq!(
        try_exec_candidates("x", Some("/a:/b/::")),
        vec!["/a/x".to_string(), "/b/x".to_string(), "x".to_string(), "x".to_string()]
    );
    assert!(try_exec_candidates("x", None).is_empty());
}

fn app(id: &str, name: &str) -> AppEntry {
    AppEntry::drun(id.to_string(), name.to_string(), name.to_lowercase(), None, String::new())
}

#[test]
fn later_entries_replace_earlier_ones() {
    let cache = unique_by_id(&vec![app("a", "System"), app("b", "Other"), app("a", "Own")]);
    let names: Vec<&str> = cache.iter().map(|e| e.name.as_str()).collect();
    assert_eq!(cache.len(), 2);
    assert!(names.contains(&"Own") && names.contains(&"Other"));
}

#[test]
fn search_ranks_by_relevance() {
    let cache = vec![app("1", "Firefox"), app("2", "Files"), app("3", "Terminal")];
    let all: Vec<String> = search(&cache, "  ").into_iter().map(|e| e.name).collect();
    assert_eq!(all, vec!["Firefox", "Files", "Terminal"]);
    let found: Vec<String> = search(&cache, " fire ").into_iter().map(|e| e.name).collect();
    assert_eq!(found, vec!["Firefox"]);
    assert!(search(&cache, "zzz").is_empty());
    // a prefix match beats a scattered one
    let cache = vec![app("1", "my other code"), app("2", "code")];
    let found = search(&cache, "code");
    assert_eq!(found[0].name, "code");
    assert!(found[0].score > found[1].score && found[1].score > 0);
    assert!(search(&cache, "").iter().all(|e| e.score == 0));
}

#[test]
fn ranking_is_stable() {
    let l = vec![app("1", "a"), app("2", "b"), app("3", "c"), app("4", "d")];
    let r = rank_matches(&l, &vec![Some(5), None, Some(9), Some(5)]);
    let ids: Vec<(&str, i64)> = r.iter().map(|(e, s)| (e.id.as_str(), *s)).collect();
    assert_eq!(ids, vec![("3", 9), ("1", 5), ("4", 5)]);
}

#[test]
fn requests_are_answered() {
    let cache = vec![app("1", "Firefox")];
    match respond(&cache, &IPCMessage::RequestSearch("fox".to_string())) {
        Some(IPCMessage::ResponseApps(v)) => assert_eq!(v[0].name, "Firefox"),
        other => panic!("unexpected {other:?}"),
    }
    assert!(respond(&cache, &IPCMessage::ResponseApps(Vec::new())).is_none());
    assert_eq!(response_apps(IPCMessage::RequestSearch("q".to_string())).unwrap_err(), "q");
    assert!(response_apps(IPCMessage::ResponseApps(Vec::new())).unwrap().is_empty());
}

#[test]
fn frames_round_trip() {
    let body: Vec<u8> = (0..70000u32).map(|i| i as u8).collect();
    let frame = encode_frame(&body);
    let head = [frame[0], frame[1], frame[2], frame[3]];
    assert_eq!(read_frame_length(&head), 70000);
    assert_eq!(read_frame_length(&head), u32::from_le_bytes(head));
    assert_eq!(&frame[4..], &body[..]);
    assert_eq!(decode_frame(&frame[4..]).unwrap(), &body[..]);
    assert_eq!(read_frame_length(&[1, 2, 3, 4]), 0x04030201);
    assert_eq!(SOCKET_PATH, "/tmp/hiren.socket");
}

#[test]
fn large_frames_are_refused() {
    assert_eq!(MAX_FRAME_SIZE, 10 * 1024 * 1024);
    assert!(frame_allowed(10485760));
    assert!(!frame_allowed(10485761));
    let big = vec![0u8; MAX_FRAME_SIZE + 1];
    assert_eq!(
        decode_frame(&big).unwrap_err(),
        "Frame too large: 10485761 bytes (max 10485760)"
    );
}

#[test]
fn relevant_changes() {
    let d = vec!["/usr/share/applications/a.desktop".to_string()];
    assert!(is_relevant_event(FileChange::Create, &d));
    assert!(is_relevant_event(FileChange::Data, &d));
    assert!(is_relevant_event(FileChange::Name, &d));
    assert!(is_relevant_event(FileChange::Remove, &d));
    assert!(!is_relevant_event(FileChange::Other, &d));
    for p in ["/a/b.txt", "/a/.desktop", "/a/desktop", "/a/x.desktop/..", ""] {
        assert!(!is_relevant_event(FileChange::Create, &vec![p.to_string()]), "{p}");
    }
    assert!(is_relevant_event(FileChange::Create, &vec!["/x".to_string(), "y.desktop/".to_string()]));
}

#[test]
fn changes_calm_down_before_a_rebuild() {
    let mut d = Debouncer::new(1000);
    assert!(!d.quiet(9000));
    d.event(false, 9000);
    assert!(!d.quiet(20000));
    d.event(true, 20000);
    assert!(!d.quiet(20499));
    assert!(d.quiet(20500));
    assert!(!d.quiet(30000));
}

#[test]
fn frames_in_a_row_can_be_told_apart() {
    let (a, b) = (b"first".to_vec(), b"second one".to_vec());
    let mut stream = encode_frame(&a);
    stream.extend(encode_frame(&b));
    let n = read_frame_length(&[stream[0], stream[1], stream[2], stream[3]]) as usize;
    assert_eq!(&stream[4..4 + n], &a[..]);
    let rest = &stream[4 + n..];
    let m = read_frame_length(&[rest[0], rest[1], rest[2], rest[3]]) as usize;
    assert_eq!(&rest[4..], &b[..]);
    assert_eq!(m, b.len());
}
