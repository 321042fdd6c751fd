use calcifer::persist::{encode_state, parse_state, AppState};

#[test]
fn encode_empty_state() {
    let st = AppState { tabs: Vec::new(), theme: 0 };
    assert_eq!(encode_state(&st), "{\"tabs\":[],\"theme\":0}");
}

#[test]
fn encode_two_tabs() {
    let st = AppState {
        tabs: vec![String::from("/a/x.rs"), String::from("/b/y.py")],
        theme: 3,
    };
    assert_eq!(
        encode_state(&st),
        "{\"tabs\":[\"/a/x.rs\",\"/b/y.py\"],\"theme\":3}"
    );
}

#[test]
fn parse_rejects_garbage() {
    assert!(parse_state("").is_none());
    assert!(parse_state("not json").is_none());
    assert!(parse_state("{\"tabs\":[").is_none());
    assert!(parse_state("{\"tabs\":[],\"theme\":}").is_none());
    assert!(parse_state("{\"tabs\":[],\"theme\":1").is_none());
    assert!(parse_state("{\"tabs\":[],\"theme\":1}x").is_none());
    assert!(parse_state("{\"theme\":1,\"tabs\":[]").is_none());
}

#[test]
fn parse_simple_state() {
    let st = parse_state("{\"tabs\":[\"/a.rs\"],\"theme\":12}").expect("should parse");
    assert_eq!(st.tabs, vec![String::from("/a.rs")]);
    assert_eq!(st.theme, 12);
}

#[test]
fn round_trip_plain_paths() {
    let st = AppState {
        tabs: vec![
            String::from("/home/user/main.rs"),
            String::from("untitled"),
            String::from("/etc/hosts"),
        ],
        theme: 7,
    };
    let text = encode_state(&st);
    let back = parse_state(&text).expect("should parse");
    assert_eq!(back.tabs, st.tabs);
    assert_eq!(back.theme, st.theme);
}

#[test]
fn round_trip_paths_needing_escapes() {
    let st = AppState {
        tabs: vec![
            String::from("/tmp/has\"quote.rs"),
            String::from("/tmp/back\\slash"),
            String::from("/tmp/new\nline\tand\rmore"),
        ],
        theme: 123456,
    };
    let text = encode_state(&st);
    let back = parse_state(&text).expect("should parse");
    assert_eq!(back.tabs, st.tabs);
    assert_eq!(back.theme, st.theme);
}

#[test]
fn round_trip_large_theme() {
    let st = AppState { tabs: Vec::new(), theme: usize::MAX };
    let back = parse_state(&encode_state(&st)).expect("should parse");
    assert_eq!(back.theme, usize::MAX);
}

#[test]
fn parse_rejects_overflowing_theme() {
    assert!(parse_state(
        "{\"tabs\":[],\"theme\":999999999999999999999999999999}"
    )
    .is_none());
}

#[test]
fn parse_unescapes_string_literals() {
    let st = parse_state("{\"tabs\":[\"a\\\"b\",\"c\\\\d\",\"e\\nf\"],\"theme\":0}")
        .expect("should parse");
    assert_eq!(st.tabs[0], "a\"b");
    assert_eq!(st.tabs[1], "c\\d");
    assert_eq!(st.tabs[2], "e\nf");
}

#[test]
fn control_characters_use_unicode_escapes() {
    let st = AppState { tabs: vec![String::from("a\u{1}b\u{8}c\u{c}d")], theme: 0 };
    let text = encode_state(&st);
    assert_eq!(text, "{\"tabs\":[\"a\\u0001b\\bc\\fd\"],\"theme\":0}");
    let back = parse_state(&text).expect("should parse");
    assert_eq!(back.tabs, st.tabs);
}

#[test]
fn parse_accepts_legacy_escapes() {
    // Snapshots written by earlier builds escape control characters as
    // \u00XX and may use \/ for slashes.
    let st = parse_state("{\"tabs\":[\"x\\u0007y\",\"\\/tmp\\/z\"],\"theme\":1}")
        .expect("should parse");
    assert_eq!(st.tabs[0], "x\u{7}y");
    assert_eq!(st.tabs[1], "/tmp/z");
}

#[test]
fn parse_rejects_bad_unicode_escapes() {
    assert!(parse_state("{\"tabs\":[\"a\\uzzzz\"],\"theme\":0}").is_none());
    assert!(parse_state("{\"tabs\":[\"a\\u0100\"],\"theme\":0}").is_none());
    assert!(parse_state("{\"tabs\":[\"a\\u00\"],\"theme\":0}").is_none());
}

#[test]
fn round_trip_empty_path_string() {
    let st = AppState { tabs: vec![String::new()], theme: 0 };
    let back = parse_state(&encode_state(&st)).expect("should parse");
    assert_eq!(back.tabs, vec![String::new()]);
}

#[test]
fn parse_accepts_json_whitespace() {
    let st = parse_state("{\"tabs\": [\"/a.rs\", \"/b.py\"], \"theme\": 3}")
        .expect("should parse");
    assert_eq!(st.tabs, vec![String::from("/a.rs"), String::from("/b.py")]);
    assert_eq!(st.theme, 3);
    let st2 = parse_state(" { \"tabs\" : [ ] , \"theme\" : 0 } ").expect("should parse");
    assert!(st2.tabs.is_empty());
    assert_eq!(st2.theme, 0);
}

#[test]
fn parse_accepts_pretty_printed_snapshot() {
    let text = "{\n  \"tabs\": [\n    \"/home/user/a.rs\",\n    \"untitled\"\n  ],\n  \"theme\": 2\n}\n";
    let st = parse_state(text).expect("should parse");
    assert_eq!(st.tabs, vec![String::from("/home/user/a.rs"), String::from("untitled")]);
    assert_eq!(st.theme, 2);
}

#[test]
fn parse_accepts_either_key_order() {
    let st = parse_state("{\"theme\": 7, \"tabs\": [\"/x.rs\"]}").expect("should parse");
    assert_eq!(st.tabs, vec![String::from("/x.rs")]);
    assert_eq!(st.theme, 7);
}

#[test]
fn parse_rejects_malformed_objects() {
    assert!(parse_state("{\"tabs\":[]}").is_none());
    assert!(parse_state("{\"theme\":1}").is_none());
    assert!(parse_state("{\"tabs\":[],\"theme\":1,}").is_none());
    assert!(parse_state("{\"tabs\":[],\"theme\":1} x").is_none());
    assert!(parse_state("{\"tabs\":[],\"other\":1}").is_none());
}
