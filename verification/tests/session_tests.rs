use calcifer::session::{SessionStore, Tab, TabNumber, MAX_TABS};

fn named_tab(path: &str) -> Tab {
    Tab {
        path: String::from(path),
        code: String::from("fn main() {}"),
        language: String::from("rs"),
        saved: true,
        scroll_offset: 0,
        last_cursor: None,
    }
}

#[test]
fn open_then_close_keeps_invariant() {
    // Opening N files then closing them one at a time always leaves at
    // least one tab and an in-bounds selection at every step.
    for n in 1..=MAX_TABS {
        let mut s = SessionStore::new();
        for k in 0..n {
            s.open_file(Some(named_tab(&format!("/tmp/f{}.rs", k))));
            assert!(s.tabs.len() >= 1);
            assert!(s.selected < s.tabs.len());
        }
        for _ in 0..n {
            s.delete_tab(0);
            assert!(s.tabs.len() >= 1);
            assert!(s.selected < s.tabs.len());
        }
    }
}

#[test]
fn open_at_capacity_is_noop() {
    let mut s = SessionStore::new();
    for k in 0..(MAX_TABS + 5) {
        s.open_file(Some(named_tab(&format!("/tmp/f{}.rs", k))));
    }
    assert_eq!(s.tabs.len(), MAX_TABS);
    assert_eq!(s.selected, MAX_TABS - 1);
}

#[test]
fn close_resets_selection_in_bounds() {
    let mut s = SessionStore::new();
    s.open_file(Some(named_tab("/a.rs")));
    s.open_file(Some(named_tab("/b.rs")));
    s.open_file(Some(named_tab("/c.rs")));
    assert_eq!(s.tabs.len(), 4);
    s.delete_tab(3);
    assert_eq!(s.selected, 2);
    assert!(s.selected < s.tabs.len());
    s.delete_tab(0);
    assert_eq!(s.selected, 0);
    assert!(s.selected < s.tabs.len());
}

#[test]
fn closing_last_tab_synthesizes_default() {
    let mut s = SessionStore::new();
    s.delete_tab(0);
    assert_eq!(s.tabs.len(), 1);
    assert_eq!(s.tabs[0].path, "untitled");
    assert!(!s.tabs[0].saved);
    assert_eq!(s.selected, 0);
}

#[test]
fn move_selection_is_cyclic() {
    let mut s = SessionStore::new();
    s.open_file(Some(named_tab("/a.rs")));
    s.open_file(Some(named_tab("/b.rs")));
    let len = s.tabs.len();
    let start = s.selected;
    for _ in 0..len {
        s.move_through_tabs(true);
    }
    assert_eq!(s.selected, start);
    s.move_through_tabs(true);
    s.move_through_tabs(false);
    assert_eq!(s.selected, start);
    s.move_through_tabs(false);
    s.move_through_tabs(true);
    assert_eq!(s.selected, start);
}

#[test]
fn move_selection_wraps_both_ways() {
    let mut s = SessionStore::new();
    s.open_file(Some(named_tab("/a.rs")));
    s.open_file(Some(named_tab("/b.rs")));
    assert_eq!(s.selected, 2);
    s.move_through_tabs(true);
    assert_eq!(s.selected, 0);
    s.move_through_tabs(false);
    assert_eq!(s.selected, 2);
}

#[test]
fn refresh_discards_edits_and_marks_clean() {
    let mut s = SessionStore::new();
    s.open_file(Some(Tab {
        saved: false,
        ..named_tab("/a.rs")
    }));
    s.refresh(1, String::from("reloaded"));
    assert_eq!(s.tabs[1].code, "reloaded");
    assert!(s.tabs[1].saved);
    assert_eq!(s.tabs[1].path, "/a.rs");
}

#[test]
fn save_target_routes_untitled_through_save_as() {
    let s = SessionStore::new();
    assert!(s.save_target().is_none());
    let mut s2 = SessionStore::new();
    s2.open_file(Some(named_tab("/home/user/x.rs")));
    assert_eq!(s2.save_target(), Some(String::from("/home/user/x.rs")));
}

#[test]
fn handle_save_file_records_path_and_clean_flag() {
    let mut s = SessionStore::new();
    assert!(!s.tabs[0].saved);
    s.handle_save_file(Some(String::from("/home/user/new.rs")));
    assert_eq!(s.tabs[0].path, "/home/user/new.rs");
    assert!(s.tabs[0].saved);
    let before = s.tabs[0].path.clone();
    s.handle_save_file(None);
    assert_eq!(s.tabs[0].path, before);
}

#[test]
fn tab_number_round_trip() {
    for n in 0..8 {
        assert_eq!(TabNumber::from_index(n).to_index(), n);
    }
    assert_eq!(TabNumber::from_index(8), TabNumber::NoTab);
    assert_eq!(TabNumber::from_index(100).to_index(), 0);
}

#[test]
fn tab_names() {
    assert_eq!(named_tab("/home/user/lib.rs").get_name(), "lib.rs");
    assert_eq!(named_tab("untitled").get_name(), "untitled");
    assert_eq!(named_tab("file.py").get_name(), "file.py");
}

#[test]
fn tab_number_open_maps_to_zero() {
    assert_eq!(TabNumber::Open.to_index(), 0);
    assert_eq!(TabNumber::NoTab.to_index(), 0);
}
