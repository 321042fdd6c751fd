use calcifer::editor::{Editor, Effect};
use calcifer::persist::{encode_state, parse_state};
use calcifer::session::Tab;

fn clean_tab(path: &str) -> Tab {
    Tab {
        path: String::from(path),
        code: String::from(""),
        language: String::from("rs"),
        saved: true,
        scroll_offset: 0,
        last_cursor: None,
    }
}

#[test]
fn declined_confirmation_never_triggers_action() {
    // Ask, then close without ever setting proceed: the guarded action
    // must not run, and everything returns to Idle.
    let mut e = Editor::new();
    assert!(!e.session.tabs[0].saved);
    e.request_close(0);
    assert!(e.close_tab_confirm.visible);
    assert!(!e.close_tab_confirm.proceed);
    let before_len = e.session.tabs.len();
    let before_path = e.session.tabs[0].path.clone();
    e.close_tab_confirm.close();
    let r = e.handle_confirm();
    assert!(r.is_none());
    assert_eq!(e.session.tabs.len(), before_len);
    assert_eq!(e.session.tabs[0].path, before_path);
    assert!(!e.close_tab_confirm.visible);
    assert!(!e.close_tab_confirm.proceed);
    assert!(e.close_tab_confirm.pending.is_none());
}

#[test]
fn confirmed_close_deletes_the_tab() {
    let mut e = Editor::new();
    e.session.open_file(Some(clean_tab("/a.rs")));
    e.session.open_file(Some(Tab { saved: false, ..clean_tab("/b.rs") }));
    e.request_close(2);
    assert!(e.close_tab_confirm.visible);
    e.close_tab_confirm.answer(true);
    let r = e.handle_confirm();
    assert!(r.is_none());
    assert_eq!(e.session.tabs.len(), 2);
    assert_eq!(e.session.tabs[1].path, "/a.rs");
    assert!(!e.close_tab_confirm.visible);
}

#[test]
fn clean_tab_closes_without_gate() {
    let mut e = Editor::new();
    e.session.open_file(Some(clean_tab("/a.rs")));
    e.request_close(1);
    assert!(!e.close_tab_confirm.visible);
    assert_eq!(e.session.tabs.len(), 1);
}

#[test]
fn refresh_of_clean_tab_is_immediate() {
    let mut e = Editor::new();
    e.session.open_file(Some(clean_tab("/a.rs")));
    let r = e.request_refresh(1);
    assert_eq!(r, Some(Effect::ReloadTab(1)));
    assert!(!e.refresh_confirm.visible);
}

#[test]
fn refresh_of_dirty_tab_waits_for_confirmation() {
    let mut e = Editor::new();
    let r = e.request_refresh(0);
    assert!(r.is_none());
    assert!(e.refresh_confirm.visible);
    e.refresh_confirm.answer(true);
    let r2 = e.handle_confirm();
    assert_eq!(r2, Some(Effect::ReloadTab(0)));
    e.apply_reload(0, String::from("from disk"));
    assert_eq!(e.session.tabs[0].code, "from disk");
    assert!(e.session.tabs[0].saved);
}

#[test]
fn exit_prompt_lists_exactly_the_unsaved_tab() {
    // A session holding only the default untitled tab with unsaved edits:
    // the exit prompt names exactly that tab and no other.
    let mut e = Editor::new();
    let proceed = e.request_exit();
    assert!(!proceed);
    assert!(e.exit_confirm.visible);
    assert_eq!(
        e.exit_confirm.prompt,
        "You have some unsaved changes :\nuntitled\nDo you still want to exit ?"
    );
    assert_eq!(e.exit_confirm.title, "Confirm Exit");
}

#[test]
fn exit_with_everything_saved_proceeds() {
    let mut e = Editor::new();
    e.session.refresh(0, String::from("content"));
    let proceed = e.request_exit();
    assert!(proceed);
    assert!(!e.exit_confirm.visible);
}

#[test]
fn confirmed_exit_is_reported() {
    let mut e = Editor::new();
    assert!(!e.request_exit());
    e.exit_confirm.answer(true);
    assert_eq!(e.handle_confirm(), Some(Effect::Exit));
    assert!(!e.exit_confirm.visible);
}

#[test]
fn save_then_load_restores_paths_and_theme() {
    let mut e = Editor::new();
    e.session.open_file(Some(clean_tab("/home/user/a.rs")));
    e.session.open_file(Some(clean_tab("/home/user/b.py")));
    e.theme = 5;
    // Edits after the snapshot must not leak into what was saved.
    let st = e.to_app_state();
    e.session.refresh(1, String::from("later edit"));
    let text = encode_state(&st);
    let back = parse_state(&text).expect("snapshot should parse");
    let restored = Editor::from_app_state(back);
    // The untitled tab is not reopened; the named paths and theme are.
    assert_eq!(restored.session.tabs.len(), 2);
    assert_eq!(restored.session.tabs[0].path, "/home/user/a.rs");
    assert_eq!(restored.session.tabs[1].path, "/home/user/b.py");
    assert_eq!(restored.theme, 5);
    assert_eq!(restored.session.selected, 1);
    assert!(restored.session.tabs.iter().all(|t| t.saved));
    assert_eq!(restored.session.tabs[1].language, "py");
}

#[test]
fn restore_of_empty_snapshot_gives_default_tab() {
    let st = parse_state("{\"tabs\":[\"untitled\"],\"theme\":2}").expect("should parse");
    let e = Editor::from_app_state(st);
    assert_eq!(e.session.tabs.len(), 1);
    assert_eq!(e.session.tabs[0].path, "untitled");
    assert!(!e.session.tabs[0].saved);
    assert_eq!(e.theme, 2);
}

#[test]
fn restore_truncates_at_capacity() {
    let paths: Vec<String> = (0..25).map(|k| format!("/tmp/t{}.rs", k)).collect();
    let st = calcifer::persist::AppState { tabs: paths, theme: 0 };
    let e = Editor::from_app_state(st);
    assert_eq!(e.session.tabs.len(), 20);
    assert_eq!(e.session.tabs[19].path, "/tmp/t19.rs");
    assert_eq!(e.session.selected, 19);
}
