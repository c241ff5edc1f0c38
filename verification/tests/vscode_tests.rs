use editor_tab_manager::editor_config::editors;
use editor_tab_manager::observer::{app_type_for_activation, ObserverControl, ObserverRegistry};
use editor_tab_manager::vscode::{
    build_active_check_condition, close_vscode_window, extract_project_name, focus_vscode_window,
    get_editor_state, get_editor_windows, get_vscode_state, get_vscode_windows, open_new_vscode,
    EditorState, EditorWindow,
};

fn window(id: i32, name: &str) -> EditorWindow {
    EditorWindow { id, name: name.to_string(), path: name.to_string() }
}

fn state(is_active: bool, windows: Vec<EditorWindow>) -> EditorState {
    EditorState { is_active, windows, active_index: None }
}

#[test]
fn vscode_grammar_has_no_zed_rule() {
    let all = editors();
    assert_eq!(extract_project_name("a — b — Zed", &all[2]), "b");
    assert_eq!(extract_project_name("Zed", &all[2]), "New Window");
    assert_eq!(extract_project_name("f — p — Visual Studio Code", &all[0]), "p");
}

#[test]
fn active_check_condition_text() {
    assert_eq!(
        build_active_check_condition(),
        "(frontApp is \"Code\") or (frontApp is \"Electron\") or (frontApp contains \"Visual Studio Code\") or (frontApp is \"Cursor\") or (frontApp is \"zed\") or (frontApp is \"Editor Tab Manager\") or (frontApp is \"editor-tab-manager\")"
    );
}

#[test]
fn state_selection_by_bundle() {
    let states = vec![
        state(false, vec![]),
        state(false, vec![window(1, "c")]),
        state(true, vec![]),
    ];
    let cursor = get_editor_state("com.todesktop.230313mzl4w4u92", &states);
    assert_eq!(cursor.windows.len(), 1);
    let unknown = get_editor_state("com.example.nope", &states);
    assert!(unknown.windows.is_empty() && !unknown.is_active);
    // The first running editor wins; here the second has a window.
    let any = get_vscode_state(&states);
    assert_eq!(any.windows.len(), 1);
}

#[test]
fn windows_selection() {
    let lists = vec![vec![], vec![window(2, "p")], vec![window(3, "q")]];
    assert_eq!(get_editor_windows("dev.zed.Zed", &lists).len(), 1);
    let first = get_vscode_windows(&lists);
    assert_eq!(first.len(), 1);
    assert_eq!(first[0].id, 2);
}

#[test]
fn window_targeting_by_id() {
    let lists = vec![vec![window(1, "a")], vec![window(7, "b")], vec![]];
    assert_eq!(focus_vscode_window(7, &lists), 1);
    assert_eq!(close_vscode_window(1, &lists), 0);
    // An unknown id falls back to the first editor.
    assert_eq!(focus_vscode_window(99, &lists), 0);
    assert_eq!(open_new_vscode(&lists), 0);
}

#[test]
fn activation_classification() {
    assert_eq!(app_type_for_activation(Some("com.microsoft.VSCode"), false), "editor");
    assert_eq!(app_type_for_activation(Some("com.apple.finder"), false), "other");
    assert_eq!(app_type_for_activation(None, false), "other");
    assert_eq!(app_type_for_activation(Some("com.apple.finder"), true), "tab_manager");
}

#[test]
fn observer_control_and_registry() {
    let mut ctl = ObserverControl::new();
    let scheduled_at = ctl.debounce_version;
    assert!(ctl.other_event_current(scheduled_at));
    ctl.cancel_pending_other_event();
    assert!(!ctl.other_event_current(scheduled_at));
    ctl.stop_observer();
    assert!(!ctl.running);

    let mut reg = ObserverRegistry::new();
    reg.register_for_pid(11);
    reg.register_for_pid(22);
    reg.register_for_pid(11);
    assert!(reg.is_registered(11));
    reg.unregister_for_pid(11);
    assert!(!reg.is_registered(11));
    assert!(reg.is_registered(22));
    reg.unregister_all();
    assert!(!reg.is_registered(22));
}
