use editor_tab_manager::editor::{
    focus_editor_window, get_any_editor_state, get_any_editor_windows, get_editor_state,
    get_editor_state_with_config, get_workspace_storage_dir, is_editor_active, open_new_editor,
    open_project_in_editor, resolve_project_path, workspace_folder_entry, EditorState,
    EditorWindow, ProjectPathCache, WindowRecord, WorkspaceEntry,
};
use editor_tab_manager::editor_config::{
    editors, get_editor_by_bundle_id, get_supported_bundle_ids, is_supported_editor,
};
use editor_tab_manager::git::{GitDirEntry, GitModel, HeadEntry};
use editor_tab_manager::title::extract_project_name;

fn empty_fs() -> GitModel {
    GitModel { entries: vec![], heads: vec![] }
}

fn record(id: u32, title: &str, front: bool) -> WindowRecord {
    WindowRecord { window_id: id, title: title.to_string(), is_frontmost: front, document_path: None }
}

#[test]
fn config_lookup() {
    assert!(is_supported_editor("com.microsoft.VSCode"));
    assert!(is_supported_editor("dev.zed.Zed"));
    assert!(!is_supported_editor("com.example.other"));
    let c = get_editor_by_bundle_id("com.todesktop.230313mzl4w4u92").unwrap();
    assert_eq!(c.id, "cursor");
    assert_eq!(c.display_name, "Cursor");
    assert_eq!(get_supported_bundle_ids().len(), 3);
    assert_eq!(editors().len(), 3);
}

#[test]
fn three_segment_title_names_middle() {
    // For all editors of the VSCode family, "file — folder — app" names
    // the middle segment.
    let all = editors();
    assert_eq!(extract_project_name("main.rs — my-proj — Visual Studio Code", &all[0]), "my-proj");
    assert_eq!(extract_project_name("a — b — Cursor", &all[1]), "b");
}

#[test]
fn bare_app_title_names_new_window() {
    let all = editors();
    assert_eq!(extract_project_name("Visual Studio Code", &all[0]), "New Window");
    assert_eq!(extract_project_name("Cursor", &all[1]), "New Window");
}

#[test]
fn two_segment_titles() {
    let all = editors();
    assert_eq!(extract_project_name("my-proj — Visual Studio Code", &all[0]), "my-proj");
    // An unexpected second segment is taken verbatim (best effort).
    assert_eq!(extract_project_name("a — b", &all[0]), "b");
    assert_eq!(extract_project_name("plain-title", &all[0]), "plain-title");
}

#[test]
fn zed_titles_use_first_segment() {
    let all = editors();
    assert_eq!(extract_project_name("proj — file.rs", &all[2]), "proj");
    assert_eq!(extract_project_name("proj", &all[2]), "proj");
    assert_eq!(extract_project_name("a — b — c", &all[2]), "a — b — c");
}

#[test]
fn resolver_uses_cache_then_workspace_scan() {
    let mut cache = ProjectPathCache::new();
    let ws = vec![WorkspaceEntry { name: "proj".to_string(), path: "/home/u/proj".to_string() }];
    let fs = empty_fs();
    let r = resolve_project_path(&mut cache, "proj", "vscode", &ws, &fs, None);
    assert_eq!(r, Some("/home/u/proj".to_string()));
    // A later lookup hits the cache even with the workspace list gone.
    let r2 = resolve_project_path(&mut cache, "proj", "vscode", &vec![], &fs, None);
    assert_eq!(r2, Some("/home/u/proj".to_string()));
    // The bulk load runs once per editor: a new name misses.
    let r3 = resolve_project_path(&mut cache, "other", "vscode", &ws, &fs, None);
    assert_eq!(r3, None);
}

#[test]
fn resolver_probes_subdirectories() {
    let mut cache = ProjectPathCache::new();
    let ws = vec![WorkspaceEntry { name: "parent".to_string(), path: "/r/parent".to_string() }];
    let fs = GitModel {
        entries: vec![GitDirEntry { path: "/r/parent/sub".to_string(), git_file: None }],
        heads: vec![],
    };
    let r = resolve_project_path(&mut cache, "sub", "vscode", &ws, &fs, None);
    assert_eq!(r, Some("/r/parent/sub".to_string()));
}

#[test]
fn resolver_falls_back_to_document_path() {
    let mut cache = ProjectPathCache::new();
    let fs = GitModel {
        entries: vec![GitDirEntry { path: "/w/repo".to_string(), git_file: None }],
        heads: vec![],
    };
    let r = resolve_project_path(
        &mut cache,
        "repo",
        "zed",
        &vec![],
        &fs,
        Some("/w/repo/src/main.rs"),
    );
    assert_eq!(r, Some("/w/repo".to_string()));
}

#[test]
fn state_building_filters_and_resolves() {
    let all = editors();
    let mut cache = ProjectPathCache::new();
    let ws = vec![WorkspaceEntry { name: "proj".to_string(), path: "/w/proj".to_string() }];
    let fs = GitModel {
        entries: vec![GitDirEntry { path: "/w/proj".to_string(), git_file: None }],
        heads: vec![HeadEntry {
            git_dir: "/w/proj/.git".to_string(),
            content: "ref: refs/heads/main\n".to_string(),
        }],
    };
    let records = vec![
        record(10, "", false),
        record(11, "Untitled", false),
        record(12, "x.rs — proj — Visual Studio Code", true),
    ];
    let state = get_editor_state_with_config(&all[0], true, &records, &mut cache, &ws, &fs);
    assert!(state.is_active);
    assert_eq!(state.windows.len(), 1);
    assert_eq!(state.windows[0].id, 12);
    assert_eq!(state.windows[0].name, "proj");
    assert_eq!(state.windows[0].path, "/w/proj");
    assert_eq!(state.windows[0].branch, Some("main".to_string()));
    assert_eq!(state.active_index, Some(0));
}

#[test]
fn unknown_bundle_gives_empty_state() {
    let mut cache = ProjectPathCache::new();
    let state = get_editor_state("com.example.nope", false, &vec![], &mut cache, &vec![], &empty_fs());
    assert!(!state.is_active);
    assert!(state.windows.is_empty());
    assert_eq!(state.active_index, None);
}

#[test]
fn any_editor_selection() {
    let empty = EditorState { is_active: false, windows: vec![], active_index: None };
    let busy = EditorState {
        is_active: false,
        windows: vec![EditorWindow {
            id: 5,
            name: "p".to_string(),
            path: "".to_string(),
            branch: None,
        }],
        active_index: None,
    };
    let states = vec![empty, busy];
    let chosen = get_any_editor_state(&states);
    assert_eq!(chosen.windows.len(), 1);
    assert_eq!(chosen.windows[0].id, 5);

    let lists: Vec<Vec<EditorWindow>> = vec![vec![], vec![]];
    assert!(get_any_editor_windows(&lists).is_empty());
}

#[test]
fn window_commands_validate_their_targets() {
    let err = focus_editor_window("com.example.nope", Some(42), 7).unwrap_err();
    assert_eq!(err, "Unknown editor: com.example.nope");
    let err2 = focus_editor_window("com.microsoft.VSCode", None, 7).unwrap_err();
    assert_eq!(err2, "Editor not running: Visual Studio Code");
    let ok = focus_editor_window("com.microsoft.VSCode", Some(42), 7).unwrap();
    assert_eq!(ok.pid, 42);
    assert_eq!(ok.window_id, 7);
    assert_eq!(open_new_editor("dev.zed.Zed", Some(9)).unwrap(), 9);
    assert_eq!(
        open_new_editor("dev.zed.Zed", None).unwrap_err(),
        "Editor not running: Zed"
    );
}

#[test]
fn active_check_by_frontmost_bundle() {
    assert!(is_editor_active(Some("com.microsoft.VSCode")));
    assert!(is_editor_active(Some("com.884js.editor-tab-manager")));
    assert!(!is_editor_active(Some("com.apple.finder")));
    assert!(!is_editor_active(None));
}

#[test]
fn get_workspace_storage_dir_known_editors() {
    let cursor_dir = get_workspace_storage_dir("cursor");
    assert!(cursor_dir.is_some());
    assert!(cursor_dir.unwrap().contains("Cursor"));

    let vscode_dir = get_workspace_storage_dir("vscode");
    assert!(vscode_dir.is_some());
    assert!(vscode_dir.unwrap().contains("Code"));

    let zed_dir = get_workspace_storage_dir("zed");
    assert!(zed_dir.is_none());
}

#[test]
fn workspace_folder_uri_to_entry() {
    let e = workspace_folder_entry("file:///home/u/my%20proj").unwrap();
    assert_eq!(e.name, "my proj");
    assert_eq!(e.path, "/home/u/my proj");
    let plain = workspace_folder_entry("/home/u/plain").unwrap();
    assert_eq!(plain.name, "plain");
    assert!(workspace_folder_entry("file:///").is_none());
}

#[test]
fn open_project_targets_the_app() {
    let (app, path) = open_project_in_editor("dev.zed.Zed", "/w/proj").unwrap();
    assert_eq!(app, "Zed");
    assert_eq!(path, "/w/proj");
    assert_eq!(
        open_project_in_editor("nope", "/w").unwrap_err(),
        "Unknown editor: nope"
    );
}
