use editor_tab_manager::status::{
    apply_line, clear_notification_file_for_path, classify_record, collect_history,
    collect_sessions, get_all_statuses, get_waiting_projects, last_nonempty_line,
    normalize_cwd_to_project_path, ClaudeStatus, HistoryRecord, ProjectSessions, SessionState,
    StatusMap, StatusWatcher, encode_project_path, session_file_rel_path, session_state_of_line,
    normalize_project_path,
};

#[test]
fn generating_status() {
    let mut statuses = StatusMap::new();
    assert!(apply_line("g /path/to/project", &mut statuses));
    assert_eq!(statuses.get("/path/to/project"), Some(ClaudeStatus::Generating));
}

#[test]
fn waiting_status() {
    let mut statuses = StatusMap::new();
    assert!(apply_line("w /path/to/project", &mut statuses));
    assert_eq!(statuses.get("/path/to/project"), Some(ClaudeStatus::Waiting));
}

#[test]
fn complete_removes_entry() {
    let mut statuses = StatusMap::new();
    apply_line("g /path/to/project", &mut statuses);
    assert!(apply_line("c /path/to/project", &mut statuses));
    assert!(statuses.is_empty());
}

#[test]
fn complete_on_nonexistent_returns_false() {
    let mut statuses = StatusMap::new();
    assert!(!apply_line("c /path/to/project", &mut statuses));
}

#[test]
fn duplicate_status_returns_false() {
    let mut statuses = StatusMap::new();
    apply_line("g /path/to/project", &mut statuses);
    assert!(!apply_line("g /path/to/project", &mut statuses));
}

#[test]
fn status_transition_generating_to_waiting() {
    let mut statuses = StatusMap::new();
    apply_line("g /path/to/project", &mut statuses);
    assert!(apply_line("w /path/to/project", &mut statuses));
    assert_eq!(statuses.get("/path/to/project"), Some(ClaudeStatus::Waiting));
}

#[test]
fn multiple_projects() {
    let mut statuses = StatusMap::new();
    apply_line("g /project-a", &mut statuses);
    apply_line("w /project-b", &mut statuses);
    assert_eq!(statuses.len(), 2);
    assert_eq!(statuses.get("/project-a"), Some(ClaudeStatus::Generating));
    assert_eq!(statuses.get("/project-b"), Some(ClaudeStatus::Waiting));
}

#[test]
fn trailing_slash_stripped() {
    let mut statuses = StatusMap::new();
    apply_line("g /path/to/project/", &mut statuses);
    assert_eq!(statuses.get("/path/to/project"), Some(ClaudeStatus::Generating));
}

#[test]
fn short_line_ignored() {
    let mut statuses = StatusMap::new();
    assert!(!apply_line("g", &mut statuses));
    assert!(!apply_line("", &mut statuses));
    assert!(!apply_line("ab", &mut statuses));
}

#[test]
fn unknown_prefix_ignored() {
    let mut statuses = StatusMap::new();
    assert!(!apply_line("x /path/to/project", &mut statuses));
}

#[test]
fn empty_project_ignored() {
    let mut statuses = StatusMap::new();
    assert!(!apply_line("g ", &mut statuses));
}

#[test]
fn waiting_only_project_is_waiting() {
    // Waiting-signal file lists /a/b; the history index has no active
    // session for it: the status map holds exactly /a/b -> Waiting.
    let sessions: Vec<ProjectSessions> = vec![];
    let waiting = get_waiting_projects("/a/b\n");
    let all_paths: Vec<String> = vec!["/a/b".to_string()];
    let statuses = get_all_statuses(&sessions, &waiting, &all_paths);
    assert_eq!(statuses.len(), 1);
    assert_eq!(statuses.get("/a/b"), Some(ClaudeStatus::Waiting));
}

#[test]
fn tool_pending_without_signal_stays_generating() {
    // The last transcript record awaits a tool, but the waiting-signal
    // file does not list the project yet: the status stays Generating
    // (gap avoidance), neither Waiting nor absent.
    let line = "{\"type\":\"assistant\",\"message\":{\"content\":[{\"type\":\"tool_use\"}]}}";
    let state = session_state_of_line(line);
    assert_eq!(state, SessionState::ToolPending);
    let sessions = vec![ProjectSessions { path: "/proj".to_string(), states: vec![state] }];
    let waiting: Vec<String> = vec![];
    let all_paths = vec!["/proj".to_string()];
    let statuses = get_all_statuses(&sessions, &waiting, &all_paths);
    assert_eq!(statuses.get("/proj"), Some(ClaudeStatus::Generating));
}

#[test]
fn tool_pending_with_signal_is_waiting() {
    let sessions = vec![ProjectSessions {
        path: "/proj".to_string(),
        states: vec![SessionState::ToolPending],
    }];
    let waiting = vec!["/proj/sub/dir".to_string()];
    let all_paths = vec!["/proj".to_string()];
    let statuses = get_all_statuses(&sessions, &waiting, &all_paths);
    assert_eq!(statuses.get("/proj"), Some(ClaudeStatus::Waiting));
}

#[test]
fn generating_beats_tool_pending() {
    let sessions = vec![ProjectSessions {
        path: "/proj".to_string(),
        states: vec![SessionState::ToolPending, SessionState::Generating],
    }];
    let waiting = vec!["/proj".to_string()];
    let all_paths = vec!["/proj".to_string()];
    let statuses = get_all_statuses(&sessions, &waiting, &all_paths);
    assert_eq!(statuses.get("/proj"), Some(ClaudeStatus::Generating));
}

#[test]
fn inactive_sessions_leave_no_entry() {
    let sessions = vec![ProjectSessions {
        path: "/proj".to_string(),
        states: vec![SessionState::Inactive],
    }];
    let waiting: Vec<String> = vec![];
    let all_paths = vec!["/proj".to_string()];
    let statuses = get_all_statuses(&sessions, &waiting, &all_paths);
    assert!(statuses.is_empty());
}

#[test]
fn classify_record_rules() {
    assert_eq!(classify_record("system", "stop_hook_summary", false), SessionState::Inactive);
    assert_eq!(classify_record("system", "turn_duration", false), SessionState::Inactive);
    assert_eq!(classify_record("system", "other", false), SessionState::Generating);
    assert_eq!(classify_record("assistant", "", true), SessionState::ToolPending);
    assert_eq!(classify_record("assistant", "", false), SessionState::Generating);
    assert_eq!(classify_record("user", "", false), SessionState::Generating);
    assert_eq!(classify_record("progress", "", false), SessionState::Generating);
    assert_eq!(classify_record("file-history-snapshot", "", false), SessionState::Inactive);
    assert_eq!(classify_record("summary", "", false), SessionState::Inactive);
}

#[test]
fn classify_session_lines() {
    assert_eq!(
        session_state_of_line("{\"type\":\"system\",\"subtype\":\"stop_hook_summary\"}"),
        SessionState::Inactive
    );
    assert_eq!(
        session_state_of_line("{\"type\":\"assistant\",\"message\":{\"content\":[{\"type\":\"text\"}]}}"),
        SessionState::Generating
    );
    assert_eq!(session_state_of_line("{\"type\":\"user\"}"), SessionState::Generating);
    assert_eq!(session_state_of_line("not json"), SessionState::Inactive);
    // Replaying the identical line yields the identical state.
    let line = "{\"type\":\"assistant\",\"message\":{\"content\":[{\"type\":\"tool_use\"}]}}";
    assert_eq!(session_state_of_line(line), session_state_of_line(line));
}

#[test]
fn normalize_cwd_longest_prefix() {
    let paths = vec!["/a".to_string(), "/a/b".to_string(), "/c".to_string()];
    assert_eq!(normalize_cwd_to_project_path("/a/b/src/deep", &paths), "/a/b");
    assert_eq!(normalize_cwd_to_project_path("/a/x", &paths), "/a");
    assert_eq!(normalize_cwd_to_project_path("/elsewhere", &paths), "/elsewhere");
}

#[test]
fn clear_notification_removes_path_and_subdirs() {
    // /proj and /proj/sub are cleared; /other stays.
    let out = clear_notification_file_for_path("/proj\n/proj/sub\n/other\n", Some("/proj"));
    assert_eq!(out, Some("/other\n".to_string()));
}

#[test]
fn clear_notification_deletes_when_empty() {
    assert_eq!(clear_notification_file_for_path("/proj\n/proj/sub\n", Some("/proj")), None);
    assert_eq!(clear_notification_file_for_path("/proj\n", None), None);
}

#[test]
fn waiting_projects_cleaned() {
    let w = get_waiting_projects(" /a/b/ \n\n/c\n");
    assert_eq!(w, vec!["/a/b".to_string(), "/c".to_string()]);
}

#[test]
fn last_line_of_transcript() {
    assert_eq!(last_nonempty_line("a\nb\n\n"), Some("b".to_string()));
    assert_eq!(last_nonempty_line("\n  \n"), None);
}

#[test]
fn encode_and_locate_session_file() {
    assert_eq!(encode_project_path("/a/b c"), "-a-b-c");
    assert_eq!(
        session_file_rel_path("/a/b", "s1"),
        "projects/-a-b/s1.jsonl"
    );
    assert_eq!(normalize_project_path("/a/b/"), "/a/b");
}

#[test]
fn watcher_emits_only_on_change() {
    let mut watcher = StatusWatcher::new();
    assert!(watcher.running);
    let mut fresh = StatusMap::new();
    apply_line("g /p", &mut fresh);
    assert!(watcher.should_emit(&fresh));
    watcher.record_emitted(fresh);
    let mut again = StatusMap::new();
    apply_line("g /p", &mut again);
    assert!(!watcher.should_emit(&again));
    watcher.pause_watcher();
    assert!(watcher.paused);
    watcher.resume_watcher();
    assert!(!watcher.paused);
    watcher.stop_claude_status_watcher();
    assert!(!watcher.running);
}

#[test]
fn history_records_group_and_dedup() {
    fn record(project: Option<&str>, sid: &str) -> HistoryRecord {
        HistoryRecord { project: project.map(|p| p.to_string()), session_id: sid.to_string() }
    }
    let records = vec![
        record(Some("/a/b/"), "s1"),
        record(Some("/a/b"), "s1"),
        record(Some("/a/b"), "s2"),
        record(None, "orphan"),
        record(Some("/c"), "s3"),
    ];
    let index = collect_sessions(&records);
    assert_eq!(index.all_project_paths, vec!["/a/b".to_string(), "/c".to_string()]);
    assert_eq!(index.groups.len(), 2);
    assert_eq!(index.groups[0].path, "/a/b");
    // The duplicate s1 entry is kept once; stat calls stay per unique file.
    assert_eq!(
        index.groups[0].files,
        vec!["projects/-a-b/s1.jsonl".to_string(), "projects/-a-b/s2.jsonl".to_string()]
    );
    assert_eq!(index.groups[1].files, vec!["projects/-c/s3.jsonl".to_string()]);
}

#[test]
fn history_index_content_parsed_and_grouped() {
    // Blank lines are skipped; unusable records (missing sessionId, not
    // JSON, a non-string project) are skipped; a null project yields a
    // record without one; trailing slashes are normalized away.
    let content = "{\"project\":\"/a/b/\",\"sessionId\":\"s1\"}\n\
                   \n\
                   {\"project\":\"/a/b\",\"sessionId\":\"s1\"}\n\
                   {\"project\":null,\"sessionId\":\"orphan\"}\n\
                   {\"project\":7,\"sessionId\":\"bad\"}\n\
                   not json at all\n\
                   {\"project\":\"/c\",\"sessionId\":\"s3\"}\n";
    let index = collect_history(content);
    assert_eq!(index.all_project_paths, vec!["/a/b".to_string(), "/c".to_string()]);
    assert_eq!(index.groups.len(), 2);
    assert_eq!(index.groups[0].files, vec!["projects/-a-b/s1.jsonl".to_string()]);
    assert_eq!(index.groups[1].files, vec!["projects/-c/s3.jsonl".to_string()]);
}
