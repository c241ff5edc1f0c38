use editor_tab_manager::git::{
    find_git_root, get_git_branch, parse_gitdir_content, parse_head_content, resolve_git_dir,
    GitDirEntry, GitModel, HeadEntry,
};

fn model(entries: Vec<GitDirEntry>, heads: Vec<HeadEntry>) -> GitModel {
    GitModel { entries, heads }
}

fn dir(path: &str) -> GitDirEntry {
    GitDirEntry { path: path.to_string(), git_file: None }
}

fn marker(path: &str, content: &str) -> GitDirEntry {
    GitDirEntry { path: path.to_string(), git_file: Some(content.to_string()) }
}

fn head(git_dir: &str, content: &str) -> HeadEntry {
    HeadEntry { git_dir: git_dir.to_string(), content: content.to_string() }
}

#[test]
fn find_git_root_in_repo() {
    let m = model(vec![dir("/work/repo")], vec![]);
    assert_eq!(find_git_root("/work/repo/src/deep", &m), Some("/work/repo".to_string()));
    // The nearest ancestor wins.
    let m2 = model(vec![dir("/work"), dir("/work/repo")], vec![]);
    assert_eq!(find_git_root("/work/repo/src", &m2), Some("/work/repo".to_string()));
}

#[test]
fn find_git_root_non_git() {
    let m = model(vec![], vec![]);
    assert_eq!(find_git_root("/tmp/somewhere/else", &m), None);
}

#[test]
fn get_git_branch_normal() {
    let m = model(
        vec![dir("/repo")],
        vec![head("/repo/.git", "ref: refs/heads/main\n")],
    );
    assert_eq!(get_git_branch("/repo", &m), Some("main".to_string()));
}

#[test]
fn get_git_branch_feature() {
    let m = model(
        vec![dir("/repo")],
        vec![head("/repo/.git", "ref: refs/heads/feature/user/login\n")],
    );
    assert_eq!(get_git_branch("/repo", &m), Some("feature/user/login".to_string()));
}

#[test]
fn get_git_branch_detached_head() {
    let m = model(vec![dir("/repo")], vec![head("/repo/.git", "a1b2c3d4e5f6789\n")]);
    assert_eq!(get_git_branch("/repo", &m), Some("a1b2c3d".to_string()));
}

#[test]
fn get_git_branch_no_head() {
    let m = model(vec![], vec![]);
    assert_eq!(get_git_branch("/repo", &m), None);
    // A repository whose HEAD is missing also yields none.
    let m2 = model(vec![dir("/repo")], vec![]);
    assert_eq!(get_git_branch("/repo", &m2), None);
}

#[test]
fn get_git_branch_short_head_content() {
    let m = model(vec![dir("/repo")], vec![head("/repo/.git", "abc\n")]);
    assert_eq!(get_git_branch("/repo", &m), None);
}

#[test]
fn get_git_branch_submodule() {
    let m = model(
        vec![marker("/parent/sub", "gitdir: ../.git/modules/sub\n")],
        vec![head("/parent/.git/modules/sub", "ref: refs/heads/develop\n")],
    );
    assert_eq!(get_git_branch("/parent/sub", &m), Some("develop".to_string()));
}

#[test]
fn submodule_marker_to_missing_target_has_no_branch() {
    // The marker resolves to a normalized target; a target that does not
    // exist has no recorded HEAD, so the branch lookup yields none (the
    // outcome a failing canonicalization gives).
    let m = model(vec![marker("/parent/sub", "gitdir: ../.git/modules/gone\n")], vec![]);
    assert_eq!(
        resolve_git_dir("/parent/sub", &m),
        Some("/parent/.git/modules/gone".to_string())
    );
    assert_eq!(get_git_branch("/parent/sub", &m), None);
}

#[test]
fn resolve_git_dir_regular() {
    let m = model(vec![dir("/repo")], vec![]);
    assert_eq!(resolve_git_dir("/repo", &m), Some("/repo/.git".to_string()));
}

#[test]
fn resolve_git_dir_submodule() {
    // An absolute gitdir is taken as-is (normalized).
    let m = model(vec![marker("/sub", "gitdir: /actual_git")], vec![]);
    assert_eq!(resolve_git_dir("/sub", &m), Some("/actual_git".to_string()));
}

#[test]
fn head_and_gitdir_parsing() {
    assert_eq!(parse_head_content("ref: refs/heads/main\n"), Some("main".to_string()));
    assert_eq!(parse_head_content("a1b2c3d4e5\n"), Some("a1b2c3d".to_string()));
    assert_eq!(parse_head_content("ab\n"), None);
    assert_eq!(parse_gitdir_content("gitdir: ../x\n"), Some("../x".to_string()));
    assert_eq!(parse_gitdir_content("nonsense"), None);
}
