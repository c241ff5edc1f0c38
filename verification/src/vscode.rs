//! The index-keyed window listing variant, as used over the scripting
//! bridge.
//!
//! Windows here are identified by their enumeration index (not a stable
//! handle), titles double as paths, and only the VSCode-family title
//! grammar applies.  The scripting calls themselves live outside this
//! crate; the selection logic over their results is verified.

use vstd::prelude::*;
use crate::editor_config::{EditorConfig, spec_is_supported_bundle};
use crate::strutil::{
    chars_append,
    chars_contains,
    chars_eq,
    chars_split,
    chars_string,
    seq_contains,
    spec_split,
    str_chars,
    str_eq,
};
use crate::title::{spec_title_separator, title_separator_chars};

verus! {

/// One editor window, keyed by its enumeration index.
pub struct EditorWindow {
    /// The window's enumeration index (unstable across refreshes).
    pub id: i32,
    /// Derived project name.
    pub name: String,
    /// The raw window title, doubling as a path label.
    pub path: String,
}

/// The state of one editor's windows, index-keyed.
pub struct EditorState {
    /// Whether a supported editor or this application is frontmost.
    pub is_active: bool,
    /// The editor's windows.
    pub windows: Vec<EditorWindow>,
    /// Index into `windows` of the frontmost window, if any.
    pub active_index: Option<usize>,
}

/// The view of one index-keyed window.
pub struct VWindowView {
    pub id: i32,
    pub name: Seq<char>,
    pub path: Seq<char>,
}

/// The view of an index-keyed window list.
pub open spec fn vwindows_view(ws: Seq<EditorWindow>) -> Seq<VWindowView> {
    Seq::new(ws.len(), |i: int| VWindowView { id: ws[i].id, name: ws[i].name@, path: ws[i].path@ })
}

/// The project name derived from `title` under the VSCode-family grammar
/// alone: "file — folder — app" gives the middle segment, "folder — app"
/// the folder, a title naming the app itself "New Window".
pub open spec fn spec_extract_project_name_vscode(title: Seq<char>, cfg: EditorConfig) -> Seq<
    char,
> {
    let parts = spec_split(title, spec_title_separator());
    if parts.len() == 3 {
        parts[1]
    } else if parts.len() == 2 {
        if seq_contains(parts[1], cfg.display_name@) || parts[1] == cfg.app_name@ {
            parts[0]
        } else {
            parts[1]
        }
    } else if parts.len() == 1 {
        if seq_contains(parts[0], cfg.display_name@) || parts[0] == cfg.app_name@ {
            "New Window"@
        } else {
            parts[0]
        }
    } else {
        title
    }
}

/// Extract the project name from a window title (VSCode-family grammar).
pub fn extract_project_name(title: &str, config: &EditorConfig) -> (r: String)
    ensures
        r@ == spec_extract_project_name_vscode(title@, *config),
{
    let tchars = str_chars(title);
    let sep = title_separator_chars();
    let parts = chars_split(&tchars, &sep);
    let ghost sparts = spec_split(title@, spec_title_separator());
    proof {
        assert(parts.deep_view() == sparts);
        assert forall|k: int| 0 <= k < parts@.len() implies parts@[k]@ == sparts[k] by {
            assert(parts@[k]@ =~= parts.deep_view()[k]);
        }
    }
    let display = str_chars(config.display_name);
    let app = str_chars(config.app_name);
    if parts.len() == 3 {
        chars_string(&parts[1])
    } else if parts.len() == 2 {
        if chars_contains(&parts[1], &display) || chars_eq(&parts[1], &app) {
            chars_string(&parts[0])
        } else {
            chars_string(&parts[1])
        }
    } else if parts.len() == 1 {
        if chars_contains(&parts[0], &display) || chars_eq(&parts[0], &app) {
            let w = str_chars("New Window");
            chars_string(&w)
        } else {
            chars_string(&parts[0])
        }
    } else {
        chars_string(&tchars)
    }
}

/// The scripting condition that recognizes a supported editor (or this
/// tab manager) as the frontmost application.
pub fn build_active_check_condition() -> (r: String)
    ensures
        r@ == "(frontApp is \"Code\") or (frontApp is \"Electron\") or (frontApp contains \"Visual Studio Code\") or (frontApp is \"Cursor\") or (frontApp is \"zed\") or (frontApp is \"Editor Tab Manager\") or (frontApp is \"editor-tab-manager\")"@,
{
    proof {
        reveal_strlit("(frontApp is \"Code\")");
        reveal_strlit(" or (frontApp is \"Electron\")");
        reveal_strlit(" or (frontApp contains \"Visual Studio Code\")");
        reveal_strlit(" or (frontApp is \"Cursor\")");
        reveal_strlit(" or (frontApp is \"zed\")");
        reveal_strlit(" or (frontApp is \"Editor Tab Manager\")");
        reveal_strlit(" or (frontApp is \"editor-tab-manager\")");
        reveal_strlit(
            "(frontApp is \"Code\") or (frontApp is \"Electron\") or (frontApp contains \"Visual Studio Code\") or (frontApp is \"Cursor\") or (frontApp is \"zed\") or (frontApp is \"Editor Tab Manager\") or (frontApp is \"editor-tab-manager\")",
        );
    }
    let mut out = str_chars("(frontApp is \"Code\")");
    let p1 = str_chars(" or (frontApp is \"Electron\")");
    chars_append(&mut out, &p1);
    let p2 = str_chars(" or (frontApp contains \"Visual Studio Code\")");
    chars_append(&mut out, &p2);
    let p3 = str_chars(" or (frontApp is \"Cursor\")");
    chars_append(&mut out, &p3);
    let p4 = str_chars(" or (frontApp is \"zed\")");
    chars_append(&mut out, &p4);
    let p5 = str_chars(" or (frontApp is \"Editor Tab Manager\")");
    chars_append(&mut out, &p5);
    let p6 = str_chars(" or (frontApp is \"editor-tab-manager\")");
    chars_append(&mut out, &p6);
    proof {
        assert(out@
            =~= "(frontApp is \"Code\") or (frontApp is \"Electron\") or (frontApp contains \"Visual Studio Code\") or (frontApp is \"Cursor\") or (frontApp is \"zed\") or (frontApp is \"Editor Tab Manager\") or (frontApp is \"editor-tab-manager\")"@);
    }
    chars_string(&out)
}

/// A fresh copy of an index-keyed window list.
fn copy_windows(src: &Vec<EditorWindow>) -> (r: Vec<EditorWindow>)
    ensures
        vwindows_view(r@) == vwindows_view(src@),
{
    let mut out: Vec<EditorWindow> = Vec::new();
    let mut t: usize = 0;
    while t < src.len()
        invariant
            t <= src@.len(),
            out@.len() == t,
            forall|j: int| 0 <= j < t ==> vwindows_view(out@)[j] == vwindows_view(src@)[j],
        decreases src@.len() - t,
    {
        let w = &src[t];
        let ghost prev = out@;
        out.push(EditorWindow { id: w.id, name: w.name.clone(), path: w.path.clone() });
        proof {
            assert(vwindows_view(out@)[t as int] == vwindows_view(src@)[t as int]);
            assert forall|j: int| 0 <= j < t implies vwindows_view(out@)[j] == vwindows_view(
                src@,
            )[j] by {
                assert(out@[j] == prev[j]);
                assert(vwindows_view(out@)[j] == vwindows_view(prev)[j]);
            }
        }
        t = t + 1;
    }
    proof {
        assert(vwindows_view(out@) =~~= vwindows_view(src@));
    }
    out
}

/// A fresh copy of an index-keyed editor state.
fn copy_state(st: &EditorState) -> (r: EditorState)
    ensures
        r.is_active == st.is_active,
        vwindows_view(r.windows@) == vwindows_view(st.windows@),
        r.active_index == st.active_index,
{
    let ws = copy_windows(&st.windows);
    EditorState { is_active: st.is_active, windows: ws, active_index: st.active_index }
}

/// The index of the editor with bundle id `b` in lookup order.
pub open spec fn spec_editor_index(b: Seq<char>) -> int {
    if b == "com.microsoft.VSCode"@ {
        0
    } else if b == "com.todesktop.230313mzl4w4u92"@ {
        1
    } else {
        2
    }
}

/// The state of the editor with bundle id `bundle_id`, out of the
/// per-editor states in lookup order; an unknown bundle id yields an
/// inactive, empty state.
pub fn get_editor_state(bundle_id: &str, states: &Vec<EditorState>) -> (r: EditorState)
    requires
        states@.len() == 3,
    ensures
        !spec_is_supported_bundle(bundle_id@) ==> !r.is_active && r.windows@.len() == 0
            && r.active_index is None,
        spec_is_supported_bundle(bundle_id@) ==> ({
            let st = states@[spec_editor_index(bundle_id@)];
            &&& r.is_active == st.is_active
            &&& vwindows_view(r.windows@) == vwindows_view(st.windows@)
            &&& r.active_index == st.active_index
        }),
{
    proof {
        reveal_strlit("com.microsoft.VSCode");
        reveal_strlit("com.todesktop.230313mzl4w4u92");
        reveal_strlit("dev.zed.Zed");
        assert("com.microsoft.VSCode"@.len() == 20);
        assert("com.todesktop.230313mzl4w4u92"@.len() == 29);
        assert("dev.zed.Zed"@.len() == 11);
    }
    if !crate::editor_config::is_supported_editor(bundle_id) {
        return EditorState { is_active: false, windows: Vec::new(), active_index: None };
    }
    if str_eq(bundle_id, "com.microsoft.VSCode") {
        copy_state(&states[0])
    } else if str_eq(bundle_id, "com.todesktop.230313mzl4w4u92") {
        copy_state(&states[1])
    } else {
        copy_state(&states[2])
    }
}

/// The first per-editor state with a window or the active flag set, or
/// the first editor's state.
pub open spec fn spec_select_state(ss: Seq<EditorState>, k: int) -> int
    decreases ss.len() - k when 0 <= k <= ss.len()
{
    if k >= ss.len() {
        0
    } else if ss[k].windows@.len() > 0 || ss[k].is_active {
        k
    } else {
        spec_select_state(ss, k + 1)
    }
}

/// The state of the first running editor, out of the per-editor states in
/// lookup order (the first editor's state when none is running).
pub fn get_vscode_state(states: &Vec<EditorState>) -> (r: EditorState)
    requires
        states@.len() > 0,
    ensures
        ({
            let sel = spec_select_state(states@, 0);
            &&& 0 <= sel < states@.len()
            &&& r.is_active == states@[sel].is_active
            &&& vwindows_view(r.windows@) == vwindows_view(states@[sel].windows@)
            &&& r.active_index == states@[sel].active_index
        }),
{
    let n = states.len();
    let mut k: usize = 0;
    while k < n
        invariant
            n == states@.len(),
            k <= n,
            spec_select_state(states@, 0) == spec_select_state(states@, k as int),
        decreases n - k,
    {
        if states[k].windows.len() > 0 || states[k].is_active {
            return copy_state(&states[k]);
        }
        k = k + 1;
    }
    copy_state(&states[0])
}

/// The windows of the editor with bundle id `bundle_id`, out of the
/// per-editor lists in lookup order; empty for an unknown bundle id.
pub fn get_editor_windows(bundle_id: &str, lists: &Vec<Vec<EditorWindow>>) -> (r: Vec<
    EditorWindow,
>)
    requires
        lists@.len() == 3,
    ensures
        !spec_is_supported_bundle(bundle_id@) ==> r@.len() == 0,
        spec_is_supported_bundle(bundle_id@) ==> vwindows_view(r@) == vwindows_view(
            lists@[spec_editor_index(bundle_id@)]@,
        ),
{
    proof {
        reveal_strlit("com.microsoft.VSCode");
        reveal_strlit("com.todesktop.230313mzl4w4u92");
        reveal_strlit("dev.zed.Zed");
        assert("com.microsoft.VSCode"@.len() == 20);
        assert("com.todesktop.230313mzl4w4u92"@.len() == 29);
        assert("dev.zed.Zed"@.len() == 11);
    }
    if !crate::editor_config::is_supported_editor(bundle_id) {
        return Vec::new();
    }
    if str_eq(bundle_id, "com.microsoft.VSCode") {
        copy_windows(&lists[0])
    } else if str_eq(bundle_id, "com.todesktop.230313mzl4w4u92") {
        copy_windows(&lists[1])
    } else {
        copy_windows(&lists[2])
    }
}

/// The first nonempty per-editor window list, if any.
pub open spec fn spec_first_windows(ls: Seq<Vec<EditorWindow>>, k: int) -> Option<int>
    decreases ls.len() - k when 0 <= k <= ls.len()
{
    if k >= ls.len() {
        None
    } else if ls[k]@.len() > 0 {
        Some(k)
    } else {
        spec_first_windows(ls, k + 1)
    }
}

/// The windows of the first running editor, out of the per-editor lists
/// in lookup order; empty when no editor has a window.
pub fn get_vscode_windows(lists: &Vec<Vec<EditorWindow>>) -> (r: Vec<EditorWindow>)
    ensures
        (match spec_first_windows(lists@, 0) {
            Some(k) => vwindows_view(r@) == vwindows_view(lists@[k]@),
            None => r@.len() == 0,
        }),
{
    let n = lists.len();
    let mut k: usize = 0;
    while k < n
        invariant
            n == lists@.len(),
            k <= n,
            spec_first_windows(lists@, 0) == spec_first_windows(lists@, k as int),
        decreases n - k,
    {
        if lists[k].len() > 0 {
            return copy_windows(&lists[k]);
        }
        k = k + 1;
    }
    Vec::new()
}

/// A window list holds a window with id `id`.
pub open spec fn spec_has_window(ws: Seq<EditorWindow>, id: i32) -> bool {
    exists|j: int| 0 <= j < ws.len() && ws[j].id == id
}

/// The first per-editor list holding a window with id `id`, if any.
pub open spec fn spec_first_with_id(ls: Seq<Vec<EditorWindow>>, id: i32, k: int) -> Option<int>
    decreases ls.len() - k when 0 <= k <= ls.len()
{
    if k >= ls.len() {
        None
    } else if spec_has_window(ls[k]@, id) {
        Some(k)
    } else {
        spec_first_with_id(ls, id, k + 1)
    }
}

/// Which editor (by index in lookup order) a focus request for window
/// `window_id` targets: the first editor whose windows hold that id, or
/// the first editor by default.
pub fn focus_vscode_window(window_id: i32, lists: &Vec<Vec<EditorWindow>>) -> (r: usize)
    ensures
        (match spec_first_with_id(lists@, window_id, 0) {
            Some(k) => r as int == k,
            None => r == 0,
        }),
{
    choose_editor_for_window(window_id, lists)
}

/// Which editor a close request for window `window_id` targets (same
/// choice rule as focusing).
pub fn close_vscode_window(window_id: i32, lists: &Vec<Vec<EditorWindow>>) -> (r: usize)
    ensures
        (match spec_first_with_id(lists@, window_id, 0) {
            Some(k) => r as int == k,
            None => r == 0,
        }),
{
    choose_editor_for_window(window_id, lists)
}

/// Which editor an open-new-window request targets: the first editor with
/// a window, or the first editor by default.
pub fn open_new_vscode(lists: &Vec<Vec<EditorWindow>>) -> (r: usize)
    ensures
        (match spec_first_windows(lists@, 0) {
            Some(k) => r as int == k,
            None => r == 0,
        }),
{
    let n = lists.len();
    let mut k: usize = 0;
    while k < n
        invariant
            n == lists@.len(),
            k <= n,
            spec_first_windows(lists@, 0) == spec_first_windows(lists@, k as int),
        decreases n - k,
    {
        if lists[k].len() > 0 {
            return k;
        }
        k = k + 1;
    }
    0
}

/// The first editor whose windows hold `window_id`, or the first editor.
fn choose_editor_for_window(window_id: i32, lists: &Vec<Vec<EditorWindow>>) -> (r: usize)
    ensures
        (match spec_first_with_id(lists@, window_id, 0) {
            Some(k) => r as int == k,
            None => r == 0,
        }),
{
    let n = lists.len();
    let mut k: usize = 0;
    while k < n
        invariant
            n == lists@.len(),
            k <= n,
            spec_first_with_id(lists@, window_id, 0) == spec_first_with_id(
                lists@,
                window_id,
                k as int,
            ),
        decreases n - k,
    {
        let ws = &lists[k];
        let mut t: usize = 0;
        let mut found = false;
        while t < ws.len()
            invariant
                t <= ws@.len(),
                found == exists|j: int| 0 <= j < t && ws@[j].id == window_id,
            decreases ws@.len() - t,
        {
            if ws[t].id == window_id {
                found = true;
                proof {
                    assert(ws@[t as int].id == window_id);
                }
            }
            t = t + 1;
        }
        proof {
            assert(found == spec_has_window(lists@[k as int]@, window_id));
        }
        if found {
            return k;
        }
        k = k + 1;
    }
    0
}

} // verus!
