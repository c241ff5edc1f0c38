//! Editor window discovery and state reconciliation.
//!
//! Enumeration, workspace-history scanning and accessibility queries happen
//! outside this crate; they hand in plain [`WindowRecord`] values, the
//! workspace entries read from disk, and a [`GitModel`] of the directories
//! involved.  Everything from there on — filtering transient windows,
//! deriving project names, resolving project paths through the cache with
//! its fallbacks, and looking up git branches — is verified.

use vstd::prelude::*;
use crate::editor_config::{EditorConfig, get_editor_by_bundle_id, spec_is_supported_bundle};
use crate::git::{GitModel, spec_find_git_root, spec_get_git_branch, spec_has_git, spec_parent};
use crate::git::{chars_parent, find_git_root, get_git_branch};
use crate::strutil::{chars_append, chars_eq, chars_string, str_chars, str_eq};
use crate::title::{extract_project_name, spec_extract_project_name};

verus! {

/// One live window of a target process, as enumeration reported it.
pub struct WindowRecord {
    /// Stable window id (not a list index).
    pub window_id: u32,
    /// Raw accessibility title.
    pub title: String,
    /// Whether this window is the frontmost of its application.
    pub is_frontmost: bool,
    /// The window's open-document path, when the accessibility query
    /// yielded one (only reliable for frontmost windows).
    pub document_path: Option<String>,
}

/// One editor window as exposed to the front end.
pub struct EditorWindow {
    /// Stable window id.
    pub id: u32,
    /// Derived project name.
    pub name: String,
    /// Resolved absolute project path, or empty when unresolved.
    pub path: String,
    /// Resolved git branch label, when the path has a repository.
    pub branch: Option<String>,
}

/// The state of one editor's windows.
pub struct EditorState {
    /// Whether a supported editor or this application is frontmost.
    pub is_active: bool,
    /// The editor's windows, in enumeration order.
    pub windows: Vec<EditorWindow>,
    /// Index into `windows` of the frontmost window, if any.
    pub active_index: Option<usize>,
}

/// The view of one window record.
pub struct RecordView {
    pub id: u32,
    pub title: Seq<char>,
    pub frontmost: bool,
    pub doc: Option<Seq<char>>,
}

/// The view of one derived window.
pub struct WindowView {
    pub id: u32,
    pub name: Seq<char>,
    pub path: Seq<char>,
    pub branch: Option<Seq<char>>,
}

/// The view of a record list.
pub open spec fn records_view(rs: Seq<WindowRecord>) -> Seq<RecordView> {
    Seq::new(
        rs.len(),
        |i: int|
            RecordView {
                id: rs[i].window_id,
                title: rs[i].title@,
                frontmost: rs[i].is_frontmost,
                doc: match rs[i].document_path {
                    None => None,
                    Some(d) => Some(d@),
                },
            },
    )
}

/// The view of a derived window list.
pub open spec fn windows_view(ws: Seq<EditorWindow>) -> Seq<WindowView> {
    Seq::new(
        ws.len(),
        |i: int|
            WindowView {
                id: ws[i].id,
                name: ws[i].name@,
                path: ws[i].path@,
                branch: match ws[i].branch {
                    None => None,
                    Some(b) => Some(b@),
                },
            },
    )
}

/// One name → path association in the project path cache.
pub struct CacheEntry {
    /// Derived project name.
    pub name: String,
    /// Resolved absolute path.
    pub path: String,
}

/// One workspace-history record: a project folder's name and full path.
pub struct WorkspaceEntry {
    /// The folder's final path segment.
    pub name: String,
    /// The folder's full path.
    pub path: String,
}

/// A name → path pair, at the level of views.
pub struct CachePair {
    pub name: Seq<char>,
    pub path: Seq<char>,
}

/// The view of a cache entry list.
pub open spec fn cache_pairs(es: Seq<CacheEntry>) -> Seq<CachePair> {
    Seq::new(es.len(), |i: int| CachePair { name: es[i].name@, path: es[i].path@ })
}

/// The view of a workspace entry list.
pub open spec fn workspace_pairs(es: Seq<WorkspaceEntry>) -> Seq<CachePair> {
    Seq::new(es.len(), |i: int| CachePair { name: es[i].name@, path: es[i].path@ })
}

/// The path of the first pair named `name` at or after `i`, if any.
pub open spec fn spec_pairs_find(ps: Seq<CachePair>, name: Seq<char>, i: int) -> Option<Seq<char>>
    decreases ps.len() - i when 0 <= i <= ps.len()
{
    if i >= ps.len() {
        None
    } else if ps[i].name == name {
        Some(ps[i].path)
    } else {
        spec_pairs_find(ps, name, i + 1)
    }
}

/// The cache pairs after bulk-loading the workspace entries: an entry is
/// added only when its name is not yet present (first writer wins).
pub open spec fn spec_load(ps: Seq<CachePair>, ws: Seq<CachePair>) -> Seq<CachePair>
    decreases ws.len(),
{
    if ws.len() == 0 {
        ps
    } else {
        let prev = spec_load(ps, ws.drop_last());
        if spec_pairs_find(prev, ws.last().name, 0) is Some {
            prev
        } else {
            prev.push(ws.last())
        }
    }
}

/// The candidate path `<cached path>/<name>`.
pub open spec fn spec_candidate(path: Seq<char>, name: Seq<char>) -> Seq<char> {
    path + seq!['/'] + name
}

/// The first cached path (at or after `i`) whose `<path>/<name>`
/// subdirectory holds a `.git` entry, as that candidate path.
pub open spec fn spec_subdir_probe(
    fs: GitModel,
    ps: Seq<CachePair>,
    name: Seq<char>,
    i: int,
) -> Option<Seq<char>>
    decreases ps.len() - i when 0 <= i <= ps.len()
{
    if i >= ps.len() {
        None
    } else if spec_has_git(fs, spec_candidate(ps[i].path, name)) {
        Some(spec_candidate(ps[i].path, name))
    } else {
        spec_subdir_probe(fs, ps, name, i + 1)
    }
}

/// The outcome of one resolution: the cache pairs afterwards, whether the
/// editor's bulk load has happened, and the resolved path.
pub struct ResolveOutcome {
    pub pairs: Seq<CachePair>,
    pub loaded: bool,
    pub path: Option<Seq<char>>,
}

/// Resolve a project name to a path: cache lookup, then (once per editor)
/// a bulk load of the workspace history and a re-check, then a probe of
/// cached paths' subdirectories for a repository named `name`, then the
/// open-document fallback (its parent's nearest git root).  Every hit
/// beyond the first stage is memoized.
pub open spec fn spec_resolve(
    ps: Seq<CachePair>,
    loaded: bool,
    name: Seq<char>,
    ws: Seq<CachePair>,
    fs: GitModel,
    doc: Option<Seq<char>>,
) -> ResolveOutcome {
    match spec_pairs_find(ps, name, 0) {
        Some(p) => ResolveOutcome { pairs: ps, loaded, path: Some(p) },
        None => {
            let ps1 = if !loaded {
                spec_load(ps, ws)
            } else {
                ps
            };
            match spec_pairs_find(ps1, name, 0) {
                Some(p) => ResolveOutcome { pairs: ps1, loaded: true, path: Some(p) },
                None => match spec_subdir_probe(fs, ps1, name, 0) {
                    Some(cand) => ResolveOutcome {
                        pairs: ps1.push(CachePair { name, path: cand }),
                        loaded: true,
                        path: Some(cand),
                    },
                    None => match doc {
                        None => ResolveOutcome { pairs: ps1, loaded: true, path: None },
                        Some(d) => match spec_parent(d) {
                            None => ResolveOutcome { pairs: ps1, loaded: true, path: None },
                            Some(par) => match spec_find_git_root(par, fs) {
                                None => ResolveOutcome { pairs: ps1, loaded: true, path: None },
                                Some(root) => ResolveOutcome {
                                    pairs: ps1.push(CachePair { name, path: root }),
                                    loaded: true,
                                    path: Some(root),
                                },
                            },
                        },
                    },
                },
            }
        },
    }
}

/// Process-wide project name → path cache with a per-editor bulk-load
/// flag.  Entries are only ever added, never evicted.
pub struct ProjectPathCache {
    entries: Vec<CacheEntry>,
    initialized: Vec<String>,
}

impl ProjectPathCache {
    /// The cached name → path pairs, in insertion order.
    pub closed spec fn pairs(&self) -> Seq<CachePair> {
        cache_pairs(self.entries@)
    }

    /// Whether the bulk load has run for the editor `id`.
    pub closed spec fn spec_initialized(&self, id: Seq<char>) -> bool {
        exists|i: int| 0 <= i < self.initialized@.len() && self.initialized@[i]@ == id
    }

    /// An empty cache with no editor bulk-loaded.
    pub fn new() -> (r: ProjectPathCache)
        ensures
            r.pairs() == Seq::<CachePair>::empty(),
            forall|id: Seq<char>| !r.spec_initialized(id),
    {
        let r = ProjectPathCache { entries: Vec::new(), initialized: Vec::new() };
        proof {
            assert(cache_pairs(r.entries@) =~= Seq::<CachePair>::empty());
        }
        r
    }

    /// The cached path for `name`, if any (first entry wins).
    fn lookup(&self, name: &Vec<char>) -> (r: Option<String>)
        ensures
            match r {
                Some(p) => spec_pairs_find(self.pairs(), name@, 0) == Some(p@),
                None => spec_pairs_find(self.pairs(), name@, 0) is None,
            },
    {
        let mut k: usize = 0;
        while k < self.entries.len()
            invariant
                k <= self.entries@.len(),
                spec_pairs_find(self.pairs(), name@, 0) == spec_pairs_find(
                    self.pairs(),
                    name@,
                    k as int,
                ),
            decreases self.entries@.len() - k,
        {
            let ec = str_chars(self.entries[k].name.as_str());
            if chars_eq(&ec, name) {
                proof {
                    assert(self.pairs()[k as int].name == name@);
                }
                return Some(self.entries[k].path.clone());
            }
            proof {
                assert(self.pairs()[k as int].name != name@);
            }
            k = k + 1;
        }
        None
    }

    /// Append a name → path entry.
    fn push_entry(&mut self, name: &Vec<char>, path: &Vec<char>)
        ensures
            final(self).pairs() == old(self).pairs().push(
                CachePair { name: name@, path: path@ },
            ),
            forall|id: Seq<char>|
                final(self).spec_initialized(id) == old(self).spec_initialized(id),
    {
        let e = CacheEntry { name: chars_string(name), path: chars_string(path) };
        self.entries.push(e);
        proof {
            assert(cache_pairs(self.entries@) =~= cache_pairs(old(self).entries@).push(
                CachePair { name: name@, path: path@ },
            ));
            assert(self.initialized@ == old(self).initialized@);
            assert forall|id: Seq<char>|
                self.spec_initialized(id) == old(self).spec_initialized(id) by {
                if self.spec_initialized(id) {
                    let i = choose|i: int|
                        0 <= i < self.initialized@.len() && self.initialized@[i]@ == id;
                    assert(old(self).initialized@[i]@ == id);
                }
                if old(self).spec_initialized(id) {
                    let i = choose|i: int|
                        0 <= i < old(self).initialized@.len() && old(self).initialized@[i]@ == id;
                    assert(self.initialized@[i]@ == id);
                }
            }
        }
    }

    /// Whether the bulk load has run for editor `id`.
    fn is_initialized(&self, id: &str) -> (r: bool)
        ensures
            r == self.spec_initialized(id@),
    {
        let idc = str_chars(id);
        let mut k: usize = 0;
        while k < self.initialized.len()
            invariant
                idc@ == id@,
                k <= self.initialized@.len(),
                forall|i: int| 0 <= i < k ==> self.initialized@[i]@ != id@,
            decreases self.initialized@.len() - k,
        {
            let ec = str_chars(self.initialized[k].as_str());
            if chars_eq(&ec, &idc) {
                return true;
            }
            k = k + 1;
        }
        false
    }

    /// Record that the bulk load has run for editor `id`.
    fn mark_initialized(&mut self, id: &str)
        ensures
            final(self).pairs() == old(self).pairs(),
            final(self).spec_initialized(id@),
            forall|o: Seq<char>|
                o != id@ ==> final(self).spec_initialized(o) == old(self).spec_initialized(o),
    {
        let ghost prev = self.initialized@;
        self.initialized.push(id.to_owned());
        proof {
            assert(self.initialized@[prev.len() as int]@ == id@);
            assert(cache_pairs(self.entries@) =~= cache_pairs(self.entries@));
            assert forall|o: Seq<char>| o != id@ implies final(self).spec_initialized(o) == old(
                self,
            ).spec_initialized(o) by {
                if old(self).spec_initialized(o) {
                    let i = choose|i: int| 0 <= i < prev.len() && prev[i]@ == o;
                    assert(self.initialized@[i]@ == o);
                } else if final(self).spec_initialized(o) {
                    let i = choose|i: int|
                        0 <= i < self.initialized@.len() && self.initialized@[i]@ == o;
                    assert(i < prev.len());
                    assert(prev[i]@ == o);
                }
            }
        }
    }
}

/// Resolve a project name to a full path, memoizing every hit: cache
/// lookup, one-time bulk load of the editor's workspace history, a probe
/// for `<cached path>/<name>` repositories, then the open-document
/// fallback.
pub fn resolve_project_path(
    cache: &mut ProjectPathCache,
    project_name: &str,
    editor_id: &str,
    workspace_paths: &Vec<WorkspaceEntry>,
    fs: &GitModel,
    document_path: Option<&str>,
) -> (r: Option<String>)
    ensures
        ({
            let outcome = spec_resolve(
                old(cache).pairs(),
                old(cache).spec_initialized(editor_id@),
                project_name@,
                workspace_pairs(workspace_paths@),
                *fs,
                match document_path {
                    None => None,
                    Some(d) => Some(d@),
                },
            );
            &&& final(cache).pairs() == outcome.pairs
            &&& final(cache).spec_initialized(editor_id@) == outcome.loaded
            &&& (match r {
                Some(p) => outcome.path == Some(p@),
                None => outcome.path is None,
            })
            &&& (forall|o: Seq<char>|
                o != editor_id@ ==> final(cache).spec_initialized(o) == old(
                    cache,
                ).spec_initialized(o))
        }),
{
    let name = str_chars(project_name);
    match cache.lookup(&name) {
        Some(p) => {
            return Some(p);
        },
        None => {},
    }
    let ghost wsp = workspace_pairs(workspace_paths@);
    let ghost docv: Option<Seq<char>> = match document_path {
        None => None,
        Some(d) => Some(d@),
    };
    let ghost old_pairs = old(cache).pairs();
    let ghost old_loaded = old(cache).spec_initialized(editor_id@);
    if !cache.is_initialized(editor_id) {
        let ghost base = cache.pairs();
        let mut k: usize = 0;
        proof {
            assert(wsp.take(0) =~= Seq::<CachePair>::empty());
            assert(spec_load(base, wsp.take(0)) == base);
        }
        while k < workspace_paths.len()
            invariant
                k <= workspace_paths@.len(),
                wsp == workspace_pairs(workspace_paths@),
                base == old(cache).pairs(),
                cache.pairs() == spec_load(base, wsp.take(k as int)),
                forall|id: Seq<char>|
                    cache.spec_initialized(id) == old(cache).spec_initialized(id),
            decreases workspace_paths@.len() - k,
        {
            proof {
                assert(wsp.take(k as int + 1).drop_last() =~= wsp.take(k as int));
                assert(wsp.take(k as int + 1).last() == wsp[k as int]);
            }
            let wname = str_chars(workspace_paths[k].name.as_str());
            proof {
                assert(wname@ == wsp[k as int].name);
            }
            match cache.lookup(&wname) {
                Some(_) => {},
                None => {
                    let wpath = str_chars(workspace_paths[k].path.as_str());
                    cache.push_entry(&wname, &wpath);
                    proof {
                        assert(CachePair { name: wname@, path: wpath@ } == wsp[k as int]);
                    }
                },
            }
            k = k + 1;
        }
        proof {
            assert(wsp.take(workspace_paths@.len() as int) =~= wsp);
        }
        cache.mark_initialized(editor_id);
    }
    let ghost ps1: Seq<CachePair> = if !old_loaded {
        spec_load(old_pairs, wsp)
    } else {
        old_pairs
    };
    proof {
        assert(cache.pairs() == ps1);
        assert(cache.spec_initialized(editor_id@));
        assert(forall|o: Seq<char>|
            o != editor_id@ ==> cache.spec_initialized(o) == old(cache).spec_initialized(o));
    }
    match cache.lookup(&name) {
        Some(p) => {
            return Some(p);
        },
        None => {},
    }
    let n = cache.entries.len();
    let mut k: usize = 0;
    while k < n
        invariant
            n == cache.entries@.len(),
            name@ == project_name@,
            k <= n,
            wsp == workspace_pairs(workspace_paths@),
            docv == (match document_path {
                None => None::<Seq<char>>,
                Some(d) => Some(d@),
            }),
            old_pairs == old(cache).pairs(),
            old_loaded == old(cache).spec_initialized(editor_id@),
            ps1 == (if !old_loaded {
                spec_load(old_pairs, wsp)
            } else {
                old_pairs
            }),
            cache.pairs() == ps1,
            cache.spec_initialized(editor_id@),
            forall|o: Seq<char>|
                o != editor_id@ ==> cache.spec_initialized(o) == old(cache).spec_initialized(o),
            spec_pairs_find(old_pairs, name@, 0) is None,
            spec_pairs_find(ps1, name@, 0) is None,
            spec_subdir_probe(*fs, ps1, name@, 0) == spec_subdir_probe(*fs, ps1, name@, k as int),
        decreases n - k,
    {
        let mut cand = str_chars(cache.entries[k].path.as_str());
        cand.push('/');
        chars_append(&mut cand, &name);
        proof {
            assert(cand@ =~= spec_candidate(ps1[k as int].path, name@));
        }
        if git_dir_exists(fs, &cand) {
            let cand_string = chars_string(&cand);
            cache.push_entry(&name, &cand);
            proof {
                assert(spec_subdir_probe(*fs, ps1, name@, k as int) == Some(cand@));
            }
            return Some(cand_string);
        }
        k = k + 1;
    }
    let doc = match document_path {
        None => {
            return None;
        },
        Some(d) => d,
    };
    let doc_chars = str_chars(doc);
    let parent = match chars_parent(&doc_chars) {
        None => {
            return None;
        },
        Some(p) => p,
    };
    let parent_string = chars_string(&parent);
    let root = match find_git_root(parent_string.as_str(), fs) {
        None => {
            return None;
        },
        Some(root) => root,
    };
    let root_chars = str_chars(root.as_str());
    cache.push_entry(&name, &root_chars);
    Some(root)
}

/// Whether the model records a `.git` entry for directory `p`.
fn git_dir_exists(m: &GitModel, p: &Vec<char>) -> (r: bool)
    ensures
        r == spec_has_git(*m, p@),
{
    let mut k: usize = 0;
    while k < m.entries.len()
        invariant
            k <= m.entries@.len(),
            forall|j: int| 0 <= j < k ==> m.entries@[j].path@ != p@,
        decreases m.entries@.len() - k,
    {
        let ep = str_chars(m.entries[k].path.as_str());
        if chars_eq(&ep, p) {
            return true;
        }
        k = k + 1;
    }
    false
}

/// The home-relative workspace-history directory of the editor `id`, for
/// the editors that persist one.
pub open spec fn spec_workspace_storage_subpath(id: Seq<char>) -> Option<Seq<char>> {
    if id == "cursor"@ {
        Some("Library/Application Support/Cursor/User/workspaceStorage"@)
    } else if id == "vscode"@ {
        Some("Library/Application Support/Code/User/workspaceStorage"@)
    } else {
        None
    }
}

/// The editor's workspace-history directory, relative to the user's home;
/// none for editors that keep no such store.
pub fn get_workspace_storage_dir(editor_id: &str) -> (r: Option<String>)
    ensures
        match r {
            Some(p) => spec_workspace_storage_subpath(editor_id@) == Some(p@),
            None => spec_workspace_storage_subpath(editor_id@) is None,
        },
{
    if str_eq(editor_id, "cursor") {
        Some("Library/Application Support/Cursor/User/workspaceStorage".to_owned())
    } else if str_eq(editor_id, "vscode") {
        Some("Library/Application Support/Code/User/workspaceStorage".to_owned())
    } else {
        None
    }
}

/// The percent-decoded form of `s`, or `s` itself when the decoded bytes
/// are not valid text.
pub open spec fn spec_percent_decoded(s: Seq<char>) -> Seq<char> {
    let b = crate::percent::spec_percent_decode(vstd::utf8::encode_utf8(s));
    if vstd::utf8::valid_utf8(b) {
        vstd::utf8::decode_utf8(b)
    } else {
        s
    }
}

/// The cache entry a workspace-history record's `folder` URI yields: the
/// "file://" scheme is stripped, the rest percent-decoded, and the
/// decoded path's final segment becomes the project name; a record whose
/// path has no final segment yields none.
pub open spec fn spec_workspace_folder(folder: Seq<char>) -> Option<CachePair> {
    let stripped = if crate::strutil::seq_starts_with(folder, "file://"@) {
        folder.skip(7)
    } else {
        folder
    };
    let decoded = spec_percent_decoded(stripped);
    let base = crate::status::spec_strip_slash(decoded);
    let i = crate::git::spec_last_slash(base);
    let name = if i >= 0 {
        base.skip(i + 1)
    } else {
        base
    };
    if name.len() == 0 {
        None
    } else {
        Some(CachePair { name, path: decoded })
    }
}

/// Turn one workspace-history `folder` URI into a name → path entry.
pub fn workspace_folder_entry(folder: &str) -> (r: Option<WorkspaceEntry>)
    ensures
        match r {
            Some(e) => spec_workspace_folder(folder@) == Some(
                CachePair { name: e.name@, path: e.path@ },
            ),
            None => spec_workspace_folder(folder@) is None,
        },
{
    proof {
        reveal_strlit("file://");
    }
    let fc = str_chars(folder);
    let prefix = str_chars("file://");
    let stripped = if crate::strutil::chars_starts_with(&fc, &prefix) {
        let s = crate::strutil::chars_subrange(&fc, 7, fc.len());
        proof {
            assert(s@ =~= folder@.skip(7));
        }
        s
    } else {
        fc
    };
    let stripped_string = chars_string(&stripped);
    let decoded = crate::percent::percent_decode(stripped_string.as_str());
    let dc = str_chars(decoded.as_str());
    let base = crate::status::chars_strip_slash(&dc);
    let n = base.len();
    let mut i: usize = n;
    while i > 0 && base[i - 1] != '/'
        invariant
            n == base@.len(),
            i <= n,
            forall|j: int| i <= j < n ==> base@[j] != '/',
        decreases i,
    {
        i = i - 1;
    }
    proof {
        crate::git::lemma_last_slash(base@);
        if i == 0 {
            if crate::git::spec_last_slash(base@) >= 0 {
                assert(base@[crate::git::spec_last_slash(base@)] != '/');
            }
        } else {
            assert(base@[i as int - 1] == '/');
            if crate::git::spec_last_slash(base@) != i - 1 {
                if crate::git::spec_last_slash(base@) > i - 1 {
                    assert(base@[crate::git::spec_last_slash(base@)] != '/');
                }
            }
        }
    }
    let name = crate::strutil::chars_subrange(&base, i, n);
    proof {
        if i == 0 {
            assert(crate::git::spec_last_slash(base@) < 0);
            assert(name@ =~= base@);
        } else {
            assert(crate::git::spec_last_slash(base@) == i - 1);
            assert(name@ =~= base@.skip(i as int));
        }
    }
    if name.len() == 0 {
        return None;
    }
    Some(WorkspaceEntry { name: chars_string(&name), path: decoded })
}

/// The branch label shown for a resolved path: the branch of the nearest
/// git root above it, or of the path itself when no ancestor has one.
pub open spec fn spec_branch_label(p: Seq<char>, fs: GitModel) -> Option<Seq<char>> {
    match spec_find_git_root(p, fs) {
        Some(root) => spec_get_git_branch(root, fs),
        None => spec_get_git_branch(p, fs),
    }
}

/// A title worth showing: nonempty and not the transient placeholder.
pub open spec fn spec_keep_title(title: Seq<char>) -> bool {
    title.len() > 0 && title != "Untitled"@
}

/// The outcome of building a window list: the derived windows, the active
/// index, and the cache state afterwards.
pub struct BuildOutcome {
    pub windows: Seq<WindowView>,
    pub active: Option<int>,
    pub pairs: Seq<CachePair>,
    pub loaded: bool,
}

/// Derive the window list from the raw records, in order: transient
/// windows (empty or placeholder titles) are dropped; each kept window
/// gets a project name from its title, a resolved path (threading the
/// cache), and a branch label; the active index tracks the frontmost
/// kept window.
pub open spec fn spec_build(
    records: Seq<RecordView>,
    cfg: EditorConfig,
    ps: Seq<CachePair>,
    loaded: bool,
    ws: Seq<CachePair>,
    fs: GitModel,
) -> BuildOutcome
    decreases records.len(),
{
    if records.len() == 0 {
        BuildOutcome { windows: seq![], active: None, pairs: ps, loaded }
    } else {
        let prev = spec_build(records.drop_last(), cfg, ps, loaded, ws, fs);
        let r = records.last();
        if !spec_keep_title(r.title) {
            prev
        } else {
            let name = spec_extract_project_name(r.title, cfg);
            let res = spec_resolve(prev.pairs, prev.loaded, name, ws, fs, r.doc);
            let path = match res.path {
                None => Seq::<char>::empty(),
                Some(p) => p,
            };
            let branch = match res.path {
                None => None,
                Some(p) => spec_branch_label(p, fs),
            };
            let windows = prev.windows.push(WindowView { id: r.id, name, path, branch });
            BuildOutcome {
                windows,
                active: if r.frontmost {
                    Some(windows.len() - 1)
                } else {
                    prev.active
                },
                pairs: res.pairs,
                loaded: res.loaded,
            }
        }
    }
}

/// `st` is the editor state that building `rv` from cache state
/// `(ps0, loaded0)` yields, with `(ps1, loaded1)` the cache state after.
pub open spec fn spec_state_ok(
    st: EditorState,
    is_active: bool,
    cfg: EditorConfig,
    rv: Seq<RecordView>,
    ps0: Seq<CachePair>,
    loaded0: bool,
    ws: Seq<CachePair>,
    fs: GitModel,
    ps1: Seq<CachePair>,
    loaded1: bool,
) -> bool {
    let outcome = spec_build(rv, cfg, ps0, loaded0, ws, fs);
    &&& st.is_active == is_active
    &&& windows_view(st.windows@) == outcome.windows
    &&& (match st.active_index {
        None => outcome.active is None,
        Some(ix) => outcome.active == Some(ix as int) && ix < st.windows@.len(),
    })
    &&& ps1 == outcome.pairs
    &&& loaded1 == outcome.loaded
}

/// Build the editor state from enumerated window records: filter transient
/// windows, derive names, resolve paths through the cache, look up
/// branches, and carry the frontmost index.
pub fn get_editor_state_with_config(
    config: &EditorConfig,
    is_active: bool,
    records: &Vec<WindowRecord>,
    cache: &mut ProjectPathCache,
    workspace_paths: &Vec<WorkspaceEntry>,
    fs: &GitModel,
) -> (r: EditorState)
    ensures
        spec_state_ok(
            r,
            is_active,
            *config,
            records_view(records@),
            old(cache).pairs(),
            old(cache).spec_initialized(config.id@),
            workspace_pairs(workspace_paths@),
            *fs,
            final(cache).pairs(),
            final(cache).spec_initialized(config.id@),
        ),
        forall|o: Seq<char>|
            o != config.id@ ==> final(cache).spec_initialized(o) == old(cache).spec_initialized(o),
{
    let ghost rv = records_view(records@);
    let ghost wsp = workspace_pairs(workspace_paths@);
    let ghost ps0 = cache.pairs();
    let ghost loaded0 = cache.spec_initialized(config.id@);
    let mut windows: Vec<EditorWindow> = Vec::new();
    let mut active_index: Option<usize> = None;
    let mut i: usize = 0;
    proof {
        assert(rv.take(0) =~= Seq::<RecordView>::empty());
        assert(windows_view(windows@) =~= spec_build(rv.take(0), *config, ps0, loaded0, wsp, *fs).windows);
    }
    while i < records.len()
        invariant
            i <= records@.len(),
            rv == records_view(records@),
            wsp == workspace_pairs(workspace_paths@),
            ps0 == old(cache).pairs(),
            loaded0 == old(cache).spec_initialized(config.id@),
            windows_view(windows@) == spec_build(rv.take(i as int), *config, ps0, loaded0, wsp, *fs).windows,
            (match active_index {
                None => spec_build(rv.take(i as int), *config, ps0, loaded0, wsp, *fs).active is None,
                Some(ix) => spec_build(rv.take(i as int), *config, ps0, loaded0, wsp, *fs).active
                    == Some(ix as int) && ix < windows@.len(),
            }),
            cache.pairs() == spec_build(rv.take(i as int), *config, ps0, loaded0, wsp, *fs).pairs,
            cache.spec_initialized(config.id@) == spec_build(
                rv.take(i as int),
                *config,
                ps0,
                loaded0,
                wsp,
                *fs,
            ).loaded,
            forall|o: Seq<char>|
                o != config.id@ ==> cache.spec_initialized(o) == old(cache).spec_initialized(o),
        decreases records@.len() - i,
    {
        proof {
            assert(rv.take(i as int + 1).drop_last() =~= rv.take(i as int));
            assert(rv.take(i as int + 1).last() == rv[i as int]);
        }
        let title = &records[i].title;
        let tlen = title.as_str().unicode_len();
        let keep = if tlen == 0 {
            false
        } else {
            !str_eq(title.as_str(), "Untitled")
        };
        proof {
            assert(keep == spec_keep_title(rv[i as int].title));
        }
        if keep {
            let name = extract_project_name(title.as_str(), config);
            let doc: Option<&str> = match &records[i].document_path {
                Some(d) => Some(d.as_str()),
                None => None,
            };
            let resolved = resolve_project_path(
                cache,
                name.as_str(),
                config.id,
                workspace_paths,
                fs,
                doc,
            );
            let (path, branch) = match resolved {
                Some(p) => {
                    let branch = match find_git_root(p.as_str(), fs) {
                        Some(root) => get_git_branch(root.as_str(), fs),
                        None => get_git_branch(p.as_str(), fs),
                    };
                    (p, branch)
                },
                None => (String::new(), None),
            };
            let ghost prev_windows = windows_view(windows@);
            windows.push(EditorWindow { id: records[i].window_id, name, path, branch });
            proof {
                assert(windows_view(windows@) =~~= prev_windows.push(
                    windows_view(windows@).last(),
                ));
            }
            if records[i].is_frontmost {
                active_index = Some(windows.len() - 1);
            }
        }
        i = i + 1;
    }
    proof {
        assert(rv.take(records@.len() as int) =~= rv);
    }
    EditorState { is_active, windows, active_index }
}

/// The window list alone, built the same way as the full state.
pub fn get_editor_windows_with_config(
    config: &EditorConfig,
    records: &Vec<WindowRecord>,
    cache: &mut ProjectPathCache,
    workspace_paths: &Vec<WorkspaceEntry>,
    fs: &GitModel,
) -> (r: Vec<EditorWindow>)
    ensures
        windows_view(r@) == spec_build(
            records_view(records@),
            *config,
            old(cache).pairs(),
            old(cache).spec_initialized(config.id@),
            workspace_pairs(workspace_paths@),
            *fs,
        ).windows,
        final(cache).pairs() == spec_build(
            records_view(records@),
            *config,
            old(cache).pairs(),
            old(cache).spec_initialized(config.id@),
            workspace_pairs(workspace_paths@),
            *fs,
        ).pairs,
        final(cache).spec_initialized(config.id@) == spec_build(
            records_view(records@),
            *config,
            old(cache).pairs(),
            old(cache).spec_initialized(config.id@),
            workspace_pairs(workspace_paths@),
            *fs,
        ).loaded,
        forall|o: Seq<char>|
            o != config.id@ ==> final(cache).spec_initialized(o) == old(cache).spec_initialized(o),
{
    let state = get_editor_state_with_config(config, false, records, cache, workspace_paths, fs);
    state.windows
}

/// The editor state for the editor with bundle id `bundle_id`; an unknown
/// bundle id yields an inactive, empty state and leaves the cache alone.
pub fn get_editor_state(
    bundle_id: &str,
    is_active: bool,
    records: &Vec<WindowRecord>,
    cache: &mut ProjectPathCache,
    workspace_paths: &Vec<WorkspaceEntry>,
    fs: &GitModel,
) -> (r: EditorState)
    ensures
        !spec_is_supported_bundle(bundle_id@) ==> !r.is_active && r.windows@.len() == 0
            && r.active_index is None && final(cache).pairs() == old(cache).pairs() && (forall|
            o: Seq<char>,
        |
            final(cache).spec_initialized(o) == old(cache).spec_initialized(o)),
        spec_is_supported_bundle(bundle_id@) ==> (exists|c: EditorConfig|
            c.bundle_id@ == bundle_id@ && #[trigger] spec_state_ok(
                r,
                is_active,
                c,
                records_view(records@),
                old(cache).pairs(),
                old(cache).spec_initialized(c.id@),
                workspace_pairs(workspace_paths@),
                *fs,
                final(cache).pairs(),
                final(cache).spec_initialized(c.id@),
            )),
{
    match get_editor_by_bundle_id(bundle_id) {
        None => EditorState { is_active: false, windows: Vec::new(), active_index: None },
        Some(config) => {
            let r = get_editor_state_with_config(
                &config,
                is_active,
                records,
                cache,
                workspace_paths,
                fs,
            );
            r
        },
    }
}

/// The window list for the editor with bundle id `bundle_id`; an unknown
/// bundle id yields an empty list and leaves the cache alone.
pub fn get_editor_windows(
    bundle_id: &str,
    records: &Vec<WindowRecord>,
    cache: &mut ProjectPathCache,
    workspace_paths: &Vec<WorkspaceEntry>,
    fs: &GitModel,
) -> (r: Vec<EditorWindow>)
    ensures
        !spec_is_supported_bundle(bundle_id@) ==> r@.len() == 0 && final(cache).pairs() == old(
            cache,
        ).pairs(),
        spec_is_supported_bundle(bundle_id@) ==> (exists|c: EditorConfig|
            c.bundle_id@ == bundle_id@ && #[trigger] windows_view(r@) == spec_build(
                records_view(records@),
                c,
                old(cache).pairs(),
                old(cache).spec_initialized(c.id@),
                workspace_pairs(workspace_paths@),
                *fs,
            ).windows),
{
    match get_editor_by_bundle_id(bundle_id) {
        None => Vec::new(),
        Some(config) => get_editor_windows_with_config(&config, records, cache, workspace_paths, fs),
    }
}

/// Whether the OS-frontmost application is this tab manager or one of the
/// supported editors.
pub fn is_editor_active(frontmost_bundle: Option<&str>) -> (r: bool)
    ensures
        r == (match frontmost_bundle {
            None => false,
            Some(b) => b@ == "com.884js.editor-tab-manager"@ || spec_is_supported_bundle(b@),
        }),
{
    match frontmost_bundle {
        None => false,
        Some(b) => {
            if str_eq(b, "com.884js.editor-tab-manager") {
                true
            } else {
                crate::editor_config::is_supported_editor(b)
            }
        },
    }
}

/// The index of the first state with a window or the active flag set,
/// or zero when none qualifies.
pub open spec fn spec_select_from(ss: Seq<EditorState>, k: int) -> int
    decreases ss.len() - k when 0 <= k <= ss.len()
{
    if k >= ss.len() {
        0
    } else if ss[k].windows@.len() > 0 || ss[k].is_active {
        k
    } else {
        spec_select_from(ss, k + 1)
    }
}

/// A fresh copy of an editor state.
fn copy_state(st: &EditorState) -> (r: EditorState)
    ensures
        r.is_active == st.is_active,
        windows_view(r.windows@) == windows_view(st.windows@),
        r.active_index == st.active_index,
{
    let mut ws: Vec<EditorWindow> = Vec::new();
    let mut k: usize = 0;
    while k < st.windows.len()
        invariant
            k <= st.windows@.len(),
            ws@.len() == k,
            forall|j: int|
                0 <= j < k ==> windows_view(ws@)[j] == windows_view(st.windows@)[j],
        decreases st.windows@.len() - k,
    {
        let w = &st.windows[k];
        let branch = match &w.branch {
            Some(b) => Some(b.clone()),
            None => None,
        };
        let ghost prev = ws@;
        ws.push(EditorWindow { id: w.id, name: w.name.clone(), path: w.path.clone(), branch });
        proof {
            assert(ws@[k as int].branch == st.windows@[k as int].branch);
            assert(windows_view(ws@)[k as int] == windows_view(st.windows@)[k as int]);
            assert forall|j: int| 0 <= j < k implies windows_view(ws@)[j] == windows_view(
                st.windows@,
            )[j] by {
                assert(ws@[j] == prev[j]);
                assert(windows_view(ws@)[j] == windows_view(prev)[j]);
            }
        }
        k = k + 1;
    }
    proof {
        assert(windows_view(ws@) =~~= windows_view(st.windows@));
    }
    EditorState { is_active: st.is_active, windows: ws, active_index: st.active_index }
}

/// Of the per-editor states (in lookup order), the first with a window or
/// with the active flag set; the first editor's state when none qualifies.
pub fn get_any_editor_state(states: &Vec<EditorState>) -> (r: EditorState)
    requires
        states@.len() > 0,
    ensures
        ({
            let sel = spec_select_from(states@, 0);
            &&& 0 <= sel < states@.len()
            &&& r.is_active == states@[sel].is_active
            &&& windows_view(r.windows@) == windows_view(states@[sel].windows@)
            &&& r.active_index == states@[sel].active_index
        }),
{
    let n = states.len();
    let mut k: usize = 0;
    while k < n
        invariant
            n == states@.len(),
            k <= n,
            spec_select_from(states@, 0) == spec_select_from(states@, k as int),
        decreases n - k,
    {
        if states[k].windows.len() > 0 || states[k].is_active {
            return copy_state(&states[k]);
        }
        k = k + 1;
    }
    copy_state(&states[0])
}

/// The index of the first nonempty window list, if any.
pub open spec fn spec_first_nonempty(ls: Seq<Vec<EditorWindow>>, k: int) -> Option<int>
    decreases ls.len() - k when 0 <= k <= ls.len()
{
    if k >= ls.len() {
        None
    } else if ls[k]@.len() > 0 {
        Some(k)
    } else {
        spec_first_nonempty(ls, k + 1)
    }
}

/// Of the per-editor window lists (in lookup order), the first nonempty
/// one; empty when every editor has no window.
pub fn get_any_editor_windows(lists: &Vec<Vec<EditorWindow>>) -> (r: Vec<EditorWindow>)
    ensures
        (match spec_first_nonempty(lists@, 0) {
            Some(k) => windows_view(r@) == windows_view(lists@[k]@),
            None => r@.len() == 0,
        }),
{
    let n = lists.len();
    let mut k: usize = 0;
    while k < n
        invariant
            n == lists@.len(),
            k <= n,
            spec_first_nonempty(lists@, 0) == spec_first_nonempty(lists@, k as int),
        decreases n - k,
    {
        if lists[k].len() > 0 {
            let mut out: Vec<EditorWindow> = Vec::new();
            let src = &lists[k];
            let mut t: usize = 0;
            while t < src.len()
                invariant
                    t <= src@.len(),
                    out@.len() == t,
                    forall|j: int|
                        0 <= j < t ==> windows_view(out@)[j] == windows_view(src@)[j],
                decreases src@.len() - t,
            {
                let w = &src[t];
                let branch = match &w.branch {
                    Some(b) => Some(b.clone()),
                    None => None,
                };
                out.push(
                    EditorWindow {
                        id: w.id,
                        name: w.name.clone(),
                        path: w.path.clone(),
                        branch,
                    },
                );
                t = t + 1;
            }
            proof {
                assert(windows_view(out@) =~~= windows_view(src@));
            }
            return out;
        }
        k = k + 1;
    }
    Vec::new()
}

/// A window operation to perform through the accessibility service.
#[derive(Clone, Copy, Debug, PartialEq, Eq, Structural)]
pub struct WindowCommand {
    /// The editor's process id.
    pub pid: i32,
    /// The target window.
    pub window_id: u32,
}

/// The display name of the supported editor with bundle id `b`.
pub open spec fn spec_display_for_bundle(b: Seq<char>) -> Seq<char> {
    if b == "com.microsoft.VSCode"@ {
        "Visual Studio Code"@
    } else if b == "com.todesktop.230313mzl4w4u92"@ {
        "Cursor"@
    } else {
        "Zed"@
    }
}

/// Validate a window command: the bundle id must name a supported editor
/// ("Unknown editor" otherwise) and the editor must be running
/// ("Editor not running" otherwise); the command then targets the
/// editor's process and the given window.
pub fn window_command(bundle_id: &str, pid: Option<i32>, window_id: u32) -> (r: Result<
    WindowCommand,
    String,
>)
    ensures
        !spec_is_supported_bundle(bundle_id@) ==> (r matches Err(e) && e@ == "Unknown editor: "@
            + bundle_id@),
        spec_is_supported_bundle(bundle_id@) && pid is None ==> (r matches Err(e) && e@
            == "Editor not running: "@ + spec_display_for_bundle(bundle_id@)),
        spec_is_supported_bundle(bundle_id@) ==> (pid matches Some(p) ==> (r matches Ok(c)
            && c.pid == p && c.window_id == window_id)),
{
    let config = match get_editor_by_bundle_id(bundle_id) {
        Some(c) => c,
        None => {
            let mut e = str_chars("Unknown editor: ");
            let bc = str_chars(bundle_id);
            chars_append(&mut e, &bc);
            return Err(chars_string(&e));
        },
    };
    match pid {
        Some(p) => Ok(WindowCommand { pid: p, window_id }),
        None => {
            let mut e = str_chars("Editor not running: ");
            let dc = str_chars(config.display_name);
            chars_append(&mut e, &dc);
            proof {
                reveal_strlit("com.microsoft.VSCode");
                reveal_strlit("com.todesktop.230313mzl4w4u92");
                reveal_strlit("dev.zed.Zed");
            }
            Err(chars_string(&e))
        },
    }
}

/// Validate a focus request (see [`window_command`]).
pub fn focus_editor_window(bundle_id: &str, pid: Option<i32>, window_id: u32) -> (r: Result<
    WindowCommand,
    String,
>)
    ensures
        !spec_is_supported_bundle(bundle_id@) ==> (r matches Err(e) && e@ == "Unknown editor: "@
            + bundle_id@),
        spec_is_supported_bundle(bundle_id@) && pid is None ==> (r matches Err(e) && e@
            == "Editor not running: "@ + spec_display_for_bundle(bundle_id@)),
        spec_is_supported_bundle(bundle_id@) ==> (pid matches Some(p) ==> (r matches Ok(c)
            && c.pid == p && c.window_id == window_id)),
{
    window_command(bundle_id, pid, window_id)
}

/// Validate a close request (see [`window_command`]).
pub fn close_editor_window(bundle_id: &str, pid: Option<i32>, window_id: u32) -> (r: Result<
    WindowCommand,
    String,
>)
    ensures
        !spec_is_supported_bundle(bundle_id@) ==> (r matches Err(e) && e@ == "Unknown editor: "@
            + bundle_id@),
        spec_is_supported_bundle(bundle_id@) && pid is None ==> (r matches Err(e) && e@
            == "Editor not running: "@ + spec_display_for_bundle(bundle_id@)),
        spec_is_supported_bundle(bundle_id@) ==> (pid matches Some(p) ==> (r matches Ok(c)
            && c.pid == p && c.window_id == window_id)),
{
    window_command(bundle_id, pid, window_id)
}

/// Validate an open-project request: the bundle id must name a supported
/// editor; the command then opens `path` with the editor's application
/// name.
pub fn open_project_in_editor(bundle_id: &str, path: &str) -> (r: Result<(String, String), String>)
    ensures
        !spec_is_supported_bundle(bundle_id@) ==> (r matches Err(e) && e@ == "Unknown editor: "@
            + bundle_id@),
        spec_is_supported_bundle(bundle_id@) ==> (r matches Ok(c) && c.0@
            == spec_display_app_for_bundle(bundle_id@) && c.1@ == path@),
{
    match get_editor_by_bundle_id(bundle_id) {
        Some(config) => {
            proof {
                reveal_strlit("com.microsoft.VSCode");
                reveal_strlit("com.todesktop.230313mzl4w4u92");
                reveal_strlit("dev.zed.Zed");
            }
            Ok((config.app_name.to_owned(), path.to_owned()))
        },
        None => {
            let mut e = str_chars("Unknown editor: ");
            let bc = str_chars(bundle_id);
            chars_append(&mut e, &bc);
            Err(chars_string(&e))
        },
    }
}

/// The application name of the supported editor with bundle id `b`.
pub open spec fn spec_display_app_for_bundle(b: Seq<char>) -> Seq<char> {
    if b == "com.microsoft.VSCode"@ {
        "Visual Studio Code"@
    } else if b == "com.todesktop.230313mzl4w4u92"@ {
        "Cursor"@
    } else {
        "Zed"@
    }
}

/// Validate an open-new-window request: like [`window_command`] but with
/// no target window; the command activates the editor's process.
pub fn open_new_editor(bundle_id: &str, pid: Option<i32>) -> (r: Result<i32, String>)
    ensures
        !spec_is_supported_bundle(bundle_id@) ==> (r matches Err(e) && e@ == "Unknown editor: "@
            + bundle_id@),
        spec_is_supported_bundle(bundle_id@) && pid is None ==> (r matches Err(e) && e@
            == "Editor not running: "@ + spec_display_for_bundle(bundle_id@)),
        spec_is_supported_bundle(bundle_id@) ==> (pid matches Some(p) ==> r == Ok::<i32, String>(
            p,
        )),
{
    match window_command(bundle_id, pid, 0) {
        Ok(c) => Ok(c.pid),
        Err(e) => Err(e),
    }
}

} // verus!
