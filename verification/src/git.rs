//! Git branch lookup over an explicit model of the directories involved.
//!
//! The caller (outside this crate) probes the real filesystem and records
//! what it saw in a [`GitModel`]: which directories hold a `.git` entry,
//! whether that entry is a directory or a submodule marker file, and the
//! `HEAD` contents of the git metadata directories.  Everything here is a
//! pure function of that model, so the walk, the submodule indirection and
//! the `HEAD` parsing are all verified.

use vstd::prelude::*;
use crate::strutil::{
    chars_append,
    chars_eq,
    chars_split,
    chars_starts_with,
    chars_string,
    chars_subrange,
    seq_starts_with,
    spec_split,
    str_chars,
};

verus! {

/// One directory that holds a `.git` entry.
pub struct GitDirEntry {
    /// Absolute path of the directory.
    pub path: String,
    /// The content of `.git` when it is a submodule marker file;
    /// none when `.git` is itself a directory.
    pub git_file: Option<String>,
}

/// The recorded `HEAD` content of one git metadata directory.
pub struct HeadEntry {
    /// Path of the git metadata directory.
    pub git_dir: String,
    /// Content of the `HEAD` file inside it.
    pub content: String,
}

/// What the git lookup reads from disk: the directories with a `.git`
/// entry, and the `HEAD` content of each git metadata directory.
///
/// Existence is carried by membership: a directory outside `entries` has
/// no `.git`, and a metadata directory outside `heads` has no readable
/// `HEAD` — in particular, a submodule marker naming a directory that
/// does not exist resolves to a path with no `heads` entry, so the
/// branch lookup yields none for it.
pub struct GitModel {
    /// Directories holding a `.git` entry (directory or marker file).
    pub entries: Vec<GitDirEntry>,
    /// `HEAD` file content, keyed by git metadata directory path.
    pub heads: Vec<HeadEntry>,
}

/// ASCII whitespace, as it occurs around `HEAD` and marker file contents.
pub open spec fn is_space(c: char) -> bool {
    c == ' ' || c == '\t' || c == '\n' || c == '\r'
}

/// `s` without leading whitespace.
pub open spec fn spec_trim_start(s: Seq<char>) -> Seq<char>
    decreases s.len(),
{
    if s.len() > 0 && is_space(s[0]) {
        spec_trim_start(s.skip(1))
    } else {
        s
    }
}

/// `s` without trailing whitespace.
pub open spec fn spec_trim_end(s: Seq<char>) -> Seq<char>
    decreases s.len(),
{
    if s.len() > 0 && is_space(s[s.len() - 1]) {
        spec_trim_end(s.take(s.len() - 1))
    } else {
        s
    }
}

/// `s` without leading or trailing whitespace.
pub open spec fn spec_trim(s: Seq<char>) -> Seq<char> {
    spec_trim_end(spec_trim_start(s))
}

proof fn lemma_trim_start_at(s: Seq<char>, a: int)
    requires
        0 <= a <= s.len(),
        forall|j: int| 0 <= j < a ==> is_space(s[j]),
        a < s.len() ==> !is_space(s[a]),
    ensures
        spec_trim_start(s) == s.skip(a),
    decreases a,
{
    if a == 0 {
        assert(s.skip(0) =~= s);
    } else {
        assert(is_space(s[0]));
        lemma_trim_start_at(s.skip(1), a - 1);
        assert(s.skip(1).skip(a - 1) =~= s.skip(a));
    }
}

proof fn lemma_trim_end_at(s: Seq<char>, b: int)
    requires
        0 <= b <= s.len(),
        forall|j: int| b <= j < s.len() ==> is_space(s[j]),
        b > 0 ==> !is_space(s[b - 1]),
    ensures
        spec_trim_end(s) == s.take(b),
    decreases s.len() - b,
{
    if b == s.len() {
        assert(s.take(b) =~= s);
    } else {
        assert(is_space(s[s.len() - 1]));
        lemma_trim_end_at(s.take(s.len() - 1), b);
        assert(s.take(s.len() - 1).take(b) =~= s.take(b));
    }
}

/// `v` without leading or trailing ASCII whitespace.
pub fn chars_trim(v: &Vec<char>) -> (r: Vec<char>)
    ensures
        r@ == spec_trim(v@),
{
    let n = v.len();
    let mut a: usize = 0;
    while a < n && is_space_char(v[a])
        invariant
            n == v@.len(),
            a <= n,
            forall|j: int| 0 <= j < a ==> is_space(v@[j]),
        decreases n - a,
    {
        a = a + 1;
    }
    proof {
        lemma_trim_start_at(v@, a as int);
    }
    let mut b: usize = n;
    while b > a && is_space_char(v[b - 1])
        invariant
            n == v@.len(),
            a <= b <= n,
            forall|j: int| b <= j < n ==> is_space(v@[j]),
        decreases b,
    {
        b = b - 1;
    }
    let r = chars_subrange(v, a, b);
    proof {
        let t = v@.skip(a as int);
        assert forall|j: int| (b - a) <= j < t.len() implies is_space(t[j]) by {
            assert(t[j] == v@[a + j]);
        }
        if b > a {
            assert(t[b - a - 1] == v@[b as int - 1]);
        }
        lemma_trim_end_at(t, b - a);
        assert(t.take(b - a) =~= v@.subrange(a as int, b as int));
    }
    r
}

/// Whether `c` is ASCII whitespace.
fn is_space_char(c: char) -> (r: bool)
    ensures
        r == is_space(c),
{
    c == ' ' || c == '\t' || c == '\n' || c == '\r'
}

/// The parent directory of path `p`: the prefix before the last `/`
/// (the root `/` keeps its slash), none for the root or an empty path,
/// and the empty path for a bare relative name.
pub open spec fn spec_parent(p: Seq<char>) -> Option<Seq<char>> {
    if p.len() == 0 || p == seq!['/'] {
        None
    } else if !p.contains('/') {
        Some(Seq::empty())
    } else {
        let i = spec_last_slash(p);
        if i == 0 {
            Some(seq!['/'])
        } else {
            Some(p.take(i))
        }
    }
}

/// Index of the last `/` in `p`, or a negative value when there is none.
pub open spec fn spec_last_slash(p: Seq<char>) -> int
    decreases p.len(),
{
    if p.len() == 0 {
        -1
    } else if p[p.len() - 1] == '/' {
        p.len() - 1
    } else {
        spec_last_slash(p.take(p.len() - 1))
    }
}

pub proof fn lemma_last_slash(p: Seq<char>)
    ensures
        spec_last_slash(p) >= 0 ==> spec_last_slash(p) < p.len() && p[spec_last_slash(p)] == '/'
            && (forall|j: int| spec_last_slash(p) < j < p.len() ==> p[j] != '/'),
        spec_last_slash(p) < 0 ==> forall|j: int| 0 <= j < p.len() ==> p[j] != '/',
    decreases p.len(),
{
    if p.len() == 0 {
    } else if p[p.len() - 1] == '/' {
    } else {
        lemma_last_slash(p.take(p.len() - 1));
        assert forall|j: int| 0 <= j < p.len() - 1 implies p.take(p.len() - 1)[j] == p[j] by {}
    }
}

/// The parent of `p`, as a character vector.
pub fn chars_parent(p: &Vec<char>) -> (r: Option<Vec<char>>)
    ensures
        match r {
            Some(v) => spec_parent(p@) == Some(v@) && v@.len() < p@.len(),
            None => spec_parent(p@) is None,
        },
{
    let n = p.len();
    if n == 0 {
        return None;
    }
    if n == 1 && p[0] == '/' {
        proof {
            assert(p@ =~= seq!['/']);
        }
        return None;
    }
    let mut i: usize = n;
    while i > 0 && p[i - 1] != '/'
        invariant
            n == p@.len(),
            i <= n,
            forall|j: int| i <= j < n ==> p@[j] != '/',
        decreases i,
    {
        i = i - 1;
    }
    proof {
        lemma_last_slash(p@);
        assert(p@ != seq!['/']);
    }
    if i == 0 {
        proof {
            if p@.contains('/') {
                let k = choose|k: int| 0 <= k < p@.len() && p@[k] == '/';
                assert(p@[k] != '/');
            }
        }
        let v: Vec<char> = Vec::new();
        proof {
            assert(v@ =~= Seq::<char>::empty());
        }
        return Some(v);
    }
    proof {
        assert(p@[i as int - 1] == '/');
        assert(p@.contains('/'));
        assert(spec_last_slash(p@) == i - 1) by {
            if spec_last_slash(p@) >= 0 {
                if spec_last_slash(p@) < i - 1 {
                } else if spec_last_slash(p@) > i - 1 {
                    assert(p@[spec_last_slash(p@)] != '/');
                }
            } else {
                assert(p@[i as int - 1] != '/');
            }
        }
    }
    if i == 1 {
        let mut v: Vec<char> = Vec::new();
        v.push('/');
        proof {
            assert(v@ =~= seq!['/']);
        }
        return Some(v);
    }
    let v = chars_subrange(p, 0, i - 1);
    proof {
        assert(v@ =~= p@.take(i - 1));
    }
    Some(v)
}

/// The model records a `.git` entry for directory `p`.
pub open spec fn spec_has_git(m: GitModel, p: Seq<char>) -> bool {
    exists|k: int| 0 <= k < m.entries@.len() && m.entries@[k].path@ == p
}

/// The nearest directory, walking up from `p`, that holds a `.git` entry.
/// (A parent is always shorter than its child, which bounds the walk.)
pub open spec fn spec_find_git_root(p: Seq<char>, m: GitModel) -> Option<Seq<char>>
    decreases p.len(),
{
    if spec_has_git(m, p) {
        Some(p)
    } else {
        match spec_parent(p) {
            None => None,
            Some(q) => if q.len() < p.len() {
                spec_find_git_root(q, m)
            } else {
                None
            },
        }
    }
}

/// Whether directory `p` holds a `.git` entry in the model.
fn has_git(m: &GitModel, p: &Vec<char>) -> (r: bool)
    ensures
        r == spec_has_git(*m, p@),
{
    let mut k: usize = 0;
    while k < m.entries.len()
        invariant
            k <= m.entries@.len(),
            forall|j: int| 0 <= j < k ==> m.entries@[j].path@ != p@,
        decreases m.entries@.len() - k,
    {
        let ep = str_chars(m.entries[k].path.as_str());
        if chars_eq(&ep, p) {
            return true;
        }
        k = k + 1;
    }
    false
}

/// Find the git root by walking up from `start_path` looking for a
/// directory with a `.git` entry; none when no ancestor has one.
pub fn find_git_root(start_path: &str, model: &GitModel) -> (r: Option<String>)
    ensures
        match r {
            Some(s) => spec_find_git_root(start_path@, *model) == Some(s@),
            None => spec_find_git_root(start_path@, *model) is None,
        },
{
    let mut current = str_chars(start_path);
    loop
        invariant
            spec_find_git_root(start_path@, *model) == spec_find_git_root(current@, *model),
        decreases current@.len(),
    {
        if has_git(model, &current) {
            return Some(chars_string(&current));
        }
        match chars_parent(&current) {
            None => {
                return None;
            },
            Some(q) => {
                current = q;
            },
        }
    }
}

/// The `HEAD` content prefix that names a branch.
pub open spec fn spec_head_ref_prefix() -> Seq<char> {
    "ref: refs/heads/"@
}

/// The branch label encoded by a `HEAD` file content: the name after
/// "ref: refs/heads/", or the first seven characters of a detached-head
/// commit hash, or none when the trimmed content is shorter than seven
/// characters.
pub open spec fn spec_parse_head(content: Seq<char>) -> Option<Seq<char>> {
    let t = spec_trim(content);
    if seq_starts_with(t, spec_head_ref_prefix()) {
        Some(t.skip(spec_head_ref_prefix().len() as int))
    } else if t.len() >= 7 {
        Some(t.take(7))
    } else {
        None
    }
}

/// Parse a `HEAD` file content into a branch label.
pub fn parse_head_content(content: &str) -> (r: Option<String>)
    ensures
        match r {
            Some(s) => spec_parse_head(content@) == Some(s@),
            None => spec_parse_head(content@) is None,
        },
{
    let cchars = str_chars(content);
    let t = chars_trim(&cchars);
    let prefix = str_chars("ref: refs/heads/");
    if chars_starts_with(&t, &prefix) {
        let rest = chars_subrange(&t, prefix.len(), t.len());
        proof {
            assert(rest@ =~= spec_trim(content@).skip(spec_head_ref_prefix().len() as int));
        }
        Some(chars_string(&rest))
    } else if t.len() >= 7 {
        let hash = chars_subrange(&t, 0, 7);
        proof {
            assert(hash@ =~= spec_trim(content@).take(7));
        }
        Some(chars_string(&hash))
    } else {
        None
    }
}

/// The submodule marker prefix.
pub open spec fn spec_gitdir_prefix() -> Seq<char> {
    "gitdir: "@
}

/// The path named by a submodule `.git` marker file, or none when the
/// content does not carry the "gitdir: " prefix.
pub open spec fn spec_parse_gitdir(content: Seq<char>) -> Option<Seq<char>> {
    let t = spec_trim(content);
    if seq_starts_with(t, spec_gitdir_prefix()) {
        Some(t.skip(spec_gitdir_prefix().len() as int))
    } else {
        None
    }
}

/// Parse a submodule `.git` marker file content.
pub fn parse_gitdir_content(content: &str) -> (r: Option<String>)
    ensures
        match r {
            Some(s) => spec_parse_gitdir(content@) == Some(s@),
            None => spec_parse_gitdir(content@) is None,
        },
{
    let cchars = str_chars(content);
    let t = chars_trim(&cchars);
    let prefix = str_chars("gitdir: ");
    if chars_starts_with(&t, &prefix) {
        let rest = chars_subrange(&t, prefix.len(), t.len());
        proof {
            assert(rest@ =~= spec_trim(content@).skip(spec_gitdir_prefix().len() as int));
        }
        Some(chars_string(&rest))
    } else {
        None
    }
}

/// Normalized segment stack: empty and "." segments are dropped, ".."
/// removes the segment before it.
pub open spec fn spec_normalize_segments(segs: Seq<Seq<char>>) -> Seq<Seq<char>>
    decreases segs.len(),
{
    if segs.len() == 0 {
        seq![]
    } else {
        let rest = spec_normalize_segments(segs.take(segs.len() - 1));
        let last = segs[segs.len() - 1];
        if last == Seq::<char>::empty() || last == "."@ {
            rest
        } else if last == ".."@ {
            if rest.len() > 0 {
                rest.take(rest.len() - 1)
            } else {
                rest
            }
        } else {
            rest.push(last)
        }
    }
}

/// An absolute path from segments: `/` for none, else `/seg` joined.
pub open spec fn spec_join_abs(segs: Seq<Seq<char>>) -> Seq<char>
    decreases segs.len(),
{
    if segs.len() == 0 {
        seq!['/']
    } else if segs.len() == 1 {
        seq!['/'] + segs[0]
    } else {
        spec_join_abs(segs.take(segs.len() - 1)) + seq!['/'] + segs[segs.len() - 1]
    }
}

/// The normalized form of an absolute path: split on `/`, drop empty and
/// "." segments, resolve "..", and rejoin.
pub open spec fn spec_normalize_path(p: Seq<char>) -> Seq<char> {
    spec_join_abs(spec_normalize_segments(spec_split(p, seq!['/'])))
}

/// Normalize an absolute path.
pub fn normalize_path(p: &Vec<char>) -> (r: Vec<char>)
    ensures
        r@ == spec_normalize_path(p@),
{
    let mut slash: Vec<char> = Vec::new();
    slash.push('/');
    proof {
        assert(slash@ =~= seq!['/']);
    }
    let segs = chars_split(p, &slash);
    let ghost ssegs = spec_split(p@, seq!['/']);
    proof {
        assert(segs.deep_view() == ssegs);
        assert forall|k: int| 0 <= k < segs@.len() implies segs@[k]@ == ssegs[k] by {
            assert(segs@[k]@ =~= segs.deep_view()[k]);
        }
    }
    let dot = str_chars(".");
    let dotdot = str_chars("..");
    let mut stack: Vec<Vec<char>> = Vec::new();
    let mut i: usize = 0;
    proof {
        assert(ssegs.take(0) =~= Seq::<Seq<char>>::empty());
        assert(stack.deep_view() =~= spec_normalize_segments(ssegs.take(0)));
    }
    while i < segs.len()
        invariant
            i <= segs@.len(),
            segs.deep_view() == ssegs,
            forall|k: int| 0 <= k < segs@.len() ==> segs@[k]@ == ssegs[k],
            dot@ == "."@,
            dotdot@ == ".."@,
            stack.deep_view() == spec_normalize_segments(ssegs.take(i as int)),
        decreases segs@.len() - i,
    {
        let seg = &segs[i];
        let ghost prev = stack.deep_view();
        proof {
            assert(ssegs.take(i as int + 1).take(i as int) =~= ssegs.take(i as int));
            assert(ssegs.take(i as int + 1)[i as int] == ssegs[i as int]);
        }
        if seg.len() == 0 {
            proof {
                assert(seg@ =~= Seq::<char>::empty());
            }
        } else if chars_eq(seg, &dot) {
        } else if chars_eq(seg, &dotdot) {
            if stack.len() > 0 {
                let _ = stack.pop();
                proof {
                    assert(stack.deep_view() =~~= prev.take(prev.len() - 1));
                }
            }
        } else {
            let copy = chars_subrange(seg, 0, seg.len());
            proof {
                assert(copy@ =~= seg@);
            }
            stack.push(copy);
            proof {
                assert(stack.deep_view() =~~= prev.push(seg@));
            }
        }
        i = i + 1;
    }
    proof {
        assert(ssegs.take(segs@.len() as int) =~= ssegs);
    }
    let mut out: Vec<char> = Vec::new();
    if stack.len() == 0 {
        out.push('/');
        proof {
            assert(out@ =~= spec_join_abs(stack.deep_view()));
        }
        return out;
    }
    let ghost nsegs = stack.deep_view();
    let mut k: usize = 0;
    while k < stack.len()
        invariant
            k <= stack@.len(),
            stack.deep_view() == nsegs,
            k > 0 ==> out@ == spec_join_abs(nsegs.take(k as int)),
            k == 0 ==> out@ == Seq::<char>::empty(),
        decreases stack@.len() - k,
    {
        out.push('/');
        chars_append(&mut out, &stack[k]);
        proof {
            assert(stack@[k as int]@ =~= nsegs[k as int]);
            assert(nsegs.take(k as int + 1).take(k as int) =~= nsegs.take(k as int));
            assert(nsegs.take(k as int + 1)[k as int] == nsegs[k as int]);
            if k == 0 {
                assert(out@ =~= spec_join_abs(nsegs.take(1)));
            } else {
                assert(out@ =~= spec_join_abs(nsegs.take(k as int)) + seq!['/'] + nsegs[k as int]);
            }
        }
        k = k + 1;
    }
    proof {
        assert(nsegs.take(stack@.len() as int) =~= nsegs);
    }
    out
}

/// The model's `.git` entry for directory `p`: none when the model has no
/// entry, the marker file content when `.git` is a submodule marker, and
/// an empty option when `.git` is itself a directory.
pub open spec fn spec_git_entry_from(
    entries: Seq<GitDirEntry>,
    p: Seq<char>,
    i: int,
) -> Option<Option<Seq<char>>>
    decreases entries.len() - i when 0 <= i <= entries.len()
{
    if i >= entries.len() {
        None
    } else if entries[i].path@ == p {
        Some(
            match entries[i].git_file {
                None => None,
                Some(c) => Some(c@),
            },
        )
    } else {
        spec_git_entry_from(entries, p, i + 1)
    }
}

/// The model's `.git` entry for directory `p` (first match wins).
pub open spec fn spec_git_entry(m: GitModel, p: Seq<char>) -> Option<Option<Seq<char>>> {
    spec_git_entry_from(m.entries@, p, 0)
}

/// Look up the model's `.git` entry for directory `p`.
fn git_entry<'a>(m: &'a GitModel, p: &Vec<char>) -> (r: Option<&'a Option<String>>)
    ensures
        match r {
            Some(gf) => spec_git_entry(*m, p@) == Some(
                match gf {
                    None => None::<Seq<char>>,
                    Some(c) => Some(c@),
                },
            ),
            None => spec_git_entry(*m, p@) is None,
        },
{
    let mut k: usize = 0;
    while k < m.entries.len()
        invariant
            k <= m.entries@.len(),
            spec_git_entry(*m, p@) == spec_git_entry_from(m.entries@, p@, k as int),
        decreases m.entries@.len() - k,
    {
        let ep = str_chars(m.entries[k].path.as_str());
        if chars_eq(&ep, p) {
            return Some(&m.entries[k].git_file);
        }
        k = k + 1;
    }
    None
}

/// The git metadata directory for project root `git_root`: `.git` itself
/// when it is a directory, else the normalized path a submodule marker
/// names (relative paths resolve against `git_root`).  Whether that path
/// exists is not the model's question: an unresolvable target simply has
/// no `HEAD` entry, and [`spec_get_git_branch`] yields none there.
pub open spec fn spec_resolve_git_dir(git_root: Seq<char>, m: GitModel) -> Option<Seq<char>> {
    match spec_git_entry(m, git_root) {
        None => None,
        Some(None) => Some(git_root + seq!['/'] + ".git"@),
        Some(Some(content)) => match spec_parse_gitdir(content) {
            None => None,
            Some(rel) => if rel.len() > 0 && rel[0] == '/' {
                Some(spec_normalize_path(rel))
            } else {
                Some(spec_normalize_path(git_root + seq!['/'] + rel))
            },
        },
    }
}

/// Resolve the git metadata directory for `git_root` (submodules follow
/// their marker file).  The result is the normalized target path; a
/// target that does not exist on disk carries no `HEAD` entry in the
/// model, so the branch lookup built on it returns none, the same
/// outcome a failing canonicalization gives.
pub fn resolve_git_dir(git_root: &str, model: &GitModel) -> (r: Option<String>)
    ensures
        match r {
            Some(s) => spec_resolve_git_dir(git_root@, *model) == Some(s@),
            None => spec_resolve_git_dir(git_root@, *model) is None,
        },
{
    let root_chars = str_chars(git_root);
    match git_entry(model, &root_chars) {
        None => None,
        Some(gf) => match gf {
            None => {
                let mut v = str_chars(git_root);
                v.push('/');
                let dotgit = str_chars(".git");
                chars_append(&mut v, &dotgit);
                proof {
                    assert(v@ =~= git_root@ + seq!['/'] + ".git"@);
                }
                Some(chars_string(&v))
            },
            Some(content) => {
                match parse_gitdir_content(content.as_str()) {
                    None => None,
                    Some(rel) => {
                        let rel_chars = str_chars(rel.as_str());
                        if rel_chars.len() > 0 && rel_chars[0] == '/' {
                            let n = normalize_path(&rel_chars);
                            Some(chars_string(&n))
                        } else {
                            let mut joined = str_chars(git_root);
                            joined.push('/');
                            chars_append(&mut joined, &rel_chars);
                            proof {
                                assert(joined@ =~= git_root@ + seq!['/'] + rel@);
                            }
                            let n = normalize_path(&joined);
                            Some(chars_string(&n))
                        }
                    },
                }
            },
        },
    }
}

/// The `HEAD` content the model records for git metadata directory `gd`.
pub open spec fn spec_head_content_from(
    heads: Seq<HeadEntry>,
    gd: Seq<char>,
    i: int,
) -> Option<Seq<char>>
    decreases heads.len() - i when 0 <= i <= heads.len()
{
    if i >= heads.len() {
        None
    } else if heads[i].git_dir@ == gd {
        Some(heads[i].content@)
    } else {
        spec_head_content_from(heads, gd, i + 1)
    }
}

/// The branch label for the repository rooted at `git_root`: resolve the
/// metadata directory, read its recorded `HEAD` content, and parse it.
pub open spec fn spec_get_git_branch(git_root: Seq<char>, m: GitModel) -> Option<Seq<char>> {
    match spec_resolve_git_dir(git_root, m) {
        None => None,
        Some(gd) => match spec_head_content_from(m.heads@, gd, 0) {
            None => None,
            Some(content) => spec_parse_head(content),
        },
    }
}

/// Read the repository's current branch name: the branch for normal
/// checkouts, a short commit hash for a detached head, none when `HEAD`
/// is missing or too short.  Submodule markers are followed.
pub fn get_git_branch(git_root: &str, model: &GitModel) -> (r: Option<String>)
    ensures
        match r {
            Some(s) => spec_get_git_branch(git_root@, *model) == Some(s@),
            None => spec_get_git_branch(git_root@, *model) is None,
        },
{
    let gd = match resolve_git_dir(git_root, model) {
        None => {
            return None;
        },
        Some(g) => g,
    };
    let gd_chars = str_chars(gd.as_str());
    let mut k: usize = 0;
    while k < model.heads.len()
        invariant
            k <= model.heads@.len(),
            gd_chars@ == gd@,
            spec_resolve_git_dir(git_root@, *model) == Some(gd@),
            spec_head_content_from(model.heads@, gd@, 0) == spec_head_content_from(
                model.heads@,
                gd@,
                k as int,
            ),
        decreases model.heads@.len() - k,
    {
        let hp = str_chars(model.heads[k].git_dir.as_str());
        if chars_eq(&hp, &gd_chars) {
            return parse_head_content(model.heads[k].content.as_str());
        }
        k = k + 1;
    }
    None
}

} // verus!

