//! Per-project assistant status, reconciled from session transcripts and a
//! waiting-signal file.
//!
//! A session transcript's last record classifies the session as generating,
//! awaiting a tool, or inactive.  Per project, one generating session makes
//! the project `Generating`; otherwise a tool-pending session makes it
//! `Waiting` when the waiting-signal file lists the project and `Generating`
//! when the signal has not arrived yet (gap avoidance); projects listed only
//! in the waiting-signal file are `Waiting`.  Reading the files and polling
//! happen outside this crate; the functions here are pure in the file
//! contents and the classified states they are handed.

use vstd::prelude::*;
use crate::git::{spec_trim, chars_trim};
use crate::json::{
    history_line_ok,
    history_project,
    history_session_id,
    json_line_content_types,
    json_line_str_field,
    line_content_types,
    line_str_field,
};
use crate::strutil::{
    chars_append,
    chars_eq,
    chars_split,
    chars_starts_with,
    chars_string,
    chars_subrange,
    seq_starts_with,
    spec_split,
    str_chars,
    str_eq,
};

verus! {

/// Externally visible per-project status.
#[derive(Clone, Copy, Debug, PartialEq, Eq, Structural)]
pub enum ClaudeStatus {
    /// The assistant awaits human input for this project.
    Waiting,
    /// The assistant is working on this project.
    Generating,
}

/// Classification of one session transcript's latest record.
#[derive(Clone, Copy, Debug, PartialEq, Eq, Structural)]
pub enum SessionState {
    /// The session is producing output (or a tool is running).
    Generating,
    /// The session has emitted a tool invocation and awaits its outcome.
    ToolPending,
    /// The session is finished or stale.
    Inactive,
}

/// One path → status association.
pub struct StatusEntry {
    /// Normalized project path.
    pub path: String,
    /// Its status.
    pub status: ClaudeStatus,
}

/// The map encoded by an association list: later entries win.
pub open spec fn entries_map(s: Seq<StatusEntry>) -> Map<Seq<char>, ClaudeStatus>
    decreases s.len(),
{
    if s.len() == 0 {
        Map::empty()
    } else {
        entries_map(s.drop_last()).insert(s.last().path@, s.last().status)
    }
}

/// No two entries share a path.
pub open spec fn entries_wf(s: Seq<StatusEntry>) -> bool {
    forall|i: int, j: int| 0 <= i < j < s.len() ==> s[i].path@ != s[j].path@
}

proof fn lemma_entries_map_contains(s: Seq<StatusEntry>, k: Seq<char>)
    ensures
        entries_map(s).contains_key(k) <==> exists|i: int| 0 <= i < s.len() && s[i].path@ == k,
    decreases s.len(),
{
    if s.len() > 0 {
        lemma_entries_map_contains(s.drop_last(), k);
        if s.last().path@ == k {
            assert(s[s.len() - 1].path@ == k);
        } else if entries_map(s).contains_key(k) {
            let i = choose|i: int| 0 <= i < s.drop_last().len() && s.drop_last()[i].path@ == k;
            assert(s[i].path@ == k);
        } else if exists|i: int| 0 <= i < s.len() && s[i].path@ == k {
            let i = choose|i: int| 0 <= i < s.len() && s[i].path@ == k;
            assert(s.drop_last()[i].path@ == k);
        }
    }
}

proof fn lemma_entries_map_get(s: Seq<StatusEntry>, i: int)
    requires
        entries_wf(s),
        0 <= i < s.len(),
    ensures
        entries_map(s).contains_key(s[i].path@),
        entries_map(s)[s[i].path@] == s[i].status,
    decreases s.len(),
{
    if i == s.len() - 1 {
    } else {
        assert(entries_wf(s.drop_last()));
        assert(s.drop_last()[i] == s[i]);
        lemma_entries_map_get(s.drop_last(), i);
        assert(s[i].path@ != s.last().path@);
    }
}

proof fn lemma_entries_map_dom_len(s: Seq<StatusEntry>)
    requires
        entries_wf(s),
    ensures
        entries_map(s).dom().finite(),
        entries_map(s).dom().len() == s.len(),
    decreases s.len(),
{
    if s.len() > 0 {
        assert(entries_wf(s.drop_last()));
        lemma_entries_map_dom_len(s.drop_last());
        lemma_entries_map_contains(s.drop_last(), s.last().path@);
        assert(forall|i: int|
            0 <= i < s.drop_last().len() ==> s.drop_last()[i].path@ != s.last().path@);
        assert(!entries_map(s.drop_last()).contains_key(s.last().path@));
        assert(entries_map(s).dom() =~= entries_map(s.drop_last()).dom().insert(s.last().path@));
    }
}

proof fn lemma_entries_map_update(s: Seq<StatusEntry>, j: int, e: StatusEntry)
    requires
        entries_wf(s),
        0 <= j < s.len(),
        e.path@ == s[j].path@,
    ensures
        entries_wf(s.update(j, e)),
        entries_map(s.update(j, e)) == entries_map(s).insert(e.path@, e.status),
    decreases s.len(),
{
    if j == s.len() - 1 {
        assert(s.update(j, e).drop_last() =~= s.drop_last());
        assert(entries_map(s.update(j, e)) =~= entries_map(s).insert(e.path@, e.status));
    } else {
        assert(entries_wf(s.drop_last()));
        assert(s.drop_last()[j] == s[j]);
        lemma_entries_map_update(s.drop_last(), j, e);
        assert(s.update(j, e).drop_last() =~= s.drop_last().update(j, e));
        assert(s.update(j, e).last() == s.last());
        assert(e.path@ != s.last().path@);
        assert(entries_map(s.update(j, e)) =~= entries_map(s).insert(e.path@, e.status));
    }
}

proof fn lemma_entries_map_remove(s: Seq<StatusEntry>, j: int)
    requires
        entries_wf(s),
        0 <= j < s.len(),
    ensures
        entries_wf(s.remove(j)),
        entries_map(s.remove(j)) == entries_map(s).remove(s[j].path@),
    decreases s.len(),
{
    lemma_entries_map_contains(s, s[j].path@);
    if j == s.len() - 1 {
        assert(s.remove(j) =~= s.drop_last());
        assert(forall|i: int| 0 <= i < s.drop_last().len() ==> s[i].path@ != s[j].path@);
        lemma_entries_map_contains(s.drop_last(), s[j].path@);
        assert(!entries_map(s.drop_last()).contains_key(s[j].path@));
        assert(entries_map(s.remove(j)) =~= entries_map(s).remove(s[j].path@));
    } else {
        assert(entries_wf(s.drop_last()));
        assert(s.drop_last()[j] == s[j]);
        lemma_entries_map_remove(s.drop_last(), j);
        assert(s.remove(j).drop_last() =~= s.drop_last().remove(j));
        assert(s.remove(j).last() == s.last());
        assert(s[j].path@ != s.last().path@);
        assert(entries_map(s.remove(j)) =~= entries_map(s).remove(s[j].path@));
    }
}

/// A path → status map with unique keys, viewed as a `Map`.
pub struct StatusMap {
    entries: Vec<StatusEntry>,
}

impl View for StatusMap {
    type V = Map<Seq<char>, ClaudeStatus>;

    closed spec fn view(&self) -> Map<Seq<char>, ClaudeStatus> {
        entries_map(self.entries@)
    }
}

impl StatusMap {
    /// The entries hold no duplicate path.
    pub closed spec fn wf(&self) -> bool {
        entries_wf(self.entries@)
    }

    /// An empty map.
    pub fn new() -> (r: StatusMap)
        ensures
            r.wf(),
            r@ == Map::<Seq<char>, ClaudeStatus>::empty(),
    {
        StatusMap { entries: Vec::new() }
    }

    /// Index of the entry for `path`, if any.
    fn find(&self, path: &str) -> (r: Option<usize>)
        ensures
            match r {
                Some(j) => j < self.entries@.len() && self.entries@[j as int].path@ == path@,
                None => forall|i: int|
                    0 <= i < self.entries@.len() ==> self.entries@[i].path@ != path@,
            },
    {
        let pc = str_chars(path);
        let mut k: usize = 0;
        while k < self.entries.len()
            invariant
                pc@ == path@,
                k <= self.entries@.len(),
                forall|i: int| 0 <= i < k ==> self.entries@[i].path@ != path@,
            decreases self.entries@.len() - k,
        {
            let ec = str_chars(self.entries[k].path.as_str());
            if chars_eq(&ec, &pc) {
                return Some(k);
            }
            k = k + 1;
        }
        None
    }

    /// The status recorded for `path`, if any.
    pub fn get(&self, path: &str) -> (r: Option<ClaudeStatus>)
        requires
            self.wf(),
        ensures
            match r {
                Some(st) => self@.contains_key(path@) && self@[path@] == st,
                None => !self@.contains_key(path@),
            },
    {
        match self.find(path) {
            Some(j) => {
                proof {
                    lemma_entries_map_get(self.entries@, j as int);
                }
                Some(self.entries[j].status)
            },
            None => {
                proof {
                    lemma_entries_map_contains(self.entries@, path@);
                }
                None
            },
        }
    }

    /// Record `status` for `path`, replacing any earlier entry.
    pub fn set(&mut self, path: &str, status: ClaudeStatus)
        requires
            old(self).wf(),
        ensures
            final(self).wf(),
            final(self)@ == old(self)@.insert(path@, status),
    {
        let owned = path.to_owned();
        match self.find(path) {
            Some(j) => {
                let e = StatusEntry { path: owned, status };
                proof {
                    lemma_entries_map_update(self.entries@, j as int, e);
                }
                self.entries[j] = e;
            },
            None => {
                let ghost prev = self.entries@;
                self.entries.push(StatusEntry { path: owned, status });
                proof {
                    assert(self.entries@.drop_last() =~= prev);
                }
            },
        }
    }

    /// Drop the entry for `path`, if any.
    pub fn remove(&mut self, path: &str)
        requires
            old(self).wf(),
        ensures
            final(self).wf(),
            final(self)@ == old(self)@.remove(path@),
    {
        match self.find(path) {
            Some(j) => {
                proof {
                    lemma_entries_map_remove(self.entries@, j as int);
                }
                let _ = self.entries.remove(j);
            },
            None => {
                proof {
                    lemma_entries_map_contains(self.entries@, path@);
                    assert(entries_map(self.entries@).remove(path@) =~= entries_map(
                        self.entries@,
                    ));
                }
            },
        }
    }

    /// How many projects the map tracks.
    pub fn len(&self) -> (n: usize)
        requires
            self.wf(),
        ensures
            n == self@.dom().len(),
    {
        proof {
            lemma_entries_map_dom_len(self.entries@);
        }
        self.entries.len()
    }

    /// Whether the map tracks no project.
    pub fn is_empty(&self) -> (r: bool)
        requires
            self.wf(),
        ensures
            r == (self@ == Map::<Seq<char>, ClaudeStatus>::empty()),
    {
        let n = self.entries.len();
        proof {
            if self.entries@.len() > 0 {
                lemma_entries_map_get(self.entries@, 0);
            } else {
                assert(self@ =~= Map::<Seq<char>, ClaudeStatus>::empty());
            }
        }
        n == 0
    }

    /// The tracked paths, in insertion order.
    pub fn paths(&self) -> (r: Vec<String>)
        requires
            self.wf(),
        ensures
            r@.len() == self@.dom().len(),
            forall|i: int| 0 <= i < r@.len() ==> self@.contains_key(#[trigger] r@[i]@),
            forall|p: Seq<char>|
                self@.contains_key(p) ==> exists|i: int| 0 <= i < r@.len() && r@[i]@ == p,
    {
        let mut v: Vec<String> = Vec::new();
        let mut k: usize = 0;
        while k < self.entries.len()
            invariant
                self.wf(),
                k <= self.entries@.len(),
                v@.len() == k,
                forall|i: int|
                    0 <= i < k ==> v@[i]@ == self.entries@[i].path@ && self@.contains_key(v@[i]@),
            decreases self.entries@.len() - k,
        {
            proof {
                lemma_entries_map_get(self.entries@, k as int);
            }
            v.push(self.entries[k].path.clone());
            k = k + 1;
        }
        proof {
            lemma_entries_map_dom_len(self.entries@);
            assert forall|p: Seq<char>| self@.contains_key(p) implies exists|i: int|
                0 <= i < v@.len() && v@[i]@ == p by {
                lemma_entries_map_contains(self.entries@, p);
                let i = choose|i: int|
                    0 <= i < self.entries@.len() && self.entries@[i].path@ == p;
                assert(v@[i]@ == p);
            }
        }
        v
    }

    /// Whether this map and `other` record the same statuses.
    pub fn same_as(&self, other: &StatusMap) -> (r: bool)
        requires
            self.wf(),
            other.wf(),
        ensures
            r == (self@ == other@),
    {
        proof {
            lemma_entries_map_dom_len(self.entries@);
            lemma_entries_map_dom_len(other.entries@);
        }
        if self.entries.len() != other.entries.len() {
            proof {
                if self@ == other@ {
                    assert(self@.dom().len() == other@.dom().len());
                }
            }
            return false;
        }
        let mut k: usize = 0;
        while k < self.entries.len()
            invariant
                self.wf(),
                other.wf(),
                self.entries@.len() == other.entries@.len(),
                k <= self.entries@.len(),
                forall|i: int|
                    0 <= i < k ==> other@.contains_key(self.entries@[i].path@) && other@[
                        self.entries@[i].path@
                    ] == self.entries@[i].status,
            decreases self.entries@.len() - k,
        {
            proof {
                lemma_entries_map_get(self.entries@, k as int);
            }
            let st = self.entries[k].status;
            match other.get(self.entries[k].path.as_str()) {
                Some(ost) => {
                    let same = match (st, ost) {
                        (ClaudeStatus::Waiting, ClaudeStatus::Waiting) => true,
                        (ClaudeStatus::Generating, ClaudeStatus::Generating) => true,
                        _ => false,
                    };
                    if !same {
                        proof {
                            assert(self@[self.entries@[k as int].path@]
                                != other@[self.entries@[k as int].path@]);
                        }
                        return false;
                    }
                },
                None => {
                    proof {
                        assert(self@.contains_key(self.entries@[k as int].path@));
                    }
                    return false;
                },
            }
            k = k + 1;
        }
        proof {
            assert forall|p: Seq<char>| #[trigger] self@.dom().contains(p) implies other@.dom().contains(p)
                && other@[p] == self@[p] by {
                lemma_entries_map_contains(self.entries@, p);
                let i = choose|i: int|
                    0 <= i < self.entries@.len() && self.entries@[i].path@ == p;
                lemma_entries_map_get(self.entries@, i);
                assert(other@.contains_key(self.entries@[i].path@));
            }
            assert(self@.dom().subset_of(other@.dom()));
            assert(self@.dom() =~= other@.dom()) by {
                if exists|p: Seq<char>| other@.dom().contains(p) && !self@.dom().contains(p) {
                    let p = choose|p: Seq<char>|
                        other@.dom().contains(p) && !self@.dom().contains(p);
                    self@.dom().lemma_subset_not_in_lt(other@.dom(), p);
                }
            }
            assert(self@ =~= other@);
        }
        true
    }
}

/// `p` with one trailing `/` removed, when it has one.
pub open spec fn spec_strip_slash(p: Seq<char>) -> Seq<char> {
    if p.len() > 0 && p[p.len() - 1] == '/' {
        p.take(p.len() - 1)
    } else {
        p
    }
}

/// One waiting-file line, trimmed and with one trailing `/` removed.
pub open spec fn spec_clean_line(l: Seq<char>) -> Seq<char> {
    spec_strip_slash(spec_trim(l))
}

/// The cleaned, nonempty lines, in file order.
pub open spec fn spec_clean_lines(lines: Seq<Seq<char>>) -> Seq<Seq<char>>
    decreases lines.len(),
{
    if lines.len() == 0 {
        seq![]
    } else {
        let rest = spec_clean_lines(lines.drop_last());
        let c = spec_clean_line(lines.last());
        if c.len() > 0 {
            rest.push(c)
        } else {
            rest
        }
    }
}

/// The project paths asserted by a waiting-signal file content: one path
/// per line, trimmed, one trailing slash stripped, empties dropped.
pub open spec fn spec_waiting_projects(content: Seq<char>) -> Seq<Seq<char>> {
    spec_clean_lines(spec_split(content, seq!['\n']))
}

/// `p` with one trailing slash removed.
pub fn chars_strip_slash(p: &Vec<char>) -> (r: Vec<char>)
    ensures
        r@ == spec_strip_slash(p@),
{
    let n = p.len();
    if n > 0 && p[n - 1] == '/' {
        chars_subrange(p, 0, n - 1)
    } else {
        let r = chars_subrange(p, 0, n);
        proof {
            assert(r@ =~= p@);
        }
        r
    }
}

/// Normalize a project path: remove one trailing slash.
pub fn normalize_project_path(p: &str) -> (r: String)
    ensures
        r@ == spec_strip_slash(p@),
{
    let pc = str_chars(p);
    let stripped = chars_strip_slash(&pc);
    chars_string(&stripped)
}

/// The project paths a waiting-signal file content asserts.
pub fn get_waiting_projects(content: &str) -> (r: Vec<String>)
    ensures
        r.deep_view() == spec_waiting_projects(content@),
{
    let cc = str_chars(content);
    let mut nl: Vec<char> = Vec::new();
    nl.push('\n');
    proof {
        assert(nl@ =~= seq!['\n']);
    }
    let lines = chars_split(&cc, &nl);
    let ghost slines = spec_split(content@, seq!['\n']);
    proof {
        assert(lines.deep_view() == slines);
        assert forall|k: int| 0 <= k < lines@.len() implies lines@[k]@ == slines[k] by {
            assert(lines@[k]@ =~= lines.deep_view()[k]);
        }
    }
    let mut out: Vec<String> = Vec::new();
    let mut i: usize = 0;
    proof {
        assert(slines.take(0) =~= Seq::<Seq<char>>::empty());
        assert(out.deep_view() =~= spec_clean_lines(slines.take(0)));
    }
    while i < lines.len()
        invariant
            i <= lines@.len(),
            lines.deep_view() == slines,
            forall|k: int| 0 <= k < lines@.len() ==> lines@[k]@ == slines[k],
            out.deep_view() == spec_clean_lines(slines.take(i as int)),
        decreases lines@.len() - i,
    {
        let t = chars_trim(&lines[i]);
        let c = chars_strip_slash(&t);
        let ghost prev = out.deep_view();
        proof {
            assert(slines.take(i as int + 1).drop_last() =~= slines.take(i as int));
            assert(slines.take(i as int + 1).last() == slines[i as int]);
            assert(c@ == spec_clean_line(slines[i as int]));
        }
        if c.len() > 0 {
            out.push(chars_string(&c));
            proof {
                assert(out.deep_view() =~~= prev.push(c@));
            }
        }
        i = i + 1;
    }
    proof {
        assert(slines.take(lines@.len() as int) =~= slines);
    }
    out
}

/// The longest path in `paths` (from index `i` on) that `cwd` starts with,
/// or none; among equal lengths the earlier one (equal-length prefixes of
/// one `cwd` are the same string).
pub open spec fn spec_longest_prefix_from(
    paths: Seq<Seq<char>>,
    cwd: Seq<char>,
    i: int,
) -> Option<Seq<char>>
    decreases paths.len() - i when 0 <= i <= paths.len()
{
    if i >= paths.len() {
        None
    } else {
        let rest = spec_longest_prefix_from(paths, cwd, i + 1);
        if seq_starts_with(cwd, paths[i]) {
            match rest {
                None => Some(paths[i]),
                Some(b) => if b.len() > paths[i].len() {
                    Some(b)
                } else {
                    Some(paths[i])
                },
            }
        } else {
            rest
        }
    }
}

/// The project path `cwd` normalizes to: the longest known project path
/// it starts with, or `cwd` itself when none matches.
pub open spec fn spec_normalize_cwd(cwd: Seq<char>, paths: Seq<Seq<char>>) -> Seq<char> {
    match spec_longest_prefix_from(paths, cwd, 0) {
        None => cwd,
        Some(b) => b,
    }
}

/// Normalize a working-directory path to the project path it lies under:
/// the longest of `project_paths` that is a prefix of `cwd`, or `cwd`
/// itself when none is.
pub fn normalize_cwd_to_project_path(cwd: &str, project_paths: &Vec<String>) -> (r: String)
    ensures
        r@ == spec_normalize_cwd(cwd@, project_paths.deep_view()),
{
    let ghost paths = project_paths.deep_view();
    proof {
        assert(paths.len() == project_paths@.len());
        assert forall|k: int| 0 <= k < project_paths@.len() implies project_paths@[k]@
            == paths[k] by {}
    }
    let cc = str_chars(cwd);
    let n = project_paths.len();
    let mut best: Option<usize> = None;
    let mut k: usize = n;
    while k > 0
        invariant
            n == project_paths@.len(),
            paths == project_paths.deep_view(),
            paths.len() == n,
            cc@ == cwd@,
            k <= n,
            forall|j: int| 0 <= j < project_paths@.len() ==> project_paths@[j]@ == paths[j],
            match best {
                None => spec_longest_prefix_from(paths, cwd@, k as int) is None,
                Some(b) => b < n && seq_starts_with(cwd@, paths[b as int])
                    && spec_longest_prefix_from(paths, cwd@, k as int) == Some(paths[b as int]),
            },
        decreases k,
    {
        k = k - 1;
        let pc = str_chars(project_paths[k].as_str());
        if chars_starts_with(&cc, &pc) {
            match best {
                None => {
                    best = Some(k);
                },
                Some(b) => {
                    if project_paths[b].as_str().unicode_len()
                        < project_paths[k].as_str().unicode_len() {
                        best = Some(k);
                    } else {
                        proof {
                            if paths[b as int].len() == paths[k as int].len() {
                                assert(cwd@.subrange(0, paths[b as int].len() as int) == paths[
                                    b as int
                                ]);
                                assert(cwd@.subrange(0, paths[k as int].len() as int) == paths[
                                    k as int
                                ]);
                                assert(paths[b as int] == paths[k as int]);
                            }
                        }
                    }
                },
            }
        } else {
            proof {
                assert(!seq_starts_with(cwd@, paths[k as int]));
            }
        }
    }
    match best {
        None => cwd.to_owned(),
        Some(b) => project_paths[b].clone(),
    }
}

/// The status map and change flag after one terminal log line: `g <path>`
/// records `Generating`, `w <path>` records `Waiting`, `c <path>` removes
/// the entry; the flag says whether the map changed.  Malformed lines
/// (shorter than three characters, no space, unknown tag, empty path)
/// change nothing.
pub open spec fn spec_apply_line(line: Seq<char>, m: Map<Seq<char>, ClaudeStatus>) -> (
    Map<Seq<char>, ClaudeStatus>,
    bool,
) {
    if line.len() < 3 || line[1] != ' ' {
        (m, false)
    } else {
        let p = spec_clean_line(line.skip(2));
        if p.len() == 0 {
            (m, false)
        } else if line[0] == 'g' {
            if m.contains_key(p) && m[p] == ClaudeStatus::Generating {
                (m, false)
            } else {
                (m.insert(p, ClaudeStatus::Generating), true)
            }
        } else if line[0] == 'w' {
            if m.contains_key(p) && m[p] == ClaudeStatus::Waiting {
                (m, false)
            } else {
                (m.insert(p, ClaudeStatus::Waiting), true)
            }
        } else if line[0] == 'c' {
            if m.contains_key(p) {
                (m.remove(p), true)
            } else {
                (m, false)
            }
        } else {
            (m, false)
        }
    }
}

/// Apply one terminal log line to the status map; true when the map
/// changed.
pub fn apply_line(line: &str, statuses: &mut StatusMap) -> (r: bool)
    requires
        old(statuses).wf(),
    ensures
        final(statuses).wf(),
        final(statuses)@ == spec_apply_line(line@, old(statuses)@).0,
        r == spec_apply_line(line@, old(statuses)@).1,
{
    let lc = str_chars(line);
    if lc.len() < 3 {
        return false;
    }
    if lc[1] != ' ' {
        return false;
    }
    let rest = chars_subrange(&lc, 2, lc.len());
    proof {
        assert(rest@ =~= line@.skip(2));
    }
    let trimmed = chars_trim(&rest);
    let pc = chars_strip_slash(&trimmed);
    if pc.len() == 0 {
        return false;
    }
    let p = chars_string(&pc);
    let tag = lc[0];
    if tag == 'g' {
        match statuses.get(p.as_str()) {
            Some(ClaudeStatus::Generating) => false,
            _ => {
                statuses.set(p.as_str(), ClaudeStatus::Generating);
                true
            },
        }
    } else if tag == 'w' {
        match statuses.get(p.as_str()) {
            Some(ClaudeStatus::Waiting) => false,
            _ => {
                statuses.set(p.as_str(), ClaudeStatus::Waiting);
                true
            },
        }
    } else if tag == 'c' {
        match statuses.get(p.as_str()) {
            Some(_) => {
                statuses.remove(p.as_str());
                true
            },
            None => false,
        }
    } else {
        false
    }
}

/// Replaying a line right after applying it changes nothing: the second
/// application leaves the map as it is and reports no change.
pub proof fn lemma_apply_line_idempotent(line: Seq<char>, m: Map<Seq<char>, ClaudeStatus>)
    ensures
        spec_apply_line(line, spec_apply_line(line, m).0).0 == spec_apply_line(line, m).0,
        !spec_apply_line(line, spec_apply_line(line, m).0).1,
{
}

/// The session state encoded by a transcript record's plain fields: an
/// explicit completion marker is inactive; an assistant record is
/// tool-pending when it carries a tool invocation and generating when not;
/// user, progress and other system records are generating; anything else
/// (snapshots, summaries) is inactive.
pub open spec fn spec_classify_record(
    entry_type: Seq<char>,
    subtype: Seq<char>,
    has_tool_use: bool,
) -> SessionState {
    if entry_type == "system"@ && (subtype == "stop_hook_summary"@ || subtype == "turn_duration"@) {
        SessionState::Inactive
    } else if entry_type == "assistant"@ {
        if has_tool_use {
            SessionState::ToolPending
        } else {
            SessionState::Generating
        }
    } else if entry_type == "user"@ || entry_type == "progress"@ || entry_type == "system"@ {
        SessionState::Generating
    } else {
        SessionState::Inactive
    }
}

/// Classify a transcript record from its extracted plain fields.  The
/// result is a pure function of those fields, so replaying an identical
/// record always yields the same state.
pub fn classify_record(entry_type: &str, subtype: &str, has_tool_use: bool) -> (r: SessionState)
    ensures
        r == spec_classify_record(entry_type@, subtype@, has_tool_use),
{
    if str_eq(entry_type, "system") && (str_eq(subtype, "stop_hook_summary") || str_eq(
        subtype,
        "turn_duration",
    )) {
        SessionState::Inactive
    } else if str_eq(entry_type, "assistant") {
        if has_tool_use {
            SessionState::ToolPending
        } else {
            SessionState::Generating
        }
    } else if str_eq(entry_type, "user") || str_eq(entry_type, "progress") || str_eq(
        entry_type,
        "system",
    ) {
        SessionState::Generating
    } else {
        SessionState::Inactive
    }
}

/// The field's content, or the empty sequence when the field is absent.
pub open spec fn opt_or_empty(o: Option<Seq<char>>) -> Seq<char> {
    match o {
        Some(s) => s,
        None => Seq::empty(),
    }
}

/// Classify the last line of a session transcript: its top-level `type`
/// and `subtype` strings (absent fields read as empty, so a line that is
/// not valid JSON classifies as inactive) and whether any entry under
/// `message.content` is a tool invocation feed [`classify_record`],
/// which carries the exact classification rules.
pub fn session_state_of_line(line: &str) -> (r: SessionState)
    ensures
        r == spec_classify_record(
            opt_or_empty(line_str_field(line@, "type"@)),
            opt_or_empty(line_str_field(line@, "subtype"@)),
            line_content_types(line@).contains("tool_use"@),
        ),
{
    let entry_type = match json_line_str_field(line, "type") {
        Some(s) => s,
        None => String::new(),
    };
    let subtype = match json_line_str_field(line, "subtype") {
        Some(s) => s,
        None => String::new(),
    };
    let types = json_line_content_types(line);
    let marker = str_chars("tool_use");
    let mut has_tool_use = false;
    let mut k: usize = 0;
    while k < types.len()
        invariant
            marker@ == "tool_use"@,
            k <= types@.len(),
            has_tool_use == exists|j: int| 0 <= j < k && types@[j]@ == "tool_use"@,
        decreases types@.len() - k,
    {
        let tc = str_chars(types[k].as_str());
        if chars_eq(&tc, &marker) {
            has_tool_use = true;
            proof {
                assert(types@[k as int]@ == "tool_use"@);
            }
        }
        k = k + 1;
    }
    proof {
        assert(has_tool_use == line_content_types(line@).contains("tool_use"@)) by {
            if has_tool_use {
                let j = choose|j: int| 0 <= j < types@.len() && types@[j]@ == "tool_use"@;
                assert(types.deep_view()[j] == "tool_use"@);
            }
            if line_content_types(line@).contains("tool_use"@) {
                let j = choose|j: int|
                    0 <= j < types.deep_view().len() && types.deep_view()[j] == "tool_use"@;
                assert(types@[j]@ == "tool_use"@);
            }
        }
    }
    classify_record(entry_type.as_str(), subtype.as_str(), has_tool_use)
}

/// The fields this tracker reads from one history-index record.
pub struct HistoryRecord {
    /// The project path the session belongs to, when recorded.
    pub project: Option<String>,
    /// The session identifier.
    pub session_id: String,
}

/// Relies on `serde_json::from_str::<Value>` and `Value::get`: the
/// `project` and `sessionId` fields of one history-index line, exactly as
/// [`history_line_ok`], [`history_project`] and [`history_session_id`]
/// describe.  None when the line is not valid JSON, lacks a string
/// `sessionId`, or carries a `project` that is neither a string nor null;
/// a null `project` yields a record without one.  The result depends on
/// the line alone.
#[verifier::external_body]
pub(crate) fn parse_history_line(line: &str) -> (r: Option<HistoryRecord>)
    ensures
        r is Some <==> history_line_ok(line@),
        r matches Some(rec) ==> rec.session_id@ == history_session_id(line@) && (match rec.project {
            Some(p) => Some(p@),
            None => None::<Seq<char>>,
        }) == history_project(line@),
{
    let v: serde_json::Value = serde_json::from_str(line).ok()?;
    let session_id = match v.get("sessionId") {
        Some(serde_json::Value::String(s)) => s.clone(),
        _ => return None,
    };
    let project = match v.get("project") {
        Some(serde_json::Value::String(p)) => Some(p.clone()),
        Some(serde_json::Value::Null) | None => None,
        Some(_) => return None,
    };
    Some(HistoryRecord { project, session_id })
}

/// A character survives project-path encoding unchanged exactly when it is
/// ASCII alphanumeric, `-` or `_`; every other character becomes `-`.
pub open spec fn spec_encode_char(c: char) -> char {
    if ('0' <= c && c <= '9') || ('a' <= c && c <= 'z') || ('A' <= c && c <= 'Z') || c == '-' || c
        == '_' {
        c
    } else {
        '-'
    }
}

/// The encoded form of a project path, as the session store names its
/// per-project directories.
pub open spec fn spec_encode_project_path(p: Seq<char>) -> Seq<char> {
    Seq::new(p.len(), |i: int| spec_encode_char(p[i]))
}

/// Encode a project path the way the session store names directories.
pub fn encode_project_path(p: &str) -> (r: String)
    ensures
        r@ == spec_encode_project_path(p@),
{
    let pc = str_chars(p);
    let mut out: Vec<char> = Vec::new();
    let mut i: usize = 0;
    while i < pc.len()
        invariant
            pc@ == p@,
            i <= pc@.len(),
            out@.len() == i,
            forall|j: int| 0 <= j < i ==> out@[j] == spec_encode_char(p@[j]),
        decreases pc@.len() - i,
    {
        let c = pc[i];
        if ('0' <= c && c <= '9') || ('a' <= c && c <= 'z') || ('A' <= c && c <= 'Z') || c == '-'
            || c == '_' {
            out.push(c);
        } else {
            out.push('-');
        }
        i = i + 1;
    }
    proof {
        assert(out@ =~= spec_encode_project_path(p@));
    }
    chars_string(&out)
}

/// The transcript location of one session, relative to the assistant's
/// home directory: `projects/<encoded project>/<session id>.jsonl`.
pub fn session_file_rel_path(project: &str, session_id: &str) -> (r: String)
    ensures
        r@ == "projects/"@ + spec_encode_project_path(project@) + seq!['/'] + session_id@
            + ".jsonl"@,
{
    let mut out = str_chars("projects/");
    let encoded = encode_project_path(project);
    let enc_chars = str_chars(encoded.as_str());
    chars_append(&mut out, &enc_chars);
    out.push('/');
    let sid = str_chars(session_id);
    chars_append(&mut out, &sid);
    let suffix = str_chars(".jsonl");
    chars_append(&mut out, &suffix);
    proof {
        assert(out@ =~= "projects/"@ + spec_encode_project_path(project@) + seq!['/']
            + session_id@ + ".jsonl"@);
    }
    chars_string(&out)
}

/// The last line of `content` whose trimmed form is nonempty, scanning
/// from the end; none when every line is blank.
pub open spec fn spec_last_nonempty_from(lines: Seq<Seq<char>>, i: int) -> Option<Seq<char>>
    decreases i when 0 <= i <= lines.len()
{
    if i <= 0 {
        None
    } else if spec_trim(lines[i - 1]).len() > 0 {
        Some(lines[i - 1])
    } else {
        spec_last_nonempty_from(lines, i - 1)
    }
}

/// The last nonempty line of a transcript buffer.
pub open spec fn spec_last_nonempty_line(content: Seq<char>) -> Option<Seq<char>> {
    let lines = spec_split(content, seq!['\n']);
    spec_last_nonempty_from(lines, lines.len() as int)
}

/// One project's active session transcripts, grouped from the history
/// index.
pub struct SessionGroup {
    /// Normalized project path.
    pub path: String,
    /// The project's session transcript locations, deduplicated, relative
    /// to the assistant's home directory.
    pub files: Vec<String>,
}

/// The view of one session group.
#[verifier::ext_equal]
pub struct GroupView {
    pub path: Seq<char>,
    pub files: Seq<Seq<char>>,
}

/// The view of a group list.
pub open spec fn groups_view(gs: Seq<SessionGroup>) -> Seq<GroupView> {
    Seq::new(gs.len(), |i: int| GroupView { path: gs[i].path@, files: gs[i].files.deep_view() })
}

/// The view of one history record.
#[verifier::ext_equal]
pub struct HistoryView {
    pub project: Option<Seq<char>>,
    pub session_id: Seq<char>,
}

/// The view of a history record list.
pub open spec fn history_view(rs: Seq<HistoryRecord>) -> Seq<HistoryView> {
    Seq::new(
        rs.len(),
        |i: int|
            HistoryView {
                project: match rs[i].project {
                    None => None,
                    Some(p) => Some(p@),
                },
                session_id: rs[i].session_id@,
            },
    )
}

/// Index of the first group for path `p` at or after `i`, or a negative
/// value when there is none.
pub open spec fn spec_group_index(gs: Seq<GroupView>, p: Seq<char>, i: int) -> int
    decreases gs.len() - i when 0 <= i <= gs.len()
{
    if i >= gs.len() {
        -1
    } else if gs[i].path == p {
        i
    } else {
        spec_group_index(gs, p, i + 1)
    }
}

/// The groups after recording session file `f` for project `p`: a new
/// group when the project is new, the file appended once otherwise.
pub open spec fn spec_add_session(gs: Seq<GroupView>, p: Seq<char>, f: Seq<char>) -> Seq<
    GroupView,
> {
    let ix = spec_group_index(gs, p, 0);
    if ix < 0 {
        gs.push(GroupView { path: p, files: seq![f] })
    } else if gs[ix].files.contains(f) {
        gs
    } else {
        gs.update(ix, GroupView { path: p, files: gs[ix].files.push(f) })
    }
}

/// The known paths after recording `p` (kept once, first occurrence
/// order).
pub open spec fn spec_add_path(ps: Seq<Seq<char>>, p: Seq<char>) -> Seq<Seq<char>> {
    if ps.contains(p) {
        ps
    } else {
        ps.push(p)
    }
}

/// The session groups and known project paths collected from the history
/// records, in order: records without a project are skipped; paths are
/// normalized; session files are deduplicated per project before any
/// filesystem query happens.
pub open spec fn spec_collect(rs: Seq<HistoryView>) -> (Seq<GroupView>, Seq<Seq<char>>)
    decreases rs.len(),
{
    if rs.len() == 0 {
        (seq![], seq![])
    } else {
        let prev = spec_collect(rs.drop_last());
        let r = rs.last();
        match r.project {
            None => prev,
            Some(pr) => {
                let p = spec_strip_slash(pr);
                let f = "projects/"@ + spec_encode_project_path(p) + seq!['/'] + r.session_id
                    + ".jsonl"@;
                (spec_add_session(prev.0, p, f), spec_add_path(prev.1, p))
            },
        }
    }
}

/// The grouped sessions and known paths from the history index.
pub struct SessionIndex {
    /// Session transcript locations per project.
    pub groups: Vec<SessionGroup>,
    /// Every project path the index mentions, in first-occurrence order.
    pub all_project_paths: Vec<String>,
}

/// Group the history records by normalized project path, deduplicating
/// session files, and collect every known project path.
pub fn collect_sessions(records: &Vec<HistoryRecord>) -> (r: SessionIndex)
    ensures
        groups_view(r.groups@) == spec_collect(history_view(records@)).0,
        r.all_project_paths.deep_view() == spec_collect(history_view(records@)).1,
{
    let ghost hv = history_view(records@);
    let mut groups: Vec<SessionGroup> = Vec::new();
    let mut all_paths: Vec<String> = Vec::new();
    let mut i: usize = 0;
    proof {
        assert(hv.take(0) =~= Seq::<HistoryView>::empty());
        assert(groups_view(groups@) =~= spec_collect(hv.take(0)).0);
        assert(all_paths.deep_view() =~= spec_collect(hv.take(0)).1);
    }
    while i < records.len()
        invariant
            i <= records@.len(),
            hv == history_view(records@),
            groups_view(groups@) == spec_collect(hv.take(i as int)).0,
            all_paths.deep_view() == spec_collect(hv.take(i as int)).1,
        decreases records@.len() - i,
    {
        proof {
            assert(hv.take(i as int + 1).drop_last() =~= hv.take(i as int));
            assert(hv.take(i as int + 1).last() == hv[i as int]);
        }
        match &records[i].project {
            None => {},
            Some(project) => {
                let p = normalize_project_path(project.as_str());
                let f = session_file_rel_path(p.as_str(), records[i].session_id.as_str());
                let pc = str_chars(p.as_str());
                let mut known = false;
                let mut k: usize = 0;
                while k < all_paths.len()
                    invariant
                        pc@ == p@,
                        k <= all_paths@.len(),
                        known == exists|j: int| 0 <= j < k && all_paths@[j]@ == p@,
                    decreases all_paths@.len() - k,
                {
                    let ac = str_chars(all_paths[k].as_str());
                    if chars_eq(&ac, &pc) {
                        known = true;
                        proof {
                            assert(all_paths@[k as int]@ == p@);
                        }
                    }
                    k = k + 1;
                }
                proof {
                    assert(known == all_paths.deep_view().contains(p@)) by {
                        if known {
                            let j = choose|j: int|
                                0 <= j < all_paths@.len() && all_paths@[j]@ == p@;
                            assert(all_paths.deep_view()[j] == p@);
                        }
                        if all_paths.deep_view().contains(p@) {
                            let j = choose|j: int|
                                0 <= j < all_paths.deep_view().len() && all_paths.deep_view()[j]
                                    == p@;
                            assert(all_paths@[j]@ == p@);
                        }
                    }
                }
                let ghost prev_paths = all_paths.deep_view();
                if !known {
                    all_paths.push(p.clone());
                    proof {
                        assert(all_paths.deep_view() =~~= prev_paths.push(p@));
                    }
                }
                let mut ix: usize = 0;
                let n = groups.len();
                while ix < n && !group_path_is(&groups, ix, &pc)
                    invariant
                        n == groups@.len(),
                        pc@ == p@,
                        ix <= n,
                        spec_group_index(groups_view(groups@), p@, 0) == spec_group_index(
                            groups_view(groups@),
                            p@,
                            ix as int,
                        ),
                    decreases n - ix,
                {
                    proof {
                        assert(groups_view(groups@)[ix as int].path != p@);
                    }
                    ix = ix + 1;
                }
                let ghost gv = groups_view(groups@);
                let ghost pview = p@;
                let ghost fview = f@;
                if ix == n {
                    proof {
                        assert(spec_group_index(gv, pview, 0) == -1);
                    }
                    let mut files: Vec<String> = Vec::new();
                    files.push(f);
                    groups.push(SessionGroup { path: p, files });
                    proof {
                        assert(groups_view(groups@) =~~= gv.push(
                            GroupView { path: pview, files: seq![fview] },
                        ));
                    }
                } else {
                    proof {
                        assert(groups_view(groups@)[ix as int].path == p@);
                        assert(spec_group_index(gv, p@, 0) == ix as int);
                    }
                    let fc = str_chars(f.as_str());
                    let mut have = false;
                    let mut t: usize = 0;
                    while t < groups[ix].files.len()
                        invariant
                            ix < groups@.len(),
                            fc@ == f@,
                            t <= groups@[ix as int].files@.len(),
                            have == exists|j: int|
                                0 <= j < t && groups@[ix as int].files@[j]@ == f@,
                        decreases groups@[ix as int].files@.len() - t,
                    {
                        let gc = str_chars(groups[ix].files[t].as_str());
                        if chars_eq(&gc, &fc) {
                            have = true;
                            proof {
                                assert(groups@[ix as int].files@[t as int]@ == f@);
                            }
                        }
                        t = t + 1;
                    }
                    proof {
                        assert(have == groups@[ix as int].files.deep_view().contains(f@)) by {
                            if have {
                                let j = choose|j: int|
                                    0 <= j < groups@[ix as int].files@.len() && groups@[
                                        ix as int
                                    ].files@[j]@ == f@;
                                assert(groups@[ix as int].files.deep_view()[j] == f@);
                            }
                            if groups@[ix as int].files.deep_view().contains(f@) {
                                let j = choose|j: int|
                                    0 <= j < groups@[ix as int].files.deep_view().len()
                                        && groups@[ix as int].files.deep_view()[j] == f@;
                                assert(groups@[ix as int].files@[j]@ == f@);
                            }
                        }
                    }
                    if !have {
                        let mut new_files: Vec<String> = Vec::new();
                        let mut t2: usize = 0;
                        while t2 < groups[ix].files.len()
                            invariant
                                ix < groups@.len(),
                                t2 <= groups@[ix as int].files@.len(),
                                new_files.deep_view() == groups@[ix as int].files.deep_view().take(
                                    t2 as int,
                                ),
                            decreases groups@[ix as int].files@.len() - t2,
                        {
                            let ghost pf = new_files.deep_view();
                            new_files.push(groups[ix].files[t2].clone());
                            proof {
                                assert(new_files.deep_view() =~~= pf.push(
                                    groups@[ix as int].files@[t2 as int]@,
                                ));
                                assert(new_files.deep_view() =~= groups@[
                                    ix as int
                                ].files.deep_view().take(t2 as int + 1));
                            }
                            t2 = t2 + 1;
                        }
                        proof {
                            assert(groups@[ix as int].files.deep_view().take(
                                groups@[ix as int].files@.len() as int,
                            ) =~= groups@[ix as int].files.deep_view());
                        }
                        new_files.push(f);
                        let ghost old_files = gv[ix as int].files;
                        let updated = SessionGroup { path: p, files: new_files };
                        groups[ix] = updated;
                        proof {
                            assert(groups_view(groups@) =~~= gv.update(
                                ix as int,
                                GroupView { path: pview, files: old_files.push(fview) },
                            ));
                        }
                    }
                }
            },
        }
        i = i + 1;
    }
    proof {
        assert(hv.take(records@.len() as int) =~= hv);
    }
    SessionIndex { groups, all_project_paths: all_paths }
}

/// The records of a history index's lines, in order: blank lines and
/// lines without a usable record are skipped.
pub open spec fn spec_history_views(lines: Seq<Seq<char>>) -> Seq<HistoryView>
    decreases lines.len(),
{
    if lines.len() == 0 {
        seq![]
    } else {
        let rest = spec_history_views(lines.drop_last());
        let l = lines.last();
        if spec_trim(l).len() == 0 {
            rest
        } else if history_line_ok(l) {
            rest.push(
                HistoryView { project: history_project(l), session_id: history_session_id(l) },
            )
        } else {
            rest
        }
    }
}

/// Read a whole history index: parse its lines (skipping blank ones and
/// unusable records), group the sessions by normalized project path with
/// per-project file deduplication, and collect every known project path.
pub fn collect_history(content: &str) -> (r: SessionIndex)
    ensures
        ({
            let views = spec_history_views(spec_split(content@, seq!['\n']));
            &&& groups_view(r.groups@) == spec_collect(views).0
            &&& r.all_project_paths.deep_view() == spec_collect(views).1
        }),
{
    let cc = str_chars(content);
    let mut nl: Vec<char> = Vec::new();
    nl.push('\n');
    proof {
        assert(nl@ =~= seq!['\n']);
    }
    let lines = chars_split(&cc, &nl);
    let ghost slines = spec_split(content@, seq!['\n']);
    proof {
        assert(lines.deep_view() == slines);
        assert forall|k: int| 0 <= k < lines@.len() implies lines@[k]@ == slines[k] by {
            assert(lines@[k]@ =~= lines.deep_view()[k]);
        }
    }
    let mut records: Vec<HistoryRecord> = Vec::new();
    let mut i: usize = 0;
    proof {
        assert(slines.take(0) =~= Seq::<Seq<char>>::empty());
        assert(history_view(records@) =~= spec_history_views(slines.take(0)));
    }
    while i < lines.len()
        invariant
            i <= lines@.len(),
            slines == spec_split(content@, seq!['\n']),
            lines.deep_view() == slines,
            forall|k: int| 0 <= k < lines@.len() ==> lines@[k]@ == slines[k],
            history_view(records@) == spec_history_views(slines.take(i as int)),
        decreases lines@.len() - i,
    {
        proof {
            assert(slines.take(i as int + 1).drop_last() =~= slines.take(i as int));
            assert(slines.take(i as int + 1).last() == slines[i as int]);
        }
        let t = chars_trim(&lines[i]);
        if t.len() > 0 {
            let line_string = chars_string(&lines[i]);
            match parse_history_line(line_string.as_str()) {
                Some(rec) => {
                    let ghost prev = history_view(records@);
                    let ghost rv = HistoryView {
                        project: history_project(slines[i as int]),
                        session_id: history_session_id(slines[i as int]),
                    };
                    records.push(rec);
                    proof {
                        assert(history_view(records@) =~~= prev.push(rv));
                    }
                },
                None => {},
            }
        }
        i = i + 1;
    }
    proof {
        assert(slines.take(lines@.len() as int) =~= slines);
    }
    collect_sessions(&records)
}

/// Whether group `ix` is for path `p`.
fn group_path_is(groups: &Vec<SessionGroup>, ix: usize, p: &Vec<char>) -> (r: bool)
    requires
        ix < groups@.len(),
    ensures
        r == (groups_view(groups@)[ix as int].path == p@),
{
    let gc = str_chars(groups[ix].path.as_str());
    chars_eq(&gc, p)
}

/// The last non-blank line of `content`, or none when all lines are blank.
pub fn last_nonempty_line(content: &str) -> (r: Option<String>)
    ensures
        match r {
            Some(s) => spec_last_nonempty_line(content@) == Some(s@),
            None => spec_last_nonempty_line(content@) is None,
        },
{
    let cc = str_chars(content);
    let mut nl: Vec<char> = Vec::new();
    nl.push('\n');
    proof {
        assert(nl@ =~= seq!['\n']);
    }
    let lines = chars_split(&cc, &nl);
    let ghost slines = spec_split(content@, seq!['\n']);
    proof {
        assert(lines.deep_view() == slines);
        assert forall|k: int| 0 <= k < lines@.len() implies lines@[k]@ == slines[k] by {
            assert(lines@[k]@ =~= lines.deep_view()[k]);
        }
    }
    let mut i: usize = lines.len();
    while i > 0
        invariant
            i <= lines@.len(),
            slines == spec_split(content@, seq!['\n']),
            lines.deep_view() == slines,
            forall|k: int| 0 <= k < lines@.len() ==> lines@[k]@ == slines[k],
            spec_last_nonempty_from(slines, slines.len() as int) == spec_last_nonempty_from(
                slines,
                i as int,
            ),
        decreases i,
    {
        let t = chars_trim(&lines[i - 1]);
        if t.len() > 0 {
            proof {
                assert(spec_trim(slines[i as int - 1]).len() > 0);
                assert(spec_last_nonempty_from(slines, i as int) == Some(slines[i as int - 1]));
            }
            return Some(chars_string(&lines[i - 1]));
        }
        proof {
            assert(spec_last_nonempty_from(slines, i as int) == spec_last_nonempty_from(
                slines,
                i as int - 1,
            ));
        }
        i = i - 1;
    }
    None
}


/// The sessions observed for one project: the project's normalized path
/// and the classified state of each recently-updated session transcript.
pub struct ProjectSessions {
    /// Normalized project path (no trailing slash).
    pub path: String,
    /// Classified states of the project's active sessions.
    pub states: Vec<SessionState>,
}

/// Project status from its session states alone: one generating session
/// makes the project generating; otherwise a tool-pending session makes it
/// waiting when the waiting signal lists the project and generating when
/// not (gap avoidance); with neither, the project has no session-derived
/// status.
pub open spec fn spec_session_status(states: Seq<SessionState>, waiting: bool) -> Option<
    ClaudeStatus,
> {
    if states.contains(SessionState::Generating) {
        Some(ClaudeStatus::Generating)
    } else if states.contains(SessionState::ToolPending) {
        if waiting {
            Some(ClaudeStatus::Waiting)
        } else {
            Some(ClaudeStatus::Generating)
        }
    } else {
        None
    }
}

/// The waiting-signal file lists project `p`: some raw waiting entry
/// normalizes to `p`.
pub open spec fn spec_is_waiting(
    p: Seq<char>,
    waiting_raw: Seq<Seq<char>>,
    all_paths: Seq<Seq<char>>,
) -> bool {
    exists|k: int|
        0 <= k < waiting_raw.len() && spec_normalize_cwd(waiting_raw[k], all_paths) == p
}

/// The statuses derived from the session data alone, in input order.
pub open spec fn spec_statuses_after_sessions(
    sessions: Seq<ProjectSessions>,
    waiting_raw: Seq<Seq<char>>,
    all_paths: Seq<Seq<char>>,
) -> Map<Seq<char>, ClaudeStatus>
    decreases sessions.len(),
{
    if sessions.len() == 0 {
        Map::empty()
    } else {
        let m = spec_statuses_after_sessions(sessions.drop_last(), waiting_raw, all_paths);
        let last = sessions.last();
        match spec_session_status(
            last.states@,
            spec_is_waiting(last.path@, waiting_raw, all_paths),
        ) {
            Some(st) => m.insert(last.path@, st),
            None => m,
        }
    }
}

/// The waiting-signal overlay: waiting projects not already tracked are
/// added as waiting; existing entries are never overwritten.
pub open spec fn spec_overlay_waiting(
    m: Map<Seq<char>, ClaudeStatus>,
    waiting_raw: Seq<Seq<char>>,
    all_paths: Seq<Seq<char>>,
    i: int,
) -> Map<Seq<char>, ClaudeStatus>
    decreases waiting_raw.len() - i when 0 <= i <= waiting_raw.len()
{
    if i >= waiting_raw.len() {
        m
    } else {
        let p = spec_normalize_cwd(waiting_raw[i], all_paths);
        let m2 = if m.contains_key(p) {
            m
        } else {
            m.insert(p, ClaudeStatus::Waiting)
        };
        spec_overlay_waiting(m2, waiting_raw, all_paths, i + 1)
    }
}

/// The status of every tracked project: session-derived statuses first,
/// then the waiting-signal overlay.
pub open spec fn spec_all_statuses(
    sessions: Seq<ProjectSessions>,
    waiting_raw: Seq<Seq<char>>,
    all_paths: Seq<Seq<char>>,
) -> Map<Seq<char>, ClaudeStatus> {
    spec_overlay_waiting(
        spec_statuses_after_sessions(sessions, waiting_raw, all_paths),
        waiting_raw,
        all_paths,
        0,
    )
}

/// Whether the waiting-signal entries (normalized) list project `p`.
fn is_waiting(p: &str, waiting_raw: &Vec<String>, all_paths: &Vec<String>) -> (r: bool)
    ensures
        r == spec_is_waiting(p@, waiting_raw.deep_view(), all_paths.deep_view()),
{
    let ghost wr = waiting_raw.deep_view();
    proof {
        assert(wr.len() == waiting_raw@.len());
        assert forall|k: int| 0 <= k < waiting_raw@.len() implies waiting_raw@[k]@ == wr[k] by {}
    }
    let pc = str_chars(p);
    let mut k: usize = 0;
    while k < waiting_raw.len()
        invariant
            pc@ == p@,
            wr == waiting_raw.deep_view(),
            wr.len() == waiting_raw@.len(),
            forall|j: int| 0 <= j < waiting_raw@.len() ==> waiting_raw@[j]@ == wr[j],
            k <= waiting_raw@.len(),
            forall|j: int|
                0 <= j < k ==> spec_normalize_cwd(wr[j], all_paths.deep_view()) != p@,
        decreases waiting_raw@.len() - k,
    {
        let norm = normalize_cwd_to_project_path(waiting_raw[k].as_str(), all_paths);
        let nc = str_chars(norm.as_str());
        if chars_eq(&nc, &pc) {
            proof {
                assert(spec_normalize_cwd(waiting_raw.deep_view()[k as int], all_paths.deep_view())
                    == p@);
            }
            return true;
        }
        k = k + 1;
    }
    false
}

/// Compute the status of every project from the observed session data and
/// the waiting-signal entries.  `waiting_raw` holds the cleaned lines of
/// the waiting-signal file; `all_paths` the project paths known from the
/// history index, used to normalize waiting entries.
pub fn get_all_statuses(
    sessions: &Vec<ProjectSessions>,
    waiting_raw: &Vec<String>,
    all_paths: &Vec<String>,
) -> (r: StatusMap)
    ensures
        r.wf(),
        r@ == spec_all_statuses(sessions@, waiting_raw.deep_view(), all_paths.deep_view()),
{
    let ghost wr = waiting_raw.deep_view();
    let ghost ap = all_paths.deep_view();
    let mut statuses = StatusMap::new();
    let mut i: usize = 0;
    proof {
        assert(sessions@.take(0) =~= Seq::<ProjectSessions>::empty());
    }
    while i < sessions.len()
        invariant
            wr == waiting_raw.deep_view(),
            ap == all_paths.deep_view(),
            i <= sessions@.len(),
            statuses.wf(),
            statuses@ == spec_statuses_after_sessions(sessions@.take(i as int), wr, ap),
        decreases sessions@.len() - i,
    {
        let entry = &sessions[i];
        let mut has_generating = false;
        let mut has_tool_pending = false;
        let mut k: usize = 0;
        while k < entry.states.len()
            invariant
                k <= entry.states@.len(),
                has_generating == exists|j: int|
                    0 <= j < k && entry.states@[j] == SessionState::Generating,
                has_tool_pending == exists|j: int|
                    0 <= j < k && entry.states@[j] == SessionState::ToolPending,
            decreases entry.states@.len() - k,
        {
            let st = entry.states[k];
            match st {
                SessionState::Generating => {
                    has_generating = true;
                },
                SessionState::ToolPending => {
                    has_tool_pending = true;
                },
                SessionState::Inactive => {
                },
            }
            proof {
                if entry.states@[k as int] == SessionState::Generating {
                    assert(exists|j: int|
                        0 <= j < k + 1 && entry.states@[j] == SessionState::Generating);
                }
                if entry.states@[k as int] == SessionState::ToolPending {
                    assert(exists|j: int|
                        0 <= j < k + 1 && entry.states@[j] == SessionState::ToolPending);
                }
            }
            k = k + 1;
        }
        proof {
            assert(has_generating == entry.states@.contains(SessionState::Generating));
            assert(has_tool_pending == entry.states@.contains(SessionState::ToolPending));
            assert(sessions@.take(i as int + 1).drop_last() =~= sessions@.take(i as int));
            assert(sessions@.take(i as int + 1).last() == sessions@[i as int]);
        }
        if has_generating {
            statuses.set(entry.path.as_str(), ClaudeStatus::Generating);
        } else if has_tool_pending {
            if is_waiting(entry.path.as_str(), waiting_raw, all_paths) {
                statuses.set(entry.path.as_str(), ClaudeStatus::Waiting);
            } else {
                statuses.set(entry.path.as_str(), ClaudeStatus::Generating);
            }
        }
        i = i + 1;
    }
    proof {
        assert(sessions@.take(sessions@.len() as int) =~= sessions@);
    }
    let mut k: usize = 0;
    while k < waiting_raw.len()
        invariant
            wr == waiting_raw.deep_view(),
            ap == all_paths.deep_view(),
            wr.len() == waiting_raw@.len(),
            k <= waiting_raw@.len(),
            statuses.wf(),
            spec_overlay_waiting(statuses@, wr, ap, k as int) == spec_all_statuses(
                sessions@,
                wr,
                ap,
            ),
        decreases waiting_raw@.len() - k,
    {
        proof {
            assert(waiting_raw@[k as int]@ == wr[k as int]);
        }
        let norm = normalize_cwd_to_project_path(waiting_raw[k].as_str(), all_paths);
        match statuses.get(norm.as_str()) {
            Some(_) => {},
            None => {
                statuses.set(norm.as_str(), ClaudeStatus::Waiting);
            },
        }
        k = k + 1;
    }
    statuses
}

/// The cleaned waiting entries that survive clearing `clear`: an entry is
/// removed when it equals `clear` or lies strictly below it.
pub open spec fn spec_keeps(cwd: Seq<char>, clear: Seq<char>) -> bool {
    cwd != clear && !seq_starts_with(cwd, clear + seq!['/'])
}

/// The entries of `lines` that survive clearing `clear`, in order.
pub open spec fn spec_filter_keeps(lines: Seq<Seq<char>>, clear: Seq<char>) -> Seq<Seq<char>>
    decreases lines.len(),
{
    if lines.len() == 0 {
        seq![]
    } else {
        let rest = spec_filter_keeps(lines.drop_last(), clear);
        if spec_keeps(lines.last(), clear) {
            rest.push(lines.last())
        } else {
            rest
        }
    }
}

/// The lines joined back into file content, one `\n` after each.
pub open spec fn spec_join_lines(lines: Seq<Seq<char>>) -> Seq<char>
    decreases lines.len(),
{
    if lines.len() == 0 {
        Seq::empty()
    } else {
        spec_join_lines(lines.drop_last()) + lines.last() + seq!['\n']
    }
}

/// The waiting-signal file content after clearing entries for a project:
/// none deletes the file outright; clearing a path removes its entry and
/// the entries of its subdirectories, and the file is deleted when no
/// entry remains.
pub fn clear_notification_file_for_path(content: &str, path_to_clear: Option<&str>) -> (r: Option<
    String,
>)
    ensures
        path_to_clear is None ==> r is None,
        path_to_clear matches Some(p) ==> ({
            let remaining = spec_filter_keeps(
                spec_waiting_projects(content@),
                spec_strip_slash(p@),
            );
            if remaining.len() == 0 {
                r is None
            } else {
                r matches Some(s) && s@ == spec_join_lines(remaining)
            }
        }),
{
    let clear_path = match path_to_clear {
        None => {
            return None;
        },
        Some(p) => p,
    };
    let cc = str_chars(clear_path);
    let clear = chars_strip_slash(&cc);
    let mut clear_slash = chars_subrange(&clear, 0, clear.len());
    clear_slash.push('/');
    proof {
        assert(clear_slash@ =~= spec_strip_slash(clear_path@) + seq!['/']);
    }
    let waiting = get_waiting_projects(content);
    let ghost lines = spec_waiting_projects(content@);
    proof {
        assert(waiting.deep_view() == lines);
        assert forall|k: int| 0 <= k < waiting@.len() implies waiting@[k]@ == lines[k] by {
            assert(waiting@[k]@ =~= waiting.deep_view()[k]);
        }
    }
    let mut kept: Vec<Vec<char>> = Vec::new();
    let mut i: usize = 0;
    proof {
        assert(lines.take(0) =~= Seq::<Seq<char>>::empty());
        assert(kept.deep_view() =~= spec_filter_keeps(lines.take(0), clear@));
    }
    while i < waiting.len()
        invariant
            i <= waiting@.len(),
            clear@ == spec_strip_slash(clear_path@),
            clear_slash@ == clear@ + seq!['/'],
            waiting.deep_view() == lines,
            forall|k: int| 0 <= k < waiting@.len() ==> waiting@[k]@ == lines[k],
            kept.deep_view() == spec_filter_keeps(lines.take(i as int), clear@),
        decreases waiting@.len() - i,
    {
        let wc = str_chars(waiting[i].as_str());
        let ghost prev = kept.deep_view();
        proof {
            assert(lines.take(i as int + 1).drop_last() =~= lines.take(i as int));
            assert(lines.take(i as int + 1).last() == lines[i as int]);
        }
        if !chars_eq(&wc, &clear) && !chars_starts_with(&wc, &clear_slash) {
            proof {
                assert(spec_keeps(lines[i as int], clear@));
            }
            kept.push(wc);
            proof {
                assert(kept.deep_view() =~~= prev.push(lines[i as int]));
            }
        } else {
            proof {
                assert(!spec_keeps(lines[i as int], clear@));
            }
        }
        i = i + 1;
    }
    proof {
        assert(lines.take(waiting@.len() as int) =~= lines);
    }
    if kept.len() == 0 {
        return None;
    }
    let ghost klines = kept.deep_view();
    let mut out: Vec<char> = Vec::new();
    let mut k: usize = 0;
    proof {
        assert(klines.take(0) =~= Seq::<Seq<char>>::empty());
        assert(out@ =~= spec_join_lines(klines.take(0)));
    }
    while k < kept.len()
        invariant
            k <= kept@.len(),
            kept.deep_view() == klines,
            forall|j: int| 0 <= j < kept@.len() ==> kept@[j]@ == klines[j],
            out@ == spec_join_lines(klines.take(k as int)),
        decreases kept@.len() - k,
    {
        chars_append(&mut out, &kept[k]);
        out.push('\n');
        proof {
            assert(klines.take(k as int + 1).drop_last() =~= klines.take(k as int));
            assert(klines.take(k as int + 1).last() == klines[k as int]);
            assert(out@ =~= spec_join_lines(klines.take(k as int + 1)));
        }
        k = k + 1;
    }
    proof {
        assert(klines.take(kept@.len() as int) =~= klines);
    }
    Some(chars_string(&out))
}

/// Payload emitted to the front end on a status change.
pub struct ClaudeStatusPayload {
    /// The per-project statuses.
    pub statuses: StatusMap,
}

/// Control state of the status polling loop: a running flag, a pause flag,
/// and the last emitted map.  The loop outside this crate consults it every
/// cycle; an emission happens only when the freshly computed map differs
/// from the last emitted one.
pub struct StatusWatcher {
    /// The polling loop keeps running while this holds.
    pub running: bool,
    /// Poll cycles are skipped while this holds.
    pub paused: bool,
    /// The map most recently emitted.
    pub last: StatusMap,
}

impl StatusWatcher {
    /// The stored last-emitted map has unique keys.
    pub open spec fn wf(&self) -> bool {
        self.last.wf()
    }

    /// A watcher that is running, unpaused, and has emitted nothing.
    pub fn new() -> (r: StatusWatcher)
        ensures
            r.wf(),
            r.running,
            !r.paused,
            r.last@ == Map::<Seq<char>, ClaudeStatus>::empty(),
    {
        StatusWatcher { running: true, paused: false, last: StatusMap::new() }
    }

    /// Stop the polling loop: it exits at its next cycle.
    pub fn stop_claude_status_watcher(&mut self)
        ensures
            !final(self).running,
            final(self).paused == old(self).paused,
            final(self).last == old(self).last,
    {
        self.running = false;
    }

    /// Pause polling (the loop sleeps through its cycles).
    pub fn pause_watcher(&mut self)
        ensures
            final(self).paused,
            final(self).running == old(self).running,
            final(self).last == old(self).last,
    {
        self.paused = true;
    }

    /// Resume polling.
    pub fn resume_watcher(&mut self)
        ensures
            !final(self).paused,
            final(self).running == old(self).running,
            final(self).last == old(self).last,
    {
        self.paused = false;
    }

    /// Whether a freshly computed map must be emitted: exactly when it
    /// differs from the last emitted one.
    pub fn should_emit(&self, fresh: &StatusMap) -> (r: bool)
        requires
            self.wf(),
            fresh.wf(),
        ensures
            r == (fresh@ != self.last@),
    {
        !fresh.same_as(&self.last)
    }

    /// Record that `fresh` was emitted.
    pub fn record_emitted(&mut self, fresh: StatusMap)
        requires
            fresh.wf(),
        ensures
            final(self).wf(),
            final(self).last@ == fresh@,
            final(self).running == old(self).running,
            final(self).paused == old(self).paused,
    {
        self.last = fresh;
    }
}

} // verus!
