//! Deriving a human project name from an editor window title.
//!
//! Titles are split on the literal separator " — " (an em-dash with
//! surrounding spaces).  Editors in the VSCode family put the folder in the
//! middle ("file — folder — app"); Zed puts the project first.

use vstd::prelude::*;
use crate::editor_config::EditorConfig;
use crate::strutil::{
    chars_contains,
    chars_eq,
    chars_split,
    chars_string,
    lemma_contains_self,
    lemma_split_no_sep,
    seq_contains,
    spec_split,
    str_chars,
    str_eq,
};

verus! {

/// The separator sequence between title segments: space, em-dash, space.
pub open spec fn spec_title_separator() -> Seq<char> {
    seq![' ', '\u{2014}', ' ']
}

/// The project name derived from `title` for the editor described by `cfg`.
///
/// VSCode family: "file — folder — app" gives the middle segment;
/// "folder — app" gives the folder; a title that names the app itself gives
/// "New Window".  Zed: one or two segments give the first; anything else
/// falls back to the whole title.
pub open spec fn spec_extract_project_name(title: Seq<char>, cfg: EditorConfig) -> Seq<char> {
    let parts = spec_split(title, spec_title_separator());
    if cfg.id@ == "zed"@ {
        if parts.len() == 1 || parts.len() == 2 {
            parts[0]
        } else {
            title
        }
    } else {
        if parts.len() == 3 {
            parts[1]
        } else if parts.len() == 2 {
            if seq_contains(parts[1], cfg.display_name@) || parts[1] == cfg.app_name@ {
                parts[0]
            } else {
                parts[1]
            }
        } else if parts.len() == 1 {
            if seq_contains(parts[0], cfg.display_name@) || parts[0] == cfg.app_name@ {
                "New Window"@
            } else {
                parts[0]
            }
        } else {
            title
        }
    }
}

/// The title separator as a character vector.
pub fn title_separator_chars() -> (r: Vec<char>)
    ensures
        r@ == spec_title_separator(),
{
    let mut v: Vec<char> = Vec::new();
    v.push(' ');
    v.push('\u{2014}');
    v.push(' ');
    proof {
        assert(v@ =~= spec_title_separator());
    }
    v
}

/// Extract the project name from an editor window title.
pub fn extract_project_name(title: &str, config: &EditorConfig) -> (r: String)
    ensures
        r@ == spec_extract_project_name(title@, *config),
{
    let tchars = str_chars(title);
    let sep = title_separator_chars();
    let parts = chars_split(&tchars, &sep);
    let ghost sparts = spec_split(title@, spec_title_separator());
    proof {
        assert(parts.deep_view() == sparts);
        assert forall|k: int| 0 <= k < parts@.len() implies parts@[k]@ == sparts[k] by {
            assert(parts@[k]@ =~= parts.deep_view()[k]);
        }
    }
    let display = str_chars(config.display_name);
    let app = str_chars(config.app_name);
    if str_eq(config.id, "zed") {
        if parts.len() == 1 || parts.len() == 2 {
            chars_string(&parts[0])
        } else {
            chars_string(&tchars)
        }
    } else {
        if parts.len() == 3 {
            chars_string(&parts[1])
        } else if parts.len() == 2 {
            if chars_contains(&parts[1], &display) || chars_eq(&parts[1], &app) {
                chars_string(&parts[0])
            } else {
                chars_string(&parts[1])
            }
        } else if parts.len() == 1 {
            if chars_contains(&parts[0], &display) || chars_eq(&parts[0], &app) {
                let w = str_chars("New Window");
                chars_string(&w)
            } else {
                chars_string(&parts[0])
            }
        } else {
            chars_string(&tchars)
        }
    }
}

/// For every title that splits into exactly three segments, the derived
/// project name is the middle segment — for the editors whose grammar puts
/// the folder there (every supported family but Zed, whose grammar instead
/// falls back to the whole title on three segments).
pub proof fn lemma_three_segment_title(title: Seq<char>, cfg: EditorConfig)
    requires
        spec_split(title, spec_title_separator()).len() == 3,
        cfg.id@ != "zed"@,
    ensures
        spec_extract_project_name(title, cfg) == spec_split(title, spec_title_separator())[1],
{
}

/// A title that is exactly the editor's display name or app name (and holds
/// no separator) names no project: the derived name is "New Window".  Zed is
/// excluded: its grammar returns a one-segment title itself.
pub proof fn lemma_bare_app_title(title: Seq<char>, cfg: EditorConfig)
    requires
        cfg.id@ != "zed"@,
        title == cfg.display_name@ || title == cfg.app_name@,
        !seq_contains(title, spec_title_separator()),
    ensures
        spec_extract_project_name(title, cfg) == "New Window"@,
{
    lemma_split_no_sep(title, spec_title_separator());
    let parts = spec_split(title, spec_title_separator());
    assert(parts == seq![title]);
    assert(parts[0] == title);
    if title == cfg.display_name@ {
        lemma_contains_self(title);
        assert(seq_contains(parts[0], cfg.display_name@));
    }
}

} // verus!
