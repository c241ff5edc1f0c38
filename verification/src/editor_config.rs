//! Static descriptors of the supported editors and lookup by bundle id.

use vstd::prelude::*;
use crate::strutil::str_eq;

verus! {

/// Editor configuration for multi-editor support.  One instance per
/// supported editor; the fields are fixed at build time.
#[derive(Debug, Clone, Copy)]
pub struct EditorConfig {
    /// Short internal identifier ("vscode", "cursor", "zed").
    pub id: &'static str,
    /// Human-readable product name.
    pub display_name: &'static str,
    /// macOS bundle identifier, the primary key for "which editor".
    pub bundle_id: &'static str,
    /// Process name as the OS reports it.
    pub process_name: &'static str,
    /// Application name used to open or activate the editor.
    pub app_name: &'static str,
}

/// `c` is the Visual Studio Code descriptor.
pub open spec fn is_vscode_config(c: EditorConfig) -> bool {
    &&& c.id@ == "vscode"@
    &&& c.display_name@ == "Visual Studio Code"@
    &&& c.bundle_id@ == "com.microsoft.VSCode"@
    &&& c.process_name@ == "Code"@
    &&& c.app_name@ == "Visual Studio Code"@
}

/// `c` is the Cursor descriptor.
pub open spec fn is_cursor_config(c: EditorConfig) -> bool {
    &&& c.id@ == "cursor"@
    &&& c.display_name@ == "Cursor"@
    &&& c.bundle_id@ == "com.todesktop.230313mzl4w4u92"@
    &&& c.process_name@ == "Cursor"@
    &&& c.app_name@ == "Cursor"@
}

/// `c` is the Zed descriptor.
pub open spec fn is_zed_config(c: EditorConfig) -> bool {
    &&& c.id@ == "zed"@
    &&& c.display_name@ == "Zed"@
    &&& c.bundle_id@ == "dev.zed.Zed"@
    &&& c.process_name@ == "zed"@
    &&& c.app_name@ == "Zed"@
}

/// `s` is the list of supported editor descriptors, in lookup order.
pub open spec fn is_editors_list(s: Seq<EditorConfig>) -> bool {
    &&& s.len() == 3
    &&& is_vscode_config(s[0])
    &&& is_cursor_config(s[1])
    &&& is_zed_config(s[2])
}

/// `b` is the bundle id of some supported editor.
pub open spec fn spec_is_supported_bundle(b: Seq<char>) -> bool {
    ||| b == "com.microsoft.VSCode"@
    ||| b == "com.todesktop.230313mzl4w4u92"@
    ||| b == "dev.zed.Zed"@
}

/// The list of supported editors (add new editors here).
pub fn editors() -> (r: Vec<EditorConfig>)
    ensures
        is_editors_list(r@),
{
    let mut v: Vec<EditorConfig> = Vec::new();
    v.push(
        EditorConfig {
            id: "vscode",
            display_name: "Visual Studio Code",
            bundle_id: "com.microsoft.VSCode",
            process_name: "Code",
            app_name: "Visual Studio Code",
        },
    );
    v.push(
        EditorConfig {
            id: "cursor",
            display_name: "Cursor",
            bundle_id: "com.todesktop.230313mzl4w4u92",
            process_name: "Cursor",
            app_name: "Cursor",
        },
    );
    v.push(
        EditorConfig {
            id: "zed",
            display_name: "Zed",
            bundle_id: "dev.zed.Zed",
            process_name: "zed",
            app_name: "Zed",
        },
    );
    v
}

/// Get the editor descriptor whose bundle id is `bundle_id`, if any.
pub fn get_editor_by_bundle_id(bundle_id: &str) -> (r: Option<EditorConfig>)
    ensures
        bundle_id@ == "com.microsoft.VSCode"@ ==> (r matches Some(c) && is_vscode_config(c)),
        bundle_id@ == "com.todesktop.230313mzl4w4u92"@ ==> (r matches Some(c)
            && is_cursor_config(c)),
        bundle_id@ == "dev.zed.Zed"@ ==> (r matches Some(c) && is_zed_config(c)),
        r is None <==> !spec_is_supported_bundle(bundle_id@),
        r matches Some(c) ==> c.bundle_id@ == bundle_id@,
{
    proof {
        reveal_strlit("com.microsoft.VSCode");
        reveal_strlit("com.todesktop.230313mzl4w4u92");
        reveal_strlit("dev.zed.Zed");
        assert("com.microsoft.VSCode"@.len() == 20);
        assert("com.todesktop.230313mzl4w4u92"@.len() == 29);
        assert("dev.zed.Zed"@.len() == 11);
    }
    let all = editors();
    if str_eq(bundle_id, all[0].bundle_id) {
        return Some(all[0]);
    }
    if str_eq(bundle_id, all[1].bundle_id) {
        return Some(all[1]);
    }
    if str_eq(bundle_id, all[2].bundle_id) {
        return Some(all[2]);
    }
    None
}

/// Check if a bundle id belongs to a supported editor.
pub fn is_supported_editor(bundle_id: &str) -> (r: bool)
    ensures
        r == spec_is_supported_bundle(bundle_id@),
{
    get_editor_by_bundle_id(bundle_id).is_some()
}

/// All supported editor bundle ids, in lookup order.
pub fn get_supported_bundle_ids() -> (r: Vec<&'static str>)
    ensures
        r@.len() == 3,
        r@[0]@ == "com.microsoft.VSCode"@,
        r@[1]@ == "com.todesktop.230313mzl4w4u92"@,
        r@[2]@ == "dev.zed.Zed"@,
{
    let all = editors();
    let mut v: Vec<&'static str> = Vec::new();
    v.push(all[0].bundle_id);
    v.push(all[1].bundle_id);
    v.push(all[2].bundle_id);
    v
}

} // verus!
