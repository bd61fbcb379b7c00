//! Workspace tree entries and the icon each one is shown with.

use vstd::prelude::*;
use vstd::string::{StrSliceExecFns, StringExecFns};

verus! {

/// What a workspace tree entry stands for.
#[derive(Debug, Clone, Copy, PartialEq, Eq, Structural)]
pub enum TreeNodeType {
    Unknown,
    Directory,
    File,
    Workspace,
}

impl Default for TreeNodeType {
    fn default() -> (r: Self)
        ensures
            r == TreeNodeType::Unknown,
    {
        TreeNodeType::Unknown
    }
}

/// The properties of one workspace tree entry.
#[derive(Debug)]
pub struct RootTreeModel {
    pub file_name: Option<String>,
    pub abs_path: Option<String>,
    pub item_type: Option<TreeNodeType>,
}

impl RootTreeModel {
    /// An entry with no property set.
    pub fn new() -> (r: Self)
        ensures
            r.file_name is None,
            r.abs_path is None,
            r.item_type is None,
    {
        RootTreeModel { file_name: None, abs_path: None, item_type: None }
    }
}

/// The MIME type guessed from a file name's extension, `text/plain` when unknown.
pub uninterp spec fn guessed_mime(file_name: Seq<char>) -> Seq<char>;

/// Relies on new_mime_guess::from_path and MimeGuess::first_or_text_plain: the
/// first MIME type known for the name's extension, written as `type/subtype`.
#[verifier::external_body]
fn mime_type_of(file_name: &str) -> (r: String)
    ensures
        r@ == guessed_mime(file_name@),
{
    new_mime_guess::from_path(file_name).first_or_text_plain().to_string()
}

/// `s` with every `/` turned into `-`, as icon themes name MIME types.
pub open spec fn dashed(s: Seq<char>) -> Seq<char> {
    s.map_values(|c: char| if c == '/' { '-' } else { c })
}

fn to_icon_name(s: &str) -> (r: String)
    ensures
        r@ == dashed(s@),
{
    let n = s.unicode_len();
    let mut out = String::new();
    let mut i: usize = 0;
    while i < n
        invariant
            n == s@.len(),
            0 <= i <= n,
            out@ == dashed(s@.subrange(0, i as int)),
        decreases n - i,
    {
        let c = s.get_char(i);
        if c == '/' {
            out.append("-");
        } else {
            out.append(s.substring_char(i, i + 1));
        }
        proof {
            reveal_strlit("-");
            assert(dashed(s@.subrange(0, i + 1)) =~= dashed(s@.subrange(0, i as int)) + dashed(
                s@.subrange(i as int, i + 1),
            ));
        }
        i = i + 1;
    }
    proof {
        assert(s@.subrange(0, n as int) =~= s@);
    }
    out
}

/// The icon name for a tree entry: `folder` for a directory, otherwise the
/// MIME type guessed from the name with `/` turned into `-`.
pub fn get_icon_for_name(filename: &str, icon_type: TreeNodeType) -> (r: String)
    ensures
        r@ == if icon_type == TreeNodeType::Directory {
            "folder"@
        } else {
            dashed(guessed_mime(filename@))
        },
{
    if icon_type == TreeNodeType::Directory {
        return String::from_str("folder");
    }
    let mime = mime_type_of(filename);
    to_icon_name(mime.as_str())
}

/// The icon shown in the workspace tree: a warning for an unknown entry, an
/// open folder for the workspace root, otherwise the icon for its name.
pub fn cell_icon_name(filename: &str, icon_type: TreeNodeType) -> (r: String)
    ensures
        r@ == match icon_type {
            TreeNodeType::Unknown => "dialog-warning"@,
            TreeNodeType::Workspace => "folder-open"@,
            TreeNodeType::Directory => "folder"@,
            TreeNodeType::File => dashed(guessed_mime(filename@)),
        },
{
    match icon_type {
        TreeNodeType::Unknown => String::from_str("dialog-warning"),
        TreeNodeType::Workspace => String::from_str("folder-open"),
        _ => get_icon_for_name(filename, icon_type),
    }
}

} // verus!
