//! The workspace the editor has open: its root directory and the file in focus.

use vstd::prelude::*;

verus! {

/// One line that matched a workspace search.
#[derive(Debug)]
pub struct SearchResult {
    /// 1-based line number of the match.
    pub line_number: i32,
    /// The whole matching line.
    pub text: String,
    /// The file the line belongs to.
    pub path: String,
    /// Byte offset of the match within the line.
    pub offset_start: i32,
    /// Byte offset just past the match.
    pub offset_end: i32,
}

impl SearchResult {
    /// Builds a result from what the searcher reports; `None` when a number does
    /// not fit the result's fields.
    pub fn from_match(line_number: u64, text: String, path: String, start: usize, end: usize) -> (r:
        Option<SearchResult>)
        ensures
            r is Some <==> line_number <= i32::MAX && start <= i32::MAX && end <= i32::MAX,
            r matches Some(s) ==> s.line_number == line_number && s.offset_start == start
                && s.offset_end == end && s.text@ == text@ && s.path@ == path@,
    {
        if line_number > 2147483647u64 || start > 2147483647usize || end > 2147483647usize {
            return None;
        }
        Some(
            SearchResult {
                line_number: line_number as i32,
                text,
                path,
                offset_start: start as i32,
                offset_end: end as i32,
            },
        )
    }
}

/// The open workspace: the canonical path of its root, empty until one is
/// chosen, and the file currently in focus.
#[derive(Debug)]
pub struct Workspace {
    dir_path: String,
    open_file: Option<String>,
}

/// The abstract workspace.
pub struct WorkspaceView {
    pub dir_path: Seq<char>,
    pub open_file: Option<Seq<char>>,
}

pub open spec fn option_view(o: Option<String>) -> Option<Seq<char>> {
    match o {
        Some(s) => Some(s@),
        None => None,
    }
}

impl View for Workspace {
    type V = WorkspaceView;

    closed spec fn view(&self) -> WorkspaceView {
        WorkspaceView { dir_path: self.dir_path@, open_file: option_view(self.open_file) }
    }
}

impl Workspace {
    /// No workspace chosen yet.
    pub fn new() -> (r: Self)
        ensures
            r@.dir_path.len() == 0,
            r@.open_file is None,
    {
        Workspace { dir_path: String::new(), open_file: None }
    }

    /// Switches to the workspace at `canonical_path` (an existing directory,
    /// already resolved to an absolute path); no file is in focus afterwards.
    pub fn update_path(&mut self, canonical_path: String)
        ensures
            final(self)@.dir_path == canonical_path@,
            final(self)@.open_file is None,
    {
        self.dir_path = canonical_path;
        self.open_file = None;
    }

    /// The workspace root, empty when none is open.
    pub fn get_path(&self) -> (r: String)
        ensures
            r@ == self@.dir_path,
    {
        self.dir_path.clone()
    }

    /// The file in focus, if any.
    pub fn get_open_file_path(&self) -> (r: Option<String>)
        ensures
            option_view(r) == self@.open_file,
    {
        match &self.open_file {
            Some(p) => Some(p.clone()),
            None => None,
        }
    }

    /// Sets the file in focus; the workspace root stays.
    pub fn set_open_file_path(&mut self, new_file_path: Option<String>)
        ensures
            final(self)@.dir_path == old(self)@.dir_path,
            final(self)@.open_file == option_view(new_file_path),
    {
        self.open_file = new_file_path;
    }
}

impl Default for Workspace {
    fn default() -> (r: Self)
        ensures
            r@.dir_path.len() == 0,
            r@.open_file is None,
    {
        Workspace::new()
    }
}

} // verus!
