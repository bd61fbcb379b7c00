//! The cache of open editor tabs: which file sits at which notebook position.

use vstd::prelude::*;
use crate::tree::{dashed, get_icon_for_name, guessed_mime, TreeNodeType};
use crate::workspace::{option_view, Workspace};

verus! {

/// One open tab: the file it shows, its notebook position and its icon.
#[derive(Debug)]
pub struct NotebookTabCache {
    pub file_path: String,
    pub position: u32,
    pub icon_name: String,
}

impl Clone for NotebookTabCache {
    fn clone(&self) -> (r: Self)
        ensures
            r.same_as(*self),
    {
        NotebookTabCache {
            file_path: self.file_path.clone(),
            position: self.position,
            icon_name: self.icon_name.clone(),
        }
    }
}

/// Index of the first tab showing `path`.
pub open spec fn first_with_path(tabs: Seq<NotebookTabCache>, path: Seq<char>) -> Option<int> {
    if exists|i: int| 0 <= i < tabs.len() && (#[trigger] tabs[i]).file_path@ == path {
        Some(
            choose|i: int|
                0 <= i < tabs.len() && (#[trigger] tabs[i]).file_path@ == path && forall|j: int|
                    0 <= j < i ==> (#[trigger] tabs[j]).file_path@ != path,
        )
    } else {
        None
    }
}

/// Index of the first tab at notebook position `position`.
pub open spec fn first_at_position(tabs: Seq<NotebookTabCache>, position: u32) -> Option<int> {
    if exists|i: int| 0 <= i < tabs.len() && (#[trigger] tabs[i]).position == position {
        Some(
            choose|i: int|
                0 <= i < tabs.len() && (#[trigger] tabs[i]).position == position && forall|j: int|
                    0 <= j < i ==> (#[trigger] tabs[j]).position != position,
        )
    } else {
        None
    }
}

impl NotebookTabCache {
    /// Same file, position and icon.
    pub open spec fn same_as(self, other: NotebookTabCache) -> bool {
        &&& self.file_path@ == other.file_path@
        &&& self.position == other.position
        &&& self.icon_name@ == other.icon_name@
    }

    /// Adds a tab at the end of the cache.
    pub fn insert(cache: &mut Vec<NotebookTabCache>, tab: NotebookTabCache)
        ensures
            final(cache)@ == old(cache)@.push(tab),
    {
        cache.push(tab);
    }

    /// Removes the entry at `index`; the last entry takes its place.
    pub fn remove(cache: &mut Vec<NotebookTabCache>, index: u32)
        requires
            (index as int) < old(cache)@.len(),
        ensures
            final(cache)@ == old(cache)@.update(index as int, old(cache)@.last()).drop_last(),
    {
        cache.swap_remove(index as usize);
    }

    /// A copy of the first tab that shows `file_path`.
    pub fn find_by_path(cache: &Vec<NotebookTabCache>, file_path: String) -> (r: Option<
        NotebookTabCache,
    >)
        ensures
            match first_with_path(cache@, file_path@) {
                Some(i) => r is Some && r->Some_0.same_as(cache@[i]),
                None => r is None,
            },
    {
        let mut i: usize = 0;
        while i < cache.len()
            invariant
                0 <= i <= cache@.len(),
                forall|j: int| 0 <= j < i ==> (#[trigger] cache@[j]).file_path@ != file_path@,
            decreases cache@.len() - i,
        {
            if cache[i].file_path == file_path {
                let found = cache[i].clone();
                proof {
                    assert(cache@[i as int].file_path@ == file_path@);
                }
                return Some(found);
            }
            i = i + 1;
        }
        None
    }

    /// A copy of the first tab at notebook position `position`.
    pub fn find_by_position(cache: &Vec<NotebookTabCache>, position: u32) -> (r: Option<
        NotebookTabCache,
    >)
        ensures
            match first_at_position(cache@, position) {
                Some(i) => r is Some && r->Some_0.same_as(cache@[i]),
                None => r is None,
            },
    {
        let mut i: usize = 0;
        while i < cache.len()
            invariant
                0 <= i <= cache@.len(),
                forall|j: int| 0 <= j < i ==> (#[trigger] cache@[j]).position != position,
            decreases cache@.len() - i,
        {
            if cache[i].position == position {
                let found = cache[i].clone();
                proof {
                    assert(cache@[i as int].position == position);
                }
                return Some(found);
            }
            i = i + 1;
        }
        None
    }

    /// Forgets every tab.
    pub fn reset(cache: &mut Vec<NotebookTabCache>)
        ensures
            final(cache)@.len() == 0,
    {
        cache.clear();
    }

    /// Whether no tab is open.
    pub fn is_empty(cache: &Vec<NotebookTabCache>) -> (r: bool)
        ensures
            r == (cache@.len() == 0),
    {
        cache.len() == 0
    }
}


/// What the notebook does for a request to show a file.
#[derive(Debug, Clone, Copy, PartialEq, Eq, Structural)]
pub enum NotebookAction {
    /// Close every tab: the request carried no file or no content.
    ResetAll,
    /// The file already has a tab: bring the tab at `position` to the front.
    Focus { position: u32 },
    /// Open a new tab for the file, then record it in the cache.
    CreateTab,
}

/// Decides how the notebook answers a request to show `file_path` with
/// `content`. A request without either closes every tab and empties the
/// cache. A file that already has a tab becomes the workspace's open file
/// and its tab is focused; any other file gets a new tab.
pub fn handle_notebook_event(
    cache: &mut Vec<NotebookTabCache>,
    workspace: &mut Workspace,
    content: &Option<String>,
    file_path: &Option<String>,
) -> (r: NotebookAction)
    ensures
        (content is None || file_path is None) ==> r == NotebookAction::ResetAll
            && final(cache)@.len() == 0 && final(workspace)@ == old(workspace)@,
        content is Some && file_path is Some ==> final(cache)@ == old(cache)@ && match first_with_path(
            old(cache)@,
            file_path->Some_0@,
        ) {
            Some(i) => r == (NotebookAction::Focus { position: old(cache)@[i].position })
                && final(workspace)@.dir_path == old(workspace)@.dir_path
                && final(workspace)@.open_file == Some(file_path->Some_0@),
            None => r == NotebookAction::CreateTab && final(workspace)@ == old(workspace)@,
        },
{
    match (content, file_path) {
        (Some(_), Some(path)) => match NotebookTabCache::find_by_path(cache, path.clone()) {
            Some(tab) => {
                workspace.set_open_file_path(Some(path.clone()));
                NotebookAction::Focus { position: tab.position }
            },
            None => NotebookAction::CreateTab,
        },
        _ => {
            NotebookTabCache::reset(cache);
            NotebookAction::ResetAll
        },
    }
}

/// The final component of a path, if it has one.
pub uninterp spec fn file_name_of(path: Seq<char>) -> Option<Seq<char>>;

/// Relies on std's Path::file_name: the final component of the path, if any
/// (turned back into a string, which cannot fail for a path made from one).
#[verifier::external_body]
fn path_file_name(path: &str) -> (r: Option<String>)
    ensures
        option_view(r) == file_name_of(path@),
{
    std::path::Path::new(path).file_name().and_then(|n| n.to_str()).map(|n| n.to_string())
}

/// Records the tab just opened for `file_path` at notebook `position`, with
/// the icon for its file name. A path without a file name is not recorded.
pub fn record_new_tab(cache: &mut Vec<NotebookTabCache>, file_path: String, position: u32) -> (r:
    bool)
    ensures
        match file_name_of(file_path@) {
            Some(name) => {
                &&& r
                &&& final(cache)@.len() == old(cache)@.len() + 1
                &&& final(cache)@.subrange(0, old(cache)@.len() as int) == old(cache)@
                &&& final(cache)@.last().file_path@ == file_path@
                &&& final(cache)@.last().position == position
                &&& final(cache)@.last().icon_name@ == dashed(guessed_mime(name))
            },
            None => !r && final(cache)@ == old(cache)@,
        },
{
    match path_file_name(file_path.as_str()) {
        Some(name) => {
            let icon_name = get_icon_for_name(name.as_str(), TreeNodeType::File);
            NotebookTabCache::insert(cache, NotebookTabCache { file_path, position, icon_name });
            proof {
                assert(cache@.subrange(0, old(cache)@.len() as int) =~= old(cache)@);
            }
            true
        },
        None => false,
    }
}

} // verus!
