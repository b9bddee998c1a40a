//! The workspace state shared by the views, and the part of it that is
//! persisted.
use crate::file_tree::{path_to_tree, tree_model, DirScan, FileEntry};
use vstd::prelude::*;

verus! {

/// The text buffer.
pub struct Workspace {
    pub input_text: String,
}

/// Display parameters.
#[derive(Clone, Copy, PartialEq, Eq, Structural, Debug)]
pub struct Params {
    pub debug_layout: bool,
}

/// The whole state: title, text buffer, parameters, the indexed tree, and
/// the file and directory that are open, as paths.
pub struct AppState {
    pub title: String,
    pub workspace: Workspace,
    pub params: Params,
    pub entry: FileEntry,
    pub current_file: Option<String>,
    pub current_dir: Option<String>,
}

/// An empty root: no name, no children, not a directory.
pub open spec fn is_empty_root(e: FileEntry) -> bool {
    e.name@.len() == 0 && !e.is_dir && e.children@.len() == 0
}

impl Default for Workspace {
    fn default() -> (r: Workspace)
        ensures
            r.input_text@.len() == 0,
    {
        Workspace { input_text: String::new() }
    }
}

impl Default for Params {
    fn default() -> (r: Params)
        ensures
            !r.debug_layout,
    {
        Params { debug_layout: false }
    }
}

impl Default for AppState {
    fn default() -> (r: AppState)
        ensures
            r.title@.len() == 0,
            r.workspace.input_text@.len() == 0,
            !r.params.debug_layout,
            is_empty_root(r.entry),
            r.current_file.is_none(),
            r.current_dir.is_none(),
    {
        AppState {
            title: String::new(),
            workspace: Workspace { input_text: String::new() },
            params: Params { debug_layout: false },
            entry: FileEntry::new(String::new()),
            current_file: None,
            current_dir: None,
        }
    }
}

fn copy_path(p: &Option<String>) -> (r: Option<String>)
    ensures
        r == *p,
{
    match p {
        Some(s) => Some(s.clone()),
        None => None,
    }
}

impl AppState {
    /// Opens a file whose contents were read as `contents` (`None` when the
    /// read failed). A failed read leaves the state as it was; otherwise the
    /// text is replaced and the file becomes the current one. Returns whether
    /// the state changed, in which case it is due to be persisted.
    pub fn set_file(&mut self, path: String, contents: Option<String>) -> (changed: bool)
        ensures
            changed == contents.is_some(),
            contents.is_none() ==> *final(self) == *old(self),
            contents.is_some() ==> {
                &&& final(self).workspace.input_text == contents.unwrap()
                &&& final(self).current_file == Some(path)
                &&& final(self).title == old(self).title
                &&& final(self).params == old(self).params
                &&& final(self).entry == old(self).entry
                &&& final(self).current_dir == old(self).current_dir
            },
    {
        match contents {
            Some(text) => {
                self.workspace.input_text = text;
                self.current_file = Some(path);
                true
            },
            None => false,
        }
    }

    /// The text buffer.
    pub fn text(&mut self) -> (r: String)
        ensures
            r == old(self).workspace.input_text,
            *final(self) == *old(self),
    {
        self.workspace.input_text.clone()
    }

    /// Opens a directory: where `path` is given, the tree is rebuilt from
    /// `scan`, the scan of that path, under the title; the current directory
    /// becomes `path` in any case. The state is then due to be persisted.
    pub fn set_dir(&mut self, path: Option<String>, scan: &DirScan)
        ensures
            path.is_some() ==> tree_model(old(self).title@, *scan, final(self).entry),
            path.is_none() ==> final(self).entry == old(self).entry,
            final(self).current_dir == path,
            final(self).title == old(self).title,
            final(self).workspace == old(self).workspace,
            final(self).params == old(self).params,
            final(self).current_file == old(self).current_file,
    {
        if path.is_some() {
            self.entry = path_to_tree(self.title.clone(), scan);
        }
        self.current_dir = path;
    }

    /// The state as it is persisted: the same title, parameters, current
    /// file and directory, with an empty text buffer and an empty root.
    pub fn config_projection(&self) -> (r: AppState)
        ensures
            r.title == self.title,
            r.params == self.params,
            r.current_file == self.current_file,
            r.current_dir == self.current_dir,
            r.workspace.input_text@.len() == 0,
            is_empty_root(r.entry),
    {
        AppState {
            title: self.title.clone(),
            workspace: Workspace { input_text: String::new() },
            params: self.params,
            entry: FileEntry::new(String::new()),
            current_file: copy_path(&self.current_file),
            current_dir: copy_path(&self.current_dir),
        }
    }
}

} // verus!
