//! The rules of a workspace scan: which paths are passed over, and how far
//! the scan goes.

use vstd::prelude::*;
use crate::language_id::{get_language_id_by_path, language_of_path};
use crate::languages::{is_supported, SupportedLanguage};
use crate::text::{components_of_path, path_components, str_eq};

verus! {

/// The number of files at which a scan of one folder stops.
pub const MAX_FILE_COUNT: usize = 10000;

/// The name is one of the directories that no scan enters.
pub open spec fn is_ignored_name(name: Seq<char>) -> bool {
    name == "venv"@ || name == "node_modules"@ || name == "target"@
}

/// One of the components of the path is a directory that no scan enters.
pub open spec fn in_ignored_directory(path: Seq<char>) -> bool {
    exists|i: int|
        0 <= i < components_of_path(path).len() && is_ignored_name(
            #[trigger] components_of_path(path)[i],
        )
}

/// The path is passed over: the version control ignores it, one of its
/// components is an ignored directory, or it is a file of a language without
/// a profile.
pub open spec fn ignored(path: Seq<char>, is_file: bool, vcs_ignored: bool) -> bool {
    vcs_ignored || in_ignored_directory(path) || (is_file && !is_supported(
        language_of_path(path, is_file),
    ))
}

/// Tells whether one of the components of `path` is a directory that no
/// scan enters.
pub fn has_ignored_component(path: &str) -> (found: bool)
    ensures
        found == in_ignored_directory(path@),
{
    let components = path_components(path);
    let mut at: usize = 0;
    while at < components.len()
        invariant
            at <= components@.len(),
            components@.len() == components_of_path(path@).len(),
            forall|i: int|
                0 <= i < components@.len() ==> (#[trigger] components@[i])@ == components_of_path(
                    path@,
                )[i],
            forall|i: int| 0 <= i < at ==> !is_ignored_name(#[trigger] components_of_path(path@)[i]),
        decreases components@.len() - at,
    {
        let name = components[at].as_str();
        if str_eq(name, "venv") || str_eq(name, "node_modules") || str_eq(name, "target") {
            assert(is_ignored_name(components_of_path(path@)[at as int]));
            return true;
        }
        at = at + 1;
    }
    false
}

/// Tells whether a scan or a file-system event passes over `path`, of which
/// the caller knows whether it names a file (`is_file`) and whether the
/// version control ignores it (`vcs_ignored`).
pub fn should_ignore(path: &str, is_file: bool, vcs_ignored: bool) -> (skip: bool)
    ensures
        skip == ignored(path@, is_file, vcs_ignored),
{
    if vcs_ignored {
        return true;
    }
    if has_ignored_component(path) {
        return true;
    }
    if !is_file {
        return false;
    }
    !SupportedLanguage::support(get_language_id_by_path(path, is_file))
}

/// What the caller found at one entry of a directory.
pub struct EntryFacts {
    pub path: String,
    pub is_dir: bool,
    pub is_file: bool,
    pub vcs_ignored: bool,
}

/// The state of a scan of one folder: the files found so far, and the
/// directories that are still to be read.
pub struct FolderScan {
    files: Vec<String>,
    dirs_to_scan: Vec<String>,
}

/// The mathematical content of a [`FolderScan`].
pub struct ScanView {
    pub files: Seq<Seq<char>>,
    pub dirs: Seq<Seq<char>>,
}

/// What a scan does with an entry.
#[derive(PartialEq, Eq, Structural, Clone, Copy, Debug)]
pub enum EntryAction {
    /// Passed over: ignored, or neither a directory nor a file.
    Skip,
    /// A directory, kept to be read later.
    Enter,
    /// A file, added to the result.
    Take,
}

/// What a scan does with an entry of the given facts.
pub open spec fn action_for(path: Seq<char>, is_dir: bool, is_file: bool, vcs_ignored: bool) -> EntryAction {
    if ignored(path, is_file, vcs_ignored) {
        EntryAction::Skip
    } else if is_dir {
        EntryAction::Enter
    } else if is_file {
        EntryAction::Take
    } else {
        EntryAction::Skip
    }
}

impl ScanView {
    /// The scan has found as many files as it may.
    pub open spec fn full(self) -> bool {
        self.files.len() >= MAX_FILE_COUNT
    }

    /// The scan after it was offered an entry of the given facts.
    pub open spec fn offered(self, path: Seq<char>, is_dir: bool, is_file: bool, vcs_ignored: bool) -> ScanView {
        if self.full() {
            self
        } else {
            match action_for(path, is_dir, is_file, vcs_ignored) {
                EntryAction::Skip => self,
                EntryAction::Enter => ScanView { dirs: self.dirs.push(path), ..self },
                EntryAction::Take => ScanView { files: self.files.push(path), ..self },
            }
        }
    }
}

impl View for FolderScan {
    type V = ScanView;

    closed spec fn view(&self) -> ScanView {
        ScanView {
            files: Seq::new(self.files@.len(), |i: int| self.files@[i]@),
            dirs: Seq::new(self.dirs_to_scan@.len(), |i: int| self.dirs_to_scan@[i]@),
        }
    }
}

impl FolderScan {
    /// A scan that has `folder` to read and no file yet.
    pub fn new(folder: String) -> (scan: Self)
        ensures
            scan@ == (ScanView { files: Seq::empty(), dirs: seq![folder@] }),
    {
        let mut dirs_to_scan: Vec<String> = Vec::new();
        dirs_to_scan.push(folder);
        let scan = FolderScan { files: Vec::new(), dirs_to_scan };
        assert(scan@.files =~= Seq::empty());
        assert(scan@.dirs =~= seq![folder@]);
        scan
    }

    /// The directory to read next: the one that was kept last. There is none
    /// where the scan is full or no directory is left.
    pub fn next_dir(&mut self) -> (dir: Option<String>)
        ensures
            dir is Some <==> !old(self)@.full() && old(self)@.dirs.len() > 0,
            dir matches Some(d) ==> d@ == old(self)@.dirs.last() && final(self)@ == (ScanView {
                dirs: old(self)@.dirs.drop_last(),
                ..old(self)@
            }),
            dir is None ==> final(self)@ == old(self)@,
    {
        if self.files.len() >= MAX_FILE_COUNT {
            return None;
        }
        let ghost before = self@;
        let dir = self.dirs_to_scan.pop();
        proof {
            assert(self@.files =~= before.files);
            if dir is Some {
                assert(self@.dirs =~= before.dirs.drop_last());
            } else {
                assert(self@.dirs =~= before.dirs);
            }
        }
        dir
    }

    /// Offers the scan an entry of the directory that is being read. A full
    /// scan takes nothing more.
    pub fn offer(&mut self, entry: EntryFacts) -> (action: EntryAction)
        ensures
            final(self)@ == old(self)@.offered(
                entry.path@,
                entry.is_dir,
                entry.is_file,
                entry.vcs_ignored,
            ),
            action == if old(self)@.full() {
                EntryAction::Skip
            } else {
                action_for(entry.path@, entry.is_dir, entry.is_file, entry.vcs_ignored)
            },
    {
        let ghost before = self@;
        if self.files.len() >= MAX_FILE_COUNT {
            return EntryAction::Skip;
        }
        if should_ignore(entry.path.as_str(), entry.is_file, entry.vcs_ignored) {
            return EntryAction::Skip;
        }
        if entry.is_dir {
            self.dirs_to_scan.push(entry.path);
            proof {
                assert(self@.files =~= before.files);
                assert(self@.dirs =~= before.dirs.push(entry.path@));
            }
            return EntryAction::Enter;
        }
        if !entry.is_file {
            return EntryAction::Skip;
        }
        self.files.push(entry.path);
        proof {
            assert(self@.dirs =~= before.dirs);
            assert(self@.files =~= before.files.push(entry.path@));
        }
        EntryAction::Take
    }

    /// The files found.
    pub fn into_files(self) -> (files: Vec<String>)
        ensures
            files@.len() == self@.files.len(),
            forall|i: int| 0 <= i < files@.len() ==> (#[trigger] files@[i])@ == self@.files[i],
    {
        self.files
    }
}

} // verus!
