//! What a change on disk leads to: which files are inserted again and which
//! are removed.

use vstd::prelude::*;
use crate::server::navigation::{file_uri, texts, uri_of_path};
use crate::workspace::{ignored, should_ignore};

verus! {

/// The kinds of changes on disk that the server tells apart.
#[derive(Clone, Copy, Debug, PartialEq, Eq, Structural)]
pub enum FsEventKind {
    /// Something was created.
    Create,
    /// The content of a file changed.
    DataChanged,
    /// The time of the last write of a file changed.
    WriteTimeChanged,
    /// Something was renamed, and the paths are the new names.
    RenamedTo,
    /// Something was renamed, and the paths are the old names.
    RenamedFrom,
    /// Something was renamed, and the paths are the old name and the new.
    RenamedBoth,
    /// Something was removed.
    Remove,
    /// Any other change.
    Other,
}

/// What the caller found of one path of an event.
pub struct PathFacts {
    pub path: String,
    /// The path names a file.
    pub is_file: bool,
    /// The version control ignores the path.
    pub vcs_ignored: bool,
    /// The server holds the file already.
    pub known: bool,
}

/// The mathematical content of a [`PathFacts`].
pub struct PathView {
    pub path: Seq<char>,
    pub is_file: bool,
    pub vcs_ignored: bool,
    pub known: bool,
}

impl View for PathFacts {
    type V = PathView;

    open spec fn view(&self) -> PathView {
        PathView {
            path: self.path@,
            is_file: self.is_file,
            vcs_ignored: self.vcs_ignored,
            known: self.known,
        }
    }
}

/// The mathematical content of each path.
pub open spec fn path_views(paths: Seq<PathFacts>) -> Seq<PathView> {
    Seq::new(paths.len(), |i: int| paths[i]@)
}

/// What the server does after an event: the documents to remove, then the
/// documents to insert again.
pub struct FsPlan {
    pub remove: Vec<String>,
    pub insert: Vec<String>,
}

/// The URI under which an event on the path concerns the server: none for a
/// path that is passed over, that has no URI, or that is neither a file nor
/// held by the server.
pub open spec fn concerned(path: PathView) -> Option<Seq<char>> {
    if ignored(path.path, path.is_file, path.vcs_ignored) {
        None
    } else if file_uri(path.path) is Some && (path.is_file || path.known) {
        file_uri(path.path)
    } else {
        None
    }
}

/// The URIs of the paths that concern the server, in the order of the paths.
pub open spec fn concerned_uris(paths: Seq<PathView>) -> Seq<Seq<char>>
    decreases paths.len(),
{
    if paths.len() == 0 {
        Seq::empty()
    } else {
        let rest = concerned_uris(paths.drop_last());
        match concerned(paths.last()) {
            Some(uri) => rest.push(uri),
            None => rest,
        }
    }
}

/// The documents to remove after an event.
pub open spec fn to_remove(kind: FsEventKind, paths: Seq<PathView>) -> Seq<Seq<char>> {
    match kind {
        FsEventKind::Remove | FsEventKind::RenamedFrom => concerned_uris(paths),
        FsEventKind::RenamedBoth => if paths.len() == 2 {
            concerned_uris(seq![paths[0]])
        } else {
            Seq::empty()
        },
        _ => Seq::empty(),
    }
}

/// The documents to insert again after an event.
pub open spec fn to_insert(kind: FsEventKind, paths: Seq<PathView>) -> Seq<Seq<char>> {
    match kind {
        FsEventKind::Create
        | FsEventKind::DataChanged
        | FsEventKind::WriteTimeChanged
        | FsEventKind::RenamedTo => concerned_uris(paths),
        FsEventKind::RenamedBoth => if paths.len() == 2 {
            concerned_uris(seq![paths[1]])
        } else {
            Seq::empty()
        },
        _ => Seq::empty(),
    }
}

/// The URI under which an event on the path concerns the server, if it
/// does.
pub fn concerned_uri(path: &PathFacts) -> (uri: Option<String>)
    ensures
        uri is Some <==> concerned(path@) is Some,
        uri matches Some(u) ==> concerned(path@) == Some(u@),
{
    if should_ignore(path.path.as_str(), path.is_file, path.vcs_ignored) {
        return None;
    }
    match uri_of_path(path.path.as_str()) {
        Some(uri) => {
            if path.is_file || path.known {
                Some(uri)
            } else {
                None
            }
        },
        None => None,
    }
}

/// The URIs of the paths of an event that concern the server.
pub fn filter_map_fs_event_paths(paths: &Vec<PathFacts>) -> (uris: Vec<String>)
    ensures
        texts(uris@) == concerned_uris(path_views(paths@)),
{
    let ghost views = path_views(paths@);
    let mut uris: Vec<String> = Vec::new();
    let mut at: usize = 0;
    assert(texts(uris@) =~= concerned_uris(views.take(0)));
    while at < paths.len()
        invariant
            at <= paths@.len(),
            views == path_views(paths@),
            texts(uris@) == concerned_uris(views.take(at as int)),
        decreases paths@.len() - at,
    {
        let ghost so_far = texts(uris@);
        proof {
            assert(views.take(at + 1).drop_last() =~= views.take(at as int));
            assert(views.take(at + 1).last() == paths@[at as int]@);
        }
        match concerned_uri(&paths[at]) {
            Some(uri) => {
                uris.push(uri);
                assert(texts(uris@) =~= so_far.push(uri@));
            },
            None => {},
        }
        at = at + 1;
    }
    assert(views.take(paths@.len() as int) =~= views);
    uris
}

/// The URI of one path of an event as a list: empty where the path does not
/// concern the server.
fn single_uri(path: &PathFacts) -> (uris: Vec<String>)
    ensures
        texts(uris@) == concerned_uris(seq![path@]),
{
    let mut uris: Vec<String> = Vec::new();
    proof {
        assert(seq![path@].drop_last() =~= Seq::empty());
        assert(seq![path@].last() == path@);
        assert(concerned_uris(seq![path@].drop_last()) =~= Seq::empty());
        assert(texts(uris@) =~= Seq::empty());
    }
    match concerned_uri(path) {
        Some(uri) => {
            uris.push(uri);
            assert(texts(uris@) =~= Seq::<Seq<char>>::empty().push(uri@));
        },
        None => {},
    }
    uris
}

/// Decides what the server does after a change on disk of the given kind
/// that names the given paths: a creation, a change of content or of the
/// time of the last write, and a new name lead to insertion; a removal and
/// an old name lead to removal; a renaming with both names removes the old
/// and inserts the new; nothing else has any effect.
pub fn do_handle_fs_event(kind: FsEventKind, paths: &Vec<PathFacts>) -> (plan: FsPlan)
    ensures
        texts(plan.remove@) == to_remove(kind, path_views(paths@)),
        texts(plan.insert@) == to_insert(kind, path_views(paths@)),
{
    let nothing: Vec<String> = Vec::new();
    assert(texts(nothing@) =~= Seq::empty());
    match kind {
        FsEventKind::Create
        | FsEventKind::DataChanged
        | FsEventKind::WriteTimeChanged
        | FsEventKind::RenamedTo => FsPlan {
            remove: nothing,
            insert: filter_map_fs_event_paths(paths),
        },
        FsEventKind::Remove | FsEventKind::RenamedFrom => FsPlan {
            remove: filter_map_fs_event_paths(paths),
            insert: nothing,
        },
        FsEventKind::RenamedBoth => {
            if paths.len() == 2 {
                assert(path_views(paths@)[0] == paths@[0]@);
                assert(path_views(paths@)[1] == paths@[1]@);
                FsPlan { remove: single_uri(&paths[0]), insert: single_uri(&paths[1]) }
            } else {
                let none: Vec<String> = Vec::new();
                assert(texts(none@) =~= Seq::empty());
                FsPlan { remove: nothing, insert: none }
            }
        },
        FsEventKind::Other => {
            let none: Vec<String> = Vec::new();
            assert(texts(none@) =~= Seq::empty());
            FsPlan { remove: nothing, insert: none }
        },
    }
}

} // verus!
