//! Locations of clones in documents, and the way from a position inside one
//! clone to the other clones of its group.

use vstd::prelude::*;
use crate::node::{IndexedNode, NodeView, Point};

verus! {

/// A position in a document, by zero-based line and character.
#[derive(Clone, Copy, Debug, PartialEq, Eq, Structural)]
pub struct Position {
    pub line: u32,
    pub character: u32,
}

/// A range in a document.
#[derive(Clone, Copy, Debug, PartialEq, Eq, Structural)]
pub struct Range {
    pub start: Position,
    pub end: Position,
}

/// A range in the document with the given URI.
#[derive(Debug)]
pub struct Location {
    pub uri: String,
    pub range: Range,
}

/// The mathematical content of a [`Location`].
pub struct LocationView {
    pub uri: Seq<char>,
    pub range: Range,
}

impl View for Location {
    type V = LocationView;

    open spec fn view(&self) -> LocationView {
        LocationView { uri: self.uri@, range: self.range }
    }
}

/// The mathematical content of each location.
pub open spec fn location_views(locations: Seq<Location>) -> Seq<LocationView> {
    Seq::new(locations.len(), |i: int| locations[i]@)
}

/// The mathematical content of each location of each group.
pub open spec fn group_location_views(groups: Seq<Vec<Location>>) -> Seq<Seq<LocationView>> {
    Seq::new(groups.len(), |i: int| location_views(groups[i]@))
}

/// The URI of the file at `path`, as `Url::from_file_path` gives it; none for
/// a path that is not absolute.
pub uninterp spec fn file_uri(path: Seq<char>) -> Option<Seq<char>>;

/// Trusted: `Url::from_file_path` of a path given as text, with the URL
/// written out; the result depends on the text alone.
#[verifier::external_body]
pub(crate) fn uri_of_path(path: &str) -> (uri: Option<String>)
    ensures
        uri is Some <==> file_uri(path@) is Some,
        uri matches Some(u) ==> file_uri(path@) == Some(u@),
{
    tower_lsp::lsp_types::Url::from_file_path(path).ok().map(|url| url.to_string())
}

/// The position of a point, each number cut to 32 bits.
pub open spec fn position_of(point: Point) -> Position {
    Position { line: point.row as u32, character: point.column as u32 }
}

/// Converts a point of the parser to a position of the protocol. A row or
/// column that does not fit in 32 bits is cut to its low 32 bits.
pub fn point_to_position(point: &Point) -> (position: Position)
    ensures
        position == position_of(*point),
{
    Position {
        line: #[verifier::truncate]
        (point.row as u32),
        character: #[verifier::truncate]
        (point.column as u32),
    }
}

/// The range of a node in its document.
pub open spec fn range_of(node: NodeView) -> Range {
    Range { start: position_of(node.start), end: position_of(node.end) }
}

/// The location of a node; none where the path of its file has no URI.
pub fn get_node_location(node: &IndexedNode) -> (location: Option<Location>)
    ensures
        location is Some <==> file_uri(node@.path) is Some,
        location matches Some(l) ==> file_uri(node@.path) == Some(l@.uri) && l@.range == range_of(
            node@,
        ),
{
    match uri_of_path(node.path()) {
        Some(uri) => {
            let (start, end) = node.position_range();
            Some(
                Location {
                    uri,
                    range: Range { start: point_to_position(&start), end: point_to_position(&end) },
                },
            )
        },
        None => None,
    }
}

/// The position lies inside the location: in the same document, not before
/// its start and not behind its end.
pub open spec fn inside(location: LocationView, uri: Seq<char>, position: Position) -> bool {
    &&& location.uri == uri
    &&& location.range.start.line <= position.line
    &&& position.line <= location.range.end.line
    &&& (position.line != location.range.start.line || position.character
        >= location.range.start.character)
    &&& (position.line != location.range.end.line || position.character
        <= location.range.end.character)
}

/// The place of the first location of `group`, from `from` on, that the
/// position lies inside; the length of `group` where there is none.
pub open spec fn first_inside(
    group: Seq<LocationView>,
    uri: Seq<char>,
    position: Position,
    from: int,
) -> int
    decreases group.len() - from,
{
    if from >= group.len() {
        group.len() as int
    } else if from >= 0 && inside(group[from], uri, position) {
        from
    } else if from >= 0 {
        first_inside(group, uri, position, from + 1)
    } else {
        group.len() as int
    }
}

/// The position lies inside one of the locations of `group`.
pub open spec fn hits(group: Seq<LocationView>, uri: Seq<char>, position: Position) -> bool {
    first_inside(group, uri, position, 0) < group.len()
}

/// The place of the first group, from `from` on, that the position hits; the
/// number of groups where there is none.
pub open spec fn first_hit(
    groups: Seq<Seq<LocationView>>,
    uri: Seq<char>,
    position: Position,
    from: int,
) -> int
    decreases groups.len() - from,
{
    if from >= groups.len() {
        groups.len() as int
    } else if from >= 0 && hits(groups[from], uri, position) {
        from
    } else if from >= 0 {
        first_hit(groups, uri, position, from + 1)
    } else {
        groups.len() as int
    }
}

/// The test that a location differs from `from`.
pub open spec fn differs_from(from: LocationView) -> spec_fn(LocationView) -> bool {
    |location: LocationView| location != from
}

/// Where a request for the definition at a position leads: to the other
/// locations of the first group that the position hits, those that differ
/// from the first location of the group that the position lies inside.
/// There is no answer where no group is hit, or where nothing else is in the
/// group.
pub open spec fn definition_targets(
    groups: Seq<Seq<LocationView>>,
    uri: Seq<char>,
    position: Position,
) -> Option<Seq<LocationView>> {
    let g = first_hit(groups, uri, position, 0);
    if g >= groups.len() {
        None
    } else {
        let from = groups[g][first_inside(groups[g], uri, position, 0)];
        let others = groups[g].filter(differs_from(from));
        if others.len() > 0 {
            Some(others)
        } else {
            None
        }
    }
}

/// Tells whether two locations are the same range of the same document.
pub fn same_location(a: &Location, b: &Location) -> (same: bool)
    ensures
        same == (a@ == b@),
{
    a.uri == b.uri && a.range == b.range
}

/// A copy of a location.
pub fn copy_location(location: &Location) -> (copy: Location)
    ensures
        copy@ == location@,
{
    Location { uri: location.uri.clone(), range: location.range }
}

/// Tells whether the position lies inside the location.
pub fn is_inside(location: &Location, uri: &str, position: &Position) -> (within: bool)
    ensures
        within == inside(location@, uri@, *position),
{
    crate::text::str_eq(location.uri.as_str(), uri) && location.range.start.line <= position.line
        && position.line <= location.range.end.line && (position.line != location.range.start.line
        || position.character >= location.range.start.character) && (position.line
        != location.range.end.line || position.character <= location.range.end.character)
}

/// The place of the first location of `group` that the position lies
/// inside, if there is one.
pub fn find_inside(group: &Vec<Location>, uri: &str, position: &Position) -> (place: Option<usize>)
    ensures
        place is Some <==> hits(location_views(group@), uri@, *position),
        place matches Some(i) ==> i == first_inside(location_views(group@), uri@, *position, 0),
{
    let ghost views = location_views(group@);
    let mut at: usize = 0;
    while at < group.len()
        invariant
            at <= group@.len(),
            views == location_views(group@),
            first_inside(views, uri@, *position, 0) == first_inside(
                views,
                uri@,
                *position,
                at as int,
            ),
        decreases group@.len() - at,
    {
        assert(views[at as int] == group@[at as int]@);
        if is_inside(&group[at], uri, position) {
            return Some(at);
        }
        at = at + 1;
    }
    None
}

/// The locations of `group` that differ from the one at `from`, in their
/// order.
pub fn other_locations(group: &Vec<Location>, from: usize) -> (others: Vec<Location>)
    requires
        from < group@.len(),
    ensures
        location_views(others@) == location_views(group@).filter(
            differs_from(group@[from as int]@),
        ),
{
    let ghost views = location_views(group@);
    let ghost test = differs_from(group@[from as int]@);
    let mut others: Vec<Location> = Vec::new();
    let mut at: usize = 0;
    proof {
        reveal(Seq::filter);
        assert(views.take(0).filter(test) =~= Seq::empty());
        assert(location_views(others@) =~= Seq::empty());
    }
    while at < group.len()
        invariant
            at <= group@.len(),
            from < group@.len(),
            views == location_views(group@),
            test == differs_from(group@[from as int]@),
            location_views(others@) == views.take(at as int).filter(test),
        decreases group@.len() - at,
    {
        let ghost so_far = location_views(others@);
        proof {
            reveal(Seq::filter);
            assert(views.take(at + 1).drop_last() =~= views.take(at as int));
            assert(views.take(at + 1).last() == group@[at as int]@);
        }
        if !same_location(&group[at], &group[from]) {
            let copy = copy_location(&group[at]);
            others.push(copy);
            assert(location_views(others@) =~= so_far.push(group@[at as int]@));
        }
        at = at + 1;
    }
    assert(views.take(group@.len() as int) =~= views);
    others
}

/// Answers a request for the definition at `position` of the document
/// `uri`, given the stored clone groups: the other clones of the first group
/// that has a clone around the position.
pub fn goto_definition(groups: &Vec<Vec<Location>>, uri: &str, position: &Position) -> (targets:
    Option<Vec<Location>>)
    ensures
        targets is Some <==> definition_targets(
            group_location_views(groups@),
            uri@,
            *position,
        ) is Some,
        targets matches Some(found) ==> Some(location_views(found@)) == definition_targets(
            group_location_views(groups@),
            uri@,
            *position,
        ),
{
    let ghost views = group_location_views(groups@);
    let mut at: usize = 0;
    while at < groups.len()
        invariant
            at <= groups@.len(),
            views == group_location_views(groups@),
            first_hit(views, uri@, *position, 0) == first_hit(views, uri@, *position, at as int),
        decreases groups@.len() - at,
    {
        assert(views[at as int] == location_views(groups@[at as int]@));
        match find_inside(&groups[at], uri, position) {
            Some(from) => {
                let others = other_locations(&groups[at], from);
                assert(views[at as int][from as int] == groups@[at as int]@[from as int]@);
                if others.len() > 0 {
                    return Some(others);
                } else {
                    return None;
                }
            },
            None => {},
        }
        at = at + 1;
    }
    None
}

/// One of the locations of `group` is in one of the documents `uris`.
pub open spec fn touches(group: Seq<LocationView>, uris: Seq<Seq<char>>) -> bool {
    exists|i: int, j: int|
        0 <= i < group.len() && 0 <= j < uris.len() && (#[trigger] group[i]).uri
            == #[trigger] uris[j]
}

/// The place of the first group, from `from` on, that touches one of the
/// documents; the number of groups where there is none.
pub open spec fn first_touching(
    groups: Seq<Seq<LocationView>>,
    uris: Seq<Seq<char>>,
    from: int,
) -> int
    decreases groups.len() - from,
{
    if from >= groups.len() {
        groups.len() as int
    } else if from >= 0 && touches(groups[from], uris) {
        from
    } else if from >= 0 {
        first_touching(groups, uris, from + 1)
    } else {
        groups.len() as int
    }
}

/// The text of each string.
pub open spec fn texts(strings: Seq<String>) -> Seq<Seq<char>> {
    Seq::new(strings.len(), |i: int| strings[i]@)
}

/// Tells whether one of the locations of `group` is in one of the documents
/// `uris`.
pub fn group_touches(group: &Vec<Location>, uris: &Vec<String>) -> (found: bool)
    ensures
        found == touches(location_views(group@), texts(uris@)),
{
    let ghost views = location_views(group@);
    let ghost names = texts(uris@);
    let mut at: usize = 0;
    while at < group.len()
        invariant
            at <= group@.len(),
            views == location_views(group@),
            names == texts(uris@),
            forall|i: int, j: int|
                0 <= i < at && 0 <= j < names.len() ==> (#[trigger] views[i]).uri
                    != #[trigger] names[j],
        decreases group@.len() - at,
    {
        let mut with: usize = 0;
        assert(views[at as int] == group@[at as int]@);
        while with < uris.len()
            invariant
                with <= uris@.len(),
                at < group@.len(),
                views == location_views(group@),
                names == texts(uris@),
                views[at as int] == group@[at as int]@,
                forall|j: int| 0 <= j < with ==> views[at as int].uri != #[trigger] names[j],
            decreases uris@.len() - with,
        {
            assert(names[with as int] == uris@[with as int]@);
            if group[at].uri == uris[with] {
                assert(views[at as int].uri == names[with as int]);
                return true;
            }
            with = with + 1;
        }
        at = at + 1;
    }
    false
}

/// The documents of the first clone group that has a clone in one of the
/// documents `uris`, one for each clone of the group; none where no group has
/// one.
pub fn related_uris_of_duplicated(groups: &Vec<Vec<Location>>, uris: &Vec<String>) -> (related:
    Option<Vec<String>>)
    ensures
        related is Some <==> first_touching(group_location_views(groups@), texts(uris@), 0)
            < groups@.len(),
        related matches Some(found) ==> ({
            let group = group_location_views(groups@)[first_touching(
                group_location_views(groups@),
                texts(uris@),
                0,
            )];
            &&& found@.len() == group.len()
            &&& forall|i: int| 0 <= i < group.len() ==> (#[trigger] found@[i])@ == group[i].uri
        }),
{
    let ghost views = group_location_views(groups@);
    let ghost names = texts(uris@);
    let mut at: usize = 0;
    while at < groups.len()
        invariant
            at <= groups@.len(),
            views == group_location_views(groups@),
            names == texts(uris@),
            first_touching(views, names, 0) == first_touching(views, names, at as int),
        decreases groups@.len() - at,
    {
        assert(views[at as int] == location_views(groups@[at as int]@));
        if group_touches(&groups[at], uris) {
            let group = &groups[at];
            let mut found: Vec<String> = Vec::new();
            let mut i: usize = 0;
            while i < group.len()
                invariant
                    i <= group@.len(),
                    found@.len() == i,
                    forall|k: int| 0 <= k < i ==> (#[trigger] found@[k])@ == group@[k]@.uri,
                decreases group@.len() - i,
            {
                found.push(group[i].uri.clone());
                i = i + 1;
            }
            assert forall|k: int| 0 <= k < views[at as int].len() implies (#[trigger] found@[k])@
                == views[at as int][k].uri by {
                assert(views[at as int][k] == group@[k]@);
            }
            return Some(found);
        }
        at = at + 1;
    }
    None
}

} // verus!
