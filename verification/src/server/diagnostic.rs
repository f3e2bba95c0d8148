//! What the language server reports of a clone group: the location of each
//! member, and for each member a diagnostic that points to the members of the
//! group.

use vstd::prelude::*;
use vstd::string::StringExecFns;
use std::sync::Arc;
use crate::engine::store::node_views;
use crate::node::{IndexedNode, NodeView};
use crate::server::navigation::{
    copy_location, file_uri, get_node_location, location_views, range_of, Location, LocationView,
    Range,
};

verus! {

/// How grave a diagnostic is.
#[derive(Clone, Copy, Debug, PartialEq, Eq, Structural)]
pub enum Severity {
    Information,
    Warning,
}

/// A pointer from a diagnostic to another place, with a message.
pub struct RelatedInformation {
    pub location: Location,
    pub message: String,
}

/// A diagnostic of one clone.
pub struct Diagnostic {
    pub range: Range,
    pub severity: Severity,
    pub source: String,
    pub message: String,
    pub related_information: Vec<RelatedInformation>,
}

/// A diagnostic with the document that it belongs to.
pub struct FileDiagnostic {
    pub uri: String,
    pub diagnostic: Diagnostic,
}

/// The locations of the members of a group, and the diagnostics of the
/// members, one for each location and in the same order. The diagnostic of
/// a member points to the other members.
pub struct GroupReport {
    pub locations: Vec<Location>,
    pub diagnostics: Vec<FileDiagnostic>,
}

/// The character of a decimal digit.
pub open spec fn digit(d: nat) -> char {
    if d == 0 {
        '0'
    } else if d == 1 {
        '1'
    } else if d == 2 {
        '2'
    } else if d == 3 {
        '3'
    } else if d == 4 {
        '4'
    } else if d == 5 {
        '5'
    } else if d == 6 {
        '6'
    } else if d == 7 {
        '7'
    } else if d == 8 {
        '8'
    } else {
        '9'
    }
}

/// The decimal form of `number`: its digits, the highest first, without
/// leading zeros.
pub open spec fn decimal_digits(number: nat) -> Seq<char>
    decreases number,
{
    if number < 10 {
        seq![digit(number)]
    } else {
        decimal_digits(number / 10).push(digit(number % 10))
    }
}

/// The decimal form of `number`.
pub open spec fn decimal_text(number: u32) -> Seq<char> {
    decimal_digits(number as nat)
}

/// Trusted: `to_string` of a `u32` writes the number in decimal, without
/// leading zeros.
#[verifier::external_body]
fn decimal(number: u32) -> (text: String)
    ensures
        text@ == decimal_text(number),
{
    number.to_string()
}

/// The message that points to another clone, with the one-based number
/// `line` of the line on which it starts and the number `lines` of lines
/// that it touches.
pub open spec fn related_text(line: u32, lines: u32) -> Seq<char> {
    "Similar code fragment (line "@ + decimal_text(line) + ") "@ + decimal_text(lines)
        + " lines long"@
}

/// Writes the message that points to another clone.
pub fn related_message(line: u32, lines: u32) -> (message: String)
    ensures
        message@ == related_text(line, lines),
{
    let start = "Similar code fragment (line ".to_owned();
    let with_line = start.concat(decimal(line).as_str());
    let middle = with_line.concat(") ");
    let with_lines = middle.concat(decimal(lines).as_str());
    with_lines.concat(" lines long")
}

/// The one-based number of the line on which the range starts.
pub open spec fn first_line(range: Range) -> u32 {
    vstd::wrapping::u32_specs::wrapping_add(range.start.line, 1)
}

/// The number of lines that the range touches.
pub open spec fn line_count(range: Range) -> u32 {
    vstd::wrapping::u32_specs::wrapping_add(
        vstd::wrapping::u32_specs::wrapping_sub(range.end.line, range.start.line),
        1,
    )
}

/// The mathematical content of a [`Diagnostic`]: its range, severity, source
/// and message, and the locations and messages that it points to.
pub struct DiagnosticView {
    pub range: Range,
    pub severity: Severity,
    pub source: Seq<char>,
    pub message: Seq<char>,
    pub related_locations: Seq<LocationView>,
    pub related_messages: Seq<Seq<char>>,
}

impl View for Diagnostic {
    type V = DiagnosticView;

    open spec fn view(&self) -> DiagnosticView {
        DiagnosticView {
            range: self.range,
            severity: self.severity,
            source: self.source@,
            message: self.message@,
            related_locations: Seq::new(
                self.related_information@.len(),
                |i: int| self.related_information@[i].location@,
            ),
            related_messages: Seq::new(
                self.related_information@.len(),
                |i: int| self.related_information@[i].message@,
            ),
        }
    }
}

/// The diagnostic of a clone at `location` whose group has its other
/// members at `others`: a note on the clone's range that points to each of
/// `others`, with the line and the length of each.
pub open spec fn diagnostic_for(location: LocationView, others: Seq<LocationView>) -> DiagnosticView {
    DiagnosticView {
        range: location.range,
        severity: Severity::Information,
        source: "echolysis"@,
        message: "Duplicated code fragments found\n"@,
        related_locations: others,
        related_messages: Seq::new(
            others.len(),
            |i: int| related_text(first_line(others[i].range), line_count(others[i].range)),
        ),
    }
}

/// The locations of the nodes that have one, in the order of the nodes.
pub open spec fn located(nodes: Seq<NodeView>) -> Seq<LocationView>
    decreases nodes.len(),
{
    if nodes.len() == 0 {
        Seq::empty()
    } else {
        let rest = located(nodes.drop_last());
        match file_uri(nodes.last().path) {
            Some(uri) => rest.push(LocationView { uri, range: range_of(nodes.last()) }),
            None => rest,
        }
    }
}

/// Makes the diagnostic of a clone at `location` whose group has its other
/// members at `other_locations`.
pub fn create_duplicate_diagnostic(location: &Location, other_locations: &Vec<Location>) -> (diagnostic:
    Diagnostic)
    ensures
        diagnostic@ == diagnostic_for(location@, location_views(other_locations@)),
{
    let mut related: Vec<RelatedInformation> = Vec::new();
    let mut at: usize = 0;
    while at < other_locations.len()
        invariant
            at <= other_locations@.len(),
            related@.len() == at,
            forall|i: int|
                0 <= i < at ==> (#[trigger] related@[i]).location@ == other_locations@[i]@
                    && related@[i].message@ == related_text(
                    first_line(other_locations@[i].range),
                    line_count(other_locations@[i].range),
                ),
        decreases other_locations@.len() - at,
    {
        let other = &other_locations[at];
        let line = other.range.start.line.wrapping_add(1);
        let lines = other.range.end.line.wrapping_sub(other.range.start.line).wrapping_add(1);
        related.push(
            RelatedInformation { location: copy_location(other), message: related_message(line, lines) },
        );
        at = at + 1;
    }
    let diagnostic = Diagnostic {
        range: location.range,
        severity: Severity::Information,
        source: "echolysis".to_owned(),
        message: "Duplicated code fragments found\n".to_owned(),
        related_information: related,
    };
    proof {
        let expected = diagnostic_for(location@, location_views(other_locations@));
        assert(diagnostic@.related_locations =~= expected.related_locations);
        assert(diagnostic@.related_messages =~= expected.related_messages);
    }
    diagnostic
}

/// The locations of `locations` but the one at `place`, in their order.
pub fn locations_but(locations: &Vec<Location>, place: usize) -> (others: Vec<Location>)
    requires
        place < locations@.len(),
    ensures
        location_views(others@) == location_views(locations@).remove(place as int),
{
    let ghost views = location_views(locations@);
    let mut others: Vec<Location> = Vec::new();
    let mut at: usize = 0;
    while at < locations.len()
        invariant
            at <= locations@.len(),
            place < locations@.len(),
            views == location_views(locations@),
            others@.len() == if at <= place {
                at as int
            } else {
                at - 1
            },
            forall|k: int|
                0 <= k < others@.len() ==> (#[trigger] others@[k])@ == views.remove(place as int)[k],
        decreases locations@.len() - at,
    {
        if at != place {
            assert(views[at as int] == locations@[at as int]@);
            others.push(copy_location(&locations[at]));
        }
        at = at + 1;
    }
    assert(location_views(others@) =~= views.remove(place as int));
    others
}

/// Reports a clone group: the locations of the members that have one, and
/// for each of these members its diagnostic, which points to the other
/// located members of the group.
pub fn process_duplicate_group(group: &Vec<Arc<IndexedNode>>) -> (report: GroupReport)
    ensures
        location_views(report.locations@) == located(node_views(group@)),
        report.diagnostics@.len() == report.locations@.len(),
        forall|i: int|
            0 <= i < report.diagnostics@.len() ==> (#[trigger] report.diagnostics@[i]).uri@
                == report.locations@[i]@.uri && report.diagnostics@[i].diagnostic@
                == diagnostic_for(
                report.locations@[i]@,
                location_views(report.locations@).remove(i),
            ),
{
    let ghost nodes = node_views(group@);
    let mut locations: Vec<Location> = Vec::new();
    let mut at: usize = 0;
    assert(location_views(locations@) =~= located(nodes.take(0)));
    while at < group.len()
        invariant
            at <= group@.len(),
            nodes == node_views(group@),
            location_views(locations@) == located(nodes.take(at as int)),
        decreases group@.len() - at,
    {
        let ghost so_far = location_views(locations@);
        proof {
            assert(nodes.take(at + 1).drop_last() =~= nodes.take(at as int));
            assert(nodes.take(at + 1).last() == group@[at as int]@);
        }
        match get_node_location(&group[at]) {
            Some(location) => {
                locations.push(location);
                assert(location_views(locations@) =~= so_far.push(location@));
            },
            None => {},
        }
        at = at + 1;
    }
    assert(nodes.take(group@.len() as int) =~= nodes);
    let mut diagnostics: Vec<FileDiagnostic> = Vec::new();
    let mut member: usize = 0;
    while member < locations.len()
        invariant
            member <= locations@.len(),
            diagnostics@.len() == member,
            forall|i: int|
                0 <= i < member ==> (#[trigger] diagnostics@[i]).uri@ == locations@[i]@.uri
                    && diagnostics@[i].diagnostic@ == diagnostic_for(
                    locations@[i]@,
                    location_views(locations@).remove(i),
                ),
        decreases locations@.len() - member,
    {
        let location = &locations[member];
        let others = locations_but(&locations, member);
        let diagnostic = create_duplicate_diagnostic(location, &others);
        diagnostics.push(FileDiagnostic { uri: location.uri.clone(), diagnostic });
        member = member + 1;
    }
    GroupReport { locations, diagnostics }
}

} // verus!
