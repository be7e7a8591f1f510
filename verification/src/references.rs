//! Cross-referencing: which dialogue lines an issue gets.
//!
//! The library decides what to attach and when a choice among several
//! lines is to be put to the user. Putting it is left to the caller, who
//! hands the answer back.

use vstd::prelude::*;

use crate::config::{Config, ConfigView, ReferenceFormat};
use crate::qc_issue::{event_views, issue_views, string_views, ASSEvent, ASSEventView, QCIssue, QCIssueView};
use crate::subs::{candidates, choices_among, event_line, Subs};

verus! {

/// A dialogue event as it is written when attached to an issue: the whole
/// line of the script, or the spoken text alone.
pub open spec fn reference_of(format: ReferenceFormat, event: ASSEventView) -> Seq<char> {
    match format {
        ReferenceFormat::Full => event_line(event),
        ReferenceFormat::Text => event.text,
    }
}

/// The writing of events in `format`.
pub open spec fn written_in(format: ReferenceFormat) -> spec_fn(ASSEventView) -> Seq<char> {
    |event: ASSEventView| reference_of(format, event)
}

/// `events` as they are written when attached to an issue, in their order.
pub open spec fn references_of(format: ReferenceFormat, events: Seq<ASSEventView>) -> Seq<Seq<char>> {
    events.map_values(written_in(format))
}

/// What is to be done about the references of one issue.
#[derive(Debug)]
pub enum ReferencePlan {
    /// These lines are the references.
    Attach(Vec<String>),
    /// The user is to choose among these lines.
    Ask(Vec<String>),
}

/// What a plan holds, as plain values.
pub enum ReferencePlanView {
    Attach(Seq<Seq<char>>),
    Ask(Seq<Seq<char>>),
}

impl View for ReferencePlan {
    type V = ReferencePlanView;

    open spec fn view(&self) -> ReferencePlanView {
        match self {
            ReferencePlan::Attach(lines) => ReferencePlanView::Attach(string_views(lines@)),
            ReferencePlan::Ask(lines) => ReferencePlanView::Ask(string_views(lines@)),
        }
    }
}

impl ReferencePlanView {
    /// The lines of the plan.
    pub open spec fn lines(self) -> Seq<Seq<char>> {
        match self {
            ReferencePlanView::Attach(lines) => lines,
            ReferencePlanView::Ask(lines) => lines,
        }
    }
}

/// The events of a track that may be absent.
pub open spec fn track_of(sub_file: Option<Subs>) -> Option<Seq<ASSEventView>> {
    match sub_file {
        Some(subs) => Some(subs.events()),
        None => None,
    }
}

/// The plan for the references of `issue`.
///
/// Nothing is attached when there is no track, when references are not
/// wanted, or when the category of the issue is not eligible. Otherwise the
/// candidates at the timecode of the issue are looked up. None or one of
/// them is attached as it is. Several are attached together when the picker
/// is skipped, and put to the user when it is not.
pub open spec fn planned(
    config: ConfigView,
    issue: QCIssueView,
    track: Option<Seq<ASSEventView>>,
) -> ReferencePlanView {
    match track {
        Some(events) => {
            let lines = references_of(config.reference_format, candidates(events, issue.timecode));
            if !config.quotes(issue.issue_type) {
                ReferencePlanView::Attach(Seq::empty())
            } else if lines.len() > 1 && !config.skip_reference_picker {
                ReferencePlanView::Ask(lines)
            } else {
                ReferencePlanView::Attach(lines)
            }
        },
        None => ReferencePlanView::Attach(Seq::empty()),
    }
}

/// An issue of a category that is not eligible gets no reference, whatever
/// the track holds at its timecode.
pub proof fn lemma_no_reference_for_other_categories(
    config: ConfigView,
    issue: QCIssueView,
    track: Option<Seq<ASSEventView>>,
)
    requires
        !config.is_eligible(issue.issue_type),
    ensures
        planned(config, issue, track) == ReferencePlanView::Attach(Seq::empty()),
{
}

/// Without a track no issue gets a reference, whatever the options say.
pub proof fn lemma_no_reference_without_track(config: ConfigView, issue: QCIssueView)
    ensures
        planned(config, issue, None) == ReferencePlanView::Attach(Seq::empty()),
{
}

/// Writes `event` as it is attached to an issue.
pub fn reference_line(format: ReferenceFormat, event: &ASSEvent) -> (r: String)
    ensures
        r@ == reference_of(format, event@),
{
    match format {
        ReferenceFormat::Full => event.to_line(),
        ReferenceFormat::Text => event.text.clone(),
    }
}

/// Writes `events` as they are attached to an issue.
pub fn reference_lines(format: ReferenceFormat, events: &Vec<ASSEvent>) -> (r: Vec<String>)
    ensures
        string_views(r@) == references_of(format, event_views(events@)),
{
    let mut lines: Vec<String> = Vec::new();
    let mut i: usize = 0;
    while i < events.len()
        invariant
            i <= events.len(),
            lines.len() == i,
            forall|j: int| 0 <= j < i ==> lines[j]@ == reference_of(format, events[j]@),
        decreases events.len() - i,
    {
        lines.push(reference_line(format, &events[i]));
        i += 1;
    }
    assert(string_views(lines@) =~= references_of(format, event_views(events@)));
    lines
}

/// The views of a list of events that may be absent.
pub open spec fn optional_events(events: Option<Vec<ASSEvent>>) -> Option<Seq<ASSEventView>> {
    match events {
        Some(list) => Some(event_views(list@)),
        None => None,
    }
}

/// Plans the references of `issue` from the events of the track, or from
/// the lack of a track.
pub fn plan_among(config: &Config, issue: &QCIssue, events: Option<Vec<ASSEvent>>) -> (r:
    ReferencePlan)
    ensures
        r@ == planned(config@, issue@, optional_events(events)),
{
    match events {
        Some(list) => {
            if config.shows_references(&issue.issue_type) {
                let found = choices_among(list, &issue.timecode);
                let lines = reference_lines(config.reference_options.reference_format, &found);
                if lines.len() > 1 && !config.reference_options.skip_reference_picker {
                    ReferencePlan::Ask(lines)
                } else {
                    ReferencePlan::Attach(lines)
                }
            } else {
                let none: Vec<String> = Vec::new();
                assert(string_views(none@) =~= Seq::empty());
                ReferencePlan::Attach(none)
            }
        },
        None => {
            let none: Vec<String> = Vec::new();
            assert(string_views(none@) =~= Seq::empty());
            ReferencePlan::Attach(none)
        },
    }
}

/// Plans the references of `issue` from the track, or from the lack of
/// one.
pub fn plan_references(config: &Config, issue: &QCIssue, sub_file: &Option<Subs>) -> (r:
    ReferencePlan)
    ensures
        r@ == planned(config@, issue@, track_of(*sub_file)),
{
    let events = match sub_file {
        Some(subs) => Some(subs.all_events()),
        None => None,
    };
    plan_among(config, issue, events)
}

/// The answer to a choice that was put to the user.
#[derive(Debug)]
pub enum Selection {
    /// The positions of the lines that the user marked.
    Marked(Vec<usize>),
    /// The user could not be asked, or gave no answer.
    Failed,
}

/// A choice among references came to nothing.
#[derive(Clone, Copy, Debug, PartialEq, Eq, Structural)]
pub struct ReferenceSelectionFailed;

/// The line at each of the positions `marks`.
pub open spec fn marked_lines(lines: Seq<Seq<char>>, marks: Seq<usize>) -> Seq<Seq<char>> {
    Seq::new(marks.len(), |i: int| lines[marks[i] as int])
}

/// Whether each of `marks` is a position of one of `count` lines.
pub open spec fn marks_fit(marks: Seq<usize>, count: nat) -> bool {
    forall|i: int| 0 <= i < marks.len() ==> #[trigger] marks[i] < count
}

/// What a choice among `lines` comes to: the marked lines, in the order of
/// the marks, when the answer is a list of positions among `lines`.
pub open spec fn selected(lines: Seq<Seq<char>>, selection: Selection) -> Option<Seq<Seq<char>>> {
    match selection {
        Selection::Marked(marks) => if marks_fit(marks@, lines.len()) {
            Some(marked_lines(lines, marks@))
        } else {
            None
        },
        Selection::Failed => None,
    }
}

/// Takes the references that the user marked among `lines`.
///
/// Fails when the choice failed, and when a mark is no position of a line.
pub fn select_references(lines: &Vec<String>, selection: &Selection) -> (r: Result<
    Vec<String>,
    ReferenceSelectionFailed,
>)
    ensures
        match r {
            Ok(taken) => selected(string_views(lines@), *selection) == Some(string_views(taken@)),
            Err(_) => selected(string_views(lines@), *selection) is None,
        },
{
    match selection {
        Selection::Marked(marks) => {
            let mut taken: Vec<String> = Vec::new();
            let mut i: usize = 0;
            while i < marks.len()
                invariant
                    i <= marks.len(),
                    taken.len() == i,
                    *selection == Selection::Marked(*marks),
                    forall|j: int| 0 <= j < i ==> #[trigger] marks[j] < lines.len(),
                    forall|j: int| 0 <= j < i ==> taken[j]@ == lines[marks[j] as int]@,
                decreases marks.len() - i,
            {
                if marks[i] >= lines.len() {
                    assert(!(marks@[i as int] < string_views(lines@).len()));
                    return Err(ReferenceSelectionFailed);
                }
                taken.push(lines[marks[i]].clone());
                i += 1;
            }
            assert(string_views(taken@) =~= marked_lines(string_views(lines@), marks@));
            Ok(taken)
        },
        Selection::Failed => Err(ReferenceSelectionFailed),
    }
}

/// The references that `issue` gets when every choice is answered by
/// marking all lines.
pub open spec fn all_references(
    config: ConfigView,
    issue: QCIssueView,
    track: Option<Seq<ASSEventView>>,
) -> Seq<Seq<char>> {
    planned(config, issue, track).lines()
}

/// `issue` with the references that it gets when every choice is answered
/// by marking all lines.
pub open spec fn with_all_references(
    config: ConfigView,
    track: Option<Seq<ASSEventView>>,
) -> spec_fn(QCIssueView) -> QCIssueView {
    |issue: QCIssueView|
        QCIssueView { matching_lines: all_references(config, issue, track), ..issue }
}

/// Attaches to each of `issues` its references, every choice answered by
/// marking all lines.
pub fn attach_all(config: &Config, issues: Vec<QCIssue>, sub_file: &Option<Subs>) -> (r: Vec<
    QCIssue,
>)
    ensures
        issue_views(r@) == issue_views(issues@).map_values(
            with_all_references(config@, track_of(*sub_file)),
        ),
{
    let ghost all = issue_views(issues@);
    let ghost attach = with_all_references(config@, track_of(*sub_file));
    let mut out: Vec<QCIssue> = Vec::new();
    for issue in it: issues
        invariant
            all == issue_views(it.seq()),
            attach == with_all_references(config@, track_of(*sub_file)),
            out.len() == it.index(),
            forall|j: int| 0 <= j < it.index() ==> (#[trigger] out[j])@ == attach(all[j]),
    {
        let lines = match plan_references(config, &issue, sub_file) {
            ReferencePlan::Attach(lines) => lines,
            ReferencePlan::Ask(lines) => lines,
        };
        out.push(issue.with_references(lines));
    }
    assert(issue_views(out@) =~= all.map_values(attach));
    out
}

} // verus!
