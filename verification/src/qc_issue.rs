//! The records that the pipeline passes along: issues and dialogue events.

use std::cmp::Ordering;
use vstd::prelude::*;
use vstd::std_specs::cmp::{PartialEqSpecImpl, PartialOrdSpecImpl};

use crate::timecode::Timecode;

verus! {

/// What an issue holds, as plain values.
pub struct QCIssueView {
    pub timecode: nat,
    pub issue_type: Seq<char>,
    pub issue_text: Seq<char>,
    pub matching_lines: Seq<Seq<char>>,
}

/// One finding of a report.
#[derive(Debug)]
pub struct QCIssue {
    /// When in the media the finding applies.
    pub timecode: Timecode,
    /// The category, exactly as the author wrote it.
    pub issue_type: String,
    /// The commentary.
    pub issue_text: String,
    /// The dialogue lines that were attached to the finding.
    pub matching_lines: Vec<String>,
}

/// The character sequences of a list of strings.
pub open spec fn string_views(s: Seq<String>) -> Seq<Seq<char>> {
    s.map_values(|x: String| x@)
}

/// The views of a list of issues.
pub open spec fn issue_views(s: Seq<QCIssue>) -> Seq<QCIssueView> {
    s.map_values(|x: QCIssue| x@)
}

impl View for QCIssue {
    type V = QCIssueView;

    open spec fn view(&self) -> QCIssueView {
        QCIssueView {
            timecode: self.timecode@,
            issue_type: self.issue_type@,
            issue_text: self.issue_text@,
            matching_lines: string_views(self.matching_lines@),
        }
    }
}

impl QCIssue {
    /// An issue without dialogue lines.
    pub fn new(timecode: Timecode, issue_type: String, issue_text: String) -> (r: QCIssue)
        ensures
            r@ == (QCIssueView {
                timecode: timecode@,
                issue_type: issue_type@,
                issue_text: issue_text@,
                matching_lines: Seq::empty(),
            }),
    {
        let r = QCIssue { timecode, issue_type, issue_text, matching_lines: Vec::new() };
        assert(string_views(r.matching_lines@) =~= Seq::empty());
        r
    }

    /// The same issue with `lines` attached in place of what it had.
    pub fn with_references(self, lines: Vec<String>) -> (r: QCIssue)
        ensures
            r@ == (QCIssueView { matching_lines: string_views(lines@), ..self@ }),
    {
        QCIssue {
            timecode: self.timecode,
            issue_type: self.issue_type,
            issue_text: self.issue_text,
            matching_lines: lines,
        }
    }
}

impl PartialEq for QCIssue {
    /// Two issues are equal when timecode, category and commentary agree;
    /// the attached dialogue lines do not count.
    fn eq(&self, other: &QCIssue) -> (r: bool) {
        self.timecode.as_secs() == other.timecode.as_secs() && self.issue_type == other.issue_type
            && self.issue_text == other.issue_text
    }
}

impl PartialEqSpecImpl for QCIssue {
    open spec fn obeys_eq_spec() -> bool {
        true
    }

    open spec fn eq_spec(&self, other: &QCIssue) -> bool {
        self.timecode@ == other.timecode@ && self.issue_type@ == other.issue_type@
            && self.issue_text@ == other.issue_text@
    }
}

impl Eq for QCIssue {

}

impl PartialOrd for QCIssue {
    /// Issues are ordered by timecode alone.
    fn partial_cmp(&self, other: &QCIssue) -> (r: Option<Ordering>) {
        let a = self.timecode.as_secs();
        let b = other.timecode.as_secs();
        if a < b {
            Some(Ordering::Less)
        } else if a > b {
            Some(Ordering::Greater)
        } else {
            Some(Ordering::Equal)
        }
    }
}

impl PartialOrdSpecImpl for QCIssue {
    open spec fn obeys_partial_cmp_spec() -> bool {
        true
    }

    open spec fn partial_cmp_spec(&self, other: &QCIssue) -> Option<Ordering> {
        if self.timecode@ < other.timecode@ {
            Some(Ordering::Less)
        } else if self.timecode@ > other.timecode@ {
            Some(Ordering::Greater)
        } else {
            Some(Ordering::Equal)
        }
    }
}

/// The kinds of event that a SubStation script holds.
#[derive(Clone, Copy, Debug, PartialEq, Eq, Structural)]
pub enum EventKind {
    Dialogue,
    Picture,
    Sound,
    Movie,
    Command,
}

/// What a dialogue event holds, as plain values.
pub struct ASSEventView {
    pub kind: EventKind,
    pub layer: int,
    pub start: int,
    pub end: int,
    pub style: Option<Seq<char>>,
    pub name: Option<Seq<char>>,
    pub margin_l: int,
    pub margin_r: int,
    pub margin_v: int,
    pub effect: Option<Seq<char>>,
    pub text: Seq<char>,
}

/// One event of a dialogue track. It is shown from `start` up to, not
/// including, `end`; both count milliseconds from the start of the media.
#[derive(Debug)]
pub struct ASSEvent {
    pub kind: EventKind,
    pub layer: i64,
    pub start: i64,
    pub end: i64,
    pub style: Option<String>,
    pub name: Option<String>,
    pub margin_l: i64,
    pub margin_r: i64,
    pub margin_v: i64,
    pub effect: Option<String>,
    pub text: String,
}

/// The character sequence of a string that may be absent.
pub open spec fn optional_view(s: Option<String>) -> Option<Seq<char>> {
    match s {
        Some(x) => Some(x@),
        None => None,
    }
}

/// The views of a list of events.
pub open spec fn event_views(s: Seq<ASSEvent>) -> Seq<ASSEventView> {
    s.map_values(|x: ASSEvent| x@)
}

impl View for ASSEvent {
    type V = ASSEventView;

    open spec fn view(&self) -> ASSEventView {
        ASSEventView {
            kind: self.kind,
            layer: self.layer as int,
            start: self.start as int,
            end: self.end as int,
            style: optional_view(self.style),
            name: optional_view(self.name),
            margin_l: self.margin_l as int,
            margin_r: self.margin_r as int,
            margin_v: self.margin_v as int,
            effect: optional_view(self.effect),
            text: self.text@,
        }
    }
}

/// A copy of a string that may be absent.
fn clone_optional(s: &Option<String>) -> (r: Option<String>)
    ensures
        optional_view(r) == optional_view(*s),
{
    match s {
        Some(x) => Some(x.clone()),
        None => None,
    }
}

impl Clone for ASSEvent {
    fn clone(&self) -> (r: ASSEvent)
        ensures
            r@ == self@,
    {
        ASSEvent {
            kind: self.kind,
            layer: self.layer,
            start: self.start,
            end: self.end,
            style: clone_optional(&self.style),
            name: clone_optional(&self.name),
            margin_l: self.margin_l,
            margin_r: self.margin_r,
            margin_v: self.margin_v,
            effect: clone_optional(&self.effect),
            text: self.text.clone(),
        }
    }
}

} // verus!
