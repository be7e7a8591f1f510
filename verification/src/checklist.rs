//! From a report to its checklist.

use vstd::prelude::*;

use crate::config::{Config, ConfigView};
use crate::groups::{group_issues, grouped, merge_groups, merged, IssueGroupView, IssueMap};
use crate::parser::{parse_outcome, report_lines, MPVQCParser, ParseError, ParseErrorView};
use crate::qc_issue::{issue_views, ASSEventView, QCIssue, QCIssueView};
use crate::references::{attach_all, track_of, with_all_references};
use crate::render::{checklist_line, document, format_into_md, issue_block};
use crate::subs::Subs;

verus! {

/// The groups of a checklist: `issues` by category, with the categories
/// folded that the configuration names for folding.
pub open spec fn arranged(config: ConfigView, issues: Seq<QCIssueView>) -> Seq<IssueGroupView> {
    match config.merge_categories {
        Some(list) => merged(grouped(issues), list),
        None => grouped(issues),
    }
}

/// The checklist of `issues`.
pub open spec fn rendered(config: ConfigView, issues: Seq<QCIssueView>) -> Seq<char> {
    document(config, arranged(config, issues))
}

/// What making the checklist of a report gives, when every choice among
/// references is answered by marking all lines.
///
/// A report that does not parse gives its parse error. Without a dialogue
/// track references are off, whatever the configuration says.
pub open spec fn checklist_of(
    config: ConfigView,
    report: Seq<char>,
    track: Option<Seq<ASSEventView>>,
) -> Result<Seq<char>, ParseErrorView> {
    let options = config.with_track(track is Some);
    match parse_outcome(report_lines(report)) {
        Ok(issues) => Ok(rendered(options, issues.map_values(with_all_references(options, track)))),
        Err(e) => Err(e),
    }
}

/// Without a dialogue track the checklist shows every issue by its
/// checklist line alone, whatever the options say.
pub proof fn lemma_no_track_no_quotes(config: ConfigView, issue: QCIssueView)
    ensures
        issue_block(config.with_track(false), issue) == checklist_line(config.marker, issue),
{
}

/// The plain values of a checklist or the error in its place.
pub open spec fn checklist_view(r: Result<String, ParseError>) -> Result<Seq<char>, ParseErrorView> {
    match r {
        Ok(text) => Ok(text@),
        Err(e) => Err(e@),
    }
}

/// Groups `issues` by category and folds the categories that the
/// configuration names for folding.
pub fn arrange(config: &Config, issues: Vec<QCIssue>) -> (r: IssueMap)
    ensures
        r@ == arranged(config@, issue_views(issues@)),
        r.wf(),
{
    let map = group_issues(issues);
    match &config.merge_categories {
        Some(list) => merge_groups(map, list),
        None => map,
    }
}

/// Writes the checklist of `issues`.
pub fn render(config: &Config, issues: Vec<QCIssue>) -> (r: String)
    ensures
        r@ == rendered(config@, issue_views(issues@)),
{
    format_into_md(config, arrange(config, issues))
}

/// Makes the checklist of a report, every choice among references answered
/// by marking all lines.
pub fn checklist(config: &Config, report: &str, sub_file: &Option<Subs>) -> (r: Result<
    String,
    ParseError,
>)
    ensures
        checklist_view(r) == checklist_of(config@, report@, track_of(*sub_file)),
{
    let options = config.clone().with_track(sub_file.is_some());
    match MPVQCParser::parse(report) {
        Ok(issues) => {
            let issues = attach_all(&options, issues, sub_file);
            Ok(render(&options, issues))
        },
        Err(e) => Err(e),
    }
}

} // verus!
