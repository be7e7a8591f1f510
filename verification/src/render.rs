//! The checklist document.

use vstd::prelude::*;
use vstd::string::StringExecFns;

use crate::config::{Config, ConfigView, Marker};
use crate::groups::{
    by_timecode, group_views, sort_issues, IssueGroup, IssueGroupView, IssueMap,
};
use crate::order::{
    lemma_stable_sort_map, lemma_stable_sort_of_key, lemma_stable_sort_permutes,
    lemma_stable_sort_sorted, of_key, sort_by_keys, stable_sort,
};
use crate::qc_issue::{issue_views, string_views, QCIssue, QCIssueView};
use crate::timecode::hhmmss_text;

verus! {

/// The text of a checklist marker.
pub open spec fn marker_text(marker: Marker) -> Seq<char> {
    match marker {
        Marker::Star => "* [ ]"@,
        Marker::Dash => "- [ ]"@,
    }
}

/// One quoted line for each of `lines`.
pub open spec fn quote_block(lines: Seq<Seq<char>>) -> Seq<char>
    decreases lines.len(),
{
    if lines.len() == 0 {
        Seq::empty()
    } else {
        quote_block(lines.drop_last()) + "> "@ + lines.last() + "\n"@
    }
}

/// The quoted lines that show the references of an issue: one for each
/// reference, or a single empty one when there is no reference.
pub open spec fn reference_block(lines: Seq<Seq<char>>) -> Seq<char> {
    if lines.len() == 0 {
        "> \n"@
    } else {
        quote_block(lines)
    }
}

/// The checklist line of an issue: marker, timecode, commentary.
pub open spec fn checklist_line(marker: Marker, issue: QCIssueView) -> Seq<char> {
    marker_text(marker) + " "@ + hhmmss_text(issue.timecode) + " - "@ + issue.issue_text + "\n"@
}

/// All that the checklist shows of an issue: its references, where the
/// configuration shows references for its category, and then its checklist
/// line.
pub open spec fn issue_block(config: ConfigView, issue: QCIssueView) -> Seq<char> {
    if config.quotes(issue.issue_type) {
        reference_block(issue.matching_lines) + checklist_line(config.marker, issue)
    } else {
        checklist_line(config.marker, issue)
    }
}

/// The blocks of `issues`, one after the other.
pub open spec fn issue_blocks(config: ConfigView, issues: Seq<QCIssueView>) -> Seq<char>
    decreases issues.len(),
{
    if issues.len() == 0 {
        Seq::empty()
    } else {
        issue_blocks(config, issues.drop_last()) + issue_block(config, issues.last())
    }
}

/// A group as the checklist shows it: the heading, the issues by timecode,
/// and an empty line.
pub open spec fn group_block(config: ConfigView, group: IssueGroupView) -> Seq<char> {
    "# "@ + group.category + "\n"@ + issue_blocks(config, stable_sort(group.issues, by_timecode()))
        + "\n"@
}

/// The blocks of `groups`, one after the other.
pub open spec fn group_blocks(config: ConfigView, groups: Seq<IssueGroupView>) -> Seq<char>
    decreases groups.len(),
{
    if groups.len() == 0 {
        Seq::empty()
    } else {
        group_blocks(config, groups.drop_last()) + group_block(config, groups.last())
    }
}

/// The key by which groups are ordered: the larger a group, the smaller
/// its key.
pub open spec fn by_size() -> spec_fn(IssueGroupView) -> int {
    |g: IssueGroupView| -(g.issues.len() as int)
}

/// The groups in the order in which the checklist shows them: by falling
/// size, groups of one size in the order in which `groups` holds them.
pub open spec fn display_order(groups: Seq<IssueGroupView>) -> Seq<IssueGroupView> {
    stable_sort(groups, by_size())
}

/// The checklist of `groups`.
pub open spec fn document(config: ConfigView, groups: Seq<IssueGroupView>) -> Seq<char> {
    group_blocks(config, display_order(groups))
}

/// The largest group is shown first, and groups of one size in the order
/// in which they were made.
///
/// Sizes never rise from one shown group to the next, so no group is larger
/// than the first. For every size, the groups of that size are the same
/// before and after, in the same order. Nothing is lost or added.
pub proof fn lemma_group_order(groups: Seq<IssueGroupView>)
    ensures
        display_order(groups).len() == groups.len(),
        forall|i: int, j: int|
            0 <= i <= j < groups.len() ==> (#[trigger] display_order(groups)[i]).issues.len() >= (
            #[trigger] display_order(groups)[j]).issues.len(),
        forall|g: int|
            0 <= g < groups.len() ==> display_order(groups)[0].issues.len() >= (
            #[trigger] groups[g]).issues.len(),
        forall|n: nat| #[trigger]
            of_key(display_order(groups), by_size(), -(n as int)) == of_key(
                groups,
                by_size(),
                -(n as int),
            ),
        display_order(groups).to_multiset() == groups.to_multiset(),
{
    broadcast use vstd::seq_lib::group_to_multiset_ensures;

    let key = by_size();
    let shown = display_order(groups);
    lemma_stable_sort_sorted(groups, key);
    lemma_stable_sort_permutes(groups, key);
    assert forall|i: int, j: int| 0 <= i <= j < groups.len() implies (#[trigger] shown[i]).issues.len()
        >= (#[trigger] shown[j]).issues.len() by {
        assert(key(shown[i]) <= key(shown[j]));
    }
    assert forall|g: int| 0 <= g < groups.len() implies shown[0].issues.len() >= (
    #[trigger] groups[g]).issues.len() by {
        assert(groups.contains(groups[g]));
        assert(shown.to_multiset().count(groups[g]) > 0);
        assert(shown.contains(groups[g]));
        let j = choose|j: int| 0 <= j < shown.len() && shown[j] == groups[g];
        assert(key(shown[0]) <= key(shown[j]));
    }
    assert forall|n: nat| #[trigger]
        of_key(shown, key, -(n as int)) == of_key(groups, key, -(n as int)) by {
        lemma_stable_sort_of_key(groups, key, -(n as int));
    }
}

/// An issue of a category that is not eligible is shown without quoted
/// lines, whatever references it holds: its block is its checklist line.
pub proof fn lemma_reference_suppression(config: ConfigView, issue: QCIssueView)
    requires
        !config.is_eligible(issue.issue_type),
    ensures
        issue_block(config, issue) == checklist_line(config.marker, issue),
{
}

/// Appends one quoted line for each of `lines`.
fn append_quote_block(out: &mut String, lines: &Vec<String>)
    ensures
        final(out)@ == old(out)@ + quote_block(string_views(lines@)),
{
    let ghost start = out@;
    let ghost all = string_views(lines@);
    let mut i: usize = 0;
    proof {
        assert(all.take(0) =~= Seq::empty());
        assert(out@ =~= start + quote_block(all.take(0)));
    }
    while i < lines.len()
        invariant
            i <= lines.len(),
            all == string_views(lines@),
            out@ == start + quote_block(all.take(i as int)),
        decreases lines.len() - i,
    {
        let ghost before = out@;
        out.append("> ");
        out.append(lines[i].as_str());
        out.append("\n");
        proof {
            let next = all.take(i + 1);
            assert(next.drop_last() =~= all.take(i as int));
            assert(next.last() == lines[i as int]@);
            assert(out@ =~= start + quote_block(next));
        }
        i += 1;
    }
    proof {
        assert(all.take(lines.len() as int) =~= all);
    }
}

/// Appends all that the checklist shows of `issue`.
fn append_issue_block(out: &mut String, config: &Config, issue: &QCIssue)
    ensures
        final(out)@ == old(out)@ + issue_block(config@, issue@),
{
    let ghost start = out@;
    if config.shows_references(&issue.issue_type) {
        if issue.matching_lines.len() == 0 {
            out.append("> \n");
        } else {
            append_quote_block(out, &issue.matching_lines);
        }
    }
    let ghost quoted = out@;
    match config.marker {
        Marker::Star => out.append("* [ ]"),
        Marker::Dash => out.append("- [ ]"),
    }
    out.append(" ");
    let timecode = issue.timecode.hhmmss();
    out.append(timecode.as_str());
    out.append(" - ");
    out.append(issue.issue_text.as_str());
    out.append("\n");
    proof {
        assert(out@ =~= quoted + checklist_line(config.marker, issue@));
        assert(out@ =~= start + issue_block(config@, issue@));
    }
}

/// Appends the blocks of `issues`, one after the other.
fn append_issue_blocks(out: &mut String, config: &Config, issues: &Vec<QCIssue>)
    ensures
        final(out)@ == old(out)@ + issue_blocks(config@, issue_views(issues@)),
{
    let ghost start = out@;
    let ghost all = issue_views(issues@);
    let mut i: usize = 0;
    proof {
        assert(all.take(0) =~= Seq::empty());
        assert(out@ =~= start + issue_blocks(config@, all.take(0)));
    }
    while i < issues.len()
        invariant
            i <= issues.len(),
            all == issue_views(issues@),
            out@ == start + issue_blocks(config@, all.take(i as int)),
        decreases issues.len() - i,
    {
        append_issue_block(out, config, &issues[i]);
        proof {
            let next = all.take(i + 1);
            assert(next.drop_last() =~= all.take(i as int));
            assert(next.last() == issues[i as int]@);
            assert(out@ =~= start + issue_blocks(config@, next));
        }
        i += 1;
    }
    proof {
        assert(all.take(issues.len() as int) =~= all);
    }
}

/// Puts `groups` in the order in which the checklist shows them.
pub fn order_groups(groups: &mut Vec<IssueGroup>)
    ensures
        group_views(final(groups)@) == display_order(group_views(old(groups)@)),
{
    let ghost key = |g: IssueGroup| -(g@.issues.len() as int);
    let mut keys: Vec<i128> = Vec::new();
    let mut k: usize = 0;
    while k < groups.len()
        invariant
            k <= groups.len(),
            keys.len() == k,
            forall|j: int| 0 <= j < k ==> keys[j] == -((#[trigger] groups[j])@.issues.len() as int),
        decreases groups.len() - k,
    {
        assert(issue_views(groups[k as int].issues@).len() == groups[k as int].issues@.len());
        keys.push(-(groups[k].issues.len() as i128));
        k += 1;
    }
    proof {
        lemma_stable_sort_map(groups@, |g: IssueGroup| g@, key, by_size());
    }
    sort_by_keys(groups, &mut keys, Ghost(key));
}

/// Writes the checklist of `issue_map`.
///
/// Groups come by falling size, groups of one size in the order of the map.
/// Each group is a heading, its issues by timecode, and an empty line. An
/// issue is its checklist line; where the configuration shows references
/// for the category of the issue, its references stand above that line as
/// quoted lines, or one empty quoted line when it has none.
pub fn format_into_md(config: &Config, issue_map: IssueMap) -> (r: String)
    ensures
        r@ == document(config@, issue_map@),
{
    let mut groups = issue_map.groups;
    order_groups(&mut groups);
    let ghost ordered = group_views(groups@);
    let mut out = String::new();
    proof {
        assert(ordered.take(0) =~= Seq::empty());
        assert(out@ =~= group_blocks(config@, ordered.take(0)));
    }
    for group in it: groups
        invariant
            ordered == group_views(it.seq()),
            out@ == group_blocks(config@, ordered.take(it.index())),
    {
        let ghost before = out@;
        let ghost view = group@;
        let IssueGroup { category, issues } = group;
        let mut members = issues;
        out.append("# ");
        out.append(category.as_str());
        out.append("\n");
        sort_issues(&mut members);
        append_issue_blocks(&mut out, config, &members);
        out.append("\n");
        proof {
            let next = ordered.take(it.index() + 1);
            assert(next.drop_last() =~= ordered.take(it.index()));
            assert(next.last() == view);
            assert(out@ =~= before + group_block(config@, view));
        }
    }
    proof {
        assert(ordered.take(ordered.len() as int) =~= ordered);
    }
    out
}

} // verus!
