//! Grouping issues by category, and folding categories into one group.

use vstd::prelude::*;

use crate::config::holds;
use crate::order::{
    lemma_stable_sort_map, lemma_stable_sort_of_key, lemma_stable_sort_permutes,
    lemma_stable_sort_sorted, of_key, sort_by_keys, stable_sort,
};
use crate::qc_issue::{issue_views, string_views, QCIssue, QCIssueView};
use crate::seqs::{lemma_filter_empty, lemma_filter_push};

verus! {

/// What a group holds, as plain values.
pub struct IssueGroupView {
    pub category: Seq<char>,
    pub issues: Seq<QCIssueView>,
}

/// The issues that are shown under one heading.
#[derive(Debug)]
pub struct IssueGroup {
    /// The heading.
    pub category: String,
    /// The issues under it.
    pub issues: Vec<QCIssue>,
}

impl View for IssueGroup {
    type V = IssueGroupView;

    open spec fn view(&self) -> IssueGroupView {
        IssueGroupView { category: self.category@, issues: issue_views(self.issues@) }
    }
}

/// The views of a list of groups.
pub open spec fn group_views(s: Seq<IssueGroup>) -> Seq<IssueGroupView> {
    s.map_values(|g: IssueGroup| g@)
}

/// The groups of one checklist, in the order in which they were made. No
/// two groups of a well-formed map have the same category.
#[derive(Debug)]
pub struct IssueMap {
    pub groups: Vec<IssueGroup>,
}

/// Whether no two of these groups have the same category.
pub open spec fn distinct_categories(groups: Seq<IssueGroupView>) -> bool {
    forall|i: int, j: int|
        0 <= i < j < groups.len() ==> (#[trigger] groups[i]).category != (
        #[trigger] groups[j]).category
}

impl View for IssueMap {
    type V = Seq<IssueGroupView>;

    open spec fn view(&self) -> Seq<IssueGroupView> {
        group_views(self.groups@)
    }
}

impl IssueMap {
    /// Whether no category occurs twice.
    pub open spec fn wf(&self) -> bool {
        distinct_categories(self@)
    }
}

/// The test that picks the issues of category `c`, compared letter for
/// letter.
pub open spec fn of_category(c: Seq<char>) -> spec_fn(QCIssueView) -> bool {
    |i: QCIssueView| i.issue_type == c
}

/// The issues of category `c` among `issues`, in their order.
pub open spec fn issues_of(issues: Seq<QCIssueView>, c: Seq<char>) -> Seq<QCIssueView> {
    issues.filter(of_category(c))
}

/// The categories that occur among `issues`, each once, in the order in
/// which they first occur.
pub open spec fn categories_of(issues: Seq<QCIssueView>) -> Seq<Seq<char>>
    decreases issues.len(),
{
    if issues.len() == 0 {
        Seq::empty()
    } else {
        let rest = categories_of(issues.drop_last());
        if rest.contains(issues.last().issue_type) {
            rest
        } else {
            rest.push(issues.last().issue_type)
        }
    }
}

/// The group of category `c` over `issues`.
pub open spec fn group_of(issues: Seq<QCIssueView>) -> spec_fn(Seq<char>) -> IssueGroupView {
    |c: Seq<char>| IssueGroupView { category: c, issues: issues_of(issues, c) }
}

/// `issues` by category: one group for each category that occurs, in the
/// order in which the categories first occur, each with all the issues of
/// its category in their order.
pub open spec fn grouped(issues: Seq<QCIssueView>) -> Seq<IssueGroupView> {
    categories_of(issues).map_values(group_of(issues))
}

/// The categories of `issues` are those of its issues, and none is listed
/// twice.
pub proof fn lemma_categories_of(issues: Seq<QCIssueView>)
    ensures
        forall|c: Seq<char>| #[trigger]
            categories_of(issues).contains(c) <==> exists|i: int|
                0 <= i < issues.len() && (#[trigger] issues[i]).issue_type == c,
        categories_of(issues).no_duplicates(),
    decreases issues.len(),
{
    if issues.len() > 0 {
        let rest = issues.drop_last();
        let last = issues.last();
        let cats = categories_of(rest);
        lemma_categories_of(rest);
        assert forall|c: Seq<char>| #[trigger]
            categories_of(issues).contains(c) <==> exists|i: int|
                0 <= i < issues.len() && (#[trigger] issues[i]).issue_type == c by {
            if categories_of(issues).contains(c) {
                if cats.contains(c) {
                    let i = choose|i: int| 0 <= i < rest.len() && (#[trigger] rest[i]).issue_type == c;
                    assert(issues[i].issue_type == c);
                } else {
                    let j = choose|j: int|
                        0 <= j < categories_of(issues).len() && categories_of(issues)[j] == c;
                    if j < cats.len() {
                        assert(cats[j] == c);
                    }
                    assert(issues[issues.len() - 1].issue_type == c);
                }
            }
            if exists|i: int| 0 <= i < issues.len() && (#[trigger] issues[i]).issue_type == c {
                let i = choose|i: int| 0 <= i < issues.len() && (#[trigger] issues[i]).issue_type == c;
                if i < rest.len() {
                    assert(rest[i].issue_type == c);
                    assert(cats.contains(c));
                    let j = choose|j: int| 0 <= j < cats.len() && cats[j] == c;
                    assert(categories_of(issues)[j] == c);
                } else {
                    if cats.contains(c) {
                        let j = choose|j: int| 0 <= j < cats.len() && cats[j] == c;
                        assert(categories_of(issues)[j] == c);
                    } else {
                        assert(categories_of(issues)[cats.len() as int] == c);
                    }
                }
            }
        }
    }
}

/// Files `issue` under its category: into the group of that category when
/// there is one, into a new last group when there is none.
fn file_issue(groups: &mut Vec<IssueGroup>, issue: QCIssue, Ghost(done): Ghost<Seq<QCIssueView>>)
    requires
        group_views(old(groups)@) == grouped(done),
    ensures
        group_views(final(groups)@) == grouped(done.push(issue@)),
{
    let ghost start = groups@;
    let ghost cats = categories_of(done);
    let ghost next = done.push(issue@);
    proof {
        lemma_categories_of(done);
        assert(next.drop_last() =~= done);
        assert(group_views(start).len() == start.len());
        assert(grouped(done).len() == cats.len());
        assert forall|c: Seq<char>| #[trigger]
            issues_of(next, c) == if issue@.issue_type == c {
                issues_of(done, c).push(issue@)
            } else {
                issues_of(done, c)
            } by {
            lemma_filter_push(done, of_category(c), issue@);
        }
    }
    let mut at: usize = 0;
    while at < groups.len() && groups[at].category != issue.issue_type
        invariant
            at <= groups.len(),
            groups@ == start,
            start.len() == cats.len(),
            cats == categories_of(done),
            group_views(start) == grouped(done),
            forall|j: int| 0 <= j < at ==> cats[j] != issue@.issue_type,
        decreases groups.len() - at,
    {
        assert(group_views(start)[at as int].category == grouped(done)[at as int].category);
        at += 1;
    }
    if at < groups.len() {
        let mut group = groups.remove(at);
        let ghost members = group.issues@;
        group.issues.push(issue);
        proof {
            assert(group_views(start)[at as int].category == grouped(done)[at as int].category);
            assert(cats[at as int] == issue@.issue_type);
            assert(issue_views(group.issues@) =~= issue_views(members).push(issue@));
        }
        groups.insert(at, group);
        proof {
            assert(cats.contains(issue@.issue_type));
            assert(group_views(groups@) =~= grouped(next)) by {
                assert forall|j: int| 0 <= j < cats.len() implies #[trigger] group_views(groups@)[j]
                    == grouped(next)[j] by {
                    assert(group_views(start)[j] == grouped(done)[j]);
                    if j != at {
                        assert(groups@[j] == start[j]);
                    }
                }
            }
        }
    } else {
        let category = issue.issue_type.clone();
        let mut members: Vec<QCIssue> = Vec::new();
        members.push(issue);
        groups.push(IssueGroup { category, issues: members });
        proof {
            assert(!cats.contains(issue@.issue_type)) by {
                if cats.contains(issue@.issue_type) {
                    let j = choose|j: int| 0 <= j < cats.len() && cats[j] == issue@.issue_type;
                    assert(group_views(start)[j].category == cats[j]);
                }
            }
            let test = of_category(issue@.issue_type);
            assert forall|i: int| 0 <= i < done.len() implies !test(#[trigger] done[i]) by {
                if test(done[i]) {
                    assert(cats.contains(issue@.issue_type));
                }
            }
            done.lemma_all_neg_filter_empty(test);
            assert(issues_of(done, issue@.issue_type) =~= Seq::empty());
            assert(issue_views(members@) =~= Seq::<QCIssueView>::empty().push(issue@));
            assert(group_views(groups@) =~= grouped(next)) by {
                assert forall|j: int| 0 <= j < cats.len() + 1 implies #[trigger] group_views(
                    groups@,
                )[j] == grouped(next)[j] by {
                    if j < cats.len() {
                        assert(group_views(start)[j] == grouped(done)[j]);
                        assert(groups@[j] == start[j]);
                    }
                }
            }
        }
    }
}

/// Groups `issues` by category.
pub fn group_issues(issues: Vec<QCIssue>) -> (r: IssueMap)
    ensures
        r@ == grouped(issue_views(issues@)),
        r.wf(),
{
    let mut groups: Vec<IssueGroup> = Vec::new();
    let ghost all = issue_views(issues@);
    proof {
        assert(group_views(groups@) =~= grouped(all.take(0)));
    }
    for issue in it: issues
        invariant
            all == issue_views(it.seq()),
            group_views(groups@) == grouped(all.take(it.index())),
    {
        proof {
            assert(all.take(it.index()).push(issue@) =~= all.take(it.index() + 1));
        }
        file_issue(&mut groups, issue, Ghost(all.take(it.index())));
    }
    proof {
        assert(all.take(all.len() as int) =~= all);
        lemma_grouped_distinct(all);
    }
    IssueMap { groups }
}

/// No two groups of a grouping have the same category.
pub proof fn lemma_grouped_distinct(issues: Seq<QCIssueView>)
    ensures
        distinct_categories(grouped(issues)),
{
    lemma_categories_of(issues);
}

/// Grouping loses nothing and doubles nothing.
///
/// Each group holds exactly the issues of its category, in their order, and
/// at least one. Every issue has a group of its category, is a member of
/// it, and is a member of no other group.
pub proof fn lemma_grouping_round_trip(issues: Seq<QCIssueView>)
    ensures
        distinct_categories(grouped(issues)),
        forall|g: int|
            0 <= g < grouped(issues).len() ==> (#[trigger] grouped(issues)[g]).issues == issues_of(
                issues,
                grouped(issues)[g].category,
            ) && grouped(issues)[g].issues.len() > 0,
        forall|i: int|
            0 <= i < issues.len() ==> exists|g: int|
                0 <= g < grouped(issues).len() && (#[trigger] grouped(issues)[g]).category == (
                #[trigger] issues[i]).issue_type,
        forall|i: int, g: int|
            0 <= i < issues.len() && 0 <= g < grouped(issues).len() ==> ((
            #[trigger] grouped(issues)[g]).issues.contains(#[trigger] issues[i]) <==> grouped(
                issues,
            )[g].category == issues[i].issue_type),
{
    let groups = grouped(issues);
    let cats = categories_of(issues);
    lemma_categories_of(issues);
    assert forall|g: int| 0 <= g < groups.len() implies (#[trigger] groups[g]).issues == issues_of(
        issues,
        groups[g].category,
    ) && groups[g].issues.len() > 0 by {
        let c = cats[g];
        assert(cats.contains(c));
        let i = choose|i: int| 0 <= i < issues.len() && (#[trigger] issues[i]).issue_type == c;
        issues.lemma_filter_contains(of_category(c), i);
    }
    assert forall|i: int| 0 <= i < issues.len() implies exists|g: int|
        0 <= g < groups.len() && (#[trigger] groups[g]).category == (#[trigger] issues[i]).issue_type by {
        let c = issues[i].issue_type;
        assert(cats.contains(c));
        let g = choose|g: int| 0 <= g < cats.len() && cats[g] == c;
        assert(groups[g].category == c);
    }
    assert forall|i: int, g: int| 0 <= i < issues.len() && 0 <= g < groups.len() implies ((
    #[trigger] groups[g]).issues.contains(#[trigger] issues[i]) <==> groups[g].category
        == issues[i].issue_type) by {
        let c = groups[g].category;
        let test = of_category(c);
        if groups[g].issues.contains(issues[i]) {
            let k = choose|k: int| 0 <= k < groups[g].issues.len() && groups[g].issues[k] == issues[i];
            issues.lemma_filter_pred(test, k);
        }
        if c == issues[i].issue_type {
            issues.lemma_filter_contains(test, i);
        }
    }
}

/// The key by which issues are ordered: their timecode.
pub open spec fn by_timecode() -> spec_fn(QCIssueView) -> int {
    |i: QCIssueView| i.timecode as int
}

/// Sorts `issues` by timecode; issues of one timecode stay in their order.
pub fn sort_issues(issues: &mut Vec<QCIssue>)
    ensures
        issue_views(final(issues)@) == stable_sort(issue_views(old(issues)@), by_timecode()),
{
    let ghost key = |i: QCIssue| i@.timecode as int;
    let mut keys: Vec<i128> = Vec::new();
    let mut k: usize = 0;
    while k < issues.len()
        invariant
            k <= issues.len(),
            keys.len() == k,
            forall|j: int| 0 <= j < k ==> keys[j] == issues[j]@.timecode,
        decreases issues.len() - k,
    {
        keys.push(issues[k].timecode.as_secs() as i128);
        k += 1;
    }
    proof {
        lemma_stable_sort_map(issues@, |i: QCIssue| i@, key, by_timecode());
    }
    sort_by_keys(issues, &mut keys, Ghost(key));
}

/// The number of issues in `groups`, all groups together.
pub open spec fn total_size(groups: Seq<IssueGroupView>) -> nat
    decreases groups.len(),
{
    if groups.len() == 0 {
        0
    } else {
        total_size(groups.drop_last()) + groups.last().issues.len()
    }
}

/// One more issue makes the groups of `list` larger by one, all together,
/// when `list` names its category, and leaves them as large when it does
/// not.
proof fn lemma_sizes_push(issues: Seq<QCIssueView>, x: QCIssueView, list: Seq<Seq<char>>)
    requires
        list.no_duplicates(),
    ensures
        total_size(list.map_values(group_of(issues.push(x)))) == total_size(
            list.map_values(group_of(issues)),
        ) + if list.contains(x.issue_type) {
            1nat
        } else {
            0nat
        },
    decreases list.len(),
{
    if list.len() > 0 {
        let rest = list.drop_last();
        let c = list.last();
        lemma_sizes_push(issues, x, rest);
        lemma_filter_push(issues, of_category(c), x);
        assert(list.map_values(group_of(issues.push(x))).drop_last() =~= rest.map_values(
            group_of(issues.push(x)),
        ));
        assert(list.map_values(group_of(issues)).drop_last() =~= rest.map_values(group_of(issues)));
        if rest.contains(x.issue_type) {
            let j = choose|j: int| 0 <= j < rest.len() && rest[j] == x.issue_type;
            assert(list[j] == x.issue_type);
            assert(c != x.issue_type);
        } else if list.contains(x.issue_type) {
            let j = choose|j: int| 0 <= j < list.len() && list[j] == x.issue_type;
            if j < rest.len() {
                assert(rest[j] == x.issue_type);
            }
        }
        if c == x.issue_type {
            assert(list[list.len() - 1] == x.issue_type);
        }
    }
}

/// The groups of a grouping hold as many issues, all together, as were
/// grouped: every issue is counted once.
pub proof fn lemma_grouping_counts(issues: Seq<QCIssueView>)
    ensures
        total_size(grouped(issues)) == issues.len(),
    decreases issues.len(),
{
    if issues.len() > 0 {
        let done = issues.drop_last();
        let x = issues.last();
        let cats = categories_of(done);
        lemma_grouping_counts(done);
        lemma_categories_of(done);
        lemma_sizes_push(done, x, cats);
        assert(done.push(x) =~= issues);
        if !cats.contains(x.issue_type) {
            let test = of_category(x.issue_type);
            assert forall|i: int| 0 <= i < done.len() implies !test(#[trigger] done[i]) by {
                if test(done[i]) {
                    assert(cats.contains(x.issue_type));
                }
            }
            done.lemma_all_neg_filter_empty(test);
            lemma_filter_push(done, test, x);
            let all = cats.push(x.issue_type);
            assert(all.map_values(group_of(issues)).drop_last() =~= cats.map_values(group_of(issues)));
        }
    }
}

/// Issues come out by timecode, and those of one timecode in the order in
/// which they went in.
///
/// The timecodes of the sorted issues never fall. For every timecode, the
/// issues of that timecode are the same before and after, in the same
/// order. Nothing is lost or added.
pub proof fn lemma_issue_order(issues: Seq<QCIssueView>)
    ensures
        stable_sort(issues, by_timecode()).len() == issues.len(),
        forall|i: int, j: int|
            0 <= i <= j < issues.len() ==> (#[trigger] stable_sort(issues, by_timecode())[i]).timecode
                <= (#[trigger] stable_sort(issues, by_timecode())[j]).timecode,
        forall|t: nat| #[trigger]
            of_key(stable_sort(issues, by_timecode()), by_timecode(), t as int) == of_key(
                issues,
                by_timecode(),
                t as int,
            ),
        stable_sort(issues, by_timecode()).to_multiset() == issues.to_multiset(),
{
    let key = by_timecode();
    let shown = stable_sort(issues, key);
    lemma_stable_sort_sorted(issues, key);
    lemma_stable_sort_permutes(issues, key);
    assert forall|i: int, j: int| 0 <= i <= j < issues.len() implies (#[trigger] shown[i]).timecode <= (
    #[trigger] shown[j]).timecode by {
        assert(key(shown[i]) <= key(shown[j]));
    }
    assert forall|t: nat| #[trigger]
        of_key(shown, key, t as int) == of_key(issues, key, t as int) by {
        lemma_stable_sort_of_key(issues, key, t as int);
    }
}

/// The heading under which folded categories are shown.
pub open spec fn merged_label() -> Seq<char> {
    "Dialogue"@
}

/// The issues of the first group of category `c`, or none when no group has
/// that category.
pub open spec fn members_of(groups: Seq<IssueGroupView>, c: Seq<char>) -> Seq<QCIssueView>
    decreases groups.len(),
{
    if groups.len() == 0 {
        Seq::empty()
    } else if groups[0].category == c {
        groups[0].issues
    } else {
        members_of(groups.drop_first(), c)
    }
}

/// The issues of the groups that `list` names, group after group in the
/// order of `list`. A category that `list` names again adds nothing.
pub open spec fn gathered(groups: Seq<IssueGroupView>, list: Seq<Seq<char>>) -> Seq<QCIssueView>
    decreases list.len(),
{
    if list.len() == 0 {
        Seq::empty()
    } else if list.drop_last().contains(list.last()) {
        gathered(groups, list.drop_last())
    } else {
        gathered(groups, list.drop_last()) + members_of(groups, list.last())
    }
}

/// The test that picks the groups that folding leaves alone: those that
/// `list` does not name and that do not carry the label of the folded
/// group.
pub open spec fn stays(list: Seq<Seq<char>>) -> spec_fn(IssueGroupView) -> bool {
    |g: IssueGroupView| !list.contains(g.category) && g.category != merged_label()
}

/// `groups` with the categories of `list` folded into one.
///
/// The groups that `list` names leave; their issues, sorted by timecode,
/// make up a new last group under the label. That group is there even when
/// it is empty, and it takes the place of a group that carried the label
/// before.
pub open spec fn merged(groups: Seq<IssueGroupView>, list: Seq<Seq<char>>) -> Seq<IssueGroupView> {
    groups.filter(stays(list)).push(
        IssueGroupView {
            category: merged_label(),
            issues: stable_sort(gathered(groups, list), by_timecode()),
        },
    )
}

/// Whether no group before position `j` has the category of the group
/// there.
pub open spec fn is_first(groups: Seq<IssueGroupView>, j: int) -> bool {
    forall|i: int| 0 <= i < j ==> (#[trigger] groups[i]).category != groups[j].category
}

/// The position of the first group of category `c`, or the number of
/// groups when there is none.
fn find_group(groups: &Vec<IssueGroup>, c: &String, Ghost(first): Ghost<Seq<IssueGroupView>>) -> (r:
    usize)
    requires
        first.len() == groups.len(),
        forall|j: int| 0 <= j < groups.len() ==> first[j].category == (#[trigger] groups[j]).category@,
    ensures
        r <= groups.len(),
        r < groups.len() ==> groups[r as int].category@ == c@ && members_of(first, c@)
            == first[r as int].issues,
        r == groups.len() ==> members_of(first, c@) == Seq::<QCIssueView>::empty(),
        forall|j: int| 0 <= j < r ==> (#[trigger] groups[j]).category@ != c@,
{
    let mut at: usize = 0;
    proof {
        assert(first.skip(0) =~= first);
    }
    while at < groups.len() && groups[at].category != *c
        invariant
            at <= groups.len(),
            first.len() == groups.len(),
            forall|j: int|
                0 <= j < groups.len() ==> first[j].category == (#[trigger] groups[j]).category@,
            members_of(first, c@) == members_of(first.skip(at as int), c@),
            forall|j: int| 0 <= j < at ==> (#[trigger] groups[j]).category@ != c@,
        decreases groups.len() - at,
    {
        proof {
            let rest = first.skip(at as int);
            assert(rest[0] == first[at as int]);
            assert(rest.drop_first() =~= first.skip(at + 1));
        }
        at += 1;
    }
    proof {
        let rest = first.skip(at as int);
        if at < groups.len() {
            assert(rest[0] == first[at as int]);
        }
    }
    at
}

/// Folds the categories that `list` names into one group.
pub fn merge_groups(map: IssueMap, list: &Vec<String>) -> (r: IssueMap)
    ensures
        r@ == merged(map@, string_views(list@)),
        map.wf() ==> r.wf(),
{
    let ghost first = map@;
    let ghost names = string_views(list@);
    let mut groups = map.groups;
    let mut dialogue: Vec<QCIssue> = Vec::new();
    let mut k: usize = 0;
    proof {
        assert(names.take(0) =~= Seq::empty());
        assert(issue_views(dialogue@) =~= gathered(first, names.take(0)));
        assert(first.len() == groups.len());
        assert forall|j: int| 0 <= j < groups.len() implies (#[trigger] groups[j])@ == first[j] by {}
    }
    while k < list.len()
        invariant
            k <= list.len(),
            names == string_views(list@),
            first.len() == groups.len(),
            forall|j: int|
                0 <= j < groups.len() ==> first[j].category == (#[trigger] groups[j]).category@,
            forall|j: int|
                0 <= j < groups.len() ==> issue_views((#[trigger] groups[j]).issues@) == if names.take(
                    k as int,
                ).contains(first[j].category) && is_first(first, j) {
                    Seq::<QCIssueView>::empty()
                } else {
                    first[j].issues
                },
            issue_views(dialogue@) == gathered(first, names.take(k as int)),
        decreases list.len() - k,
    {
        let ghost seen = names.take(k as int);
        let ghost c = names[k as int];
        let ghost before = groups@;
        let ghost gathered_before = dialogue@;
        let ghost upto = names.take(k + 1);
        proof {
            assert(upto.drop_last() =~= seen);
            assert(upto.last() == c);
            assert(list[k as int]@ == c);
            assert forall|x: Seq<char>| #[trigger] upto.contains(x) <==> seen.contains(x) || x == c by {
                if upto.contains(x) {
                    let j = choose|j: int| 0 <= j < upto.len() && upto[j] == x;
                    if j < k {
                        assert(seen[j] == x);
                    }
                }
                if seen.contains(x) {
                    let j = choose|j: int| 0 <= j < seen.len() && seen[j] == x;
                    assert(upto[j] == x);
                }
                if x == c {
                    assert(upto[k as int] == x);
                }
            }
        }
        let at = find_group(&groups, &list[k], Ghost(first));
        if at < groups.len() {
            let group = groups.remove(at);
            let IssueGroup { category, issues } = group;
            let mut members = issues;
            let ghost moved = members@;
            dialogue.append(&mut members);
            groups.insert(at, IssueGroup { category, issues: members });
            proof {
                assert(moved == before[at as int].issues@);
                assert(first[at as int].category == before[at as int].category@);
                assert(is_first(first, at as int)) by {
                    assert forall|i: int| 0 <= i < at implies (#[trigger] first[i]).category
                        != first[at as int].category by {
                        assert(before[i].category@ != c);
                    }
                }
                assert(issue_views(dialogue@) =~= issue_views(gathered_before) + issue_views(moved));
                if seen.contains(c) {
                    assert(issue_views(moved) =~= Seq::<QCIssueView>::empty());
                    assert(issue_views(dialogue@) =~= issue_views(gathered_before));
                }
                assert(issue_views(members@) =~= Seq::<QCIssueView>::empty());
                assert forall|j: int| 0 <= j < groups.len() implies first[j].category == (
                #[trigger] groups[j]).category@ && issue_views(groups[j].issues@)
                    == if upto.contains(first[j].category) && is_first(first, j) {
                    Seq::<QCIssueView>::empty()
                } else {
                    first[j].issues
                } by {
                    assert(upto.contains(first[j].category) <==> seen.contains(first[j].category)
                        || first[j].category == c);
                    if j != at {
                        assert(groups[j] == before[j]);
                        if before[j].category@ == c {
                            assert(j > at);
                            assert(first[at as int].category == first[j].category);
                            assert(!is_first(first, j));
                        }
                    } else {
                        assert(first[j].category == before[j].category@);
                        assert(is_first(first, j)) by {
                            assert forall|i: int| 0 <= i < j implies (#[trigger] first[i]).category
                                != first[j].category by {
                                assert(before[i].category@ != c);
                            }
                        }
                    }
                }
            }
        } else {
            proof {
                assert(gathered(first, seen) + Seq::<QCIssueView>::empty() =~= gathered(first, seen));
                assert forall|j: int| 0 <= j < groups.len() implies (upto.contains(
                    #[trigger] first[j].category,
                ) <==> seen.contains(first[j].category)) by {
                    assert(upto.contains(first[j].category) <==> seen.contains(first[j].category)
                        || first[j].category == c);
                    if first[j].category == c {
                        assert(groups[j].category@ == c);
                    }
                }
            }
        }
        k += 1;
    }
    proof {
        assert(names.take(k as int) =~= names);
    }
    sort_issues(&mut dialogue);
    let label = "Dialogue".to_owned();
    let mut kept: Vec<IssueGroup> = Vec::new();
    let ghost test = stays(names);
    proof {
        lemma_filter_empty(test);
        assert(first.take(0) =~= Seq::empty());
        assert(group_views(kept@) =~= first.take(0).filter(test));
    }
    for group in it: groups
        invariant
            test == stays(names),
            label@ == merged_label(),
            names == string_views(list@),
            first.len() == it.seq().len(),
            forall|j: int|
                0 <= j < it.seq().len() ==> first[j].category == (#[trigger] it.seq()[j]).category@,
            forall|j: int|
                0 <= j < it.seq().len() ==> issue_views((#[trigger] it.seq()[j]).issues@) == if names.contains(
                    first[j].category,
                ) && is_first(first, j) {
                    Seq::<QCIssueView>::empty()
                } else {
                    first[j].issues
                },
            group_views(kept@) == first.take(it.index()).filter(test),
    {
        let ghost before = kept@;
        proof {
            assert(group == it.seq()[it.index()]);
            lemma_filter_push(first.take(it.index()), test, first[it.index()]);
            assert(first.take(it.index()).push(first[it.index()]) =~= first.take(it.index() + 1));
        }
        if !holds(list, &group.category) && group.category != label {
            proof {
                assert(group@ == first[it.index()]);
            }
            kept.push(group);
            proof {
                assert(group_views(kept@) =~= group_views(before).push(first[it.index()]));
            }
        }
    }
    let ghost others = kept@;
    kept.push(IssueGroup { category: label, issues: dialogue });
    proof {
        assert(first.take(first.len() as int) =~= first);
        assert(group_views(kept@) =~= group_views(others).push(kept@[kept.len() - 1]@));
        if distinct_categories(first) {
            lemma_merged_distinct(first, names);
        }
    }
    IssueMap { groups: kept }
}

/// Folding keeps categories distinct.
pub proof fn lemma_merged_distinct(groups: Seq<IssueGroupView>, list: Seq<Seq<char>>)
    requires
        distinct_categories(groups),
    ensures
        distinct_categories(merged(groups, list)),
{
    let test = stays(list);
    let kept = groups.filter(test);
    let out = merged(groups, list);
    lemma_filter_distinct(groups, test);
    assert forall|i: int, j: int| 0 <= i < j < out.len() implies (#[trigger] out[i]).category != (
    #[trigger] out[j]).category by {
        if j < kept.len() {
            assert(out[i] == kept[i] && out[j] == kept[j]);
        } else {
            groups.lemma_filter_pred(test, i);
            assert(test(kept[i]));
        }
    }
}

/// Leaving groups out keeps categories distinct.
pub proof fn lemma_filter_distinct(groups: Seq<IssueGroupView>, test: spec_fn(IssueGroupView) -> bool)
    requires
        distinct_categories(groups),
    ensures
        distinct_categories(groups.filter(test)),
    decreases groups.len(),
{
    reveal(Seq::filter);
    if groups.len() > 0 {
        let rest = groups.drop_last();
        let inner = rest.filter(test);
        let out = groups.filter(test);
        assert(distinct_categories(rest)) by {
            assert forall|i: int, j: int| 0 <= i < j < rest.len() implies (#[trigger] rest[i]).category
                != (#[trigger] rest[j]).category by {
                assert(rest[i] == groups[i] && rest[j] == groups[j]);
            }
        }
        lemma_filter_distinct(rest, test);
        assert forall|i: int, j: int| 0 <= i < j < out.len() implies (#[trigger] out[i]).category != (
        #[trigger] out[j]).category by {
            if j < inner.len() {
                assert(out[i] == inner[i] && out[j] == inner[j]);
            } else {
                let x = inner[i];
                assert(inner.contains(x));
                rest.lemma_filter_contains_rev(test, x);
                let a = choose|a: int| 0 <= a < rest.len() && rest[a] == x;
                assert(groups[a] == x && groups[groups.len() - 1] == out[j]);
            }
        }
    }
}

} // verus!
