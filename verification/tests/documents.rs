use std::str::FromStr;

use aspasia::AssSubtitle;
use mpvqc_checklist::checklist::{arrange, checklist, render};
use mpvqc_checklist::config::{Config, Marker, ReferenceFormat};
use mpvqc_checklist::groups::{group_issues, merge_groups, sort_issues, IssueGroup, IssueMap};
use mpvqc_checklist::parser::{MPVQCParser, ParseError};
use mpvqc_checklist::qc_issue::QCIssue;
use mpvqc_checklist::render::{format_into_md, order_groups};
use mpvqc_checklist::subs::Subs;
use mpvqc_checklist::timecode::Timecode;

fn issue(secs: u64, category: &str, text: &str) -> QCIssue {
    QCIssue::new(Timecode::from_secs(secs).unwrap(), category.to_string(), text.to_string())
}

fn quoted(secs: u64, category: &str, text: &str, lines: &[&str]) -> QCIssue {
    issue(secs, category, text).with_references(lines.iter().map(|s| s.to_string()).collect())
}

fn with_references() -> Config {
    let mut config = Config::new();
    config.reference_options.include_references = true;
    config
}

fn shape(map: &IssueMap) -> Vec<(String, Vec<String>)> {
    map.groups
        .iter()
        .map(|g| (g.category.clone(), g.issues.iter().map(|i| i.issue_text.clone()).collect()))
        .collect()
}

fn group(category: &str, texts: &[&str]) -> (String, Vec<String>) {
    (category.to_string(), texts.iter().map(|s| s.to_string()).collect())
}

fn names(list: &[&str]) -> Vec<String> {
    list.iter().map(|s| s.to_string()).collect()
}

#[test]
fn two_issues_of_one_category_without_track() {
    let report = "00:00:05,Spelling,typo in line\n00:00:05,Spelling,another typo\n";
    let text = checklist(&with_references(), report, &None).unwrap();
    assert_eq!(text, "# Spelling\n* [ ] 00:00:05 - typo in line\n* [ ] 00:00:05 - another typo\n\n");
}

#[test]
fn no_track_no_quotes_whatever_the_options() {
    let report = "00:00:05,Spelling,typo in line\n";
    let mut config = with_references();
    config.reference_options.skip_reference_picker = true;
    config.reference_options.reference_format = ReferenceFormat::Text;
    assert_eq!(checklist(&config, report, &None).unwrap(), "# Spelling\n* [ ] 00:00:05 - typo in line\n\n");
    assert_eq!(checklist(&Config::new(), report, &None).unwrap(), "# Spelling\n* [ ] 00:00:05 - typo in line\n\n");
}

#[test]
fn empty_report_gives_an_empty_checklist() {
    assert_eq!(checklist(&Config::new(), "", &None).unwrap(), "");
    assert_eq!(render(&Config::new(), vec![]), "");
}

#[test]
fn checklist_hands_parse_errors_on() {
    assert!(matches!(
        checklist(&Config::new(), "00:00:01,Note,a\n00:77:00,Note,b\n", &None),
        Err(ParseError::InvalidTimecode { line: 2, .. })
    ));
    assert!(matches!(checklist(&Config::new(), "\u{0}", &None), Err(ParseError::MalformedReport)));
}

fn track() -> Option<Subs> {
    let text = "[Script Info]\nScriptType: v4.00+\n\n[Events]\nFormat: Layer, Start, End, Style, Actor, MarginL, MarginR, MarginV, Effect, Text\nDialogue: 0,0:00:10.00,0:00:12.00,Default,,0,0,0,,A\nDialogue: 0,0:00:11.00,0:00:15.00,Default,,0,0,0,,B\n";
    Some(Subs::new(AssSubtitle::from_str(text).unwrap()))
}

#[test]
fn checklist_with_track_quotes_the_dialogue() {
    let report = "00:00:11,Spelling,both\n00:00:10,Spelling,first\n00:00:20,Spelling,silence\n00:00:11,Timing,not eligible\n";
    let mut config = with_references();
    config.reference_options.reference_format = ReferenceFormat::Text;
    let text = checklist(&config, report, &track()).unwrap();
    assert_eq!(
        text,
        "# Spelling\n> A\n* [ ] 00:00:10 - first\n> A\n> B\n* [ ] 00:00:11 - both\n> \n* [ ] 00:00:20 - silence\n\n# Timing\n* [ ] 00:00:11 - not eligible\n\n"
    );
}

#[test]
fn checklist_with_track_quotes_whole_lines() {
    let text = checklist(&with_references(), "00:00:10,Note,x\n", &track()).unwrap();
    assert_eq!(text, "# Note\n> Dialogue: 0,0:00:10.00,0:00:12.00,Default,,0,0,0,,A\n* [ ] 00:00:10 - x\n\n");
}

#[test]
fn checklist_with_track_and_references_off() {
    let text = checklist(&Config::new(), "00:00:10,Note,x\n", &track()).unwrap();
    assert_eq!(text, "# Note\n* [ ] 00:00:10 - x\n\n");
}

#[test]
fn groups_follow_first_occurrence() {
    let map = group_issues(vec![
        issue(1, "B", "b1"),
        issue(2, "A", "a1"),
        issue(3, "B", "b2"),
        issue(4, "C", "c1"),
        issue(5, "A", "a2"),
        issue(6, "B", "b3"),
    ]);
    assert_eq!(shape(&map), vec![
        group("B", &["b1", "b2", "b3"]),
        group("A", &["a1", "a2"]),
        group("C", &["c1"]),
    ]);
}

#[test]
fn categories_differ_by_case_and_space() {
    let map = group_issues(vec![
        issue(1, "Note", "a"),
        issue(2, "note", "b"),
        issue(3, "Note ", "c"),
        issue(4, "Note", "d"),
    ]);
    assert_eq!(shape(&map), vec![group("Note", &["a", "d"]), group("note", &["b"]), group("Note ", &["c"])]);
}

#[test]
fn no_issue_no_group() {
    assert_eq!(shape(&group_issues(vec![])), vec![]);
}

#[test]
fn every_issue_is_in_one_group() {
    let issues: Vec<QCIssue> = (0..20u64).map(|n| issue(n, ["A", "B", "C"][(n % 3) as usize], &n.to_string())).collect();
    let map = group_issues(issues);
    let mut seen: Vec<String> = map.groups.iter().flat_map(|g| g.issues.iter().map(|i| i.issue_text.clone())).collect();
    seen.sort_by_key(|s| s.parse::<u64>().unwrap());
    assert_eq!(seen, (0..20u64).map(|n| n.to_string()).collect::<Vec<_>>());
    assert_eq!(map.groups.iter().map(|g| g.issues.len()).collect::<Vec<_>>(), vec![7, 7, 6]);
    for g in &map.groups {
        assert!(g.issues.iter().all(|i| i.issue_type == g.category));
    }
}

#[test]
fn sorting_is_by_timecode_and_stable() {
    let mut issues = vec![
        issue(30, "N", "c"),
        issue(10, "N", "a1"),
        issue(20, "N", "b1"),
        issue(10, "N", "a2"),
        issue(20, "N", "b2"),
        issue(10, "N", "a3"),
        issue(0, "N", "z"),
    ];
    sort_issues(&mut issues);
    let texts: Vec<&str> = issues.iter().map(|i| i.issue_text.as_str()).collect();
    assert_eq!(texts, vec!["z", "a1", "a2", "a3", "b1", "b2", "c"]);
    let secs: Vec<u64> = issues.iter().map(|i| i.timecode.as_secs()).collect();
    assert_eq!(secs, vec![0, 10, 10, 10, 20, 20, 30]);
}

#[test]
fn sorting_short_lists() {
    let mut none: Vec<QCIssue> = vec![];
    sort_issues(&mut none);
    assert!(none.is_empty());
    let mut one = vec![issue(5, "N", "x")];
    sort_issues(&mut one);
    assert_eq!(one, vec![issue(5, "N", "x")]);
    let mut two = vec![issue(5, "N", "x"), issue(4, "N", "y")];
    sort_issues(&mut two);
    assert_eq!(two, vec![issue(4, "N", "y"), issue(5, "N", "x")]);
}

fn raw_group(category: &str, count: usize) -> IssueGroup {
    IssueGroup {
        category: category.to_string(),
        issues: (0..count).map(|n| issue(n as u64, category, "x")).collect(),
    }
}

#[test]
fn larger_groups_come_first_and_ties_keep_their_order() {
    let mut groups = vec![
        raw_group("one", 1),
        raw_group("three-a", 3),
        raw_group("two", 2),
        raw_group("three-b", 3),
        raw_group("none", 0),
        raw_group("one-b", 1),
    ];
    order_groups(&mut groups);
    let order: Vec<&str> = groups.iter().map(|g| g.category.as_str()).collect();
    assert_eq!(order, vec!["three-a", "three-b", "two", "one", "one-b", "none"]);
}

#[test]
fn document_orders_groups_and_issues() {
    let issues = vec![
        issue(50, "Timing", "late"),
        issue(7, "Spelling", "s2"),
        issue(3, "Spelling", "s1"),
        issue(5, "Timing", "early"),
        issue(9, "Spelling", "s3"),
        issue(1, "Other", "o"),
    ];
    assert_eq!(
        render(&Config::new(), issues),
        "# Spelling\n* [ ] 00:00:03 - s1\n* [ ] 00:00:07 - s2\n* [ ] 00:00:09 - s3\n\n# Timing\n* [ ] 00:00:05 - early\n* [ ] 00:00:50 - late\n\n# Other\n* [ ] 00:00:01 - o\n\n"
    );
}

#[test]
fn document_is_the_same_every_time() {
    let make = || vec![issue(2, "B", "b"), issue(1, "A", "a"), issue(3, "C", "c")];
    let first = render(&Config::new(), make());
    assert_eq!(first, "# B\n* [ ] 00:00:02 - b\n\n# A\n* [ ] 00:00:01 - a\n\n# C\n* [ ] 00:00:03 - c\n\n");
    for _ in 0..5 {
        assert_eq!(render(&Config::new(), make()), first);
    }
}

#[test]
fn dash_marker() {
    let mut config = Config::new();
    config.marker = Marker::Dash;
    assert_eq!(render(&config, vec![issue(3661, "Note", "x")]), "# Note\n- [ ] 01:01:01 - x\n\n");
}

#[test]
fn references_stand_above_the_issue() {
    let issues = vec![
        quoted(5, "Spelling", "two", &["first line", "second line"]),
        quoted(6, "Spelling", "none", &[]),
        quoted(7, "Timing", "not eligible", &["hidden"]),
    ];
    assert_eq!(
        render(&with_references(), issues),
        "# Spelling\n> first line\n> second line\n* [ ] 00:00:05 - two\n> \n* [ ] 00:00:06 - none\n\n# Timing\n* [ ] 00:00:07 - not eligible\n\n"
    );
}

#[test]
fn references_are_hidden_when_off() {
    let issues = vec![quoted(5, "Spelling", "two", &["first line", "second line"])];
    assert_eq!(render(&Config::new(), issues), "# Spelling\n* [ ] 00:00:05 - two\n\n");
}

#[test]
fn other_categories_never_show_references() {
    let mut config = with_references();
    config.reference_options.reference_categories = names(&["Only"]);
    let issues = vec![
        quoted(5, "Spelling", "s", &["a", "b", "c"]),
        quoted(6, "Only", "o", &["d"]),
        quoted(7, "only", "case", &["e"]),
    ];
    assert_eq!(
        render(&config, issues),
        "# Spelling\n* [ ] 00:00:05 - s\n\n# Only\n> d\n* [ ] 00:00:06 - o\n\n# only\n* [ ] 00:00:07 - case\n\n"
    );
}

#[test]
fn with_track_switches_references_off_without_one() {
    let issues = || vec![quoted(5, "Spelling", "s", &["a"])];
    assert_eq!(render(&with_references().with_track(true), issues()), "# Spelling\n> a\n* [ ] 00:00:05 - s\n\n");
    assert_eq!(render(&with_references().with_track(false), issues()), "# Spelling\n* [ ] 00:00:05 - s\n\n");
    assert_eq!(render(&Config::new().with_track(true), issues()), "# Spelling\n* [ ] 00:00:05 - s\n\n");
}

#[test]
fn format_takes_groups_as_they_are() {
    let map = IssueMap {
        groups: vec![
            IssueGroup { category: "Heading".to_string(), issues: vec![issue(9, "Spelling", "b"), issue(1, "Timing", "a")] },
            IssueGroup { category: "Empty".to_string(), issues: vec![] },
        ],
    };
    assert_eq!(
        format_into_md(&Config::new(), map),
        "# Heading\n* [ ] 00:00:01 - a\n* [ ] 00:00:09 - b\n\n# Empty\n\n"
    );
}

#[test]
fn folding_gathers_the_named_categories() {
    let map = group_issues(vec![
        issue(30, "Spelling", "s30"),
        issue(10, "Timing", "t10"),
        issue(20, "Note", "n20"),
        issue(10, "Spelling", "s10"),
        issue(10, "Note", "n10"),
        issue(5, "Other", "o5"),
    ]);
    let out = merge_groups(map, &names(&["Note", "Missing", "Spelling", "Note"]));
    assert_eq!(shape(&out), vec![
        group("Timing", &["t10"]),
        group("Other", &["o5"]),
        group("Dialogue", &["n10", "s10", "n20", "s30"]),
    ]);
    assert_eq!(out.groups[2].issues[0].issue_type, "Note");
    assert_eq!(out.groups[2].issues[1].issue_type, "Spelling");
}

#[test]
fn folding_nothing_still_makes_the_group() {
    let map = group_issues(vec![issue(10, "Timing", "t10")]);
    assert_eq!(shape(&merge_groups(map, &names(&["Note"]))), vec![group("Timing", &["t10"]), group("Dialogue", &[])]);
    assert_eq!(shape(&merge_groups(group_issues(vec![]), &vec![])), vec![group("Dialogue", &[])]);
}

#[test]
fn folding_replaces_a_group_that_carries_the_label() {
    let map = group_issues(vec![issue(1, "Dialogue", "old"), issue(2, "Note", "n"), issue(3, "Timing", "t")]);
    assert_eq!(shape(&merge_groups(map, &names(&["Note"]))), vec![group("Timing", &["t"]), group("Dialogue", &["n"])]);
    let map = group_issues(vec![issue(1, "Dialogue", "old"), issue(2, "Note", "n")]);
    assert_eq!(
        shape(&merge_groups(map, &names(&["Note", "Dialogue"]))),
        vec![group("Dialogue", &["old", "n"])]
    );
}

#[test]
fn arrange_folds_when_configured() {
    let mut config = Config::new();
    let issues = || vec![issue(2, "Note", "n"), issue(1, "Spelling", "s"), issue(3, "Timing", "t")];
    assert_eq!(shape(&arrange(&config, issues())), vec![group("Note", &["n"]), group("Spelling", &["s"]), group("Timing", &["t"])]);
    config.merge_categories = Some(names(&["Note", "Spelling"]));
    assert_eq!(shape(&arrange(&config, issues())), vec![group("Timing", &["t"]), group("Dialogue", &["s", "n"])]);
}

#[test]
fn folded_document() {
    let mut config = with_references();
    config.merge_categories = Some(config.reference_options.reference_categories.clone());
    let issues = vec![
        quoted(20, "Note", "n", &["said"]),
        issue(1, "Timing", "t"),
        quoted(10, "Spelling", "s", &[]),
    ];
    assert_eq!(
        render(&config, issues),
        "# Dialogue\n> \n* [ ] 00:00:10 - s\n> said\n* [ ] 00:00:20 - n\n\n# Timing\n* [ ] 00:00:01 - t\n\n"
    );
}

#[test]
fn parsed_issues_render() {
    let issues = MPVQCParser::parse("[DATA]\n01:02:03,Translation,wrong word\n123:00:00,Translation,far out\n").unwrap();
    assert_eq!(
        render(&Config::new(), issues),
        "# Translation\n* [ ] 01:02:03 - wrong word\n* [ ] 123:00:00 - far out\n\n"
    );
}

#[test]
fn issues_are_ordered_by_timecode_alone() {
    assert!(issue(1, "Z", "z") < issue(2, "A", "a"));
    assert!(issue(3, "A", "a") > issue(2, "Z", "z"));
    assert!(issue(2, "A", "a") <= issue(2, "Z", "z"));
    assert!(issue(2, "A", "a") >= issue(2, "Z", "z"));
    assert_eq!(issue(2, "A", "a").partial_cmp(&issue(2, "Z", "z")), Some(std::cmp::Ordering::Equal));
}

#[test]
fn default_options() {
    let config = Config::default();
    assert!(!config.reference_options.include_references);
    assert!(!config.reference_options.skip_reference_picker);
    assert_eq!(config.reference_options.reference_format, ReferenceFormat::Full);
    assert_eq!(
        config.reference_options.reference_categories,
        names(&["Linebreak", "Translation", "Spelling", "Punctuation", "Phrasing", "Note"])
    );
    assert_eq!(config.marker, Marker::Star);
    assert!(config.merge_categories.is_none());
    assert!(config.eligible(&"Note".to_string()));
    assert!(!config.eligible(&"note".to_string()));
    assert!(!config.shows_references(&"Note".to_string()));
    assert!(with_references().shows_references(&"Note".to_string()));
    assert!(!with_references().shows_references(&"Timing".to_string()));
    let copy = with_references().clone();
    assert!(copy.reference_options.include_references);
    assert_eq!(copy.reference_options.reference_categories.len(), 6);
}
