use std::str::FromStr;

use aspasia::{AssSubtitle, Subtitle};
use mpvqc_checklist::config::{Config, ReferenceFormat};
use mpvqc_checklist::qc_issue::{ASSEvent, EventKind, QCIssue};
use mpvqc_checklist::references::{
    attach_all, plan_among, plan_references, reference_line, reference_lines, select_references,
    ReferencePlan, ReferenceSelectionFailed, Selection,
};
use mpvqc_checklist::subs::{choices_among, Subs};
use mpvqc_checklist::timecode::Timecode;

const HEAD: &str = "[Script Info]\nScriptType: v4.00+\n\n[Events]\nFormat: Layer, Start, End, Style, Actor, MarginL, MarginR, MarginV, Effect, Text\n";

fn track(lines: &[&str]) -> Subs {
    let mut text = String::from(HEAD);
    for line in lines {
        text.push_str(line);
        text.push('\n');
    }
    Subs::new(AssSubtitle::from_str(&text).unwrap())
}

fn two_lines() -> Subs {
    track(&[
        "Dialogue: 0,0:00:10.00,0:00:12.00,Default,,0,0,0,,A",
        "Dialogue: 0,0:00:12.00,0:00:15.00,Default,,0,0,0,,B",
    ])
}

fn at(secs: u64) -> Timecode {
    Timecode::from_secs(secs).unwrap()
}

fn texts(subs: &Subs, secs: u64) -> Vec<String> {
    subs.choices_for_timecode(&at(secs)).into_iter().map(|e| e.text).collect()
}

fn issue(secs: u64, category: &str, text: &str) -> QCIssue {
    QCIssue::new(at(secs), category.to_string(), text.to_string())
}

fn config(wanted: bool, skip: bool, format: ReferenceFormat) -> Config {
    let mut config = Config::new();
    config.reference_options.include_references = wanted;
    config.reference_options.skip_reference_picker = skip;
    config.reference_options.reference_format = format;
    config
}

fn event(start: i64, end: i64, text: &str) -> ASSEvent {
    ASSEvent {
        kind: EventKind::Dialogue,
        layer: 0,
        start,
        end,
        style: Some("Default".to_string()),
        name: None,
        margin_l: 0,
        margin_r: 0,
        margin_v: 0,
        effect: None,
        text: text.to_string(),
    }
}

#[test]
fn the_track_hands_out_its_events() {
    let subs = two_lines();
    assert_eq!(subs.subtitle_file.events().len(), 2);
    let found = subs.choices_for_timecode(&at(10));
    assert_eq!(found.len(), 1);
    assert_eq!(found[0].kind, EventKind::Dialogue);
    assert_eq!(found[0].start, 10000);
    assert_eq!(found[0].end, 12000);
    assert_eq!(found[0].text, "A");
    assert_eq!(found[0].style.as_deref(), subs.subtitle_file.events()[0].style.as_deref());
    assert_eq!(found[0].name, subs.subtitle_file.events()[0].name);
    assert_eq!(found[0].effect, subs.subtitle_file.events()[0].effect);
}

#[test]
fn boundary_belongs_to_the_later_event() {
    let subs = two_lines();
    assert_eq!(texts(&subs, 11), vec!["A"]);
    assert_eq!(texts(&subs, 12), vec!["B"]);
}

#[test]
fn nothing_is_spoken_outside_the_events() {
    let subs = two_lines();
    assert_eq!(texts(&subs, 9), Vec::<String>::new());
    assert_eq!(texts(&subs, 10), vec!["A"]);
    assert_eq!(texts(&subs, 14), vec!["B"]);
    assert_eq!(texts(&subs, 15), Vec::<String>::new());
    assert_eq!(texts(&subs, 0), Vec::<String>::new());
}

#[test]
fn an_event_counts_for_every_second_it_touches() {
    let subs = track(&[
        "Dialogue: 0,0:00:10.50,0:00:12.20,Default,,0,0,0,,A",
        "Dialogue: 0,0:00:12.90,0:00:13.00,Default,,0,0,0,,B",
    ]);
    assert_eq!(texts(&subs, 9), Vec::<String>::new());
    assert_eq!(texts(&subs, 10), vec!["A"]);
    assert_eq!(texts(&subs, 11), vec!["A"]);
    assert_eq!(texts(&subs, 12), vec!["A", "B"]);
    assert_eq!(texts(&subs, 13), Vec::<String>::new());
}

#[test]
fn candidates_come_in_track_order() {
    let subs = track(&[
        "Dialogue: 0,0:00:11.00,0:00:14.00,Default,,0,0,0,,late start",
        "Dialogue: 0,0:00:05.00,0:00:30.00,Default,,0,0,0,,early start",
        "Dialogue: 0,0:00:12.00,0:00:13.00,Default,,0,0,0,,middle",
    ]);
    assert_eq!(texts(&subs, 12), vec!["late start", "early start", "middle"]);
}

#[test]
fn positioned_captions_are_left_out() {
    let subs = track(&[
        "Dialogue: 0,0:00:10.00,0:00:12.00,Default,,0,0,0,,{\\pos(10,20)}Sign",
        "Dialogue: 0,0:00:10.00,0:00:12.00,Default,,0,0,0,,Spoken",
        "Dialogue: 0,0:00:10.00,0:00:12.00,Default,,0,0,0,,{\\an8}Top {\\pos(1,1)}",
        "Dialogue: 0,0:00:10.00,0:00:12.00,Default,,0,0,0,,{\\po}s(",
    ]);
    assert_eq!(texts(&subs, 10), vec!["Spoken", "{\\po}s("]);
}

#[test]
fn empty_track_has_no_candidates() {
    let subs = track(&[]);
    assert_eq!(texts(&subs, 10), Vec::<String>::new());
}

#[test]
fn events_know_their_seconds() {
    let e = event(10000, 12000, "A");
    assert!(!e.is_choice_for(&at(9)));
    assert!(e.is_choice_for(&at(10)));
    assert!(e.is_choice_for(&at(11)));
    assert!(!e.is_choice_for(&at(12)));
    assert!(!event(10000, 12000, "\\pos(1,2)A").is_choice_for(&at(10)));
    assert!(event(i64::MIN, i64::MAX, "A").is_choice_for(&at(0)));
    assert!(event(i64::MIN, i64::MAX, "A").is_choice_for(&at(9_223_372_036_854_775)));
    assert!(!event(i64::MIN, i64::MAX, "A").is_choice_for(&at(9_223_372_036_854_776)));
    assert!(!event(i64::MIN, i64::MAX, "A").is_choice_for(&at(mpvqc_checklist::timecode::MAX_SECONDS)));
}

#[test]
fn event_copies_are_equal_field_by_field() {
    let e = event(1, 2, "A");
    let c = e.clone();
    assert_eq!(format!("{:?}", e), format!("{:?}", c));
}

#[test]
fn full_format_writes_the_script_line() {
    let subs = two_lines();
    let found = subs.choices_for_timecode(&at(10));
    let line = reference_line(ReferenceFormat::Full, &found[0]);
    assert_eq!(line, subs.subtitle_file.events()[0].to_string());
    assert_eq!(line, "Dialogue: 0,0:00:10.00,0:00:12.00,Default,,0,0,0,,A");
}

#[test]
fn full_format_writes_every_field() {
    let e = ASSEvent {
        kind: EventKind::Command,
        layer: 3,
        start: 3_723_450,
        end: 3_730_000,
        style: Some("Sign".to_string()),
        name: Some("Ann".to_string()),
        margin_l: 1,
        margin_r: 2,
        margin_v: 3,
        effect: Some("Scroll".to_string()),
        text: "Hi, there".to_string(),
    };
    assert_eq!(e.to_line(), "Command: 3,1:02:03.45,1:02:10.00,Sign,Ann,1,2,3,Scroll,Hi, there");
}

#[test]
fn text_format_writes_the_text() {
    let e = event(10000, 12000, "A line");
    assert_eq!(reference_line(ReferenceFormat::Text, &e), "A line");
    assert_eq!(
        reference_lines(ReferenceFormat::Text, &vec![event(0, 1, "x"), event(0, 1, "y")]),
        vec!["x", "y"]
    );
    assert_eq!(reference_lines(ReferenceFormat::Text, &vec![]), Vec::<String>::new());
}

fn attached(plan: ReferencePlan) -> Vec<String> {
    match plan {
        ReferencePlan::Attach(lines) => lines,
        ReferencePlan::Ask(lines) => panic!("asked about {:?}", lines),
    }
}

fn asked(plan: ReferencePlan) -> Vec<String> {
    match plan {
        ReferencePlan::Ask(lines) => lines,
        ReferencePlan::Attach(lines) => panic!("attached {:?}", lines),
    }
}

fn crowded() -> Option<Subs> {
    Some(track(&[
        "Dialogue: 0,0:00:10.00,0:00:12.00,Default,,0,0,0,,A",
        "Dialogue: 0,0:00:11.00,0:00:15.00,Default,,0,0,0,,B",
        "Dialogue: 0,0:00:11.50,0:00:11.60,Default,,0,0,0,,C",
    ]))
}

#[test]
fn no_track_no_references() {
    let c = config(true, false, ReferenceFormat::Text);
    assert_eq!(attached(plan_references(&c, &issue(11, "Spelling", "x"), &None)), Vec::<String>::new());
}

#[test]
fn references_off_no_references() {
    let c = config(false, false, ReferenceFormat::Text);
    assert_eq!(attached(plan_references(&c, &issue(11, "Spelling", "x"), &crowded())), Vec::<String>::new());
}

#[test]
fn other_categories_get_no_references() {
    let c = config(true, false, ReferenceFormat::Text);
    assert_eq!(attached(plan_references(&c, &issue(11, "Timing", "x"), &crowded())), Vec::<String>::new());
    assert_eq!(attached(plan_references(&c, &issue(11, "spelling", "x"), &crowded())), Vec::<String>::new());
}

#[test]
fn no_candidate_no_reference() {
    let c = config(true, false, ReferenceFormat::Text);
    assert_eq!(attached(plan_references(&c, &issue(20, "Spelling", "x"), &crowded())), Vec::<String>::new());
}

#[test]
fn one_candidate_is_attached() {
    let c = config(true, false, ReferenceFormat::Text);
    assert_eq!(attached(plan_references(&c, &issue(10, "Spelling", "x"), &crowded())), vec!["A"]);
}

#[test]
fn several_candidates_are_put_to_the_user() {
    let c = config(true, false, ReferenceFormat::Text);
    assert_eq!(asked(plan_references(&c, &issue(11, "Spelling", "x"), &crowded())), vec!["A", "B", "C"]);
}

#[test]
fn several_candidates_are_attached_when_the_picker_is_skipped() {
    let c = config(true, true, ReferenceFormat::Text);
    assert_eq!(attached(plan_references(&c, &issue(11, "Spelling", "x"), &crowded())), vec!["A", "B", "C"]);
}

#[test]
fn candidates_are_shown_in_the_configured_format() {
    let c = config(true, false, ReferenceFormat::Full);
    assert_eq!(asked(plan_references(&c, &issue(11, "Note", "x"), &crowded())), vec![
        "Dialogue: 0,0:00:10.00,0:00:12.00,Default,,0,0,0,,A",
        "Dialogue: 0,0:00:11.00,0:00:15.00,Default,,0,0,0,,B",
        "Dialogue: 0,0:00:11.50,0:00:11.60,Default,,0,0,0,,C",
    ]);
}

fn lines(names: &[&str]) -> Vec<String> {
    names.iter().map(|s| s.to_string()).collect()
}

#[test]
fn marked_lines_are_taken() {
    let all = lines(&["A", "B", "C"]);
    assert_eq!(select_references(&all, &Selection::Marked(vec![0, 2])), Ok(lines(&["A", "C"])));
    assert_eq!(select_references(&all, &Selection::Marked(vec![])), Ok(vec![]));
    assert_eq!(select_references(&all, &Selection::Marked(vec![0, 1, 2])), Ok(all.clone()));
    assert_eq!(select_references(&all, &Selection::Marked(vec![2, 0, 0])), Ok(lines(&["C", "A", "A"])));
}

#[test]
fn marks_beyond_the_lines_fail() {
    let all = lines(&["A", "B", "C"]);
    assert_eq!(select_references(&all, &Selection::Marked(vec![0, 3])), Err(ReferenceSelectionFailed));
    assert_eq!(select_references(&vec![], &Selection::Marked(vec![0])), Err(ReferenceSelectionFailed));
}

#[test]
fn failed_choice_fails() {
    assert_eq!(select_references(&lines(&["A"]), &Selection::Failed), Err(ReferenceSelectionFailed));
}

#[test]
fn attach_all_marks_every_line() {
    let c = config(true, false, ReferenceFormat::Text);
    let issues = vec![
        issue(11, "Spelling", "many"),
        issue(10, "Spelling", "one"),
        issue(11, "Timing", "other category"),
        issue(30, "Note", "none"),
    ];
    let out = attach_all(&c, issues, &crowded());
    let refs: Vec<Vec<String>> = out.iter().map(|i| i.matching_lines.clone()).collect();
    assert_eq!(refs, vec![lines(&["A", "B", "C"]), lines(&["A"]), vec![], vec![]]);
    assert_eq!(out[0], issue(11, "Spelling", "many"));
    assert_eq!(out[3], issue(30, "Note", "none"));
}

fn spoken() -> Vec<ASSEvent> {
    vec![
        event(10_000, 12_000, "A"),
        event(12_000, 15_000, "B"),
        event(11_900, 12_100, "{\\pos(3,4)}sign"),
        event(11_999, 12_001, "C"),
    ]
}

fn chosen_texts(secs: u64) -> Vec<String> {
    choices_among(spoken(), &at(secs)).into_iter().map(|e| e.text).collect()
}

#[test]
fn choices_among_given_events() {
    assert_eq!(chosen_texts(9), Vec::<String>::new());
    assert_eq!(chosen_texts(10), vec!["A"]);
    assert_eq!(chosen_texts(11), vec!["A", "C"]);
    assert_eq!(chosen_texts(12), vec!["B", "C"]);
    assert_eq!(chosen_texts(14), vec!["B"]);
    assert_eq!(chosen_texts(15), Vec::<String>::new());
    assert_eq!(choices_among(vec![], &at(11)).len(), 0);
}

#[test]
fn the_track_hands_out_all_events() {
    let subs = track(&[
        "Dialogue: 0,0:00:10.00,0:00:12.00,Default,,0,0,0,,A",
        "Comment: 0,0:00:10.00,0:00:12.00,Default,,0,0,0,,not dialogue",
        "Dialogue: 1,1:00:00.50,1:00:01.00,Sign,Ann,1,2,3,Scroll,{\\pos(1,2)}B",
    ]);
    let all = subs.all_events();
    assert_eq!(all.len(), subs.subtitle_file.events().len());
    let last = all.last().unwrap();
    assert_eq!(last.layer, 1);
    assert_eq!(last.start, 3_600_500);
    assert_eq!(last.end, 3_601_000);
    assert_eq!(last.style.as_deref(), Some("Sign"));
    assert_eq!(last.name.as_deref(), Some("Ann"));
    assert_eq!((last.margin_l, last.margin_r, last.margin_v), (1, 2, 3));
    assert_eq!(last.effect.as_deref(), Some("Scroll"));
    assert_eq!(last.text, "{\\pos(1,2)}B");
    assert_eq!(last.to_line(), subs.subtitle_file.events().last().unwrap().to_string());
}

#[test]
fn plan_among_given_events() {
    let text = config(true, false, ReferenceFormat::Text);
    assert_eq!(attached(plan_among(&text, &issue(11, "Note", "x"), None)), Vec::<String>::new());
    assert_eq!(attached(plan_among(&text, &issue(9, "Note", "x"), Some(spoken()))), Vec::<String>::new());
    assert_eq!(attached(plan_among(&text, &issue(10, "Note", "x"), Some(spoken()))), vec!["A"]);
    assert_eq!(asked(plan_among(&text, &issue(11, "Note", "x"), Some(spoken()))), vec!["A", "C"]);
    assert_eq!(attached(plan_among(&text, &issue(11, "Other", "x"), Some(spoken()))), Vec::<String>::new());
    let skip = config(true, true, ReferenceFormat::Text);
    assert_eq!(attached(plan_among(&skip, &issue(12, "Note", "x"), Some(spoken()))), vec!["B", "C"]);
    let off = config(false, true, ReferenceFormat::Text);
    assert_eq!(attached(plan_among(&off, &issue(12, "Note", "x"), Some(spoken()))), Vec::<String>::new());
}
