//! The report grammar and the parser that applies it.
//!
//! A report is a sequence of lines, each ended by a line feed or by the end
//! of the text; a carriage return before the line feed belongs to the line
//! ending. A data line is a timecode token, a comma, a category, a comma,
//! and free text up to the end of the line. Every other line is passed
//! over: headers, comments, empty lines.
//!
//! Two things fail a report. A data line whose timecode does not decode
//! fails it with the number of the line and the line itself. A report in
//! which the grammar knows no line at all, neither a data line nor a line
//! of text free of control characters, is malformed.

use vstd::prelude::*;
use vstd::string::StrSliceExecFns;

use crate::qc_issue::{issue_views, QCIssue, QCIssueView};
use crate::text::{chars_of, find_char, index_of, lemma_index_of};
use crate::timecode::{
    all_digits, char_is_digit, hhmmss_text, is_digit, lemma_two_digits, timecode_seconds,
    two_digits, Timecode,
};

verus! {

/// The literal that parts the three fields of a data line.
pub const SEPARATOR: char = ',';

/// `l` without the carriage return that it may end with.
pub open spec fn strip_cr(l: Seq<char>) -> Seq<char> {
    if l.len() > 0 && l.last() == '\r' {
        l.drop_last()
    } else {
        l
    }
}

/// The lines of `text` that begin at or after `from`.
///
/// A line ends before a line feed or at the end of the text; a carriage
/// return just before that end is not part of the line. Nothing follows the
/// last line feed unless characters do.
pub open spec fn lines_from(text: Seq<char>, from: int) -> Seq<Seq<char>>
    decreases text.len() - from,
{
    if from < 0 || from >= text.len() {
        Seq::empty()
    } else {
        let end = index_of(text, '\n', from);
        let line = strip_cr(text.subrange(from, end));
        if end < text.len() {
            proof {
                lemma_index_of(text, '\n', from);
            }
            seq![line] + lines_from(text, end + 1)
        } else {
            seq![line]
        }
    }
}

/// The lines of `text`.
pub open spec fn report_lines(text: Seq<char>) -> Seq<Seq<char>> {
    lines_from(text, 0)
}

/// Whether `t` has the shape of a timecode token: one or more digits, a
/// colon, two digits, a colon, two digits.
pub open spec fn is_timecode_token(t: Seq<char>) -> bool {
    let n = t.len() as int;
    &&& n >= 7
    &&& all_digits(t.subrange(0, n - 6))
    &&& t[n - 6] == ':'
    &&& is_digit(t[n - 5])
    &&& is_digit(t[n - 4])
    &&& t[n - 3] == ':'
    &&& is_digit(t[n - 2])
    &&& is_digit(t[n - 1])
}

/// The three fields of a data line.
pub struct DataLine {
    pub token: Seq<char>,
    pub category: Seq<char>,
    pub text: Seq<char>,
}

/// The fields of `l`, when `l` is a data line.
///
/// The token is what stands before the first separator and must have the
/// shape of a timecode; the category is what stands between the first and
/// the second separator and must not be empty; the text is all that
/// follows, separators included.
pub open spec fn data_line(l: Seq<char>) -> Option<DataLine> {
    let a = index_of(l, SEPARATOR, 0);
    let b = index_of(l, SEPARATOR, a + 1);
    if a < l.len() && a + 1 < b < l.len() && is_timecode_token(l.subrange(0, a)) {
        Some(
            DataLine {
                token: l.subrange(0, a),
                category: l.subrange(a + 1, b),
                text: l.subrange(b + 1, l.len() as int),
            },
        )
    } else {
        None
    }
}

/// Whether `l` is a data line whose timecode cannot be decoded: a minute or
/// second field of sixty or more, or a total beyond what a timecode holds.
pub open spec fn has_bad_timecode(l: Seq<char>) -> bool {
    data_line(l) matches Some(d) && timecode_seconds(d.token) is None
}

/// The issue that `l` records, when `l` is a data line with a timecode that
/// decodes. Category and text are taken as they stand.
pub open spec fn line_issue(l: Seq<char>) -> Option<QCIssueView> {
    match data_line(l) {
        Some(d) => match timecode_seconds(d.token) {
            Some(secs) => Some(
                QCIssueView {
                    timecode: secs,
                    issue_type: d.category,
                    issue_text: d.text,
                    matching_lines: Seq::empty(),
                },
            ),
            None => None,
        },
        None => None,
    }
}

/// Whether `c` is a control character.
pub open spec fn is_control(c: char) -> bool {
    c <= '\u{1f}' || ('\u{7f}' <= c && c <= '\u{9f}')
}

/// Whether `l` reads as text: it holds no control character but tabs. An
/// empty line does.
pub open spec fn is_plain_line(l: Seq<char>) -> bool {
    forall|i: int| 0 <= i < l.len() ==> #[trigger] l[i] == '\t' || !is_control(l[i])
}

/// Whether the grammar knows what `l` is: a data line, or a line of text to
/// pass over.
pub open spec fn is_recognized(l: Seq<char>) -> bool {
    data_line(l) is Some || is_plain_line(l)
}

/// Whether a report of these lines has no structure at all: it has lines,
/// and the grammar knows none of them.
pub open spec fn is_malformed(lines: Seq<Seq<char>>) -> bool {
    lines.len() > 0 && forall|i: int| 0 <= i < lines.len() ==> !is_recognized(#[trigger] lines[i])
}

/// The issues that the data lines among `lines` record, in the order of the
/// lines.
pub open spec fn issues_in(lines: Seq<Seq<char>>) -> Seq<QCIssueView>
    decreases lines.len(),
{
    if lines.len() == 0 {
        Seq::empty()
    } else {
        match line_issue(lines.last()) {
            Some(issue) => issues_in(lines.drop_last()).push(issue),
            None => issues_in(lines.drop_last()),
        }
    }
}

/// A timecode as the checklist writes it has the shape of a timecode
/// token.
pub proof fn lemma_written_timecode_is_token(secs: nat)
    ensures
        is_timecode_token(hhmmss_text(secs)),
{
    let h = two_digits(secs / 3600);
    let m = two_digits(secs % 3600 / 60);
    let s = two_digits(secs % 60);
    let t = hhmmss_text(secs);
    lemma_two_digits(secs / 3600);
    lemma_two_digits(secs % 3600 / 60);
    lemma_two_digits(secs % 60);
    let n = t.len() as int;
    assert(n == h.len() + 6);
    assert(t.subrange(0, n - 6) =~= h);
    assert(t[n - 5] == m[0] && t[n - 4] == m[1]);
    assert(t[n - 2] == s[0] && t[n - 1] == s[1]);
}

/// Why a report could not be parsed.
#[derive(Debug)]
pub enum ParseError {
    /// The report has lines and none of them is a data line or text.
    MalformedReport,
    /// The timecode of a data line does not decode. `line` counts lines
    /// from one; `text` is the line as it stands.
    InvalidTimecode { line: usize, text: String },
}

/// What a parse error holds, as plain values.
pub enum ParseErrorView {
    MalformedReport,
    InvalidTimecode { line: int, text: Seq<char> },
}

impl View for ParseError {
    type V = ParseErrorView;

    open spec fn view(&self) -> ParseErrorView {
        match self {
            ParseError::MalformedReport => ParseErrorView::MalformedReport,
            ParseError::InvalidTimecode { line, text } => ParseErrorView::InvalidTimecode {
                line: *line as int,
                text: text@,
            },
        }
    }
}

/// The plain values of what the parser hands back.
pub open spec fn parsed_view(r: Result<Vec<QCIssue>, ParseError>) -> Result<
    Seq<QCIssueView>,
    ParseErrorView,
> {
    match r {
        Ok(issues) => Ok(issue_views(issues@)),
        Err(e) => Err(e@),
    }
}

/// Applies the report grammar.
pub struct MPVQCParser;

/// Whether `v` has the shape of a timecode token up to `to`.
fn token_shape(v: &Vec<char>, to: usize) -> (r: bool)
    requires
        to <= v.len(),
    ensures
        r == is_timecode_token(v@.subrange(0, to as int)),
{
    let ghost t = v@.subrange(0, to as int);
    if to < 7 {
        return false;
    }
    if v[to - 6] != ':' || !char_is_digit(v[to - 5]) || !char_is_digit(v[to - 4]) || v[to - 3]
        != ':' || !char_is_digit(v[to - 2]) || !char_is_digit(v[to - 1]) {
        return false;
    }
    let mut i: usize = 0;
    while i < to - 6
        invariant
            7 <= to <= v.len(),
            i <= to - 6,
            t == v@.subrange(0, to as int),
            all_digits(t.subrange(0, i as int)),
        decreases to - i,
    {
        if !char_is_digit(v[i]) {
            assert(t.subrange(0, to - 6)[i as int] == v[i as int]);
            return false;
        }
        assert forall|j: int| 0 <= j < i + 1 implies is_digit(#[trigger] t.subrange(0, i + 1)[j]) by {
            if j < i {
                assert(t.subrange(0, i as int)[j] == t.subrange(0, i + 1)[j]);
            }
        }
        i += 1;
    }
    true
}

/// Whether `v` reads as text.
fn plain_chars(v: &Vec<char>) -> (r: bool)
    ensures
        r == is_plain_line(v@),
{
    let mut i: usize = 0;
    while i < v.len()
        invariant
            i <= v.len(),
            forall|j: int| 0 <= j < i ==> #[trigger] v@[j] == '\t' || !is_control(v@[j]),
        decreases v.len() - i,
    {
        let c = v[i];
        if c != '\t' && (c <= '\u{1f}' || ('\u{7f}' <= c && c <= '\u{9f}')) {
            return false;
        }
        i += 1;
    }
    true
}

/// What the grammar makes of one line.
#[derive(Debug)]
pub enum LineReading {
    /// A data line, decoded.
    Issue(QCIssue),
    /// A data line whose timecode does not decode.
    BadTimecode,
    /// A line of text, passed over.
    Text,
    /// Neither a data line nor text.
    Unknown,
}

/// Classifies one line, without its line ending, and decodes it when it is
/// a data line.
pub fn read_line(line: &str) -> (r: LineReading)
    ensures
        match r {
            LineReading::Issue(issue) => line_issue(line@) == Some(issue@),
            LineReading::BadTimecode => has_bad_timecode(line@),
            LineReading::Text => data_line(line@) is None && is_plain_line(line@),
            LineReading::Unknown => !is_recognized(line@),
        },
{
    let v = chars_of(line);
    let n = v.len();
    let a = find_char(&v, SEPARATOR, 0);
    let b = if a < n {
        find_char(&v, SEPARATOR, a + 1)
    } else {
        n
    };
    if a < n && a + 1 < b && b < n && token_shape(&v, a) {
        match Timecode::decode(&v, 0, a) {
            Some(timecode) => {
                let category = line.substring_char(a + 1, b).to_owned();
                let text = line.substring_char(b + 1, n).to_owned();
                LineReading::Issue(QCIssue::new(timecode, category, text))
            },
            None => LineReading::BadTimecode,
        }
    } else if plain_chars(&v) {
        LineReading::Text
    } else {
        LineReading::Unknown
    }
}

/// Decodes line `number` of a report when it is a data line.
///
/// Gives the issue of a data line, nothing for any other line, and
/// `InvalidTimecode` with `number` and the line itself for a data line whose
/// timecode does not decode.
pub fn parse_data_line(line: &str, number: usize) -> (r: Result<Option<QCIssue>, ParseError>)
    ensures
        match r {
            Ok(Some(issue)) => line_issue(line@) == Some(issue@),
            Ok(None) => data_line(line@) is None,
            Err(e) => has_bad_timecode(line@) && e@ == (ParseErrorView::InvalidTimecode {
                line: number as int,
                text: line@,
            }),
        },
{
    match read_line(line) {
        LineReading::Issue(issue) => Ok(Some(issue)),
        LineReading::BadTimecode => Err(
            ParseError::InvalidTimecode { line: number, text: line.to_owned() },
        ),
        _ => Ok(None),
    }
}

/// The position of the first line among `lines` whose timecode does not
/// decode, or the number of lines when every timecode decodes.
pub open spec fn first_bad_line(lines: Seq<Seq<char>>) -> int
    decreases lines.len(),
{
    if lines.len() == 0 {
        0
    } else if has_bad_timecode(lines[0]) {
        0
    } else {
        1 + first_bad_line(lines.drop_first())
    }
}

/// What parsing a report of these lines gives.
///
/// The first data line whose timecode does not decode fails the report,
/// with its number counted from one. Without such a line, a report that has
/// lines but none that the grammar knows is malformed. Every other report,
/// the empty one too, gives the issues of its data lines.
pub open spec fn parse_outcome(lines: Seq<Seq<char>>) -> Result<Seq<QCIssueView>, ParseErrorView> {
    let bad = first_bad_line(lines);
    if bad < lines.len() {
        Err(ParseErrorView::InvalidTimecode { line: bad + 1, text: lines[bad] })
    } else if is_malformed(lines) {
        Err(ParseErrorView::MalformedReport)
    } else {
        Ok(issues_in(lines))
    }
}

/// `first_bad_line` is a position of `lines` or their number, the line there
/// has a timecode that does not decode, and no line before it has.
pub proof fn lemma_first_bad_line(lines: Seq<Seq<char>>)
    ensures
        0 <= first_bad_line(lines) <= lines.len(),
        first_bad_line(lines) < lines.len() ==> has_bad_timecode(lines[first_bad_line(lines)]),
        forall|i: int| 0 <= i < first_bad_line(lines) ==> !has_bad_timecode(#[trigger] lines[i]),
    decreases lines.len(),
{
    if lines.len() > 0 && !has_bad_timecode(lines[0]) {
        let rest = lines.drop_first();
        lemma_first_bad_line(rest);
        assert forall|i: int| 0 <= i < first_bad_line(lines) implies !has_bad_timecode(
            #[trigger] lines[i],
        ) by {
            if i > 0 {
                assert(lines[i] == rest[i - 1]);
            }
        }
    }
}

/// The first line whose timecode does not decode is the one at `k`, when it
/// has such a timecode and no line before it has.
pub proof fn lemma_first_bad_line_is(lines: Seq<Seq<char>>, k: int)
    requires
        0 <= k <= lines.len(),
        k < lines.len() ==> has_bad_timecode(lines[k]),
        forall|i: int| 0 <= i < k ==> !has_bad_timecode(#[trigger] lines[i]),
    ensures
        first_bad_line(lines) == k,
{
    lemma_first_bad_line(lines);
    let f = first_bad_line(lines);
    if f < k {
        assert(!has_bad_timecode(lines[f]));
    }
}

/// The lines from `from` on are the line that begins there, followed by the
/// lines after its line feed.
proof fn lemma_lines_from_step(text: Seq<char>, from: int)
    requires
        0 <= from < text.len(),
    ensures
        lines_from(text, from) == seq![
            strip_cr(text.subrange(from, index_of(text, '\n', from))),
        ] + lines_from(text, index_of(text, '\n', from) + 1),
{
    let end = index_of(text, '\n', from);
    lemma_index_of(text, '\n', from);
    if end >= text.len() {
        assert(lines_from(text, end + 1) == Seq::<Seq<char>>::empty());
        assert(seq![strip_cr(text.subrange(from, end))] + Seq::<Seq<char>>::empty() == seq![
            strip_cr(text.subrange(from, end)),
        ]);
    }
}

impl MPVQCParser {
    /// Parses a whole report into its issues, none of which has dialogue
    /// lines attached yet.
    pub fn parse(text: &str) -> (r: Result<Vec<QCIssue>, ParseError>)
        ensures
            parsed_view(r) == parse_outcome(report_lines(text@)),
    {
        let v = chars_of(text);
        let n = v.len();
        let mut issues: Vec<QCIssue> = Vec::new();
        let mut recognized = false;
        let mut number: usize = 0;
        let mut pos: usize = 0;
        let ghost mut done: Seq<Seq<char>> = Seq::empty();
        proof {
            assert(issue_views(issues@) =~= issues_in(done));
            assert(done + lines_from(text@, 0) =~= report_lines(text@));
        }
        while pos < n
            invariant
                v@ == text@,
                n == v.len(),
                pos <= n,
                number == done.len(),
                number <= pos,
                report_lines(text@) == done + lines_from(text@, pos as int),
                issue_views(issues@) == issues_in(done),
                forall|i: int| 0 <= i < done.len() ==> !has_bad_timecode(#[trigger] done[i]),
                recognized <==> exists|i: int| 0 <= i < done.len() && is_recognized(#[trigger] done[i]),
            decreases n - pos,
        {
            let end = find_char(&v, '\n', pos);
            let stop = if end > pos && v[end - 1] == '\r' {
                end - 1
            } else {
                end
            };
            let line = text.substring_char(pos, stop);
            let ghost whole = text@.subrange(pos as int, end as int);
            proof {
                lemma_lines_from_step(text@, pos as int);
                if end > pos && v[end - 1] == '\r' {
                    assert(whole.last() == '\r');
                    assert(whole.drop_last() == text@.subrange(pos as int, stop as int));
                } else if end > pos {
                    assert(whole.last() == v[end - 1]);
                }
                assert(line@ == strip_cr(whole));
            }
            number += 1;
            let ghost before = done;
            proof {
                done = done.push(line@);
                assert(done.drop_last() == before);
                assert(before + (seq![line@] + lines_from(text@, end + 1)) =~= done + lines_from(
                    text@,
                    end + 1,
                ));
            }
            match read_line(line) {
                LineReading::Issue(issue) => {
                    let ghost old_issues = issues@;
                    issues.push(issue);
                    recognized = true;
                    proof {
                        assert(issue_views(issues@) =~= issue_views(old_issues).push(issue@));
                        assert(is_recognized(done[done.len() - 1]));
                    }
                },
                LineReading::BadTimecode => {
                    proof {
                        let all = report_lines(text@);
                        assert(all[number - 1] == done[number - 1]);
                        assert forall|i: int| 0 <= i < number - 1 implies !has_bad_timecode(
                            #[trigger] all[i],
                        ) by {
                            assert(all[i] == before[i]);
                        }
                        lemma_first_bad_line_is(all, number - 1);
                    }
                    return Err(ParseError::InvalidTimecode { line: number, text: line.to_owned() });
                },
                LineReading::Text => {
                    recognized = true;
                    proof {
                        assert(is_recognized(done[done.len() - 1]));
                    }
                },
                LineReading::Unknown => {
                    proof {
                        if exists|i: int| 0 <= i < done.len() && is_recognized(#[trigger] done[i]) {
                            let i = choose|i: int| 0 <= i < done.len() && is_recognized(#[trigger] done[i]);
                            assert(done[i] == before[i]);
                        }
                    }
                },
            }
            proof {
                assert forall|i: int| 0 <= i < done.len() implies !has_bad_timecode(#[trigger] done[i]) by {
                    if i < before.len() {
                        assert(done[i] == before[i]);
                    }
                }
                if end >= n {
                    assert(lines_from(text@, end + 1) == Seq::<Seq<char>>::empty());
                    assert(lines_from(text@, n as int) == Seq::<Seq<char>>::empty());
                }
            }
            pos = if end < n {
                end + 1
            } else {
                n
            };
        }
        proof {
            assert(lines_from(text@, pos as int) == Seq::<Seq<char>>::empty());
            assert(done + Seq::<Seq<char>>::empty() =~= done);
            lemma_first_bad_line_is(done, done.len() as int);
        }
        if number > 0 && !recognized {
            Err(ParseError::MalformedReport)
        } else {
            Ok(issues)
        }
    }
}

} // verus!
