//! Mining diagnostics from log text. Four grammars read the same text one
//! after the other: compiler one-liners, sanitizer reports, stack traces
//! with one frame, and tracebacks with many. Each finding names the file
//! as the log has it; which URI that is, is settled later.

use crate::decimal::{parse_u64, u64_of};
use crate::diagnostic::{Diagnostic, DiagnosticView, Range, Severity};
use crate::pattern::{
    all_matches, captures, captures_iter, compile, compiled, first_match, groups_of,
};
use regex::Regex;
use crate::text::{chars_of, lines, lines_of, same_text, texts};
use vstd::prelude::*;

verus! {

/// A diagnostic together with the path that the log gives for its file.
#[derive(Clone, Debug, PartialEq, Eq)]
pub struct Finding {
    pub path: String,
    pub diagnostic: Diagnostic,
}

/// What a finding holds.
pub struct FindingView {
    pub path: Seq<char>,
    pub diagnostic: DiagnosticView,
}

impl View for Finding {
    type V = FindingView;

    open spec fn view(&self) -> FindingView {
        FindingView { path: self.path@, diagnostic: self.diagnostic@ }
    }
}

/// What the findings of a list hold, one by one.
pub open spec fn finding_views(list: Seq<Finding>) -> Seq<FindingView> {
    Seq::new(list.len(), |i: int| list[i]@)
}

// ------------------------------------------------------------ the patterns

/// A compiler one-liner: path, line, column, kind and message.
pub const ONE_LINE: &'static str =
    r"(?m)^(.+?):(\d+):(\d+):\s*(error|warning|runtime error|note):\s*(.*)$";

/// The first line of a sanitizer report: the kind of sanitizer and the
/// message.
pub const REPORT_HEADER: &'static str = r"^==\d+==ERROR:\s+([A-Za-z]+)Sanitizer:\s*(.*)$";

/// A frame of a sanitizer report: frame number, path, line and column.
pub const REPORT_FRAME: &'static str = r"^\s*#(\d+)\s+\S+\s+in\s+\S+\s+(/[^:]+):(\d+):(\d+)";

/// The line that announces an exception before a stack trace.
pub const EXCEPTION: &'static str = r"(?m)^(?:Exception in thread .+?|Traceback|.*?Error):\s*(.+)";

/// A frame of a stack trace: path and line.
pub const STACK_FRAME: &'static str = r"^\s+at\s+.+?\((.+?):(\d+)\)";

/// The line that names the error at the end of a traceback: it begins
/// with a word that ends in `Error` or in `Exception`, or with the bare
/// word `Exception`.
pub const TRACEBACK_ERROR: &'static str = r"^((?:\w+Error|\w*Exception)[^\r\n]*)";

/// A frame of a traceback: path, line and, where it is given, function.
pub const TRACEBACK_FRAME: &'static str =
    r#"^\s*File\s+"([^"]+)",\s+line\s+(\d+)(?:,\s+in\s+(.+))?"#;

// ------------------------------------------------------ groups and numbers

/// Group `i` of a match; `None` where the match has no such group or the
/// group took no part in the match.
pub open spec fn group(groups: Seq<Option<Seq<char>>>, i: int) -> Option<Seq<char>> {
    if 0 <= i < groups.len() {
        groups[i]
    } else {
        None
    }
}

/// The text of group `i` of a match; empty where `group` gives `None`.
pub open spec fn group_text(groups: Seq<Option<Seq<char>>>, i: int) -> Seq<char> {
    match group(groups, i) {
        Some(text) => text,
        None => Seq::empty(),
    }
}

/// Group `i` of a match.
pub fn group_at(groups: &Vec<Option<String>>, i: usize) -> (r: Option<&String>)
    ensures
        match r {
            Some(text) => group(groups_of(groups@), i as int) == Some(text@),
            None => group(groups_of(groups@), i as int) is None,
        },
{
    if i < groups.len() {
        match &groups[i] {
            Some(text) => Some(text),
            None => None,
        }
    } else {
        None
    }
}

/// The text of group `i` of a match.
pub fn text_at(groups: &Vec<Option<String>>, i: usize) -> (r: String)
    ensures
        r@ == group_text(groups_of(groups@), i as int),
{
    match group_at(groups, i) {
        Some(text) => text.clone(),
        None => String::new(),
    }
}

/// The number that a log gives for a line or a column, counted from zero:
/// one less than the numeral says, and zero where it says zero or is no
/// numeral that fits in 64 bits.
pub open spec fn zero_based(numeral: Seq<char>) -> u64 {
    match u64_of(numeral) {
        Some(n) => if n > 0 {
            (n - 1) as u64
        } else {
            0
        },
        None => 0,
    }
}

/// The number that a log gives for a line or a column, counted from zero.
pub fn zero_based_number(numeral: &str) -> (n: u64)
    ensures
        n == zero_based(numeral@),
        n < u64::MAX,
{
    let chars = chars_of(numeral);
    match parse_u64(chars.as_slice()) {
        Some(n) => if n > 0 {
            n - 1
        } else {
            0
        },
        None => 0,
    }
}

// ---------------------------------------------------------- the one-liners

/// The severity that the kind of a one-liner stands for: a note is
/// information, a warning a warning, everything else an error.
pub open spec fn one_line_severity(kind: Seq<char>) -> Severity {
    if kind == "note"@ {
        Severity::Information
    } else if kind == "warning"@ {
        Severity::Warning
    } else {
        Severity::Error
    }
}

/// The finding that the groups of a one-liner give: the place is the
/// reported line and column, one character wide.
pub open spec fn one_line_hit(groups: Seq<Option<Seq<char>>>) -> FindingView {
    FindingView {
        path: group_text(groups, 1),
        diagnostic: DiagnosticView {
            range: Range::spec_at(
                zero_based(group_text(groups, 2)),
                zero_based(group_text(groups, 3)),
            ),
            severity: one_line_severity(group_text(groups, 4)),
            source: "ubsan/asan"@,
            message: group_text(groups, 5),
        },
    }
}

/// The findings of a sequence of one-liner matches, in order.
pub open spec fn one_line_hits(matches: Seq<Seq<Option<Seq<char>>>>) -> Seq<FindingView> {
    Seq::new(matches.len(), |i: int| one_line_hit(matches[i]))
}

/// What the one-line grammar finds in `text`.
pub open spec fn one_line_findings(text: Seq<char>) -> Seq<FindingView> {
    match compiled(ONE_LINE@) {
        Some(re) => one_line_hits(all_matches(re, text)),
        None => Seq::empty(),
    }
}

/// The finding that the groups of a one-liner give.
pub fn one_line_finding(groups: &Vec<Option<String>>) -> (f: Finding)
    ensures
        f@ == one_line_hit(groups_of(groups@)),
{
    let kind = text_at(groups, 4);
    let severity = if same_text(kind.as_str(), "note") {
        Severity::Information
    } else if same_text(kind.as_str(), "warning") {
        Severity::Warning
    } else {
        Severity::Error
    };
    let line: u64 = zero_based_number(text_at(groups, 2).as_str());
    let column: u64 = zero_based_number(text_at(groups, 3).as_str());
    Finding {
        path: text_at(groups, 1),
        diagnostic: Diagnostic {
            range: Range::at(line, column),
            severity,
            source: String::from_str("ubsan/asan"),
            message: text_at(groups, 5),
        },
    }
}

/// Appends to `out` what the one-line grammar finds in `text`.
pub fn parse_oneline(text: &str, out: &mut Vec<Finding>)
    ensures
        finding_views(final(out)@) == finding_views(old(out)@) + one_line_findings(text@),
{
    let re = match compile(ONE_LINE) {
        Some(re) => re,
        None => {
            proof {
                assert(finding_views(out@) + Seq::<FindingView>::empty() =~= finding_views(out@));
            }
            return ;
        },
    };
    let matches = captures_iter(&re, text);
    let ghost all = all_matches(re, text@);
    let mut i: usize = 0;
    proof {
        assert(finding_views(out@) + one_line_hits(all.take(0)) =~= finding_views(out@));
    }
    while i < matches.len()
        invariant
            i <= matches@.len(),
            matches@.len() == all.len(),
            forall|k: int| 0 <= k < matches@.len() ==> groups_of(#[trigger] matches@[k]@) == all[k],
            finding_views(out@) == finding_views(old(out)@) + one_line_hits(all.take(i as int)),
        decreases matches.len() - i,
    {
        let found = one_line_finding(&matches[i]);
        let ghost before = finding_views(out@);
        out.push(found);
        proof {
            assert(groups_of(matches@[i as int]@) == all[i as int]);
            assert(finding_views(out@) =~= before.push(one_line_hit(all[i as int])));
            assert(one_line_hits(all.take(i as int + 1)) =~= one_line_hits(all.take(i as int)).push(
                one_line_hit(all[i as int]),
            ));
            assert(finding_views(out@) =~= finding_views(old(out)@) + one_line_hits(
                all.take(i as int + 1),
            ));
        }
        i += 1;
    }
    proof {
        assert(all.take(all.len() as int) =~= all);
    }
}

// ------------------------------------------------------ sanitizer reports

/// A sanitizer report that has been opened and whose frames are awaited.
#[derive(Clone, Debug, PartialEq, Eq)]
pub struct Report {
    /// The kind of sanitizer, without the word `Sanitizer`.
    pub kind: String,
    pub message: String,
}

/// What a report holds.
pub struct ReportView {
    pub kind: Seq<char>,
    pub message: Seq<char>,
}

impl View for Report {
    type V = ReportView;

    open spec fn view(&self) -> ReportView {
        ReportView { kind: self.kind@, message: self.message@ }
    }
}

/// What an optional report holds.
pub open spec fn report_view(report: Option<Report>) -> Option<ReportView> {
    match report {
        Some(r) => Some(r@),
        None => None,
    }
}

/// The report that the groups of a header line open.
pub open spec fn report_opened(groups: Seq<Option<Seq<char>>>) -> ReportView {
    ReportView { kind: group_text(groups, 1), message: group_text(groups, 2) }
}

/// The finding that a frame line gives under an open report. Only the
/// frame with the number 1 counts: frame 0 lies in the allocator. The
/// place is the reported line and column, the severity an error, the
/// source `sanitizer/` and the kind, the message that of the report.
pub open spec fn report_hit(report: ReportView, groups: Seq<Option<Seq<char>>>) -> Option<
    FindingView,
> {
    if u64_of(group_text(groups, 1)) == Some(1u64) {
        Some(
            FindingView {
                path: group_text(groups, 2),
                diagnostic: DiagnosticView {
                    range: Range::spec_at(
                        zero_based(group_text(groups, 3)),
                        zero_based(group_text(groups, 4)),
                    ),
                    severity: Severity::Error,
                    source: "sanitizer/"@ + report.kind,
                    message: report.message,
                },
            },
        )
    } else {
        None
    }
}

/// What the sanitizer grammar finds in `lines` from index `from` on, with
/// `open` the report that is open there. A header line opens a report,
/// which stays open until the next header line; every frame line under
/// an open report is looked at.
pub open spec fn report_scan(
    header: Regex,
    frame: Regex,
    lines: Seq<Seq<char>>,
    from: int,
    open: Option<ReportView>,
) -> Seq<FindingView>
    decreases lines.len() - from,
{
    if from < 0 || from >= lines.len() {
        Seq::empty()
    } else {
        match first_match(header, lines[from]) {
            Some(groups) => report_scan(
                header,
                frame,
                lines,
                from + 1,
                Some(report_opened(groups)),
            ),
            None => match open {
                Some(report) => match first_match(frame, lines[from]) {
                    Some(groups) => match report_hit(report, groups) {
                        Some(hit) => seq![hit] + report_scan(header, frame, lines, from + 1, open),
                        None => report_scan(header, frame, lines, from + 1, open),
                    },
                    None => report_scan(header, frame, lines, from + 1, open),
                },
                None => report_scan(header, frame, lines, from + 1, open),
            },
        }
    }
}

/// What the sanitizer grammar finds in `text`.
pub open spec fn report_findings(text: Seq<char>) -> Seq<FindingView> {
    match (compiled(REPORT_HEADER@), compiled(REPORT_FRAME@)) {
        (Some(header), Some(frame)) => report_scan(header, frame, lines_of(text), 0, None),
        _ => Seq::empty(),
    }
}

/// The report that the groups of a header line open.
pub fn open_report(groups: &Vec<Option<String>>) -> (r: Report)
    ensures
        r@ == report_opened(groups_of(groups@)),
{
    Report { kind: text_at(groups, 1), message: text_at(groups, 2) }
}

/// The finding that a frame line gives under an open report.
pub fn report_finding(report: &Report, groups: &Vec<Option<String>>) -> (r: Option<Finding>)
    ensures
        match r {
            Some(f) => report_hit(report@, groups_of(groups@)) == Some(f@),
            None => report_hit(report@, groups_of(groups@)) is None,
        },
{
    let number = chars_of(text_at(groups, 1).as_str());
    let first: bool = match parse_u64(number.as_slice()) {
        Some(n) => n == 1,
        None => false,
    };
    if !first {
        return None;
    }
    let line: u64 = zero_based_number(text_at(groups, 3).as_str());
    let column: u64 = zero_based_number(text_at(groups, 4).as_str());
    let mut source = String::from_str("sanitizer/");
    source.append(report.kind.as_str());
    Some(
        Finding {
            path: text_at(groups, 2),
            diagnostic: Diagnostic {
                range: Range::at(line, column),
                severity: Severity::Error,
                source,
                message: report.message.clone(),
            },
        },
    )
}

/// Appends to `out` what the sanitizer grammar finds in `text`.
pub fn parse_san_error(text: &str, out: &mut Vec<Finding>)
    ensures
        finding_views(final(out)@) == finding_views(old(out)@) + report_findings(text@),
{
    proof {
        assert(finding_views(out@) + Seq::<FindingView>::empty() =~= finding_views(out@));
    }
    let header = match compile(REPORT_HEADER) {
        Some(re) => re,
        None => {
            return ;
        },
    };
    let frame = match compile(REPORT_FRAME) {
        Some(re) => re,
        None => {
            return ;
        },
    };
    let all = lines(text);
    let ghost rows = lines_of(text@);
    let mut open: Option<Report> = None;
    let mut i: usize = 0;
    while i < all.len()
        invariant
            i <= all@.len(),
            texts(all@) == rows,
            finding_views(out@) + report_scan(header, frame, rows, i as int, report_view(open))
                == finding_views(old(out)@) + report_scan(header, frame, rows, 0, None),
        decreases all.len() - i,
    {
        let line = &all[i];
        proof {
            assert(rows[i as int] == line@);
        }
        match captures(&header, line.as_str()) {
            Some(groups) => {
                open = Some(open_report(&groups));
            },
            None => {
                match &open {
                    Some(report) => {
                        match captures(&frame, line.as_str()) {
                            Some(groups) => {
                                match report_finding(report, &groups) {
                                    Some(found) => {
                                        let ghost before = finding_views(out@);
                                        let ghost rest = report_scan(
                                            header,
                                            frame,
                                            rows,
                                            i as int + 1,
                                            report_view(open),
                                        );
                                        out.push(found);
                                        proof {
                                            assert(finding_views(out@) =~= before.push(found@));
                                            assert(before.push(found@) + rest =~= before + (
                                            seq![found@] + rest));
                                        }
                                    },
                                    None => {},
                                }
                            },
                            None => {},
                        }
                    },
                    None => {},
                }
            },
        }
        i += 1;
    }
    proof {
        assert(finding_views(out@) + Seq::<FindingView>::empty() =~= finding_views(out@));
    }
}

// ------------------------------------------------- traces with one frame

/// The message that the groups of an exception line announce.
pub open spec fn announced(groups: Seq<Option<Seq<char>>>) -> Seq<char> {
    match group(groups, 1) {
        Some(message) => message,
        None => "Runtime error"@,
    }
}

/// The finding that a frame line gives for an announced exception: the
/// reported line, its first character, an error with the source
/// `runtime`.
pub open spec fn trace_hit(message: Seq<char>, groups: Seq<Option<Seq<char>>>) -> FindingView {
    FindingView {
        path: group_text(groups, 1),
        diagnostic: DiagnosticView {
            range: Range::spec_at(zero_based(group_text(groups, 2)), 0),
            severity: Severity::Error,
            source: "runtime"@,
            message,
        },
    }
}

/// What the single-frame grammar finds in `lines` from index `from` on,
/// with `pending` the message that awaits its frame there. An exception
/// line sets the message; the next frame line gives one finding and
/// clears it.
pub open spec fn trace_scan(
    exception: Regex,
    frame: Regex,
    lines: Seq<Seq<char>>,
    from: int,
    pending: Option<Seq<char>>,
) -> Seq<FindingView>
    decreases lines.len() - from,
{
    if from < 0 || from >= lines.len() {
        Seq::empty()
    } else {
        match first_match(exception, lines[from]) {
            Some(groups) => trace_scan(exception, frame, lines, from + 1, Some(announced(groups))),
            None => match pending {
                Some(message) => match first_match(frame, lines[from]) {
                    Some(groups) => seq![trace_hit(message, groups)] + trace_scan(
                        exception,
                        frame,
                        lines,
                        from + 1,
                        None,
                    ),
                    None => trace_scan(exception, frame, lines, from + 1, pending),
                },
                None => trace_scan(exception, frame, lines, from + 1, pending),
            },
        }
    }
}

/// What the single-frame grammar finds in `text`.
pub open spec fn trace_findings(text: Seq<char>) -> Seq<FindingView> {
    match (compiled(EXCEPTION@), compiled(STACK_FRAME@)) {
        (Some(exception), Some(frame)) => trace_scan(exception, frame, lines_of(text), 0, None),
        _ => Seq::empty(),
    }
}

/// The text of an optional text.
pub open spec fn text_view(text: Option<String>) -> Option<Seq<char>> {
    match text {
        Some(t) => Some(t@),
        None => None,
    }
}

/// The message that the groups of an exception line announce.
pub fn announced_message(groups: &Vec<Option<String>>) -> (message: String)
    ensures
        message@ == announced(groups_of(groups@)),
{
    match group_at(groups, 1) {
        Some(message) => message.clone(),
        None => String::from_str("Runtime error"),
    }
}

/// The finding that a frame line gives for an announced exception.
pub fn trace_finding(message: &str, groups: &Vec<Option<String>>) -> (f: Finding)
    ensures
        f@ == trace_hit(message@, groups_of(groups@)),
{
    let line: u64 = zero_based_number(text_at(groups, 2).as_str());
    Finding {
        path: text_at(groups, 1),
        diagnostic: Diagnostic {
            range: Range::at(line, 0),
            severity: Severity::Error,
            source: String::from_str("runtime"),
            message: message.to_owned(),
        },
    }
}

/// Appends to `out` what the single-frame grammar finds in `text`.
pub fn parse_stacktrace(text: &str, out: &mut Vec<Finding>)
    ensures
        finding_views(final(out)@) == finding_views(old(out)@) + trace_findings(text@),
{
    proof {
        assert(finding_views(out@) + Seq::<FindingView>::empty() =~= finding_views(out@));
    }
    let exception = match compile(EXCEPTION) {
        Some(re) => re,
        None => {
            return ;
        },
    };
    let frame = match compile(STACK_FRAME) {
        Some(re) => re,
        None => {
            return ;
        },
    };
    let all = lines(text);
    let ghost rows = lines_of(text@);
    let mut pending: Option<String> = None;
    let mut i: usize = 0;
    while i < all.len()
        invariant
            i <= all@.len(),
            texts(all@) == rows,
            finding_views(out@) + trace_scan(exception, frame, rows, i as int, text_view(pending))
                == finding_views(old(out)@) + trace_scan(exception, frame, rows, 0, None),
        decreases all.len() - i,
    {
        let line = &all[i];
        proof {
            assert(rows[i as int] == line@);
        }
        match captures(&exception, line.as_str()) {
            Some(groups) => {
                pending = Some(announced_message(&groups));
            },
            None => {
                let hit: Option<Finding> = match &pending {
                    Some(message) => match captures(&frame, line.as_str()) {
                        Some(groups) => Some(trace_finding(message.as_str(), &groups)),
                        None => None,
                    },
                    None => None,
                };
                match hit {
                    Some(found) => {
                        let ghost before = finding_views(out@);
                        let ghost rest = trace_scan(exception, frame, rows, i as int + 1, None);
                        out.push(found);
                        pending = None;
                        proof {
                            assert(finding_views(out@) =~= before.push(found@));
                            assert(before.push(found@) + rest =~= before + (seq![found@] + rest));
                        }
                    },
                    None => {},
                }
            },
        }
        i += 1;
    }
    proof {
        assert(finding_views(out@) + Seq::<FindingView>::empty() =~= finding_views(out@));
    }
}

// ------------------------------------------------ tracebacks of many frames

/// An error that has been named and whose frames are awaited.
#[derive(Clone, Debug, PartialEq, Eq)]
pub struct Pending {
    pub message: String,
    /// The severity that the next frame gets.
    pub severity: Severity,
}

/// What a pending error holds.
pub struct PendingView {
    pub message: Seq<char>,
    pub severity: Severity,
}

impl View for Pending {
    type V = PendingView;

    open spec fn view(&self) -> PendingView {
        PendingView { message: self.message@, severity: self.severity }
    }
}

/// What an optional pending error holds.
pub open spec fn pending_view(pending: Option<Pending>) -> Option<PendingView> {
    match pending {
        Some(p) => Some(p@),
        None => None,
    }
}

/// The error that the groups of an error line name. Its first frame is
/// an error.
pub open spec fn error_named(groups: Seq<Option<Seq<char>>>) -> PendingView {
    PendingView { message: announced(groups), severity: Severity::Error }
}

/// The finding that a frame line gives under a named error: the reported
/// line, its first character, the pending severity, the source
/// `runtime`, and the message of the error, followed by ` in ` and the
/// function where the frame names one.
pub open spec fn traceback_hit(pending: PendingView, groups: Seq<Option<Seq<char>>>) -> FindingView {
    FindingView {
        path: group_text(groups, 1),
        diagnostic: DiagnosticView {
            range: Range::spec_at(zero_based(group_text(groups, 2)), 0),
            severity: pending.severity,
            source: "runtime"@,
            message: match group(groups, 3) {
                Some(function) => pending.message + " in "@ + function,
                None => pending.message,
            },
        },
    }
}

/// What the traceback grammar finds in the first `upto` of `lines`, read
/// from the last of them back to the first, with `pending` the error that
/// is named at that point. An error line names an error and makes the
/// next frame an error; each frame line under a named error gives one
/// finding, and every frame after it is a warning. A frame line with no
/// error named gives nothing.
pub open spec fn traceback_scan(
    error: Regex,
    frame: Regex,
    lines: Seq<Seq<char>>,
    upto: int,
    pending: Option<PendingView>,
) -> Seq<FindingView>
    decreases upto,
{
    if upto <= 0 || upto > lines.len() {
        Seq::empty()
    } else {
        let line = lines[upto - 1];
        match first_match(error, line) {
            Some(groups) => traceback_scan(error, frame, lines, upto - 1, Some(error_named(groups))),
            None => match pending {
                Some(named) => match first_match(frame, line) {
                    Some(groups) => seq![traceback_hit(named, groups)] + traceback_scan(
                        error,
                        frame,
                        lines,
                        upto - 1,
                        Some(PendingView { severity: Severity::Warning, ..named }),
                    ),
                    None => traceback_scan(error, frame, lines, upto - 1, pending),
                },
                None => traceback_scan(error, frame, lines, upto - 1, pending),
            },
        }
    }
}

/// What the traceback grammar finds in `text`.
pub open spec fn traceback_findings(text: Seq<char>) -> Seq<FindingView> {
    match (compiled(TRACEBACK_ERROR@), compiled(TRACEBACK_FRAME@)) {
        (Some(error), Some(frame)) => traceback_scan(
            error,
            frame,
            lines_of(text),
            lines_of(text).len() as int,
            None,
        ),
        _ => Seq::empty(),
    }
}

/// The error that the groups of an error line name.
pub fn name_error(groups: &Vec<Option<String>>) -> (p: Pending)
    ensures
        p@ == error_named(groups_of(groups@)),
{
    Pending { message: announced_message(groups), severity: Severity::Error }
}

/// The finding that a frame line gives under a named error.
pub fn traceback_finding(pending: &Pending, groups: &Vec<Option<String>>) -> (f: Finding)
    ensures
        f@ == traceback_hit(pending@, groups_of(groups@)),
{
    let line: u64 = zero_based_number(text_at(groups, 2).as_str());
    let mut message = pending.message.clone();
    match group_at(groups, 3) {
        Some(function) => {
            message.append(" in ");
            message.append(function.as_str());
        },
        None => {},
    }
    Finding {
        path: text_at(groups, 1),
        diagnostic: Diagnostic {
            range: Range::at(line, 0),
            severity: pending.severity,
            source: String::from_str("runtime"),
            message,
        },
    }
}

/// Appends to `out` what the traceback grammar finds in `text`.
pub fn parse_traceback(text: &str, out: &mut Vec<Finding>)
    ensures
        finding_views(final(out)@) == finding_views(old(out)@) + traceback_findings(text@),
{
    proof {
        assert(finding_views(out@) + Seq::<FindingView>::empty() =~= finding_views(out@));
    }
    let error = match compile(TRACEBACK_ERROR) {
        Some(re) => re,
        None => {
            return ;
        },
    };
    let frame = match compile(TRACEBACK_FRAME) {
        Some(re) => re,
        None => {
            return ;
        },
    };
    let all = lines(text);
    let ghost rows = lines_of(text@);
    let mut pending: Option<Pending> = None;
    let mut i: usize = all.len();
    proof {
        assert(texts(all@).len() == all@.len());
    }
    while i > 0
        invariant
            i <= all@.len(),
            texts(all@) == rows,
            rows.len() == all@.len(),
            finding_views(out@) + traceback_scan(error, frame, rows, i as int, pending_view(pending))
                == finding_views(old(out)@) + traceback_scan(
                error,
                frame,
                rows,
                rows.len() as int,
                None,
            ),
        decreases i,
    {
        i -= 1;
        let line = &all[i];
        proof {
            assert(rows[i as int] == line@);
        }
        match captures(&error, line.as_str()) {
            Some(groups) => {
                pending = Some(name_error(&groups));
            },
            None => {
                let hit: Option<(Finding, Pending)> = match &pending {
                    Some(named) => match captures(&frame, line.as_str()) {
                        Some(groups) => Some(
                            (
                                traceback_finding(named, &groups),
                                Pending {
                                    message: named.message.clone(),
                                    severity: Severity::Warning,
                                },
                            ),
                        ),
                        None => None,
                    },
                    None => None,
                };
                match hit {
                    Some((found, next)) => {
                        let ghost before = finding_views(out@);
                        let ghost rest = traceback_scan(error, frame, rows, i as int, Some(next@));
                        out.push(found);
                        pending = Some(next);
                        proof {
                            assert(finding_views(out@) =~= before.push(found@));
                            assert(before.push(found@) + rest =~= before + (seq![found@] + rest));
                        }
                    },
                    None => {},
                }
            },
        }
    }
    proof {
        assert(finding_views(out@) + Seq::<FindingView>::empty() =~= finding_views(out@));
    }
}

// ------------------------------------------------------------- all of them

/// What the four grammars find in `text`: the one-liners, then the
/// sanitizer reports, then the traces with one frame, then the
/// tracebacks. No grammar holds back what another has found.
pub open spec fn findings(text: Seq<char>) -> Seq<FindingView> {
    one_line_findings(text) + report_findings(text) + trace_findings(text) + traceback_findings(text)
}

/// Reads `text` with all four grammars.
pub fn parse_diagnostics(text: &str) -> (out: Vec<Finding>)
    ensures
        finding_views(out@) == findings(text@),
{
    let mut out: Vec<Finding> = Vec::new();
    proof {
        assert(finding_views(out@) =~= Seq::<FindingView>::empty());
    }
    parse_oneline(text, &mut out);
    parse_san_error(text, &mut out);
    parse_stacktrace(text, &mut out);
    parse_traceback(text, &mut out);
    proof {
        assert(Seq::<FindingView>::empty() + one_line_findings(text@) =~= one_line_findings(text@));
    }
    out
}

} // verus!
