//! What holds of every finding that the grammars make, whatever the log
//! holds.

use crate::diagnostic::{Range, Severity};
use crate::log_parser::{
    findings, one_line_findings, one_line_hit, report_findings, report_hit, report_scan,
    trace_findings, trace_hit, trace_scan, traceback_findings, traceback_hit, traceback_scan,
    zero_based, FindingView, PendingView, ReportView, EXCEPTION, ONE_LINE, REPORT_FRAME,
    REPORT_HEADER, STACK_FRAME, TRACEBACK_ERROR, TRACEBACK_FRAME,
};
use crate::pattern::{all_matches, compiled, first_match};
use regex::Regex;
use vstd::prelude::*;

verus! {

/// Whether a range covers one character: it ends on the line on which it
/// starts, one character after its start.
pub open spec fn is_point(r: Range) -> bool {
    r.end.line == r.start.line && r.end.character == r.start.character + 1
}

/// Whether a finding has the shape of a mined diagnostic: its range
/// covers one character, and its source is `ubsan/asan`, `runtime` or
/// `sanitizer/` and a kind.
pub open spec fn is_mined(f: FindingView) -> bool {
    &&& is_point(f.diagnostic.range)
    &&& (f.diagnostic.source == "ubsan/asan"@ || f.diagnostic.source == "runtime"@
        || "sanitizer/"@.is_prefix_of(f.diagnostic.source))
}

/// Whether every finding of a list has the shape of a mined diagnostic.
pub open spec fn all_mined(list: Seq<FindingView>) -> bool {
    forall|i: int| 0 <= i < list.len() ==> is_mined(#[trigger] list[i])
}

/// A number counted from zero is never the largest number, so the range
/// at it is one character wide.
proof fn lemma_point(line: Seq<char>, column: Seq<char>)
    ensures
        is_point(Range::spec_at(zero_based(line), zero_based(column))),
        is_point(Range::spec_at(zero_based(line), 0)),
{
}

proof fn lemma_joined(a: Seq<FindingView>, b: Seq<FindingView>)
    requires
        all_mined(a),
        all_mined(b),
    ensures
        all_mined(a + b),
{
    assert forall|i: int| 0 <= i < (a + b).len() implies is_mined(#[trigger] (a + b)[i]) by {
        if i < a.len() {
            assert((a + b)[i] == a[i]);
        } else {
            assert((a + b)[i] == b[i - a.len()]);
        }
    }
}

proof fn lemma_report_scan(
    header: Regex,
    frame: Regex,
    lines: Seq<Seq<char>>,
    from: int,
    open: Option<ReportView>,
)
    ensures
        all_mined(report_scan(header, frame, lines, from, open)),
    decreases lines.len() - from,
{
    if 0 <= from < lines.len() {
        match first_match(header, lines[from]) {
            Some(groups) => {
                lemma_report_scan(
                    header,
                    frame,
                    lines,
                    from + 1,
                    Some(crate::log_parser::report_opened(groups)),
                );
            },
            None => {
                lemma_report_scan(header, frame, lines, from + 1, open);
                match open {
                    Some(report) => match first_match(frame, lines[from]) {
                        Some(groups) => match report_hit(report, groups) {
                            Some(hit) => {
                                lemma_point(
                                    crate::log_parser::group_text(groups, 3),
                                    crate::log_parser::group_text(groups, 4),
                                );
                                assert(hit.diagnostic.source.subrange(0, "sanitizer/"@.len() as int)
                                    =~= "sanitizer/"@);
                                assert(seq![hit][0] == hit);
                                lemma_joined(seq![hit], report_scan(header, frame, lines, from + 1, open));
                            },
                            None => {},
                        },
                        None => {},
                    },
                    None => {},
                }
            },
        }
    }
}

proof fn lemma_trace_scan(
    exception: Regex,
    frame: Regex,
    lines: Seq<Seq<char>>,
    from: int,
    pending: Option<Seq<char>>,
)
    ensures
        all_mined(trace_scan(exception, frame, lines, from, pending)),
    decreases lines.len() - from,
{
    if 0 <= from < lines.len() {
        match first_match(exception, lines[from]) {
            Some(groups) => {
                lemma_trace_scan(
                    exception,
                    frame,
                    lines,
                    from + 1,
                    Some(crate::log_parser::announced(groups)),
                );
            },
            None => {
                lemma_trace_scan(exception, frame, lines, from + 1, pending);
                lemma_trace_scan(exception, frame, lines, from + 1, None);
                match pending {
                    Some(message) => match first_match(frame, lines[from]) {
                        Some(groups) => {
                            let hit = trace_hit(message, groups);
                            lemma_point(crate::log_parser::group_text(groups, 2), Seq::empty());
                            assert(seq![hit][0] == hit);
                            lemma_joined(seq![hit], trace_scan(exception, frame, lines, from + 1, None));
                        },
                        None => {},
                    },
                    None => {},
                }
            },
        }
    }
}

proof fn lemma_traceback_scan(
    error: Regex,
    frame: Regex,
    lines: Seq<Seq<char>>,
    upto: int,
    pending: Option<PendingView>,
)
    ensures
        all_mined(traceback_scan(error, frame, lines, upto, pending)),
    decreases upto,
{
    if 0 < upto <= lines.len() {
        let line = lines[upto - 1];
        match first_match(error, line) {
            Some(groups) => {
                lemma_traceback_scan(
                    error,
                    frame,
                    lines,
                    upto - 1,
                    Some(crate::log_parser::error_named(groups)),
                );
            },
            None => {
                lemma_traceback_scan(error, frame, lines, upto - 1, pending);
                match pending {
                    Some(named) => match first_match(frame, line) {
                        Some(groups) => {
                            let hit = traceback_hit(named, groups);
                            let next = Some(PendingView { severity: Severity::Warning, ..named });
                            lemma_traceback_scan(error, frame, lines, upto - 1, next);
                            lemma_point(crate::log_parser::group_text(groups, 2), Seq::empty());
                            assert(seq![hit][0] == hit);
                            lemma_joined(seq![hit], traceback_scan(error, frame, lines, upto - 1, next));
                        },
                        None => {},
                    },
                    None => {},
                }
            },
        }
    }
}

/// Mined diagnostics never span more than one character: every finding
/// of every grammar, in every text, covers the one character at its
/// start, and names one of the sources of the grammars.
pub proof fn lemma_findings_are_mined(text: Seq<char>)
    ensures
        all_mined(one_line_findings(text)),
        all_mined(report_findings(text)),
        all_mined(trace_findings(text)),
        all_mined(traceback_findings(text)),
        all_mined(findings(text)),
{
    let one = one_line_findings(text);
    assert forall|i: int| 0 <= i < one.len() implies is_mined(#[trigger] one[i]) by {
        let groups = all_matches(compiled(ONE_LINE@)->0, text)[i];
        assert(one[i] == one_line_hit(groups));
        lemma_point(
            crate::log_parser::group_text(groups, 2),
            crate::log_parser::group_text(groups, 3),
        );
    }
    let rows = crate::text::lines_of(text);
    match (compiled(REPORT_HEADER@), compiled(REPORT_FRAME@)) {
        (Some(header), Some(frame)) => {
            lemma_report_scan(header, frame, rows, 0, None);
        },
        _ => {},
    }
    match (compiled(EXCEPTION@), compiled(STACK_FRAME@)) {
        (Some(exception), Some(frame)) => {
            lemma_trace_scan(exception, frame, rows, 0, None);
        },
        _ => {},
    }
    match (compiled(TRACEBACK_ERROR@), compiled(TRACEBACK_FRAME@)) {
        (Some(error), Some(frame)) => {
            lemma_traceback_scan(error, frame, rows, rows.len() as int, None);
        },
        _ => {},
    }
    lemma_joined(one_line_findings(text), report_findings(text));
    lemma_joined(one_line_findings(text) + report_findings(text), trace_findings(text));
    lemma_joined(
        one_line_findings(text) + report_findings(text) + trace_findings(text),
        traceback_findings(text),
    );
}

/// Severity gradient: where no line of the first `upto` lines names an
/// error, the findings that the traceback grammar makes of them under a
/// named error begin with one of the pending severity, and all that
/// follow are warnings; each carries the message of the error at its
/// start. Straight after an error line the pending severity is an error.
pub proof fn lemma_gradient(
    error: Regex,
    frame: Regex,
    lines: Seq<Seq<char>>,
    upto: int,
    named: PendingView,
)
    requires
        0 <= upto <= lines.len(),
        forall|k: int| 0 <= k < upto ==> first_match(error, #[trigger] lines[k]) is None,
    ensures
        ({
            let found = traceback_scan(error, frame, lines, upto, Some(named));
            forall|i: int|
                0 <= i < found.len() ==> {
                    &&& (#[trigger] found[i]).diagnostic.severity == if i == 0 {
                        named.severity
                    } else {
                        Severity::Warning
                    }
                    &&& named.message.is_prefix_of(found[i].diagnostic.message)
                }
        }),
    decreases upto,
{
    if upto > 0 {
        let line = lines[upto - 1];
        assert(first_match(error, line) is None);
        let found = traceback_scan(error, frame, lines, upto, Some(named));
        match first_match(frame, line) {
            Some(groups) => {
                let later = PendingView { severity: Severity::Warning, ..named };
                let rest = traceback_scan(error, frame, lines, upto - 1, Some(later));
                lemma_gradient(error, frame, lines, upto - 1, later);
                let hit = traceback_hit(named, groups);
                assert(found == seq![hit] + rest);
                assert(named.message.is_prefix_of(hit.diagnostic.message)) by {
                    match crate::log_parser::group(groups, 3) {
                        Some(function) => {
                            assert((named.message + " in "@ + function).subrange(
                                0,
                                named.message.len() as int,
                            ) =~= named.message);
                        },
                        None => {
                            assert(named.message.subrange(0, named.message.len() as int)
                                =~= named.message);
                        },
                    }
                }
                assert forall|i: int| 0 <= i < found.len() implies {
                    &&& (#[trigger] found[i]).diagnostic.severity == if i == 0 {
                        named.severity
                    } else {
                        Severity::Warning
                    }
                    &&& named.message.is_prefix_of(found[i].diagnostic.message)
                } by {
                    if i > 0 {
                        assert(found[i] == rest[i - 1]);
                    }
                }
            },
            None => {
                lemma_gradient(error, frame, lines, upto - 1, named);
            },
        }
    }
}

} // verus!
