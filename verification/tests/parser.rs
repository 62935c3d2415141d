use clasangd::diagnostic::{Position, Severity};
use clasangd::log_parser::{
    announced_message, group_at, name_error, one_line_finding, open_report, parse_diagnostics,
    parse_oneline, parse_san_error, parse_stacktrace, parse_traceback, report_finding, text_at,
    trace_finding, traceback_finding, zero_based_number, Finding, Pending, Report,
};

fn groups_from(parts: &[Option<&str>]) -> Vec<Option<String>> {
    parts.iter().map(|p| p.map(|s| s.to_string())).collect()
}

fn one_line(text: &str) -> Vec<Finding> {
    let mut out = Vec::new();
    parse_oneline(text, &mut out);
    out
}

fn sanitizer(text: &str) -> Vec<Finding> {
    let mut out = Vec::new();
    parse_san_error(text, &mut out);
    out
}

fn stacktrace(text: &str) -> Vec<Finding> {
    let mut out = Vec::new();
    parse_stacktrace(text, &mut out);
    out
}

fn traceback(text: &str) -> Vec<Finding> {
    let mut out = Vec::new();
    parse_traceback(text, &mut out);
    out
}

#[test]
fn one_line_error_is_found() {
    let found = one_line("src/a.c:10:5: error: missing semicolon");
    assert_eq!(found.len(), 1);
    let f = &found[0];
    assert_eq!(f.path, "src/a.c");
    assert_eq!(f.diagnostic.range.start, Position { line: 9, character: 4 });
    assert_eq!(f.diagnostic.range.end, Position { line: 9, character: 5 });
    assert_eq!(f.diagnostic.severity, Severity::Error);
    assert_eq!(f.diagnostic.severity.code(), 1);
    assert_eq!(f.diagnostic.source, "ubsan/asan");
    assert_eq!(f.diagnostic.message, "missing semicolon");
}

#[test]
fn one_line_kinds_give_severities() {
    let text = "a.c:1:1: note: n\nb.c:2:2: warning: w\nc.c:3:3: runtime error: r\nd.c:4:4: error: e\nnothing here\n";
    let found = one_line(text);
    let got: Vec<(String, Severity, String)> = found
        .iter()
        .map(|f| (f.path.clone(), f.diagnostic.severity, f.diagnostic.message.clone()))
        .collect();
    assert_eq!(
        got,
        vec![
            ("a.c".to_string(), Severity::Information, "n".to_string()),
            ("b.c".to_string(), Severity::Warning, "w".to_string()),
            ("c.c".to_string(), Severity::Error, "r".to_string()),
            ("d.c".to_string(), Severity::Error, "e".to_string()),
        ]
    );
    assert_eq!(found[1].diagnostic.range.start, Position { line: 1, character: 1 });
}

#[test]
fn one_line_appends_to_what_is_there() {
    let mut out = one_line("a.c:1:1: error: first");
    parse_oneline("b.c:2:2: error: second", &mut out);
    assert_eq!(out.len(), 2);
    assert_eq!(out[0].path, "a.c");
    assert_eq!(out[1].path, "b.c");
}

#[test]
fn line_zero_and_huge_numbers_count_as_zero() {
    assert_eq!(zero_based_number("1"), 0);
    assert_eq!(zero_based_number("0"), 0);
    assert_eq!(zero_based_number("12"), 11);
    assert_eq!(zero_based_number("99999999999999999999999999"), 0);
    assert_eq!(zero_based_number("x"), 0);
    assert_eq!(zero_based_number(""), 0);
    assert_eq!(zero_based_number("18446744073709551615"), u64::MAX - 1);
    let found = one_line("a.c:0:99999999999999999999999999: error: e");
    assert_eq!(found[0].diagnostic.range.start, Position { line: 0, character: 0 });
    assert_eq!(found[0].diagnostic.range.end, Position { line: 0, character: 1 });
}

#[test]
fn groups_are_read_by_index() {
    let groups = groups_from(&[Some("whole"), Some("one"), None]);
    assert_eq!(group_at(&groups, 1), Some(&"one".to_string()));
    assert_eq!(group_at(&groups, 2), None);
    assert_eq!(group_at(&groups, 3), None);
    assert_eq!(text_at(&groups, 0), "whole");
    assert_eq!(text_at(&groups, 2), "");
    assert_eq!(text_at(&groups, 9), "");
}

#[test]
fn one_line_finding_from_groups() {
    let groups = groups_from(&[None, Some("p.c"), Some("3"), Some("7"), Some("warning"), Some("m")]);
    let f = one_line_finding(&groups);
    assert_eq!(f.path, "p.c");
    assert_eq!(f.diagnostic.range.start, Position { line: 2, character: 6 });
    assert_eq!(f.diagnostic.range.end, Position { line: 2, character: 7 });
    assert_eq!(f.diagnostic.severity, Severity::Warning);
    assert_eq!(f.diagnostic.source, "ubsan/asan");
    assert_eq!(f.diagnostic.message, "m");
}

#[test]
fn sanitizer_report_takes_frame_one_only() {
    let text = "=================================================================\n\
==123==ERROR: AddressSanitizer: heap-use-after-free\n\
    #0 0x5602fa52ec1d in free asan_malloc_linux.cpp.o\n\
    #1 0x5602fa581047 in main /p/t.c:12:3\n\
    #2 0x7f6f5f627674 in __libc_start_call_main /usr/src/libc_start_call_main.h:58:16\n";
    let found = sanitizer(text);
    assert_eq!(found.len(), 1);
    let f = &found[0];
    assert_eq!(f.path, "/p/t.c");
    assert_eq!(f.diagnostic.range.start, Position { line: 11, character: 2 });
    assert_eq!(f.diagnostic.range.end, Position { line: 11, character: 3 });
    assert_eq!(f.diagnostic.severity, Severity::Error);
    assert_eq!(f.diagnostic.source, "sanitizer/Address");
    assert_eq!(f.diagnostic.message, "heap-use-after-free");
}

#[test]
fn sanitizer_frames_without_report_give_nothing() {
    let text = "    #1 0x5602fa581047 in main /p/t.c:12:3\n";
    assert_eq!(sanitizer(text), Vec::<Finding>::new());
}

#[test]
fn sanitizer_report_stays_open_for_later_stacks() {
    let text = "==1==ERROR: AddressSanitizer: attempting double-free on 0x7b in thread T0:\n\
    #0 0x1 in free.part.0 asan_malloc_linux.cpp.o\n\
    #1 0x2 in main /home/u/test.c:12:3\n\
\n\
freed by thread T0 here:\n\
    #0 0x1 in free.part.0 asan_malloc_linux.cpp.o\n\
    #1 0x3 in main /home/u/test.c:11:3\n\
==2==ERROR: LeakSanitizer: detected memory leaks\n\
    #1 0x4 in f /home/u/leak.c:5:9\n";
    let found = sanitizer(text);
    let got: Vec<(String, u64, String)> = found
        .iter()
        .map(|f| (f.path.clone(), f.diagnostic.range.start.line, f.diagnostic.source.clone()))
        .collect();
    assert_eq!(
        got,
        vec![
            ("/home/u/test.c".to_string(), 11, "sanitizer/Address".to_string()),
            ("/home/u/test.c".to_string(), 10, "sanitizer/Address".to_string()),
            ("/home/u/leak.c".to_string(), 4, "sanitizer/Leak".to_string()),
        ]
    );
    assert_eq!(found[0].diagnostic.message, "attempting double-free on 0x7b in thread T0:");
}

#[test]
fn report_finding_from_groups() {
    let report = open_report(&groups_from(&[None, Some("Thread"), Some("data race")]));
    assert_eq!(report, Report { kind: "Thread".to_string(), message: "data race".to_string() });
    let one = groups_from(&[None, Some("1"), Some("/a.c"), Some("4"), Some("2")]);
    let f = report_finding(&report, &one).unwrap();
    assert_eq!(f.path, "/a.c");
    assert_eq!(f.diagnostic.range.start, Position { line: 3, character: 1 });
    assert_eq!(f.diagnostic.source, "sanitizer/Thread");
    assert_eq!(f.diagnostic.message, "data race");
    assert_eq!(f.diagnostic.severity, Severity::Error);
    let zero = groups_from(&[None, Some("0"), Some("/a.c"), Some("4"), Some("2")]);
    assert_eq!(report_finding(&report, &zero), None);
    let two = groups_from(&[None, Some("2"), Some("/a.c"), Some("4"), Some("2")]);
    assert_eq!(report_finding(&report, &two), None);
    let none = groups_from(&[None, Some("x"), Some("/a.c"), Some("4"), Some("2")]);
    assert_eq!(report_finding(&report, &none), None);
    let padded = groups_from(&[None, Some("01"), Some("/a.c"), Some("4"), Some("2")]);
    assert!(report_finding(&report, &padded).is_some());
}

#[test]
fn stack_trace_takes_the_next_frame_only() {
    let text = "Exception in thread \"main\" java.lang.ArrayIndexOutOfBoundsException: Index 0 out of bounds for length 0\n\
\tat crash.main(crash.java:4)\n\
\tat other.run(other.java:9)\n";
    let found = stacktrace(text);
    assert_eq!(found.len(), 1);
    let f = &found[0];
    assert_eq!(f.path, "crash.java");
    assert_eq!(f.diagnostic.range.start, Position { line: 3, character: 0 });
    assert_eq!(f.diagnostic.range.end, Position { line: 3, character: 1 });
    assert_eq!(f.diagnostic.severity, Severity::Error);
    assert_eq!(f.diagnostic.source, "runtime");
    assert_eq!(f.diagnostic.message, "Index 0 out of bounds for length 0");
}

#[test]
fn stack_frame_without_exception_gives_nothing() {
    assert_eq!(stacktrace("\tat crash.main(crash.java:4)\n"), Vec::<Finding>::new());
}

#[test]
fn trace_finding_from_groups() {
    assert_eq!(announced_message(&groups_from(&[None, Some("boom")])), "boom");
    assert_eq!(announced_message(&groups_from(&[None, None])), "Runtime error");
    assert_eq!(announced_message(&groups_from(&[])), "Runtime error");
    let f = trace_finding("boom", &groups_from(&[None, Some("A.java"), Some("10")]));
    assert_eq!(f.path, "A.java");
    assert_eq!(f.diagnostic.range.start, Position { line: 9, character: 0 });
    assert_eq!(f.diagnostic.message, "boom");
    assert_eq!(f.diagnostic.source, "runtime");
}

#[test]
fn traceback_of_three_frames() {
    let log = "Traceback (most recent call last):\n\
  File \"/tmp/b_tree.py\", line 66, in <module>\n\
    tree.b_tree_insert(i)\n\
  File \"/tmp/b_tree.py\", line 63, in b_tree_insert\n\
    self.b_tree_insert_nonfull(r,k)\n\
  File \"/tmp/b_tree.py\", line 52, in b_tree_insert_nonfull\n\
    if x.c[i].n==2*self.t-1:\n\
       ~~~^^^\n\
IndexError: list index out of range\n";
    let found = traceback(log);
    assert_eq!(found.len(), 3);
    assert_eq!(found[0].path, "/tmp/b_tree.py");
    assert_eq!(found[0].diagnostic.range.start, Position { line: 51, character: 0 });
    assert_eq!(found[0].diagnostic.range.end, Position { line: 51, character: 1 });
    assert_eq!(
        found[0].diagnostic.message,
        "IndexError: list index out of range in b_tree_insert_nonfull"
    );
    assert_eq!(found[0].diagnostic.severity, Severity::Error);
    assert_eq!(found[0].diagnostic.source, "runtime");
    assert_eq!(found[1].diagnostic.range.start.line, 62);
    assert_eq!(found[1].diagnostic.severity, Severity::Warning);
    assert_eq!(found[1].diagnostic.message, "IndexError: list index out of range in b_tree_insert");
    assert_eq!(found[2].diagnostic.range.start.line, 65);
    assert_eq!(found[2].diagnostic.severity, Severity::Warning);
    assert_eq!(found[2].diagnostic.message, "IndexError: list index out of range in <module>");
}

#[test]
fn traceback_frame_without_function_keeps_the_message() {
    let log = "  File \"a.py\", line 3\nValueError: bad\n";
    let found = traceback(log);
    assert_eq!(found.len(), 1);
    assert_eq!(found[0].path, "a.py");
    assert_eq!(found[0].diagnostic.range.start.line, 2);
    assert_eq!(found[0].diagnostic.message, "ValueError: bad");
}

#[test]
fn traceback_error_line_may_name_an_exception() {
    let log = "  File \"/nonexistent/a.py\", line 3, in f\nRuntimeException: boom";
    let found = traceback(log);
    assert_eq!(found.len(), 1);
    assert_eq!(found[0].path, "/nonexistent/a.py");
    assert_eq!(found[0].diagnostic.range.start, Position { line: 2, character: 0 });
    assert_eq!(found[0].diagnostic.range.end, Position { line: 2, character: 1 });
    assert_eq!(found[0].diagnostic.severity, Severity::Error);
    assert_eq!(found[0].diagnostic.severity.code(), 1);
    assert_eq!(found[0].diagnostic.source, "runtime");
    assert_eq!(found[0].diagnostic.message, "RuntimeException: boom in f");
}

#[test]
fn traceback_error_line_forms() {
    for header in ["Exception: bare", "KeyError: k", "java.lang.Oops", "MyException", "E_Exception: x"] {
        let log = format!("  File \"a.py\", line 1, in f\n{}\n", header);
        let found = traceback(&log);
        let named = header != "java.lang.Oops";
        assert_eq!(found.len(), if named { 1 } else { 0 }, "{}", header);
        if named {
            assert_eq!(found[0].diagnostic.message, format!("{} in f", header));
        }
    }
    // A line that only holds the word further on names no error.
    assert_eq!(traceback("  File \"a.py\", line 1, in f\n  raise KeyError(k)\n"), Vec::<Finding>::new());
}

#[test]
fn traceback_frame_with_no_error_after_it_gives_nothing() {
    let log = "ValueError: bad\n  File \"a.py\", line 3, in f\n";
    assert_eq!(traceback(log), Vec::<Finding>::new());
}

#[test]
fn each_error_line_makes_the_next_frame_an_error() {
    let log = "  File \"a.py\", line 1, in f\n\
  File \"a.py\", line 2, in g\n\
KeyError: k\n\
  File \"b.py\", line 3, in h\n\
  File \"b.py\", line 4, in i\n\
TypeError: t\n";
    let found = traceback(log);
    let got: Vec<(String, u64, Severity, String)> = found
        .iter()
        .map(|f| {
            (
                f.path.clone(),
                f.diagnostic.range.start.line,
                f.diagnostic.severity,
                f.diagnostic.message.clone(),
            )
        })
        .collect();
    assert_eq!(
        got,
        vec![
            ("b.py".to_string(), 3, Severity::Error, "TypeError: t in i".to_string()),
            ("b.py".to_string(), 2, Severity::Warning, "TypeError: t in h".to_string()),
            ("a.py".to_string(), 1, Severity::Error, "KeyError: k in g".to_string()),
            ("a.py".to_string(), 0, Severity::Warning, "KeyError: k in f".to_string()),
        ]
    );
}

#[test]
fn traceback_finding_from_groups() {
    let pending = name_error(&groups_from(&[None, Some("E: m")]));
    assert_eq!(pending, Pending { message: "E: m".to_string(), severity: Severity::Error });
    let with = traceback_finding(&pending, &groups_from(&[None, Some("a.py"), Some("5"), Some("f")]));
    assert_eq!(with.diagnostic.message, "E: m in f");
    assert_eq!(with.diagnostic.severity, Severity::Error);
    assert_eq!(with.diagnostic.range.start, Position { line: 4, character: 0 });
    let later = Pending { message: "E: m".to_string(), severity: Severity::Warning };
    let without = traceback_finding(&later, &groups_from(&[None, Some("a.py"), Some("5"), None]));
    assert_eq!(without.diagnostic.message, "E: m");
    assert_eq!(without.diagnostic.severity, Severity::Warning);
    assert_eq!(without.path, "a.py");
}

#[test]
fn all_grammars_read_the_same_text_in_turn() {
    let text = "x.c:3:1: warning: unused\n\
==9==ERROR: UndefinedBehaviorSanitizer: overflow\n\
    #1 0x2 in main /src/x.c:7:2\n\
Exception in thread \"main\" java.lang.Error: oops\n\
\tat A.b(A.java:2)\n\
  File \"t.py\", line 8, in run\n\
RuntimeError: late\n";
    let found = parse_diagnostics(text);
    let got: Vec<(String, String, u64)> = found
        .iter()
        .map(|f| (f.diagnostic.source.clone(), f.path.clone(), f.diagnostic.range.start.line))
        .collect();
    assert_eq!(
        got,
        vec![
            ("ubsan/asan".to_string(), "x.c".to_string(), 2),
            ("sanitizer/UndefinedBehavior".to_string(), "/src/x.c".to_string(), 6),
            ("runtime".to_string(), "A.java".to_string(), 1),
            ("runtime".to_string(), "t.py".to_string(), 7),
        ]
    );
    assert_eq!(parse_diagnostics(""), Vec::<Finding>::new());
    assert_eq!(parse_diagnostics("nothing to see\n"), Vec::<Finding>::new());
}
