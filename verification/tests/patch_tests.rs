use rust_diagnostics::patch::confirm_resolved;
use rust_diagnostics::patch::count_warnings;
use rust_diagnostics::patch::filter_by_rule;
use rust_diagnostics::patch::hunk_overlaps;
use rust_diagnostics::patch::mark_touched;
use rust_diagnostics::patch::partition_by_name;
use rust_diagnostics::patch::touched;
use rust_diagnostics::patch::PatchHunk;
use rust_diagnostics::span::DiagnosticSpan;
use rust_diagnostics::span::Severity;

fn span_on_lines(rule: &str, start_line: usize, end_line: usize) -> DiagnosticSpan {
    DiagnosticSpan {
        rule_id: rule.as_bytes().to_vec(),
        severity: Severity::Warning,
        start_byte: 0,
        end_byte: 1,
        start_line,
        end_line,
        suggestion: None,
        note: None,
        resolved: false,
    }
}

#[test]
fn hunk_covering_the_span_lines_overlaps() {
    let sp = span_on_lines("r", 5, 5);
    let hunk = PatchHunk {
        old_start_line: 1,
        old_line_count: 5,
    };
    assert!(hunk_overlaps(&hunk, &sp));
}

#[test]
fn hunk_covering_only_the_lines_before_the_span_does_not_overlap() {
    // the hunk covers old lines 1 through 4; a span on line 5 lies just past
    // its half-open end.
    let sp = span_on_lines("r", 5, 5);
    let hunk = PatchHunk {
        old_start_line: 1,
        old_line_count: 4,
    };
    assert!(!hunk_overlaps(&hunk, &sp));
}

#[test]
fn hunk_ending_well_before_the_span_does_not_overlap() {
    let sp = span_on_lines("r", 5, 5);
    let hunk = PatchHunk {
        old_start_line: 1,
        old_line_count: 3,
    };
    assert!(!hunk_overlaps(&hunk, &sp));
}

#[test]
fn hunk_starting_after_the_span_does_not_overlap() {
    let sp = span_on_lines("r", 5, 5);
    let hunk = PatchHunk {
        old_start_line: 6,
        old_line_count: 2,
    };
    assert!(!hunk_overlaps(&hunk, &sp));
}

#[test]
fn touched_finds_an_overlapping_hunk_among_many() {
    let sp = span_on_lines("r", 10, 12);
    let hunks = vec![
        PatchHunk {
            old_start_line: 1,
            old_line_count: 2,
        },
        PatchHunk {
            old_start_line: 11,
            old_line_count: 1,
        },
    ];
    assert!(touched(&hunks, &sp));
    assert!(!touched(&Vec::new(), &sp));
}

#[test]
fn mark_touched_flags_only_spans_under_a_hunk() {
    let mut spans = vec![span_on_lines("a", 2, 2), span_on_lines("b", 40, 41)];
    let hunks = vec![PatchHunk {
        old_start_line: 1,
        old_line_count: 4,
    }];
    mark_touched(&mut spans, &hunks);
    assert!(spans[0].resolved);
    assert!(!spans[1].resolved);
}

#[test]
fn confirmation_withdraws_a_fix_that_still_fires() {
    // the patch touched the function, but the fresh report still shows a
    // finding on those lines, so the span stays unresolved.
    let mut spans = vec![span_on_lines("clippy::unwrap_used", 3, 3)];
    spans[0].resolved = true;
    let fresh = vec![span_on_lines("clippy::unwrap_used", 3, 3)];
    confirm_resolved(&mut spans, &fresh);
    assert!(!spans[0].resolved);
}

#[test]
fn confirmation_keeps_a_fix_with_no_fresh_overlap() {
    let mut spans = vec![span_on_lines("r", 3, 3)];
    spans[0].resolved = true;
    let fresh = vec![span_on_lines("r", 9, 9)];
    confirm_resolved(&mut spans, &fresh);
    assert!(spans[0].resolved);
}

#[test]
fn confirmation_is_withdrawn_by_any_rule_on_those_lines() {
    // conservative policy: a different rule overlapping the lines is enough.
    let mut spans = vec![span_on_lines("a", 3, 4)];
    spans[0].resolved = true;
    let fresh = vec![span_on_lines("b", 4, 6)];
    confirm_resolved(&mut spans, &fresh);
    assert!(!spans[0].resolved);
}

#[test]
fn confirmation_never_resolves_an_untouched_span() {
    let mut spans = vec![span_on_lines("r", 3, 3)];
    confirm_resolved(&mut spans, &Vec::new());
    assert!(!spans[0].resolved);
}

#[test]
fn partition_separates_gone_from_remaining() {
    let warnings = vec![span_on_lines("gone_rule", 1, 1), span_on_lines("kept_rule", 2, 2)];
    let mut fix = span_on_lines("kept_rule", 8, 8);
    fix.start_byte = 70;
    fix.end_byte = 80;
    let fixes = vec![fix];
    let (gone, kept) = partition_by_name(&warnings, &fixes);
    assert_eq!(gone.len(), 1);
    assert_eq!(gone[0].rule_id, b"gone_rule".to_vec());
    assert_eq!(kept.len(), 1);
    assert_eq!(kept[0].rule_id, b"kept_rule".to_vec());
    assert_eq!(kept[0].start_byte, 70);
}

#[test]
fn partition_takes_the_first_matching_fix() {
    let warnings = vec![span_on_lines("r", 1, 1)];
    let mut f1 = span_on_lines("r", 5, 5);
    f1.start_byte = 10;
    let mut f2 = span_on_lines("r", 6, 6);
    f2.start_byte = 20;
    let (gone, kept) = partition_by_name(&warnings, &vec![f1, f2]);
    assert_eq!(gone.len(), 0);
    assert_eq!(kept.len(), 1);
    assert_eq!(kept[0].start_byte, 10);
}

#[test]
fn filter_by_rule_keeps_only_that_warning() {
    let mut error = span_on_lines("w", 1, 1);
    error.severity = Severity::Error;
    let spans = vec![span_on_lines("w", 1, 1), span_on_lines("other", 2, 2), error];
    let out = filter_by_rule(&spans, b"w");
    assert_eq!(out.len(), 1);
    assert_eq!(out[0].rule_id, b"w".to_vec());
    assert_eq!(out[0].severity, Severity::Warning);
}

#[test]
fn count_warnings_sums_over_files() {
    let files = vec![
        vec![span_on_lines("a", 1, 1)],
        Vec::new(),
        vec![span_on_lines("b", 1, 1), span_on_lines("c", 2, 2)],
    ];
    assert_eq!(count_warnings(&files), 3);
}

#[test]
fn same_finding_goes_by_rule_and_byte_range() {
    let a = span_on_lines("r", 1, 1);
    let mut b = span_on_lines("r", 7, 9);
    b.severity = Severity::Error;
    assert!(a.same_finding(&b));
    let mut c = span_on_lines("r", 1, 1);
    c.end_byte = 2;
    assert!(!a.same_finding(&c));
}
