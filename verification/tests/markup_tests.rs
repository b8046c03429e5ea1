use rust_diagnostics::markup::markup;
use rust_diagnostics::markup::markup_rules;
use rust_diagnostics::markup::normalize_exec;
use rust_diagnostics::markup::strip_quotes_exec;
use rust_diagnostics::markup::unescape_newlines_exec;
use rust_diagnostics::span::sub_messages;
use rust_diagnostics::span::DiagnosticSpan;
use rust_diagnostics::span::Severity;
use rust_diagnostics::span::SubMessage;

fn span(rule: &str, start: usize, end: usize) -> DiagnosticSpan {
    DiagnosticSpan {
        rule_id: rule.as_bytes().to_vec(),
        severity: Severity::Warning,
        start_byte: start,
        end_byte: end,
        start_line: 1,
        end_line: 1,
        suggestion: None,
        note: None,
        resolved: false,
    }
}

#[test]
fn markup_empty_spans_is_identity() {
    let source = b"fn main() {}\n";
    let out = markup(source, &Vec::new());
    assert_eq!(out, source.to_vec());
}

#[test]
fn markup_wraps_the_flagged_range() {
    let source = b"abc";
    let spans = vec![span("r", 1, 2)];
    let out = markup(source, &spans);
    assert_eq!(
        String::from_utf8(out).unwrap(),
        "a/*#[Warning(r)*/b/*\n#[Warning(r)*/c"
    );
}

#[test]
fn markup_wraps_an_unwrap_call() {
    let source = br#"fn main() { let s = read_to_string("x").unwrap(); }"#;
    // the flagged range covers `read_to_string("x").unwrap()`
    let start = 20;
    let end = 48;
    assert_eq!(&source[start..end], br#"read_to_string("x").unwrap()"#);
    let spans = vec![span("unwrap_used", start, end)];
    let out = String::from_utf8(markup(source, &spans)).unwrap();
    assert_eq!(
        out,
        "fn main() { let s = /*#[Warning(unwrap_used)*/read_to_string(\"x\").unwrap()/*\n#[Warning(unwrap_used)*/; }"
    );
    assert!(out.contains("/*#[Warning(unwrap_used)*/read_to_string"));
}

#[test]
fn markup_round_trip_strips_back_to_source() {
    let source = b"fn f() { g(); }";
    let spans = vec![span("a", 3, 8), span("b", 0, 15)];
    let out = String::from_utf8(markup(source, &spans)).unwrap();
    let stripped = out
        .replace("/*#[Warning(a)*/", "")
        .replace("/*\n#[Warning(a)*/", "")
        .replace("/*#[Warning(b)*/", "")
        .replace("/*\n#[Warning(b)*/", "");
    assert_eq!(stripped.as_bytes(), source);
}

#[test]
fn markup_places_markers_before_start_and_end_bytes() {
    let source = b"0123456789";
    let spans = vec![span("x", 2, 5)];
    let out = String::from_utf8(markup(source, &spans)).unwrap();
    assert_eq!(out, "01/*#[Warning(x)*/234/*\n#[Warning(x)*/56789");
}

#[test]
fn markup_overlapping_spans_nest_in_collection_order() {
    let source = b"ab";
    let spans = vec![span("one", 0, 1), span("two", 0, 2)];
    let out = String::from_utf8(markup(source, &spans)).unwrap();
    assert_eq!(
        out,
        "/*#[Warning(one)*//*#[Warning(two)*/a/*\n#[Warning(one)*/b"
    );
}

#[test]
fn markup_span_ending_at_end_of_file_gets_no_closing_marker() {
    let source = b"ab";
    let spans = vec![span("r", 0, 2)];
    let out = String::from_utf8(markup(source, &spans)).unwrap();
    assert_eq!(out, "/*#[Warning(r)*/ab");
}

#[test]
fn markup_renders_suggestion_and_note_normalized() {
    let source = b"xy";
    let mut sp = span("r", 0, 1);
    sp.suggestion = Some(b"\"let a = b;\"".to_vec());
    sp.note = Some(b"line one\\nline two".to_vec());
    let out = String::from_utf8(markup(source, &vec![sp])).unwrap();
    assert_eq!(
        out,
        "/*#[Warning(r)*/x/*\n#[Warning(r)\nsuggestion: let a = b;\nnote: line one\nline two*/y"
    );
}

#[test]
fn markup_error_severity_uses_its_label() {
    let source = b"ab";
    let mut sp = span("e0308", 0, 1);
    sp.severity = Severity::Error;
    let out = String::from_utf8(markup(source, &vec![sp])).unwrap();
    assert_eq!(out, "/*#[Error(e0308)*/a/*\n#[Error(e0308)*/b");
}

#[test]
fn markup_rules_lists_only_contained_spans() {
    let spans = vec![span("inside", 4, 8), span("outside", 0, 20)];
    let out = String::from_utf8(markup_rules(2, 10, &spans)).unwrap();
    assert_eq!(out, "/*#[Warning(inside)*/\n");
}

#[test]
fn markup_rules_keeps_collection_order() {
    let spans = vec![span("b", 5, 6), span("a", 4, 8)];
    let out = String::from_utf8(markup_rules(0, 10, &spans)).unwrap();
    assert_eq!(out, "/*#[Warning(b)*/\n/*#[Warning(a)*/\n");
}

#[test]
fn unescape_turns_escaped_newlines_into_real_ones() {
    let out = unescape_newlines_exec(b"a\\nb\\\\nc");
    assert_eq!(out, b"a\nb\\\nc".to_vec());
}

#[test]
fn strip_quotes_drops_every_quote() {
    let out = strip_quotes_exec(b"\"quoted \"text\"\"");
    assert_eq!(out, b"quoted text".to_vec());
}

#[test]
fn normalize_unescapes_then_strips() {
    let out = normalize_exec(b"\"a\\nb\"");
    assert_eq!(out, b"a\nb".to_vec());
}

#[test]
fn span_name_composes_severity_and_rule() {
    let sp = span("clippy::unwrap_used", 0, 1);
    assert_eq!(sp.name(), b"#[Warning(clippy::unwrap_used)".to_vec());
}

#[test]
fn sub_messages_joins_children_with_newlines() {
    let children = vec![
        SubMessage {
            message: b"first".to_vec(),
            rendered: Some(b"shown".to_vec()),
        },
        SubMessage {
            message: b"second".to_vec(),
            rendered: None,
        },
    ];
    assert_eq!(sub_messages(&children), b"first: shown\nsecond".to_vec());
}

#[test]
fn sub_messages_of_nothing_is_empty() {
    assert_eq!(sub_messages(&Vec::new()), Vec::<u8>::new());
}
