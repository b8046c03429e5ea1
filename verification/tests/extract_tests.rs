use rust_diagnostics::align::align;
use rust_diagnostics::extract::splitup;
use rust_diagnostics::extract::ItemMap;
use rust_diagnostics::markup::markup;
use rust_diagnostics::span::DiagnosticSpan;
use rust_diagnostics::span::Severity;

fn entries(m: &ItemMap) -> Vec<(usize, Vec<u8>)> {
    let mut out = Vec::new();
    let mut i = 0;
    while i < m.len() {
        out.push((m.key_at(i), m.slice_at(i).to_vec()));
        i += 1;
    }
    out
}

#[test]
fn splitup_finds_top_level_items_at_their_offsets() {
    let source = b"fn main() {}\nfn f() {}\n";
    let items = entries(&splitup(source));
    assert!(items.contains(&(0usize, b"fn main() {}".to_vec())));
    assert!(items.contains(&(13usize, b"fn f() {}".to_vec())));
}

#[test]
fn splitup_keys_ascend() {
    let source = b"use std::fmt;\nconst N: u32 = 1;\nfn g() -> u32 { N }\n";
    let items = entries(&splitup(source));
    assert!(items.len() >= 3);
    for w in items.windows(2) {
        assert!(w[0].0 < w[1].0);
    }
    assert_eq!(items[0], (0usize, b"use std::fmt;".to_vec()));
}

#[test]
fn splitup_is_deterministic() {
    let source = b"fn main() { let x = 1; }\nstruct S;\n";
    let first = entries(&splitup(source));
    let second = entries(&splitup(source));
    assert_eq!(first, second);
}

#[test]
fn splitup_of_unparseable_bytes_finds_no_items() {
    let source = b"%%%% ---- %%%%";
    assert_eq!(splitup(source).len(), 0);
}

#[test]
fn marked_up_source_still_parses_into_the_same_item_count() {
    // markers are comments, so marking a file up does not change which
    // top-level items the extractor sees.
    let source = b"fn main() { f(); }\nfn f() {}\n";
    let span = DiagnosticSpan {
        rule_id: b"r".to_vec(),
        severity: Severity::Warning,
        start_byte: 12,
        end_byte: 16,
        start_line: 1,
        end_line: 1,
        suggestion: None,
        note: None,
        resolved: false,
    };
    let marked = markup(source, &vec![span]);
    let plain = splitup(source);
    let annotated = splitup(marked.as_slice());
    assert_eq!(plain.len(), annotated.len());
}

#[test]
fn changed_function_is_detected_end_to_end() {
    // one top-level item changes, one stays; alignment pairs exactly the
    // changed one.
    let before = b"fn main() { let s = read_to_string(\"x\").unwrap(); }\nfn g() {}\n";
    let after =
        b"fn main() { if let Ok(s) = read_to_string(\"x\") { g(); } }\nfn g() {}\n";
    let orig_items = splitup(before);
    let fixed_items = splitup(after);
    let pairs = align(&orig_items, &fixed_items);
    assert_eq!(pairs.len(), 1);
    assert_eq!(pairs[0].0, 0);
    assert_eq!(
        pairs[0].1,
        b"fn main() { let s = read_to_string(\"x\").unwrap(); }".to_vec()
    );
    assert_eq!(
        pairs[0].2,
        b"fn main() { if let Ok(s) = read_to_string(\"x\") { g(); } }".to_vec()
    );
}
