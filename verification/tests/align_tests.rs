use rust_diagnostics::align::align;
use rust_diagnostics::align::transform_pair;
use rust_diagnostics::extract::ItemMap;
use rust_diagnostics::span::DiagnosticSpan;
use rust_diagnostics::span::Severity;

fn warning(rule: &str, start: usize, end: usize) -> DiagnosticSpan {
    DiagnosticSpan {
        rule_id: rule.as_bytes().to_vec(),
        severity: Severity::Warning,
        start_byte: start,
        end_byte: end,
        start_line: 1,
        end_line: 1,
        suggestion: None,
        note: None,
        resolved: false,
    }
}

#[test]
fn align_emits_one_pair_under_pure_insertion() {
    // original items A at 0 (10 bytes) and B at 10 (10 bytes); the fix grows
    // A by two bytes, so B' sits at 12 with identical content.
    let a = b"aaaaaaaaaa";
    let a2 = b"aaaaaaaaaaXY";
    let b = b"bbbbbbbbbb";
    let mut orig = ItemMap::new();
    orig.insert(0, a);
    orig.insert(10, b);
    let mut fixed = ItemMap::new();
    fixed.insert(0, a2);
    fixed.insert(12, b);
    let pairs = align(&orig, &fixed);
    assert_eq!(pairs.len(), 1);
    assert_eq!(pairs[0].0, 0);
    assert_eq!(pairs[0].1, a.to_vec());
    assert_eq!(pairs[0].2, a2.to_vec());
}

#[test]
fn align_emits_nothing_for_identical_content() {
    let a = b"aaaaaaaaaa";
    let b = b"bbbbbbbbbb";
    let mut orig = ItemMap::new();
    orig.insert(0, a);
    orig.insert(10, b);
    let mut fixed = ItemMap::new();
    fixed.insert(0, a);
    fixed.insert(10, b);
    let pairs = align(&orig, &fixed);
    assert_eq!(pairs.len(), 0);
}

#[test]
fn align_skips_items_with_no_offset_match() {
    let a = b"aaaa";
    let mut orig = ItemMap::new();
    orig.insert(0, a);
    orig.insert(7, b"cc");
    let mut fixed = ItemMap::new();
    fixed.insert(3, a);
    let pairs = align(&orig, &fixed);
    assert_eq!(pairs.len(), 0);
}

#[test]
fn align_tracks_drift_through_several_changes() {
    // the first change grows its item by 3 bytes, so the second original
    // item is matched 3 bytes further right; that match shrinks by 1.
    let mut orig = ItemMap::new();
    orig.insert(0, b"one");
    orig.insert(5, b"two");
    orig.insert(10, b"three");
    let mut fixed = ItemMap::new();
    fixed.insert(0, b"onexyz");
    fixed.insert(8, b"t2");
    fixed.insert(12, b"three");
    let pairs = align(&orig, &fixed);
    assert_eq!(pairs.len(), 2);
    assert_eq!(pairs[0].0, 0);
    assert_eq!(pairs[0].2, b"onexyz".to_vec());
    assert_eq!(pairs[1].0, 5);
    assert_eq!(pairs[1].1, b"two".to_vec());
    assert_eq!(pairs[1].2, b"t2".to_vec());
}

#[test]
fn align_same_offset_different_content_is_a_pair() {
    let mut orig = ItemMap::new();
    orig.insert(4, b"before");
    let mut fixed = ItemMap::new();
    fixed.insert(4, b"after!");
    let pairs = align(&orig, &fixed);
    assert_eq!(pairs.len(), 1);
    assert_eq!(pairs[0].0, 4);
    assert_eq!(pairs[0].1, b"before".to_vec());
    assert_eq!(pairs[0].2, b"after!".to_vec());
}

#[test]
fn item_map_insert_overwrites_same_key() {
    let mut m = ItemMap::new();
    m.insert(3, b"old");
    m.insert(3, b"new");
    assert_eq!(m.len(), 1);
    assert_eq!(m.key_at(0), 3);
    assert_eq!(m.slice_at(0), b"new");
}

#[test]
fn item_map_keeps_keys_sorted() {
    let mut m = ItemMap::new();
    m.insert(9, b"c");
    m.insert(1, b"a");
    m.insert(4, b"b");
    assert_eq!(m.len(), 3);
    assert_eq!(m.key_at(0), 1);
    assert_eq!(m.key_at(1), 4);
    assert_eq!(m.key_at(2), 9);
}

#[test]
fn transform_pair_prefixes_both_files_with_the_rules() {
    let fixed = vec![warning("unwrap_used", 10, 14)];
    let (before_file, after_file) = transform_pair(8, b"0123456789", b"abc", &fixed);
    assert_eq!(
        String::from_utf8(before_file).unwrap(),
        "/*#[Warning(unwrap_used)*/\n0123456789"
    );
    assert_eq!(
        String::from_utf8(after_file).unwrap(),
        "/*#[Warning(unwrap_used)*/\nabc"
    );
}

#[test]
fn transform_pair_leaves_out_rules_outside_the_item() {
    let fixed = vec![warning("too_far", 50, 60)];
    let (before_file, after_file) = transform_pair(0, b"item", b"item2", &fixed);
    assert_eq!(before_file, b"item".to_vec());
    assert_eq!(after_file, b"item2".to_vec());
}
