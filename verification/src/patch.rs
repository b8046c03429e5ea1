//! The patch correlator: flags each span whose line range intersects a diff
//! hunk's old-file line range as touched by the patch, and confirms a
//! touched span as resolved only when no freshly reported span overlaps its
//! line range; also the per-rule reconciliation of two analyzer passes.

use vstd::prelude::*;

use crate::bytes::bytes_eq;
use crate::markup::span_views;
use crate::span::DiagnosticSpan;
use crate::span::Severity;
use crate::span::SpanView;

verus! {

/// One diff hunk's old-file line range, as the version-control collaborator
/// reports it: the first old line and the number of old lines covered.
#[derive(Clone, Copy, Debug, PartialEq, Eq, Structural)]
pub struct PatchHunk {
    pub old_start_line: usize,
    pub old_line_count: usize,
}

/// A span view with its resolved flag replaced.
pub open spec fn with_resolved(v: SpanView, resolved: bool) -> SpanView {
    SpanView {
        rule_id: v.rule_id,
        severity: v.severity,
        start_byte: v.start_byte,
        end_byte: v.end_byte,
        start_line: v.start_line,
        end_line: v.end_line,
        suggestion: v.suggestion,
        note: v.note,
        resolved,
    }
}

/// Whether a hunk's old-file line range intersects a span's line range:
/// the hunk covers the half-open old-line range from its start line over
/// its line count, and it touches the span when it starts no later than
/// the span ends and ends strictly after the span starts.
pub open spec fn hunk_touches(h: PatchHunk, s: SpanView) -> bool {
    h.old_start_line <= s.end_line && h.old_start_line + h.old_line_count > s.start_line
}

/// Whether the hunk's old-file line range intersects the span's line range.
pub fn hunk_overlaps(h: &PatchHunk, s: &DiagnosticSpan) -> (r: bool)
    ensures
        r == hunk_touches(*h, s@),
{
    h.old_start_line <= s.end_line && (h.old_start_line as u128 + h.old_line_count as u128
        > s.start_line as u128)
}

/// Whether any hunk of the patch touches the span.
pub open spec fn touched_by_any(hunks: Seq<PatchHunk>, s: SpanView) -> bool {
    exists|i: int| 0 <= i < hunks.len() && hunk_touches(#[trigger] hunks[i], s)
}

/// Whether any hunk of `hunks` touches `s`.
pub fn touched(hunks: &Vec<PatchHunk>, s: &DiagnosticSpan) -> (r: bool)
    ensures
        r == touched_by_any(hunks@, s@),
{
    let n = hunks.len();
    let mut i: usize = 0;
    while i < n
        invariant
            n == hunks@.len(),
            i <= n,
            forall|j: int| 0 <= j < i ==> !hunk_touches(#[trigger] hunks@[j], s@),
        decreases n - i,
    {
        if hunk_overlaps(&hunks[i], s) {
            return true;
        }
        i = i + 1;
    }
    false
}

/// Flag every span whose line range a hunk of the patch intersects as
/// touched: its resolved flag becomes true, every other span and every
/// other field stays as it was.
pub fn mark_touched(spans: &mut Vec<DiagnosticSpan>, hunks: &Vec<PatchHunk>)
    ensures
        final(spans)@.len() == old(spans)@.len(),
        forall|i: int|
            0 <= i < old(spans)@.len() ==> (#[trigger] final(spans)@[i])@ == with_resolved(
                old(spans)@[i]@,
                old(spans)@[i]@.resolved || touched_by_any(hunks@, old(spans)@[i]@),
            ),
{
    let ghost olds = spans@;
    let n = spans.len();
    let mut out: Vec<DiagnosticSpan> = Vec::new();
    let mut i: usize = 0;
    while i < n
        invariant
            n == olds.len(),
            spans@ == olds,
            i <= n,
            out@.len() == i,
            forall|j: int|
                0 <= j < i ==> (#[trigger] out@[j])@ == with_resolved(
                    olds[j]@,
                    olds[j]@.resolved || touched_by_any(hunks@, olds[j]@),
                ),
        decreases n - i,
    {
        let t = touched(hunks, &spans[i]);
        let mut sp = spans[i].clone();
        if t {
            sp.resolved = true;
        }
        out.push(sp);
        i = i + 1;
    }
    *spans = out;
}

/// Whether the line ranges of two spans intersect.
pub open spec fn lines_overlap(a: SpanView, b: SpanView) -> bool {
    a.start_line <= b.end_line && a.end_line >= b.start_line
}

/// Whether any freshly reported span's line range intersects the span's.
pub open spec fn any_fresh_overlap(fresh: Seq<DiagnosticSpan>, s: SpanView) -> bool {
    exists|j: int| 0 <= j < fresh.len() && lines_overlap(s, (#[trigger] fresh[j])@)
}

/// Whether any span of `fresh` overlaps `s` in lines.
pub fn overlaps_any(fresh: &Vec<DiagnosticSpan>, s: &DiagnosticSpan) -> (r: bool)
    ensures
        r == any_fresh_overlap(fresh@, s@),
{
    let n = fresh.len();
    let mut j: usize = 0;
    while j < n
        invariant
            n == fresh@.len(),
            j <= n,
            forall|l: int| 0 <= l < j ==> !lines_overlap(s@, (#[trigger] fresh@[l])@),
        decreases n - j,
    {
        if s.start_line <= fresh[j].end_line && s.end_line >= fresh[j].start_line {
            return true;
        }
        j = j + 1;
    }
    false
}

/// The confirmation pass: a touched span stays resolved only when no span
/// of the fresh analyzer report overlaps its line range; a span the patch
/// never touched stays unresolved; no other field changes. The policy is
/// deliberately conservative: any overlapping fresh diagnostic, whatever its
/// rule, withdraws the confirmation.
pub fn confirm_resolved(spans: &mut Vec<DiagnosticSpan>, fresh: &Vec<DiagnosticSpan>)
    ensures
        final(spans)@.len() == old(spans)@.len(),
        forall|i: int|
            0 <= i < old(spans)@.len() ==> (#[trigger] final(spans)@[i])@ == with_resolved(
                old(spans)@[i]@,
                old(spans)@[i]@.resolved && !any_fresh_overlap(fresh@, old(spans)@[i]@),
            ),
{
    let ghost olds = spans@;
    let n = spans.len();
    let mut out: Vec<DiagnosticSpan> = Vec::new();
    let mut i: usize = 0;
    while i < n
        invariant
            n == olds.len(),
            spans@ == olds,
            i <= n,
            out@.len() == i,
            forall|j: int|
                0 <= j < i ==> (#[trigger] out@[j])@ == with_resolved(
                    olds[j]@,
                    olds[j]@.resolved && !any_fresh_overlap(fresh@, olds[j]@),
                ),
        decreases n - i,
    {
        let mut sp = spans[i].clone();
        if sp.resolved {
            let overlap = overlaps_any(fresh, &spans[i]);
            sp.resolved = !overlap;
        }
        out.push(sp);
        i = i + 1;
    }
    *spans = out;
}

/// The first span of `fixes` carrying the same name as `w`, when one does.
pub open spec fn first_same_name(fixes: Seq<DiagnosticSpan>, w: SpanView) -> Option<SpanView>
    decreases fixes.len(),
{
    if fixes.len() == 0 {
        None
    } else if DiagnosticSpan::same_name_spec(w, fixes[0]@) {
        Some(fixes[0]@)
    } else {
        first_same_name(fixes.drop_first(), w)
    }
}

/// The warnings of `ws` that no fix-pass span shares a name with: they are
/// the ones the fix pass made disappear.
pub open spec fn fixed_of(ws: Seq<DiagnosticSpan>, fixes: Seq<DiagnosticSpan>) -> Seq<SpanView>
    decreases ws.len(),
{
    if ws.len() == 0 {
        Seq::empty()
    } else {
        fixed_of(ws.drop_last(), fixes) + (if first_same_name(fixes, ws.last()@) is None {
            seq![ws.last()@]
        } else {
            Seq::empty()
        })
    }
}

/// For each warning of `ws` that some fix-pass span shares a name with, the
/// first such span: they are the findings that remain after the fix pass.
pub open spec fn remaining_of(ws: Seq<DiagnosticSpan>, fixes: Seq<DiagnosticSpan>) -> Seq<SpanView>
    decreases ws.len(),
{
    if ws.len() == 0 {
        Seq::empty()
    } else {
        remaining_of(ws.drop_last(), fixes) + (match first_same_name(fixes, ws.last()@) {
            Some(f) => seq![f],
            None => Seq::empty(),
        })
    }
}

/// The first span of `fixes` carrying the same name as `w`, when one does.
fn find_same_name<'x>(fixes: &'x Vec<DiagnosticSpan>, w: &DiagnosticSpan) -> (r: Option<
    &'x DiagnosticSpan,
>)
    ensures
        match r {
            Some(f) => first_same_name(fixes@, w@) == Some(f@),
            None => first_same_name(fixes@, w@) is None,
        },
{
    let n = fixes.len();
    let mut j: usize = 0;
    proof {
        assert(fixes@.skip(0) =~= fixes@);
    }
    while j < n
        invariant
            n == fixes@.len(),
            j <= n,
            first_same_name(fixes@, w@) == first_same_name(fixes@.skip(j as int), w@),
        decreases n - j,
    {
        let ghost rest = fixes@.skip(j as int);
        proof {
            assert(rest[0] == fixes@[j as int]);
            assert(rest.drop_first() =~= fixes@.skip(j as int + 1));
        }
        if w.same_name(&fixes[j]) {
            return Some(&fixes[j]);
        }
        j = j + 1;
    }
    None
}

/// Reconcile two analyzer passes: partition the warnings of the first pass
/// into those the fix pass made disappear (no fix-pass span shares their
/// name) and, for each warning some fix-pass span still carries the name of,
/// the first such span, in warning order.
pub fn partition_by_name(warnings: &Vec<DiagnosticSpan>, fixes: &Vec<DiagnosticSpan>) -> (r: (
    Vec<DiagnosticSpan>,
    Vec<DiagnosticSpan>,
))
    ensures
        span_views(r.0@) == fixed_of(warnings@, fixes@),
        span_views(r.1@) == remaining_of(warnings@, fixes@),
{
    let mut gone: Vec<DiagnosticSpan> = Vec::new();
    let mut kept: Vec<DiagnosticSpan> = Vec::new();
    let n = warnings.len();
    let mut i: usize = 0;
    while i < n
        invariant
            n == warnings@.len(),
            i <= n,
            span_views(gone@) == fixed_of(warnings@.take(i as int), fixes@),
            span_views(kept@) == remaining_of(warnings@.take(i as int), fixes@),
        decreases n - i,
    {
        let ghost stepped = warnings@.take(i as int + 1);
        proof {
            assert(stepped.drop_last() =~= warnings@.take(i as int));
            assert(stepped.last() == warnings@[i as int]);
        }
        match find_same_name(fixes, &warnings[i]) {
            Some(f) => {
                let ghost prev = kept@;
                kept.push(f.clone());
                proof {
                    assert(span_views(kept@) =~= span_views(prev).push(f@));
                    assert(span_views(kept@) =~= remaining_of(stepped, fixes@));
                    assert(span_views(gone@) =~= fixed_of(stepped, fixes@));
                }
            },
            None => {
                let ghost prev = gone@;
                gone.push(warnings[i].clone());
                proof {
                    assert(span_views(gone@) =~= span_views(prev).push(warnings@[i as int]@));
                    assert(span_views(gone@) =~= fixed_of(stepped, fixes@));
                    assert(span_views(kept@) =~= remaining_of(stepped, fixes@));
                }
            },
        }
        i = i + 1;
    }
    proof {
        assert(warnings@.take(n as int) =~= warnings@);
    }
    (gone, kept)
}

/// The warnings that carry the severity and rule a single flag names.
pub open spec fn filter_rule_spec(ws: Seq<DiagnosticSpan>, rule: Seq<u8>) -> Seq<SpanView>
    decreases ws.len(),
{
    if ws.len() == 0 {
        Seq::empty()
    } else {
        filter_rule_spec(ws.drop_last(), rule) + (if ws.last()@.severity == Severity::Warning
            && ws.last()@.rule_id == rule {
            seq![ws.last()@]
        } else {
            Seq::empty()
        })
    }
}

/// The spans of one warning flag: those whose severity is `Warning` and
/// whose rule identifier is `rule`, in collection order.
pub fn filter_by_rule(spans: &Vec<DiagnosticSpan>, rule: &[u8]) -> (out: Vec<DiagnosticSpan>)
    ensures
        span_views(out@) == filter_rule_spec(spans@, rule@),
{
    let mut out: Vec<DiagnosticSpan> = Vec::new();
    let n = spans.len();
    let mut i: usize = 0;
    while i < n
        invariant
            n == spans@.len(),
            i <= n,
            span_views(out@) == filter_rule_spec(spans@.take(i as int), rule@),
        decreases n - i,
    {
        let ghost stepped = spans@.take(i as int + 1);
        proof {
            assert(stepped.drop_last() =~= spans@.take(i as int));
            assert(stepped.last() == spans@[i as int]);
        }
        let is_warning = match spans[i].severity {
            Severity::Warning => true,
            _ => false,
        };
        if is_warning && bytes_eq(spans[i].rule_id.as_slice(), rule) {
            let ghost prev = out@;
            out.push(spans[i].clone());
            proof {
                assert(span_views(out@) =~= span_views(prev).push(spans@[i as int]@));
                assert(span_views(out@) =~= filter_rule_spec(stepped, rule@));
            }
        } else {
            proof {
                assert(span_views(out@) =~= filter_rule_spec(stepped, rule@));
            }
        }
        i = i + 1;
    }
    proof {
        assert(spans@.take(n as int) =~= spans@);
    }
    out
}

/// The total number of findings over a run's files.
pub open spec fn total_spans(files: Seq<Vec<DiagnosticSpan>>) -> int
    decreases files.len(),
{
    if files.len() == 0 {
        0int
    } else {
        total_spans(files.drop_last()) + files.last()@.len()
    }
}

/// Count the findings of a whole run, file by file.
pub fn count_warnings(files: &Vec<Vec<DiagnosticSpan>>) -> (n: u128)
    ensures
        n == total_spans(files@),
{
    let mut n: u128 = 0;
    let count = files.len();
    let mut i: usize = 0;
    while i < count
        invariant
            count == files@.len(),
            i <= count,
            n == total_spans(files@.take(i as int)),
            n <= (i as int) * (usize::MAX as int),
        decreases count - i,
    {
        let ghost stepped = files@.take(i as int + 1);
        proof {
            assert(stepped.drop_last() =~= files@.take(i as int));
            assert(stepped.last() == files@[i as int]);
            assert((i as int) * (usize::MAX as int) + (usize::MAX as int) == (i as int + 1) * (
            usize::MAX as int)) by (nonlinear_arith);
            assert((i as int + 1) * (usize::MAX as int) <= (count as int) * (usize::MAX as int))
                by (nonlinear_arith)
                requires
                    i as int + 1 <= count as int,
                    usize::MAX as int >= 0,
            ;
            assert((count as int) * (usize::MAX as int) <= (usize::MAX as int) * (
            usize::MAX as int)) by (nonlinear_arith)
                requires
                    count as int <= usize::MAX as int,
                    usize::MAX as int >= 0,
            ;
            assert((usize::MAX as int) * (usize::MAX as int) < u128::MAX as int)
                by (nonlinear_arith)
                requires
                    usize::MAX as int <= u64::MAX as int,
            ;
        }
        n = n + files[i].len() as u128;
        i = i + 1;
    }
    proof {
        assert(files@.take(count as int) =~= files@);
    }
    n
}

} // verus!
