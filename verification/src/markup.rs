//! The markup compiler: renders a source byte buffer plus a collection of
//! spans into an annotated buffer, inserting inline start and end markers
//! without altering any original byte.

use vstd::prelude::*;

use crate::bytes::push_bytes;
use crate::bytes::BACKSLASH;
use crate::bytes::LOWER_N;
use crate::bytes::NEWLINE;
use crate::bytes::QUOTE;
use crate::bytes::SLASH;
use crate::bytes::STAR;
use crate::span::name_spec;
use crate::span::DiagnosticSpan;
use crate::span::SpanView;

verus! {

/// The views of a collection of spans, in collection order.
pub open spec fn span_views(spans: Seq<DiagnosticSpan>) -> Seq<SpanView> {
    spans.map(|i: int, s: DiagnosticSpan| s@)
}

/// Replace every escaped newline (a backslash followed by `n`) by a literal
/// newline byte, scanning left to right.
pub open spec fn unescape_newlines(s: Seq<u8>) -> Seq<u8>
    decreases s.len(),
{
    if s.len() == 0 {
        Seq::empty()
    } else if s.len() >= 2 && s[0] == BACKSLASH && s[1] == LOWER_N {
        seq![NEWLINE] + unescape_newlines(s.skip(2))
    } else {
        seq![s[0]] + unescape_newlines(s.skip(1))
    }
}

/// Drop every double-quote byte.
pub open spec fn strip_quotes(s: Seq<u8>) -> Seq<u8>
    decreases s.len(),
{
    if s.len() == 0 {
        Seq::empty()
    } else if s[0] == QUOTE {
        strip_quotes(s.skip(1))
    } else {
        seq![s[0]] + strip_quotes(s.skip(1))
    }
}

/// Normalized text of a suggestion or note: escaped newlines become literal
/// newlines, then quotes are removed.
pub open spec fn normalize(s: Seq<u8>) -> Seq<u8> {
    strip_quotes(unescape_newlines(s))
}

/// Turn escaped newlines of `s` into literal newline bytes.
pub fn unescape_newlines_exec(s: &[u8]) -> (out: Vec<u8>)
    ensures
        out@ == unescape_newlines(s@),
{
    let n = s.len();
    let mut out: Vec<u8> = Vec::new();
    let mut i: usize = 0;
    proof {
        assert(s@.skip(0) =~= s@);
        assert(out@ + unescape_newlines(s@) =~= unescape_newlines(s@));
    }
    while i < n
        invariant
            n == s@.len(),
            i <= n,
            unescape_newlines(s@) == out@ + unescape_newlines(s@.skip(i as int)),
        decreases n - i,
    {
        let ghost rest = s@.skip(i as int);
        if s[i] == BACKSLASH && i + 1 < n && s[i + 1] == LOWER_N {
            out.push(NEWLINE);
            proof {
                assert(rest[0] == s@[i as int] && rest[1] == s@[i as int + 1]);
                assert(rest.skip(2) =~= s@.skip(i as int + 2));
                assert(unescape_newlines(rest) == seq![NEWLINE] + unescape_newlines(
                    s@.skip(i as int + 2),
                ));
            }
            i = i + 2;
        } else {
            out.push(s[i]);
            proof {
                assert(rest[0] == s@[i as int]);
                assert(rest.skip(1) =~= s@.skip(i as int + 1));
                if rest.len() >= 2 && rest[0] == BACKSLASH && rest[1] == LOWER_N {
                    assert(false);
                }
                assert(unescape_newlines(rest) == seq![s@[i as int]] + unescape_newlines(
                    s@.skip(i as int + 1),
                ));
            }
            i = i + 1;
        }
    }
    proof {
        assert(s@.skip(n as int) =~= Seq::<u8>::empty());
        assert(out@ =~= unescape_newlines(s@));
    }
    out
}

/// Remove every double-quote byte of `s`.
pub fn strip_quotes_exec(s: &[u8]) -> (out: Vec<u8>)
    ensures
        out@ == strip_quotes(s@),
{
    let n = s.len();
    let mut out: Vec<u8> = Vec::new();
    let mut i: usize = 0;
    proof {
        assert(s@.skip(0) =~= s@);
        assert(out@ + strip_quotes(s@) =~= strip_quotes(s@));
    }
    while i < n
        invariant
            n == s@.len(),
            i <= n,
            strip_quotes(s@) == out@ + strip_quotes(s@.skip(i as int)),
        decreases n - i,
    {
        let ghost rest = s@.skip(i as int);
        proof {
            assert(rest[0] == s@[i as int]);
            assert(rest.skip(1) =~= s@.skip(i as int + 1));
        }
        if s[i] != QUOTE {
            out.push(s[i]);
        }
        i = i + 1;
    }
    proof {
        assert(s@.skip(n as int) =~= Seq::<u8>::empty());
        assert(out@ =~= strip_quotes(s@));
    }
    out
}

/// Normalize suggestion or note text for display inside a closing marker.
pub fn normalize_exec(s: &[u8]) -> (out: Vec<u8>)
    ensures
        out@ == normalize(s@),
{
    let t = unescape_newlines_exec(s);
    strip_quotes_exec(t.as_slice())
}

/// The opening marker of a span: `/*` + name + `*/`.
pub open spec fn open_marker(v: SpanView) -> Seq<u8> {
    seq![SLASH, STAR] + name_spec(v) + seq![STAR, SLASH]
}

/// The bytes of `\nsuggestion: `.
pub open spec fn suggestion_heading() -> Seq<u8> {
    seq![NEWLINE, 115u8, 117, 103, 103, 101, 115, 116, 105, 111, 110, 58, 32]
}

/// The bytes of `\nnote: `.
pub open spec fn note_heading() -> Seq<u8> {
    seq![NEWLINE, 110u8, 111, 116, 101, 58, 32]
}

/// What a span's suggestion contributes to its closing marker.
pub open spec fn suggestion_part(v: SpanView) -> Seq<u8> {
    match v.suggestion {
        Some(s) => suggestion_heading() + normalize(s),
        None => Seq::empty(),
    }
}

/// What a span's note contributes to its closing marker.
pub open spec fn note_part(v: SpanView) -> Seq<u8> {
    match v.note {
        Some(s) => note_heading() + normalize(s),
        None => Seq::empty(),
    }
}

/// The closing marker of a span: `/*`, a newline, the name, the normalized
/// suggestion and note when present, then `*/`.
pub open spec fn close_marker(v: SpanView) -> Seq<u8> {
    seq![SLASH, STAR, NEWLINE] + name_spec(v) + suggestion_part(v) + note_part(v) + seq![
        STAR,
        SLASH,
    ]
}

/// What one span contributes to the marker block preceding byte `i`: its
/// opening marker exactly at its start (when the span is not empty), its
/// closing marker exactly at its end.
pub open spec fn contribution(v: SpanView, i: int) -> Seq<u8> {
    (if v.start_byte == i && i < v.end_byte {
        open_marker(v)
    } else {
        Seq::empty()
    }) + (if v.end_byte == i {
        close_marker(v)
    } else {
        Seq::empty()
    })
}

/// The contributions of the first `j` spans at byte `i`, in collection order.
pub open spec fn block_prefix(spans: Seq<SpanView>, j: int, i: int) -> Seq<u8>
    decreases j,
{
    if j <= 0 {
        Seq::empty()
    } else {
        block_prefix(spans, j - 1, i) + contribution(spans[j - 1], i)
    }
}

/// The whole marker block inserted immediately before byte `i`.
pub open spec fn marker_block(spans: Seq<SpanView>, i: int) -> Seq<u8> {
    block_prefix(spans, spans.len() as int, i)
}

/// The markup of the first `n` source bytes: before each byte stands its
/// marker block, and every source byte is kept unchanged, in order.
pub open spec fn markup_prefix(src: Seq<u8>, spans: Seq<SpanView>, n: int) -> Seq<u8>
    decreases n,
{
    if n <= 0 {
        Seq::empty()
    } else {
        markup_prefix(src, spans, n - 1) + marker_block(spans, n - 1) + seq![src[n - 1]]
    }
}

/// The markup of a whole source buffer.
pub open spec fn markup_spec(src: Seq<u8>, spans: Seq<SpanView>) -> Seq<u8> {
    markup_prefix(src, spans, src.len() as int)
}

/// Append the opening marker of `sp` to `out`.
fn emit_open(out: &mut Vec<u8>, sp: &DiagnosticSpan)
    ensures
        final(out)@ == old(out)@ + open_marker(sp@),
{
    out.push(SLASH);
    out.push(STAR);
    let nm = sp.name();
    push_bytes(out, nm.as_slice());
    out.push(STAR);
    out.push(SLASH);
    proof {
        assert(out@ =~= old(out)@ + open_marker(sp@));
    }
}

/// Append the closing marker of `sp` to `out`.
fn emit_close(out: &mut Vec<u8>, sp: &DiagnosticSpan)
    ensures
        final(out)@ == old(out)@ + close_marker(sp@),
{
    out.push(SLASH);
    out.push(STAR);
    out.push(NEWLINE);
    let nm = sp.name();
    push_bytes(out, nm.as_slice());
    match &sp.suggestion {
        Some(s) => {
            // "\nsuggestion: "
            push_bytes(out, &[10u8, 115, 117, 103, 103, 101, 115, 116, 105, 111, 110, 58, 32]);
            let t = normalize_exec(s.as_slice());
            push_bytes(out, t.as_slice());
        },
        None => {},
    }
    match &sp.note {
        Some(s) => {
            // "\nnote: "
            push_bytes(out, &[10u8, 110, 111, 116, 101, 58, 32]);
            let t = normalize_exec(s.as_slice());
            push_bytes(out, t.as_slice());
        },
        None => {},
    }
    out.push(STAR);
    out.push(SLASH);
    proof {
        assert(out@ =~= old(out)@ + close_marker(sp@));
    }
}

/// Insert the diagnostic markers of `map` into `source`: before each source
/// byte stand, in collection order, the opening markers of the spans starting
/// there and the closing markers of the spans ending there; every original
/// byte is kept unchanged and in order.
pub fn markup(source: &[u8], map: &Vec<DiagnosticSpan>) -> (out: Vec<u8>)
    ensures
        out@ == markup_spec(source@, span_views(map@)),
{
    let ghost views = span_views(map@);
    let mut out: Vec<u8> = Vec::new();
    let n = source.len();
    let mut i: usize = 0;
    while i < n
        invariant
            n == source@.len(),
            i <= n,
            views == span_views(map@),
            out@ == markup_prefix(source@, views, i as int),
        decreases n - i,
    {
        let m = map.len();
        let mut j: usize = 0;
        while j < m
            invariant
                n == source@.len(),
                i < n,
                m == map@.len(),
                j <= m,
                views == span_views(map@),
                out@ == markup_prefix(source@, views, i as int) + block_prefix(
                    views,
                    j as int,
                    i as int,
                ),
            decreases m - j,
        {
            let sp = &map[j];
            proof {
                assert(views[j as int] == sp@);
            }
            if sp.start_byte == i && i < sp.end_byte {
                emit_open(&mut out, sp);
            }
            if sp.end_byte == i {
                emit_close(&mut out, sp);
            }
            proof {
                assert(block_prefix(views, j as int + 1, i as int) == block_prefix(
                    views,
                    j as int,
                    i as int,
                ) + contribution(views[j as int], i as int));
                assert(out@ =~= markup_prefix(source@, views, i as int) + block_prefix(
                    views,
                    j as int + 1,
                    i as int,
                ));
            }
            j = j + 1;
        }
        out.push(source[i]);
        proof {
            assert(out@ =~= markup_prefix(source@, views, i as int + 1));
        }
        i = i + 1;
    }
    out
}

/// The opening markers, each followed by a newline, of the first `j` spans
/// whose byte range lies fully inside `[start, end]`.
pub open spec fn rules_prefix(spans: Seq<SpanView>, j: int, start: int, end: int) -> Seq<u8>
    decreases j,
{
    if j <= 0 {
        Seq::empty()
    } else {
        rules_prefix(spans, j - 1, start, end) + (if start <= spans[j - 1].start_byte && spans[j
            - 1].end_byte <= end {
            open_marker(spans[j - 1]) + seq![NEWLINE]
        } else {
            Seq::empty()
        })
    }
}

/// The rules comment block for the byte range `[start, end]`.
pub open spec fn rules_spec(spans: Seq<SpanView>, start: int, end: int) -> Seq<u8> {
    rules_prefix(spans, spans.len() as int, start, end)
}

/// List, one comment line each, the names of the spans whose byte range lies
/// fully inside `[start, end]`, in collection order.
pub fn markup_rules(start: usize, end: usize, map: &Vec<DiagnosticSpan>) -> (out: Vec<u8>)
    ensures
        out@ == rules_spec(span_views(map@), start as int, end as int),
{
    let ghost views = span_views(map@);
    let mut out: Vec<u8> = Vec::new();
    let m = map.len();
    let mut j: usize = 0;
    while j < m
        invariant
            m == map@.len(),
            j <= m,
            views == span_views(map@),
            out@ == rules_prefix(views, j as int, start as int, end as int),
        decreases m - j,
    {
        let sp = &map[j];
        proof {
            assert(views[j as int] == sp@);
        }
        if start <= sp.start_byte && sp.end_byte <= end {
            emit_open(&mut out, sp);
            out.push(NEWLINE);
        }
        proof {
            assert(out@ =~= rules_prefix(views, j as int + 1, start as int, end as int));
        }
        j = j + 1;
    }
    out
}

/// Whether `needle` occurs as a contiguous run of bytes inside `hay`.
pub open spec fn contains_seq(hay: Seq<u8>, needle: Seq<u8>) -> bool {
    exists|k: int|
        0 <= k && k + needle.len() <= hay.len() && #[trigger] hay.subrange(k, k + needle.len())
            == needle
}

proof fn lemma_contains_concat_left(a: Seq<u8>, b: Seq<u8>, needle: Seq<u8>)
    requires
        contains_seq(a, needle),
    ensures
        contains_seq(a + b, needle),
{
    let k = choose|k: int|
        0 <= k && k + needle.len() <= a.len() && #[trigger] a.subrange(k, k + needle.len())
            == needle;
    assert((a + b).subrange(k, k + needle.len() as int) =~= a.subrange(k, k + needle.len() as int));
}

proof fn lemma_block_contains_contribution(spans: Seq<SpanView>, j: int, l: int, i: int)
    requires
        0 <= j < l <= spans.len(),
        contribution(spans[j], i).len() > 0,
    ensures
        contains_seq(block_prefix(spans, l, i), contribution(spans[j], i)),
    decreases l,
{
    if l == j + 1 {
        let a = block_prefix(spans, j, i);
        let c = contribution(spans[j], i);
        assert((a + c).subrange(a.len() as int, a.len() + c.len() as int) =~= c);
    } else {
        lemma_block_contains_contribution(spans, j, l - 1, i);
        lemma_contains_concat_left(
            block_prefix(spans, l - 1, i),
            contribution(spans[l - 1], i),
            contribution(spans[j], i),
        );
    }
}

/// Marker placement: in the marker block standing immediately before byte
/// `i`, a span starting at `i` (and not empty) has its opening marker as a
/// contiguous run, and a span ending at `i` has its closing marker as a
/// contiguous run, even when spans overlap or nest.
pub proof fn lemma_marker_placement(spans: Seq<SpanView>, j: int, i: int)
    requires
        0 <= j < spans.len(),
    ensures
        spans[j].start_byte == i && i < spans[j].end_byte ==> contains_seq(
            marker_block(spans, i),
            open_marker(spans[j]),
        ),
        spans[j].end_byte == i ==> contains_seq(marker_block(spans, i), close_marker(spans[j])),
{
    let c = contribution(spans[j], i);
    if spans[j].start_byte == i && i < spans[j].end_byte {
        assert(c =~= open_marker(spans[j]));
        lemma_block_contains_contribution(spans, j, spans.len() as int, i);
    }
    if spans[j].end_byte == i {
        assert(c =~= close_marker(spans[j]));
        lemma_block_contains_contribution(spans, j, spans.len() as int, i);
    }
}

/// Markup round-trip: the markup output is exactly the concatenation, over
/// the source bytes in order, of the inserted marker block followed by the
/// original byte; with every inserted marker block removed, the blocks
/// flatten back to the source itself. Stripping the inserted markers from the
/// output therefore reproduces the source exactly, for every input, including
/// an empty span collection.
pub proof fn lemma_markup_round_trip(src: Seq<u8>, spans: Seq<SpanView>)
    ensures
        markup_spec(src, spans) == Seq::new(
            src.len(),
            |i: int| marker_block(spans, i) + seq![src[i]],
        ).flatten(),
        Seq::new(src.len(), |i: int| seq![src[i]]).flatten() == src,
{
    lemma_markup_prefix_flatten(src, spans, src.len() as int);
    lemma_bytes_flatten(src, src.len() as int);
    assert(Seq::new(src.len(), |i: int| seq![src[i]]).flatten() =~= src);
}

proof fn lemma_markup_prefix_flatten(src: Seq<u8>, spans: Seq<SpanView>, n: int)
    requires
        0 <= n <= src.len(),
    ensures
        markup_prefix(src, spans, n) == Seq::new(
            n as nat,
            |i: int| marker_block(spans, i) + seq![src[i]],
        ).flatten(),
    decreases n,
{
    let f = |i: int| marker_block(spans, i) + seq![src[i]];
    if n == 0 {
        assert(Seq::new(0, f).flatten() =~= Seq::<u8>::empty());
    } else {
        lemma_markup_prefix_flatten(src, spans, n - 1);
        let prev = Seq::new((n - 1) as nat, f);
        assert(Seq::new(n as nat, f) =~= prev.push(f(n - 1)));
        prev.lemma_flatten_push(f(n - 1));
        assert(markup_prefix(src, spans, n) =~= prev.flatten() + f(n - 1));
    }
}

proof fn lemma_bytes_flatten(src: Seq<u8>, n: int)
    requires
        0 <= n <= src.len(),
    ensures
        Seq::new(n as nat, |i: int| seq![src[i]]).flatten() == src.take(n),
    decreases n,
{
    let f = |i: int| seq![src[i]];
    if n == 0 {
        assert(Seq::new(0, f).flatten() =~= src.take(0));
    } else {
        lemma_bytes_flatten(src, n - 1);
        let prev = Seq::new((n - 1) as nat, f);
        assert(Seq::new(n as nat, f) =~= prev.push(f(n - 1)));
        prev.lemma_flatten_push(f(n - 1));
        assert(prev.flatten() + f(n - 1) =~= src.take(n));
    }
}

} // verus!
