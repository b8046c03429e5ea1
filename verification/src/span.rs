//! The span model: one diagnostic finding anchored to a byte range and a line
//! range, with a severity, a rule identifier, an optional suggested
//! replacement, optional explanatory notes, and a `resolved` flag set by the
//! patch correlator.

use vstd::prelude::*;

use crate::bytes::push_bytes;
use crate::bytes::COLON;
use crate::bytes::HASH;
use crate::bytes::LEFT_BRACKET;
use crate::bytes::LEFT_PAREN;
use crate::bytes::NEWLINE;
use crate::bytes::RIGHT_PAREN;
use crate::bytes::SPACE;

verus! {

/// The severity of a finding, taken verbatim from the analyzer.
#[derive(Clone, Copy, Debug, PartialEq, Eq, Hash, Structural)]
pub enum Severity {
    Error,
    Warning,
    Note,
    Help,
    FailureNote,
    Ice,
}

/// The bytes of a severity's display label: `Error`, `Warning`, `Note`,
/// `Help`, `FailureNote` or `Ice`.
pub open spec fn severity_label(sev: Severity) -> Seq<u8> {
    match sev {
        Severity::Error => seq![69u8, 114, 114, 111, 114],
        Severity::Warning => seq![87u8, 97, 114, 110, 105, 110, 103],
        Severity::Note => seq![78u8, 111, 116, 101],
        Severity::Help => seq![72u8, 101, 108, 112],
        Severity::FailureNote => seq![70u8, 97, 105, 108, 117, 114, 101, 78, 111, 116, 101],
        Severity::Ice => seq![73u8, 99, 101],
    }
}

/// Append the display label of `sev` to `out`.
pub fn push_severity_label(out: &mut Vec<u8>, sev: Severity)
    ensures
        final(out)@ == old(out)@ + severity_label(sev),
{
    match sev {
        Severity::Error => {
            push_bytes(out, &[69u8, 114, 114, 111, 114]);
        },
        Severity::Warning => {
            push_bytes(out, &[87u8, 97, 114, 110, 105, 110, 103]);
        },
        Severity::Note => {
            push_bytes(out, &[78u8, 111, 116, 101]);
        },
        Severity::Help => {
            push_bytes(out, &[72u8, 101, 108, 112]);
        },
        Severity::FailureNote => {
            push_bytes(out, &[70u8, 97, 105, 108, 117, 114, 101, 78, 111, 116, 101]);
        },
        Severity::Ice => {
            push_bytes(out, &[73u8, 99, 101]);
        },
    }
    proof {
        assert(out@ =~= old(out)@ + severity_label(sev));
    }
}

/// The mathematical value of a [`DiagnosticSpan`].
pub ghost struct SpanView {
    pub rule_id: Seq<u8>,
    pub severity: Severity,
    pub start_byte: int,
    pub end_byte: int,
    pub start_line: int,
    pub end_line: int,
    pub suggestion: Option<Seq<u8>>,
    pub note: Option<Seq<u8>>,
    pub resolved: bool,
}

/// One diagnostic finding for one file.
///
/// `start_byte..end_byte` is the byte range the finding is anchored to;
/// `start_line..=end_line` (1-based) is used only by the patch correlator.
/// `resolved` starts out `false` and is set by the correlator's confirmation
/// pass.
#[derive(Debug)]
pub struct DiagnosticSpan {
    pub rule_id: Vec<u8>,
    pub severity: Severity,
    pub start_byte: usize,
    pub end_byte: usize,
    pub start_line: usize,
    pub end_line: usize,
    pub suggestion: Option<Vec<u8>>,
    pub note: Option<Vec<u8>>,
    pub resolved: bool,
}

impl View for DiagnosticSpan {
    type V = SpanView;

    open spec fn view(&self) -> SpanView {
        SpanView {
            rule_id: self.rule_id@,
            severity: self.severity,
            start_byte: self.start_byte as int,
            end_byte: self.end_byte as int,
            start_line: self.start_line as int,
            end_line: self.end_line as int,
            suggestion: match self.suggestion {
                Some(s) => Some(s@),
                None => None,
            },
            note: match self.note {
                Some(s) => Some(s@),
                None => None,
            },
            resolved: self.resolved,
        }
    }
}

/// The displayed name of a finding: `#[` + severity label + `(` + rule + `)`.
pub open spec fn name_spec(v: SpanView) -> Seq<u8> {
    seq![HASH, LEFT_BRACKET] + severity_label(v.severity) + seq![LEFT_PAREN] + v.rule_id + seq![
        RIGHT_PAREN,
    ]
}

impl DiagnosticSpan {
    /// A span is well formed when its byte range and line range are ordered.
    pub open spec fn wf(self) -> bool {
        self.start_byte <= self.end_byte && self.start_line <= self.end_line
    }

    /// The displayed name of this finding, e.g. `#[Warning(dubious_cast)]`
    /// without the closing bracket.
    pub fn name(&self) -> (out: Vec<u8>)
        ensures
            out@ == name_spec(self@),
    {
        let mut out: Vec<u8> = Vec::new();
        out.push(HASH);
        out.push(LEFT_BRACKET);
        push_severity_label(&mut out, self.severity);
        out.push(LEFT_PAREN);
        push_bytes(&mut out, self.rule_id.as_slice());
        out.push(RIGHT_PAREN);
        proof {
            assert(out@ =~= name_spec(self@));
        }
        out
    }

    /// Two spans denote the same finding when they agree on the rule
    /// identifier and the byte range.
    pub open spec fn same_finding_spec(a: SpanView, b: SpanView) -> bool {
        a.rule_id == b.rule_id && a.start_byte == b.start_byte && a.end_byte == b.end_byte
    }

    /// Equality of findings: by rule identifier and byte range.
    pub fn same_finding(&self, other: &DiagnosticSpan) -> (r: bool)
        ensures
            r == Self::same_finding_spec(self@, other@),
    {
        crate::bytes::bytes_eq(self.rule_id.as_slice(), other.rule_id.as_slice())
            && self.start_byte == other.start_byte && self.end_byte == other.end_byte
    }

    /// Whether two spans carry the same name, that is, the same severity and
    /// the same rule identifier.
    pub open spec fn same_name_spec(a: SpanView, b: SpanView) -> bool {
        a.severity == b.severity && a.rule_id == b.rule_id
    }

    /// Whether this span carries the same name as `other`.
    pub fn same_name(&self, other: &DiagnosticSpan) -> (r: bool)
        ensures
            r == Self::same_name_spec(self@, other@),
    {
        self.severity == other.severity && crate::bytes::bytes_eq(
            self.rule_id.as_slice(),
            other.rule_id.as_slice(),
        )
    }
}

impl Clone for DiagnosticSpan {
    /// A clone carries the same mathematical value.
    fn clone(&self) -> (r: Self)
        ensures
            r@ == self@,
    {
        DiagnosticSpan {
            rule_id: clone_bytes(&self.rule_id),
            severity: self.severity,
            start_byte: self.start_byte,
            end_byte: self.end_byte,
            start_line: self.start_line,
            end_line: self.end_line,
            suggestion: match &self.suggestion {
                Some(s) => Some(clone_bytes(s)),
                None => None,
            },
            note: match &self.note {
                Some(s) => Some(clone_bytes(s)),
                None => None,
            },
            resolved: self.resolved,
        }
    }
}

/// Copy a byte vector.
pub fn clone_bytes(v: &Vec<u8>) -> (r: Vec<u8>)
    ensures
        r@ == v@,
{
    let r = v.clone();
    proof {
        assert(r@ =~= v@);
    }
    r
}

/// One explanatory sub-message of a finding: a message and, when the analyzer
/// rendered it, the rendered text.
pub struct SubMessage {
    pub message: Vec<u8>,
    pub rendered: Option<Vec<u8>>,
}

/// The mathematical value of a [`SubMessage`].
pub ghost struct SubMessageView {
    pub message: Seq<u8>,
    pub rendered: Option<Seq<u8>>,
}

impl View for SubMessage {
    type V = SubMessageView;

    open spec fn view(&self) -> SubMessageView {
        SubMessageView {
            message: self.message@,
            rendered: match self.rendered {
                Some(r) => Some(r@),
                None => None,
            },
        }
    }
}

/// The text one sub-message contributes: `message: rendered` when rendered
/// text is available, the bare message otherwise.
pub open spec fn sub_message_text(m: SubMessageView) -> Seq<u8> {
    match m.rendered {
        Some(r) => m.message + seq![COLON, SPACE] + r,
        None => m.message,
    }
}

/// The newline-joined concatenation of the sub-message texts.
pub open spec fn sub_messages_spec(ms: Seq<SubMessageView>) -> Seq<u8>
    decreases ms.len(),
{
    if ms.len() == 0 {
        Seq::empty()
    } else if ms.len() == 1 {
        sub_message_text(ms[0])
    } else {
        sub_message_text(ms[0]) + seq![NEWLINE] + sub_messages_spec(ms.drop_first())
    }
}

/// The views of a sequence of sub-messages.
pub open spec fn sub_message_views(ms: Seq<SubMessage>) -> Seq<SubMessageView> {
    ms.map(|i: int, m: SubMessage| m@)
}

proof fn lemma_sub_messages_push(ms: Seq<SubMessageView>, x: SubMessageView)
    requires
        ms.len() >= 1,
    ensures
        sub_messages_spec(ms.push(x)) == sub_messages_spec(ms) + seq![NEWLINE] + sub_message_text(
            x,
        ),
    decreases ms.len(),
{
    if ms.len() == 1 {
        assert(ms.push(x).drop_first() =~= seq![x]);
        assert(ms.push(x)[0] == ms[0]);
        assert(sub_messages_spec(seq![x]) == sub_message_text(seq![x][0]));
        assert(seq![x][0] == x);
        assert(sub_messages_spec(ms.push(x)) =~= sub_message_text(ms[0]) + seq![NEWLINE]
            + sub_message_text(x));
    } else {
        assert(ms.push(x).drop_first() =~= ms.drop_first().push(x));
        lemma_sub_messages_push(ms.drop_first(), x);
        assert(sub_messages_spec(ms.push(x)) =~= sub_messages_spec(ms) + seq![NEWLINE]
            + sub_message_text(x));
    }
}

/// Join the explanatory sub-messages of a finding into one note: each
/// sub-message contributes its rendered text after its message when the
/// analyzer rendered it, and the contributions are joined by newlines.
pub fn sub_messages(children: &Vec<SubMessage>) -> (out: Vec<u8>)
    ensures
        out@ == sub_messages_spec(sub_message_views(children@)),
{
    let ghost views = sub_message_views(children@);
    let mut out: Vec<u8> = Vec::new();
    let n = children.len();
    let mut i: usize = 0;
    while i < n
        invariant
            n == children@.len(),
            i <= n,
            views == sub_message_views(children@),
            out@ == sub_messages_spec(views.take(i as int)),
        decreases n - i,
    {
        if i > 0 {
            out.push(NEWLINE);
        }
        match &children[i].rendered {
            Some(r) => {
                push_bytes(&mut out, children[i].message.as_slice());
                out.push(COLON);
                out.push(SPACE);
                push_bytes(&mut out, r.as_slice());
            },
            None => {
                push_bytes(&mut out, children[i].message.as_slice());
            },
        }
        proof {
            assert(views.take(i as int + 1) =~= views.take(i as int).push(views[i as int]));
            if i > 0 {
                lemma_sub_messages_push(views.take(i as int), views[i as int]);
            }
            assert(out@ =~= sub_messages_spec(views.take(i as int + 1)));
        }
        i = i + 1;
    }
    proof {
        assert(views.take(n as int) =~= views);
    }
    out
}

} // verus!
