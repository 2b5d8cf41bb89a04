//! Diagnostics: what an analysis pass emits. Immutable once emitted,
//! append-only for the duration of one pass.

use vstd::prelude::*;
use crate::Span;

verus! {

#[derive(Clone, Copy, PartialEq, Eq, Structural, Debug)]
pub enum Severity {
    Warning,
    Error,
}

/// One labelled source location of a diagnostic.
pub struct Label {
    pub span: Span,
    pub note: Option<String>,
}

/// One finding: a message, a severity, one or more labelled spans, and
/// optional help text. The first label is the primary span.
pub struct Diagnostic {
    pub message: String,
    pub severity: Severity,
    pub help: Option<String>,
    pub labels: Vec<Label>,
}

/// The model of a [`Label`].
#[verifier::ext_equal]
pub ghost struct LabelM {
    pub span: Span,
    pub note: Option<Seq<char>>,
}

/// The model of a [`Diagnostic`].
#[verifier::ext_equal]
pub ghost struct DiagM {
    pub message: Seq<char>,
    pub severity: Severity,
    pub help: Option<Seq<char>>,
    pub labels: Seq<LabelM>,
}

impl Label {
    pub open spec fn model(self) -> LabelM {
        LabelM {
            span: self.span,
            note: match self.note {
                Some(n) => Some(n@),
                None => None,
            },
        }
    }
}

impl Diagnostic {
    pub open spec fn model(self) -> DiagM {
        DiagM {
            message: self.message@,
            severity: self.severity,
            help: match self.help {
                Some(h) => Some(h@),
                None => None,
            },
            labels: Seq::new(self.labels@.len(), |i: int| self.labels@[i].model()),
        }
    }
}

/// The models of a diagnostic list, in order.
pub open spec fn diags_model(v: Seq<Diagnostic>) -> Seq<DiagM> {
    Seq::new(v.len(), |i: int| v[i].model())
}

} // verus!
