//! The ancestor stack: the path from the tree root to the node being
//! visited, as small per-node summaries plus the slot the walk descended
//! through. Valid only during the active walk; no node holds a parent link.

use vstd::prelude::*;
use crate::Span;
use crate::ast::{Expression, MemberExpression, MemberProperty};
use crate::model::{ExprM, MemberM, MemberPropM};
use crate::binding::clone_string;

verus! {

/// Which syntactic position the walk descended through.
#[derive(Clone, Copy, PartialEq, Eq, Structural, Debug)]
pub enum Slot {
    BodySlot,
    ParamsSlot,
    CalleeSlot,
    ArgSlot,
    OtherSlot,
}

/// What an ancestor scan reads of a call along the path: the static
/// property of its unparenthesized callee, its arguments' spans, whether it
/// is the children-collection idiom, and its own span.
pub struct CallSummary {
    pub callee_prop: Option<(Span, String)>,
    pub arg_spans: Vec<Span>,
    pub children_to_array: bool,
    pub span: Span,
}

/// The model of a [`CallSummary`].
#[verifier::ext_equal]
pub ghost struct CallSummaryM {
    pub callee_prop: Option<(Span, Seq<char>)>,
    pub arg_spans: Seq<Span>,
    pub children_to_array: bool,
    pub span: Span,
}

impl CallSummary {
    pub open spec fn model(self) -> CallSummaryM {
        CallSummaryM {
            callee_prop: match self.callee_prop {
                Some((sp, n)) => Some((sp, n@)),
                None => None,
            },
            arg_spans: self.arg_spans@,
            children_to_array: self.children_to_array,
            span: self.span,
        }
    }
}

/// The summary of one ancestor node, by kind.
pub enum AncestorInfo {
    ProgramNode,
    ArrowNode { first_stmt_is_expression: bool },
    FunctionNode,
    ArrayNode,
    CallNode(CallSummary),
    ObjectPropertyNode,
    JsxElementNode,
    JsxOpeningNode,
    JsxFragmentNode,
    ReturnNode,
    ArgumentNode { span: Span },
    OtherNode,
}

/// The model of an [`AncestorInfo`].
#[verifier::ext_equal]
pub ghost enum InfoM {
    ProgramNode,
    ArrowNode { first_stmt_is_expression: bool },
    FunctionNode,
    ArrayNode,
    CallNode(CallSummaryM),
    ObjectPropertyNode,
    JsxElementNode,
    JsxOpeningNode,
    JsxFragmentNode,
    ReturnNode,
    ArgumentNode { span: Span },
    OtherNode,
}

impl AncestorInfo {
    pub open spec fn model(self) -> InfoM {
        match self {
            AncestorInfo::ProgramNode => InfoM::ProgramNode,
            AncestorInfo::ArrowNode { first_stmt_is_expression } => InfoM::ArrowNode {
                first_stmt_is_expression,
            },
            AncestorInfo::FunctionNode => InfoM::FunctionNode,
            AncestorInfo::ArrayNode => InfoM::ArrayNode,
            AncestorInfo::CallNode(c) => InfoM::CallNode(c.model()),
            AncestorInfo::ObjectPropertyNode => InfoM::ObjectPropertyNode,
            AncestorInfo::JsxElementNode => InfoM::JsxElementNode,
            AncestorInfo::JsxOpeningNode => InfoM::JsxOpeningNode,
            AncestorInfo::JsxFragmentNode => InfoM::JsxFragmentNode,
            AncestorInfo::ReturnNode => InfoM::ReturnNode,
            AncestorInfo::ArgumentNode { span } => InfoM::ArgumentNode { span },
            AncestorInfo::OtherNode => InfoM::OtherNode,
        }
    }
}

/// One ancestor: the summary of the ancestor node, and the slot the walk
/// descended through into the next node.
pub struct AncestorEntry {
    pub info: AncestorInfo,
    pub slot: Slot,
}

/// The model of an [`AncestorEntry`].
#[verifier::ext_equal]
pub ghost struct EntryM {
    pub info: InfoM,
    pub slot: Slot,
}

impl AncestorEntry {
    pub open spec fn model(self) -> EntryM {
        EntryM { info: self.info.model(), slot: self.slot }
    }
}

/// The models of an ancestor stack, bottom first.
pub open spec fn stack_model(v: Seq<AncestorEntry>) -> Seq<EntryM> {
    Seq::new(v.len(), |i: int| v[i].model())
}

// --- expression shape helpers the summaries and scans read ---

/// The source span of an expression.
pub open spec fn span_of(m: ExprM) -> Span {
    match m {
        ExprM::Ident(r) => r.span,
        ExprM::BooleanLit { span, .. } => span,
        ExprM::NullLit { span } => span,
        ExprM::NumberLit { span } => span,
        ExprM::StringLit { span, .. } => span,
        ExprM::ThisExpr { span } => span,
        ExprM::ArrayExpr { span, .. } => span,
        ExprM::ObjectExpr { span, .. } => span,
        ExprM::CallExpr(c) => c.span,
        ExprM::NewExpr { span, .. } => span,
        ExprM::MemberExpr(m2) => m2.span,
        ExprM::ArrowExpr(a) => a.span,
        ExprM::FunctionExpr(f) => f.span,
        ExprM::AwaitExpr { span, .. } => span,
        ExprM::YieldExpr { span, .. } => span,
        ExprM::LogicalExpr { span, .. } => span,
        ExprM::ConditionalExpr { span, .. } => span,
        ExprM::AssignExpr { span, .. } => span,
        ExprM::ParenExpr { span, .. } => span,
        ExprM::Element(e) => e.span,
        ExprM::Fragment(f) => f.span,
        ExprM::OtherExpr { span, .. } => span,
    }
}

/// The expression with any wrapping parentheses removed.
pub open spec fn without_parens_m(m: ExprM) -> ExprM
    decreases m,
{
    match m {
        ExprM::ParenExpr { expression, .. } => without_parens_m(*expression),
        _ => m,
    }
}

/// The member access an expression is, if it is one directly.
pub open spec fn as_member_m(m: ExprM) -> Option<MemberM> {
    match m {
        ExprM::MemberExpr(b) => Some(*b),
        _ => None,
    }
}

/// The static property of a member access: its span and name.
pub open spec fn static_prop_m(m: MemberM) -> Option<(Span, Seq<char>)> {
    match m.property {
        MemberPropM::StaticProp { name, span } => Some((span, name)),
        _ => None,
    }
}

/// The name of an identifier expression.
pub open spec fn ident_name_m(m: ExprM) -> Option<Seq<char>> {
    match m {
        ExprM::Ident(r) => Some(r.name),
        _ => None,
    }
}



impl Expression {
    /// The source span of this expression.
    pub fn span(&self) -> (r: Span)
        ensures
            r == span_of(self.model()),
    {
        match self {
            Expression::Ident(id) => id.span,
            Expression::BooleanLit { span, .. } => *span,
            Expression::NullLit { span } => *span,
            Expression::NumberLit { span } => *span,
            Expression::StringLit { span, .. } => *span,
            Expression::ThisExpr { span } => *span,
            Expression::ArrayExpr { span, .. } => *span,
            Expression::ObjectExpr { span, .. } => *span,
            Expression::CallExpr(c) => {
                proof {
                    assert(self.model() matches ExprM::CallExpr(b) && *b == (**c).model());
                }
                c.span
            },
            Expression::NewExpr { span, .. } => *span,
            Expression::MemberExpr(m) => {
                proof {
                    assert(self.model() matches ExprM::MemberExpr(b) && *b == (**m).model());
                }
                m.span
            },
            Expression::ArrowExpr(a) => {
                proof {
                    assert(self.model() matches ExprM::ArrowExpr(b) && *b == (**a).model());
                }
                a.span
            },
            Expression::FunctionExpr(f) => {
                proof {
                    assert(self.model() matches ExprM::FunctionExpr(b) && *b == (**f).model());
                }
                f.span
            },
            Expression::AwaitExpr { span, .. } => *span,
            Expression::YieldExpr { span, .. } => *span,
            Expression::LogicalExpr { span, .. } => *span,
            Expression::ConditionalExpr { span, .. } => *span,
            Expression::AssignExpr { span, .. } => *span,
            Expression::ParenExpr { span, .. } => *span,
            Expression::Element(e) => {
                proof {
                    assert(self.model() matches ExprM::Element(b) && *b == (**e).model());
                }
                e.span
            },
            Expression::Fragment(fr) => {
                proof {
                    assert(self.model() matches ExprM::Fragment(b) && *b == (**fr).model());
                }
                fr.span
            },
            Expression::OtherExpr { span, .. } => *span,
        }
    }

    /// This expression with any wrapping parentheses removed.
    pub fn without_parentheses(&self) -> (r: &Expression)
        ensures
            r.model() == without_parens_m(self.model()),
        decreases self,
    {
        match self {
            Expression::ParenExpr { expression, .. } => expression.without_parentheses(),
            _ => self,
        }
    }

    /// The member access this expression is, if it is one directly.
    pub fn as_member_expression(&self) -> (r: Option<&MemberExpression>)
        ensures
            match r {
                Some(m) => as_member_m(self.model()) == Some(m.model()),
                None => as_member_m(self.model()) is None,
            },
    {
        match self {
            Expression::MemberExpr(m) => Some(&**m),
            _ => None,
        }
    }

    /// The inner expression, with wrappers that only group removed.
    pub fn get_inner_expression(&self) -> (r: &Expression)
        ensures
            r.model() == without_parens_m(self.model()),
        decreases self,
    {
        match self {
            Expression::ParenExpr { expression, .. } => expression.get_inner_expression(),
            _ => self,
        }
    }

    /// The name of this expression when it is an identifier use.
    pub fn get_identifier_name(&self) -> (r: Option<String>)
        ensures
            match r {
                Some(n) => ident_name_m(self.model()) == Some(n@),
                None => ident_name_m(self.model()) is None,
            },
    {
        match self {
            Expression::Ident(id) => Some(clone_string(&id.name)),
            _ => None,
        }
    }
}

impl MemberExpression {
    /// The span and name of the static property, when the access is static.
    pub fn static_property_info(&self) -> (r: Option<(Span, String)>)
        ensures
            match r {
                Some((sp, n)) => static_prop_m(self.model()) == Some((sp, n@)),
                None => static_prop_m(self.model()) is None,
            },
    {
        match &self.property {
            MemberProperty::StaticProp { name, span } => Some((*span, clone_string(name))),
            _ => None,
        }
    }
}

} // verus!
