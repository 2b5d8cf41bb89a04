//! The mathematical models of the syntax-tree types: the same shapes over
//! `Seq` and `Seq<char>`. Contracts throughout the crate are stated over
//! these models; `model()` maps each executable node to its model.

use vstd::prelude::*;
use crate::Span;
use crate::scope::{ScopeId, SymbolId};
use crate::ast::{
    RefFlag, IdentifierReference, BindingIdentifierNode, Parameter, FunctionBody, Function,
    ArrowFunction, CallExpression, MemberExpression, MemberProperty, ObjectPropertyNode,
    AssignmentTarget, SimpleAssignmentTarget, JsxElementName, JsxAttributeName,
    JsxAttributeValue, JsxAttribute, JsxAttributeItem, JsxOpeningElement, JsxElement,
    JsxFragment, JsxChild, Expression, Statement, VariableDeclarator, Program,
};

verus! {

#[verifier::ext_equal]
pub ghost struct IdentRefM {
    pub name: Seq<char>,
    pub symbol: Option<SymbolId>,
    pub flags: RefFlag,
    pub span: Span,
}

#[verifier::ext_equal]
pub ghost struct BindingIdM {
    pub name: Seq<char>,
    pub symbol: Option<SymbolId>,
    pub span: Span,
}

#[verifier::ext_equal]
pub ghost struct ParamM {
    pub pattern: BindingIdM,
    pub init: Option<ExprM>,
    pub span: Span,
}

#[verifier::ext_equal]
pub ghost struct BodyM {
    pub statements: Seq<StmtM>,
    pub span: Span,
}

#[verifier::ext_equal]
pub ghost struct FunctionM {
    pub name: Option<BindingIdM>,
    pub is_async: bool,
    pub is_generator: bool,
    pub params: Seq<ParamM>,
    pub body: BodyM,
    pub scope_id: ScopeId,
    pub span: Span,
}

#[verifier::ext_equal]
pub ghost struct ArrowM {
    pub is_async: bool,
    pub params: Seq<ParamM>,
    pub body: BodyM,
    pub expression: bool,
    pub scope_id: ScopeId,
    pub span: Span,
}

#[verifier::ext_equal]
pub ghost struct CallM {
    pub callee: Box<ExprM>,
    pub arguments: Seq<ExprM>,
    pub optional: bool,
    pub span: Span,
}

#[verifier::ext_equal]
pub ghost struct MemberM {
    pub object: Box<ExprM>,
    pub property: MemberPropM,
    pub optional: bool,
    pub span: Span,
}

#[verifier::ext_equal]
pub ghost enum MemberPropM {
    StaticProp { name: Seq<char>, span: Span },
    ComputedProp { expression: Box<ExprM> },
}

#[verifier::ext_equal]
pub ghost struct PropM {
    pub key_span: Span,
    pub value: ExprM,
    pub span: Span,
}

#[verifier::ext_equal]
pub ghost enum TargetM {
    TargetIdent(IdentRefM),
    TargetOther { span: Span },
}

#[verifier::ext_equal]
pub ghost enum SimpleTargetM {
    SimpleIdent(IdentRefM),
    SimpleOther { span: Span },
}

#[verifier::ext_equal]
pub ghost enum ElemNameM {
    NameIdent { name: Seq<char>, span: Span },
    NameOther { span: Span },
}

#[verifier::ext_equal]
pub ghost enum AttrNameM {
    AttrIdent { name: Seq<char>, span: Span },
    AttrNamespaced { span: Span },
}

#[verifier::ext_equal]
pub ghost enum AttrValueM {
    AttrString { value: Seq<char>, span: Span },
    AttrContainer { expression: Box<ExprM>, span: Span },
    AttrEmptyContainer { span: Span },
}

#[verifier::ext_equal]
pub ghost struct AttrM {
    pub name: AttrNameM,
    pub value: Option<AttrValueM>,
    pub span: Span,
}

#[verifier::ext_equal]
pub ghost enum AttrItemM {
    Attr(AttrM),
    AttrSpread { argument: Box<ExprM>, span: Span },
}

#[verifier::ext_equal]
pub ghost struct OpeningM {
    pub name: ElemNameM,
    pub attributes: Seq<AttrItemM>,
    pub span: Span,
}

#[verifier::ext_equal]
pub ghost struct ElementM {
    pub opening: OpeningM,
    pub children: Seq<ChildM>,
    pub span: Span,
}

#[verifier::ext_equal]
pub ghost struct FragmentM {
    pub opening_span: Span,
    pub children: Seq<ChildM>,
    pub span: Span,
}

#[verifier::ext_equal]
pub ghost enum ChildM {
    ChildElement(Box<ElementM>),
    ChildFragment(Box<FragmentM>),
    ChildText { span: Span },
    ChildContainer { expression: Box<ExprM>, span: Span },
}

#[verifier::ext_equal]
pub ghost enum ExprM {
    Ident(IdentRefM),
    BooleanLit { value: bool, span: Span },
    NullLit { span: Span },
    NumberLit { span: Span },
    StringLit { value: Seq<char>, span: Span },
    ThisExpr { span: Span },
    ArrayExpr { elements: Seq<ExprM>, span: Span },
    ObjectExpr { properties: Seq<PropM>, span: Span },
    CallExpr(Box<CallM>),
    NewExpr { callee: Box<ExprM>, arguments: Seq<ExprM>, span: Span },
    MemberExpr(Box<MemberM>),
    ArrowExpr(Box<ArrowM>),
    FunctionExpr(Box<FunctionM>),
    AwaitExpr { argument: Box<ExprM>, span: Span },
    YieldExpr { delegate: bool, argument: Option<Box<ExprM>>, span: Span },
    LogicalExpr { left: Box<ExprM>, right: Box<ExprM>, span: Span },
    ConditionalExpr {
        test: Box<ExprM>,
        consequent: Box<ExprM>,
        alternate: Box<ExprM>,
        span: Span,
    },
    AssignExpr { target: TargetM, value: Box<ExprM>, span: Span },
    ParenExpr { expression: Box<ExprM>, span: Span },
    Element(Box<ElementM>),
    Fragment(Box<FragmentM>),
    OtherExpr { children: Seq<ExprM>, span: Span },
}

#[verifier::ext_equal]
pub ghost enum StmtM {
    ExpressionStmt { expression: ExprM, span: Span },
    ReturnStmt { argument: Option<ExprM>, span: Span },
    BlockStmt { statements: Seq<StmtM>, span: Span },
    IfStmt {
        test: ExprM,
        consequent: Box<StmtM>,
        alternate: Option<Box<StmtM>>,
        span: Span,
    },
    VariableDeclStmt { declarators: Seq<DeclM>, span: Span },
    FunctionDeclStmt(Box<FunctionM>),
    OtherStmt { span: Span },
}

#[verifier::ext_equal]
pub ghost struct DeclM {
    pub id: BindingIdM,
    pub init: Option<ExprM>,
    pub span: Span,
}

#[verifier::ext_equal]
pub ghost struct ProgramM {
    pub statements: Seq<StmtM>,
    pub scope_id: ScopeId,
    pub span: Span,
}

// --- sequence views ---

/// The models of a sequence of expressions, in order.
pub open spec fn exprs_model(v: Seq<Expression>) -> Seq<ExprM>
    decreases v,
{
    Seq::new(v.len(), |i: int| if 0 <= i < v.len() { v[i].model() } else { arbitrary() })
}

/// The models of a sequence of statements, in order.
pub open spec fn stmts_model(v: Seq<Statement>) -> Seq<StmtM>
    decreases v,
{
    Seq::new(v.len(), |i: int| if 0 <= i < v.len() { v[i].model() } else { arbitrary() })
}

/// The models of a sequence of parameters, in order.
pub open spec fn params_model(v: Seq<Parameter>) -> Seq<ParamM>
    decreases v,
{
    Seq::new(v.len(), |i: int| if 0 <= i < v.len() { v[i].model() } else { arbitrary() })
}

/// The models of a sequence of object properties, in order.
pub open spec fn props_model(v: Seq<ObjectPropertyNode>) -> Seq<PropM>
    decreases v,
{
    Seq::new(v.len(), |i: int| if 0 <= i < v.len() { v[i].model() } else { arbitrary() })
}

/// The models of a sequence of declarators, in order.
pub open spec fn decls_model(v: Seq<VariableDeclarator>) -> Seq<DeclM>
    decreases v,
{
    Seq::new(v.len(), |i: int| if 0 <= i < v.len() { v[i].model() } else { arbitrary() })
}

/// The models of an attribute list, in order.
pub open spec fn attrs_model(v: Seq<JsxAttributeItem>) -> Seq<AttrItemM>
    decreases v,
{
    Seq::new(v.len(), |i: int| if 0 <= i < v.len() { v[i].model() } else { arbitrary() })
}

/// The models of an element-child list, in order.
pub open spec fn children_model(v: Seq<JsxChild>) -> Seq<ChildM>
    decreases v,
{
    Seq::new(v.len(), |i: int| if 0 <= i < v.len() { v[i].model() } else { arbitrary() })
}

// --- node views ---

impl IdentifierReference {
    pub open spec fn model(self) -> IdentRefM {
        IdentRefM { name: self.name@, symbol: self.symbol, flags: self.flags, span: self.span }
    }
}

impl BindingIdentifierNode {
    pub open spec fn model(self) -> BindingIdM {
        BindingIdM { name: self.name@, symbol: self.symbol, span: self.span }
    }
}

impl Parameter {
    pub open spec fn model(self) -> ParamM
        decreases self,
    {
        ParamM {
            pattern: self.pattern.model(),
            init: match self.init {
                Some(e) => Some(e.model()),
                None => None,
            },
            span: self.span,
        }
    }
}

impl FunctionBody {
    pub open spec fn model(self) -> BodyM
        decreases self,
    {
        BodyM { statements: stmts_model(self.statements@), span: self.span }
    }
}

impl Function {
    pub open spec fn model(self) -> FunctionM
        decreases self,
    {
        FunctionM {
            name: match self.name {
                Some(n) => Some(n.model()),
                None => None,
            },
            is_async: self.is_async,
            is_generator: self.is_generator,
            params: params_model(self.params@),
            body: self.body.model(),
            scope_id: self.scope_id,
            span: self.span,
        }
    }
}

impl ArrowFunction {
    pub open spec fn model(self) -> ArrowM
        decreases self,
    {
        ArrowM {
            is_async: self.is_async,
            params: params_model(self.params@),
            body: self.body.model(),
            expression: self.expression,
            scope_id: self.scope_id,
            span: self.span,
        }
    }
}

impl CallExpression {
    pub open spec fn model(self) -> CallM
        decreases self,
    {
        CallM {
            callee: Box::new(self.callee.model()),
            arguments: exprs_model(self.arguments@),
            optional: self.optional,
            span: self.span,
        }
    }
}

impl MemberExpression {
    pub open spec fn model(self) -> MemberM
        decreases self,
    {
        MemberM {
            object: Box::new(self.object.model()),
            property: self.property.model(),
            optional: self.optional,
            span: self.span,
        }
    }
}

impl MemberProperty {
    pub open spec fn model(self) -> MemberPropM
        decreases self,
    {
        match self {
            MemberProperty::StaticProp { name, span } => MemberPropM::StaticProp {
                name: name@,
                span,
            },
            MemberProperty::ComputedProp { expression } => MemberPropM::ComputedProp {
                expression: Box::new((*expression).model()),
            },
        }
    }
}

impl ObjectPropertyNode {
    pub open spec fn model(self) -> PropM
        decreases self,
    {
        PropM { key_span: self.key_span, value: self.value.model(), span: self.span }
    }
}

impl AssignmentTarget {
    pub open spec fn model(self) -> TargetM {
        match self {
            AssignmentTarget::TargetIdent(r) => TargetM::TargetIdent(r.model()),
            AssignmentTarget::TargetOther { span } => TargetM::TargetOther { span },
        }
    }
}

impl SimpleAssignmentTarget {
    pub open spec fn model(self) -> SimpleTargetM {
        match self {
            SimpleAssignmentTarget::SimpleIdent(r) => SimpleTargetM::SimpleIdent(r.model()),
            SimpleAssignmentTarget::SimpleOther { span } => SimpleTargetM::SimpleOther { span },
        }
    }
}

impl JsxElementName {
    pub open spec fn model(self) -> ElemNameM {
        match self {
            JsxElementName::NameIdent { name, span } => ElemNameM::NameIdent { name: name@, span },
            JsxElementName::NameOther { span } => ElemNameM::NameOther { span },
        }
    }
}

impl JsxAttributeName {
    pub open spec fn model(self) -> AttrNameM {
        match self {
            JsxAttributeName::AttrIdent { name, span } => AttrNameM::AttrIdent { name: name@, span },
            JsxAttributeName::AttrNamespaced { span } => AttrNameM::AttrNamespaced { span },
        }
    }
}

impl JsxAttributeValue {
    pub open spec fn model(self) -> AttrValueM
        decreases self,
    {
        match self {
            JsxAttributeValue::AttrString { value, span } => AttrValueM::AttrString {
                value: value@,
                span,
            },
            JsxAttributeValue::AttrContainer { expression, span } => AttrValueM::AttrContainer {
                expression: Box::new((*expression).model()),
                span,
            },
            JsxAttributeValue::AttrEmptyContainer { span } => AttrValueM::AttrEmptyContainer {
                span,
            },
        }
    }
}

impl JsxAttribute {
    pub open spec fn model(self) -> AttrM
        decreases self,
    {
        AttrM {
            name: self.name.model(),
            value: match self.value {
                Some(v) => Some(v.model()),
                None => None,
            },
            span: self.span,
        }
    }
}

impl JsxAttributeItem {
    pub open spec fn model(self) -> AttrItemM
        decreases self,
    {
        match self {
            JsxAttributeItem::Attr(a) => AttrItemM::Attr(a.model()),
            JsxAttributeItem::AttrSpread { argument, span } => AttrItemM::AttrSpread {
                argument: Box::new((*argument).model()),
                span,
            },
        }
    }
}

impl JsxOpeningElement {
    pub open spec fn model(self) -> OpeningM
        decreases self,
    {
        OpeningM {
            name: self.name.model(),
            attributes: attrs_model(self.attributes@),
            span: self.span,
        }
    }
}

impl JsxElement {
    pub open spec fn model(self) -> ElementM
        decreases self,
    {
        ElementM {
            opening: self.opening.model(),
            children: children_model(self.children@),
            span: self.span,
        }
    }
}

impl JsxFragment {
    pub open spec fn model(self) -> FragmentM
        decreases self,
    {
        FragmentM {
            opening_span: self.opening_span,
            children: children_model(self.children@),
            span: self.span,
        }
    }
}

impl JsxChild {
    pub open spec fn model(self) -> ChildM
        decreases self,
    {
        match self {
            JsxChild::ChildElement(e) => ChildM::ChildElement(Box::new((*e).model())),
            JsxChild::ChildFragment(f) => ChildM::ChildFragment(Box::new((*f).model())),
            JsxChild::ChildText { span } => ChildM::ChildText { span },
            JsxChild::ChildContainer { expression, span } => ChildM::ChildContainer {
                expression: Box::new((*expression).model()),
                span,
            },
        }
    }
}

impl Expression {
    pub open spec fn model(self) -> ExprM
        decreases self,
    {
        match self {
            Expression::Ident(r) => ExprM::Ident(r.model()),
            Expression::BooleanLit { value, span } => ExprM::BooleanLit { value, span },
            Expression::NullLit { span } => ExprM::NullLit { span },
            Expression::NumberLit { span } => ExprM::NumberLit { span },
            Expression::StringLit { value, span } => ExprM::StringLit { value: value@, span },
            Expression::ThisExpr { span } => ExprM::ThisExpr { span },
            Expression::ArrayExpr { elements, span } => ExprM::ArrayExpr {
                elements: exprs_model(elements@),
                span,
            },
            Expression::ObjectExpr { properties, span } => ExprM::ObjectExpr {
                properties: props_model(properties@),
                span,
            },
            Expression::CallExpr(c) => ExprM::CallExpr(Box::new((*c).model())),
            Expression::NewExpr { callee, arguments, span } => ExprM::NewExpr {
                callee: Box::new((*callee).model()),
                arguments: exprs_model(arguments@),
                span,
            },
            Expression::MemberExpr(m) => ExprM::MemberExpr(Box::new((*m).model())),
            Expression::ArrowExpr(a) => ExprM::ArrowExpr(Box::new((*a).model())),
            Expression::FunctionExpr(f) => ExprM::FunctionExpr(Box::new((*f).model())),
            Expression::AwaitExpr { argument, span } => ExprM::AwaitExpr {
                argument: Box::new((*argument).model()),
                span,
            },
            Expression::YieldExpr { delegate, argument, span } => ExprM::YieldExpr {
                delegate,
                argument: match argument {
                    Some(a) => Some(Box::new((*a).model())),
                    None => None,
                },
                span,
            },
            Expression::LogicalExpr { left, right, span } => ExprM::LogicalExpr {
                left: Box::new((*left).model()),
                right: Box::new((*right).model()),
                span,
            },
            Expression::ConditionalExpr { test, consequent, alternate, span } => {
                ExprM::ConditionalExpr {
                    test: Box::new((*test).model()),
                    consequent: Box::new((*consequent).model()),
                    alternate: Box::new((*alternate).model()),
                    span,
                }
            },
            Expression::AssignExpr { target, value, span } => ExprM::AssignExpr {
                target: target.model(),
                value: Box::new((*value).model()),
                span,
            },
            Expression::ParenExpr { expression, span } => ExprM::ParenExpr {
                expression: Box::new((*expression).model()),
                span,
            },
            Expression::Element(e) => ExprM::Element(Box::new((*e).model())),
            Expression::Fragment(f) => ExprM::Fragment(Box::new((*f).model())),
            Expression::OtherExpr { children, span } => ExprM::OtherExpr {
                children: exprs_model(children@),
                span,
            },
        }
    }
}

impl Statement {
    pub open spec fn model(self) -> StmtM
        decreases self,
    {
        match self {
            Statement::ExpressionStmt { expression, span } => StmtM::ExpressionStmt {
                expression: expression.model(),
                span,
            },
            Statement::ReturnStmt { argument, span } => StmtM::ReturnStmt {
                argument: match argument {
                    Some(a) => Some(a.model()),
                    None => None,
                },
                span,
            },
            Statement::BlockStmt { statements, span } => StmtM::BlockStmt {
                statements: stmts_model(statements@),
                span,
            },
            Statement::IfStmt { test, consequent, alternate, span } => StmtM::IfStmt {
                test: test.model(),
                consequent: Box::new((*consequent).model()),
                alternate: match alternate {
                    Some(a) => Some(Box::new((*a).model())),
                    None => None,
                },
                span,
            },
            Statement::VariableDeclStmt { declarators, span } => StmtM::VariableDeclStmt {
                declarators: decls_model(declarators@),
                span,
            },
            Statement::FunctionDeclStmt(f) => StmtM::FunctionDeclStmt(Box::new((*f).model())),
            Statement::OtherStmt { span } => StmtM::OtherStmt { span },
        }
    }
}

impl VariableDeclarator {
    pub open spec fn model(self) -> DeclM
        decreases self,
    {
        DeclM {
            id: self.id.model(),
            init: match self.init {
                Some(e) => Some(e.model()),
                None => None,
            },
            span: self.span,
        }
    }
}

impl Program {
    pub open spec fn model(self) -> ProgramM
        decreases self,
    {
        ProgramM {
            statements: stmts_model(self.statements@),
            scope_id: self.scope_id,
            span: self.span,
        }
    }
}

} // verus!
