//! The syntax-tree data model: one tagged variant family over the syntax
//! kinds that the engine and its passes read, owned as plain Rust values.
//! Each type carries a mathematical model (a `Seq`-shaped mirror) that the
//! contracts of the crate quantify over.

use vstd::prelude::*;
use crate::Span;
use crate::scope::{ScopeId, SymbolId};

verus! {

/// How a use-site treats the symbol it resolves to.
#[derive(Clone, Copy, PartialEq, Eq, Structural, Debug)]
pub enum RefFlag {
    Read,
    Write,
    ReadWrite,
}

/// A use-site of a symbol, or an unresolved name; owned by the node that
/// contains the identifier use.
pub struct IdentifierReference {
    pub name: String,
    pub symbol: Option<SymbolId>,
    pub flags: RefFlag,
    pub span: Span,
}

/// A declaration site of a symbol.
pub struct BindingIdentifierNode {
    pub name: String,
    pub symbol: Option<SymbolId>,
    pub span: Span,
}

/// One formal parameter: a binding pattern with an optional default value.
pub struct Parameter {
    pub pattern: BindingIdentifierNode,
    pub init: Option<Expression>,
    pub span: Span,
}

/// An ordered list of statements forming the body of a function or arrow.
pub struct FunctionBody {
    pub statements: Vec<Statement>,
    pub span: Span,
}

/// A function declaration or expression.
pub struct Function {
    pub name: Option<BindingIdentifierNode>,
    pub is_async: bool,
    pub is_generator: bool,
    pub params: Vec<Parameter>,
    pub body: FunctionBody,
    pub scope_id: ScopeId,
    pub span: Span,
}

/// An arrow function. `expression` is true when the body was written as a
/// bare expression; the body then holds that expression as a single
/// expression statement.
pub struct ArrowFunction {
    pub is_async: bool,
    pub params: Vec<Parameter>,
    pub body: FunctionBody,
    pub expression: bool,
    pub scope_id: ScopeId,
    pub span: Span,
}

/// A call, `callee(arguments...)`.
pub struct CallExpression {
    pub callee: Expression,
    pub arguments: Vec<Expression>,
    pub optional: bool,
    pub span: Span,
}

/// A member access, `object.name` or `object[expr]`.
pub struct MemberExpression {
    pub object: Expression,
    pub property: MemberProperty,
    pub optional: bool,
    pub span: Span,
}

pub enum MemberProperty {
    StaticProp { name: String, span: Span },
    ComputedProp { expression: Box<Expression> },
}

/// One `key: value` property of an object literal.
pub struct ObjectPropertyNode {
    pub key_span: Span,
    pub value: Expression,
    pub span: Span,
}

/// The place an assignment writes to.
pub enum AssignmentTarget {
    TargetIdent(IdentifierReference),
    TargetOther { span: Span },
}

/// The identifier subset of assignment targets.
pub enum SimpleAssignmentTarget {
    SimpleIdent(IdentifierReference),
    SimpleOther { span: Span },
}

// --- element-extension (XML-like) nodes ---

pub enum JsxElementName {
    NameIdent { name: String, span: Span },
    NameOther { span: Span },
}

pub enum JsxAttributeName {
    AttrIdent { name: String, span: Span },
    AttrNamespaced { span: Span },
}

pub enum JsxAttributeValue {
    AttrString { value: String, span: Span },
    AttrContainer { expression: Box<Expression>, span: Span },
    AttrEmptyContainer { span: Span },
}

/// A named attribute, `name` or `name=value`.
pub struct JsxAttribute {
    pub name: JsxAttributeName,
    pub value: Option<JsxAttributeValue>,
    pub span: Span,
}

pub enum JsxAttributeItem {
    Attr(JsxAttribute),
    AttrSpread { argument: Box<Expression>, span: Span },
}

/// The opening tag of an element: its name and attribute list.
pub struct JsxOpeningElement {
    pub name: JsxElementName,
    pub attributes: Vec<JsxAttributeItem>,
    pub span: Span,
}

pub struct JsxElement {
    pub opening: JsxOpeningElement,
    pub children: Vec<JsxChild>,
    pub span: Span,
}

pub struct JsxFragment {
    pub opening_span: Span,
    pub children: Vec<JsxChild>,
    pub span: Span,
}

pub enum JsxChild {
    ChildElement(Box<JsxElement>),
    ChildFragment(Box<JsxFragment>),
    ChildText { span: Span },
    ChildContainer { expression: Box<Expression>, span: Span },
}

// --- expressions and statements ---

pub enum Expression {
    Ident(IdentifierReference),
    BooleanLit { value: bool, span: Span },
    NullLit { span: Span },
    NumberLit { span: Span },
    StringLit { value: String, span: Span },
    ThisExpr { span: Span },
    ArrayExpr { elements: Vec<Expression>, span: Span },
    ObjectExpr { properties: Vec<ObjectPropertyNode>, span: Span },
    CallExpr(Box<CallExpression>),
    NewExpr { callee: Box<Expression>, arguments: Vec<Expression>, span: Span },
    MemberExpr(Box<MemberExpression>),
    ArrowExpr(Box<ArrowFunction>),
    FunctionExpr(Box<Function>),
    AwaitExpr { argument: Box<Expression>, span: Span },
    YieldExpr { delegate: bool, argument: Option<Box<Expression>>, span: Span },
    LogicalExpr { left: Box<Expression>, right: Box<Expression>, span: Span },
    ConditionalExpr {
        test: Box<Expression>,
        consequent: Box<Expression>,
        alternate: Box<Expression>,
        span: Span,
    },
    AssignExpr { target: AssignmentTarget, value: Box<Expression>, span: Span },
    ParenExpr { expression: Box<Expression>, span: Span },
    Element(Box<JsxElement>),
    Fragment(Box<JsxFragment>),
    /// A syntax kind none of the passes inspects beyond walking through its
    /// expression children.
    OtherExpr { children: Vec<Expression>, span: Span },
}

pub enum Statement {
    ExpressionStmt { expression: Expression, span: Span },
    ReturnStmt { argument: Option<Expression>, span: Span },
    BlockStmt { statements: Vec<Statement>, span: Span },
    IfStmt {
        test: Expression,
        consequent: Box<Statement>,
        alternate: Option<Box<Statement>>,
        span: Span,
    },
    VariableDeclStmt { declarators: Vec<VariableDeclarator>, span: Span },
    FunctionDeclStmt(Box<Function>),
    OtherStmt { span: Span },
}

/// One `id = init` declarator of a variable declaration.
pub struct VariableDeclarator {
    pub id: BindingIdentifierNode,
    pub init: Option<Expression>,
    pub span: Span,
}

/// One whole compilation unit.
pub struct Program {
    pub statements: Vec<Statement>,
    pub scope_id: ScopeId,
    pub span: Span,
}

} // verus!
