//! The lowering pass: suspend/resume (async) functions are rewritten into
//! restartable-step form. On exit of a suspend-capable function or arrow,
//! its body is moved into a fresh inner stepped (generator) function and the
//! outer body becomes a single return of a runtime-helper call; a suspend
//! expression whose nearest enclosing function boundary is a body becomes a
//! step-yield on exit. Exits run bottom-up, so parents always observe
//! fully-transformed children.

use vstd::prelude::*;
use crate::Span;
use crate::ast::{Expression, Statement, Function, ArrowFunction, FunctionBody, CallExpression,
    MemberExpression, MemberProperty, IdentifierReference, RefFlag, Parameter,
    VariableDeclarator, ObjectPropertyNode, JsxElement, JsxOpeningElement, JsxFragment, JsxChild,
    JsxAttribute, JsxAttributeItem, JsxAttributeValue, Program};
use crate::model::{ExprM, StmtM, FunctionM, ArrowM, BodyM, CallM, MemberM, MemberPropM,
    IdentRefM, ParamM, DeclM, PropM, ElementM, OpeningM, FragmentM, ChildM, AttrItemM, AttrM,
    AttrValueM, ProgramM, stmts_model, params_model};
use crate::ancestry::{AncestorEntry, AncestorInfo, EntryM, InfoM, Slot, stack_model};
use crate::scope::{ScopeTree, ScopeId, SymbolId};

verus! {

/// The slot of the nearest enclosing function boundary: none (top level),
/// a parameter position, or the body.
#[derive(Clone, Copy, PartialEq, Eq, Structural, Debug)]
pub enum FnCtx {
    TopCtx,
    ParamsCtx,
    BodyCtx,
}

/// The boundary context an ancestor stack encodes, searching outward from
/// the node: the slot of the nearest enclosing function or arrow entry, or
/// the top level when no function boundary encloses the node at all.
pub open spec fn boundary_from(stack: Seq<EntryM>, i: int) -> FnCtx
    decreases i + 1,
{
    if i < 0 || i >= stack.len() {
        FnCtx::TopCtx
    } else {
        match stack[i].info {
            InfoM::FunctionNode => if stack[i].slot == Slot::BodySlot {
                FnCtx::BodyCtx
            } else {
                FnCtx::ParamsCtx
            },
            InfoM::ArrowNode { .. } => if stack[i].slot == Slot::BodySlot {
                FnCtx::BodyCtx
            } else {
                FnCtx::ParamsCtx
            },
            _ => boundary_from(stack, i - 1),
        }
    }
}

/// The boundary context of the whole stack.
pub open spec fn boundary_ctx(stack: Seq<EntryM>) -> FnCtx {
    boundary_from(stack, stack.len() - 1)
}

/// Searches the ancestor stack outward for the nearest enclosing function
/// or arrow boundary and reads which of its slots the node sits in: the
/// body (where a suspend point converts), a parameter position, or no
/// boundary at all (top level, never rewritten).
pub fn boundary_of(stack: &Vec<AncestorEntry>) -> (r: FnCtx)
    ensures
        r == boundary_ctx(stack_model(stack@)),
{
    let mut i: usize = stack.len();
    while i > 0
        invariant
            i <= stack@.len(),
            boundary_ctx(stack_model(stack@)) == boundary_from(stack_model(stack@), i - 1),
        decreases i,
    {
        let k = i - 1;
        proof {
            assert(stack_model(stack@)[k as int] == stack@[k as int].model());
        }
        match &stack[k].info {
            AncestorInfo::FunctionNode => {
                if stack[k].slot == Slot::BodySlot {
                    return FnCtx::BodyCtx;
                } else {
                    return FnCtx::ParamsCtx;
                }
            },
            AncestorInfo::ArrowNode { .. } => {
                if stack[k].slot == Slot::BodySlot {
                    return FnCtx::BodyCtx;
                } else {
                    return FnCtx::ParamsCtx;
                }
            },
            _ => {},
        }
        i = k;
    }
    FnCtx::TopCtx
}

/// The reference minted for the runtime helper's receiver object: resolved
/// through the scope chain by conventional name, or left unresolved (the
/// global fallback). Both are valid references.
pub open spec fn helper_object_m(resolved: Option<SymbolId>) -> IdentRefM {
    IdentRefM {
        name: "babelHelpers"@,
        symbol: resolved,
        flags: RefFlag::Read,
        span: Span { start: 0, end: 0 },
    }
}

/// The helper callee, `babelHelpers.asyncToGenerator`.
pub open spec fn helper_callee_m(resolved: Option<SymbolId>) -> ExprM {
    ExprM::MemberExpr(
        Box::new(
            MemberM {
                object: Box::new(ExprM::Ident(helper_object_m(resolved))),
                property: MemberPropM::StaticProp {
                    name: "asyncToGenerator"@,
                    span: Span { start: 0, end: 0 },
                },
                optional: false,
                span: Span { start: 0, end: 0 },
            },
        ),
    )
}

/// The wrapper call: the helper applied to the captured receiver context, a
/// null placeholder (the reserved slot), and the inner stepped function.
pub open spec fn wrapper_call_m(resolved: Option<SymbolId>, inner: ExprM) -> ExprM {
    ExprM::CallExpr(
        Box::new(
            CallM {
                callee: Box::new(helper_callee_m(resolved)),
                arguments: seq![
                    ExprM::ThisExpr { span: Span { start: 0, end: 0 } },
                    ExprM::NullLit { span: Span { start: 0, end: 0 } },
                    inner,
                ],
                optional: false,
                span: Span { start: 0, end: 0 },
            },
        ),
    )
}

/// A body holding one return of the wrapper call.
pub open spec fn wrapper_body_m(resolved: Option<SymbolId>, inner: ExprM) -> BodyM {
    BodyM {
        statements: seq![
            StmtM::ReturnStmt {
                argument: Some(wrapper_call_m(resolved, inner)),
                span: Span { start: 0, end: 0 },
            },
        ],
        span: Span { start: 0, end: 0 },
    }
}

/// The suspend-point step: a suspend expression whose nearest enclosing
/// function boundary is a body becomes a step-yield of its operand;
/// anywhere else it is left untouched.
pub open spec fn await_step_m(m: ExprM, ctx: FnCtx) -> ExprM {
    match m {
        ExprM::AwaitExpr { argument, .. } => if ctx == FnCtx::BodyCtx {
            ExprM::YieldExpr {
                delegate: false,
                argument: Some(argument),
                span: Span { start: 0, end: 0 },
            }
        } else {
            m
        },
        _ => m,
    }
}

/// The function-level step, on a function whose children are already
/// transformed: a suspend-capable function becomes a sync function whose
/// body is one return of the wrapper call around the inner stepped form of
/// its old body; any other function is untouched.
pub open spec fn function_step_m(f: FunctionM, resolved: Option<SymbolId>) -> FunctionM {
    if f.is_async {
        FunctionM {
            name: f.name,
            is_async: false,
            is_generator: f.is_generator,
            params: f.params,
            body: wrapper_body_m(resolved, ExprM::FunctionExpr(Box::new(inner_function_m(f)))),
            scope_id: f.scope_id,
            span: f.span,
        }
    } else {
        f
    }
}

/// The inner stepped function: anonymous, non-suspending but steppable,
/// with no parameters of its own and the outer function's old body.
pub open spec fn inner_function_m(f: FunctionM) -> FunctionM {
    FunctionM {
        name: None,
        is_async: false,
        is_generator: true,
        params: Seq::empty(),
        body: f.body,
        scope_id: f.scope_id,
        span: f.span,
    }
}

/// The arrow-level step: the call is installed as the arrow's new body,
/// preserving its implicit-return shape.
pub open spec fn arrow_step_m(a: ArrowM, resolved: Option<SymbolId>) -> ArrowM {
    if a.is_async {
        ArrowM {
            is_async: false,
            params: a.params,
            body: BodyM {
                statements: seq![
                    StmtM::ExpressionStmt {
                        expression: wrapper_call_m(
                            resolved,
                            ExprM::ArrowExpr(Box::new(inner_arrow_m(a))),
                        ),
                        span: Span { start: 0, end: 0 },
                    },
                ],
                span: Span { start: 0, end: 0 },
            },
            expression: true,
            scope_id: a.scope_id,
            span: a.span,
        }
    } else {
        a
    }
}

/// The inner stepped arrow: non-suspending, with no parameters of its own
/// and the outer arrow's old body and shape.
pub open spec fn inner_arrow_m(a: ArrowM) -> ArrowM {
    ArrowM {
        is_async: false,
        params: Seq::empty(),
        body: a.body,
        expression: a.expression,
        scope_id: a.scope_id,
        span: a.span,
    }
}

/// The helper symbol the scope chain yields for a function's own scope, or
/// none: an unknown scope, like an unbound name, falls back to the
/// unresolved global reference.
pub open spec fn helper_symbol(t: ScopeTree, s: ScopeId) -> Option<SymbolId> {
    if s < t.scopes@.len() {
        t.resolve(s, "babelHelpers"@)
    } else {
        None
    }
}

// --- the whole lowering, composed bottom-up over one tree ---

/// One expression after the lowering pass: children first (exits run
/// bottom-up), then the suspend-point transition at this node. The boundary
/// context changes only at function and arrow boundaries.
pub open spec fn lower_expr_m(e: ExprM, ctx: FnCtx, t: ScopeTree) -> ExprM
    decreases e, 1int,
{
    match e {
        ExprM::AwaitExpr { argument, span } => await_step_m(
            ExprM::AwaitExpr { argument: Box::new(lower_expr_m(*argument, ctx, t)), span },
            ctx,
        ),
        ExprM::FunctionExpr(f) => ExprM::FunctionExpr(Box::new(lower_function_m(*f, t))),
        ExprM::ArrowExpr(a) => ExprM::ArrowExpr(Box::new(lower_arrow_m(*a, t))),
        ExprM::CallExpr(c) => ExprM::CallExpr(Box::new(lower_call_m(*c, ctx, t))),
        ExprM::MemberExpr(m) => ExprM::MemberExpr(Box::new(lower_member_m(*m, ctx, t))),
        ExprM::ArrayExpr { elements, span } => ExprM::ArrayExpr {
            elements: lower_exprs_m(elements, ctx, t),
            span,
        },
        ExprM::ObjectExpr { properties, span } => ExprM::ObjectExpr {
            properties: lower_props_m(properties, ctx, t),
            span,
        },
        ExprM::NewExpr { callee, arguments, span } => ExprM::NewExpr {
            callee: Box::new(lower_expr_m(*callee, ctx, t)),
            arguments: lower_exprs_m(arguments, ctx, t),
            span,
        },
        ExprM::YieldExpr { delegate, argument, span } => ExprM::YieldExpr {
            delegate,
            argument: match argument {
                Some(a) => Some(Box::new(lower_expr_m(*a, ctx, t))),
                None => None,
            },
            span,
        },
        ExprM::LogicalExpr { left, right, span } => ExprM::LogicalExpr {
            left: Box::new(lower_expr_m(*left, ctx, t)),
            right: Box::new(lower_expr_m(*right, ctx, t)),
            span,
        },
        ExprM::ConditionalExpr { test, consequent, alternate, span } => ExprM::ConditionalExpr {
            test: Box::new(lower_expr_m(*test, ctx, t)),
            consequent: Box::new(lower_expr_m(*consequent, ctx, t)),
            alternate: Box::new(lower_expr_m(*alternate, ctx, t)),
            span,
        },
        ExprM::AssignExpr { target, value, span } => ExprM::AssignExpr {
            target,
            value: Box::new(lower_expr_m(*value, ctx, t)),
            span,
        },
        ExprM::ParenExpr { expression, span } => ExprM::ParenExpr {
            expression: Box::new(lower_expr_m(*expression, ctx, t)),
            span,
        },
        ExprM::Element(el) => ExprM::Element(Box::new(lower_element_m(*el, ctx, t))),
        ExprM::Fragment(fr) => ExprM::Fragment(Box::new(lower_fragment_m(*fr, ctx, t))),
        ExprM::OtherExpr { children, span } => ExprM::OtherExpr {
            children: lower_exprs_m(children, ctx, t),
            span,
        },
        _ => e,
    }
}

/// A sequence of expressions after the lowering, pointwise.
pub open spec fn lower_exprs_m(es: Seq<ExprM>, ctx: FnCtx, t: ScopeTree) -> Seq<ExprM>
    decreases es, 0int,
{
    Seq::new(
        es.len(),
        |i: int| if 0 <= i < es.len() {
            lower_expr_m(es[i], ctx, t)
        } else {
            arbitrary()
        },
    )
}

/// A call after the lowering: callee and arguments.
pub open spec fn lower_call_m(c: CallM, ctx: FnCtx, t: ScopeTree) -> CallM
    decreases c, 0int,
{
    CallM {
        callee: Box::new(lower_expr_m(*c.callee, ctx, t)),
        arguments: lower_exprs_m(c.arguments, ctx, t),
        optional: c.optional,
        span: c.span,
    }
}

/// A member access after the lowering: its object and any computed
/// property.
pub open spec fn lower_member_m(m: MemberM, ctx: FnCtx, t: ScopeTree) -> MemberM
    decreases m, 0int,
{
    MemberM {
        object: Box::new(lower_expr_m(*m.object, ctx, t)),
        property: match m.property {
            MemberPropM::ComputedProp { expression } => MemberPropM::ComputedProp {
                expression: Box::new(lower_expr_m(*expression, ctx, t)),
            },
            MemberPropM::StaticProp { name, span } => MemberPropM::StaticProp { name, span },
        },
        optional: m.optional,
        span: m.span,
    }
}

/// Object properties after the lowering, pointwise over their values.
pub open spec fn lower_props_m(ps: Seq<PropM>, ctx: FnCtx, t: ScopeTree) -> Seq<PropM>
    decreases ps, 1int,
{
    Seq::new(
        ps.len(),
        |i: int| if 0 <= i < ps.len() {
            PropM {
                key_span: ps[i].key_span,
                value: lower_expr_m(ps[i].value, ctx, t),
                span: ps[i].span,
            }
        } else {
            arbitrary()
        },
    )
}

/// One statement after the lowering.
pub open spec fn lower_stmt_m(s: StmtM, ctx: FnCtx, t: ScopeTree) -> StmtM
    decreases s, 2int,
{
    match s {
        StmtM::ExpressionStmt { expression, span } => StmtM::ExpressionStmt {
            expression: lower_expr_m(expression, ctx, t),
            span,
        },
        StmtM::ReturnStmt { argument, span } => StmtM::ReturnStmt {
            argument: match argument {
                Some(a) => Some(lower_expr_m(a, ctx, t)),
                None => None,
            },
            span,
        },
        StmtM::BlockStmt { statements, span } => StmtM::BlockStmt {
            statements: lower_stmts_m(statements, ctx, t),
            span,
        },
        StmtM::IfStmt { test, consequent, alternate, span } => StmtM::IfStmt {
            test: lower_expr_m(test, ctx, t),
            consequent: Box::new(lower_stmt_m(*consequent, ctx, t)),
            alternate: match alternate {
                Some(alt) => Some(Box::new(lower_stmt_m(*alt, ctx, t))),
                None => None,
            },
            span,
        },
        StmtM::VariableDeclStmt { declarators, span } => StmtM::VariableDeclStmt {
            declarators: lower_decls_m(declarators, ctx, t),
            span,
        },
        StmtM::FunctionDeclStmt(f) => StmtM::FunctionDeclStmt(Box::new(lower_function_m(*f, t))),
        StmtM::OtherStmt { span } => StmtM::OtherStmt { span },
    }
}

/// A sequence of statements after the lowering, pointwise.
pub open spec fn lower_stmts_m(ss: Seq<StmtM>, ctx: FnCtx, t: ScopeTree) -> Seq<StmtM>
    decreases ss, 0int,
{
    Seq::new(
        ss.len(),
        |i: int| if 0 <= i < ss.len() {
            lower_stmt_m(ss[i], ctx, t)
        } else {
            arbitrary()
        },
    )
}

/// Declarators after the lowering, pointwise over their initializers.
pub open spec fn lower_decls_m(ds: Seq<DeclM>, ctx: FnCtx, t: ScopeTree) -> Seq<DeclM>
    decreases ds, 1int,
{
    Seq::new(
        ds.len(),
        |i: int| if 0 <= i < ds.len() {
            DeclM {
                id: ds[i].id,
                init: match ds[i].init {
                    Some(e) => Some(lower_expr_m(e, ctx, t)),
                    None => None,
                },
                span: ds[i].span,
            }
        } else {
            arbitrary()
        },
    )
}

/// A body after the lowering, under the given boundary context.
pub open spec fn lower_body_m(b: BodyM, ctx: FnCtx, t: ScopeTree) -> BodyM
    decreases b, 1int,
{
    BodyM { statements: lower_stmts_m(b.statements, ctx, t), span: b.span }
}

/// Parameters after the lowering: each default value sits in a parameter
/// position of its function, never in a body.
pub open spec fn lower_params_m(ps: Seq<ParamM>, t: ScopeTree) -> Seq<ParamM>
    decreases ps, 2int,
{
    Seq::new(
        ps.len(),
        |i: int| if 0 <= i < ps.len() {
            ParamM {
                pattern: ps[i].pattern,
                init: match ps[i].init {
                    Some(e) => Some(lower_expr_m(e, FnCtx::ParamsCtx, t)),
                    None => None,
                },
                span: ps[i].span,
            }
        } else {
            arbitrary()
        },
    )
}

/// A function after the lowering: parameters under the parameter context,
/// the body under the body context (so its suspend points convert), then
/// the function transition on the result — exits run bottom-up.
pub open spec fn lower_function_m(f: FunctionM, t: ScopeTree) -> FunctionM
    decreases f, 3int,
{
    function_step_m(
        FunctionM {
            name: f.name,
            is_async: f.is_async,
            is_generator: f.is_generator,
            params: lower_params_m(f.params, t),
            body: lower_body_m(f.body, FnCtx::BodyCtx, t),
            scope_id: f.scope_id,
            span: f.span,
        },
        helper_symbol(t, f.scope_id),
    )
}

/// An arrow after the lowering, as [`lower_function_m`].
pub open spec fn lower_arrow_m(a: ArrowM, t: ScopeTree) -> ArrowM
    decreases a, 3int,
{
    arrow_step_m(
        ArrowM {
            is_async: a.is_async,
            params: lower_params_m(a.params, t),
            body: lower_body_m(a.body, FnCtx::BodyCtx, t),
            expression: a.expression,
            scope_id: a.scope_id,
            span: a.span,
        },
        helper_symbol(t, a.scope_id),
    )
}

/// An element after the lowering: its attribute expressions and children.
pub open spec fn lower_element_m(el: ElementM, ctx: FnCtx, t: ScopeTree) -> ElementM
    decreases el, 3int,
{
    ElementM {
        opening: OpeningM {
            name: el.opening.name,
            attributes: lower_attrs_m(el.opening.attributes, ctx, t),
            span: el.opening.span,
        },
        children: lower_children_m(el.children, ctx, t),
        span: el.span,
    }
}

/// Attribute items after the lowering, pointwise over contained
/// expressions.
pub open spec fn lower_attrs_m(ats: Seq<AttrItemM>, ctx: FnCtx, t: ScopeTree) -> Seq<AttrItemM>
    decreases ats, 2int,
{
    Seq::new(
        ats.len(),
        |i: int| if 0 <= i < ats.len() {
            lower_attr_m(ats[i], ctx, t)
        } else {
            arbitrary()
        },
    )
}

/// One attribute item after the lowering.
pub open spec fn lower_attr_m(at: AttrItemM, ctx: FnCtx, t: ScopeTree) -> AttrItemM
    decreases at, 1int,
{
    match at {
        AttrItemM::Attr(a) => AttrItemM::Attr(
            AttrM {
                name: a.name,
                value: match a.value {
                    Some(AttrValueM::AttrContainer { expression, span }) => Some(
                        AttrValueM::AttrContainer {
                            expression: Box::new(lower_expr_m(*expression, ctx, t)),
                            span,
                        },
                    ),
                    other => other,
                },
                span: a.span,
            },
        ),
        AttrItemM::AttrSpread { argument, span } => AttrItemM::AttrSpread {
            argument: Box::new(lower_expr_m(*argument, ctx, t)),
            span,
        },
    }
}

/// Element children after the lowering, pointwise.
pub open spec fn lower_children_m(cs: Seq<ChildM>, ctx: FnCtx, t: ScopeTree) -> Seq<ChildM>
    decreases cs, 2int,
{
    Seq::new(
        cs.len(),
        |i: int| if 0 <= i < cs.len() {
            lower_child_m(cs[i], ctx, t)
        } else {
            arbitrary()
        },
    )
}

/// One element child after the lowering.
pub open spec fn lower_child_m(c: ChildM, ctx: FnCtx, t: ScopeTree) -> ChildM
    decreases c, 4int,
{
    match c {
        ChildM::ChildElement(el) => ChildM::ChildElement(Box::new(lower_element_m(*el, ctx, t))),
        ChildM::ChildFragment(fr) => ChildM::ChildFragment(
            Box::new(lower_fragment_m(*fr, ctx, t)),
        ),
        ChildM::ChildContainer { expression, span } => ChildM::ChildContainer {
            expression: Box::new(lower_expr_m(*expression, ctx, t)),
            span,
        },
        ChildM::ChildText { span } => ChildM::ChildText { span },
    }
}

/// A fragment after the lowering.
pub open spec fn lower_fragment_m(fr: FragmentM, ctx: FnCtx, t: ScopeTree) -> FragmentM
    decreases fr, 3int,
{
    FragmentM {
        opening_span: fr.opening_span,
        children: lower_children_m(fr.children, ctx, t),
        span: fr.span,
    }
}

/// The whole unit after the lowering: its statements at the top level,
/// where a suspend point is never rewritten.
pub open spec fn lower_program_m(p: ProgramM, t: ScopeTree) -> ProgramM {
    ProgramM {
        statements: lower_stmts_m(p.statements, FnCtx::TopCtx, t),
        scope_id: p.scope_id,
        span: p.span,
    }
}

// --- idempotence of the transitions ---

/// A transformed suspend point is never converted again: at any one
/// boundary context, applying the step twice is applying it once.
pub proof fn lemma_await_step_idempotent(m: ExprM, c: FnCtx)
    ensures
        await_step_m(await_step_m(m, c), c) == await_step_m(m, c),
{
}

/// A rewritten function is sync, so running the function transition on its
/// own output changes nothing, whatever the helper now resolves to.
pub proof fn lemma_function_step_idempotent(
    f: FunctionM,
    r1: Option<SymbolId>,
    r2: Option<SymbolId>,
)
    ensures
        !function_step_m(f, r1).is_async,
        function_step_m(function_step_m(f, r1), r2) == function_step_m(f, r1),
{
}

/// A rewritten arrow is sync, so running the arrow transition on its own
/// output changes nothing; and the inner stepped function it carries is
/// itself no longer suspend-capable.
pub proof fn lemma_arrow_step_idempotent(a: ArrowM, r1: Option<SymbolId>, r2: Option<SymbolId>)
    ensures
        !arrow_step_m(a, r1).is_async,
        arrow_step_m(arrow_step_m(a, r1), r2) == arrow_step_m(a, r1),
        !inner_arrow_m(a).is_async,
        !inner_function_m(arbitrary::<FunctionM>()).is_async,
{
}

// --- the pass itself ---

/// The suspend/resume lowering pass.
pub struct AsyncToGenerator;

impl AsyncToGenerator {
    /// A fresh instance of the pass; it keeps no state between nodes.
    pub fn new() -> (r: AsyncToGenerator)
        ensures
            true,
    {
        AsyncToGenerator
    }

    /// Builds the helper callee: the conventional helper name resolved
    /// through the scope chain (or left unresolved, the global fallback),
    /// under the property the runtime exposes.
    pub fn get_helper_callee(symbol_id: Option<SymbolId>) -> (r: Expression)
        ensures
            r.model() == helper_callee_m(symbol_id),
    {
        let ident = IdentifierReference {
            name: "babelHelpers".to_owned(),
            symbol: symbol_id,
            flags: RefFlag::Read,
            span: Span::synthetic(),
        };
        let object = Expression::Ident(ident);
        let member = MemberExpression {
            object,
            property: MemberProperty::StaticProp {
                name: "asyncToGenerator".to_owned(),
                span: Span::synthetic(),
            },
            optional: false,
            span: Span::synthetic(),
        };
        let r = Expression::MemberExpr(Box::new(member));
        proof {
            assert(r.model() matches ExprM::MemberExpr(b) && *b == member.model());
            assert(member.model().object == Box::new(ExprM::Ident(helper_object_m(symbol_id))));
            assert(member.model() =~= (MemberM {
                object: Box::new(ExprM::Ident(helper_object_m(symbol_id))),
                property: MemberPropM::StaticProp {
                    name: "asyncToGenerator"@,
                    span: Span { start: 0, end: 0 },
                },
                optional: false,
                span: Span { start: 0, end: 0 },
            }));
            assert(r.model() =~= helper_callee_m(symbol_id));
        }
        r
    }

    /// The suspend-point transition, fired on exit of every expression:
    /// converts a suspend expression to a step-yield only when the nearest
    /// enclosing function boundary is a body.
    pub fn exit_expression(&self, e: Expression, ctx: FnCtx) -> (r: Expression)
        ensures
            r.model() == await_step_m(e.model(), ctx),
    {
        match e {
            Expression::AwaitExpr { argument, span } => {
                if ctx == FnCtx::BodyCtx {
                    Expression::YieldExpr {
                        delegate: false,
                        argument: Some(argument),
                        span: Span::synthetic(),
                    }
                } else {
                    Expression::AwaitExpr { argument, span }
                }
            },
            other => other,
        }
    }

    /// The function transition, fired on exit of every function, after its
    /// children are fully transformed.
    pub fn exit_function(&self, f: Function, scopes: &ScopeTree) -> (r: Function)
        requires
            scopes.wf(),
        ensures
            r.model() == function_step_m(f.model(), helper_symbol(*scopes, f.scope_id)),
    {
        let ghost f0 = f;
        if !f.is_async {
            return f;
        }
        let resolved = if f.scope_id < scopes.scopes.len() {
            scopes.find_binding(f.scope_id, "babelHelpers")
        } else {
            None
        };
        let Function { name, is_async: _, is_generator, params, body, scope_id, span } = f;
        let inner = Function {
            name: None,
            is_async: false,
            is_generator: true,
            params: Vec::new(),
            body,
            scope_id,
            span,
        };
        let ghost inner0 = inner;
        let callee = Self::get_helper_callee(resolved);
        let mut arguments: Vec<Expression> = Vec::new();
        arguments.push(Expression::ThisExpr { span: Span::synthetic() });
        arguments.push(Expression::NullLit { span: Span::synthetic() });
        arguments.push(Expression::FunctionExpr(Box::new(inner)));
        let call_inner = CallExpression {
            callee,
            arguments,
            optional: false,
            span: Span::synthetic(),
        };
        let ghost ci0 = call_inner;
        let call = Expression::CallExpr(Box::new(call_inner));
        let ghost call0 = call;
        let mut statements: Vec<Statement> = Vec::new();
        statements.push(Statement::ReturnStmt { argument: Some(call), span: Span::synthetic() });
        let new_body = FunctionBody { statements, span: Span::synthetic() };
        let r = Function {
            name,
            is_async: false,
            is_generator,
            params,
            body: new_body,
            scope_id,
            span,
        };
        proof {
            let rs = helper_symbol(*scopes, scope_id);
            let goal = function_step_m(f0.model(), rs);
            let inner_goal = ExprM::FunctionExpr(Box::new(inner_function_m(f0.model())));
            let wrap = wrapper_call_m(rs, inner_goal);
            assert(inner0.model().params =~= inner_function_m(f0.model()).params);
            assert(inner0.model().body == f0.model().body);
            assert(inner0.model() =~= inner_function_m(f0.model()));
            assert(ci0.model().arguments.len() == 3);
            assert(ci0.model().arguments[0] == ci0.arguments@[0].model());
            assert(ci0.model().arguments[1] == ci0.arguments@[1].model());
            assert(ci0.model().arguments[2] == ci0.arguments@[2].model());
            assert(ci0.arguments@[0].model() == ExprM::ThisExpr {
                span: Span { start: 0, end: 0 },
            });
            assert(ci0.arguments@[1].model() == ExprM::NullLit {
                span: Span { start: 0, end: 0 },
            });
            assert(ci0.model().arguments[2] == inner_goal);
            assert(ci0.model().arguments =~= wrap->CallExpr_0.arguments);
            assert(ci0.model() =~= *wrap->CallExpr_0);
            assert(call0.model() matches ExprM::CallExpr(cb) && *cb == ci0.model());
            assert(call0.model() == wrap);
            assert(r.model().body.statements =~= goal.body.statements);
            assert(r.model().body =~= goal.body);
            assert(r.model().params == f0.model().params);
            assert(r.model() =~= goal);
        }
        r
    }

    /// The arrow transition, fired on exit of every arrow, after its
    /// children are fully transformed.
    pub fn exit_arrow_function(&self, a: ArrowFunction, scopes: &ScopeTree) -> (r: ArrowFunction)
        requires
            scopes.wf(),
        ensures
            r.model() == arrow_step_m(a.model(), helper_symbol(*scopes, a.scope_id)),
    {
        let ghost a0 = a;
        if !a.is_async {
            return a;
        }
        let resolved = if a.scope_id < scopes.scopes.len() {
            scopes.find_binding(a.scope_id, "babelHelpers")
        } else {
            None
        };
        let ArrowFunction { is_async: _, params, body, expression, scope_id, span } = a;
        let inner = ArrowFunction {
            is_async: false,
            params: Vec::new(),
            body,
            expression,
            scope_id,
            span,
        };
        let ghost inner0 = inner;
        let callee = Self::get_helper_callee(resolved);
        let mut arguments: Vec<Expression> = Vec::new();
        arguments.push(Expression::ThisExpr { span: Span::synthetic() });
        arguments.push(Expression::NullLit { span: Span::synthetic() });
        arguments.push(Expression::ArrowExpr(Box::new(inner)));
        let call_inner = CallExpression {
            callee,
            arguments,
            optional: false,
            span: Span::synthetic(),
        };
        let ghost ci0 = call_inner;
        let call = Expression::CallExpr(Box::new(call_inner));
        let ghost call0 = call;
        let mut statements: Vec<Statement> = Vec::new();
        statements.push(Statement::ExpressionStmt {
            expression: call,
            span: Span::synthetic(),
        });
        let new_body = FunctionBody { statements, span: Span::synthetic() };
        let r = ArrowFunction {
            is_async: false,
            params,
            body: new_body,
            expression: true,
            scope_id,
            span,
        };
        proof {
            let rs = helper_symbol(*scopes, scope_id);
            let goal = arrow_step_m(a0.model(), rs);
            let inner_goal = ExprM::ArrowExpr(Box::new(inner_arrow_m(a0.model())));
            let wrap = wrapper_call_m(rs, inner_goal);
            assert(inner0.model().params =~= inner_arrow_m(a0.model()).params);
            assert(inner0.model().body == a0.model().body);
            assert(inner0.model() =~= inner_arrow_m(a0.model()));
            assert(ci0.model().arguments.len() == 3);
            assert(ci0.model().arguments[0] == ci0.arguments@[0].model());
            assert(ci0.model().arguments[1] == ci0.arguments@[1].model());
            assert(ci0.model().arguments[2] == ci0.arguments@[2].model());
            assert(ci0.arguments@[0].model() == ExprM::ThisExpr {
                span: Span { start: 0, end: 0 },
            });
            assert(ci0.arguments@[1].model() == ExprM::NullLit {
                span: Span { start: 0, end: 0 },
            });
            assert(ci0.model().arguments[2] == inner_goal);
            assert(ci0.model().arguments =~= wrap->CallExpr_0.arguments);
            assert(ci0.model() =~= *wrap->CallExpr_0);
            assert(call0.model() matches ExprM::CallExpr(cb) && *cb == ci0.model());
            assert(call0.model() == wrap);
            assert(r.model().body.statements =~= goal.body.statements);
            assert(r.model().body =~= goal.body);
            assert(r.model().params == a0.model().params);
            assert(r.model() =~= goal);
        }
        r
    }
}


// --- the pass's own walk: one exclusive depth-first rewrite ---

impl AsyncToGenerator {
    /// Walks one expression bottom-up, replacing each node on exit: children
    /// first, then the suspend-point transition at this node. `ctx` is the
    /// boundary context the node's ancestor stack encodes (see
    /// [`boundary_of`]).
    #[verifier::loop_isolation(false)]
    #[verifier::rlimit(100)]
    pub fn lower_expression(&self, e: Expression, ctx: FnCtx, scopes: &ScopeTree) -> (r:
        Expression)
        requires
            scopes.wf(),
        ensures
            r.model() == lower_expr_m(e.model(), ctx, *scopes),
        decreases e,
    {
        let ghost e0 = e;
        match e {
            Expression::AwaitExpr { argument, span } => {
                proof {
                    assert(e0.model() matches ExprM::AwaitExpr { argument: b, .. }
                        && *b == (*argument).model());
                    assert(decreases_to!(e0 => e0->AwaitExpr_argument));
                }
                let inner = self.lower_expression(*argument, ctx, scopes);
                let rebuilt = Expression::AwaitExpr { argument: Box::new(inner), span };
                let r = self.exit_expression(rebuilt, ctx);
                proof {
                    assert(rebuilt.model() matches ExprM::AwaitExpr { argument: b2, .. }
                        && *b2 == inner.model());
                    assert(rebuilt.model() == ExprM::AwaitExpr {
                        argument: Box::new(lower_expr_m((*e0->AwaitExpr_argument).model(), ctx, *scopes)),
                        span,
                    });
                }
                r
            },
            Expression::FunctionExpr(f) => {
                proof {
                    assert(e0.model() matches ExprM::FunctionExpr(b) && *b == (*f).model());
                    assert(decreases_to!(e0 => e0->FunctionExpr_0));
                }
                let f2 = self.lower_function(*f, scopes);
                let r = Expression::FunctionExpr(Box::new(f2));
                proof {
                    assert(r.model() matches ExprM::FunctionExpr(b2) && *b2 == f2.model());
                }
                r
            },
            Expression::ArrowExpr(a) => {
                proof {
                    assert(e0.model() matches ExprM::ArrowExpr(b) && *b == (*a).model());
                    assert(decreases_to!(e0 => e0->ArrowExpr_0));
                }
                let a2 = self.lower_arrow(*a, scopes);
                let r = Expression::ArrowExpr(Box::new(a2));
                proof {
                    assert(r.model() matches ExprM::ArrowExpr(b2) && *b2 == a2.model());
                }
                r
            },
            Expression::CallExpr(c) => {
                proof {
                    assert(e0.model() matches ExprM::CallExpr(b) && *b == (*c).model());
                    assert(decreases_to!(e0 => e0->CallExpr_0));
                }
                let ghost c0 = *c;
                let CallExpression { callee, arguments, optional, span } = *c;
                proof {
                    assert(decreases_to!(e0->CallExpr_0 => (*e0->CallExpr_0).callee));
                    assert(decreases_to!(e0 => (*e0->CallExpr_0).callee));
                }
                let callee2 = self.lower_expression(callee, ctx, scopes);
                let mut v = arguments;
                let ghost v0 = v;
                let mut i: usize = 0;
                while i < v.len()
                    invariant
                        scopes.wf(),
                        v@.len() == v0@.len(),
                        c0.arguments == v0,
                        e0 == Expression::CallExpr(Box::new(c0)),
                        forall|j: int| i <= j < v@.len() ==> v@[j] == v0@[j],
                        forall|j: int| 0 <= j < i ==> #[trigger] v@[j].model() == lower_expr_m(
                            v0@[j].model(),
                            ctx,
                            *scopes,
                        ),
                    decreases v@.len() - i,
                {
                    let x = v.remove(i);
                    proof {
                        assert(x == (*e0->CallExpr_0).arguments@[i as int]);
                        assert(decreases_to!(e0 => e0->CallExpr_0));
                        assert(decreases_to!(e0->CallExpr_0 =>
                            (*e0->CallExpr_0).arguments));
                        assert(decreases_to!((*e0->CallExpr_0).arguments =>
                            (*e0->CallExpr_0).arguments@[i as int]));
                        assert(decreases_to!(e0 => x));
                    }
                    let x2 = self.lower_expression(x, ctx, scopes);
                    v.insert(i, x2);
                    i = i + 1;
                }
                let rebuilt = CallExpression { callee: callee2, arguments: v, optional, span };
                let r = Expression::CallExpr(Box::new(rebuilt));
                proof {
                    let goal = lower_call_m(c0.model(), ctx, *scopes);
                    assert(rebuilt.model().arguments.len() == goal.arguments.len());
                    assert forall|k: int| 0 <= k < goal.arguments.len()
                        implies rebuilt.model().arguments[k] == goal.arguments[k] by {
                        assert(rebuilt.model().arguments[k] == v@[k].model());
                        assert(c0.model().arguments[k] == v0@[k].model());
                    }
                    assert(rebuilt.model().arguments =~= goal.arguments);
                    assert(rebuilt.model() =~= goal);
                    assert(r.model() matches ExprM::CallExpr(b2) && *b2 == rebuilt.model());
                }
                r
            },
            Expression::NewExpr { callee, arguments, span } => {
                proof {
                    assert(e0.model() matches ExprM::NewExpr { callee: b, arguments: am, .. }
                        && *b == (*callee).model()
                        && am == crate::model::exprs_model(arguments@));
                    assert(decreases_to!(e0 => e0->NewExpr_callee));
                }
                let callee2 = self.lower_expression(*callee, ctx, scopes);
                let mut v = arguments;
                let ghost v0 = v;
                let mut i: usize = 0;
                while i < v.len()
                    invariant
                        scopes.wf(),
                        v@.len() == v0@.len(),
                        e0->NewExpr_arguments == v0,
                        e0 is NewExpr,
                        forall|j: int| i <= j < v@.len() ==> v@[j] == v0@[j],
                        forall|j: int| 0 <= j < i ==> #[trigger] v@[j].model() == lower_expr_m(
                            v0@[j].model(),
                            ctx,
                            *scopes,
                        ),
                    decreases v@.len() - i,
                {
                    let x = v.remove(i);
                    proof {
                        assert(x == e0->NewExpr_arguments@[i as int]);
                        assert(decreases_to!(e0 => e0->NewExpr_arguments));
                        assert(decreases_to!(e0->NewExpr_arguments =>
                            e0->NewExpr_arguments@[i as int]));
                        assert(decreases_to!(e0 => x));
                    }
                    let x2 = self.lower_expression(x, ctx, scopes);
                    v.insert(i, x2);
                    i = i + 1;
                }
                let r = Expression::NewExpr { callee: Box::new(callee2), arguments: v, span };
                proof {
                    let goal = lower_expr_m(e0.model(), ctx, *scopes);
                    assert(e0.model() matches ExprM::NewExpr { arguments: am2, .. }
                        && am2 == crate::model::exprs_model(v0@));
                    assert(goal matches ExprM::NewExpr { arguments: ga, .. }
                        && ga == lower_exprs_m(crate::model::exprs_model(v0@), ctx, *scopes));
                    assert(r.model() matches ExprM::NewExpr { arguments: ra, .. } && ra
                        == crate::model::exprs_model(v@));
                    assert forall|k: int| 0 <= k < v@.len()
                        implies crate::model::exprs_model(v@)[k] == lower_exprs_m(
                        crate::model::exprs_model(v0@),
                        ctx,
                        *scopes,
                    )[k] by {
                        assert(crate::model::exprs_model(v@)[k] == v@[k].model());
                        assert(crate::model::exprs_model(v0@)[k] == v0@[k].model());
                    }
                    assert(crate::model::exprs_model(v@) =~= lower_exprs_m(
                        crate::model::exprs_model(v0@),
                        ctx,
                        *scopes,
                    ));
                    assert(r.model() =~= goal);
                }
                r
            },
            Expression::ArrayExpr { elements, span } => {
                let mut v = elements;
                let ghost v0 = v;
                let mut i: usize = 0;
                while i < v.len()
                    invariant
                        scopes.wf(),
                        v@.len() == v0@.len(),
                        e0 == (Expression::ArrayExpr { elements: v0, span }),
                        forall|j: int| i <= j < v@.len() ==> v@[j] == v0@[j],
                        forall|j: int| 0 <= j < i ==> #[trigger] v@[j].model() == lower_expr_m(
                            v0@[j].model(),
                            ctx,
                            *scopes,
                        ),
                    decreases v@.len() - i,
                {
                    let x = v.remove(i);
                    proof {
                        assert(x == e0->ArrayExpr_elements@[i as int]);
                        assert(decreases_to!(e0 => e0->ArrayExpr_elements));
                        assert(decreases_to!(e0->ArrayExpr_elements =>
                            e0->ArrayExpr_elements@[i as int]));
                        assert(decreases_to!(e0 => x));
                    }
                    let x2 = self.lower_expression(x, ctx, scopes);
                    v.insert(i, x2);
                    i = i + 1;
                }
                let r = Expression::ArrayExpr { elements: v, span };
                proof {
                    let goal = lower_expr_m(e0.model(), ctx, *scopes);
                    assert(e0.model() matches ExprM::ArrayExpr { elements: em2, .. }
                        && em2 == crate::model::exprs_model(v0@));
                    assert(goal matches ExprM::ArrayExpr { elements: ga, .. }
                        && ga == lower_exprs_m(crate::model::exprs_model(v0@), ctx, *scopes));
                    assert(r.model() matches ExprM::ArrayExpr { elements: ra, .. } && ra
                        == crate::model::exprs_model(v@));
                    assert forall|k: int| 0 <= k < v@.len()
                        implies crate::model::exprs_model(v@)[k] == lower_exprs_m(
                        crate::model::exprs_model(v0@),
                        ctx,
                        *scopes,
                    )[k] by {
                        assert(crate::model::exprs_model(v@)[k] == v@[k].model());
                        assert(crate::model::exprs_model(v0@)[k] == v0@[k].model());
                    }
                    assert(crate::model::exprs_model(v@) =~= lower_exprs_m(
                        crate::model::exprs_model(v0@),
                        ctx,
                        *scopes,
                    ));
                    assert(r.model() =~= goal);
                }
                r
            },
            Expression::ObjectExpr { properties, span } => {
                let mut v = properties;
                let ghost v0 = v;
                let mut i: usize = 0;
                while i < v.len()
                    invariant
                        scopes.wf(),
                        v@.len() == v0@.len(),
                        e0 == (Expression::ObjectExpr { properties: v0, span }),
                        forall|j: int| i <= j < v@.len() ==> v@[j] == v0@[j],
                        forall|j: int| 0 <= j < i ==> #[trigger] v@[j].model() == (PropM {
                            key_span: v0@[j].model().key_span,
                            value: lower_expr_m(v0@[j].model().value, ctx, *scopes),
                            span: v0@[j].model().span,
                        }),
                    decreases v@.len() - i,
                {
                    let x = v.remove(i);
                    proof {
                        assert(x == e0->ObjectExpr_properties@[i as int]);
                        assert(decreases_to!(e0 => e0->ObjectExpr_properties));
                        assert(decreases_to!(e0->ObjectExpr_properties =>
                            e0->ObjectExpr_properties@[i as int]));
                        assert(decreases_to!(e0->ObjectExpr_properties@[i as int] =>
                            e0->ObjectExpr_properties@[i as int].value));
                    }
                    let ObjectPropertyNode { key_span, value, span: pspan } = x;
                    proof {
                        assert(decreases_to!(e0 => value));
                    }
                    let value2 = self.lower_expression(value, ctx, scopes);
                    v.insert(i, ObjectPropertyNode { key_span, value: value2, span: pspan });
                    i = i + 1;
                }
                let r = Expression::ObjectExpr { properties: v, span };
                proof {
                    let goal = lower_expr_m(e0.model(), ctx, *scopes);
                    assert(e0.model() matches ExprM::ObjectExpr { properties: pm2, .. }
                        && pm2 == crate::model::props_model(v0@));
                    assert(goal matches ExprM::ObjectExpr { properties: gp, .. }
                        && gp == lower_props_m(crate::model::props_model(v0@), ctx, *scopes));
                    assert(r.model() matches ExprM::ObjectExpr { properties: rp, .. } && rp
                        == crate::model::props_model(v@));
                    assert forall|k: int| 0 <= k < v@.len()
                        implies crate::model::props_model(v@)[k] == lower_props_m(
                        crate::model::props_model(v0@),
                        ctx,
                        *scopes,
                    )[k] by {
                        assert(crate::model::props_model(v@)[k] == v@[k].model());
                        assert(crate::model::props_model(v0@)[k] == v0@[k].model());
                    }
                    assert(crate::model::props_model(v@) =~= lower_props_m(
                        crate::model::props_model(v0@),
                        ctx,
                        *scopes,
                    ));
                    assert(r.model() =~= goal);
                }
                r
            },
            Expression::MemberExpr(m) => {
                proof {
                    assert(e0.model() matches ExprM::MemberExpr(b) && *b == (*m).model());
                    assert(decreases_to!(e0 => e0->MemberExpr_0));
                }
                let ghost m0 = *m;
                let MemberExpression { object, property, optional, span } = *m;
                proof {
                    assert(decreases_to!(e0->MemberExpr_0 => (*e0->MemberExpr_0).object));
                    assert(decreases_to!(e0 => (*e0->MemberExpr_0).object));
                }
                let object2 = self.lower_expression(object, ctx, scopes);
                let property2 = match property {
                    MemberProperty::ComputedProp { expression } => {
                        proof {
                            assert(m0.model().property matches MemberPropM::ComputedProp {
                                expression: b,
                            } && *b == (*expression).model());
                            assert(decreases_to!(e0->MemberExpr_0 =>
                                (*e0->MemberExpr_0).property));
                            assert(decreases_to!((*e0->MemberExpr_0).property =>
                                (*e0->MemberExpr_0).property->ComputedProp_expression));
                            assert(decreases_to!(e0 =>
                                (*e0->MemberExpr_0).property->ComputedProp_expression));
                        }
                        let inner = self.lower_expression(*expression, ctx, scopes);
                        MemberProperty::ComputedProp { expression: Box::new(inner) }
                    },
                    MemberProperty::StaticProp { name, span: pspan } => {
                        MemberProperty::StaticProp { name, span: pspan }
                    },
                };
                let rebuilt = MemberExpression { object: object2, property: property2, optional, span };
                let r = Expression::MemberExpr(Box::new(rebuilt));
                proof {
                    assert(rebuilt.model() =~= lower_member_m(m0.model(), ctx, *scopes));
                    assert(r.model() matches ExprM::MemberExpr(b2) && *b2 == rebuilt.model());
                }
                r
            },
            Expression::YieldExpr { delegate, argument, span } => {
                match argument {
                    Some(a) => {
                        proof {
                            assert(e0.model() matches ExprM::YieldExpr {
                                argument: Some(b), ..
                            } && *b == (*a).model());
                            assert(decreases_to!(e0 => e0->YieldExpr_argument));
                            assert(decreases_to!(e0->YieldExpr_argument =>
                                e0->YieldExpr_argument->0));
                            assert(decreases_to!(e0 => e0->YieldExpr_argument->0));
                        }
                        let inner = self.lower_expression(*a, ctx, scopes);
                        let r = Expression::YieldExpr {
                            delegate,
                            argument: Some(Box::new(inner)),
                            span,
                        };
                        proof {
                            assert(r.model() matches ExprM::YieldExpr {
                                argument: Some(b2), ..
                            } && *b2 == inner.model());
                            assert(r.model() =~= lower_expr_m(e0.model(), ctx, *scopes));
                        }
                        r
                    },
                    None => {
                        proof {
                            assert(e0.model() matches ExprM::YieldExpr { argument: am, .. }
                                && am is None);
                        }
                        Expression::YieldExpr { delegate, argument: None, span }
                    },
                }
            },
            Expression::LogicalExpr { left, right, span } => {
                proof {
                    assert(e0.model() matches ExprM::LogicalExpr { left: l, right: rr, .. }
                        && *l == (*left).model() && *rr == (*right).model());
                    assert(decreases_to!(e0 => e0->LogicalExpr_left));
                    assert(decreases_to!(e0 => e0->LogicalExpr_right));
                }
                let left2 = self.lower_expression(*left, ctx, scopes);
                let right2 = self.lower_expression(*right, ctx, scopes);
                let r = Expression::LogicalExpr {
                    left: Box::new(left2),
                    right: Box::new(right2),
                    span,
                };
                proof {
                    assert(r.model() =~= lower_expr_m(e0.model(), ctx, *scopes));
                }
                r
            },
            Expression::ConditionalExpr { test, consequent, alternate, span } => {
                proof {
                    assert(e0.model() matches ExprM::ConditionalExpr {
                        test: t2,
                        consequent: c2,
                        alternate: a2,
                        ..
                    } && *t2 == (*test).model() && *c2 == (*consequent).model() && *a2 == (
                    *alternate).model());
                    assert(decreases_to!(e0 => e0->ConditionalExpr_test));
                    assert(decreases_to!(e0 => e0->ConditionalExpr_consequent));
                    assert(decreases_to!(e0 => e0->ConditionalExpr_alternate));
                }
                let test2 = self.lower_expression(*test, ctx, scopes);
                let consequent2 = self.lower_expression(*consequent, ctx, scopes);
                let alternate2 = self.lower_expression(*alternate, ctx, scopes);
                let r = Expression::ConditionalExpr {
                    test: Box::new(test2),
                    consequent: Box::new(consequent2),
                    alternate: Box::new(alternate2),
                    span,
                };
                proof {
                    assert(r.model() =~= lower_expr_m(e0.model(), ctx, *scopes));
                }
                r
            },
            Expression::AssignExpr { target, value, span } => {
                proof {
                    assert(e0.model() matches ExprM::AssignExpr { value: v2, .. }
                        && *v2 == (*value).model());
                    assert(decreases_to!(e0 => e0->AssignExpr_value));
                }
                let value2 = self.lower_expression(*value, ctx, scopes);
                let r = Expression::AssignExpr { target, value: Box::new(value2), span };
                proof {
                    assert(r.model() =~= lower_expr_m(e0.model(), ctx, *scopes));
                }
                r
            },
            Expression::ParenExpr { expression, span } => {
                proof {
                    assert(e0.model() matches ExprM::ParenExpr { expression: b, .. }
                        && *b == (*expression).model());
                    assert(decreases_to!(e0 => e0->ParenExpr_expression));
                }
                let inner = self.lower_expression(*expression, ctx, scopes);
                let r = Expression::ParenExpr { expression: Box::new(inner), span };
                proof {
                    assert(r.model() =~= lower_expr_m(e0.model(), ctx, *scopes));
                }
                r
            },
            Expression::Element(el) => {
                proof {
                    assert(e0.model() matches ExprM::Element(b) && *b == (*el).model());
                    assert(decreases_to!(e0 => e0->Element_0));
                }
                let el2 = self.lower_element(*el, ctx, scopes);
                let r = Expression::Element(Box::new(el2));
                proof {
                    assert(r.model() matches ExprM::Element(b2) && *b2 == el2.model());
                }
                r
            },
            Expression::Fragment(fr) => {
                proof {
                    assert(e0.model() matches ExprM::Fragment(b) && *b == (*fr).model());
                    assert(decreases_to!(e0 => e0->Fragment_0));
                }
                let fr2 = self.lower_fragment(*fr, ctx, scopes);
                let r = Expression::Fragment(Box::new(fr2));
                proof {
                    assert(r.model() matches ExprM::Fragment(b2) && *b2 == fr2.model());
                }
                r
            },
            Expression::OtherExpr { children, span } => {
                let mut v = children;
                let ghost v0 = v;
                let mut i: usize = 0;
                while i < v.len()
                    invariant
                        scopes.wf(),
                        v@.len() == v0@.len(),
                        e0 == (Expression::OtherExpr { children: v0, span }),
                        forall|j: int| i <= j < v@.len() ==> v@[j] == v0@[j],
                        forall|j: int| 0 <= j < i ==> #[trigger] v@[j].model() == lower_expr_m(
                            v0@[j].model(),
                            ctx,
                            *scopes,
                        ),
                    decreases v@.len() - i,
                {
                    let x = v.remove(i);
                    proof {
                        assert(x == e0->OtherExpr_children@[i as int]);
                        assert(decreases_to!(e0 => e0->OtherExpr_children));
                        assert(decreases_to!(e0->OtherExpr_children =>
                            e0->OtherExpr_children@[i as int]));
                        assert(decreases_to!(e0 => x));
                    }
                    let x2 = self.lower_expression(x, ctx, scopes);
                    v.insert(i, x2);
                    i = i + 1;
                }
                let r = Expression::OtherExpr { children: v, span };
                proof {
                    let goal = lower_expr_m(e0.model(), ctx, *scopes);
                    assert(e0.model() matches ExprM::OtherExpr { children: cm2, .. }
                        && cm2 == crate::model::exprs_model(v0@));
                    assert(goal matches ExprM::OtherExpr { children: gc, .. }
                        && gc == lower_exprs_m(crate::model::exprs_model(v0@), ctx, *scopes));
                    assert(r.model() matches ExprM::OtherExpr { children: rc, .. } && rc
                        == crate::model::exprs_model(v@));
                    assert forall|k: int| 0 <= k < v@.len()
                        implies crate::model::exprs_model(v@)[k] == lower_exprs_m(
                        crate::model::exprs_model(v0@),
                        ctx,
                        *scopes,
                    )[k] by {
                        assert(crate::model::exprs_model(v@)[k] == v@[k].model());
                        assert(crate::model::exprs_model(v0@)[k] == v0@[k].model());
                    }
                    assert(crate::model::exprs_model(v@) =~= lower_exprs_m(
                        crate::model::exprs_model(v0@),
                        ctx,
                        *scopes,
                    ));
                    assert(r.model() =~= goal);
                }
                r
            },
            other => {
                proof {
                    assert(lower_expr_m(other.model(), ctx, *scopes) == other.model());
                }
                other
            },
        }
    }

    /// Walks one statement bottom-up.
    #[verifier::loop_isolation(false)]
    #[verifier::rlimit(100)]
    pub fn lower_statement(&self, s: Statement, ctx: FnCtx, scopes: &ScopeTree) -> (r: Statement)
        requires
            scopes.wf(),
        ensures
            r.model() == lower_stmt_m(s.model(), ctx, *scopes),
        decreases s,
    {
        let ghost s0 = s;
        match s {
            Statement::ExpressionStmt { expression, span } => {
                proof {
                    assert(s0.model() matches StmtM::ExpressionStmt { expression: em, .. }
                        && em == expression.model());
                    assert(decreases_to!(s0 => s0->ExpressionStmt_expression));
                }
                let e2 = self.lower_expression(expression, ctx, scopes);
                let r = Statement::ExpressionStmt { expression: e2, span };
                proof {
                    assert(r.model() =~= lower_stmt_m(s0.model(), ctx, *scopes));
                }
                r
            },
            Statement::ReturnStmt { argument, span } => {
                match argument {
                    Some(a) => {
                        proof {
                            assert(s0.model() matches StmtM::ReturnStmt {
                                argument: Some(am), ..
                            } && am == a.model());
                            assert(decreases_to!(s0 => s0->ReturnStmt_argument));
                            assert(decreases_to!(s0->ReturnStmt_argument =>
                                s0->ReturnStmt_argument->0));
                            assert(decreases_to!(s0 => s0->ReturnStmt_argument->0));
                        }
                        let a2 = self.lower_expression(a, ctx, scopes);
                        let r = Statement::ReturnStmt { argument: Some(a2), span };
                        proof {
                            assert(r.model() =~= lower_stmt_m(s0.model(), ctx, *scopes));
                        }
                        r
                    },
                    None => {
                        proof {
                            assert(s0.model() matches StmtM::ReturnStmt { argument: am, .. }
                                && am is None);
                        }
                        Statement::ReturnStmt { argument: None, span }
                    },
                }
            },
            Statement::BlockStmt { statements, span } => {
                let mut v = statements;
                let ghost v0 = v;
                let mut i: usize = 0;
                while i < v.len()
                    invariant
                        scopes.wf(),
                        v@.len() == v0@.len(),
                        s0 == (Statement::BlockStmt { statements: v0, span }),
                        forall|j: int| i <= j < v@.len() ==> v@[j] == v0@[j],
                        forall|j: int| 0 <= j < i ==> #[trigger] v@[j].model() == lower_stmt_m(
                            v0@[j].model(),
                            ctx,
                            *scopes,
                        ),
                    decreases v@.len() - i,
                {
                    let x = v.remove(i);
                    proof {
                        assert(x == s0->BlockStmt_statements@[i as int]);
                        assert(decreases_to!(s0 => s0->BlockStmt_statements));
                        assert(decreases_to!(s0->BlockStmt_statements =>
                            s0->BlockStmt_statements@[i as int]));
                        assert(decreases_to!(s0 => x));
                    }
                    let x2 = self.lower_statement(x, ctx, scopes);
                    v.insert(i, x2);
                    i = i + 1;
                }
                let r = Statement::BlockStmt { statements: v, span };
                proof {
                    let goal = lower_stmt_m(s0.model(), ctx, *scopes);
                    assert(s0.model() matches StmtM::BlockStmt { statements: sm2, .. }
                        && sm2 == crate::model::stmts_model(v0@));
                    assert(goal matches StmtM::BlockStmt { statements: gs, .. }
                        && gs == lower_stmts_m(crate::model::stmts_model(v0@), ctx, *scopes));
                    assert(r.model() matches StmtM::BlockStmt { statements: rs, .. } && rs
                        == crate::model::stmts_model(v@));
                    assert forall|k: int| 0 <= k < v@.len()
                        implies crate::model::stmts_model(v@)[k] == lower_stmts_m(
                        crate::model::stmts_model(v0@),
                        ctx,
                        *scopes,
                    )[k] by {
                        assert(crate::model::stmts_model(v@)[k] == v@[k].model());
                        assert(crate::model::stmts_model(v0@)[k] == v0@[k].model());
                    }
                    assert(crate::model::stmts_model(v@) =~= lower_stmts_m(
                        crate::model::stmts_model(v0@),
                        ctx,
                        *scopes,
                    ));
                    assert(r.model() =~= goal);
                }
                r
            },
            Statement::IfStmt { test, consequent, alternate, span } => {
                proof {
                    assert(s0.model() matches StmtM::IfStmt { test: tm, consequent: cm, .. }
                        && tm == test.model() && *cm == (*consequent).model());
                    assert(decreases_to!(s0 => s0->IfStmt_test));
                    assert(decreases_to!(s0 => s0->IfStmt_consequent));
                }
                let test2 = self.lower_expression(test, ctx, scopes);
                let consequent2 = self.lower_statement(*consequent, ctx, scopes);
                let alternate2 = match alternate {
                    Some(alt) => {
                        proof {
                            assert(s0.model() matches StmtM::IfStmt {
                                alternate: Some(am), ..
                            } && *am == (*alt).model());
                            assert(decreases_to!(s0 => s0->IfStmt_alternate));
                            assert(decreases_to!(s0->IfStmt_alternate =>
                                s0->IfStmt_alternate->0));
                            assert(decreases_to!(s0 => s0->IfStmt_alternate->0));
                        }
                        let alt2 = self.lower_statement(*alt, ctx, scopes);
                        Some(Box::new(alt2))
                    },
                    None => {
                        proof {
                            assert(s0.model() matches StmtM::IfStmt { alternate: am, .. }
                                && am is None);
                        }
                        None
                    },
                };
                let r = Statement::IfStmt {
                    test: test2,
                    consequent: Box::new(consequent2),
                    alternate: alternate2,
                    span,
                };
                proof {
                    assert(r.model() =~= lower_stmt_m(s0.model(), ctx, *scopes));
                }
                r
            },
            Statement::VariableDeclStmt { declarators, span } => {
                let mut v = declarators;
                let ghost v0 = v;
                let mut i: usize = 0;
                while i < v.len()
                    invariant
                        scopes.wf(),
                        v@.len() == v0@.len(),
                        s0 == (Statement::VariableDeclStmt { declarators: v0, span }),
                        forall|j: int| i <= j < v@.len() ==> v@[j] == v0@[j],
                        forall|j: int| 0 <= j < i ==> #[trigger] v@[j].model() == (DeclM {
                            id: v0@[j].model().id,
                            init: match v0@[j].model().init {
                                Some(e) => Some(lower_expr_m(e, ctx, *scopes)),
                                None => None,
                            },
                            span: v0@[j].model().span,
                        }),
                    decreases v@.len() - i,
                {
                    let x = v.remove(i);
                    proof {
                        assert(x == s0->VariableDeclStmt_declarators@[i as int]);
                        assert(decreases_to!(s0 => s0->VariableDeclStmt_declarators));
                        assert(decreases_to!(s0->VariableDeclStmt_declarators =>
                            s0->VariableDeclStmt_declarators@[i as int]));
                    }
                    let VariableDeclarator { id, init, span: dspan } = x;
                    let init2 = match init {
                        Some(e) => {
                            proof {
                                assert(decreases_to!(
                                    s0->VariableDeclStmt_declarators@[i as int] =>
                                    s0->VariableDeclStmt_declarators@[i as int].init));
                                assert(decreases_to!(
                                    s0->VariableDeclStmt_declarators@[i as int].init =>
                                    s0->VariableDeclStmt_declarators@[i as int].init->0));
                                assert(decreases_to!(s0 => e));
                            }
                            Some(self.lower_expression(e, ctx, scopes))
                        },
                        None => None,
                    };
                    v.insert(i, VariableDeclarator { id, init: init2, span: dspan });
                    i = i + 1;
                }
                let r = Statement::VariableDeclStmt { declarators: v, span };
                proof {
                    let goal = lower_stmt_m(s0.model(), ctx, *scopes);
                    assert(s0.model() matches StmtM::VariableDeclStmt { declarators: dm2, .. }
                        && dm2 == crate::model::decls_model(v0@));
                    assert(goal matches StmtM::VariableDeclStmt { declarators: gd, .. }
                        && gd == lower_decls_m(crate::model::decls_model(v0@), ctx, *scopes));
                    assert(r.model() matches StmtM::VariableDeclStmt { declarators: rd, .. }
                        && rd == crate::model::decls_model(v@));
                    assert forall|k: int| 0 <= k < v@.len()
                        implies crate::model::decls_model(v@)[k] == lower_decls_m(
                        crate::model::decls_model(v0@),
                        ctx,
                        *scopes,
                    )[k] by {
                        assert(crate::model::decls_model(v@)[k] == v@[k].model());
                        assert(crate::model::decls_model(v0@)[k] == v0@[k].model());
                    }
                    assert(crate::model::decls_model(v@) =~= lower_decls_m(
                        crate::model::decls_model(v0@),
                        ctx,
                        *scopes,
                    ));
                    assert(r.model() =~= goal);
                }
                r
            },
            Statement::FunctionDeclStmt(f) => {
                proof {
                    assert(s0.model() matches StmtM::FunctionDeclStmt(b) && *b == (*f).model());
                    assert(decreases_to!(s0 => s0->FunctionDeclStmt_0));
                }
                let f2 = self.lower_function(*f, scopes);
                let r = Statement::FunctionDeclStmt(Box::new(f2));
                proof {
                    assert(r.model() matches StmtM::FunctionDeclStmt(b2) && *b2 == f2.model());
                }
                r
            },
            Statement::OtherStmt { span } => Statement::OtherStmt { span },
        }
    }

    /// Walks one function bottom-up: parameter defaults under the parameter
    /// context, the body under the body context (its suspend points
    /// convert), then the function transition replaces the node on exit.
    #[verifier::loop_isolation(false)]
    #[verifier::rlimit(100)]
    pub fn lower_function(&self, f: Function, scopes: &ScopeTree) -> (r: Function)
        requires
            scopes.wf(),
        ensures
            r.model() == lower_function_m(f.model(), *scopes),
        decreases f,
    {
        let ghost f0 = f;
        let Function { name, is_async, is_generator, params, body, scope_id, span } = f;
        let params2 = self.lower_parameters(params, Ghost(f0), scopes);
        let FunctionBody { statements, span: bspan } = body;
        let mut v = statements;
        let ghost v0 = v;
        let mut i: usize = 0;
        while i < v.len()
            invariant
                scopes.wf(),
                v@.len() == v0@.len(),
                f0.body.statements == v0,
                forall|j: int| i <= j < v@.len() ==> v@[j] == v0@[j],
                forall|j: int| 0 <= j < i ==> #[trigger] v@[j].model() == lower_stmt_m(
                    v0@[j].model(),
                    FnCtx::BodyCtx,
                    *scopes,
                ),
            decreases v@.len() - i,
        {
            let x = v.remove(i);
            proof {
                assert(x == f0.body.statements@[i as int]);
                assert(decreases_to!(f0 => f0.body));
                assert(decreases_to!(f0.body => f0.body.statements));
                assert(decreases_to!(f0.body.statements =>
                    f0.body.statements@[i as int]));
                assert(decreases_to!(f0 => x));
            }
            let x2 = self.lower_statement(x, FnCtx::BodyCtx, scopes);
            v.insert(i, x2);
            i = i + 1;
        }
        let rebuilt = Function {
            name,
            is_async,
            is_generator,
            params: params2,
            body: FunctionBody { statements: v, span: bspan },
            scope_id,
            span,
        };
        proof {
            let childrenM = FunctionM {
                name: f0.model().name,
                is_async: f0.model().is_async,
                is_generator: f0.model().is_generator,
                params: lower_params_m(f0.model().params, *scopes),
                body: lower_body_m(f0.model().body, FnCtx::BodyCtx, *scopes),
                scope_id: f0.model().scope_id,
                span: f0.model().span,
            };
            assert forall|k: int| 0 <= k < childrenM.body.statements.len()
                implies crate::model::stmts_model(v@)[k] == childrenM.body.statements[k] by {
                assert(crate::model::stmts_model(v@)[k] == v@[k].model());
                assert(crate::model::stmts_model(v0@)[k] == v0@[k].model());
            }
            assert(rebuilt.model().body.statements =~= childrenM.body.statements);
            assert(rebuilt.model().body =~= childrenM.body);
            assert(rebuilt.model() =~= childrenM);
        }
        let r = self.exit_function(rebuilt, scopes);
        r
    }

    /// Walks one arrow bottom-up, as [`Self::lower_function`].
    #[verifier::loop_isolation(false)]
    #[verifier::rlimit(100)]
    pub fn lower_arrow(&self, a: ArrowFunction, scopes: &ScopeTree) -> (r: ArrowFunction)
        requires
            scopes.wf(),
        ensures
            r.model() == lower_arrow_m(a.model(), *scopes),
        decreases a,
    {
        let ghost a0 = a;
        let ArrowFunction { is_async, params, body, expression, scope_id, span } = a;
        let params2 = self.lower_arrow_parameters(params, Ghost(a0), scopes);
        let FunctionBody { statements, span: bspan } = body;
        let mut v = statements;
        let ghost v0 = v;
        let mut i: usize = 0;
        while i < v.len()
            invariant
                scopes.wf(),
                v@.len() == v0@.len(),
                a0.body.statements == v0,
                forall|j: int| i <= j < v@.len() ==> v@[j] == v0@[j],
                forall|j: int| 0 <= j < i ==> #[trigger] v@[j].model() == lower_stmt_m(
                    v0@[j].model(),
                    FnCtx::BodyCtx,
                    *scopes,
                ),
            decreases v@.len() - i,
        {
            let x = v.remove(i);
            proof {
                assert(x == a0.body.statements@[i as int]);
                assert(decreases_to!(a0 => a0.body));
                assert(decreases_to!(a0.body => a0.body.statements));
                assert(decreases_to!(a0.body.statements =>
                    a0.body.statements@[i as int]));
                assert(decreases_to!(a0 => x));
            }
            let x2 = self.lower_statement(x, FnCtx::BodyCtx, scopes);
            v.insert(i, x2);
            i = i + 1;
        }
        let rebuilt = ArrowFunction {
            is_async,
            params: params2,
            body: FunctionBody { statements: v, span: bspan },
            expression,
            scope_id,
            span,
        };
        proof {
            let childrenM = ArrowM {
                is_async: a0.model().is_async,
                params: lower_params_m(a0.model().params, *scopes),
                body: lower_body_m(a0.model().body, FnCtx::BodyCtx, *scopes),
                expression: a0.model().expression,
                scope_id: a0.model().scope_id,
                span: a0.model().span,
            };
            assert forall|k: int| 0 <= k < childrenM.body.statements.len()
                implies crate::model::stmts_model(v@)[k] == childrenM.body.statements[k] by {
                assert(crate::model::stmts_model(v@)[k] == v@[k].model());
                assert(crate::model::stmts_model(v0@)[k] == v0@[k].model());
            }
            assert(rebuilt.model().body.statements =~= childrenM.body.statements);
            assert(rebuilt.model().body =~= childrenM.body);
            assert(rebuilt.model() =~= childrenM);
        }
        let r = self.exit_arrow_function(rebuilt, scopes);
        r
    }

    /// Walks a function's parameter defaults, each in a parameter position.
    #[verifier::loop_isolation(false)]
    fn lower_parameters(&self, params: Vec<Parameter>, owner: Ghost<Function>, scopes: &ScopeTree)
        -> (r: Vec<Parameter>)
        requires
            scopes.wf(),
            params == owner@.params,
        ensures
            crate::model::params_model(r@) == lower_params_m(
                crate::model::params_model(params@),
                *scopes,
            ),
        decreases owner@, 0int,
    {
        let ghost f0 = owner@;
        let mut v = params;
        let ghost v0 = v;
        let mut i: usize = 0;
        while i < v.len()
            invariant
                scopes.wf(),
                v@.len() == v0@.len(),
                f0.params == v0,
                forall|j: int| i <= j < v@.len() ==> v@[j] == v0@[j],
                forall|j: int| 0 <= j < i ==> #[trigger] v@[j].model() == (ParamM {
                    pattern: v0@[j].model().pattern,
                    init: match v0@[j].model().init {
                        Some(e) => Some(lower_expr_m(e, FnCtx::ParamsCtx, *scopes)),
                        None => None,
                    },
                    span: v0@[j].model().span,
                }),
            decreases v@.len() - i,
        {
            let x = v.remove(i);
            proof {
                assert(x == f0.params@[i as int]);
                assert(decreases_to!(f0 => f0.params));
                assert(decreases_to!(f0.params => f0.params@[i as int]));
            }
            let Parameter { pattern, init, span } = x;
            let init2 = match init {
                Some(e) => {
                    proof {
                        assert(decreases_to!(f0.params@[i as int] =>
                            f0.params@[i as int].init));
                        assert(decreases_to!(f0.params@[i as int].init =>
                            f0.params@[i as int].init->0));
                        assert(decreases_to!(f0 => e));
                    }
                    Some(self.lower_expression(e, FnCtx::ParamsCtx, scopes))
                },
                None => None,
            };
            v.insert(i, Parameter { pattern, init: init2, span });
            i = i + 1;
        }
        proof {
            assert forall|k: int| 0 <= k < v@.len()
                implies crate::model::params_model(v@)[k] == lower_params_m(
                crate::model::params_model(v0@),
                *scopes,
            )[k] by {
                assert(crate::model::params_model(v@)[k] == v@[k].model());
                assert(crate::model::params_model(v0@)[k] == v0@[k].model());
            }
            assert(crate::model::params_model(v@) =~= lower_params_m(
                crate::model::params_model(v0@),
                *scopes,
            ));
        }
        v
    }

    /// Walks an arrow's parameter defaults, each in a parameter position.
    #[verifier::loop_isolation(false)]
    fn lower_arrow_parameters(
        &self,
        params: Vec<Parameter>,
        owner: Ghost<ArrowFunction>,
        scopes: &ScopeTree,
    ) -> (r: Vec<Parameter>)
        requires
            scopes.wf(),
            params == owner@.params,
        ensures
            crate::model::params_model(r@) == lower_params_m(
                crate::model::params_model(params@),
                *scopes,
            ),
        decreases owner@, 0int,
    {
        let ghost a0 = owner@;
        let mut v = params;
        let ghost v0 = v;
        let mut i: usize = 0;
        while i < v.len()
            invariant
                scopes.wf(),
                v@.len() == v0@.len(),
                a0.params == v0,
                forall|j: int| i <= j < v@.len() ==> v@[j] == v0@[j],
                forall|j: int| 0 <= j < i ==> #[trigger] v@[j].model() == (ParamM {
                    pattern: v0@[j].model().pattern,
                    init: match v0@[j].model().init {
                        Some(e) => Some(lower_expr_m(e, FnCtx::ParamsCtx, *scopes)),
                        None => None,
                    },
                    span: v0@[j].model().span,
                }),
            decreases v@.len() - i,
        {
            let x = v.remove(i);
            proof {
                assert(x == a0.params@[i as int]);
                assert(decreases_to!(a0 => a0.params));
                assert(decreases_to!(a0.params => a0.params@[i as int]));
            }
            let Parameter { pattern, init, span } = x;
            let init2 = match init {
                Some(e) => {
                    proof {
                        assert(decreases_to!(a0.params@[i as int] =>
                            a0.params@[i as int].init));
                        assert(decreases_to!(a0.params@[i as int].init =>
                            a0.params@[i as int].init->0));
                        assert(decreases_to!(a0 => e));
                    }
                    Some(self.lower_expression(e, FnCtx::ParamsCtx, scopes))
                },
                None => None,
            };
            v.insert(i, Parameter { pattern, init: init2, span });
            i = i + 1;
        }
        proof {
            assert forall|k: int| 0 <= k < v@.len()
                implies crate::model::params_model(v@)[k] == lower_params_m(
                crate::model::params_model(v0@),
                *scopes,
            )[k] by {
                assert(crate::model::params_model(v@)[k] == v@[k].model());
                assert(crate::model::params_model(v0@)[k] == v0@[k].model());
            }
            assert(crate::model::params_model(v@) =~= lower_params_m(
                crate::model::params_model(v0@),
                *scopes,
            ));
        }
        v
    }

    /// Walks one element bottom-up: its attribute expressions and children.
    #[verifier::loop_isolation(false)]
    #[verifier::rlimit(100)]
    pub fn lower_element(&self, el: JsxElement, ctx: FnCtx, scopes: &ScopeTree) -> (r: JsxElement)
        requires
            scopes.wf(),
        ensures
            r.model() == lower_element_m(el.model(), ctx, *scopes),
        decreases el,
    {
        let ghost el0 = el;
        let JsxElement { opening, children, span } = el;
        let JsxOpeningElement { name, attributes, span: ospan } = opening;
        let mut ats = attributes;
        let ghost ats0 = ats;
        let mut i: usize = 0;
        while i < ats.len()
            invariant
                scopes.wf(),
                ats@.len() == ats0@.len(),
                el0.opening.attributes == ats0,
                forall|j: int| i <= j < ats@.len() ==> ats@[j] == ats0@[j],
                forall|j: int| 0 <= j < i ==> #[trigger] ats@[j].model() == lower_attr_m(
                    ats0@[j].model(),
                    ctx,
                    *scopes,
                ),
            decreases ats@.len() - i,
        {
            let x = ats.remove(i);
            proof {
                assert(x == el0.opening.attributes@[i as int]);
                assert(decreases_to!(el0 => el0.opening));
                assert(decreases_to!(el0.opening => el0.opening.attributes));
                assert(decreases_to!(el0.opening.attributes =>
                    el0.opening.attributes@[i as int]));
            }
            let ghost x0 = x;
            let x2: JsxAttributeItem = match x {
                JsxAttributeItem::Attr(a) => {
                    let JsxAttribute { name: aname, value, span: aspan } = a;
                    let value2 = match value {
                        Some(JsxAttributeValue::AttrContainer { expression, span: cspan }) => {
                            proof {
                                assert(decreases_to!(el0.opening.attributes@[i as int] =>
                                    el0.opening.attributes@[i as int]->Attr_0));
                                assert(decreases_to!(
                                    el0.opening.attributes@[i as int]->Attr_0 =>
                                    el0.opening.attributes@[i as int]->Attr_0.value));
                                assert(decreases_to!(
                                    el0.opening.attributes@[i as int]->Attr_0.value =>
                                    el0.opening.attributes@[i as int]->Attr_0.value->0));
                                assert(decreases_to!(
                                    el0.opening.attributes@[i as int]->Attr_0.value->0 =>
                                    el0.opening.attributes@[i as int]->Attr_0.value->0
                                        ->AttrContainer_expression));
                                assert(decreases_to!(el0 => *expression));
                            }
                            let inner = self.lower_expression(*expression, ctx, scopes);
                            Some(JsxAttributeValue::AttrContainer {
                                expression: Box::new(inner),
                                span: cspan,
                            })
                        },
                        other => other,
                    };
                    JsxAttributeItem::Attr(JsxAttribute { name: aname, value: value2, span: aspan })
                },
                JsxAttributeItem::AttrSpread { argument, span: sspan } => {
                    proof {
                        assert(decreases_to!(el0.opening.attributes@[i as int] =>
                            el0.opening.attributes@[i as int]->AttrSpread_argument));
                        assert(decreases_to!(el0 => *argument));
                    }
                    let inner = self.lower_expression(*argument, ctx, scopes);
                    JsxAttributeItem::AttrSpread { argument: Box::new(inner), span: sspan }
                },
            };
            proof {
                assert(x2.model() =~= lower_attr_m(x0.model(), ctx, *scopes));
            }
            ats.insert(i, x2);
            i = i + 1;
        }
        let mut cs = children;
        let ghost cs0 = cs;
        let mut j: usize = 0;
        while j < cs.len()
            invariant
                scopes.wf(),
                cs@.len() == cs0@.len(),
                el0.children == cs0,
                forall|k: int| j <= k < cs@.len() ==> cs@[k] == cs0@[k],
                forall|k: int| 0 <= k < j ==> #[trigger] cs@[k].model() == lower_child_m(
                    cs0@[k].model(),
                    ctx,
                    *scopes,
                ),
            decreases cs@.len() - j,
        {
            let x = cs.remove(j);
            proof {
                assert(x == el0.children@[j as int]);
                assert(decreases_to!(el0 => el0.children));
                assert(decreases_to!(el0.children => el0.children@[j as int]));
                assert(decreases_to!(el0 => x));
            }
            let x2 = self.lower_child(x, ctx, scopes);
            cs.insert(j, x2);
            j = j + 1;
        }
        let r = JsxElement {
            opening: JsxOpeningElement { name, attributes: ats, span: ospan },
            children: cs,
            span,
        };
        proof {
            let goal = lower_element_m(el0.model(), ctx, *scopes);
            assert forall|k: int| 0 <= k < goal.opening.attributes.len()
                implies crate::model::attrs_model(ats@)[k] == goal.opening.attributes[k] by {
                assert(crate::model::attrs_model(ats@)[k] == ats@[k].model());
                assert(crate::model::attrs_model(ats0@)[k] == ats0@[k].model());
            }
            assert(crate::model::attrs_model(ats@) =~= goal.opening.attributes);
            assert forall|k: int| 0 <= k < goal.children.len()
                implies crate::model::children_model(cs@)[k] == goal.children[k] by {
                assert(crate::model::children_model(cs@)[k] == cs@[k].model());
                assert(crate::model::children_model(cs0@)[k] == cs0@[k].model());
            }
            assert(crate::model::children_model(cs@) =~= goal.children);
            assert(r.model().opening =~= goal.opening);
            assert(r.model() =~= goal);
        }
        r
    }

    /// Walks one element child bottom-up.
    #[verifier::loop_isolation(false)]
    pub fn lower_child(&self, c: JsxChild, ctx: FnCtx, scopes: &ScopeTree) -> (r: JsxChild)
        requires
            scopes.wf(),
        ensures
            r.model() == lower_child_m(c.model(), ctx, *scopes),
        decreases c,
    {
        let ghost c0 = c;
        match c {
            JsxChild::ChildElement(el) => {
                proof {
                    assert(c0.model() matches ChildM::ChildElement(b) && *b == (*el).model());
                    assert(decreases_to!(c0 => c0->ChildElement_0));
                }
                let el2 = self.lower_element(*el, ctx, scopes);
                let r = JsxChild::ChildElement(Box::new(el2));
                proof {
                    assert(r.model() matches ChildM::ChildElement(b2) && *b2 == el2.model());
                }
                r
            },
            JsxChild::ChildFragment(fr) => {
                proof {
                    assert(c0.model() matches ChildM::ChildFragment(b) && *b == (*fr).model());
                    assert(decreases_to!(c0 => c0->ChildFragment_0));
                }
                let fr2 = self.lower_fragment(*fr, ctx, scopes);
                let r = JsxChild::ChildFragment(Box::new(fr2));
                proof {
                    assert(r.model() matches ChildM::ChildFragment(b2) && *b2 == fr2.model());
                }
                r
            },
            JsxChild::ChildContainer { expression, span } => {
                proof {
                    assert(c0.model() matches ChildM::ChildContainer { expression: b, .. }
                        && *b == (*expression).model());
                    assert(decreases_to!(c0 => c0->ChildContainer_expression));
                }
                let inner = self.lower_expression(*expression, ctx, scopes);
                let r = JsxChild::ChildContainer { expression: Box::new(inner), span };
                proof {
                    assert(r.model() =~= lower_child_m(c0.model(), ctx, *scopes));
                }
                r
            },
            JsxChild::ChildText { span } => JsxChild::ChildText { span },
        }
    }

    /// Walks one fragment bottom-up.
    #[verifier::loop_isolation(false)]
    #[verifier::rlimit(100)]
    pub fn lower_fragment(&self, fr: JsxFragment, ctx: FnCtx, scopes: &ScopeTree) -> (r:
        JsxFragment)
        requires
            scopes.wf(),
        ensures
            r.model() == lower_fragment_m(fr.model(), ctx, *scopes),
        decreases fr,
    {
        let ghost fr0 = fr;
        let JsxFragment { opening_span, children, span } = fr;
        let mut cs = children;
        let ghost cs0 = cs;
        let mut j: usize = 0;
        while j < cs.len()
            invariant
                scopes.wf(),
                cs@.len() == cs0@.len(),
                fr0.children == cs0,
                forall|k: int| j <= k < cs@.len() ==> cs@[k] == cs0@[k],
                forall|k: int| 0 <= k < j ==> #[trigger] cs@[k].model() == lower_child_m(
                    cs0@[k].model(),
                    ctx,
                    *scopes,
                ),
            decreases cs@.len() - j,
        {
            let x = cs.remove(j);
            proof {
                assert(x == fr0.children@[j as int]);
                assert(decreases_to!(fr0 => fr0.children));
                assert(decreases_to!(fr0.children => fr0.children@[j as int]));
                assert(decreases_to!(fr0 => x));
            }
            let x2 = self.lower_child(x, ctx, scopes);
            cs.insert(j, x2);
            j = j + 1;
        }
        let r = JsxFragment { opening_span, children: cs, span };
        proof {
            let goal = lower_fragment_m(fr0.model(), ctx, *scopes);
            assert forall|k: int| 0 <= k < goal.children.len()
                implies crate::model::children_model(cs@)[k] == goal.children[k] by {
                assert(crate::model::children_model(cs@)[k] == cs@[k].model());
                assert(crate::model::children_model(cs0@)[k] == cs0@[k].model());
            }
            assert(crate::model::children_model(cs@) =~= goal.children);
            assert(r.model() =~= goal);
        }
        r
    }

    /// Performs the pass's one exclusive depth-first walk over the whole
    /// unit: every node is replaced on exit, bottom-up, so parents always
    /// observe fully-transformed children; a suspend point at the top
    /// level, outside any function boundary, is never rewritten.
    #[verifier::loop_isolation(false)]
    #[verifier::rlimit(100)]
    pub fn lower_program(&self, p: Program, scopes: &ScopeTree) -> (r: Program)
        requires
            scopes.wf(),
        ensures
            r.model() == lower_program_m(p.model(), *scopes),
    {
        let ghost p0 = p;
        let Program { statements, scope_id, span } = p;
        let mut v = statements;
        let ghost v0 = v;
        let mut i: usize = 0;
        while i < v.len()
            invariant
                scopes.wf(),
                v@.len() == v0@.len(),
                p0.statements == v0,
                forall|j: int| i <= j < v@.len() ==> v@[j] == v0@[j],
                forall|j: int| 0 <= j < i ==> #[trigger] v@[j].model() == lower_stmt_m(
                    v0@[j].model(),
                    FnCtx::TopCtx,
                    *scopes,
                ),
            decreases v@.len() - i,
        {
            let x = v.remove(i);
            proof {
                assert(x == p0.statements@[i as int]);
            }
            let x2 = self.lower_statement(x, FnCtx::TopCtx, scopes);
            v.insert(i, x2);
            i = i + 1;
        }
        let r = Program { statements: v, scope_id, span };
        proof {
            let goal = lower_program_m(p0.model(), *scopes);
            assert forall|k: int| 0 <= k < goal.statements.len()
                implies crate::model::stmts_model(v@)[k] == goal.statements[k] by {
                assert(crate::model::stmts_model(v@)[k] == v@[k].model());
                assert(crate::model::stmts_model(v0@)[k] == v0@[k].model());
            }
            assert(crate::model::stmts_model(v@) =~= goal.statements);
            assert(r.model() =~= goal);
        }
        r
    }
}


// --- idempotence of the whole pass over one tree ---

/// The helper callee is already in lowered form: running the pass over it
/// changes nothing.
proof fn lemma_helper_callee_fixed(rs: Option<SymbolId>, ctx: FnCtx, t: ScopeTree)
    ensures
        lower_expr_m(helper_callee_m(rs), ctx, t) == helper_callee_m(rs),
{
    let hc = helper_callee_m(rs);
    let mm = hc->MemberExpr_0;
    assert(*mm.object == ExprM::Ident(helper_object_m(rs)));
    assert(lower_expr_m(*mm.object, ctx, t) == *mm.object);
    assert(lower_member_m(*mm, ctx, t) =~= *mm);
    assert(lower_expr_m(hc, ctx, t) == ExprM::MemberExpr(
        Box::new(lower_member_m(*mm, ctx, t)),
    ));
    assert(ExprM::MemberExpr(Box::new(lower_member_m(*mm, ctx, t))) == ExprM::MemberExpr(
        Box::new(*mm),
    ));
    assert(ExprM::MemberExpr(Box::new(*mm)) =~= hc);
}

/// The wrapper call is already in lowered form whenever the inner stepped
/// function it carries is.
proof fn lemma_wrapper_call_fixed(rs: Option<SymbolId>, inner: ExprM, ctx: FnCtx, t: ScopeTree)
    requires
        lower_expr_m(inner, ctx, t) == inner,
    ensures
        lower_expr_m(wrapper_call_m(rs, inner), ctx, t) == wrapper_call_m(rs, inner),
{
    let c = wrapper_call_m(rs, inner);
    lemma_helper_callee_fixed(rs, ctx, t);
    assert(c matches ExprM::CallExpr(cb) && (*cb).arguments == seq![
        ExprM::ThisExpr { span: Span { start: 0, end: 0 } },
        ExprM::NullLit { span: Span { start: 0, end: 0 } },
        inner,
    ]);
    let cb = c->CallExpr_0;
    assert(lower_exprs_m((*cb).arguments, ctx, t).len() == 3);
    assert(lower_exprs_m((*cb).arguments, ctx, t)[0] == (*cb).arguments[0]);
    assert(lower_exprs_m((*cb).arguments, ctx, t)[1] == (*cb).arguments[1]);
    assert(lower_exprs_m((*cb).arguments, ctx, t)[2] == (*cb).arguments[2]);
    assert(lower_exprs_m((*cb).arguments, ctx, t) =~= (*cb).arguments);
    assert(lower_call_m(*cb, ctx, t) =~= *cb);
    assert(lower_expr_m(c, ctx, t) =~= c);
}

/// Running the lowering on its own output changes nothing: one expression.
proof fn lemma_idem_expr(e: ExprM, ctx: FnCtx, t: ScopeTree)
    ensures
        lower_expr_m(lower_expr_m(e, ctx, t), ctx, t) == lower_expr_m(e, ctx, t),
    decreases e, 1int,
{
    let l = lower_expr_m(e, ctx, t);
    match e {
        ExprM::AwaitExpr { argument, span } => {
            lemma_idem_expr(*argument, ctx, t);
            let la = lower_expr_m(*argument, ctx, t);
            if ctx == FnCtx::BodyCtx {
                assert(l == ExprM::YieldExpr {
                    delegate: false,
                    argument: Some(Box::new(la)),
                    span: Span { start: 0, end: 0 },
                });
                assert(lower_expr_m(l, ctx, t) =~= l);
            } else {
                assert(l == ExprM::AwaitExpr { argument: Box::new(la), span });
                assert(lower_expr_m(l, ctx, t) =~= l);
            }
        },
        ExprM::FunctionExpr(f) => {
            lemma_idem_function(*f, t);
            assert(lower_expr_m(l, ctx, t) =~= l);
        },
        ExprM::ArrowExpr(a) => {
            lemma_idem_arrow(*a, t);
            assert(lower_expr_m(l, ctx, t) =~= l);
        },
        ExprM::CallExpr(c) => {
            lemma_idem_expr(*c.callee, ctx, t);
            lemma_idem_exprs(c.arguments, ctx, t);
            assert(l matches ExprM::CallExpr(lb) && *lb == lower_call_m(*c, ctx, t));
            assert(lower_call_m(lower_call_m(*c, ctx, t), ctx, t) =~= lower_call_m(*c, ctx, t));
            assert(lower_expr_m(l, ctx, t) =~= l);
        },
        ExprM::MemberExpr(m) => {
            lemma_idem_expr(*m.object, ctx, t);
            match m.property {
                MemberPropM::ComputedProp { expression } => {
                    lemma_idem_expr(*expression, ctx, t);
                },
                MemberPropM::StaticProp { .. } => {},
            }
            assert(l matches ExprM::MemberExpr(lb) && *lb == lower_member_m(*m, ctx, t));
            assert(lower_member_m(lower_member_m(*m, ctx, t), ctx, t) =~= lower_member_m(
                *m,
                ctx,
                t,
            ));
            assert(lower_expr_m(l, ctx, t) =~= l);
        },
        ExprM::ArrayExpr { elements, span } => {
            lemma_idem_exprs(elements, ctx, t);
            assert(lower_expr_m(l, ctx, t) =~= l);
        },
        ExprM::ObjectExpr { properties, span } => {
            lemma_idem_props(properties, ctx, t);
            assert(lower_expr_m(l, ctx, t) =~= l);
        },
        ExprM::NewExpr { callee, arguments, span } => {
            lemma_idem_expr(*callee, ctx, t);
            lemma_idem_exprs(arguments, ctx, t);
            assert(lower_expr_m(l, ctx, t) =~= l);
        },
        ExprM::YieldExpr { delegate, argument, span } => {
            match argument {
                Some(a) => {
                    lemma_idem_expr(*a, ctx, t);
                },
                None => {},
            }
            assert(lower_expr_m(l, ctx, t) =~= l);
        },
        ExprM::LogicalExpr { left, right, span } => {
            lemma_idem_expr(*left, ctx, t);
            lemma_idem_expr(*right, ctx, t);
            assert(lower_expr_m(l, ctx, t) =~= l);
        },
        ExprM::ConditionalExpr { test, consequent, alternate, span } => {
            lemma_idem_expr(*test, ctx, t);
            lemma_idem_expr(*consequent, ctx, t);
            lemma_idem_expr(*alternate, ctx, t);
            assert(lower_expr_m(l, ctx, t) =~= l);
        },
        ExprM::AssignExpr { target, value, span } => {
            lemma_idem_expr(*value, ctx, t);
            assert(lower_expr_m(l, ctx, t) =~= l);
        },
        ExprM::ParenExpr { expression, span } => {
            lemma_idem_expr(*expression, ctx, t);
            assert(lower_expr_m(l, ctx, t) =~= l);
        },
        ExprM::Element(el) => {
            lemma_idem_element(*el, ctx, t);
            assert(lower_expr_m(l, ctx, t) =~= l);
        },
        ExprM::Fragment(fr) => {
            lemma_idem_fragment(*fr, ctx, t);
            assert(lower_expr_m(l, ctx, t) =~= l);
        },
        ExprM::OtherExpr { children, span } => {
            lemma_idem_exprs(children, ctx, t);
            assert(lower_expr_m(l, ctx, t) =~= l);
        },
        _ => {
            assert(l == e);
        },
    }
}

/// Running the lowering on its own output changes nothing: a sequence of
/// expressions, pointwise.
proof fn lemma_idem_exprs(es: Seq<ExprM>, ctx: FnCtx, t: ScopeTree)
    ensures
        lower_exprs_m(lower_exprs_m(es, ctx, t), ctx, t) == lower_exprs_m(es, ctx, t),
    decreases es, 0int,
{
    let l = lower_exprs_m(es, ctx, t);
    assert forall|k: int| 0 <= k < l.len() implies lower_exprs_m(l, ctx, t)[k] == l[k] by {
        lemma_idem_expr(es[k], ctx, t);
    }
    assert(lower_exprs_m(l, ctx, t) =~= l);
}

/// Pointwise over object properties.
proof fn lemma_idem_props(ps: Seq<PropM>, ctx: FnCtx, t: ScopeTree)
    ensures
        lower_props_m(lower_props_m(ps, ctx, t), ctx, t) == lower_props_m(ps, ctx, t),
    decreases ps, 1int,
{
    let l = lower_props_m(ps, ctx, t);
    assert forall|k: int| 0 <= k < l.len() implies lower_props_m(l, ctx, t)[k] == l[k] by {
        lemma_idem_expr(ps[k].value, ctx, t);
    }
    assert(lower_props_m(l, ctx, t) =~= l);
}

/// Pointwise over declarators.
proof fn lemma_idem_decls(ds: Seq<DeclM>, ctx: FnCtx, t: ScopeTree)
    ensures
        lower_decls_m(lower_decls_m(ds, ctx, t), ctx, t) == lower_decls_m(ds, ctx, t),
    decreases ds, 1int,
{
    let l = lower_decls_m(ds, ctx, t);
    assert forall|k: int| 0 <= k < l.len() implies lower_decls_m(l, ctx, t)[k] == l[k] by {
        match ds[k].init {
            Some(e) => {
                lemma_idem_expr(e, ctx, t);
            },
            None => {},
        }
    }
    assert(lower_decls_m(l, ctx, t) =~= l);
}

/// Pointwise over parameter defaults.
proof fn lemma_idem_params(ps: Seq<ParamM>, t: ScopeTree)
    ensures
        lower_params_m(lower_params_m(ps, t), t) == lower_params_m(ps, t),
    decreases ps, 2int,
{
    let l = lower_params_m(ps, t);
    assert forall|k: int| 0 <= k < l.len() implies lower_params_m(l, t)[k] == l[k] by {
        match ps[k].init {
            Some(e) => {
                lemma_idem_expr(e, FnCtx::ParamsCtx, t);
            },
            None => {},
        }
    }
    assert(lower_params_m(l, t) =~= l);
}

/// One statement.
proof fn lemma_idem_stmt(s: StmtM, ctx: FnCtx, t: ScopeTree)
    ensures
        lower_stmt_m(lower_stmt_m(s, ctx, t), ctx, t) == lower_stmt_m(s, ctx, t),
    decreases s, 2int,
{
    let l = lower_stmt_m(s, ctx, t);
    match s {
        StmtM::ExpressionStmt { expression, span } => {
            lemma_idem_expr(expression, ctx, t);
            assert(lower_stmt_m(l, ctx, t) =~= l);
        },
        StmtM::ReturnStmt { argument, span } => {
            match argument {
                Some(a) => {
                    lemma_idem_expr(a, ctx, t);
                },
                None => {},
            }
            assert(lower_stmt_m(l, ctx, t) =~= l);
        },
        StmtM::BlockStmt { statements, span } => {
            lemma_idem_stmts(statements, ctx, t);
            assert(lower_stmt_m(l, ctx, t) =~= l);
        },
        StmtM::IfStmt { test, consequent, alternate, span } => {
            lemma_idem_expr(test, ctx, t);
            lemma_idem_stmt(*consequent, ctx, t);
            match alternate {
                Some(alt) => {
                    lemma_idem_stmt(*alt, ctx, t);
                },
                None => {},
            }
            assert(lower_stmt_m(l, ctx, t) =~= l);
        },
        StmtM::VariableDeclStmt { declarators, span } => {
            lemma_idem_decls(declarators, ctx, t);
            assert(lower_stmt_m(l, ctx, t) =~= l);
        },
        StmtM::FunctionDeclStmt(f) => {
            lemma_idem_function(*f, t);
            assert(lower_stmt_m(l, ctx, t) =~= l);
        },
        StmtM::OtherStmt { .. } => {
            assert(l == s);
        },
    }
}

/// Pointwise over a statement list.
proof fn lemma_idem_stmts(ss: Seq<StmtM>, ctx: FnCtx, t: ScopeTree)
    ensures
        lower_stmts_m(lower_stmts_m(ss, ctx, t), ctx, t) == lower_stmts_m(ss, ctx, t),
    decreases ss, 0int,
{
    let l = lower_stmts_m(ss, ctx, t);
    assert forall|k: int| 0 <= k < l.len() implies lower_stmts_m(l, ctx, t)[k] == l[k] by {
        lemma_idem_stmt(ss[k], ctx, t);
    }
    assert(lower_stmts_m(l, ctx, t) =~= l);
}

/// A body.
proof fn lemma_idem_body(b: BodyM, ctx: FnCtx, t: ScopeTree)
    ensures
        lower_body_m(lower_body_m(b, ctx, t), ctx, t) == lower_body_m(b, ctx, t),
    decreases b, 1int,
{
    lemma_idem_stmts(b.statements, ctx, t);
    assert(lower_body_m(lower_body_m(b, ctx, t), ctx, t) =~= lower_body_m(b, ctx, t));
}

/// One function: a rewritten function is sync and its wrapper body carries
/// only already-lowered material, so a second pass leaves it exactly as it
/// is; a function that was already sync only has its children re-lowered,
/// which the inner lemmas fix.
proof fn lemma_idem_function(f: FunctionM, t: ScopeTree)
    ensures
        lower_function_m(lower_function_m(f, t), t) == lower_function_m(f, t),
        !lower_function_m(f, t).is_async,
    decreases f, 3int,
{
    let rs = helper_symbol(t, f.scope_id);
    let lp = lower_params_m(f.params, t);
    let lb = lower_body_m(f.body, FnCtx::BodyCtx, t);
    let children = FunctionM {
        name: f.name,
        is_async: f.is_async,
        is_generator: f.is_generator,
        params: lp,
        body: lb,
        scope_id: f.scope_id,
        span: f.span,
    };
    let l = lower_function_m(f, t);
    assert(l == function_step_m(children, rs));
    lemma_idem_params(f.params, t);
    lemma_idem_body(f.body, FnCtx::BodyCtx, t);
    if f.is_async {
        let inner = inner_function_m(children);
        let inner_expr = ExprM::FunctionExpr(Box::new(inner));
        // the inner stepped function is sync with no parameters and an
        // already-lowered body: the pass leaves it alone
        assert(lower_params_m(inner.params, t) =~= inner.params);
        assert(inner.body == lb);
        assert(lower_body_m(inner.body, FnCtx::BodyCtx, t) == inner.body);
        let inner_children = FunctionM {
            name: inner.name,
            is_async: inner.is_async,
            is_generator: inner.is_generator,
            params: lower_params_m(inner.params, t),
            body: lower_body_m(inner.body, FnCtx::BodyCtx, t),
            scope_id: inner.scope_id,
            span: inner.span,
        };
        assert(inner_children =~= inner);
        assert(!inner.is_async);
        assert(lower_function_m(inner, t) == function_step_m(
            inner_children,
            helper_symbol(t, inner.scope_id),
        ));
        assert(lower_function_m(inner, t) == inner);
        assert(lower_expr_m(inner_expr, FnCtx::BodyCtx, t) == ExprM::FunctionExpr(
            Box::new(lower_function_m(inner, t)),
        ));
        assert(lower_expr_m(inner_expr, FnCtx::BodyCtx, t) == inner_expr);
        lemma_wrapper_call_fixed(rs, inner_expr, FnCtx::BodyCtx, t);
        let wb = wrapper_body_m(rs, inner_expr);
        let wcall = wrapper_call_m(rs, inner_expr);
        assert(wb.statements[0] == StmtM::ReturnStmt {
            argument: Some(wcall),
            span: Span { start: 0, end: 0 },
        });
        assert(lower_stmt_m(wb.statements[0], FnCtx::BodyCtx, t) == StmtM::ReturnStmt {
            argument: Some(lower_expr_m(wcall, FnCtx::BodyCtx, t)),
            span: Span { start: 0, end: 0 },
        });
        assert(lower_stmt_m(wb.statements[0], FnCtx::BodyCtx, t) == wb.statements[0]);
        assert(lower_stmts_m(wb.statements, FnCtx::BodyCtx, t).len() == 1);
        assert(lower_stmts_m(wb.statements, FnCtx::BodyCtx, t)[0] == wb.statements[0]);
        assert(lower_stmts_m(wb.statements, FnCtx::BodyCtx, t) =~= wb.statements);
        assert(lower_body_m(wb, FnCtx::BodyCtx, t) =~= wb);
        assert(l.body == wb);
        assert(!l.is_async);
        let l_children = FunctionM {
            name: l.name,
            is_async: l.is_async,
            is_generator: l.is_generator,
            params: lower_params_m(l.params, t),
            body: lower_body_m(l.body, FnCtx::BodyCtx, t),
            scope_id: l.scope_id,
            span: l.span,
        };
        assert(lower_params_m(l.params, t) == l.params);
        assert(l_children =~= l);
        assert(lower_function_m(l, t) == function_step_m(
            l_children,
            helper_symbol(t, l.scope_id),
        ));
        assert(lower_function_m(l, t) == l);
    } else {
        assert(l == children);
        let l_children = FunctionM {
            name: l.name,
            is_async: l.is_async,
            is_generator: l.is_generator,
            params: lower_params_m(l.params, t),
            body: lower_body_m(l.body, FnCtx::BodyCtx, t),
            scope_id: l.scope_id,
            span: l.span,
        };
        assert(lower_params_m(l.params, t) == lower_params_m(lower_params_m(f.params, t), t));
        assert(lower_body_m(l.body, FnCtx::BodyCtx, t) == lower_body_m(
            lower_body_m(f.body, FnCtx::BodyCtx, t),
            FnCtx::BodyCtx,
            t,
        ));
        assert(l_children =~= l);
        assert(lower_function_m(l, t) == function_step_m(
            l_children,
            helper_symbol(t, l.scope_id),
        ));
        assert(lower_function_m(l, t) == l);
    }
}

/// One arrow, as [`lemma_idem_function`].
proof fn lemma_idem_arrow(a: ArrowM, t: ScopeTree)
    ensures
        lower_arrow_m(lower_arrow_m(a, t), t) == lower_arrow_m(a, t),
        !lower_arrow_m(a, t).is_async,
    decreases a, 3int,
{
    let rs = helper_symbol(t, a.scope_id);
    let lp = lower_params_m(a.params, t);
    let lb = lower_body_m(a.body, FnCtx::BodyCtx, t);
    let children = ArrowM {
        is_async: a.is_async,
        params: lp,
        body: lb,
        expression: a.expression,
        scope_id: a.scope_id,
        span: a.span,
    };
    let l = lower_arrow_m(a, t);
    assert(l == arrow_step_m(children, rs));
    lemma_idem_params(a.params, t);
    lemma_idem_body(a.body, FnCtx::BodyCtx, t);
    if a.is_async {
        let inner = inner_arrow_m(children);
        let inner_expr = ExprM::ArrowExpr(Box::new(inner));
        assert(lower_params_m(inner.params, t) =~= inner.params);
        assert(inner.body == lb);
        assert(lower_body_m(inner.body, FnCtx::BodyCtx, t) == inner.body);
        let inner_children = ArrowM {
            is_async: inner.is_async,
            params: lower_params_m(inner.params, t),
            body: lower_body_m(inner.body, FnCtx::BodyCtx, t),
            expression: inner.expression,
            scope_id: inner.scope_id,
            span: inner.span,
        };
        assert(inner_children =~= inner);
        assert(!inner.is_async);
        assert(lower_arrow_m(inner, t) == arrow_step_m(
            inner_children,
            helper_symbol(t, inner.scope_id),
        ));
        assert(lower_arrow_m(inner, t) == inner);
        assert(lower_expr_m(inner_expr, FnCtx::BodyCtx, t) == ExprM::ArrowExpr(
            Box::new(lower_arrow_m(inner, t)),
        ));
        assert(lower_expr_m(inner_expr, FnCtx::BodyCtx, t) == inner_expr);
        lemma_wrapper_call_fixed(rs, inner_expr, FnCtx::BodyCtx, t);
        let wcall = wrapper_call_m(rs, inner_expr);
        assert(l.body.statements[0] == StmtM::ExpressionStmt {
            expression: wcall,
            span: Span { start: 0, end: 0 },
        });
        assert(lower_stmt_m(l.body.statements[0], FnCtx::BodyCtx, t) == StmtM::ExpressionStmt {
            expression: lower_expr_m(wcall, FnCtx::BodyCtx, t),
            span: Span { start: 0, end: 0 },
        });
        assert(lower_stmt_m(l.body.statements[0], FnCtx::BodyCtx, t) == l.body.statements[0]);
        assert(lower_stmts_m(l.body.statements, FnCtx::BodyCtx, t).len() == 1);
        assert(lower_stmts_m(l.body.statements, FnCtx::BodyCtx, t)[0] == l.body.statements[0]);
        assert(lower_stmts_m(l.body.statements, FnCtx::BodyCtx, t) =~= l.body.statements);
        assert(lower_body_m(l.body, FnCtx::BodyCtx, t) =~= l.body);
        assert(!l.is_async);
        let l_children = ArrowM {
            is_async: l.is_async,
            params: lower_params_m(l.params, t),
            body: lower_body_m(l.body, FnCtx::BodyCtx, t),
            expression: l.expression,
            scope_id: l.scope_id,
            span: l.span,
        };
        assert(lower_params_m(l.params, t) == l.params);
        assert(l_children =~= l);
        assert(lower_arrow_m(l, t) == arrow_step_m(l_children, helper_symbol(t, l.scope_id)));
        assert(lower_arrow_m(l, t) == l);
    } else {
        assert(l == children);
        let l_children = ArrowM {
            is_async: l.is_async,
            params: lower_params_m(l.params, t),
            body: lower_body_m(l.body, FnCtx::BodyCtx, t),
            expression: l.expression,
            scope_id: l.scope_id,
            span: l.span,
        };
        assert(lower_params_m(l.params, t) == lower_params_m(lower_params_m(a.params, t), t));
        assert(lower_body_m(l.body, FnCtx::BodyCtx, t) == lower_body_m(
            lower_body_m(a.body, FnCtx::BodyCtx, t),
            FnCtx::BodyCtx,
            t,
        ));
        assert(l_children =~= l);
        assert(lower_arrow_m(l, t) == arrow_step_m(l_children, helper_symbol(t, l.scope_id)));
        assert(lower_arrow_m(l, t) == l);
    }
}

/// One element.
proof fn lemma_idem_element(el: ElementM, ctx: FnCtx, t: ScopeTree)
    ensures
        lower_element_m(lower_element_m(el, ctx, t), ctx, t) == lower_element_m(el, ctx, t),
    decreases el, 3int,
{
    let l = lower_element_m(el, ctx, t);
    lemma_idem_attrs(el.opening.attributes, ctx, t);
    lemma_idem_children(el.children, ctx, t);
    assert(lower_element_m(l, ctx, t) =~= l);
}

/// Pointwise over attribute items.
proof fn lemma_idem_attrs(ats: Seq<AttrItemM>, ctx: FnCtx, t: ScopeTree)
    ensures
        lower_attrs_m(lower_attrs_m(ats, ctx, t), ctx, t) == lower_attrs_m(ats, ctx, t),
    decreases ats, 2int,
{
    let l = lower_attrs_m(ats, ctx, t);
    assert forall|k: int| 0 <= k < l.len() implies lower_attrs_m(l, ctx, t)[k] == l[k] by {
        lemma_idem_attr(ats[k], ctx, t);
    }
    assert(lower_attrs_m(l, ctx, t) =~= l);
}

/// One attribute item.
proof fn lemma_idem_attr(at: AttrItemM, ctx: FnCtx, t: ScopeTree)
    ensures
        lower_attr_m(lower_attr_m(at, ctx, t), ctx, t) == lower_attr_m(at, ctx, t),
    decreases at, 1int,
{
    let l = lower_attr_m(at, ctx, t);
    match at {
        AttrItemM::Attr(a) => {
            match a.value {
                Some(AttrValueM::AttrContainer { expression, .. }) => {
                    lemma_idem_expr(*expression, ctx, t);
                },
                _ => {},
            }
            assert(lower_attr_m(l, ctx, t) =~= l);
        },
        AttrItemM::AttrSpread { argument, .. } => {
            lemma_idem_expr(*argument, ctx, t);
            assert(lower_attr_m(l, ctx, t) =~= l);
        },
    }
}

/// Pointwise over element children.
proof fn lemma_idem_children(cs: Seq<ChildM>, ctx: FnCtx, t: ScopeTree)
    ensures
        lower_children_m(lower_children_m(cs, ctx, t), ctx, t) == lower_children_m(cs, ctx, t),
    decreases cs, 2int,
{
    let l = lower_children_m(cs, ctx, t);
    assert forall|k: int| 0 <= k < l.len() implies lower_children_m(l, ctx, t)[k] == l[k] by {
        lemma_idem_child(cs[k], ctx, t);
    }
    assert(lower_children_m(l, ctx, t) =~= l);
}

/// One element child.
proof fn lemma_idem_child(c: ChildM, ctx: FnCtx, t: ScopeTree)
    ensures
        lower_child_m(lower_child_m(c, ctx, t), ctx, t) == lower_child_m(c, ctx, t),
    decreases c, 4int,
{
    let l = lower_child_m(c, ctx, t);
    match c {
        ChildM::ChildElement(el) => {
            lemma_idem_element(*el, ctx, t);
            assert(lower_child_m(l, ctx, t) =~= l);
        },
        ChildM::ChildFragment(fr) => {
            lemma_idem_fragment(*fr, ctx, t);
            assert(lower_child_m(l, ctx, t) =~= l);
        },
        ChildM::ChildContainer { expression, .. } => {
            lemma_idem_expr(*expression, ctx, t);
            assert(lower_child_m(l, ctx, t) =~= l);
        },
        ChildM::ChildText { .. } => {
            assert(l == c);
        },
    }
}

/// One fragment.
proof fn lemma_idem_fragment(fr: FragmentM, ctx: FnCtx, t: ScopeTree)
    ensures
        lower_fragment_m(lower_fragment_m(fr, ctx, t), ctx, t) == lower_fragment_m(fr, ctx, t),
    decreases fr, 3int,
{
    let l = lower_fragment_m(fr, ctx, t);
    lemma_idem_children(fr.children, ctx, t);
    assert(lower_fragment_m(l, ctx, t) =~= l);
}

/// Running the suspend/resume lowering twice on its own output is a no-op:
/// over the whole unit, the second run reproduces the first run's result
/// exactly — after one run no suspend-capable function remains to fire the
/// transitions, and no step-yield conversion is applied to an
/// already-converted body.
pub proof fn lemma_lowering_idempotent(p: ProgramM, t: ScopeTree)
    ensures
        lower_program_m(lower_program_m(p, t), t) == lower_program_m(p, t),
{
    lemma_idem_stmts(p.statements, FnCtx::TopCtx, t);
    assert(lower_program_m(lower_program_m(p, t), t) =~= lower_program_m(p, t));
}

} // verus!
