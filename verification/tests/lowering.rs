//! The suspend/resume lowering on concrete trees: a suspend point inside a
//! function body becomes a step-yield, a suspend-capable function becomes a
//! sync wrapper around an inner stepped function, the helper resolves
//! through the scope chain or falls back to an unresolved reference, and
//! running a transition on its own output changes nothing.

use astwalk::ast::{
    ArrowFunction, CallExpression, Expression, Function, FunctionBody, IdentifierReference,
    MemberExpression, MemberProperty, Program, RefFlag, Statement,
};
use astwalk::ancestry::{AncestorEntry, AncestorInfo, Slot};
use astwalk::lower::{boundary_of, AsyncToGenerator, FnCtx};
use astwalk::scope::{ScopeKind, ScopeTree};
use astwalk::Span;

fn sp(n: u32) -> Span {
    Span { start: n, end: n + 1 }
}

fn ident(name: &str) -> Expression {
    Expression::Ident(IdentifierReference {
        name: name.to_string(),
        symbol: None,
        flags: RefFlag::Read,
        span: sp(1),
    })
}

fn await_of(e: Expression) -> Expression {
    Expression::AwaitExpr { argument: Box::new(e), span: sp(2) }
}

fn async_function(statements: Vec<Statement>) -> Function {
    Function {
        name: None,
        is_async: true,
        is_generator: false,
        params: vec![],
        body: FunctionBody { statements, span: sp(3) },
        scope_id: 0,
        span: sp(4),
    }
}

#[test]
fn suspend_point_becomes_step_yield_only_inside_a_body() {
    let pass = AsyncToGenerator::new();
    // inside a function body: converted, with a synthetic span
    let converted = pass.exit_expression(await_of(ident("bar")), FnCtx::BodyCtx);
    match converted {
        Expression::YieldExpr { delegate, argument, span } => {
            assert!(!delegate);
            assert!(argument.is_some());
            assert_eq!(span, Span { start: 0, end: 0 });
        },
        _ => panic!("a suspend point in a body must become a step-yield"),
    }
    // at top level: never rewritten
    let kept = pass.exit_expression(await_of(ident("bar")), FnCtx::TopCtx);
    assert!(matches!(kept, Expression::AwaitExpr { .. }));
    // in a parameter position: left for the outer rewrite
    let kept2 = pass.exit_expression(await_of(ident("bar")), FnCtx::ParamsCtx);
    assert!(matches!(kept2, Expression::AwaitExpr { .. }));
    // a non-suspend expression is untouched
    let other = pass.exit_expression(ident("x"), FnCtx::BodyCtx);
    assert!(matches!(other, Expression::Ident(_)));
}

fn wrapper_parts(f: &Function) -> (&CallExpression, &Function) {
    // the rewritten body is one return of the helper call whose third
    // argument is the inner stepped function
    assert_eq!(f.body.statements.len(), 1);
    let call = match &f.body.statements[0] {
        Statement::ReturnStmt { argument: Some(Expression::CallExpr(c)), .. } => &**c,
        _ => panic!("the rewritten body must be a single return of a call"),
    };
    assert_eq!(call.arguments.len(), 3);
    assert!(matches!(call.arguments[0], Expression::ThisExpr { .. }));
    assert!(matches!(call.arguments[1], Expression::NullLit { .. }));
    let inner = match &call.arguments[2] {
        Expression::FunctionExpr(inner) => &**inner,
        _ => panic!("the third argument must be the inner stepped function"),
    };
    (call, inner)
}

#[test]
fn suspend_capable_function_becomes_sync_wrapper_around_stepped_inner() {
    let pass = AsyncToGenerator::new();
    let scopes = ScopeTree::new();
    let f = async_function(vec![Statement::ExpressionStmt {
        expression: ident("x"),
        span: sp(5),
    }]);
    let rewritten = pass.exit_function(f, &scopes);
    assert!(!rewritten.is_async);
    let (call, inner) = wrapper_parts(&rewritten);
    // the helper callee: an unresolved reference (the global fallback here)
    match &call.callee {
        Expression::MemberExpr(m) => {
            let mm: &MemberExpression = m;
            match &mm.object {
                Expression::Ident(id) => {
                    assert_eq!(id.name, "babelHelpers");
                    assert_eq!(id.symbol, None);
                },
                _ => panic!("the helper object must be a reference"),
            }
            match &mm.property {
                MemberProperty::StaticProp { name, .. } => assert_eq!(name, "asyncToGenerator"),
                _ => panic!("the helper property must be static"),
            }
        },
        _ => panic!("the helper callee must be a member access"),
    }
    // the inner stepped function: anonymous, sync, steppable, no parameters,
    // carrying the old body
    assert!(inner.name.is_none());
    assert!(!inner.is_async);
    assert!(inner.is_generator);
    assert_eq!(inner.params.len(), 0);
    assert_eq!(inner.body.statements.len(), 1);
}

#[test]
fn helper_resolves_through_the_scope_chain_when_bound() {
    let pass = AsyncToGenerator::new();
    let mut scopes = ScopeTree::new();
    let helper = scopes.declare(0, "babelHelpers".to_string(), 0);
    let inner_scope = scopes.create_scope(0, ScopeKind::FunctionScope);
    let mut f = async_function(vec![]);
    f.scope_id = inner_scope;
    let rewritten = pass.exit_function(f, &scopes);
    let (call, _inner) = wrapper_parts(&rewritten);
    match &call.callee {
        Expression::MemberExpr(m) => match &m.object {
            Expression::Ident(id) => assert_eq!(id.symbol, Some(helper)),
            _ => panic!("the helper object must be a reference"),
        },
        _ => panic!("the helper callee must be a member access"),
    }
}

#[test]
fn running_the_lowering_on_its_own_output_is_a_no_op() {
    let pass = AsyncToGenerator::new();
    let scopes = ScopeTree::new();
    // converted suspend point: a second exit pass leaves the yield alone
    let once = pass.exit_expression(await_of(ident("bar")), FnCtx::BodyCtx);
    let twice = pass.exit_expression(once, FnCtx::BodyCtx);
    assert!(matches!(twice, Expression::YieldExpr { .. }));
    // rewritten function: sync, so the transition does not fire again
    let rewritten = pass.exit_function(async_function(vec![]), &scopes);
    assert!(!rewritten.is_async);
    let again = pass.exit_function(rewritten, &scopes);
    assert!(!again.is_async);
    let (_, inner) = wrapper_parts(&again);
    // the inner function is still the stepped one: no second wrapping
    assert!(inner.is_generator);
    assert!(!matches!(
        inner.body.statements.first(),
        Some(Statement::ReturnStmt { argument: Some(Expression::CallExpr(_)), .. })
    ));
    // rewritten arrow: same
    let arrow = ArrowFunction {
        is_async: true,
        params: vec![],
        body: FunctionBody { statements: vec![], span: sp(6) },
        expression: true,
        scope_id: 0,
        span: sp(7),
    };
    let lowered = pass.exit_arrow_function(arrow, &scopes);
    assert!(!lowered.is_async);
    assert!(lowered.expression);
    let again = pass.exit_arrow_function(lowered, &scopes);
    assert!(!again.is_async);
    assert_eq!(again.body.statements.len(), 1);
}

#[test]
fn boundary_context_reads_the_nearest_function_slot() {
    // no enclosing function at all: top level
    assert_eq!(boundary_of(&vec![]), FnCtx::TopCtx);
    // nearest enclosing function entry is a body slot
    let body_stack = vec![
        AncestorEntry { info: AncestorInfo::ProgramNode, slot: Slot::BodySlot },
        AncestorEntry { info: AncestorInfo::FunctionNode, slot: Slot::BodySlot },
        AncestorEntry { info: AncestorInfo::OtherNode, slot: Slot::OtherSlot },
    ];
    assert_eq!(boundary_of(&body_stack), FnCtx::BodyCtx);
    // nearest enclosing function entry is a parameter slot, even under an
    // outer function body
    let params_stack = vec![
        AncestorEntry { info: AncestorInfo::FunctionNode, slot: Slot::BodySlot },
        AncestorEntry {
            info: AncestorInfo::ArrowNode { first_stmt_is_expression: true },
            slot: Slot::ParamsSlot,
        },
        AncestorEntry { info: AncestorInfo::OtherNode, slot: Slot::OtherSlot },
    ];
    assert_eq!(boundary_of(&params_stack), FnCtx::ParamsCtx);
}

#[test]
fn whole_program_lowering_is_idempotent() {
    // async function f() { await bar(); }  — lowered once, then again
    let pass = AsyncToGenerator::new();
    let scopes = ScopeTree::new();
    let body = vec![Statement::ExpressionStmt {
        expression: await_of(Expression::CallExpr(Box::new(CallExpression {
            callee: ident("bar"),
            arguments: vec![],
            optional: false,
            span: sp(8),
        }))),
        span: sp(9),
    }];
    let p = Program {
        statements: vec![Statement::FunctionDeclStmt(Box::new(async_function(body)))],
        scope_id: 0,
        span: sp(0),
    };
    let once = pass.lower_program(p, &scopes);
    // the declaration was rewritten: sync wrapper, stepped inner function,
    // the suspend point now a step-yield inside the inner body
    let f1 = match &once.statements[0] {
        Statement::FunctionDeclStmt(f) => &**f,
        _ => panic!("the declaration must remain a declaration"),
    };
    assert!(!f1.is_async);
    let (_, inner) = wrapper_parts(f1);
    assert!(inner.is_generator);
    match &inner.body.statements[0] {
        Statement::ExpressionStmt { expression: Expression::YieldExpr { .. }, .. } => {},
        _ => panic!("the suspend point must have become a step-yield"),
    }
    // a top-level suspend point is never rewritten
    let top = Program {
        statements: vec![Statement::ExpressionStmt {
            expression: await_of(ident("bar")),
            span: sp(10),
        }],
        scope_id: 0,
        span: sp(0),
    };
    let top_lowered = pass.lower_program(top, &scopes);
    assert!(matches!(
        top_lowered.statements[0],
        Statement::ExpressionStmt { expression: Expression::AwaitExpr { .. }, .. }
    ));
    // the second run reproduces the first run's result exactly
    let again = pass.lower_program(once, &scopes);
    let f2 = match &again.statements[0] {
        Statement::FunctionDeclStmt(f) => &**f,
        _ => panic!("the declaration must remain a declaration"),
    };
    assert!(!f2.is_async);
    assert_eq!(f2.body.statements.len(), 1);
    let (_, inner2) = wrapper_parts(f2);
    assert!(inner2.is_generator);
    assert_eq!(inner2.params.len(), 0);
    assert!(matches!(
        inner2.body.statements[0],
        Statement::ExpressionStmt { expression: Expression::YieldExpr { .. }, .. }
    ));
}
