//! The traversal engine for analysis passes: one depth-first walk over the
//! tree drives every registered visitor in order, maintaining the ancestor
//! stack and the current-scope stack. Analysis visitors only read the tree
//! and append diagnostics; the stacks return exactly as they were after
//! every subtree, and the stack a visitor observes is the path from the
//! root to the visited node.

use vstd::prelude::*;
use crate::ast::{Expression, Statement, Program, Function, ArrowFunction, CallExpression,
    JsxElement, JsxFragment, JsxChild, JsxAttributeItem, JsxAttributeValue, Parameter,
    VariableDeclarator, MemberProperty};
use crate::model::{CallM, ArrowM, FunctionM, ExprM, StmtM, ElementM, FragmentM, ChildM,
    AttrItemM, AttrValueM, ParamM, DeclM, PropM, MemberPropM, ProgramM};
use crate::ancestry::{AncestorEntry, AncestorInfo, Slot, CallSummary, CallSummaryM, EntryM,
    InfoM, stack_model, as_member_m, static_prop_m, without_parens_m, span_of};
use crate::jsx_key::{JsxKey, is_children, is_to_array, is_children_m, is_to_array_m,
    jsx_key_element_diags, jsx_key_order_diags, jsx_key_fragment_diags};
use crate::media::{MediaHasCaption, media_diags};
use crate::config::{ModuleRecord, ModuleRecordM, JsxA11ySettings, SettingsM};
use crate::scope::{ScopeTree, ScopeId};
use crate::diagnostics::{Diagnostic, DiagM, diags_model};

verus! {

/// One registered analysis visitor.
pub enum AnalysisPass {
    KeyRule(JsxKey),
    CaptionRule(MediaHasCaption),
}

/// What the walk records about a call for the ancestor scans.
pub open spec fn call_info(c: CallM, m: ModuleRecordM, t: ScopeTree) -> CallSummaryM {
    CallSummaryM {
        callee_prop: match as_member_m(without_parens_m(*c.callee)) {
            Some(mem) => static_prop_m(mem),
            None => None,
        },
        arg_spans: Seq::new(c.arguments.len(), |i: int| span_of(c.arguments[i])),
        children_to_array: is_children_m(c, m, t) && is_to_array_m(c),
        span: c.span,
    }
}

/// Summarizes a call for the ancestor stack.
#[verifier::loop_isolation(false)]
fn summarize_call(call: &CallExpression, module: &ModuleRecord, scopes: &ScopeTree) -> (r:
    CallSummary)
    requires
        scopes.wf(),
        scopes.scopes@.len() > 0,
    ensures
        r.model() == call_info(call.model(), module.model(), *scopes),
{
    proof {
        assert(call.model().callee == Box::new(call.callee.model()));
        assert(*call.model().callee == call.callee.model());
    }
    let unwrapped = call.callee.without_parentheses();
    let ghost specprop: Option<(crate::Span, Seq<char>)> = (match as_member_m(
        without_parens_m(*call.model().callee),
    ) {
        Some(mem) => static_prop_m(mem),
        None => None,
    });
    let callee_prop: Option<(crate::Span, String)> = match unwrapped.as_member_expression() {
        Some(mem) => {
            let p = mem.static_property_info();
            proof {
                if p is Some {
                    let pair = p->0;
                    assert(specprop == Some((pair.0, pair.1@)));
                } else {
                    assert(specprop is None);
                }
            }
            p
        },
        None => {
            proof {
                assert(specprop is None);
            }
            None
        },
    };
    let mut arg_spans: Vec<crate::Span> = Vec::new();
    let n = call.arguments.len();
    let mut i: usize = 0;
    while i < n
        invariant
            n == call.arguments@.len(),
            i <= n,
            arg_spans@.len() == i,
            forall|j: int| 0 <= j < i ==> arg_spans@[j] == span_of(
                #[trigger] crate::model::exprs_model(call.arguments@)[j],
            ),
        decreases n - i,
    {
        let sp = call.arguments[i].span();
        arg_spans.push(sp);
        proof {
            assert(crate::model::exprs_model(call.arguments@)[i as int] == call.arguments@[
                i as int
            ].model());
        }
        i = i + 1;
    }
    let children_to_array = is_children(call, module, scopes) && is_to_array(call);
    let r = CallSummary { callee_prop, arg_spans, children_to_array, span: call.span };
    proof {
        let goal = call_info(call.model(), module.model(), *scopes);
        assert(call.model().arguments == crate::model::exprs_model(call.arguments@));
        assert(r.model().arg_spans.len() == goal.arg_spans.len());
        assert forall|k: int| 0 <= k < goal.arg_spans.len() implies r.model().arg_spans[k]
            == goal.arg_spans[k] by {
            assert(r.model().arg_spans[k] == arg_spans@[k]);
            assert(goal.arg_spans[k] == span_of(call.model().arguments[k]));
        }
        assert(r.model().arg_spans =~= goal.arg_spans);
        assert(goal.callee_prop == specprop);
        if r.callee_prop is Some {
            let pair = r.callee_prop->0;
            assert(r.model().callee_prop == Some((pair.0, pair.1@)));
            assert(specprop == Some((pair.0, pair.1@)));
        } else {
            assert(r.model().callee_prop is None);
            assert(specprop is None);
        }
        assert(r.model().children_to_array == goal.children_to_array);
        assert(r.model().span == goal.span);
        assert(r.model() =~= goal);
    }
    r
}

/// Whether an arrow's body starts with an expression statement.
pub open spec fn arrow_first_stmt_is_expression(a: ArrowM) -> bool {
    a.body.statements.len() > 0 && a.body.statements[0] is ExpressionStmt
}

/// Summarizes an arrow for the ancestor stack.
fn summarize_arrow(arrow: &ArrowFunction) -> (r: AncestorInfo)
    ensures
        r.model() == (InfoM::ArrowNode {
            first_stmt_is_expression: arrow_first_stmt_is_expression(arrow.model()),
        }),
{
    let first = arrow.body.statements.len() > 0 && matches!(
        &arrow.body.statements[0],
        Statement::ExpressionStmt { .. }
    );
    proof {
        if arrow.body.statements@.len() > 0 {
            assert(crate::model::stmts_model(arrow.body.statements@)[0] == arrow.body.statements@[
                0
            ].model());
        }
    }
    AncestorInfo::ArrowNode { first_stmt_is_expression: first }
}

/// The walking context: the ancestor stack, the current-scope stack, and
/// the diagnostic sink.
pub struct WalkContext {
    pub stack: Vec<AncestorEntry>,
    pub scope_stack: Vec<ScopeId>,
    pub diagnostics: Vec<Diagnostic>,
}

/// Both stacks are exactly as before, and the previously emitted
/// diagnostics stand unchanged in front of whatever was appended.
pub open spec fn walk_preserves(pre: WalkContext, post: WalkContext) -> bool {
    &&& post.stack@ == pre.stack@
    &&& post.scope_stack@ == pre.scope_stack@
    &&& post.diagnostics@.len() >= pre.diagnostics@.len()
    &&& post.diagnostics@.subrange(0, pre.diagnostics@.len() as int) == pre.diagnostics@
}

// --- what one walk emits, over the models ---

/// Everything a walk consults, as models: the registered passes, the module
/// record, the scope tree, and the toolchain settings.
#[verifier::ext_equal]
pub ghost struct WalkEnvM {
    pub passes: Seq<AnalysisPass>,
    pub module: ModuleRecordM,
    pub scopes: ScopeTree,
    pub settings: SettingsM,
}

/// What one pass emits at one element: the key rule's missing-key finding
/// followed by its attribute-ordering finding, or the caption rule's
/// finding. No pass emits anything at any other node kind.
pub open spec fn pass_element_diags(
    pass: AnalysisPass,
    el: ElementM,
    stack: Seq<EntryM>,
    settings: SettingsM,
) -> Seq<DiagM> {
    match pass {
        AnalysisPass::KeyRule(_) => jsx_key_element_diags(el.opening, stack)
            + jsx_key_order_diags(el.opening.attributes),
        AnalysisPass::CaptionRule(rule) => media_diags(rule.model(), el, settings),
    }
}

/// What the registered passes emit at one element, in registration order.
pub open spec fn passes_element_diags(
    passes: Seq<AnalysisPass>,
    el: ElementM,
    stack: Seq<EntryM>,
    settings: SettingsM,
) -> Seq<DiagM>
    decreases passes.len(),
{
    if passes.len() == 0 {
        Seq::<DiagM>::empty()
    } else {
        pass_element_diags(passes[0], el, stack, settings) + passes_element_diags(
            passes.drop_first(),
            el,
            stack,
            settings,
        )
    }
}

/// What one pass emits at one fragment.
pub open spec fn pass_fragment_diags(
    pass: AnalysisPass,
    opening_span: crate::Span,
    stack: Seq<EntryM>,
) -> Seq<DiagM> {
    match pass {
        AnalysisPass::KeyRule(_) => jsx_key_fragment_diags(opening_span, stack),
        AnalysisPass::CaptionRule(_) => Seq::<DiagM>::empty(),
    }
}

/// What the registered passes emit at one fragment, in registration order.
pub open spec fn passes_fragment_diags(
    passes: Seq<AnalysisPass>,
    opening_span: crate::Span,
    stack: Seq<EntryM>,
) -> Seq<DiagM>
    decreases passes.len(),
{
    if passes.len() == 0 {
        Seq::<DiagM>::empty()
    } else {
        pass_fragment_diags(passes[0], opening_span, stack) + passes_fragment_diags(
            passes.drop_first(),
            opening_span,
            stack,
        )
    }
}

/// The entry standing for a node no scan inspects.
pub open spec fn other_entry() -> EntryM {
    EntryM { info: InfoM::OtherNode, slot: Slot::OtherSlot }
}

/// The entries standing for an element, its opening tag, an attribute, and
/// the attribute's container, on the path to an attribute expression.
pub open spec fn attr_entries() -> Seq<EntryM> {
    seq![
        EntryM { info: InfoM::JsxElementNode, slot: Slot::OtherSlot },
        EntryM { info: InfoM::JsxOpeningNode, slot: Slot::OtherSlot },
        other_entry(),
        other_entry(),
    ]
}

/// What the walk emits while visiting one expression at the given ancestor
/// stack: the enter hooks at element and fragment nodes, then the children
/// left to right, each under the entries for its syntactic position.
pub open spec fn expr_diags(e: ExprM, stack: Seq<EntryM>, env: WalkEnvM) -> Seq<DiagM>
    decreases e, 1int,
{
    match e {
        ExprM::Element(el) => element_diags(*el, stack, env),
        ExprM::Fragment(fr) => fragment_diags(*fr, stack, env),
        ExprM::CallExpr(c) => {
            let info = InfoM::CallNode(call_info(*c, env.module, env.scopes));
            expr_diags(*c.callee, stack.push(EntryM { info, slot: Slot::CalleeSlot }), env)
                + args_diags(c.arguments, info, stack, env)
        },
        ExprM::NewExpr { callee, arguments, .. } => expr_diags(
            *callee,
            stack.push(EntryM { info: InfoM::OtherNode, slot: Slot::CalleeSlot }),
            env,
        ) + args_diags(arguments, InfoM::OtherNode, stack, env),
        ExprM::ArrayExpr { elements, .. } => exprs_under_diags(
            elements,
            seq![EntryM { info: InfoM::ArrayNode, slot: Slot::OtherSlot }],
            stack,
            env,
        ),
        ExprM::ObjectExpr { properties, .. } => props_diags(properties, stack, env),
        ExprM::MemberExpr(m) => {
            let stack2 = stack.push(other_entry());
            expr_diags(*m.object, stack2, env) + (match m.property {
                MemberPropM::ComputedProp { expression } => expr_diags(*expression, stack2, env),
                MemberPropM::StaticProp { .. } => Seq::<DiagM>::empty(),
            })
        },
        ExprM::ArrowExpr(a) => arrow_diags(*a, stack, env),
        ExprM::FunctionExpr(f) => function_diags(*f, stack, env),
        ExprM::AwaitExpr { argument, .. } => expr_diags(*argument, stack.push(other_entry()), env),
        ExprM::YieldExpr { argument, .. } => match argument {
            Some(a) => expr_diags(*a, stack.push(other_entry()), env),
            None => Seq::<DiagM>::empty(),
        },
        ExprM::LogicalExpr { left, right, .. } => {
            let stack2 = stack.push(other_entry());
            expr_diags(*left, stack2, env) + expr_diags(*right, stack2, env)
        },
        ExprM::ConditionalExpr { test, consequent, alternate, .. } => {
            let stack2 = stack.push(other_entry());
            expr_diags(*test, stack2, env) + expr_diags(*consequent, stack2, env) + expr_diags(
                *alternate,
                stack2,
                env,
            )
        },
        ExprM::AssignExpr { value, .. } => expr_diags(*value, stack.push(other_entry()), env),
        ExprM::ParenExpr { expression, .. } => expr_diags(
            *expression,
            stack.push(other_entry()),
            env,
        ),
        ExprM::OtherExpr { children, .. } => exprs_under_diags(
            children,
            seq![other_entry()],
            stack,
            env,
        ),
        _ => Seq::<DiagM>::empty(),
    }
}

/// What the walk emits over a list of expressions, each visited under the
/// given pushed entries.
pub open spec fn exprs_under_diags(
    es: Seq<ExprM>,
    pushed: Seq<EntryM>,
    stack: Seq<EntryM>,
    env: WalkEnvM,
) -> Seq<DiagM>
    decreases es, 0int,
{
    if es.len() == 0 {
        Seq::<DiagM>::empty()
    } else {
        expr_diags(es[0], stack + pushed, env) + exprs_under_diags(
            es.drop_first(),
            pushed,
            stack,
            env,
        )
    }
}

/// What the walk emits over a call's or constructor's arguments: each one
/// under the calling node's entry at the argument slot plus the argument's
/// own entry.
pub open spec fn args_diags(
    args: Seq<ExprM>,
    caller_info: InfoM,
    stack: Seq<EntryM>,
    env: WalkEnvM,
) -> Seq<DiagM>
    decreases args, 0int,
{
    if args.len() == 0 {
        Seq::<DiagM>::empty()
    } else {
        expr_diags(
            args[0],
            stack.push(EntryM { info: caller_info, slot: Slot::ArgSlot }).push(
                EntryM {
                    info: InfoM::ArgumentNode { span: span_of(args[0]) },
                    slot: Slot::OtherSlot,
                },
            ),
            env,
        ) + args_diags(args.drop_first(), caller_info, stack, env)
    }
}

/// What the walk emits over an object literal's properties: each value
/// under the object's entry and its property's entry.
pub open spec fn props_diags(ps: Seq<PropM>, stack: Seq<EntryM>, env: WalkEnvM) -> Seq<DiagM>
    decreases ps, 0int,
{
    if ps.len() == 0 {
        Seq::<DiagM>::empty()
    } else {
        expr_diags(
            ps[0].value,
            stack + seq![
                other_entry(),
                EntryM { info: InfoM::ObjectPropertyNode, slot: Slot::OtherSlot },
            ],
            env,
        ) + props_diags(ps.drop_first(), stack, env)
    }
}

/// What the walk emits over a parameter list: each default value under the
/// owning function's entry at the parameter slot plus the parameter's own
/// entry.
pub open spec fn params_diags(
    ps: Seq<ParamM>,
    owner_params_entry: EntryM,
    stack: Seq<EntryM>,
    env: WalkEnvM,
) -> Seq<DiagM>
    decreases ps, 0int,
{
    if ps.len() == 0 {
        Seq::<DiagM>::empty()
    } else {
        (match ps[0].init {
            Some(init) => expr_diags(init, stack + seq![owner_params_entry, other_entry()], env),
            None => Seq::<DiagM>::empty(),
        }) + params_diags(ps.drop_first(), owner_params_entry, stack, env)
    }
}

/// What the walk emits over a statement list, each statement under the
/// given pushed entries.
pub open spec fn stmts_under_diags(
    ss: Seq<StmtM>,
    pushed: Seq<EntryM>,
    stack: Seq<EntryM>,
    env: WalkEnvM,
) -> Seq<DiagM>
    decreases ss, 1int,
{
    if ss.len() == 0 {
        Seq::<DiagM>::empty()
    } else {
        stmt_diags(ss[0], stack + pushed, env) + stmts_under_diags(
            ss.drop_first(),
            pushed,
            stack,
            env,
        )
    }
}

/// What the walk emits over a declarator list: each initializer under the
/// declaration's and its declarator's entries.
pub open spec fn decls_diags(ds: Seq<DeclM>, stack: Seq<EntryM>, env: WalkEnvM) -> Seq<DiagM>
    decreases ds, 0int,
{
    if ds.len() == 0 {
        Seq::<DiagM>::empty()
    } else {
        (match ds[0].init {
            Some(init) => expr_diags(init, stack + seq![other_entry(), other_entry()], env),
            None => Seq::<DiagM>::empty(),
        }) + decls_diags(ds.drop_first(), stack, env)
    }
}

/// What the walk emits while visiting one statement.
pub open spec fn stmt_diags(s: StmtM, stack: Seq<EntryM>, env: WalkEnvM) -> Seq<DiagM>
    decreases s, 2int,
{
    match s {
        StmtM::ExpressionStmt { expression, .. } => expr_diags(
            expression,
            stack.push(other_entry()),
            env,
        ),
        StmtM::ReturnStmt { argument, .. } => match argument {
            Some(a) => expr_diags(
                a,
                stack.push(EntryM { info: InfoM::ReturnNode, slot: Slot::OtherSlot }),
                env,
            ),
            None => Seq::<DiagM>::empty(),
        },
        StmtM::BlockStmt { statements, .. } => stmts_under_diags(
            statements,
            seq![other_entry()],
            stack,
            env,
        ),
        StmtM::IfStmt { test, consequent, alternate, .. } => {
            let stack2 = stack.push(other_entry());
            expr_diags(test, stack2, env) + stmt_diags(*consequent, stack2, env) + (match
                alternate {
                Some(alt) => stmt_diags(*alt, stack2, env),
                None => Seq::<DiagM>::empty(),
            })
        },
        StmtM::VariableDeclStmt { declarators, .. } => decls_diags(declarators, stack, env),
        StmtM::FunctionDeclStmt(f) => function_diags(*f, stack, env),
        StmtM::OtherStmt { .. } => Seq::<DiagM>::empty(),
    }
}

/// What the walk emits while visiting one function: parameter defaults
/// under the parameter slot, then the body's statements under the body
/// slot.
pub open spec fn function_diags(f: FunctionM, stack: Seq<EntryM>, env: WalkEnvM) -> Seq<DiagM>
    decreases f, 3int,
{
    params_diags(
        f.params,
        EntryM { info: InfoM::FunctionNode, slot: Slot::ParamsSlot },
        stack,
        env,
    ) + stmts_under_diags(
        f.body.statements,
        seq![EntryM { info: InfoM::FunctionNode, slot: Slot::BodySlot }, other_entry()],
        stack,
        env,
    )
}

/// What the walk emits while visiting one arrow function.
pub open spec fn arrow_diags(a: ArrowM, stack: Seq<EntryM>, env: WalkEnvM) -> Seq<DiagM>
    decreases a, 3int,
{
    let info = InfoM::ArrowNode {
        first_stmt_is_expression: arrow_first_stmt_is_expression(a),
    };
    params_diags(a.params, EntryM { info, slot: Slot::ParamsSlot }, stack, env)
        + stmts_under_diags(
        a.body.statements,
        seq![EntryM { info, slot: Slot::BodySlot }, other_entry()],
        stack,
        env,
    )
}

/// What the walk emits while visiting one element: first the enter hooks of
/// every registered pass, in registration order, at the element's own
/// stack; then its attribute expressions; then its children.
pub open spec fn element_diags(el: ElementM, stack: Seq<EntryM>, env: WalkEnvM) -> Seq<DiagM>
    decreases el, 3int,
{
    passes_element_diags(env.passes, el, stack, env.settings) + attrs_diags(
        el.opening.attributes,
        stack,
        env,
    ) + children_under_diags(
        el.children,
        EntryM { info: InfoM::JsxElementNode, slot: Slot::OtherSlot },
        stack,
        env,
    )
}

/// What the walk emits over an attribute list: the expressions inside
/// containers and spreads, each under the attribute-path entries.
pub open spec fn attrs_diags(ats: Seq<AttrItemM>, stack: Seq<EntryM>, env: WalkEnvM) -> Seq<
    DiagM,
>
    decreases ats, 0int,
{
    if ats.len() == 0 {
        Seq::<DiagM>::empty()
    } else {
        (match ats[0] {
            AttrItemM::Attr(a) => match a.value {
                Some(AttrValueM::AttrContainer { expression, .. }) => expr_diags(
                    *expression,
                    stack + attr_entries(),
                    env,
                ),
                _ => Seq::<DiagM>::empty(),
            },
            AttrItemM::AttrSpread { argument, .. } => expr_diags(
                *argument,
                stack + attr_entries(),
                env,
            ),
        }) + attrs_diags(ats.drop_first(), stack, env)
    }
}

/// What the walk emits over an element's or fragment's children, each under
/// its owner's entry.
pub open spec fn children_under_diags(
    cs: Seq<ChildM>,
    owner: EntryM,
    stack: Seq<EntryM>,
    env: WalkEnvM,
) -> Seq<DiagM>
    decreases cs, 2int,
{
    if cs.len() == 0 {
        Seq::<DiagM>::empty()
    } else {
        child_diags(cs[0], stack.push(owner), env) + children_under_diags(
            cs.drop_first(),
            owner,
            stack,
            env,
        )
    }
}

/// What the walk emits while visiting one element child.
pub open spec fn child_diags(c: ChildM, stack: Seq<EntryM>, env: WalkEnvM) -> Seq<DiagM>
    decreases c, 4int,
{
    match c {
        ChildM::ChildElement(el) => element_diags(*el, stack, env),
        ChildM::ChildFragment(fr) => fragment_diags(*fr, stack, env),
        ChildM::ChildContainer { expression, .. } => expr_diags(
            *expression,
            stack.push(other_entry()),
            env,
        ),
        ChildM::ChildText { .. } => Seq::<DiagM>::empty(),
    }
}

/// What the walk emits while visiting one fragment.
pub open spec fn fragment_diags(fr: FragmentM, stack: Seq<EntryM>, env: WalkEnvM) -> Seq<DiagM>
    decreases fr, 3int,
{
    passes_fragment_diags(env.passes, fr.opening_span, stack) + children_under_diags(
        fr.children,
        EntryM { info: InfoM::JsxFragmentNode, slot: Slot::OtherSlot },
        stack,
        env,
    )
}

/// The ordered sequence of diagnostics one whole walk emits: every
/// statement of the unit, visited at depth one under the program's entry,
/// starting (and, the stack being balanced, ending) with an empty ancestor
/// stack.
pub open spec fn program_diags(p: ProgramM, env: WalkEnvM) -> Seq<DiagM> {
    stmts_under_diags(
        p.statements,
        seq![EntryM { info: InfoM::ProgramNode, slot: Slot::BodySlot }],
        Seq::<EntryM>::empty(),
        env,
    )
}

/// Runs every registered pass's element hooks, in registration order: the
/// appended diagnostics are exactly the concatenation of each pass's
/// findings for this element at this stack.
#[verifier::loop_isolation(false)]
fn run_element_hooks(
    element: &JsxElement,
    passes: &Vec<AnalysisPass>,
    stack: &Vec<AncestorEntry>,
    settings: &JsxA11ySettings,
    diagnostics: &mut Vec<Diagnostic>,
)
    ensures
        final(diagnostics)@.len() >= old(diagnostics)@.len(),
        final(diagnostics)@.subrange(0, old(diagnostics)@.len() as int) == old(diagnostics)@,
        diags_model(final(diagnostics)@) == diags_model(old(diagnostics)@)
            + passes_element_diags(
            passes@,
            element.model(),
            stack_model(stack@),
            settings.model(),
        ),
{
    let ghost elm = element.model();
    let ghost sm = stack_model(stack@);
    let ghost stm = settings.model();
    let n = passes.len();
    let mut k: usize = 0;
    proof {
        assert(passes@.skip(0) =~= passes@);
        assert(diags_model(diagnostics@) + passes_element_diags(passes@, elm, sm, stm)
            =~= diags_model(old(diagnostics)@) + passes_element_diags(
            passes@.skip(0),
            elm,
            sm,
            stm,
        ));
    }
    while k < n
        invariant
            n == passes@.len(),
            k <= n,
            diagnostics@.len() >= old(diagnostics)@.len(),
            diagnostics@.subrange(0, old(diagnostics)@.len() as int) == old(diagnostics)@,
            diags_model(old(diagnostics)@) + passes_element_diags(passes@, elm, sm, stm)
                == diags_model(diagnostics@) + passes_element_diags(
                passes@.skip(k as int),
                elm,
                sm,
                stm,
            ),
        decreases n - k,
    {
        let ghost before = diagnostics@;
        proof {
            assert(passes@.skip(k as int)[0] == passes@[k as int]);
            assert(passes@.skip(k as int).drop_first() =~= passes@.skip(k as int + 1));
        }
        match &passes[k] {
            AnalysisPass::KeyRule(rule) => {
                rule.check_jsx_element(element, stack, diagnostics);
                rule.check_jsx_element_is_key_before_spread(element, diagnostics);
                proof {
                    assert(element.opening.model() == elm.opening);
                    assert(element.opening.model().attributes == crate::model::attrs_model(
                        element.opening.attributes@,
                    ));
                    assert(diags_model(diagnostics@) =~= diags_model(before)
                        + pass_element_diags(passes@[k as int], elm, sm, stm));
                }
            },
            AnalysisPass::CaptionRule(rule) => {
                rule.run_on_element(element, settings, diagnostics);
                proof {
                    assert(diags_model(diagnostics@) =~= diags_model(before)
                        + pass_element_diags(passes@[k as int], elm, sm, stm));
                }
            },
        }
        proof {
            assert(diagnostics@.subrange(0, old(diagnostics)@.len() as int) =~= old(
                diagnostics,
            )@.subrange(0, old(diagnostics)@.len() as int));
            assert(diags_model(before) + (pass_element_diags(passes@[k as int], elm, sm, stm)
                + passes_element_diags(passes@.skip(k as int + 1), elm, sm, stm))
                =~= (diags_model(before) + pass_element_diags(passes@[k as int], elm, sm, stm))
                + passes_element_diags(passes@.skip(k as int + 1), elm, sm, stm));
        }
        k = k + 1;
    }
    proof {
        assert(passes_element_diags(passes@.skip(n as int), elm, sm, stm) =~= Seq::<
            DiagM,
        >::empty());
        assert(diags_model(diagnostics@) + Seq::<DiagM>::empty() =~= diags_model(diagnostics@));
    }
}

/// Runs every registered pass's fragment hooks, in registration order: the
/// appended diagnostics are exactly the concatenation of each pass's
/// findings for this fragment at this stack.
#[verifier::loop_isolation(false)]
fn run_fragment_hooks(
    fragment: &JsxFragment,
    passes: &Vec<AnalysisPass>,
    stack: &Vec<AncestorEntry>,
    diagnostics: &mut Vec<Diagnostic>,
)
    ensures
        final(diagnostics)@.len() >= old(diagnostics)@.len(),
        final(diagnostics)@.subrange(0, old(diagnostics)@.len() as int) == old(diagnostics)@,
        diags_model(final(diagnostics)@) == diags_model(old(diagnostics)@)
            + passes_fragment_diags(passes@, fragment.opening_span, stack_model(stack@)),
{
    let ghost sm = stack_model(stack@);
    let ghost sp = fragment.opening_span;
    let n = passes.len();
    let mut k: usize = 0;
    proof {
        assert(passes@.skip(0) =~= passes@);
        assert(diags_model(diagnostics@) + passes_fragment_diags(passes@, sp, sm)
            =~= diags_model(old(diagnostics)@) + passes_fragment_diags(
            passes@.skip(0),
            sp,
            sm,
        ));
    }
    while k < n
        invariant
            n == passes@.len(),
            k <= n,
            diagnostics@.len() >= old(diagnostics)@.len(),
            diagnostics@.subrange(0, old(diagnostics)@.len() as int) == old(diagnostics)@,
            diags_model(old(diagnostics)@) + passes_fragment_diags(passes@, sp, sm)
                == diags_model(diagnostics@) + passes_fragment_diags(
                passes@.skip(k as int),
                sp,
                sm,
            ),
        decreases n - k,
    {
        let ghost before = diagnostics@;
        proof {
            assert(passes@.skip(k as int)[0] == passes@[k as int]);
            assert(passes@.skip(k as int).drop_first() =~= passes@.skip(k as int + 1));
        }
        match &passes[k] {
            AnalysisPass::KeyRule(rule) => {
                rule.check_jsx_fragment(fragment, stack, diagnostics);
            },
            AnalysisPass::CaptionRule(_) => {},
        }
        proof {
            assert(diags_model(diagnostics@) =~= diags_model(before) + pass_fragment_diags(
                passes@[k as int],
                sp,
                sm,
            ));
            assert(diagnostics@.subrange(0, old(diagnostics)@.len() as int) =~= old(
                diagnostics,
            )@.subrange(0, old(diagnostics)@.len() as int));
            assert(diags_model(before) + (pass_fragment_diags(passes@[k as int], sp, sm)
                + passes_fragment_diags(passes@.skip(k as int + 1), sp, sm))
                =~= (diags_model(before) + pass_fragment_diags(passes@[k as int], sp, sm))
                + passes_fragment_diags(passes@.skip(k as int + 1), sp, sm));
        }
        k = k + 1;
    }
    proof {
        assert(passes_fragment_diags(passes@.skip(n as int), sp, sm) =~= Seq::<DiagM>::empty());
        assert(diags_model(diagnostics@) + Seq::<DiagM>::empty() =~= diags_model(diagnostics@));
    }
}

/// Everything a walk consults without changing it.
pub struct WalkEnv<'a> {
    pub passes: &'a Vec<AnalysisPass>,
    pub scopes: &'a ScopeTree,
    pub module: &'a ModuleRecord,
    pub settings: &'a JsxA11ySettings,
}

impl<'a> WalkEnv<'a> {
    pub open spec fn wf(self) -> bool {
        self.scopes.wf() && self.scopes.scopes@.len() > 0
    }

    /// The models of everything the walk consults.
    pub open spec fn model(self) -> WalkEnvM {
        WalkEnvM {
            passes: self.passes@,
            module: self.module.model(),
            scopes: *self.scopes,
            settings: self.settings.model(),
        }
    }
}

/// The walk's whole effect on its context: both stacks return exactly as
/// they were (the stack a hook observes while a subtree is visited is the
/// path from the root into that subtree), and the diagnostics appended are
/// exactly `added`.
pub open spec fn walk_adds(pre: WalkContext, post: WalkContext, added: Seq<DiagM>) -> bool {
    &&& walk_preserves(pre, post)
    &&& diags_model(post.diagnostics@) == diags_model(pre.diagnostics@) + added
}

/// Walks one expression: enter hooks fire on element and fragment nodes at
/// the current stack, children are visited left to right under one more
/// entry per level, and the appended diagnostics are exactly what the walk
/// specifies for this expression at this stack.
#[verifier::loop_isolation(false)]
#[verifier::rlimit(100)]
pub fn walk_expr(e: &Expression, env: &WalkEnv, ctx: &mut WalkContext)
    requires
        env.wf(),
    ensures
        walk_adds(
            *old(ctx),
            *final(ctx),
            expr_diags(e.model(), stack_model(old(ctx).stack@), env.model()),
        ),
    decreases e,
{
    let ghost sm0 = stack_model(ctx.stack@);
    let ghost envm = env.model();
    let ghost d0 = diags_model(ctx.diagnostics@);
    proof {
        assert(ctx.diagnostics@.subrange(0, ctx.diagnostics@.len() as int) =~= ctx.diagnostics@);
    }
    let ghost e0 = *e;
    match e {
        Expression::Element(el) => {
            proof {
                assert(e0.model() matches ExprM::Element(b) && *b == (**el).model());
            }
            walk_jsx_element(el, env, ctx);
        },
        Expression::Fragment(fr) => {
            proof {
                assert(e0.model() matches ExprM::Fragment(b) && *b == (**fr).model());
            }
            walk_jsx_fragment(fr, env, ctx);
        },
        Expression::CallExpr(call) => {
            let ghost cm = (**call).model();
            proof {
                assert(e0.model() matches ExprM::CallExpr(b) && *b == cm);
                assert(*cm.callee == call.callee.model());
                assert(cm.arguments == crate::model::exprs_model(call.arguments@));
            }
            let ghost centry = EntryM {
                info: InfoM::CallNode(call_info(cm, envm.module, envm.scopes)),
                slot: Slot::CalleeSlot,
            };
            let info = AncestorInfo::CallNode(summarize_call(call, env.module, env.scopes));
            ctx.stack.push(AncestorEntry { info, slot: Slot::CalleeSlot });
            proof {
                assert(stack_model(ctx.stack@) =~= sm0.push(centry));
                assert(decreases_to!(e0 => e0->CallExpr_0));
            }
            walk_expr(&call.callee, env, ctx);
            pop_entry(&mut ctx.stack);
            let ghost cinfo = InfoM::CallNode(call_info(cm, envm.module, envm.scopes));
            proof {
                assert(ctx.stack@ =~= old(ctx).stack@);
                assert(cm.arguments.skip(0) =~= cm.arguments);
                assert(diags_model(ctx.diagnostics@) =~= d0 + expr_diags(
                    *cm.callee,
                    sm0.push(centry),
                    envm,
                ));
                assert(diags_model(ctx.diagnostics@) + args_diags(cm.arguments, cinfo, sm0, envm)
                    =~= (d0 + expr_diags(*cm.callee, sm0.push(centry), envm)) + args_diags(
                    cm.arguments,
                    cinfo,
                    sm0,
                    envm,
                ));
            }
            let n = call.arguments.len();
            let mut i: usize = 0;
            while i < n
                invariant
                    env.wf(),
                    n == call.arguments@.len(),
                    i <= n,
                    e0 == Expression::CallExpr(*call),
                    walk_preserves(*old(ctx), *ctx),
                    diags_model(ctx.diagnostics@) + args_diags(
                        cm.arguments.skip(i as int),
                        cinfo,
                        sm0,
                        envm,
                    ) == (d0 + expr_diags(*cm.callee, sm0.push(centry), envm)) + args_diags(
                        cm.arguments,
                        cinfo,
                        sm0,
                        envm,
                    ),
                decreases n - i,
            {
                let ghost pre = *ctx;
                let info = AncestorInfo::CallNode(summarize_call(call, env.module, env.scopes));
                ctx.stack.push(AncestorEntry { info, slot: Slot::ArgSlot });
                let sp = call.arguments[i].span();
                ctx.stack.push(AncestorEntry {
                    info: AncestorInfo::ArgumentNode { span: sp },
                    slot: Slot::OtherSlot,
                });
                proof {
                    assert(cm.arguments.skip(i as int)[0] == cm.arguments[i as int]);
                    assert(cm.arguments[i as int] == call.arguments@[i as int].model());
                    assert(cm.arguments.skip(i as int).drop_first() =~= cm.arguments.skip(
                        i as int + 1,
                    ));
                    assert(stack_model(ctx.stack@) =~= sm0.push(
                        EntryM { info: cinfo, slot: Slot::ArgSlot },
                    ).push(
                        EntryM {
                            info: InfoM::ArgumentNode { span: span_of(cm.arguments[i as int]) },
                            slot: Slot::OtherSlot,
                        },
                    ));
                    assert(decreases_to!(e0 => e0->CallExpr_0));
                    assert(decreases_to!(e0->CallExpr_0 =>
                        (*e0->CallExpr_0).arguments));
                    assert(decreases_to!((*e0->CallExpr_0).arguments =>
                        (*e0->CallExpr_0).arguments@[i as int]));
                    assert(decreases_to!(e0 => (*e0->CallExpr_0).arguments@[i as int]));
                }
                let ghost dpre = diags_model(ctx.diagnostics@);
                walk_expr(&call.arguments[i], env, ctx);
                pop_entry(&mut ctx.stack);
                pop_entry(&mut ctx.stack);
                proof {
                    assert(ctx.stack@ =~= pre.stack@);
                    assert(ctx.diagnostics@.subrange(0, old(ctx).diagnostics@.len() as int)
                        =~= old(ctx).diagnostics@);
                    lemma_concat_shift(
                        (d0 + expr_diags(*cm.callee, sm0.push(centry), envm)) + args_diags(
                            cm.arguments,
                            cinfo,
                            sm0,
                            envm,
                        ),
                        dpre,
                        expr_diags(
                            cm.arguments[i as int],
                            sm0.push(EntryM { info: cinfo, slot: Slot::ArgSlot }).push(
                                EntryM {
                                    info: InfoM::ArgumentNode {
                                        span: span_of(cm.arguments[i as int]),
                                    },
                                    slot: Slot::OtherSlot,
                                },
                            ),
                            envm,
                        ),
                        args_diags(cm.arguments.skip(i as int), cinfo, sm0, envm),
                        args_diags(cm.arguments.skip(i as int + 1), cinfo, sm0, envm),
                        diags_model(ctx.diagnostics@),
                    );
                }
                i = i + 1;
            }
            proof {
                assert(args_diags(cm.arguments.skip(n as int), cinfo, sm0, envm) =~= Seq::<
                    DiagM,
                >::empty());
                assert(diags_model(ctx.diagnostics@) + Seq::<DiagM>::empty() =~= diags_model(
                    ctx.diagnostics@,
                ));
                assert((d0 + expr_diags(*cm.callee, sm0.push(centry), envm)) + args_diags(
                    cm.arguments,
                    cinfo,
                    sm0,
                    envm,
                ) =~= d0 + (expr_diags(*cm.callee, sm0.push(centry), envm) + args_diags(
                    cm.arguments,
                    cinfo,
                    sm0,
                    envm,
                )));
                assert(diags_model(ctx.diagnostics@) =~= d0 + expr_diags(e0.model(), sm0, envm));
            }
        },
        Expression::NewExpr { callee, arguments, .. } => {
            let ghost argsM = e0.model()->NewExpr_arguments;
            proof {
                assert(e0.model() matches ExprM::NewExpr { callee: b, arguments: am, .. }
                    && *b == (**callee).model() && am == crate::model::exprs_model(arguments@));
            }
            ctx.stack.push(AncestorEntry { info: AncestorInfo::OtherNode, slot: Slot::CalleeSlot });
            proof {
                assert(stack_model(ctx.stack@) =~= sm0.push(
                    EntryM { info: InfoM::OtherNode, slot: Slot::CalleeSlot },
                ));
                assert(decreases_to!(e0 => e0->NewExpr_callee));
            }
            walk_expr(callee, env, ctx);
            pop_entry(&mut ctx.stack);
            let ghost cpart = expr_diags(
                (**callee).model(),
                sm0.push(EntryM { info: InfoM::OtherNode, slot: Slot::CalleeSlot }),
                envm,
            );
            proof {
                assert(ctx.stack@ =~= old(ctx).stack@);
                assert(argsM.skip(0) =~= argsM);
                assert(diags_model(ctx.diagnostics@) =~= d0 + cpart);
                assert(diags_model(ctx.diagnostics@) + args_diags(
                    argsM,
                    InfoM::OtherNode,
                    sm0,
                    envm,
                ) =~= (d0 + cpart) + args_diags(argsM, InfoM::OtherNode, sm0, envm));
            }
            let n = arguments.len();
            let mut i: usize = 0;
            while i < n
                invariant
                    env.wf(),
                    n == arguments@.len(),
                    i <= n,
                    e0->NewExpr_arguments == *arguments,
                    e0 is NewExpr,
                    argsM == crate::model::exprs_model(arguments@),
                    walk_preserves(*old(ctx), *ctx),
                    diags_model(ctx.diagnostics@) + args_diags(
                        argsM.skip(i as int),
                        InfoM::OtherNode,
                        sm0,
                        envm,
                    ) == (d0 + cpart) + args_diags(argsM, InfoM::OtherNode, sm0, envm),
                decreases n - i,
            {
                let ghost pre = *ctx;
                ctx.stack.push(AncestorEntry {
                    info: AncestorInfo::OtherNode,
                    slot: Slot::ArgSlot,
                });
                let sp = arguments[i].span();
                ctx.stack.push(AncestorEntry {
                    info: AncestorInfo::ArgumentNode { span: sp },
                    slot: Slot::OtherSlot,
                });
                proof {
                    assert(argsM.skip(i as int)[0] == argsM[i as int]);
                    assert(argsM[i as int] == arguments@[i as int].model());
                    assert(argsM.skip(i as int).drop_first() =~= argsM.skip(i as int + 1));
                    assert(stack_model(ctx.stack@) =~= sm0.push(
                        EntryM { info: InfoM::OtherNode, slot: Slot::ArgSlot },
                    ).push(
                        EntryM {
                            info: InfoM::ArgumentNode { span: span_of(argsM[i as int]) },
                            slot: Slot::OtherSlot,
                        },
                    ));
                    assert(decreases_to!(e0 => e0->NewExpr_arguments));
                    assert(decreases_to!(e0->NewExpr_arguments =>
                        e0->NewExpr_arguments@[i as int]));
                    assert(decreases_to!(e0 => e0->NewExpr_arguments@[i as int]));
                }
                let ghost dpre = diags_model(ctx.diagnostics@);
                walk_expr(&arguments[i], env, ctx);
                pop_entry(&mut ctx.stack);
                pop_entry(&mut ctx.stack);
                proof {
                    assert(ctx.stack@ =~= pre.stack@);
                    assert(ctx.diagnostics@.subrange(0, old(ctx).diagnostics@.len() as int)
                        =~= old(ctx).diagnostics@);
                    lemma_concat_shift(
                        (d0 + cpart) + args_diags(argsM, InfoM::OtherNode, sm0, envm),
                        dpre,
                        expr_diags(
                            argsM[i as int],
                            sm0.push(EntryM { info: InfoM::OtherNode, slot: Slot::ArgSlot }).push(
                                EntryM {
                                    info: InfoM::ArgumentNode { span: span_of(argsM[i as int]) },
                                    slot: Slot::OtherSlot,
                                },
                            ),
                            envm,
                        ),
                        args_diags(argsM.skip(i as int), InfoM::OtherNode, sm0, envm),
                        args_diags(argsM.skip(i as int + 1), InfoM::OtherNode, sm0, envm),
                        diags_model(ctx.diagnostics@),
                    );
                }
                i = i + 1;
            }
            proof {
                assert(args_diags(argsM.skip(n as int), InfoM::OtherNode, sm0, envm) =~= Seq::<
                    DiagM,
                >::empty());
                assert(diags_model(ctx.diagnostics@) + Seq::<DiagM>::empty() =~= diags_model(
                    ctx.diagnostics@,
                ));
                assert((d0 + cpart) + args_diags(argsM, InfoM::OtherNode, sm0, envm) =~= d0 + (
                cpart + args_diags(argsM, InfoM::OtherNode, sm0, envm)));
                assert(diags_model(ctx.diagnostics@) =~= d0 + expr_diags(e0.model(), sm0, envm));
            }
        },
        Expression::ArrayExpr { elements, .. } => {
            let ghost elemsM = e0.model()->ArrayExpr_elements;
            let ghost aentry = EntryM { info: InfoM::ArrayNode, slot: Slot::OtherSlot };
            proof {
                assert(e0.model() matches ExprM::ArrayExpr { elements: am, .. }
                    && am == crate::model::exprs_model(elements@));
                assert(elemsM.skip(0) =~= elemsM);
                assert(diags_model(ctx.diagnostics@) + exprs_under_diags(
                    elemsM,
                    seq![aentry],
                    sm0,
                    envm,
                ) =~= d0 + exprs_under_diags(elemsM, seq![aentry], sm0, envm));
            }
            let n = elements.len();
            let mut i: usize = 0;
            while i < n
                invariant
                    env.wf(),
                    n == elements@.len(),
                    i <= n,
                    e0->ArrayExpr_elements == *elements,
                    e0 is ArrayExpr,
                    elemsM == crate::model::exprs_model(elements@),
                    walk_preserves(*old(ctx), *ctx),
                    diags_model(ctx.diagnostics@) + exprs_under_diags(
                        elemsM.skip(i as int),
                        seq![aentry],
                        sm0,
                        envm,
                    ) == d0 + exprs_under_diags(elemsM, seq![aentry], sm0, envm),
                decreases n - i,
            {
                let ghost pre = *ctx;
                ctx.stack.push(AncestorEntry {
                    info: AncestorInfo::ArrayNode,
                    slot: Slot::OtherSlot,
                });
                proof {
                    assert(elemsM.skip(i as int)[0] == elemsM[i as int]);
                    assert(elemsM[i as int] == elements@[i as int].model());
                    assert(elemsM.skip(i as int).drop_first() =~= elemsM.skip(i as int + 1));
                    assert(stack_model(ctx.stack@) =~= sm0 + seq![aentry]);
                    assert(decreases_to!(e0 => e0->ArrayExpr_elements));
                    assert(decreases_to!(e0->ArrayExpr_elements =>
                        e0->ArrayExpr_elements@[i as int]));
                    assert(decreases_to!(e0 => e0->ArrayExpr_elements@[i as int]));
                }
                let ghost dpre = diags_model(ctx.diagnostics@);
                walk_expr(&elements[i], env, ctx);
                pop_entry(&mut ctx.stack);
                proof {
                    assert(ctx.stack@ =~= pre.stack@);
                    assert(ctx.diagnostics@.subrange(0, old(ctx).diagnostics@.len() as int)
                        =~= old(ctx).diagnostics@);
                    lemma_concat_shift(
                        d0 + exprs_under_diags(elemsM, seq![aentry], sm0, envm),
                        dpre,
                        expr_diags(elemsM[i as int], sm0 + seq![aentry], envm),
                        exprs_under_diags(elemsM.skip(i as int), seq![aentry], sm0, envm),
                        exprs_under_diags(elemsM.skip(i as int + 1), seq![aentry], sm0, envm),
                        diags_model(ctx.diagnostics@),
                    );
                }
                i = i + 1;
            }
            proof {
                assert(exprs_under_diags(elemsM.skip(n as int), seq![aentry], sm0, envm) =~= Seq::<
                    DiagM,
                >::empty());
                assert(diags_model(ctx.diagnostics@) + Seq::<DiagM>::empty() =~= diags_model(
                    ctx.diagnostics@,
                ));
                assert(diags_model(ctx.diagnostics@) =~= d0 + expr_diags(e0.model(), sm0, envm));
            }
        },
        Expression::ObjectExpr { properties, .. } => {
            let ghost propsM = e0.model()->ObjectExpr_properties;
            proof {
                assert(e0.model() matches ExprM::ObjectExpr { properties: pm, .. }
                    && pm == crate::model::props_model(properties@));
                assert(propsM.skip(0) =~= propsM);
                assert(diags_model(ctx.diagnostics@) + props_diags(propsM, sm0, envm) =~= d0
                    + props_diags(propsM, sm0, envm));
            }
            let n = properties.len();
            let mut i: usize = 0;
            while i < n
                invariant
                    env.wf(),
                    n == properties@.len(),
                    i <= n,
                    e0->ObjectExpr_properties == *properties,
                    e0 is ObjectExpr,
                    propsM == crate::model::props_model(properties@),
                    walk_preserves(*old(ctx), *ctx),
                    diags_model(ctx.diagnostics@) + props_diags(propsM.skip(i as int), sm0, envm)
                        == d0 + props_diags(propsM, sm0, envm),
                decreases n - i,
            {
                let ghost pre = *ctx;
                ctx.stack.push(AncestorEntry {
                    info: AncestorInfo::OtherNode,
                    slot: Slot::OtherSlot,
                });
                ctx.stack.push(AncestorEntry {
                    info: AncestorInfo::ObjectPropertyNode,
                    slot: Slot::OtherSlot,
                });
                proof {
                    assert(propsM.skip(i as int)[0] == propsM[i as int]);
                    assert(propsM[i as int] == properties@[i as int].model());
                    assert(propsM.skip(i as int).drop_first() =~= propsM.skip(i as int + 1));
                    assert(stack_model(ctx.stack@) =~= sm0 + seq![
                        other_entry(),
                        EntryM { info: InfoM::ObjectPropertyNode, slot: Slot::OtherSlot },
                    ]);
                    assert(decreases_to!(e0 => e0->ObjectExpr_properties));
                    assert(decreases_to!(e0->ObjectExpr_properties =>
                        e0->ObjectExpr_properties@[i as int]));
                    assert(decreases_to!(e0->ObjectExpr_properties@[i as int] =>
                        e0->ObjectExpr_properties@[i as int].value));
                    assert(decreases_to!(e0 => e0->ObjectExpr_properties@[i as int].value));
                }
                let ghost dpre = diags_model(ctx.diagnostics@);
                walk_expr(&properties[i].value, env, ctx);
                pop_entry(&mut ctx.stack);
                pop_entry(&mut ctx.stack);
                proof {
                    assert(ctx.stack@ =~= pre.stack@);
                    assert(ctx.diagnostics@.subrange(0, old(ctx).diagnostics@.len() as int)
                        =~= old(ctx).diagnostics@);
                    lemma_concat_shift(
                        d0 + props_diags(propsM, sm0, envm),
                        dpre,
                        expr_diags(
                            propsM[i as int].value,
                            sm0 + seq![
                                other_entry(),
                                EntryM { info: InfoM::ObjectPropertyNode, slot: Slot::OtherSlot },
                            ],
                            envm,
                        ),
                        props_diags(propsM.skip(i as int), sm0, envm),
                        props_diags(propsM.skip(i as int + 1), sm0, envm),
                        diags_model(ctx.diagnostics@),
                    );
                }
                i = i + 1;
            }
            proof {
                assert(props_diags(propsM.skip(n as int), sm0, envm) =~= Seq::<DiagM>::empty());
                assert(diags_model(ctx.diagnostics@) + Seq::<DiagM>::empty() =~= diags_model(
                    ctx.diagnostics@,
                ));
                assert(diags_model(ctx.diagnostics@) =~= d0 + expr_diags(e0.model(), sm0, envm));
            }
        },
        Expression::MemberExpr(m) => {
            let ghost mm = (**m).model();
            proof {
                assert(e0.model() matches ExprM::MemberExpr(b) && *b == mm);
                assert(*mm.object == m.object.model());
            }
            ctx.stack.push(AncestorEntry { info: AncestorInfo::OtherNode, slot: Slot::OtherSlot });
            proof {
                assert(stack_model(ctx.stack@) =~= sm0.push(other_entry()));
                assert(decreases_to!(e0 => e0->MemberExpr_0));
            }
            walk_expr(&m.object, env, ctx);
            match &m.property {
                MemberProperty::ComputedProp { expression } => {
                    proof {
                        assert(mm.property matches MemberPropM::ComputedProp { expression: b }
                            && *b == (**expression).model());
                        assert(decreases_to!(e0 => e0->MemberExpr_0));
                        assert(decreases_to!(e0->MemberExpr_0 =>
                            (*e0->MemberExpr_0).property));
                        assert(decreases_to!((*e0->MemberExpr_0).property =>
                            (*e0->MemberExpr_0).property->ComputedProp_expression));
                        assert(decreases_to!(e0 =>
                            (*e0->MemberExpr_0).property->ComputedProp_expression));
                    }
                    walk_expr(expression, env, ctx);
                },
                MemberProperty::StaticProp { .. } => {},
            }
            pop_entry(&mut ctx.stack);
            proof {
                assert(ctx.stack@ =~= old(ctx).stack@);
                assert(ctx.diagnostics@.subrange(0, old(ctx).diagnostics@.len() as int) =~= old(
                    ctx,
                ).diagnostics@);
                match mm.property {
                    MemberPropM::ComputedProp { expression } => {
                        assert(diags_model(ctx.diagnostics@) =~= d0 + (expr_diags(
                            *mm.object,
                            sm0.push(other_entry()),
                            envm,
                        ) + expr_diags(*expression, sm0.push(other_entry()), envm)));
                    },
                    MemberPropM::StaticProp { .. } => {
                        assert(diags_model(ctx.diagnostics@) =~= d0 + (expr_diags(
                            *mm.object,
                            sm0.push(other_entry()),
                            envm,
                        ) + Seq::<DiagM>::empty()));
                    },
                }
            }
        },
        Expression::ArrowExpr(arrow) => {
            proof {
                assert(e0.model() matches ExprM::ArrowExpr(b) && *b == (**arrow).model());
                assert(decreases_to!(e0 => e0->ArrowExpr_0));
            }
            walk_arrow(arrow, env, ctx);
        },
        Expression::FunctionExpr(f) => {
            proof {
                assert(e0.model() matches ExprM::FunctionExpr(b) && *b == (**f).model());
                assert(decreases_to!(e0 => e0->FunctionExpr_0));
            }
            walk_function(f, env, ctx);
        },
        Expression::AwaitExpr { argument, .. } => {
            proof {
                assert(e0.model() matches ExprM::AwaitExpr { argument: b, .. }
                    && *b == (**argument).model());
            }
            ctx.stack.push(AncestorEntry { info: AncestorInfo::OtherNode, slot: Slot::OtherSlot });
            proof {
                assert(stack_model(ctx.stack@) =~= sm0.push(other_entry()));
                assert(decreases_to!(e0 => e0->AwaitExpr_argument));
            }
            walk_expr(argument, env, ctx);
            pop_entry(&mut ctx.stack);
            proof {
                assert(ctx.stack@ =~= old(ctx).stack@);
            }
        },
        Expression::YieldExpr { argument, .. } => {
            match argument {
                Some(a) => {
                    proof {
                        assert(e0.model() matches ExprM::YieldExpr { argument: Some(b), .. }
                            && *b == (**a).model());
                    }
                    ctx.stack.push(AncestorEntry {
                        info: AncestorInfo::OtherNode,
                        slot: Slot::OtherSlot,
                    });
                    proof {
                        assert(stack_model(ctx.stack@) =~= sm0.push(other_entry()));
                        assert(decreases_to!(e0 => e0->YieldExpr_argument));
                        assert(decreases_to!(e0->YieldExpr_argument =>
                            e0->YieldExpr_argument->0));
                        assert(decreases_to!(e0 => e0->YieldExpr_argument->0));
                    }
                    walk_expr(a, env, ctx);
                    pop_entry(&mut ctx.stack);
                    proof {
                        assert(ctx.stack@ =~= old(ctx).stack@);
                    }
                },
                None => {
                    proof {
                        assert(e0.model() matches ExprM::YieldExpr { argument: am, .. }
                            && am is None);
                        assert(diags_model(ctx.diagnostics@) =~= d0 + Seq::<DiagM>::empty());
                    }
                },
            }
        },
        Expression::LogicalExpr { left, right, .. } => {
            proof {
                assert(e0.model() matches ExprM::LogicalExpr { left: l, right: r, .. }
                    && *l == (**left).model() && *r == (**right).model());
            }
            ctx.stack.push(AncestorEntry { info: AncestorInfo::OtherNode, slot: Slot::OtherSlot });
            proof {
                assert(stack_model(ctx.stack@) =~= sm0.push(other_entry()));
                assert(decreases_to!(e0 => e0->LogicalExpr_left));
                assert(decreases_to!(e0 => e0->LogicalExpr_right));
            }
            walk_expr(left, env, ctx);
            walk_expr(right, env, ctx);
            pop_entry(&mut ctx.stack);
            proof {
                assert(ctx.stack@ =~= old(ctx).stack@);
                assert(ctx.diagnostics@.subrange(0, old(ctx).diagnostics@.len() as int) =~= old(
                    ctx,
                ).diagnostics@);
                assert(diags_model(ctx.diagnostics@) =~= d0 + (expr_diags(
                    (**left).model(),
                    sm0.push(other_entry()),
                    envm,
                ) + expr_diags((**right).model(), sm0.push(other_entry()), envm)));
            }
        },
        Expression::ConditionalExpr { test, consequent, alternate, .. } => {
            proof {
                assert(e0.model() matches ExprM::ConditionalExpr {
                    test: t,
                    consequent: c,
                    alternate: alt,
                    ..
                } && *t == (**test).model() && *c == (**consequent).model() && *alt == (
                **alternate).model());
            }
            ctx.stack.push(AncestorEntry { info: AncestorInfo::OtherNode, slot: Slot::OtherSlot });
            proof {
                assert(stack_model(ctx.stack@) =~= sm0.push(other_entry()));
                assert(decreases_to!(e0 => e0->ConditionalExpr_test));
                assert(decreases_to!(e0 => e0->ConditionalExpr_consequent));
                assert(decreases_to!(e0 => e0->ConditionalExpr_alternate));
            }
            walk_expr(test, env, ctx);
            walk_expr(consequent, env, ctx);
            walk_expr(alternate, env, ctx);
            pop_entry(&mut ctx.stack);
            proof {
                assert(ctx.stack@ =~= old(ctx).stack@);
                assert(ctx.diagnostics@.subrange(0, old(ctx).diagnostics@.len() as int) =~= old(
                    ctx,
                ).diagnostics@);
                assert(diags_model(ctx.diagnostics@) =~= d0 + (expr_diags(
                    (**test).model(),
                    sm0.push(other_entry()),
                    envm,
                ) + expr_diags((**consequent).model(), sm0.push(other_entry()), envm)
                    + expr_diags((**alternate).model(), sm0.push(other_entry()), envm)));
            }
        },
        Expression::AssignExpr { value, .. } => {
            proof {
                assert(e0.model() matches ExprM::AssignExpr { value: v, .. }
                    && *v == (**value).model());
            }
            ctx.stack.push(AncestorEntry { info: AncestorInfo::OtherNode, slot: Slot::OtherSlot });
            proof {
                assert(stack_model(ctx.stack@) =~= sm0.push(other_entry()));
                assert(decreases_to!(e0 => e0->AssignExpr_value));
            }
            walk_expr(value, env, ctx);
            pop_entry(&mut ctx.stack);
            proof {
                assert(ctx.stack@ =~= old(ctx).stack@);
            }
        },
        Expression::ParenExpr { expression, .. } => {
            proof {
                assert(e0.model() matches ExprM::ParenExpr { expression: b, .. }
                    && *b == (**expression).model());
            }
            ctx.stack.push(AncestorEntry { info: AncestorInfo::OtherNode, slot: Slot::OtherSlot });
            proof {
                assert(stack_model(ctx.stack@) =~= sm0.push(other_entry()));
                assert(decreases_to!(e0 => e0->ParenExpr_expression));
            }
            walk_expr(expression, env, ctx);
            pop_entry(&mut ctx.stack);
            proof {
                assert(ctx.stack@ =~= old(ctx).stack@);
            }
        },
        Expression::OtherExpr { children, .. } => {
            let ghost kidsM = e0.model()->OtherExpr_children;
            proof {
                assert(e0.model() matches ExprM::OtherExpr { children: km, .. }
                    && km == crate::model::exprs_model(children@));
                assert(kidsM.skip(0) =~= kidsM);
                assert(diags_model(ctx.diagnostics@) + exprs_under_diags(
                    kidsM,
                    seq![other_entry()],
                    sm0,
                    envm,
                ) =~= d0 + exprs_under_diags(kidsM, seq![other_entry()], sm0, envm));
            }
            let n = children.len();
            let mut i: usize = 0;
            while i < n
                invariant
                    env.wf(),
                    n == children@.len(),
                    i <= n,
                    e0->OtherExpr_children == *children,
                    e0 is OtherExpr,
                    kidsM == crate::model::exprs_model(children@),
                    walk_preserves(*old(ctx), *ctx),
                    diags_model(ctx.diagnostics@) + exprs_under_diags(
                        kidsM.skip(i as int),
                        seq![other_entry()],
                        sm0,
                        envm,
                    ) == d0 + exprs_under_diags(kidsM, seq![other_entry()], sm0, envm),
                decreases n - i,
            {
                let ghost pre = *ctx;
                ctx.stack.push(AncestorEntry {
                    info: AncestorInfo::OtherNode,
                    slot: Slot::OtherSlot,
                });
                proof {
                    assert(kidsM.skip(i as int)[0] == kidsM[i as int]);
                    assert(kidsM[i as int] == children@[i as int].model());
                    assert(kidsM.skip(i as int).drop_first() =~= kidsM.skip(i as int + 1));
                    assert(stack_model(ctx.stack@) =~= sm0 + seq![other_entry()]);
                    assert(decreases_to!(e0 => e0->OtherExpr_children));
                    assert(decreases_to!(e0->OtherExpr_children =>
                        e0->OtherExpr_children@[i as int]));
                    assert(decreases_to!(e0 => e0->OtherExpr_children@[i as int]));
                }
                let ghost dpre = diags_model(ctx.diagnostics@);
                walk_expr(&children[i], env, ctx);
                pop_entry(&mut ctx.stack);
                proof {
                    assert(ctx.stack@ =~= pre.stack@);
                    assert(ctx.diagnostics@.subrange(0, old(ctx).diagnostics@.len() as int)
                        =~= old(ctx).diagnostics@);
                    lemma_concat_shift(
                        d0 + exprs_under_diags(kidsM, seq![other_entry()], sm0, envm),
                        dpre,
                        expr_diags(kidsM[i as int], sm0 + seq![other_entry()], envm),
                        exprs_under_diags(kidsM.skip(i as int), seq![other_entry()], sm0, envm),
                        exprs_under_diags(
                            kidsM.skip(i as int + 1),
                            seq![other_entry()],
                            sm0,
                            envm,
                        ),
                        diags_model(ctx.diagnostics@),
                    );
                }
                i = i + 1;
            }
            proof {
                assert(exprs_under_diags(kidsM.skip(n as int), seq![other_entry()], sm0, envm)
                    =~= Seq::<DiagM>::empty());
                assert(diags_model(ctx.diagnostics@) + Seq::<DiagM>::empty() =~= diags_model(
                    ctx.diagnostics@,
                ));
                assert(diags_model(ctx.diagnostics@) =~= d0 + expr_diags(e0.model(), sm0, envm));
            }
        },
        _ => {
            proof {
                assert(diags_model(ctx.diagnostics@) =~= d0 + Seq::<DiagM>::empty());
                assert(expr_diags(e0.model(), sm0, envm) =~= Seq::<DiagM>::empty());
            }
        },
    }
}

/// One walk step consumed the head of the remaining specification: from
/// `dpre + suffix == goal`, `suffix == head + rest` and `dcur == dpre +
/// head`, conclude `dcur + rest == goal`.
proof fn lemma_concat_shift(
    goal: Seq<DiagM>,
    dpre: Seq<DiagM>,
    head: Seq<DiagM>,
    suffix: Seq<DiagM>,
    rest: Seq<DiagM>,
    dcur: Seq<DiagM>,
)
    requires
        dpre + suffix == goal,
        suffix == head + rest,
        dcur == dpre + head,
    ensures
        dcur + rest == goal,
{
    assert((dpre + head) + rest =~= dpre + (head + rest));
}

/// Removes the entry pushed for the children just walked.
fn pop_entry(stack: &mut Vec<AncestorEntry>)
    ensures
        old(stack)@.len() > 0 ==> final(stack)@ == old(stack)@.drop_last(),
        old(stack)@.len() == 0 ==> final(stack)@ == old(stack)@,
{
    if stack.len() > 0 {
        let _ = stack.pop();
    }
}

/// Removes the scope pushed for the node just walked.
fn pop_scope(stack: &mut Vec<ScopeId>)
    ensures
        old(stack)@.len() > 0 ==> final(stack)@ == old(stack)@.drop_last(),
        old(stack)@.len() == 0 ==> final(stack)@ == old(stack)@,
{
    if stack.len() > 0 {
        let _ = stack.pop();
    }
}


/// Walks one statement.
#[verifier::loop_isolation(false)]
#[verifier::rlimit(100)]
pub fn walk_stmt(st: &Statement, env: &WalkEnv, ctx: &mut WalkContext)
    requires
        env.wf(),
    ensures
        walk_adds(
            *old(ctx),
            *final(ctx),
            stmt_diags(st.model(), stack_model(old(ctx).stack@), env.model()),
        ),
    decreases st,
{
    let ghost sm0 = stack_model(ctx.stack@);
    let ghost envm = env.model();
    let ghost d0 = diags_model(ctx.diagnostics@);
    proof {
        assert(ctx.diagnostics@.subrange(0, ctx.diagnostics@.len() as int) =~= ctx.diagnostics@);
    }
    let ghost s0 = *st;
    match st {
        Statement::ExpressionStmt { expression, .. } => {
            proof {
                assert(s0.model() matches StmtM::ExpressionStmt { expression: em, .. }
                    && em == expression.model());
            }
            ctx.stack.push(AncestorEntry { info: AncestorInfo::OtherNode, slot: Slot::OtherSlot });
            proof {
                assert(stack_model(ctx.stack@) =~= sm0.push(other_entry()));
                assert(decreases_to!(s0 => s0->ExpressionStmt_expression));
            }
            walk_expr(expression, env, ctx);
            pop_entry(&mut ctx.stack);
            proof {
                assert(ctx.stack@ =~= old(ctx).stack@);
            }
        },
        Statement::ReturnStmt { argument, .. } => {
            match argument {
                Some(a) => {
                    proof {
                        assert(s0.model() matches StmtM::ReturnStmt { argument: Some(am), .. }
                            && am == a.model());
                    }
                    ctx.stack.push(AncestorEntry {
                        info: AncestorInfo::ReturnNode,
                        slot: Slot::OtherSlot,
                    });
                    proof {
                        assert(stack_model(ctx.stack@) =~= sm0.push(
                            EntryM { info: InfoM::ReturnNode, slot: Slot::OtherSlot },
                        ));
                        assert(decreases_to!(s0 => s0->ReturnStmt_argument));
                        assert(decreases_to!(s0->ReturnStmt_argument =>
                            s0->ReturnStmt_argument->0));
                        assert(decreases_to!(s0 => s0->ReturnStmt_argument->0));
                    }
                    walk_expr(a, env, ctx);
                    pop_entry(&mut ctx.stack);
                    proof {
                        assert(ctx.stack@ =~= old(ctx).stack@);
                    }
                },
                None => {
                    proof {
                        assert(s0.model() matches StmtM::ReturnStmt { argument: am, .. }
                            && am is None);
                        assert(diags_model(ctx.diagnostics@) =~= d0 + Seq::<DiagM>::empty());
                    }
                },
            }
        },
        Statement::BlockStmt { statements, .. } => {
            let ghost ssM = s0.model()->BlockStmt_statements;
            proof {
                assert(s0.model() matches StmtM::BlockStmt { statements: sm2, .. }
                    && sm2 == crate::model::stmts_model(statements@));
                assert(ssM.skip(0) =~= ssM);
                assert(diags_model(ctx.diagnostics@) + stmts_under_diags(
                    ssM,
                    seq![other_entry()],
                    sm0,
                    envm,
                ) =~= d0 + stmts_under_diags(ssM, seq![other_entry()], sm0, envm));
            }
            let n = statements.len();
            let mut i: usize = 0;
            while i < n
                invariant
                    env.wf(),
                    n == statements@.len(),
                    i <= n,
                    s0->BlockStmt_statements == *statements,
                    s0 is BlockStmt,
                    ssM == crate::model::stmts_model(statements@),
                    walk_preserves(*old(ctx), *ctx),
                    diags_model(ctx.diagnostics@) + stmts_under_diags(
                        ssM.skip(i as int),
                        seq![other_entry()],
                        sm0,
                        envm,
                    ) == d0 + stmts_under_diags(ssM, seq![other_entry()], sm0, envm),
                decreases n - i,
            {
                let ghost pre = *ctx;
                ctx.stack.push(AncestorEntry {
                    info: AncestorInfo::OtherNode,
                    slot: Slot::OtherSlot,
                });
                proof {
                    assert(ssM.skip(i as int)[0] == ssM[i as int]);
                    assert(ssM[i as int] == statements@[i as int].model());
                    assert(ssM.skip(i as int).drop_first() =~= ssM.skip(i as int + 1));
                    assert(stack_model(ctx.stack@) =~= sm0 + seq![other_entry()]);
                    assert(decreases_to!(s0 => s0->BlockStmt_statements));
                    assert(decreases_to!(s0->BlockStmt_statements =>
                        s0->BlockStmt_statements@[i as int]));
                    assert(decreases_to!(s0 => s0->BlockStmt_statements@[i as int]));
                }
                let ghost dpre = diags_model(ctx.diagnostics@);
                walk_stmt(&statements[i], env, ctx);
                pop_entry(&mut ctx.stack);
                proof {
                    assert(ctx.stack@ =~= pre.stack@);
                    assert(ctx.diagnostics@.subrange(0, old(ctx).diagnostics@.len() as int)
                        =~= old(ctx).diagnostics@);
                    lemma_concat_shift(
                        d0 + stmts_under_diags(ssM, seq![other_entry()], sm0, envm),
                        dpre,
                        stmt_diags(ssM[i as int], sm0 + seq![other_entry()], envm),
                        stmts_under_diags(ssM.skip(i as int), seq![other_entry()], sm0, envm),
                        stmts_under_diags(ssM.skip(i as int + 1), seq![other_entry()], sm0, envm),
                        diags_model(ctx.diagnostics@),
                    );
                }
                i = i + 1;
            }
            proof {
                assert(stmts_under_diags(ssM.skip(n as int), seq![other_entry()], sm0, envm)
                    =~= Seq::<DiagM>::empty());
                assert(diags_model(ctx.diagnostics@) + Seq::<DiagM>::empty() =~= diags_model(
                    ctx.diagnostics@,
                ));
                assert(diags_model(ctx.diagnostics@) =~= d0 + stmt_diags(s0.model(), sm0, envm));
            }
        },
        Statement::IfStmt { test, consequent, alternate, .. } => {
            proof {
                assert(s0.model() matches StmtM::IfStmt { test: t, consequent: c, .. }
                    && t == test.model() && *c == (**consequent).model());
            }
            ctx.stack.push(AncestorEntry { info: AncestorInfo::OtherNode, slot: Slot::OtherSlot });
            proof {
                assert(stack_model(ctx.stack@) =~= sm0.push(other_entry()));
                assert(decreases_to!(s0 => s0->IfStmt_test));
                assert(decreases_to!(s0 => s0->IfStmt_consequent));
            }
            walk_expr(test, env, ctx);
            walk_stmt(consequent, env, ctx);
            match alternate {
                Some(alt) => {
                    proof {
                        assert(s0.model() matches StmtM::IfStmt { alternate: Some(am), .. }
                            && *am == (**alt).model());
                        assert(decreases_to!(s0 => s0->IfStmt_alternate));
                        assert(decreases_to!(s0->IfStmt_alternate =>
                            s0->IfStmt_alternate->0));
                        assert(decreases_to!(s0 => s0->IfStmt_alternate->0));
                    }
                    walk_stmt(alt, env, ctx);
                    pop_entry(&mut ctx.stack);
                    proof {
                        assert(ctx.stack@ =~= old(ctx).stack@);
                        assert(ctx.diagnostics@.subrange(0, old(ctx).diagnostics@.len() as int)
                            =~= old(ctx).diagnostics@);
                        assert(diags_model(ctx.diagnostics@) =~= d0 + (expr_diags(
                            test.model(),
                            sm0.push(other_entry()),
                            envm,
                        ) + stmt_diags((**consequent).model(), sm0.push(other_entry()), envm)
                            + stmt_diags((**alt).model(), sm0.push(other_entry()), envm)));
                    }
                },
                None => {
                    pop_entry(&mut ctx.stack);
                    proof {
                        assert(s0.model() matches StmtM::IfStmt { alternate: am, .. }
                            && am is None);
                        assert(ctx.stack@ =~= old(ctx).stack@);
                        assert(ctx.diagnostics@.subrange(0, old(ctx).diagnostics@.len() as int)
                            =~= old(ctx).diagnostics@);
                        assert(diags_model(ctx.diagnostics@) =~= d0 + (expr_diags(
                            test.model(),
                            sm0.push(other_entry()),
                            envm,
                        ) + stmt_diags((**consequent).model(), sm0.push(other_entry()), envm)
                            + Seq::<DiagM>::empty()));
                    }
                },
            }
        },
        Statement::VariableDeclStmt { declarators, .. } => {
            let ghost dsM = s0.model()->VariableDeclStmt_declarators;
            proof {
                assert(s0.model() matches StmtM::VariableDeclStmt { declarators: dm, .. }
                    && dm == crate::model::decls_model(declarators@));
                assert(dsM.skip(0) =~= dsM);
                assert(diags_model(ctx.diagnostics@) + decls_diags(dsM, sm0, envm) =~= d0
                    + decls_diags(dsM, sm0, envm));
            }
            let n = declarators.len();
            let mut i: usize = 0;
            while i < n
                invariant
                    env.wf(),
                    n == declarators@.len(),
                    i <= n,
                    s0->VariableDeclStmt_declarators == *declarators,
                    s0 is VariableDeclStmt,
                    dsM == crate::model::decls_model(declarators@),
                    walk_preserves(*old(ctx), *ctx),
                    diags_model(ctx.diagnostics@) + decls_diags(dsM.skip(i as int), sm0, envm)
                        == d0 + decls_diags(dsM, sm0, envm),
                decreases n - i,
            {
                proof {
                    assert(dsM.skip(i as int)[0] == dsM[i as int]);
                    assert(dsM[i as int] == declarators@[i as int].model());
                    assert(dsM.skip(i as int).drop_first() =~= dsM.skip(i as int + 1));
                }
                let ghost dpre = diags_model(ctx.diagnostics@);
                match &declarators[i].init {
                    Some(init) => {
                        let ghost pre = *ctx;
                        ctx.stack.push(AncestorEntry {
                            info: AncestorInfo::OtherNode,
                            slot: Slot::OtherSlot,
                        });
                        ctx.stack.push(AncestorEntry {
                            info: AncestorInfo::OtherNode,
                            slot: Slot::OtherSlot,
                        });
                        proof {
                            assert(dsM[i as int].init matches Some(im) && im == init.model());
                            assert(stack_model(ctx.stack@) =~= sm0 + seq![
                                other_entry(),
                                other_entry(),
                            ]);
                            assert(decreases_to!(s0 => s0->VariableDeclStmt_declarators));
                            assert(decreases_to!(s0->VariableDeclStmt_declarators =>
                                s0->VariableDeclStmt_declarators@[i as int]));
                            assert(decreases_to!(s0->VariableDeclStmt_declarators@[i as int] =>
                                s0->VariableDeclStmt_declarators@[i as int].init));
                            assert(decreases_to!(
                                s0->VariableDeclStmt_declarators@[i as int].init =>
                                s0->VariableDeclStmt_declarators@[i as int].init->0));
                            assert(decreases_to!(s0 =>
                                s0->VariableDeclStmt_declarators@[i as int].init->0));
                        }
                        walk_expr(init, env, ctx);
                        pop_entry(&mut ctx.stack);
                        pop_entry(&mut ctx.stack);
                        proof {
                            assert(ctx.stack@ =~= pre.stack@);
                            assert(ctx.diagnostics@.subrange(
                                0,
                                old(ctx).diagnostics@.len() as int,
                            ) =~= old(ctx).diagnostics@);
                            lemma_concat_shift(
                                d0 + decls_diags(dsM, sm0, envm),
                                dpre,
                                expr_diags(
                                    init.model(),
                                    sm0 + seq![other_entry(), other_entry()],
                                    envm,
                                ),
                                decls_diags(dsM.skip(i as int), sm0, envm),
                                decls_diags(dsM.skip(i as int + 1), sm0, envm),
                                diags_model(ctx.diagnostics@),
                            );
                        }
                    },
                    None => {
                        proof {
                            assert(dsM[i as int].init is None);
                            lemma_concat_shift(
                                d0 + decls_diags(dsM, sm0, envm),
                                dpre,
                                Seq::<DiagM>::empty(),
                                decls_diags(dsM.skip(i as int), sm0, envm),
                                decls_diags(dsM.skip(i as int + 1), sm0, envm),
                                diags_model(ctx.diagnostics@),
                            );
                        }
                    },
                }
                i = i + 1;
            }
            proof {
                assert(decls_diags(dsM.skip(n as int), sm0, envm) =~= Seq::<DiagM>::empty());
                assert(diags_model(ctx.diagnostics@) + Seq::<DiagM>::empty() =~= diags_model(
                    ctx.diagnostics@,
                ));
                assert(diags_model(ctx.diagnostics@) =~= d0 + stmt_diags(s0.model(), sm0, envm));
            }
        },
        Statement::FunctionDeclStmt(f) => {
            proof {
                assert(s0.model() matches StmtM::FunctionDeclStmt(b) && *b == (**f).model());
                assert(decreases_to!(s0 => s0->FunctionDeclStmt_0));
            }
            walk_function(f, env, ctx);
        },
        Statement::OtherStmt { .. } => {
            proof {
                assert(diags_model(ctx.diagnostics@) =~= d0 + Seq::<DiagM>::empty());
            }
        },
    }
}

/// Walks a function: its parameter defaults under the parameter slot, then
/// its body under the body slot; the function's own scope is current
/// throughout.
#[verifier::loop_isolation(false)]
#[verifier::rlimit(100)]
pub fn walk_function(f: &Function, env: &WalkEnv, ctx: &mut WalkContext)
    requires
        env.wf(),
    ensures
        walk_adds(
            *old(ctx),
            *final(ctx),
            function_diags(f.model(), stack_model(old(ctx).stack@), env.model()),
        ),
    decreases f,
{
    let ghost sm0 = stack_model(ctx.stack@);
    let ghost envm = env.model();
    let ghost d0 = diags_model(ctx.diagnostics@);
    let ghost fentry_p = EntryM { info: InfoM::FunctionNode, slot: Slot::ParamsSlot };
    let ghost fentry_b = EntryM { info: InfoM::FunctionNode, slot: Slot::BodySlot };
    proof {
        assert(ctx.diagnostics@.subrange(0, ctx.diagnostics@.len() as int) =~= ctx.diagnostics@);
    }
    ctx.scope_stack.push(f.scope_id);
    let ghost f0 = *f;
    let ghost psM = f0.model().params;
    let ghost bsM = f0.model().body.statements;
    proof {
        assert(psM == crate::model::params_model(f.params@));
        assert(bsM == crate::model::stmts_model(f.body.statements@));
        assert(psM.skip(0) =~= psM);
        assert(diags_model(ctx.diagnostics@) + params_diags(psM, fentry_p, sm0, envm) =~= d0
            + params_diags(psM, fentry_p, sm0, envm));
    }
    let n = f.params.len();
    let mut i: usize = 0;
    while i < n
        invariant
            env.wf(),
            n == f.params@.len(),
            f0 == *f,
            i <= n,
            ctx.stack@ == old(ctx).stack@,
            ctx.scope_stack@ == old(ctx).scope_stack@.push(f0.scope_id),
            ctx.diagnostics@.len() >= old(ctx).diagnostics@.len(),
            ctx.diagnostics@.subrange(0, old(ctx).diagnostics@.len() as int) == old(
                ctx,
            ).diagnostics@,
            diags_model(ctx.diagnostics@) + params_diags(psM.skip(i as int), fentry_p, sm0, envm)
                == d0 + params_diags(psM, fentry_p, sm0, envm),
        decreases n - i,
    {
        proof {
            assert(psM.skip(i as int)[0] == psM[i as int]);
            assert(psM[i as int] == f.params@[i as int].model());
            assert(psM.skip(i as int).drop_first() =~= psM.skip(i as int + 1));
        }
        let ghost dpre = diags_model(ctx.diagnostics@);
        match &f.params[i].init {
            Some(init) => {
                let ghost pre = *ctx;
                ctx.stack.push(AncestorEntry {
                    info: AncestorInfo::FunctionNode,
                    slot: Slot::ParamsSlot,
                });
                ctx.stack.push(AncestorEntry {
                    info: AncestorInfo::OtherNode,
                    slot: Slot::OtherSlot,
                });
                proof {
                    assert(psM[i as int].init matches Some(im) && im == init.model());
                    assert(stack_model(ctx.stack@) =~= sm0 + seq![fentry_p, other_entry()]);
                    assert(decreases_to!(f0 => f0.params));
                    assert(decreases_to!(f0.params => f0.params@[i as int]));
                    assert(decreases_to!(f0.params@[i as int] =>
                        f0.params@[i as int].init));
                    assert(decreases_to!(f0.params@[i as int].init =>
                        f0.params@[i as int].init->0));
                    assert(decreases_to!(f0 => f0.params@[i as int].init->0));
                }
                walk_expr(init, env, ctx);
                pop_entry(&mut ctx.stack);
                pop_entry(&mut ctx.stack);
                proof {
                    assert(ctx.stack@ =~= pre.stack@);
                    assert(ctx.diagnostics@.subrange(0, old(ctx).diagnostics@.len() as int)
                        =~= old(ctx).diagnostics@);
                    lemma_concat_shift(
                        d0 + params_diags(psM, fentry_p, sm0, envm),
                        dpre,
                        expr_diags(init.model(), sm0 + seq![fentry_p, other_entry()], envm),
                        params_diags(psM.skip(i as int), fentry_p, sm0, envm),
                        params_diags(psM.skip(i as int + 1), fentry_p, sm0, envm),
                        diags_model(ctx.diagnostics@),
                    );
                }
            },
            None => {
                proof {
                    assert(psM[i as int].init is None);
                    lemma_concat_shift(
                        d0 + params_diags(psM, fentry_p, sm0, envm),
                        dpre,
                        Seq::<DiagM>::empty(),
                        params_diags(psM.skip(i as int), fentry_p, sm0, envm),
                        params_diags(psM.skip(i as int + 1), fentry_p, sm0, envm),
                        diags_model(ctx.diagnostics@),
                    );
                }
            },
        }
        i = i + 1;
    }
    let ghost dparams = diags_model(ctx.diagnostics@);
    proof {
        assert(params_diags(psM.skip(n as int), fentry_p, sm0, envm) =~= Seq::<DiagM>::empty());
        assert(dparams + Seq::<DiagM>::empty() =~= dparams);
        assert(dparams =~= d0 + params_diags(psM, fentry_p, sm0, envm));
        assert(bsM.skip(0) =~= bsM);
        assert(dparams + stmts_under_diags(bsM, seq![fentry_b, other_entry()], sm0, envm)
            =~= dparams + stmts_under_diags(bsM, seq![fentry_b, other_entry()], sm0, envm));
    }
    let m = f.body.statements.len();
    let mut j: usize = 0;
    while j < m
        invariant
            env.wf(),
            m == f.body.statements@.len(),
            f0 == *f,
            j <= m,
            ctx.stack@ == old(ctx).stack@,
            ctx.scope_stack@ == old(ctx).scope_stack@.push(f0.scope_id),
            ctx.diagnostics@.len() >= old(ctx).diagnostics@.len(),
            ctx.diagnostics@.subrange(0, old(ctx).diagnostics@.len() as int) == old(
                ctx,
            ).diagnostics@,
            diags_model(ctx.diagnostics@) + stmts_under_diags(
                bsM.skip(j as int),
                seq![fentry_b, other_entry()],
                sm0,
                envm,
            ) == dparams + stmts_under_diags(bsM, seq![fentry_b, other_entry()], sm0, envm),
        decreases m - j,
    {
        let ghost pre = *ctx;
        ctx.stack.push(AncestorEntry {
            info: AncestorInfo::FunctionNode,
            slot: Slot::BodySlot,
        });
        ctx.stack.push(AncestorEntry { info: AncestorInfo::OtherNode, slot: Slot::OtherSlot });
        proof {
            assert(bsM.skip(j as int)[0] == bsM[j as int]);
            assert(bsM[j as int] == f.body.statements@[j as int].model());
            assert(bsM.skip(j as int).drop_first() =~= bsM.skip(j as int + 1));
            assert(stack_model(ctx.stack@) =~= sm0 + seq![fentry_b, other_entry()]);
            assert(decreases_to!(f0 => f0.body));
            assert(decreases_to!(f0.body => f0.body.statements));
            assert(decreases_to!(f0.body.statements => f0.body.statements@[j as int]));
            assert(decreases_to!(f0 => f0.body.statements@[j as int]));
        }
        let ghost dpre = diags_model(ctx.diagnostics@);
        walk_stmt(&f.body.statements[j], env, ctx);
        pop_entry(&mut ctx.stack);
        pop_entry(&mut ctx.stack);
        proof {
            assert(ctx.stack@ =~= pre.stack@);
            assert(ctx.diagnostics@.subrange(0, old(ctx).diagnostics@.len() as int) =~= old(
                ctx,
            ).diagnostics@);
            lemma_concat_shift(
                dparams + stmts_under_diags(bsM, seq![fentry_b, other_entry()], sm0, envm),
                dpre,
                stmt_diags(bsM[j as int], sm0 + seq![fentry_b, other_entry()], envm),
                stmts_under_diags(bsM.skip(j as int), seq![fentry_b, other_entry()], sm0, envm),
                stmts_under_diags(
                    bsM.skip(j as int + 1),
                    seq![fentry_b, other_entry()],
                    sm0,
                    envm,
                ),
                diags_model(ctx.diagnostics@),
            );
        }
        j = j + 1;
    }
    pop_scope(&mut ctx.scope_stack);
    proof {
        assert(ctx.scope_stack@ =~= old(ctx).scope_stack@);
        assert(stmts_under_diags(bsM.skip(m as int), seq![fentry_b, other_entry()], sm0, envm)
            =~= Seq::<DiagM>::empty());
        assert(diags_model(ctx.diagnostics@) + Seq::<DiagM>::empty() =~= diags_model(
            ctx.diagnostics@,
        ));
        assert((d0 + params_diags(psM, fentry_p, sm0, envm)) + stmts_under_diags(
            bsM,
            seq![fentry_b, other_entry()],
            sm0,
            envm,
        ) =~= d0 + (params_diags(psM, fentry_p, sm0, envm) + stmts_under_diags(
            bsM,
            seq![fentry_b, other_entry()],
            sm0,
            envm,
        )));
        assert(diags_model(ctx.diagnostics@) =~= d0 + function_diags(f0.model(), sm0, envm));
    }
}

/// Walks an arrow function, as [`walk_function`] does, recording whether its
/// body is the bare-expression form in the entries its children see.
#[verifier::loop_isolation(false)]
#[verifier::rlimit(100)]
pub fn walk_arrow(a: &ArrowFunction, env: &WalkEnv, ctx: &mut WalkContext)
    requires
        env.wf(),
    ensures
        walk_adds(
            *old(ctx),
            *final(ctx),
            arrow_diags(a.model(), stack_model(old(ctx).stack@), env.model()),
        ),
    decreases a,
{
    let ghost sm0 = stack_model(ctx.stack@);
    let ghost envm = env.model();
    let ghost d0 = diags_model(ctx.diagnostics@);
    let ghost ainfo = InfoM::ArrowNode {
        first_stmt_is_expression: arrow_first_stmt_is_expression(a.model()),
    };
    let ghost aentry_p = EntryM { info: ainfo, slot: Slot::ParamsSlot };
    let ghost aentry_b = EntryM { info: ainfo, slot: Slot::BodySlot };
    proof {
        assert(ctx.diagnostics@.subrange(0, ctx.diagnostics@.len() as int) =~= ctx.diagnostics@);
    }
    ctx.scope_stack.push(a.scope_id);
    let ghost a0 = *a;
    let ghost psM = a0.model().params;
    let ghost bsM = a0.model().body.statements;
    proof {
        assert(psM == crate::model::params_model(a.params@));
        assert(bsM == crate::model::stmts_model(a.body.statements@));
        assert(psM.skip(0) =~= psM);
    }
    let n = a.params.len();
    let mut i: usize = 0;
    while i < n
        invariant
            env.wf(),
            n == a.params@.len(),
            a0 == *a,
            i <= n,
            ctx.stack@ == old(ctx).stack@,
            ctx.scope_stack@ == old(ctx).scope_stack@.push(a0.scope_id),
            ctx.diagnostics@.len() >= old(ctx).diagnostics@.len(),
            ctx.diagnostics@.subrange(0, old(ctx).diagnostics@.len() as int) == old(
                ctx,
            ).diagnostics@,
            diags_model(ctx.diagnostics@) + params_diags(psM.skip(i as int), aentry_p, sm0, envm)
                == d0 + params_diags(psM, aentry_p, sm0, envm),
        decreases n - i,
    {
        proof {
            assert(psM.skip(i as int)[0] == psM[i as int]);
            assert(psM[i as int] == a.params@[i as int].model());
            assert(psM.skip(i as int).drop_first() =~= psM.skip(i as int + 1));
        }
        let ghost dpre = diags_model(ctx.diagnostics@);
        match &a.params[i].init {
            Some(init) => {
                let ghost pre = *ctx;
                let info = summarize_arrow(a);
                ctx.stack.push(AncestorEntry { info, slot: Slot::ParamsSlot });
                ctx.stack.push(AncestorEntry {
                    info: AncestorInfo::OtherNode,
                    slot: Slot::OtherSlot,
                });
                proof {
                    assert(psM[i as int].init matches Some(im) && im == init.model());
                    assert(stack_model(ctx.stack@) =~= sm0 + seq![aentry_p, other_entry()]);
                    assert(decreases_to!(a0 => a0.params));
                    assert(decreases_to!(a0.params => a0.params@[i as int]));
                    assert(decreases_to!(a0.params@[i as int] =>
                        a0.params@[i as int].init));
                    assert(decreases_to!(a0.params@[i as int].init =>
                        a0.params@[i as int].init->0));
                    assert(decreases_to!(a0 => a0.params@[i as int].init->0));
                }
                walk_expr(init, env, ctx);
                pop_entry(&mut ctx.stack);
                pop_entry(&mut ctx.stack);
                proof {
                    assert(ctx.stack@ =~= pre.stack@);
                    assert(ctx.diagnostics@.subrange(0, old(ctx).diagnostics@.len() as int)
                        =~= old(ctx).diagnostics@);
                    lemma_concat_shift(
                        d0 + params_diags(psM, aentry_p, sm0, envm),
                        dpre,
                        expr_diags(init.model(), sm0 + seq![aentry_p, other_entry()], envm),
                        params_diags(psM.skip(i as int), aentry_p, sm0, envm),
                        params_diags(psM.skip(i as int + 1), aentry_p, sm0, envm),
                        diags_model(ctx.diagnostics@),
                    );
                }
            },
            None => {
                proof {
                    assert(psM[i as int].init is None);
                    lemma_concat_shift(
                        d0 + params_diags(psM, aentry_p, sm0, envm),
                        dpre,
                        Seq::<DiagM>::empty(),
                        params_diags(psM.skip(i as int), aentry_p, sm0, envm),
                        params_diags(psM.skip(i as int + 1), aentry_p, sm0, envm),
                        diags_model(ctx.diagnostics@),
                    );
                }
            },
        }
        i = i + 1;
    }
    let ghost dparams = diags_model(ctx.diagnostics@);
    proof {
        assert(params_diags(psM.skip(n as int), aentry_p, sm0, envm) =~= Seq::<DiagM>::empty());
        assert(dparams + Seq::<DiagM>::empty() =~= dparams);
        assert(dparams =~= d0 + params_diags(psM, aentry_p, sm0, envm));
        assert(bsM.skip(0) =~= bsM);
    }
    let m = a.body.statements.len();
    let mut j: usize = 0;
    while j < m
        invariant
            env.wf(),
            m == a.body.statements@.len(),
            a0 == *a,
            j <= m,
            ctx.stack@ == old(ctx).stack@,
            ctx.scope_stack@ == old(ctx).scope_stack@.push(a0.scope_id),
            ctx.diagnostics@.len() >= old(ctx).diagnostics@.len(),
            ctx.diagnostics@.subrange(0, old(ctx).diagnostics@.len() as int) == old(
                ctx,
            ).diagnostics@,
            diags_model(ctx.diagnostics@) + stmts_under_diags(
                bsM.skip(j as int),
                seq![aentry_b, other_entry()],
                sm0,
                envm,
            ) == dparams + stmts_under_diags(bsM, seq![aentry_b, other_entry()], sm0, envm),
        decreases m - j,
    {
        let ghost pre = *ctx;
        let info = summarize_arrow(a);
        ctx.stack.push(AncestorEntry { info, slot: Slot::BodySlot });
        ctx.stack.push(AncestorEntry { info: AncestorInfo::OtherNode, slot: Slot::OtherSlot });
        proof {
            assert(bsM.skip(j as int)[0] == bsM[j as int]);
            assert(bsM[j as int] == a.body.statements@[j as int].model());
            assert(bsM.skip(j as int).drop_first() =~= bsM.skip(j as int + 1));
            assert(stack_model(ctx.stack@) =~= sm0 + seq![aentry_b, other_entry()]);
            assert(decreases_to!(a0 => a0.body));
            assert(decreases_to!(a0.body => a0.body.statements));
            assert(decreases_to!(a0.body.statements => a0.body.statements@[j as int]));
            assert(decreases_to!(a0 => a0.body.statements@[j as int]));
        }
        let ghost dpre = diags_model(ctx.diagnostics@);
        walk_stmt(&a.body.statements[j], env, ctx);
        pop_entry(&mut ctx.stack);
        pop_entry(&mut ctx.stack);
        proof {
            assert(ctx.stack@ =~= pre.stack@);
            assert(ctx.diagnostics@.subrange(0, old(ctx).diagnostics@.len() as int) =~= old(
                ctx,
            ).diagnostics@);
            lemma_concat_shift(
                dparams + stmts_under_diags(bsM, seq![aentry_b, other_entry()], sm0, envm),
                dpre,
                stmt_diags(bsM[j as int], sm0 + seq![aentry_b, other_entry()], envm),
                stmts_under_diags(bsM.skip(j as int), seq![aentry_b, other_entry()], sm0, envm),
                stmts_under_diags(
                    bsM.skip(j as int + 1),
                    seq![aentry_b, other_entry()],
                    sm0,
                    envm,
                ),
                diags_model(ctx.diagnostics@),
            );
        }
        j = j + 1;
    }
    pop_scope(&mut ctx.scope_stack);
    proof {
        assert(ctx.scope_stack@ =~= old(ctx).scope_stack@);
        assert(stmts_under_diags(bsM.skip(m as int), seq![aentry_b, other_entry()], sm0, envm)
            =~= Seq::<DiagM>::empty());
        assert(diags_model(ctx.diagnostics@) + Seq::<DiagM>::empty() =~= diags_model(
            ctx.diagnostics@,
        ));
        assert((d0 + params_diags(psM, aentry_p, sm0, envm)) + stmts_under_diags(
            bsM,
            seq![aentry_b, other_entry()],
            sm0,
            envm,
        ) =~= d0 + (params_diags(psM, aentry_p, sm0, envm) + stmts_under_diags(
            bsM,
            seq![aentry_b, other_entry()],
            sm0,
            envm,
        )));
        assert(diags_model(ctx.diagnostics@) =~= d0 + arrow_diags(a0.model(), sm0, envm));
    }
}

/// Pushes the entries standing for an element, its opening tag, the
/// attribute, and the attribute's container.
fn push_attr_entries(stack: &mut Vec<AncestorEntry>)
    ensures
        final(stack)@.len() == old(stack)@.len() + 4,
        final(stack)@.subrange(0, old(stack)@.len() as int) == old(stack)@,
        stack_model(final(stack)@) == stack_model(old(stack)@) + attr_entries(),
{
    stack.push(AncestorEntry { info: AncestorInfo::JsxElementNode, slot: Slot::OtherSlot });
    stack.push(AncestorEntry { info: AncestorInfo::JsxOpeningNode, slot: Slot::OtherSlot });
    stack.push(AncestorEntry { info: AncestorInfo::OtherNode, slot: Slot::OtherSlot });
    stack.push(AncestorEntry { info: AncestorInfo::OtherNode, slot: Slot::OtherSlot });
    proof {
        assert(final(stack)@.subrange(0, old(stack)@.len() as int) =~= old(stack)@);
        assert(stack_model(final(stack)@) =~= stack_model(old(stack)@) + attr_entries());
    }
}

/// Walks an element: the enter hooks of every registered pass observe it at
/// the current stack, in registration order; then its attribute expressions
/// and children are visited under entries for the element (and its opening
/// tag, for attributes).
#[verifier::loop_isolation(false)]
#[verifier::rlimit(100)]
pub fn walk_jsx_element(el: &JsxElement, env: &WalkEnv, ctx: &mut WalkContext)
    requires
        env.wf(),
    ensures
        walk_adds(
            *old(ctx),
            *final(ctx),
            element_diags(el.model(), stack_model(old(ctx).stack@), env.model()),
        ),
    decreases el,
{
    let ghost sm0 = stack_model(ctx.stack@);
    let ghost envm = env.model();
    let ghost d0 = diags_model(ctx.diagnostics@);
    proof {
        assert(ctx.diagnostics@.subrange(0, ctx.diagnostics@.len() as int) =~= ctx.diagnostics@);
    }
    let ghost el0 = *el;
    let ghost atsM = el0.model().opening.attributes;
    let ghost csM = el0.model().children;
    let ghost eentry = EntryM { info: InfoM::JsxElementNode, slot: Slot::OtherSlot };
    run_element_hooks(el, env.passes, &ctx.stack, env.settings, &mut ctx.diagnostics);
    let ghost dhooks = diags_model(ctx.diagnostics@);
    proof {
        assert(atsM == crate::model::attrs_model(el.opening.attributes@));
        assert(csM == crate::model::children_model(el.children@));
        assert(dhooks =~= d0 + passes_element_diags(envm.passes, el0.model(), sm0, envm.settings));
        assert(atsM.skip(0) =~= atsM);
    }
    let n = el.opening.attributes.len();
    let mut i: usize = 0;
    while i < n
        invariant
            env.wf(),
            n == el.opening.attributes@.len(),
            el0 == *el,
            i <= n,
            atsM == crate::model::attrs_model(el.opening.attributes@),
            walk_preserves(*old(ctx), *ctx),
            diags_model(ctx.diagnostics@) + attrs_diags(atsM.skip(i as int), sm0, envm)
                == dhooks + attrs_diags(atsM, sm0, envm),
        decreases n - i,
    {
        proof {
            assert(atsM.skip(i as int)[0] == atsM[i as int]);
            assert(atsM[i as int] == el.opening.attributes@[i as int].model());
            assert(atsM.skip(i as int).drop_first() =~= atsM.skip(i as int + 1));
        }
        let ghost dpre = diags_model(ctx.diagnostics@);
        match &el.opening.attributes[i] {
            JsxAttributeItem::Attr(a) => {
                match &a.value {
                    Some(JsxAttributeValue::AttrContainer { expression, .. }) => {
                        let ghost pre = *ctx;
                        push_attr_entries(&mut ctx.stack);
                        proof {
                            assert(atsM[i as int] matches AttrItemM::Attr(am2)
                                && am2.value matches Some(AttrValueM::AttrContainer {
                                expression: b,
                                ..
                            }) && *b == (**expression).model());
                            assert(stack_model(ctx.stack@) =~= sm0 + attr_entries());
                            assert(decreases_to!(el0 => el0.opening));
                            assert(decreases_to!(el0.opening => el0.opening.attributes));
                            assert(decreases_to!(el0.opening.attributes =>
                                el0.opening.attributes@[i as int]));
                            assert(decreases_to!(el0.opening.attributes@[i as int] =>
                                el0.opening.attributes@[i as int]->Attr_0));
                            assert(decreases_to!(el0.opening.attributes@[i as int]->Attr_0 =>
                                el0.opening.attributes@[i as int]->Attr_0.value));
                            assert(decreases_to!(
                                el0.opening.attributes@[i as int]->Attr_0.value =>
                                el0.opening.attributes@[i as int]->Attr_0.value->0));
                            assert(decreases_to!(
                                el0.opening.attributes@[i as int]->Attr_0.value->0 =>
                                el0.opening.attributes@[i as int]->Attr_0.value->0
                                    ->AttrContainer_expression));
                            assert(decreases_to!(el0 =>
                                el0.opening.attributes@[i as int]->Attr_0.value->0
                                    ->AttrContainer_expression));
                        }
                        walk_expr(expression, env, ctx);
                        pop_entry(&mut ctx.stack);
                        pop_entry(&mut ctx.stack);
                        pop_entry(&mut ctx.stack);
                        pop_entry(&mut ctx.stack);
                        proof {
                            assert(ctx.stack@ =~= pre.stack@);
                            assert(ctx.diagnostics@.subrange(
                                0,
                                old(ctx).diagnostics@.len() as int,
                            ) =~= old(ctx).diagnostics@);
                            lemma_concat_shift(
                                dhooks + attrs_diags(atsM, sm0, envm),
                                dpre,
                                expr_diags((**expression).model(), sm0 + attr_entries(), envm),
                                attrs_diags(atsM.skip(i as int), sm0, envm),
                                attrs_diags(atsM.skip(i as int + 1), sm0, envm),
                                diags_model(ctx.diagnostics@),
                            );
                        }
                    },
                    _ => {
                        proof {
                            assert(atsM[i as int] matches AttrItemM::Attr(am2) && !(am2.value
                                matches Some(AttrValueM::AttrContainer { .. })));
                            lemma_concat_shift(
                                dhooks + attrs_diags(atsM, sm0, envm),
                                dpre,
                                Seq::<DiagM>::empty(),
                                attrs_diags(atsM.skip(i as int), sm0, envm),
                                attrs_diags(atsM.skip(i as int + 1), sm0, envm),
                                diags_model(ctx.diagnostics@),
                            );
                        }
                    },
                }
            },
            JsxAttributeItem::AttrSpread { argument, .. } => {
                let ghost pre = *ctx;
                push_attr_entries(&mut ctx.stack);
                proof {
                    assert(atsM[i as int] matches AttrItemM::AttrSpread { argument: b, .. }
                        && *b == (**argument).model());
                    assert(stack_model(ctx.stack@) =~= sm0 + attr_entries());
                    assert(decreases_to!(el0 => el0.opening));
                    assert(decreases_to!(el0.opening => el0.opening.attributes));
                    assert(decreases_to!(el0.opening.attributes =>
                        el0.opening.attributes@[i as int]));
                    assert(decreases_to!(el0.opening.attributes@[i as int] =>
                        el0.opening.attributes@[i as int]->AttrSpread_argument));
                    assert(decreases_to!(el0 =>
                        el0.opening.attributes@[i as int]->AttrSpread_argument));
                }
                walk_expr(argument, env, ctx);
                pop_entry(&mut ctx.stack);
                pop_entry(&mut ctx.stack);
                pop_entry(&mut ctx.stack);
                pop_entry(&mut ctx.stack);
                proof {
                    assert(ctx.stack@ =~= pre.stack@);
                    assert(ctx.diagnostics@.subrange(0, old(ctx).diagnostics@.len() as int)
                        =~= old(ctx).diagnostics@);
                    lemma_concat_shift(
                        dhooks + attrs_diags(atsM, sm0, envm),
                        dpre,
                        expr_diags((**argument).model(), sm0 + attr_entries(), envm),
                        attrs_diags(atsM.skip(i as int), sm0, envm),
                        attrs_diags(atsM.skip(i as int + 1), sm0, envm),
                        diags_model(ctx.diagnostics@),
                    );
                }
            },
        }
        i = i + 1;
    }
    let ghost dattrs = diags_model(ctx.diagnostics@);
    proof {
        assert(attrs_diags(atsM.skip(n as int), sm0, envm) =~= Seq::<DiagM>::empty());
        assert(dattrs + Seq::<DiagM>::empty() =~= dattrs);
        assert(dattrs =~= dhooks + attrs_diags(atsM, sm0, envm));
        assert(csM.skip(0) =~= csM);
    }
    let m = el.children.len();
    let mut j: usize = 0;
    while j < m
        invariant
            env.wf(),
            m == el.children@.len(),
            el0 == *el,
            j <= m,
            csM == crate::model::children_model(el.children@),
            walk_preserves(*old(ctx), *ctx),
            diags_model(ctx.diagnostics@) + children_under_diags(
                csM.skip(j as int),
                eentry,
                sm0,
                envm,
            ) == dattrs + children_under_diags(csM, eentry, sm0, envm),
        decreases m - j,
    {
        let ghost pre = *ctx;
        ctx.stack.push(AncestorEntry {
            info: AncestorInfo::JsxElementNode,
            slot: Slot::OtherSlot,
        });
        proof {
            assert(csM.skip(j as int)[0] == csM[j as int]);
            assert(csM[j as int] == el.children@[j as int].model());
            assert(csM.skip(j as int).drop_first() =~= csM.skip(j as int + 1));
            assert(stack_model(ctx.stack@) =~= sm0.push(eentry));
            assert(decreases_to!(el0 => el0.children));
            assert(decreases_to!(el0.children => el0.children@[j as int]));
            assert(decreases_to!(el0 => el0.children@[j as int]));
        }
        let ghost dpre = diags_model(ctx.diagnostics@);
        walk_jsx_child(&el.children[j], env, ctx);
        pop_entry(&mut ctx.stack);
        proof {
            assert(ctx.stack@ =~= pre.stack@);
            assert(ctx.diagnostics@.subrange(0, old(ctx).diagnostics@.len() as int) =~= old(
                ctx,
            ).diagnostics@);
            lemma_concat_shift(
                dattrs + children_under_diags(csM, eentry, sm0, envm),
                dpre,
                child_diags(csM[j as int], sm0.push(eentry), envm),
                children_under_diags(csM.skip(j as int), eentry, sm0, envm),
                children_under_diags(csM.skip(j as int + 1), eentry, sm0, envm),
                diags_model(ctx.diagnostics@),
            );
        }
        j = j + 1;
    }
    proof {
        assert(children_under_diags(csM.skip(m as int), eentry, sm0, envm) =~= Seq::<
            DiagM,
        >::empty());
        assert(diags_model(ctx.diagnostics@) + Seq::<DiagM>::empty() =~= diags_model(
            ctx.diagnostics@,
        ));
        assert(((d0 + passes_element_diags(envm.passes, el0.model(), sm0, envm.settings))
            + attrs_diags(atsM, sm0, envm)) + children_under_diags(csM, eentry, sm0, envm)
            =~= d0 + (passes_element_diags(envm.passes, el0.model(), sm0, envm.settings)
            + attrs_diags(atsM, sm0, envm) + children_under_diags(csM, eentry, sm0, envm)));
        assert(diags_model(ctx.diagnostics@) =~= d0 + element_diags(el0.model(), sm0, envm));
    }
}

/// Walks one element child.
#[verifier::loop_isolation(false)]
pub fn walk_jsx_child(c: &JsxChild, env: &WalkEnv, ctx: &mut WalkContext)
    requires
        env.wf(),
    ensures
        walk_adds(
            *old(ctx),
            *final(ctx),
            child_diags(c.model(), stack_model(old(ctx).stack@), env.model()),
        ),
    decreases c,
{
    let ghost sm0 = stack_model(ctx.stack@);
    let ghost envm = env.model();
    let ghost d0 = diags_model(ctx.diagnostics@);
    proof {
        assert(ctx.diagnostics@.subrange(0, ctx.diagnostics@.len() as int) =~= ctx.diagnostics@);
    }
    let ghost c0 = *c;
    match c {
        JsxChild::ChildElement(el) => {
            proof {
                assert(c0.model() matches ChildM::ChildElement(b) && *b == (**el).model());
                assert(decreases_to!(c0 => c0->ChildElement_0));
            }
            walk_jsx_element(el, env, ctx);
        },
        JsxChild::ChildFragment(fr) => {
            proof {
                assert(c0.model() matches ChildM::ChildFragment(b) && *b == (**fr).model());
                assert(decreases_to!(c0 => c0->ChildFragment_0));
            }
            walk_jsx_fragment(fr, env, ctx);
        },
        JsxChild::ChildContainer { expression, .. } => {
            proof {
                assert(c0.model() matches ChildM::ChildContainer { expression: b, .. }
                    && *b == (**expression).model());
            }
            ctx.stack.push(AncestorEntry { info: AncestorInfo::OtherNode, slot: Slot::OtherSlot });
            proof {
                assert(stack_model(ctx.stack@) =~= sm0.push(other_entry()));
                assert(decreases_to!(c0 => c0->ChildContainer_expression));
            }
            walk_expr(expression, env, ctx);
            pop_entry(&mut ctx.stack);
            proof {
                assert(ctx.stack@ =~= old(ctx).stack@);
            }
        },
        JsxChild::ChildText { .. } => {
            proof {
                assert(diags_model(ctx.diagnostics@) =~= d0 + Seq::<DiagM>::empty());
            }
        },
    }
}

/// Walks a fragment: the enter hooks of every registered pass observe it at
/// the current stack, in registration order; then its children are visited
/// under a fragment entry.
#[verifier::loop_isolation(false)]
#[verifier::rlimit(100)]
pub fn walk_jsx_fragment(fr: &JsxFragment, env: &WalkEnv, ctx: &mut WalkContext)
    requires
        env.wf(),
    ensures
        walk_adds(
            *old(ctx),
            *final(ctx),
            fragment_diags(fr.model(), stack_model(old(ctx).stack@), env.model()),
        ),
    decreases fr,
{
    let ghost sm0 = stack_model(ctx.stack@);
    let ghost envm = env.model();
    let ghost d0 = diags_model(ctx.diagnostics@);
    proof {
        assert(ctx.diagnostics@.subrange(0, ctx.diagnostics@.len() as int) =~= ctx.diagnostics@);
    }
    let ghost fr0 = *fr;
    let ghost csM = fr0.model().children;
    let ghost fentry = EntryM { info: InfoM::JsxFragmentNode, slot: Slot::OtherSlot };
    run_fragment_hooks(fr, env.passes, &ctx.stack, &mut ctx.diagnostics);
    let ghost dhooks = diags_model(ctx.diagnostics@);
    proof {
        assert(csM == crate::model::children_model(fr.children@));
        assert(dhooks =~= d0 + passes_fragment_diags(envm.passes, fr0.opening_span, sm0));
        assert(csM.skip(0) =~= csM);
    }
    let m = fr.children.len();
    let mut j: usize = 0;
    while j < m
        invariant
            env.wf(),
            m == fr.children@.len(),
            fr0 == *fr,
            j <= m,
            csM == crate::model::children_model(fr.children@),
            walk_preserves(*old(ctx), *ctx),
            diags_model(ctx.diagnostics@) + children_under_diags(
                csM.skip(j as int),
                fentry,
                sm0,
                envm,
            ) == dhooks + children_under_diags(csM, fentry, sm0, envm),
        decreases m - j,
    {
        let ghost pre = *ctx;
        ctx.stack.push(AncestorEntry {
            info: AncestorInfo::JsxFragmentNode,
            slot: Slot::OtherSlot,
        });
        proof {
            assert(csM.skip(j as int)[0] == csM[j as int]);
            assert(csM[j as int] == fr.children@[j as int].model());
            assert(csM.skip(j as int).drop_first() =~= csM.skip(j as int + 1));
            assert(stack_model(ctx.stack@) =~= sm0.push(fentry));
            assert(decreases_to!(fr0 => fr0.children));
            assert(decreases_to!(fr0.children => fr0.children@[j as int]));
            assert(decreases_to!(fr0 => fr0.children@[j as int]));
        }
        let ghost dpre = diags_model(ctx.diagnostics@);
        walk_jsx_child(&fr.children[j], env, ctx);
        pop_entry(&mut ctx.stack);
        proof {
            assert(ctx.stack@ =~= pre.stack@);
            assert(ctx.diagnostics@.subrange(0, old(ctx).diagnostics@.len() as int) =~= old(
                ctx,
            ).diagnostics@);
            lemma_concat_shift(
                dhooks + children_under_diags(csM, fentry, sm0, envm),
                dpre,
                child_diags(csM[j as int], sm0.push(fentry), envm),
                children_under_diags(csM.skip(j as int), fentry, sm0, envm),
                children_under_diags(csM.skip(j as int + 1), fentry, sm0, envm),
                diags_model(ctx.diagnostics@),
            );
        }
        j = j + 1;
    }
    proof {
        assert(children_under_diags(csM.skip(m as int), fentry, sm0, envm) =~= Seq::<
            DiagM,
        >::empty());
        assert(diags_model(ctx.diagnostics@) + Seq::<DiagM>::empty() =~= diags_model(
            ctx.diagnostics@,
        ));
        assert((d0 + passes_fragment_diags(envm.passes, fr0.opening_span, sm0))
            + children_under_diags(csM, fentry, sm0, envm) =~= d0 + (passes_fragment_diags(
            envm.passes,
            fr0.opening_span,
            sm0,
        ) + children_under_diags(csM, fentry, sm0, envm)));
        assert(diags_model(ctx.diagnostics@) =~= d0 + fragment_diags(fr0.model(), sm0, envm));
    }
}

/// Performs one depth-first walk over the whole unit, running every
/// registered analysis pass at each node it applies to, in registration
/// order. The diagnostics returned are exactly, and in order, what the
/// walk specifies for the unit: the ancestor stack starts empty, carries
/// one entry per tree level while a node is visited, and is balanced back
/// to empty when the walk ends.
#[verifier::loop_isolation(false)]
#[verifier::rlimit(100)]
pub fn run_analysis(
    program: &Program,
    passes: &Vec<AnalysisPass>,
    scopes: &ScopeTree,
    module: &ModuleRecord,
    settings: &JsxA11ySettings,
) -> (r: Vec<Diagnostic>)
    requires
        scopes.wf(),
        scopes.scopes@.len() > 0,
    ensures
        diags_model(r@) == program_diags(
            program.model(),
            WalkEnvM {
                passes: passes@,
                module: module.model(),
                scopes: *scopes,
                settings: settings.model(),
            },
        ),
{
    let env = WalkEnv { passes, scopes, module, settings };
    let ghost envm = env.model();
    let ghost pentry = EntryM { info: InfoM::ProgramNode, slot: Slot::BodySlot };
    let ghost ssM = program.model().statements;
    let mut ctx = WalkContext {
        stack: Vec::new(),
        scope_stack: Vec::new(),
        diagnostics: Vec::new(),
    };
    ctx.scope_stack.push(program.scope_id);
    let ghost started = ctx;
    proof {
        assert(ssM == crate::model::stmts_model(program.statements@));
        assert(ssM.skip(0) =~= ssM);
        assert(diags_model(ctx.diagnostics@) =~= Seq::<DiagM>::empty());
        assert(Seq::<DiagM>::empty() + stmts_under_diags(
            ssM,
            seq![pentry],
            Seq::<EntryM>::empty(),
            envm,
        ) =~= stmts_under_diags(ssM, seq![pentry], Seq::<EntryM>::empty(), envm));
    }
    let n = program.statements.len();
    let mut i: usize = 0;
    while i < n
        invariant
            env.wf(),
            n == program.statements@.len(),
            i <= n,
            ssM == crate::model::stmts_model(program.statements@),
            ctx.stack@ == started.stack@,
            ctx.scope_stack@ == started.scope_stack@,
            diags_model(ctx.diagnostics@) + stmts_under_diags(
                ssM.skip(i as int),
                seq![pentry],
                Seq::<EntryM>::empty(),
                envm,
            ) == stmts_under_diags(ssM, seq![pentry], Seq::<EntryM>::empty(), envm),
        decreases n - i,
    {
        let ghost pre = ctx;
        ctx.stack.push(AncestorEntry {
            info: AncestorInfo::ProgramNode,
            slot: Slot::BodySlot,
        });
        proof {
            assert(ssM.skip(i as int)[0] == ssM[i as int]);
            assert(ssM[i as int] == program.statements@[i as int].model());
            assert(ssM.skip(i as int).drop_first() =~= ssM.skip(i as int + 1));
            assert(stack_model(ctx.stack@) =~= Seq::<EntryM>::empty() + seq![pentry]);
        }
        let ghost dpre = diags_model(ctx.diagnostics@);
        walk_stmt(&program.statements[i], &env, &mut ctx);
        pop_entry(&mut ctx.stack);
        proof {
            assert(ctx.stack@ =~= pre.stack@);
            lemma_concat_shift(
                stmts_under_diags(ssM, seq![pentry], Seq::<EntryM>::empty(), envm),
                dpre,
                stmt_diags(ssM[i as int], Seq::<EntryM>::empty() + seq![pentry], envm),
                stmts_under_diags(ssM.skip(i as int), seq![pentry], Seq::<EntryM>::empty(), envm),
                stmts_under_diags(
                    ssM.skip(i as int + 1),
                    seq![pentry],
                    Seq::<EntryM>::empty(),
                    envm,
                ),
                diags_model(ctx.diagnostics@),
            );
        }
        i = i + 1;
    }
    proof {
        assert(ctx.stack@.len() == 0);
        assert(stmts_under_diags(ssM.skip(n as int), seq![pentry], Seq::<EntryM>::empty(), envm)
            =~= Seq::<DiagM>::empty());
        assert(diags_model(ctx.diagnostics@) + Seq::<DiagM>::empty() =~= diags_model(
            ctx.diagnostics@,
        ));
        assert(diags_model(ctx.diagnostics@) =~= program_diags(program.model(), envm));
    }
    ctx.diagnostics
}

} // verus!
