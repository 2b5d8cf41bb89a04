//! The list-render key requirement: an element or fragment produced inside
//! an array literal or a recognized iterator call must carry a `key`
//! attribute, and a `key` attribute must precede any spread attribute. The
//! classification walks the ancestor stack outward with a small state scan.

use vstd::prelude::*;
use crate::Span;
use crate::ast::{CallExpression, JsxElement, JsxFragment, JsxAttributeItem, JsxAttributeName,
    Expression};
use crate::model::{CallM, AttrItemM, AttrNameM, attrs_model};
use crate::ancestry::{AncestorEntry, EntryM, InfoM, stack_model, as_member_m, static_prop_m,
    ident_name_m, without_parens_m};
use crate::config::{ModuleRecord, ModuleRecordM, ImportEntryM};
use crate::casing::{ascii_lower, ascii_lowercase_str};
use crate::scope::{ScopeTree, compare_str};
use crate::diagnostics::{Diagnostic, DiagM, Severity, Label, LabelM, diags_model};
use crate::binding::clone_string;

verus! {

/// The list-render key rule. It holds no configuration.
#[derive(Debug, Clone, Default)]
pub struct JsxKey;

/// Where a classified element sits: directly in an array literal, or as the
/// relevant argument of a recognized iterator call, whose callee span is
/// kept for the two-location diagnostic.
#[derive(Clone, Copy, PartialEq, Eq, Structural, Debug)]
pub enum InsideArrayOrIterator {
    Array,
    Iterator(Span),
}

/// Whether a static callee property is one of the recognized iterator
/// methods.
pub open spec fn is_target_method(name: Seq<char>) -> bool {
    name == "flatMap"@ || name == "from"@ || name == "map"@
}

/// The ancestor scan, examining entry `i` and walking down the stack. The
/// state carries whether a function boundary was already crossed, whether an
/// explicit return was seen, and the span of the nearest argument position
/// passed.
pub open spec fn scan_from(
    stack: Seq<EntryM>,
    i: int,
    outside: bool,
    explicit_return: bool,
    arg: Option<Span>,
) -> Option<InsideArrayOrIterator>
    decreases i + 1,
{
    if i < 0 || i >= stack.len() {
        None
    } else {
        match stack[i].info {
            InfoM::ArrowNode { first_stmt_is_expression } => {
                if !explicit_return && !first_stmt_is_expression {
                    None
                } else if i > 0 && stack[i - 1].info is ObjectPropertyNode {
                    None
                } else if outside {
                    None
                } else {
                    scan_from(stack, i - 1, true, explicit_return, arg)
                }
            },
            InfoM::FunctionNode => {
                if i > 0 && stack[i - 1].info is ObjectPropertyNode {
                    None
                } else if outside {
                    None
                } else {
                    scan_from(stack, i - 1, true, explicit_return, arg)
                }
            },
            InfoM::ArrayNode => {
                if outside {
                    None
                } else {
                    Some(InsideArrayOrIterator::Array)
                }
            },
            InfoM::CallNode(c) => {
                match c.callee_prop {
                    Some((span, name)) => {
                        if is_target_method(name) && arg is Some && ({
                            let idx: int = if name == "from"@ {
                                1
                            } else {
                                0
                            };
                            idx < c.arg_spans.len() && c.arg_spans[idx] == arg->0
                        }) {
                            Some(InsideArrayOrIterator::Iterator(span))
                        } else {
                            None
                        }
                    },
                    None => None,
                }
            },
            InfoM::JsxElementNode => None,
            InfoM::JsxOpeningNode => None,
            InfoM::ObjectPropertyNode => None,
            InfoM::JsxFragmentNode => None,
            InfoM::ReturnNode => scan_from(stack, i - 1, outside, true, arg),
            InfoM::ArgumentNode { span } => scan_from(stack, i - 1, outside, explicit_return,
                Some(span)),
            _ => scan_from(stack, i - 1, outside, explicit_return, arg),
        }
    }
}

/// The classification of the node whose ancestor stack this is.
pub open spec fn in_array_or_iter(stack: Seq<EntryM>) -> Option<InsideArrayOrIterator> {
    scan_from(stack, stack.len() - 1, false, false, None)
}

/// The ancestor scan (executable form), examining entries `0..i` from the
/// top down.
fn scan_exec(
    stack: &Vec<AncestorEntry>,
    i: usize,
    outside: bool,
    explicit_return: bool,
    arg: Option<Span>,
) -> (r: Option<InsideArrayOrIterator>)
    requires
        i <= stack@.len(),
    ensures
        r == scan_from(stack_model(stack@), i - 1, outside, explicit_return, arg),
    decreases i,
{
    if i == 0 {
        return None;
    }
    let k = i - 1;
    proof {
        assert(stack_model(stack@)[k as int] == stack@[k as int].model());
        if k > 0 {
            assert(stack_model(stack@)[k as int - 1] == stack@[k as int - 1].model());
        }
    }
    match &stack[k].info {
        crate::ancestry::AncestorInfo::ArrowNode { first_stmt_is_expression } => {
            if !explicit_return && !*first_stmt_is_expression {
                None
            } else if k > 0 && matches!(
                &stack[k - 1].info,
                crate::ancestry::AncestorInfo::ObjectPropertyNode
            ) {
                None
            } else if outside {
                None
            } else {
                scan_exec(stack, k, true, explicit_return, arg)
            }
        },
        crate::ancestry::AncestorInfo::FunctionNode => {
            if k > 0 && matches!(
                &stack[k - 1].info,
                crate::ancestry::AncestorInfo::ObjectPropertyNode
            ) {
                None
            } else if outside {
                None
            } else {
                scan_exec(stack, k, true, explicit_return, arg)
            }
        },
        crate::ancestry::AncestorInfo::ArrayNode => {
            if outside {
                None
            } else {
                Some(InsideArrayOrIterator::Array)
            }
        },
        crate::ancestry::AncestorInfo::CallNode(c) => {
            match &c.callee_prop {
                Some((span, name)) => {
                    let is_target = compare_str(name.as_str(), "flatMap") || compare_str(
                        name.as_str(),
                        "from",
                    ) || compare_str(name.as_str(), "map");
                    match arg {
                        Some(a) => {
                            if is_target {
                                let idx: usize = if compare_str(name.as_str(), "from") {
                                    1
                                } else {
                                    0
                                };
                                if idx < c.arg_spans.len() && c.arg_spans[idx] == a {
                                    Some(InsideArrayOrIterator::Iterator(*span))
                                } else {
                                    None
                                }
                            } else {
                                None
                            }
                        },
                        None => None,
                    }
                },
                None => None,
            }
        },
        crate::ancestry::AncestorInfo::JsxElementNode => None,
        crate::ancestry::AncestorInfo::JsxOpeningNode => None,
        crate::ancestry::AncestorInfo::ObjectPropertyNode => None,
        crate::ancestry::AncestorInfo::JsxFragmentNode => None,
        crate::ancestry::AncestorInfo::ReturnNode => scan_exec(stack, k, outside, true, arg),
        crate::ancestry::AncestorInfo::ArgumentNode { span } => scan_exec(
            stack,
            k,
            outside,
            explicit_return,
            Some(*span),
        ),
        _ => scan_exec(stack, k, outside, explicit_return, arg),
    }
}

/// Classifies the node whose ancestor stack this is: inside an array
/// literal, inside a recognized iterator call, or neither.
pub fn is_in_array_or_iter(stack: &Vec<AncestorEntry>) -> (r: Option<InsideArrayOrIterator>)
    ensures
        r == in_array_or_iter(stack_model(stack@)),
{
    scan_exec(stack, stack.len(), false, false, None)
}

// --- the children-collection idiom ---

/// Whether the callee is the collection method by name.
pub open spec fn is_to_array_m(c: CallM) -> bool {
    callee_name_m(c) == Some("toArray"@)
}

/// The static name of a call's callee: the identifier itself, or the static
/// property of a member callee.
pub open spec fn callee_name_m(c: CallM) -> Option<Seq<char>> {
    match ident_name_m(*c.callee) {
        Some(n) => Some(n),
        None => match as_member_m(*c.callee) {
            Some(m) => match static_prop_m(m) {
                Some((_sp, n)) => Some(n),
                None => None,
            },
            None => None,
        },
    }
}

/// Whether the call's callee is named like the collection method.
pub fn is_to_array(call: &CallExpression) -> (r: bool)
    ensures
        r == is_to_array_m(call.model()),
{
    proof {
        assert(call.model().callee == Box::new(call.callee.model()));
    }
    match call.callee.get_identifier_name() {
        Some(n) => compare_str(n.as_str(), "toArray"),
        None => {
            match call.callee.as_member_expression() {
                Some(m) => {
                    match m.static_property_info() {
                        Some((_sp, n)) => compare_str(n.as_str(), "toArray"),
                        None => false,
                    }
                },
                None => false,
            }
        },
    }
}

/// Whether some import entry binds `actual_local_name` from the module
/// whose name lowercases (in the basic letter range) to the expected one.
pub open spec fn import_matcher_m(
    m: ModuleRecordM,
    actual_local_name: Seq<char>,
    expected_module_name: Seq<char>,
) -> bool {
    exists|i: int|
        0 <= i < m.import_entries.len() && (#[trigger] m.import_entries[i]).module_request
            == ascii_lower(expected_module_name) && m.import_entries[i].local_name
            == actual_local_name
}

/// Whether the module record shows `actual_local_name` imported from
/// `expected_module_name` (compared case-insensitively in the basic letter
/// range).
pub fn import_matcher(
    module: &ModuleRecord,
    actual_local_name: &str,
    expected_module_name: &str,
) -> (r: bool)
    ensures
        r == import_matcher_m(module.model(), actual_local_name@, expected_module_name@),
{
    let expected = ascii_lowercase_str(expected_module_name);
    let n = module.import_entries.len();
    let mut i: usize = 0;
    while i < n
        invariant
            n == module.import_entries@.len(),
            expected@ == ascii_lower(expected_module_name@),
            i <= n,
            forall|j: int| 0 <= j < i ==> !((#[trigger] module.model().import_entries[j])
                .module_request == ascii_lower(expected_module_name@)
                && module.model().import_entries[j].local_name == actual_local_name@),
        decreases n - i,
    {
        proof {
            assert(module.model().import_entries[i as int] == module.import_entries@[
                i as int
            ].model());
        }
        if compare_str(module.import_entries[i].module_request.as_str(), expected.as_str())
            && compare_str(module.import_entries[i].local_name.as_str(), actual_local_name) {
            return true;
        }
        i = i + 1;
    }
    false
}

/// Whether `actual_local_name` is the expected local name: directly, in a
/// unit with no imports and no root-scope bindings; else through the module
/// record.
pub open spec fn is_import_m(
    m: ModuleRecordM,
    t: ScopeTree,
    actual_local_name: Seq<char>,
    expected_local_name: Seq<char>,
    expected_module_name: Seq<char>,
) -> bool {
    if m.requested_modules.len() == 0 && t.scopes@[0].bindings@.len() == 0 {
        actual_local_name == expected_local_name
    } else {
        import_matcher_m(m, actual_local_name, expected_module_name)
    }
}

/// Whether `actual_local_name` denotes the expected import. A unit with no
/// imports at all and an empty root scope is taken at its word: the bare
/// name matches.
pub fn is_import(
    module: &ModuleRecord,
    scopes: &ScopeTree,
    actual_local_name: &str,
    expected_local_name: &str,
    expected_module_name: &str,
) -> (r: bool)
    requires
        scopes.wf(),
        scopes.scopes@.len() > 0,
    ensures
        r == is_import_m(
            module.model(),
            *scopes,
            actual_local_name@,
            expected_local_name@,
            expected_module_name@,
        ),
{
    if module.requested_modules.len() == 0 && scopes.binding_count(0) == 0 {
        compare_str(actual_local_name, expected_local_name)
    } else {
        import_matcher(module, actual_local_name, expected_module_name)
    }
}

/// Whether a call is the children-collection idiom: its callee is a member
/// access on the library object (or on a member access reaching it), with
/// the conventional names resolved import-aware.
pub open spec fn is_children_m(c: CallM, m: ModuleRecordM, t: ScopeTree) -> bool {
    match as_member_m(*c.callee) {
        Some(mem) => {
            match ident_name_m(*mem.object) {
                Some(name) => is_import_m(m, t, name, "Children"@, "React"@),
                None => {
                    match as_member_m(without_parens_m(*mem.object)) {
                        Some(inner) => {
                            match ident_name_m(*inner.object) {
                                Some(iname) => {
                                    match static_prop_m(inner) {
                                        Some((_sp, local)) => is_import_m(
                                            m,
                                            t,
                                            iname,
                                            "React"@,
                                            "React"@,
                                        ) && local == "Children"@,
                                        None => false,
                                    }
                                },
                                None => false,
                            }
                        },
                        None => false,
                    }
                },
            }
        },
        None => false,
    }
}

/// Whether the call is the children-collection idiom (executable form).
pub fn is_children(call: &CallExpression, module: &ModuleRecord, scopes: &ScopeTree) -> (r: bool)
    requires
        scopes.wf(),
        scopes.scopes@.len() > 0,
    ensures
        r == is_children_m(call.model(), module.model(), *scopes),
{
    proof {
        assert(call.model().callee == Box::new(call.callee.model()));
    }
    match call.callee.as_member_expression() {
        Some(mem) => {
            proof {
                assert(mem.model().object == Box::new(mem.object.model()));
            }
            match mem.object.get_identifier_name() {
                Some(name) => is_import(module, scopes, name.as_str(), "Children", "React"),
                None => {
                    let inner_expr = mem.object.get_inner_expression();
                    match inner_expr.as_member_expression() {
                        Some(inner) => {
                            proof {
                                assert(inner.model().object == Box::new(inner.object.model()));
                            }
                            match inner.object.get_identifier_name() {
                                Some(iname) => {
                                    match inner.static_property_info() {
                                        Some((_sp, local)) => {
                                            let imported = is_import(
                                                module,
                                                scopes,
                                                iname.as_str(),
                                                "React",
                                                "React",
                                            );
                                            imported && compare_str(local.as_str(), "Children")
                                        },
                                        None => false,
                                    }
                                },
                                None => false,
                            }
                        },
                        None => false,
                    }
                },
            }
        },
        None => false,
    }
}

/// Whether some ancestor call is the children-collection idiom applied to
/// its collection method: such a subtree supplies its own keys externally.
pub open spec fn within_children_to_array(stack: Seq<EntryM>) -> bool {
    exists|i: int|
        0 <= i < stack.len() && ((#[trigger] stack[i].info) matches InfoM::CallNode(c)
            && c.children_to_array)
}

/// Whether some ancestor call is the children-collection idiom (executable
/// form, over the summaries the walk recorded).
pub fn is_within_children_to_array(stack: &Vec<AncestorEntry>) -> (r: bool)
    ensures
        r == within_children_to_array(stack_model(stack@)),
{
    let n = stack.len();
    let mut i: usize = 0;
    while i < n
        invariant
            n == stack@.len(),
            i <= n,
            forall|j: int| 0 <= j < i ==> !((#[trigger] stack_model(stack@)[j].info) matches
                InfoM::CallNode(c) && c.children_to_array),

        decreases n - i,
    {
        proof {
            assert(stack_model(stack@)[i as int] == stack@[i as int].model());
        }
        match &stack[i].info {
            crate::ancestry::AncestorInfo::CallNode(c) => {
                if c.children_to_array {
                    return true;
                }
            },
            _ => {},
        }
        i = i + 1;
    }
    false
}

// --- the key attribute itself ---

/// Whether one attribute is literally named `key`.
pub open spec fn attr_is_key(item: AttrItemM) -> bool {
    match item {
        AttrItemM::Attr(a) => match a.name {
            AttrNameM::AttrIdent { name, .. } => name == "key"@,
            _ => false,
        },
        _ => false,
    }
}

/// Whether the attribute list carries a `key`.
pub open spec fn has_key(attrs: Seq<AttrItemM>) -> bool {
    exists|i: int| 0 <= i < attrs.len() && attr_is_key(#[trigger] attrs[i])
}

/// Whether the attribute list carries a `key` (executable form).
pub fn has_key_attribute(attrs: &Vec<JsxAttributeItem>) -> (r: bool)
    ensures
        r == has_key(attrs_model(attrs@)),
{
    let n = attrs.len();
    let mut i: usize = 0;
    while i < n
        invariant
            n == attrs@.len(),
            i <= n,
            forall|j: int| 0 <= j < i ==> !attr_is_key(#[trigger] attrs_model(attrs@)[j]),
        decreases n - i,
    {
        proof {
            assert(attrs_model(attrs@)[i as int] == attrs@[i as int].model());
        }
        match &attrs[i] {
            JsxAttributeItem::Attr(a) => {
                match &a.name {
                    JsxAttributeName::AttrIdent { name, .. } => {
                        if compare_str(name.as_str(), "key") {
                            return true;
                        }
                    },
                    _ => {},
                }
            },
            _ => {},
        }
        i = i + 1;
    }
    false
}

/// The key-before-spread scan from attribute `i` on: the latest `key` seen
/// and the latest spread seen are carried; the scan stops as soon as both
/// are present. A `key` at a higher index than a spread is the finding: the
/// span of that key's name.
pub open spec fn key_spread_scan(
    attrs: Seq<AttrItemM>,
    i: int,
    key: Option<(int, Span)>,
    spread: Option<int>,
) -> Option<Span>
    decreases attrs.len() - i,
{
    if key is Some && spread is Some {
        match (key, spread) {
            (Some((k, sp)), Some(s)) => if k > s {
                Some(sp)
            } else {
                None
            },
            _ => None,
        }
    } else if i < 0 || i >= attrs.len() {
        match (key, spread) {
            (Some((k, sp)), Some(s)) => if k > s {
                Some(sp)
            } else {
                None
            },
            _ => None,
        }
    } else {
        match attrs[i] {
            AttrItemM::Attr(a) => match a.name {
                AttrNameM::AttrIdent { name, span } => if name == "key"@ {
                    key_spread_scan(attrs, i + 1, Some((i, span)), spread)
                } else {
                    key_spread_scan(attrs, i + 1, key, spread)
                },
                _ => key_spread_scan(attrs, i + 1, key, spread),
            },
            AttrItemM::AttrSpread { .. } => key_spread_scan(attrs, i + 1, key, Some(i)),
        }
    }
}

/// The key-after-spread finding for one attribute list.
pub open spec fn key_after_spread(attrs: Seq<AttrItemM>) -> Option<Span> {
    key_spread_scan(attrs, 0, None, None)
}

/// The key-after-spread finding (executable form).
pub fn check_key_before_spread(attrs: &Vec<JsxAttributeItem>) -> (r: Option<Span>)
    ensures
        r == key_after_spread(attrs_model(attrs@)),
{
    let n = attrs.len();
    let mut i: usize = 0;
    let mut key: Option<(usize, Span)> = None;
    let mut spread: Option<usize> = None;
    let ghost am = attrs_model(attrs@);
    while i < n && !(key.is_some() && spread.is_some())
        invariant
            n == attrs@.len(),
            am == attrs_model(attrs@),
            i <= n,
            key_after_spread(am) == key_spread_scan(
                am,
                i as int,
                match key {
                    Some((k, sp)) => Some((k as int, sp)),
                    None => None,
                },
                match spread {
                    Some(s) => Some(s as int),
                    None => None,
                },
            ),
        decreases n - i,
    {
        proof {
            assert(am[i as int] == attrs@[i as int].model());
        }
        match &attrs[i] {
            JsxAttributeItem::Attr(a) => {
                match &a.name {
                    JsxAttributeName::AttrIdent { name, span } => {
                        if compare_str(name.as_str(), "key") {
                            key = Some((i, *span));
                        }
                    },
                    _ => {},
                }
            },
            JsxAttributeItem::AttrSpread { .. } => {
                spread = Some(i);
            },
        }
        i = i + 1;
    }
    let r: Option<Span> = match (key, spread) {
        (Some((k, sp)), Some(s)) => if k > s {
            Some(sp)
        } else {
            None
        },
        _ => None,
    };
    r
}

} // verus!

// --- the rule's findings and diagnostics ---

verus! {

/// The span of an element's tag name.
pub open spec fn elem_name_span(n: crate::model::ElemNameM) -> Span {
    match n {
        crate::model::ElemNameM::NameIdent { span, .. } => span,
        crate::model::ElemNameM::NameOther { span } => span,
    }
}

/// The diagnostic for an element in an array without a `key`.
pub open spec fn missing_key_array_diag(span: Span) -> DiagM {
    DiagM {
        message: "Missing \"key\" prop for element in array."@,
        severity: Severity::Warning,
        help: None::<Seq<char>>,
        labels: seq![LabelM { span, note: None::<Seq<char>> }],
    }
}

/// The two-location diagnostic for an element generated in an iterator call
/// without a `key`.
pub open spec fn missing_key_iterator_diag(iter_span: Span, el_span: Span) -> DiagM {
    DiagM {
        message: "Missing \"key\" prop for element in iterator."@,
        severity: Severity::Warning,
        help: Some(
            "Add a \"key\" prop to the element in the iterator (https://react.dev/learn/rendering-lists#keeping-list-items-in-order-with-key)."@,
        ),
        labels: seq![
            LabelM { span: iter_span, note: Some("Iterator starts here."@) },
            LabelM { span: el_span, note: Some("Element generated here."@) },
        ],
    }
}

/// The diagnostic for a `key` placed after a spread attribute.
pub open spec fn key_after_spread_diag(span: Span) -> DiagM {
    DiagM {
        message: "\"key\" prop must be placed before any `{...spread}`"@,
        severity: Severity::Warning,
        help: Some(
            "To avoid conflicting with React's new JSX transform: https://reactjs.org/blog/2020/09/22/introducing-the-new-jsx-transform.html"@,
        ),
        labels: seq![LabelM { span, note: None::<Seq<char>> }],
    }
}

/// The missing-key diagnostic for a classified site.
pub open spec fn gen_diag_m(span: Span, outer: InsideArrayOrIterator) -> DiagM {
    match outer {
        InsideArrayOrIterator::Array => missing_key_array_diag(span),
        InsideArrayOrIterator::Iterator(v) => missing_key_iterator_diag(v, span),
    }
}

/// What the rule emits for one element: nothing when the site is not a list
/// render, or sits under the children-collection idiom, or carries a `key`;
/// else the missing-key diagnostic at the element's tag-name span.
pub open spec fn jsx_key_element_diags(
    opening: crate::model::OpeningM,
    stack: Seq<EntryM>,
) -> Seq<DiagM> {
    match in_array_or_iter(stack) {
        Some(outer) => if within_children_to_array(stack) {
            Seq::<DiagM>::empty()
        } else if !has_key(opening.attributes) {
            seq![gen_diag_m(elem_name_span(opening.name), outer)]
        } else {
            Seq::<DiagM>::empty()
        },
        None => Seq::<DiagM>::empty(),
    }
}

/// What the rule emits for one fragment: the missing-key diagnostic at the
/// opening-fragment span whenever the site is a list render not under the
/// children-collection idiom; a fragment cannot carry a `key`.
pub open spec fn jsx_key_fragment_diags(opening_span: Span, stack: Seq<EntryM>) -> Seq<DiagM> {
    match in_array_or_iter(stack) {
        Some(outer) => if within_children_to_array(stack) {
            Seq::<DiagM>::empty()
        } else {
            seq![gen_diag_m(opening_span, outer)]
        },
        None => Seq::<DiagM>::empty(),
    }
}

/// What the attribute-ordering check emits for one element.
pub open spec fn jsx_key_order_diags(attrs: Seq<AttrItemM>) -> Seq<DiagM> {
    match key_after_spread(attrs) {
        Some(span) => seq![key_after_spread_diag(span)],
        None => Seq::<DiagM>::empty(),
    }
}

/// Builds the missing-key diagnostic for a classified site.
fn make_gen_diag(span: Span, outer: InsideArrayOrIterator) -> (r: Diagnostic)
    ensures
        r.model() == gen_diag_m(span, outer),
{
    match outer {
        InsideArrayOrIterator::Array => {
            let mut labels: Vec<Label> = Vec::new();
            labels.push(Label { span, note: None });
            let r = Diagnostic {
                message: "Missing \"key\" prop for element in array.".to_owned(),
                severity: Severity::Warning,
                help: None,
                labels,
            };
            proof {
                assert(r.model().labels =~= missing_key_array_diag(span).labels);
                assert(r.model() =~= missing_key_array_diag(span));
            }
            r
        },
        InsideArrayOrIterator::Iterator(v) => {
            let mut labels: Vec<Label> = Vec::new();
            labels.push(Label { span: v, note: Some("Iterator starts here.".to_owned()) });
            labels.push(Label { span, note: Some("Element generated here.".to_owned()) });
            let r = Diagnostic {
                message: "Missing \"key\" prop for element in iterator.".to_owned(),
                severity: Severity::Warning,
                help: Some(
                    "Add a \"key\" prop to the element in the iterator (https://react.dev/learn/rendering-lists#keeping-list-items-in-order-with-key).".to_owned(),
                ),
                labels,
            };
            proof {
                assert(r.model().labels =~= missing_key_iterator_diag(v, span).labels);
                assert(r.model() =~= missing_key_iterator_diag(v, span));
            }
            r
        },
    }
}

impl JsxKey {
    /// Runs the missing-key check on one element against its ancestor
    /// stack, appending the finding, if any, to the diagnostic sink. Never
    /// mutates the tree.
    pub fn check_jsx_element(
        &self,
        element: &JsxElement,
        stack: &Vec<AncestorEntry>,
        diagnostics: &mut Vec<Diagnostic>,
    )
        ensures
            final(diagnostics)@.len() >= old(diagnostics)@.len(),
            final(diagnostics)@.subrange(0, old(diagnostics)@.len() as int) == old(
                diagnostics,
            )@,
            diags_model(final(diagnostics)@) == diags_model(old(diagnostics)@)
                + jsx_key_element_diags(element.opening.model(), stack_model(stack@)),
    {
        let ghost goal = jsx_key_element_diags(element.opening.model(), stack_model(stack@));
        proof {
            assert(element.opening.model().attributes == attrs_model(
                element.opening.attributes@,
            ));
        }
        let outer = is_in_array_or_iter(stack);
        match outer {
            Some(o) => {
                if is_within_children_to_array(stack) {
                    proof {
                        assert(diagnostics@.subrange(0, old(diagnostics)@.len() as int) =~= old(
                        diagnostics,
                    )@);
                    assert(diags_model(diagnostics@) =~= diags_model(old(diagnostics)@)
                            + goal);
                    }
                    return;
                }
                if !has_key_attribute(&element.opening.attributes) {
                    let span = match &element.opening.name {
                        crate::ast::JsxElementName::NameIdent { span, .. } => *span,
                        crate::ast::JsxElementName::NameOther { span } => *span,
                    };
                    let d = make_gen_diag(span, o);
                    diagnostics.push(d);
                    proof {
                        assert(span == elem_name_span(element.opening.model().name));
                        assert(diagnostics@.subrange(0, old(diagnostics)@.len() as int) =~= old(
                        diagnostics,
                    )@);
                    assert(diags_model(diagnostics@) =~= diags_model(old(diagnostics)@)
                            + goal);
                    }
                } else {
                    proof {
                        assert(diagnostics@.subrange(0, old(diagnostics)@.len() as int) =~= old(
                        diagnostics,
                    )@);
                    assert(diags_model(diagnostics@) =~= diags_model(old(diagnostics)@)
                            + goal);
                    }
                }
            },
            None => {
                proof {
                    assert(diagnostics@.subrange(0, old(diagnostics)@.len() as int) =~= old(
                        diagnostics,
                    )@);
                    assert(diagnostics@.subrange(0, old(diagnostics)@.len() as int) =~= old(
                        diagnostics,
                    )@);
                    assert(diags_model(diagnostics@) =~= diags_model(old(diagnostics)@) + goal);
                }
            },
        }
    }

    /// Runs the attribute-ordering check on one element: a `key` attribute
    /// at a higher index than a spread attribute is diagnosed at the key's
    /// name span.
    pub fn check_jsx_element_is_key_before_spread(
        &self,
        element: &JsxElement,
        diagnostics: &mut Vec<Diagnostic>,
    )
        ensures
            final(diagnostics)@.len() >= old(diagnostics)@.len(),
            final(diagnostics)@.subrange(0, old(diagnostics)@.len() as int) == old(
                diagnostics,
            )@,
            diags_model(final(diagnostics)@) == diags_model(old(diagnostics)@)
                + jsx_key_order_diags(attrs_model(element.opening.attributes@)),
    {
        let finding = check_key_before_spread(&element.opening.attributes);
        match finding {
            Some(span) => {
                let mut labels: Vec<Label> = Vec::new();
                labels.push(Label { span, note: None });
                let d = Diagnostic {
                    message: "\"key\" prop must be placed before any `{...spread}`".to_owned(),
                    severity: Severity::Warning,
                    help: Some(
                        "To avoid conflicting with React's new JSX transform: https://reactjs.org/blog/2020/09/22/introducing-the-new-jsx-transform.html".to_owned(),
                    ),
                    labels,
                };
                proof {
                    assert(d.model().labels =~= key_after_spread_diag(span).labels);
                    assert(d.model() =~= key_after_spread_diag(span));
                }
                diagnostics.push(d);
                proof {
                    assert(diagnostics@.subrange(0, old(diagnostics)@.len() as int) =~= old(
                        diagnostics,
                    )@);
                    assert(diagnostics@.subrange(0, old(diagnostics)@.len() as int) =~= old(
                        diagnostics,
                    )@);
                    assert(diags_model(diagnostics@) =~= diags_model(old(diagnostics)@)
                        + jsx_key_order_diags(attrs_model(element.opening.attributes@)));
                }
            },
            None => {
                proof {
                    assert(diagnostics@.subrange(0, old(diagnostics)@.len() as int) =~= old(
                        diagnostics,
                    )@);
                    assert(diagnostics@.subrange(0, old(diagnostics)@.len() as int) =~= old(
                        diagnostics,
                    )@);
                    assert(diags_model(diagnostics@) =~= diags_model(old(diagnostics)@)
                        + jsx_key_order_diags(attrs_model(element.opening.attributes@)));
                }
            },
        }
    }

    /// Runs the missing-key check on one fragment against its ancestor
    /// stack.
    pub fn check_jsx_fragment(
        &self,
        fragment: &JsxFragment,
        stack: &Vec<AncestorEntry>,
        diagnostics: &mut Vec<Diagnostic>,
    )
        ensures
            final(diagnostics)@.len() >= old(diagnostics)@.len(),
            final(diagnostics)@.subrange(0, old(diagnostics)@.len() as int) == old(
                diagnostics,
            )@,
            diags_model(final(diagnostics)@) == diags_model(old(diagnostics)@)
                + jsx_key_fragment_diags(fragment.opening_span, stack_model(stack@)),
    {
        let ghost goal = jsx_key_fragment_diags(fragment.opening_span, stack_model(stack@));
        let outer = is_in_array_or_iter(stack);
        match outer {
            Some(o) => {
                if is_within_children_to_array(stack) {
                    proof {
                        assert(diagnostics@.subrange(0, old(diagnostics)@.len() as int) =~= old(
                        diagnostics,
                    )@);
                    assert(diags_model(diagnostics@) =~= diags_model(old(diagnostics)@)
                            + goal);
                    }
                    return;
                }
                let d = make_gen_diag(fragment.opening_span, o);
                diagnostics.push(d);
                proof {
                    assert(diagnostics@.subrange(0, old(diagnostics)@.len() as int) =~= old(
                        diagnostics,
                    )@);
                    assert(diagnostics@.subrange(0, old(diagnostics)@.len() as int) =~= old(
                        diagnostics,
                    )@);
                    assert(diags_model(diagnostics@) =~= diags_model(old(diagnostics)@) + goal);
                }
            },
            None => {
                proof {
                    assert(diagnostics@.subrange(0, old(diagnostics)@.len() as int) =~= old(
                        diagnostics,
                    )@);
                    assert(diagnostics@.subrange(0, old(diagnostics)@.len() as int) =~= old(
                        diagnostics,
                    )@);
                    assert(diags_model(diagnostics@) =~= diags_model(old(diagnostics)@) + goal);
                }
            },
        }
    }
}

} // verus!
