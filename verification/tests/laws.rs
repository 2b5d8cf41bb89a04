//! The binding, scope and engine guarantees on concrete values: minted
//! references agree, fresh names cannot collide, lookups walk the chain,
//! and the walk emits findings in visit order.

use astwalk::ast::{
    Expression, JsxElement, JsxElementName, JsxOpeningElement, Program, RefFlag, Statement,
};
use astwalk::binding::{new_binding, BoundIdentifier};
use astwalk::config::{ImportEntry, JsxA11ySettings, ModuleRecord};
use astwalk::jsx_key::{import_matcher, JsxKey};
use astwalk::media::MediaHasCaption;
use astwalk::scope::{ScopeKind, ScopeTree};
use astwalk::walk::{run_analysis, AnalysisPass};
use astwalk::Span;

fn sp(n: u32) -> Span {
    Span { start: n, end: n + 1 }
}

#[test]
fn references_minted_from_one_binding_agree() {
    let b = BoundIdentifier::new("helper".to_string(), 7);
    let r1 = b.create_read_reference();
    let r2 = b.create_write_reference();
    let r3 = b.create_spanned_read_write_reference(sp(9));
    // same symbol, byte-identical name text; only flags and span differ
    assert_eq!(r1.symbol, Some(7));
    assert_eq!(r2.symbol, Some(7));
    assert_eq!(r3.symbol, Some(7));
    assert_eq!(r1.name, "helper");
    assert_eq!(r1.name, r2.name);
    assert_eq!(r2.name, r3.name);
    assert_eq!(r1.flags, RefFlag::Read);
    assert_eq!(r2.flags, RefFlag::Write);
    assert_eq!(r3.flags, RefFlag::ReadWrite);
    // the declaration site resolves to the same symbol too
    let d = b.create_binding_identifier();
    assert_eq!(d.symbol, Some(7));
    assert_eq!(d.name, "helper");
    // generated nodes carry the synthetic zero-width span
    assert_eq!(r1.span, Span { start: 0, end: 0 });
}

#[test]
fn fresh_bindings_cannot_collide() {
    let mut scopes = ScopeTree::new();
    let inner = scopes.create_scope(0, ScopeKind::FunctionScope);
    scopes.declare(0, "helper".to_string(), 0);
    // the candidate is taken reachable from the inner scope: a disambiguated
    // name is generated by deterministic suffixing
    let minted = new_binding(&mut scopes, "helper", inner, 0);
    assert_eq!(minted.name, "helper_");
    assert!(scopes.find_binding(inner, "helper_") == Some(minted.symbol_id));
    // minting again suffixes past every issued name
    let minted2 = new_binding(&mut scopes, "helper", inner, 0);
    assert_eq!(minted2.name, "helper__");
    assert_ne!(minted.symbol_id, minted2.symbol_id);
    // a free candidate is used as-is
    let free = new_binding(&mut scopes, "other", inner, 0);
    assert_eq!(free.name, "other");
}

#[test]
fn lookup_walks_the_scope_chain_to_the_nearest_binding() {
    let mut scopes = ScopeTree::new();
    let mid = scopes.create_scope(0, ScopeKind::FunctionScope);
    let leaf = scopes.create_scope(mid, ScopeKind::BlockScope);
    let outer = scopes.declare(0, "x".to_string(), 0);
    assert_eq!(scopes.find_binding(leaf, "x"), Some(outer));
    let shadow = scopes.declare(mid, "x".to_string(), 0);
    assert_eq!(scopes.find_binding(leaf, "x"), Some(shadow));
    assert_eq!(scopes.find_binding(0, "x"), Some(outer));
    // an unresolved name is not an error: it is simply absent
    assert_eq!(scopes.find_binding(leaf, "y"), None);
}

#[test]
fn import_matcher_folds_the_expected_module_name() {
    let module = ModuleRecord {
        import_entries: vec![ImportEntry {
            module_request: "react".to_string(),
            local_name: "Children".to_string(),
        }],
        requested_modules: vec!["react".to_string()],
    };
    // the expected module name is compared after basic-letter lowercasing
    assert!(import_matcher(&module, "Children", "React"));
    assert!(import_matcher(&module, "Children", "REACT"));
    assert!(!import_matcher(&module, "Children", "preact"));
    assert!(!import_matcher(&module, "Kids", "React"));
}

#[test]
fn walk_emits_findings_in_visit_order() {
    // [<A/>, <B/>]: two array findings, left to right
    let a = Expression::Element(Box::new(JsxElement {
        opening: JsxOpeningElement {
            name: JsxElementName::NameIdent { name: "A".to_string(), span: sp(1) },
            attributes: vec![],
            span: sp(1),
        },
        children: vec![],
        span: sp(1),
    }));
    let b = Expression::Element(Box::new(JsxElement {
        opening: JsxOpeningElement {
            name: JsxElementName::NameIdent { name: "B".to_string(), span: sp(2) },
            attributes: vec![],
            span: sp(2),
        },
        children: vec![],
        span: sp(2),
    }));
    let p = Program {
        statements: vec![Statement::ExpressionStmt {
            expression: Expression::ArrayExpr { elements: vec![a, b], span: sp(3) },
            span: sp(3),
        }],
        scope_id: 0,
        span: sp(0),
    };
    let scopes = ScopeTree::new();
    let passes = vec![AnalysisPass::KeyRule(JsxKey)];
    let ds = run_analysis(&p, &passes, &scopes, &ModuleRecord::empty(), &JsxA11ySettings::empty());
    assert_eq!(ds.len(), 2);
    assert_eq!(ds[0].labels[0].span, sp(1));
    assert_eq!(ds[1].labels[0].span, sp(2));
}

#[test]
fn one_walk_drives_visitors_in_registration_order() {
    // [<audio/>]: the key rule finds a missing key, the caption rule finds a
    // missing captioned track; one walk, diagnostics in registration order
    let audio = Expression::Element(Box::new(JsxElement {
        opening: JsxOpeningElement {
            name: JsxElementName::NameIdent { name: "audio".to_string(), span: sp(1) },
            attributes: vec![],
            span: sp(1),
        },
        children: vec![],
        span: sp(1),
    }));
    let p = Program {
        statements: vec![Statement::ExpressionStmt {
            expression: Expression::ArrayExpr { elements: vec![audio], span: sp(2) },
            span: sp(2),
        }],
        scope_id: 0,
        span: sp(0),
    };
    let scopes = ScopeTree::new();
    let module = ModuleRecord::empty();
    let settings = JsxA11ySettings::empty();
    let key_first = vec![
        AnalysisPass::KeyRule(JsxKey),
        AnalysisPass::CaptionRule(MediaHasCaption::default()),
    ];
    let ds = run_analysis(&p, &key_first, &scopes, &module, &settings);
    assert_eq!(ds.len(), 2);
    assert!(ds[0].message.contains("key"));
    assert!(ds[1].message.contains("media-has-caption"));
    let caption_first = vec![
        AnalysisPass::CaptionRule(MediaHasCaption::default()),
        AnalysisPass::KeyRule(JsxKey),
    ];
    let ds2 = run_analysis(&p, &caption_first, &scopes, &module, &settings);
    assert_eq!(ds2.len(), 2);
    assert!(ds2[0].message.contains("media-has-caption"));
    assert!(ds2[1].message.contains("key"));
}
