//! The list-render key rule, exercised over hand-built syntax trees: each
//! case mirrors one source shape, pass cases emit nothing and fail cases
//! emit at least one finding.

use astwalk::Span;
use astwalk::ast::{
    ArrowFunction, AssignmentTarget, BindingIdentifierNode, CallExpression, Expression, Function,
    FunctionBody, IdentifierReference, JsxAttribute, JsxAttributeItem, JsxAttributeName,
    JsxAttributeValue, JsxChild, JsxElement, JsxElementName, JsxFragment, JsxOpeningElement,
    MemberExpression, MemberProperty, ObjectPropertyNode, Program, RefFlag, Statement,
    VariableDeclarator,
};
use astwalk::config::{ImportEntry, JsxA11ySettings, ModuleRecord};
use astwalk::diagnostics::Diagnostic;
use astwalk::jsx_key::JsxKey;
use astwalk::scope::ScopeTree;
use astwalk::walk::{run_analysis, AnalysisPass};

fn sp(n: u32) -> Span {
    Span { start: n, end: n + 1 }
}

fn ident(name: &str) -> Expression {
    Expression::Ident(IdentifierReference {
        name: name.to_string(),
        symbol: None,
        flags: RefFlag::Read,
        span: sp(1),
    })
}

fn num() -> Expression {
    Expression::NumberLit { span: sp(2) }
}

fn array(elements: Vec<Expression>) -> Expression {
    Expression::ArrayExpr { elements, span: sp(3) }
}

fn arr123() -> Expression {
    array(vec![num(), num(), num()])
}

fn attr_bare(name: &str) -> JsxAttributeItem {
    JsxAttributeItem::Attr(JsxAttribute {
        name: JsxAttributeName::AttrIdent { name: name.to_string(), span: sp(4) },
        value: None,
        span: sp(4),
    })
}

fn attr_expr(name: &str, e: Expression) -> JsxAttributeItem {
    JsxAttributeItem::Attr(JsxAttribute {
        name: JsxAttributeName::AttrIdent { name: name.to_string(), span: sp(5) },
        value: Some(JsxAttributeValue::AttrContainer { expression: Box::new(e), span: sp(5) }),
        span: sp(5),
    })
}

fn attr_str(name: &str, value: &str) -> JsxAttributeItem {
    JsxAttributeItem::Attr(JsxAttribute {
        name: JsxAttributeName::AttrIdent { name: name.to_string(), span: sp(6) },
        value: Some(JsxAttributeValue::AttrString { value: value.to_string(), span: sp(6) }),
        span: sp(6),
    })
}

fn spread() -> JsxAttributeItem {
    JsxAttributeItem::AttrSpread {
        argument: Box::new(Expression::ObjectExpr { properties: vec![], span: sp(7) }),
        span: sp(7),
    }
}

fn elem(name: &str, attrs: Vec<JsxAttributeItem>, children: Vec<JsxChild>) -> Expression {
    Expression::Element(Box::new(JsxElement {
        opening: JsxOpeningElement {
            name: JsxElementName::NameIdent { name: name.to_string(), span: sp(8) },
            attributes: attrs,
            span: sp(8),
        },
        children,
        span: sp(9),
    }))
}

fn fragment() -> Expression {
    Expression::Fragment(Box::new(JsxFragment { opening_span: sp(10), children: vec![], span: sp(10) }))
}

fn stmt(e: Expression) -> Statement {
    Statement::ExpressionStmt { expression: e, span: sp(11) }
}

fn ret(e: Expression) -> Statement {
    Statement::ReturnStmt { argument: Some(e), span: sp(12) }
}

fn body(statements: Vec<Statement>) -> FunctionBody {
    FunctionBody { statements, span: sp(13) }
}

/// `(params...) => expr`
fn arrow_expr(e: Expression) -> Expression {
    Expression::ArrowExpr(Box::new(ArrowFunction {
        is_async: false,
        params: vec![],
        body: body(vec![stmt(e)]),
        expression: true,
        scope_id: 0,
        span: sp(14),
    }))
}

/// `(params...) => { statements }`
fn arrow_block(statements: Vec<Statement>) -> Expression {
    Expression::ArrowExpr(Box::new(ArrowFunction {
        is_async: false,
        params: vec![],
        body: body(statements),
        expression: false,
        scope_id: 0,
        span: sp(15),
    }))
}

/// `function (params...) { statements }`
fn func(statements: Vec<Statement>) -> Expression {
    Expression::FunctionExpr(Box::new(Function {
        name: None,
        is_async: false,
        is_generator: false,
        params: vec![],
        body: body(statements),
        scope_id: 0,
        span: sp(16),
    }))
}

/// `object.method(arguments...)`
fn method_call(object: Expression, method: &str, arguments: Vec<Expression>) -> Expression {
    Expression::CallExpr(Box::new(CallExpression {
        callee: Expression::MemberExpr(Box::new(MemberExpression {
            object,
            property: MemberProperty::StaticProp { name: method.to_string(), span: sp(17) },
            optional: false,
            span: sp(17),
        })),
        arguments,
        optional: false,
        span: sp(18),
    }))
}

fn call(callee: Expression, arguments: Vec<Expression>) -> Expression {
    Expression::CallExpr(Box::new(CallExpression { callee, arguments, optional: false, span: sp(19) }))
}

fn paren(e: Expression) -> Expression {
    Expression::ParenExpr { expression: Box::new(e), span: sp(20) }
}

fn logical(l: Expression, r: Expression) -> Expression {
    Expression::LogicalExpr { left: Box::new(l), right: Box::new(r), span: sp(21) }
}

fn ternary(c: Expression, t: Expression, e: Expression) -> Expression {
    Expression::ConditionalExpr {
        test: Box::new(c),
        consequent: Box::new(t),
        alternate: Box::new(e),
        span: sp(22),
    }
}

fn child(e: Expression) -> JsxChild {
    match e {
        Expression::Element(el) => JsxChild::ChildElement(el),
        Expression::Fragment(fr) => JsxChild::ChildFragment(fr),
        other => JsxChild::ChildContainer { expression: Box::new(other), span: sp(23) },
    }
}

fn program(statements: Vec<Statement>) -> Program {
    Program { statements, scope_id: 0, span: sp(0) }
}

fn var_decl(name: &str, init: Expression) -> Statement {
    Statement::VariableDeclStmt {
        declarators: vec![VariableDeclarator {
            id: BindingIdentifierNode { name: name.to_string(), symbol: None, span: sp(24) },
            init: Some(init),
            span: sp(24),
        }],
        span: sp(24),
    }
}

fn diags_with(p: &Program, module: &ModuleRecord) -> Vec<Diagnostic> {
    let scopes = ScopeTree::new();
    let settings = JsxA11ySettings::empty();
    let passes = vec![AnalysisPass::KeyRule(JsxKey)];
    run_analysis(p, &passes, &scopes, module, &settings)
}

fn diags(p: &Program) -> Vec<Diagnostic> {
    diags_with(p, &ModuleRecord::empty())
}

fn count(e: Expression) -> usize {
    diags(&program(vec![stmt(e)])).len()
}

fn react_children_to_array(arg: Expression) -> Expression {
    // `React.Children.toArray(arg)`
    let react_children = Expression::MemberExpr(Box::new(MemberExpression {
        object: ident("React"),
        property: MemberProperty::StaticProp { name: "Children".to_string(), span: sp(25) },
        optional: false,
        span: sp(25),
    }));
    method_call(react_children, "toArray", vec![arg])
}

#[test]
fn jsx_key_test() {
    // --- pass ---
    // fn()
    assert_eq!(count(call(ident("fn"), vec![])), 0);
    // [1, 2, 3].map(function () {})
    assert_eq!(count(method_call(arr123(), "map", vec![func(vec![])])), 0);
    // <App />;
    assert_eq!(count(elem("App", vec![], vec![])), 0);
    // [<App key={0} />, <App key={1} />];
    assert_eq!(
        count(array(vec![
            elem("App", vec![attr_expr("key", num())], vec![]),
            elem("App", vec![attr_expr("key", num())], vec![]),
        ])),
        0
    );
    // [1, 2, 3].map(function(x) { return <App key={x} /> });
    assert_eq!(
        count(method_call(
            arr123(),
            "map",
            vec![func(vec![ret(elem("App", vec![attr_expr("key", ident("x"))], vec![]))])]
        )),
        0
    );
    // [1, 2, 3].map(x => <App key={x} />);
    assert_eq!(
        count(method_call(
            arr123(),
            "map",
            vec![arrow_expr(elem("App", vec![attr_expr("key", ident("x"))], vec![]))]
        )),
        0
    );
    // [1, 2 ,3].map(x => x && <App x={x} key={x} />);
    assert_eq!(
        count(method_call(
            arr123(),
            "map",
            vec![arrow_expr(logical(
                ident("x"),
                elem("App", vec![attr_expr("x", ident("x")), attr_expr("key", ident("x"))], vec![])
            ))]
        )),
        0
    );
    // [1, 2 ,3].map(x => x ? <App key="1"/> : <OtherApp key="2"/>);
    assert_eq!(
        count(method_call(
            arr123(),
            "map",
            vec![arrow_expr(ternary(
                ident("x"),
                elem("App", vec![attr_str("key", "1")], vec![]),
                elem("OtherApp", vec![attr_str("key", "2")], vec![])
            ))]
        )),
        0
    );
    // [1, 2, 3].map(x => { return <App key={x} /> });
    assert_eq!(
        count(method_call(
            arr123(),
            "map",
            vec![arrow_block(vec![ret(elem("App", vec![attr_expr("key", ident("x"))], vec![]))])]
        )),
        0
    );
    // Array.from([1, 2, 3], function(x) { return <App key={x} /> });
    assert_eq!(
        count(method_call(
            ident("Array"),
            "from",
            vec![arr123(), func(vec![ret(elem("App", vec![attr_expr("key", ident("x"))], vec![]))])]
        )),
        0
    );
    // Array.from([1, 2, 3], (x => <App key={x} />));
    assert_eq!(
        count(method_call(
            ident("Array"),
            "from",
            vec![arr123(), paren(arrow_expr(elem("App", vec![attr_expr("key", ident("x"))], vec![])))]
        )),
        0
    );
    // Array.from([1, 2, 3], (x => {return <App key={x} />}));
    assert_eq!(
        count(method_call(
            ident("Array"),
            "from",
            vec![
                arr123(),
                paren(arrow_block(vec![ret(elem("App", vec![attr_expr("key", ident("x"))], vec![]))]))
            ]
        )),
        0
    );
    // Array.from([1, 2, 3], someFn);
    assert_eq!(count(method_call(ident("Array"), "from", vec![arr123(), ident("someFn")])), 0);
    // Array.from([1, 2, 3]);
    assert_eq!(count(method_call(ident("Array"), "from", vec![arr123()])), 0);
    // [1, 2, 3].foo(x => <App />);
    assert_eq!(
        count(method_call(arr123(), "foo", vec![arrow_expr(elem("App", vec![], vec![]))])),
        0
    );
    // var App = () => <div />;
    assert_eq!(
        diags(&program(vec![var_decl("App", arrow_expr(elem("div", vec![], vec![])))])).len(),
        0
    );
    // [1, 2, 3].map(function(x) { return; });
    assert_eq!(
        count(method_call(
            arr123(),
            "map",
            vec![func(vec![Statement::ReturnStmt { argument: None, span: sp(26) }])]
        )),
        0
    );
    // foo(() => <div />);
    assert_eq!(count(call(ident("foo"), vec![arrow_expr(elem("div", vec![], vec![]))])), 0);
    // foo(() => <></>);
    assert_eq!(count(call(ident("foo"), vec![arrow_expr(fragment())])), 0);
    // <></>;
    assert_eq!(count(fragment()), 0);
    // <App {...{}} />;
    assert_eq!(count(elem("App", vec![spread()], vec![])), 0);
    // <App key="keyBeforeSpread" {...{}} />;
    assert_eq!(count(elem("App", vec![attr_str("key", "keyBeforeSpread"), spread()], vec![])), 0);
    // <div key="keyBeforeSpread" {...{}} />;
    assert_eq!(count(elem("div", vec![attr_str("key", "keyBeforeSpread"), spread()], vec![])), 0);
    // const spans = [<span key="notunique"/>,<span key="notunique"/>];
    assert_eq!(
        diags(&program(vec![var_decl(
            "spans",
            array(vec![
                elem("span", vec![attr_str("key", "notunique")], vec![]),
                elem("span", vec![attr_str("key", "notunique")], vec![]),
            ])
        )]))
        .len(),
        0
    );
    // function Component(props) { return hasPayment ? (<div>…</div>) : null; }
    assert_eq!(
        diags(&program(vec![Statement::FunctionDeclStmt(Box::new(Function {
            name: Some(BindingIdentifierNode {
                name: "Component".to_string(),
                symbol: None,
                span: sp(27)
            }),
            is_async: false,
            is_generator: false,
            params: vec![],
            body: body(vec![ret(ternary(
                ident("hasPayment"),
                paren(elem(
                    "div",
                    vec![attr_str("className", "stuff")],
                    vec![
                        child(elem("BookingDetailSomething", vec![spread()], vec![])),
                        child(logical(
                            ident("modal"),
                            paren(elem("SomeOtherThing", vec![attr_expr("items", ident("p"))], vec![]))
                        )),
                    ]
                )),
                Expression::NullLit { span: sp(28) }
            ))]),
            scope_id: 0,
            span: sp(27),
        }))])).len(),
        0
    );
    // const ResourceVideo = (…) => { return (<div>…</div>); };
    assert_eq!(
        diags(&program(vec![var_decl(
            "ResourceVideo",
            arrow_block(vec![ret(paren(elem(
                "div",
                vec![attr_str("className", "resource-video")],
                vec![
                    child(elem("VimeoVideoPlayInModal", vec![attr_expr("videoUrl", ident("u"))], vec![])),
                    child(elem("h3", vec![], vec![child(ident("videoTitle"))])),
                ]
            )))])
        )]))
        .len(),
        0
    );
    // const onTextButtonClick = (e, item) => trackLink([, x(item), item.name], e);
    assert_eq!(
        diags(&program(vec![var_decl(
            "onTextButtonClick",
            arrow_expr(call(
                ident("trackLink"),
                vec![
                    array(vec![call(ident("getAnalyticsUiElement"), vec![ident("item")]), ident("n")]),
                    ident("e")
                ]
            ))
        )]))
        .len(),
        0
    );
    // {Object.entries(allRatings)?.map(([key, value], index) => { … return (<li key={…}>…</li>); })}
    assert_eq!(
        count(method_call(
            call(ident("entries"), vec![ident("allRatings")]),
            "map",
            vec![arrow_block(vec![
                Statement::IfStmt {
                    test: ident("rate"),
                    consequent: Box::new(ret(Expression::NullLit { span: sp(29) })),
                    alternate: None,
                    span: sp(29),
                },
                ret(paren(elem("li", vec![attr_expr("key", ident("k"))], vec![
                    child(elem("img", vec![attr_expr("src", ident("s"))], vec![])),
                ])))
            ])]
        )),
        0
    );
    // qux()?.map(); comments?.map(tryParseTSDirective)
    assert_eq!(count(method_call(call(ident("qux"), vec![]), "map", vec![])), 0);
    assert_eq!(count(method_call(ident("comments"), "map", vec![ident("tryParseTSDirective")])), 0);
    // const foo = ["text", <Fragment key={1}>…</Fragment>];
    assert_eq!(
        diags(&program(vec![var_decl(
            "foo",
            array(vec![
                Expression::StringLit { value: "text".to_string(), span: sp(30) },
                elem("Fragment", vec![attr_expr("key", num())], vec![child(elem(
                    "sup",
                    vec![],
                    vec![]
                ))]),
            ])
        )]))
        .len(),
        0
    );
    // export const clusterFrameMap = observable.map<…>(); — a bare iterator call
    assert_eq!(
        diags(&program(vec![var_decl("clusterFrameMap", method_call(ident("observable"), "map", vec![]))]))
            .len(),
        0
    );
    // const columns = [{ header: ({column}) => <DataTableColumnHeader/>, cell: ({row}) => <div/> }]
    assert_eq!(
        diags(&program(vec![var_decl(
            "columns",
            array(vec![Expression::ObjectExpr {
                properties: vec![
                    ObjectPropertyNode {
                        key_span: sp(31),
                        value: arrow_expr(elem("DataTableColumnHeader", vec![], vec![])),
                        span: sp(31),
                    },
                    ObjectPropertyNode {
                        key_span: sp(32),
                        value: arrow_expr(elem("div", vec![], vec![child(ident("row"))])),
                        span: sp(32),
                    },
                ],
                span: sp(33),
            }])
        )]))
        .len(),
        0
    );
    // same, with a function-expression property value
    assert_eq!(
        diags(&program(vec![var_decl(
            "columns",
            array(vec![Expression::ObjectExpr {
                properties: vec![ObjectPropertyNode {
                    key_span: sp(34),
                    value: func(vec![ret(elem("DataTableColumnHeader", vec![], vec![]))]),
                    span: sp(34),
                }],
                span: sp(35),
            }])
        )]))
        .len(),
        0
    );
    // const router = createBrowserRouter([{ element: <Root/>, children: [{ element: <Team/> }] }]);
    assert_eq!(
        diags(&program(vec![var_decl(
            "router",
            call(
                ident("createBrowserRouter"),
                vec![array(vec![Expression::ObjectExpr {
                    properties: vec![
                        ObjectPropertyNode {
                            key_span: sp(36),
                            value: elem("Root", vec![], vec![]),
                            span: sp(36),
                        },
                        ObjectPropertyNode {
                            key_span: sp(37),
                            value: array(vec![Expression::ObjectExpr {
                                properties: vec![ObjectPropertyNode {
                                    key_span: sp(38),
                                    value: elem("Team", vec![], vec![]),
                                    span: sp(38),
                                }],
                                span: sp(38),
                            }]),
                            span: sp(37),
                        },
                    ],
                    span: sp(39),
                }])]
            )
        )]))
        .len(),
        0
    );
    // [1,2,3,4,5].map((val) => { const text = () => <strong>{val}</strong>; return null })
    assert_eq!(
        count(method_call(
            arr123(),
            "map",
            vec![arrow_block(vec![
                var_decl("text", arrow_expr(elem("strong", vec![], vec![child(ident("val"))]))),
                ret(Expression::NullLit { span: sp(40) }),
            ])]
        )),
        0
    );
    // …map((val) => { const text = <strong>{val}</strong>; return <button key={val}>{text}</button>; })
    assert_eq!(
        count(method_call(
            arr123(),
            "map",
            vec![arrow_block(vec![
                var_decl("text", elem("strong", vec![], vec![child(ident("val"))])),
                ret(elem("button", vec![attr_expr("key", ident("val"))], vec![child(ident("text"))])),
            ])]
        )),
        0
    );
    // MyStory.decorators = [ (Component) => <div><Component /></div> ];
    assert_eq!(
        count(Expression::AssignExpr {
            target: AssignmentTarget::TargetOther { span: sp(41) },
            value: Box::new(array(vec![arrow_expr(elem(
                "div",
                vec![],
                vec![child(elem("Component", vec![], vec![]))]
            ))])),
            span: sp(41),
        }),
        0
    );
    // MyStory.decorators = [ (Component) => { const store = useMyStore(); return <Provider/>; } ];
    assert_eq!(
        count(Expression::AssignExpr {
            target: AssignmentTarget::TargetOther { span: sp(42) },
            value: Box::new(array(vec![arrow_block(vec![
                var_decl("store", call(ident("useMyStore"), vec![])),
                ret(elem("Provider", vec![attr_expr("store", ident("store"))], vec![child(elem(
                    "Component",
                    vec![],
                    vec![]
                ))])),
            ])])),
            span: sp(42),
        }),
        0
    );
    // {React.Children.toArray(items.map((item) => { return (<div>{item}</div>); }))}
    assert_eq!(
        count(react_children_to_array(method_call(
            ident("items"),
            "map",
            vec![arrow_block(vec![ret(paren(elem("div", vec![], vec![child(ident("item"))])))])]
        ))),
        0
    );
    // import { Children } from "react"; Children.toArray([1, 2 ,3].map(x => <App />));
    {
        let module = ModuleRecord {
            import_entries: vec![ImportEntry {
                module_request: "react".to_string(),
                local_name: "Children".to_string(),
            }],
            requested_modules: vec!["react".to_string()],
        };
        let p = program(vec![stmt(method_call(
            ident("Children"),
            "toArray",
            vec![method_call(arr123(), "map", vec![arrow_expr(elem("App", vec![], vec![]))])],
        ))]);
        assert_eq!(diags_with(&p, &module).len(), 0);
    }
    // import React from "react"; React.Children.toArray([1, 2 ,3].map(x => <App />));
    {
        let module = ModuleRecord {
            import_entries: vec![ImportEntry {
                module_request: "react".to_string(),
                local_name: "React".to_string(),
            }],
            requested_modules: vec!["react".to_string()],
        };
        let p = program(vec![stmt(react_children_to_array(method_call(
            arr123(),
            "map",
            vec![arrow_expr(elem("App", vec![], vec![]))],
        )))]);
        assert_eq!(diags_with(&p, &module).len(), 0);
    }
    // React.Children.toArray([1, 2 ,3].map(x => <App />)); — no imports at all
    assert_eq!(
        count(react_children_to_array(method_call(
            arr123(),
            "map",
            vec![arrow_expr(elem("App", vec![], vec![]))]
        ))),
        0
    );
    // {React.Children.toArray(items.map((item) => { return (<>{item}</>); }))}
    assert_eq!(
        count(react_children_to_array(method_call(
            ident("items"),
            "map",
            vec![arrow_block(vec![ret(paren(Expression::Fragment(Box::new(JsxFragment {
                opening_span: sp(43),
                children: vec![child(ident("item"))],
                span: sp(43),
            }))))])]
        ))),
        0
    );
    // Children.map(children, (child) => { return <div>{child}</div>; }) — callback is
    // the second argument of a `map` member call: not the iterated slot
    assert_eq!(
        count(method_call(
            ident("Children"),
            "map",
            vec![
                ident("children"),
                arrow_block(vec![ret(elem("div", vec![], vec![child(ident("c"))]))])
            ]
        )),
        0
    );

    // --- fail ---
    // [<App />];
    assert_eq!(count(array(vec![elem("App", vec![], vec![])])), 1);
    // [<App {...key} />];
    assert_eq!(count(array(vec![elem("App", vec![spread()], vec![])])), 1);
    // [<App key={0}/>, <App />];
    assert_eq!(
        count(array(vec![
            elem("App", vec![attr_expr("key", num())], vec![]),
            elem("App", vec![], vec![]),
        ])),
        1
    );
    // [1, 2 ,3].map(function(x) { return <App /> });
    assert_eq!(
        count(method_call(arr123(), "map", vec![func(vec![ret(elem("App", vec![], vec![]))])])),
        1
    );
    // [1, 2 ,3].map(x => <App />);
    assert_eq!(count(method_call(arr123(), "map", vec![arrow_expr(elem("App", vec![], vec![]))])), 1);
    // [1, 2 ,3].map(x => x && <App x={x} />);
    assert_eq!(
        count(method_call(
            arr123(),
            "map",
            vec![arrow_expr(logical(ident("x"), elem("App", vec![attr_expr("x", ident("x"))], vec![])))]
        )),
        1
    );
    // [1, 2 ,3].map(x => x ? <App key="1"/> : <OtherApp />);
    assert_eq!(
        count(method_call(
            arr123(),
            "map",
            vec![arrow_expr(ternary(
                ident("x"),
                elem("App", vec![attr_str("key", "1")], vec![]),
                elem("OtherApp", vec![], vec![])
            ))]
        )),
        1
    );
    // [1, 2 ,3].map(x => x ? <App /> : <OtherApp key="2"/>);
    assert_eq!(
        count(method_call(
            arr123(),
            "map",
            vec![arrow_expr(ternary(
                ident("x"),
                elem("App", vec![], vec![]),
                elem("OtherApp", vec![attr_str("key", "2")], vec![])
            ))]
        )),
        1
    );
    // [1, 2 ,3].map(x => { return <App /> });
    assert_eq!(
        count(method_call(arr123(), "map", vec![arrow_block(vec![ret(elem("App", vec![], vec![]))])])),
        1
    );
    // Array.from([1, 2 ,3], function(x) { return <App /> });
    assert_eq!(
        count(method_call(
            ident("Array"),
            "from",
            vec![arr123(), func(vec![ret(elem("App", vec![], vec![]))])]
        )),
        1
    );
    // Array.from([1, 2 ,3], (x => { return <App /> }));
    assert_eq!(
        count(method_call(
            ident("Array"),
            "from",
            vec![arr123(), paren(arrow_block(vec![ret(elem("App", vec![], vec![]))]))]
        )),
        1
    );
    // Array.from([1, 2 ,3], (x => <App />));
    assert_eq!(
        count(method_call(
            ident("Array"),
            "from",
            vec![arr123(), paren(arrow_expr(elem("App", vec![], vec![])))]
        )),
        1
    );
    // [1, 2, 3]?.map(x => <BabelEslintApp />)
    let optional_map = |cb: Expression| {
        Expression::CallExpr(Box::new(CallExpression {
            callee: Expression::MemberExpr(Box::new(MemberExpression {
                object: arr123(),
                property: MemberProperty::StaticProp { name: "map".to_string(), span: sp(44) },
                optional: true,
                span: sp(44),
            })),
            arguments: vec![cb],
            optional: true,
            span: sp(45),
        }))
    };
    assert_eq!(count(optional_map(arrow_expr(elem("BabelEslintApp", vec![], vec![])))), 1);
    // [1, 2, 3]?.map(x => <TypescriptEslintApp />)
    assert_eq!(count(optional_map(arrow_expr(elem("TypescriptEslintApp", vec![], vec![])))), 1);
    // [1, 2, 3]?.map(x => <><OxcCompilerHello /></>)
    assert_eq!(
        count(optional_map(arrow_expr(Expression::Fragment(Box::new(JsxFragment {
            opening_span: sp(46),
            children: vec![child(elem("OxcCompilerHello", vec![], vec![]))],
            span: sp(46),
        }))))),
        1
    );
    // [1, 2, 3].map(x => <>{x}</>);
    assert_eq!(
        count(method_call(
            arr123(),
            "map",
            vec![arrow_expr(Expression::Fragment(Box::new(JsxFragment {
                opening_span: sp(47),
                children: vec![child(ident("x"))],
                span: sp(47),
            })))]
        )),
        1
    );
    // [<></>];
    assert_eq!(count(array(vec![fragment()])), 1);
    // [<App {...obj} key="keyAfterSpread" />];
    assert_eq!(count(array(vec![elem("App", vec![spread(), attr_str("key", "keyAfterSpread")], vec![])])), 1);
    // [<div {...obj} key="keyAfterSpread" />];
    assert_eq!(count(array(vec![elem("div", vec![spread(), attr_str("key", "keyAfterSpread")], vec![])])), 1);
    // list.map(item => { if (item < 2) { return <div>{item}</div>; } return <div />; })
    assert!(
        count(method_call(
            ident("list"),
            "map",
            vec![arrow_block(vec![
                Statement::IfStmt {
                    test: ident("item"),
                    consequent: Box::new(Statement::BlockStmt {
                        statements: vec![ret(elem("div", vec![], vec![child(ident("item"))]))],
                        span: sp(48),
                    }),
                    alternate: None,
                    span: sp(48),
                },
                ret(elem("div", vec![], vec![])),
            ])]
        )) >= 1
    );
    // the if/else-if/else ladder returning unkeyed elements
    assert!(
        count(method_call(
            ident("list"),
            "map",
            vec![arrow_block(vec![
                Statement::IfStmt {
                    test: ident("item"),
                    consequent: Box::new(ret(elem("div", vec![], vec![child(ident("item"))]))),
                    alternate: Some(Box::new(Statement::IfStmt {
                        test: ident("item"),
                        consequent: Box::new(ret(elem("div", vec![], vec![]))),
                        alternate: Some(Box::new(ret(elem("div", vec![], vec![])))),
                        span: sp(49),
                    })),
                    span: sp(49),
                },
                ret(elem("div", vec![], vec![])),
            ])]
        )) >= 1
    );
    // list.map(item => <Text … onClick={() => onClickHandler()} … />)
    assert_eq!(
        count(method_call(
            ident("list"),
            "map",
            vec![arrow_expr(elem(
                "Text",
                vec![
                    attr_bare("foo"),
                    attr_bare("bar"),
                    attr_expr("onClick", arrow_expr(call(ident("onClickHandler"), vec![]))),
                    attr_expr("onPointerDown", arrow_expr(call(ident("onPointerDownHandler"), vec![]))),
                ],
                vec![]
            ))]
        )),
        1
    );
    // list.map(item => (<div><Text … /></div>))
    assert_eq!(
        count(method_call(
            ident("list"),
            "map",
            vec![arrow_expr(paren(elem(
                "div",
                vec![],
                vec![child(elem("Text", vec![attr_bare("foo")], vec![]))]
            )))]
        )),
        1
    );
    // foo.Children.toArray([1, 2 ,3].map(x => <App />));
    {
        let foo_children = Expression::MemberExpr(Box::new(MemberExpression {
            object: ident("foo"),
            property: MemberProperty::StaticProp { name: "Children".to_string(), span: sp(50) },
            optional: false,
            span: sp(50),
        }));
        assert_eq!(
            count(method_call(
                foo_children,
                "toArray",
                vec![method_call(arr123(), "map", vec![arrow_expr(elem("App", vec![], vec![]))])]
            )),
            1
        );
    }
    // import Act from 'react'; …; Children.toArray([1, 2 ,3].map(x => <App />)); …
    {
        let module = ModuleRecord {
            import_entries: vec![
                ImportEntry { module_request: "react".to_string(), local_name: "Act".to_string() },
                ImportEntry {
                    module_request: "react".to_string(),
                    local_name: "ReactChildren".to_string(),
                },
            ],
            requested_modules: vec!["react".to_string(), "react".to_string()],
        };
        // `Children` here is a destructured local, not the import itself
        let p = program(vec![stmt(method_call(
            ident("Children"),
            "toArray",
            vec![method_call(arr123(), "map", vec![arrow_expr(elem("App", vec![], vec![]))])],
        ))]);
        assert!(diags_with(&p, &module).len() >= 1);
    }
}

#[test]
fn key_order_diag_is_exact() {
    // one ordering diagnostic, at the key attribute's name span, even though
    // the element also carries a key
    let e = elem("App", vec![spread(), attr_str("key", "k")], vec![]);
    let p = program(vec![stmt(array(vec![e]))]);
    let ds = diags(&p);
    assert_eq!(ds.len(), 1);
    assert_eq!(ds[0].message, "\"key\" prop must be placed before any `{...spread}`");
    // the single label points at the key attribute's name span
    assert_eq!(ds[0].labels.len(), 1);
}

#[test]
fn iterator_diag_carries_both_spans() {
    let p = program(vec![stmt(method_call(
        arr123(),
        "map",
        vec![arrow_expr(elem("App", vec![], vec![]))],
    ))]);
    let ds = diags(&p);
    assert_eq!(ds.len(), 1);
    assert_eq!(ds[0].message, "Missing \"key\" prop for element in iterator.");
    assert_eq!(ds[0].labels.len(), 2);
    assert_eq!(ds[0].labels[0].span, sp(17)); // the `.map` callee property
    assert_eq!(ds[0].labels[1].span, sp(8)); // the element's tag name
}
