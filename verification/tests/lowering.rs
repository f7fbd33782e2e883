//! End-to-end tests of the lowering pass: programs built as syntax trees,
//! lowered, and held against the exact error (or success) they must produce.

use adpl::ast::{
    Assignment, Block, Call, Constructor, Definition, ExprKind, Expression, Field, File, Id, Item,
    ItemKind, Parameter, Record, Safety, Signature, Span, Statement, StmtKind, Symbol, Type,
};
use adpl::errors::{ArityWhat, LowerError, NameKind};
use adpl::lowering::lower_ast;

fn sym(id: u32) -> Symbol {
    Symbol { id }
}

fn ident(id: u32, start: usize) -> Id {
    Id { symbol: sym(id), span: Span::new(start, start + 1) }
}

fn ty(name: Id) -> Type {
    Type { name, args: Vec::new(), span: name.span }
}

fn record_item(name: Id, params: Vec<Id>, fields: Vec<Field>) -> Item {
    Item { kind: ItemKind::Record(Record { name, params, fields }) }
}

fn def_item(name: Id, generics: Vec<Id>, inputs: Vec<Parameter>, output: Type, body: Option<Block>) -> Item {
    Item {
        kind: ItemKind::Def(Definition {
            safety: Safety::Safe,
            name,
            generics,
            precondition: None,
            implements: None,
            sig: Box::new(Signature { inputs, output }),
            body,
        }),
    }
}

fn id_expr(name: Id) -> Expression {
    Expression { kind: ExprKind::Id(name), span: name.span }
}

fn call_expr(name: Id, generics: Vec<Expression>, args: Vec<Expression>) -> Expression {
    Expression { kind: ExprKind::Call(Box::new(Call { name, generics, args })), span: name.span }
}

fn ctor_expr(name: Id, generics: Vec<Expression>, fields: Vec<Assignment>) -> Expression {
    Expression {
        kind: ExprKind::Record(Box::new(Constructor { name, generics, fields })),
        span: name.span,
    }
}

// Symbols used below, one number per distinct spelling.
const T: u32 = 1;
const P: u32 = 2;
const F: u32 = 3;
const G: u32 = 4;
const N: u32 = 5;
const X: u32 = 6;
const Y: u32 = 7;

#[test]
fn small_files_fit_the_machine_limits() {
    let empty = File { items: Vec::new() };
    assert!(adpl::lowering::LoweringContext::file_fits_limits(&empty));
    let t = record_item(ident(T, 0), vec![], vec![]);
    let file = File { items: vec![t] };
    assert!(adpl::lowering::LoweringContext::file_fits_limits(&file));
}

#[test]
fn empty_file_lowers_to_an_empty_context() {
    let file = File { items: Vec::new() };
    let ctx = lower_ast(&file).expect("an empty file is well-formed");
    assert_eq!(ctx.records.len(), 0);
    assert_eq!(ctx.defs.len(), 0);
}

#[test]
fn end_to_end_program_resolves_across_scopes() {
    // struct T {}
    // struct P[n] { x: T }
    // def f[m](a: T) -> T { return a; }
    // def g(a: T) -> T { b = f[1](a); return b; }
    let t = record_item(ident(T, 0), vec![], vec![]);
    let p = record_item(
        ident(P, 10),
        vec![ident(N, 12)],
        vec![Field { name: ident(X, 14), ty: ty(ident(T, 16)), span: Span::new(14, 17) }],
    );
    let f = def_item(
        ident(F, 20),
        vec![ident(N, 22)],
        vec![Parameter { name: ident(X, 24), ty: ty(ident(T, 26)), span: Span::new(24, 27) }],
        ty(ident(T, 28)),
        Some(Block(vec![Statement { kind: StmtKind::Return(id_expr(ident(X, 30))) }])),
    );
    let lit_one = Expression {
        kind: ExprKind::Lit(adpl::ast::Literal { value: 1 }),
        span: Span::new(44, 45),
    };
    let g = def_item(
        ident(G, 40),
        vec![],
        vec![Parameter { name: ident(X, 42), ty: ty(ident(T, 43)), span: Span::new(42, 44) }],
        ty(ident(T, 46)),
        Some(Block(vec![
            Statement {
                kind: StmtKind::Assign(Assignment {
                    lhs: ident(Y, 48),
                    rhs: call_expr(ident(F, 50), vec![lit_one], vec![id_expr(ident(X, 52))]),
                }),
            },
            Statement { kind: StmtKind::Return(id_expr(ident(Y, 54))) },
        ])),
    );
    let file = File { items: vec![t, p, f, g] };
    let ctx = lower_ast(&file).expect("the program is well-formed");
    assert_eq!(ctx.records.len(), 2);
    assert_eq!(ctx.defs.len(), 2);

    // items lowered positionally, each node carrying its declared signature
    let t_node = ctx.record(adpl::hir::RecordId { raw: 0 });
    assert_eq!(t_node.name.symbol, sym(T));
    assert_eq!(t_node.fields.end - t_node.fields.start, 0);
    let p_node = ctx.record(adpl::hir::RecordId { raw: 1 });
    assert_eq!(p_node.name.symbol, sym(P));
    assert_eq!(p_node.params.end - p_node.params.start, 1);
    assert_eq!(p_node.fields.end - p_node.fields.start, 1);
    let x_field = ctx.field(adpl::hir::FieldId { raw: p_node.fields.start });
    assert_eq!(x_field.name.symbol, sym(X));
    let f_node = ctx.def(adpl::hir::DefId { raw: 0 });
    assert_eq!(f_node.name.symbol, sym(F));
    assert_eq!(f_node.generics.end - f_node.generics.start, 1);
    assert_eq!(f_node.inputs.end - f_node.inputs.start, 1);
    let g_node = ctx.def(adpl::hir::DefId { raw: 1 });
    assert_eq!(g_node.name.symbol, sym(G));
    assert!(g_node.body.is_some());
}

#[test]
fn constructing_across_scopes_resolves() {
    // struct T {}
    // struct P[n] { x: T }
    // def g(a: T) -> T { b = P[1]{ x = a }; return a; }
    let t = record_item(ident(T, 0), vec![], vec![]);
    let p = record_item(
        ident(P, 10),
        vec![ident(N, 12)],
        vec![Field { name: ident(X, 14), ty: ty(ident(T, 16)), span: Span::new(14, 17) }],
    );
    let lit_one = Expression {
        kind: ExprKind::Lit(adpl::ast::Literal { value: 1 }),
        span: Span::new(24, 25),
    };
    let g = def_item(
        ident(G, 20),
        vec![],
        vec![Parameter { name: ident(X, 22), ty: ty(ident(T, 23)), span: Span::new(22, 24) }],
        ty(ident(T, 26)),
        Some(Block(vec![
            Statement {
                kind: StmtKind::Assign(Assignment {
                    lhs: ident(Y, 28),
                    rhs: ctor_expr(
                        ident(P, 30),
                        vec![lit_one],
                        vec![Assignment { lhs: ident(X, 32), rhs: id_expr(ident(X, 34)) }],
                    ),
                }),
            },
            Statement { kind: StmtKind::Return(id_expr(ident(X, 36))) },
        ])),
    );
    let file = File { items: vec![t, p, g] };
    let ctx = lower_ast(&file).expect("the program is well-formed");
    assert_eq!(ctx.records.len(), 2);
    assert_eq!(ctx.defs.len(), 1);
}

#[test]
fn top_level_redefinition_cites_both_spans() {
    let first = record_item(ident(T, 0), vec![], vec![]);
    let second = record_item(ident(T, 20), vec![], vec![]);
    let file = File { items: vec![first, second] };
    match lower_ast(&file) {
        Err(LowerError::RedefinedName(err)) => {
            assert_eq!(err.first.span, Span::new(0, 1));
            assert_eq!(err.second.span, Span::new(20, 21));
        },
        other => panic!("expected a redefinition error, got {:?}", other.is_ok()),
    }
}

#[test]
fn duplicate_generic_in_record_cites_the_duplicate() {
    // struct P[n, x, n] {} — the third parameter repeats the first
    let p = record_item(ident(P, 0), vec![ident(N, 2), ident(X, 4), ident(N, 6)], vec![]);
    let file = File { items: vec![p] };
    match lower_ast(&file) {
        Err(LowerError::ReusedParameter(err)) => {
            assert_eq!(err.second.span, Span::new(6, 7));
        },
        other => panic!("expected a reused parameter error, got {:?}", other.is_ok()),
    }
}

#[test]
fn duplicate_generic_in_def_cites_the_duplicate() {
    let t = record_item(ident(T, 0), vec![], vec![]);
    let f = def_item(
        ident(F, 10),
        vec![ident(N, 12), ident(N, 14)],
        vec![],
        ty(ident(T, 16)),
        None,
    );
    let file = File { items: vec![t, f] };
    match lower_ast(&file) {
        Err(LowerError::ReusedParameter(err)) => {
            assert_eq!(err.second.span, Span::new(14, 15));
        },
        other => panic!("expected a reused parameter error, got {:?}", other.is_ok()),
    }
}

#[test]
fn value_param_shadowing_generic_is_distinct_from_reuse() {
    // def f[n](n: T) -> T; — shadows the generic
    let t = record_item(ident(T, 0), vec![], vec![]);
    let f = def_item(
        ident(F, 10),
        vec![ident(N, 12)],
        vec![Parameter { name: ident(N, 14), ty: ty(ident(T, 16)), span: Span::new(14, 17) }],
        ty(ident(T, 18)),
        None,
    );
    let file = File { items: vec![t, f] };
    match lower_ast(&file) {
        Err(LowerError::ShadowedGeneric(err)) => {
            assert_eq!(err.first.span, Span::new(12, 13));
            assert_eq!(err.second.span, Span::new(14, 15));
        },
        other => panic!("expected a shadowed generic error, got {:?}", other.is_ok()),
    }

    // def g(x: T, x: T) -> T; — reuses a value parameter
    let t2 = record_item(ident(T, 0), vec![], vec![]);
    let g = def_item(
        ident(G, 10),
        vec![],
        vec![
            Parameter { name: ident(X, 12), ty: ty(ident(T, 14)), span: Span::new(12, 15) },
            Parameter { name: ident(X, 16), ty: ty(ident(T, 18)), span: Span::new(16, 19) },
        ],
        ty(ident(T, 20)),
        None,
    );
    let file2 = File { items: vec![t2, g] };
    match lower_ast(&file2) {
        Err(LowerError::ReusedParameter(err)) => {
            assert_eq!(err.second.span, Span::new(16, 17));
        },
        other => panic!("expected a reused parameter error, got {:?}", other.is_ok()),
    }
}

#[test]
fn duplicate_field_declaration_cites_both() {
    let t = record_item(ident(T, 0), vec![], vec![]);
    let p = record_item(
        ident(P, 10),
        vec![],
        vec![
            Field { name: ident(X, 12), ty: ty(ident(T, 14)), span: Span::new(12, 15) },
            Field { name: ident(X, 16), ty: ty(ident(T, 18)), span: Span::new(16, 19) },
        ],
    );
    let file = File { items: vec![t, p] };
    match lower_ast(&file) {
        Err(LowerError::RedeclaredField(err)) => {
            assert_eq!(err.first.span, Span::new(12, 13));
            assert_eq!(err.second.span, Span::new(16, 17));
        },
        other => panic!("expected a redeclared field error, got {:?}", other.is_ok()),
    }
}

fn def_returning(name: Id, body_expr: Expression, output: Type) -> Item {
    def_item(
        name,
        vec![],
        vec![],
        output,
        Some(Block(vec![Statement { kind: StmtKind::Return(body_expr) }])),
    )
}

#[test]
fn calling_an_undeclared_name_is_not_found() {
    let t = record_item(ident(T, 0), vec![], vec![]);
    let g = def_returning(ident(G, 10), call_expr(ident(F, 12), vec![], vec![]), ty(ident(T, 14)));
    let file = File { items: vec![t, g] };
    match lower_ast(&file) {
        Err(LowerError::KindNotFound(err)) => {
            assert_eq!(err.kind, NameKind::Function);
            assert_eq!(err.name.span, Span::new(12, 13));
        },
        other => panic!("expected a not-found error, got {:?}", other.is_ok()),
    }
}

#[test]
fn calling_a_record_is_not_callable() {
    let t = record_item(ident(T, 0), vec![], vec![]);
    let g = def_returning(ident(G, 10), call_expr(ident(T, 12), vec![], vec![]), ty(ident(T, 14)));
    let file = File { items: vec![t, g] };
    match lower_ast(&file) {
        Err(LowerError::UnexpectedKind(err)) => {
            assert_eq!(err.expected, NameKind::Function);
            assert_eq!(err.found, NameKind::Struct);
        },
        other => panic!("expected a wrong-kind error, got {:?}", other.is_ok()),
    }
}

#[test]
fn constructing_a_definition_is_not_a_struct_type() {
    let t = record_item(ident(T, 0), vec![], vec![]);
    let f = def_item(ident(F, 10), vec![], vec![], ty(ident(T, 12)), None);
    let g = def_returning(ident(G, 20), ctor_expr(ident(F, 22), vec![], vec![]), ty(ident(T, 24)));
    let file = File { items: vec![t, f, g] };
    match lower_ast(&file) {
        Err(LowerError::UnexpectedKind(err)) => {
            assert_eq!(err.expected, NameKind::Struct);
            assert_eq!(err.found, NameKind::Function);
        },
        other => panic!("expected a wrong-kind error, got {:?}", other.is_ok()),
    }
}

#[test]
fn value_position_naming_a_struct_is_wrong_namespace() {
    let t = record_item(ident(T, 0), vec![], vec![]);
    let g = def_returning(ident(G, 10), id_expr(ident(T, 12)), ty(ident(T, 14)));
    let file = File { items: vec![t, g] };
    match lower_ast(&file) {
        Err(LowerError::UnexpectedItem(err)) => {
            assert_eq!(err.kind, NameKind::Struct);
        },
        other => panic!("expected a wrong-namespace error, got {:?}", other.is_ok()),
    }
}

#[test]
fn entirely_undefined_value_is_undefined_name() {
    let t = record_item(ident(T, 0), vec![], vec![]);
    let g = def_returning(ident(G, 10), id_expr(ident(Y, 12)), ty(ident(T, 14)));
    let file = File { items: vec![t, g] };
    match lower_ast(&file) {
        Err(LowerError::UndefinedName(err)) => {
            assert_eq!(err.name.span, Span::new(12, 13));
        },
        other => panic!("expected an undefined name error, got {:?}", other.is_ok()),
    }
}

#[test]
fn unknown_type_name_is_not_found() {
    let g = def_item(ident(G, 0), vec![], vec![], ty(ident(T, 2)), None);
    let file = File { items: vec![g] };
    match lower_ast(&file) {
        Err(LowerError::KindNotFound(err)) => {
            assert_eq!(err.kind, NameKind::Type);
        },
        other => panic!("expected a not-found error, got {:?}", other.is_ok()),
    }
}

#[test]
fn call_arity_mismatch_reports_both_counts() {
    // def f(x: T, y: T) -> T; called with one argument
    let t = record_item(ident(T, 0), vec![], vec![]);
    let f = def_item(
        ident(F, 10),
        vec![],
        vec![
            Parameter { name: ident(X, 12), ty: ty(ident(T, 14)), span: Span::new(12, 15) },
            Parameter { name: ident(Y, 16), ty: ty(ident(T, 18)), span: Span::new(16, 19) },
        ],
        ty(ident(T, 20)),
        None,
    );
    let g = def_item(
        ident(G, 30),
        vec![],
        vec![Parameter { name: ident(X, 32), ty: ty(ident(T, 34)), span: Span::new(32, 35) }],
        ty(ident(T, 36)),
        Some(Block(vec![Statement {
            kind: StmtKind::Return(call_expr(
                ident(F, 38),
                vec![],
                vec![id_expr(ident(X, 40))],
            )),
        }])),
    );
    let file = File { items: vec![t, f, g] };
    match lower_ast(&file) {
        Err(LowerError::ArityMismatch(err)) => {
            assert_eq!(err.expected, 2);
            assert_eq!(err.found, 1);
            assert_eq!(err.what, ArityWhat::Argument);
        },
        other => panic!("expected an arity error, got {:?}", other.is_ok()),
    }
}

#[test]
fn generic_arity_mismatch_is_tagged_as_generic() {
    // struct P[n] {} used as type P with no arguments
    let p = record_item(ident(P, 0), vec![ident(N, 2)], vec![]);
    let g = def_item(ident(G, 10), vec![], vec![], ty(ident(P, 12)), None);
    let file = File { items: vec![p, g] };
    match lower_ast(&file) {
        Err(LowerError::ArityMismatch(err)) => {
            assert_eq!(err.expected, 1);
            assert_eq!(err.found, 0);
            assert_eq!(err.what, ArityWhat::GenericArgument);
        },
        other => panic!("expected an arity error, got {:?}", other.is_ok()),
    }
}

fn one_field_record_and_ctor(inits: Vec<Assignment>) -> File {
    // struct T {}
    // struct P { x: T }
    // def g(a: T) -> T { b = P{ <inits> }; return a; }
    let t = record_item(ident(T, 0), vec![], vec![]);
    let p = record_item(
        ident(P, 10),
        vec![],
        vec![Field { name: ident(X, 12), ty: ty(ident(T, 14)), span: Span::new(12, 15) }],
    );
    let g = def_item(
        ident(G, 20),
        vec![],
        vec![Parameter { name: ident(Y, 22), ty: ty(ident(T, 23)), span: Span::new(22, 24) }],
        ty(ident(T, 26)),
        Some(Block(vec![
            Statement {
                kind: StmtKind::Assign(Assignment {
                    lhs: ident(N, 28),
                    rhs: ctor_expr(ident(P, 30), vec![], inits),
                }),
            },
            Statement { kind: StmtKind::Return(id_expr(ident(Y, 32))) },
        ])),
    );
    File { items: vec![t, p, g] }
}

#[test]
fn unknown_constructor_field_is_rejected() {
    let file = one_field_record_and_ctor(vec![Assignment {
        lhs: ident(F, 40),
        rhs: id_expr(ident(Y, 42)),
    }]);
    match lower_ast(&file) {
        Err(LowerError::UnexpectedField(err)) => {
            assert_eq!(err.field.span, Span::new(40, 41));
        },
        other => panic!("expected an unknown field error, got {:?}", other.is_ok()),
    }
}

#[test]
fn duplicate_constructor_field_fails_on_the_second() {
    let file = one_field_record_and_ctor(vec![
        Assignment { lhs: ident(X, 40), rhs: id_expr(ident(Y, 42)) },
        Assignment { lhs: ident(X, 44), rhs: id_expr(ident(Y, 46)) },
    ]);
    match lower_ast(&file) {
        Err(LowerError::DuplicateField(err)) => {
            assert_eq!(err.second.span, Span::new(44, 45));
        },
        other => panic!("expected a duplicate field error, got {:?}", other.is_ok()),
    }
}

#[test]
fn missing_constructor_field_is_named() {
    let file = one_field_record_and_ctor(vec![]);
    match lower_ast(&file) {
        Err(LowerError::MissingField(err)) => {
            assert_eq!(err.field.symbol, Symbol { id: X });
        },
        other => panic!("expected a missing field error, got {:?}", other.is_ok()),
    }
}

#[test]
fn names_resolve_in_source_order_only() {
    // def g() -> T; — T is declared only afterwards, so it is not yet visible
    let g = def_item(ident(G, 0), vec![], vec![], ty(ident(T, 2)), None);
    let t = record_item(ident(T, 10), vec![], vec![]);
    let file = File { items: vec![g, t] };
    match lower_ast(&file) {
        Err(LowerError::KindNotFound(err)) => {
            assert_eq!(err.kind, NameKind::Type);
            assert_eq!(err.name.span, Span::new(2, 3));
        },
        other => panic!("expected a not-found error, got {:?}", other.is_ok()),
    }
}

#[test]
fn let_binding_may_shadow_a_parameter() {
    // def g(a: T) -> T { a = a; return a; } — sequential, lexical shadowing
    let t = record_item(ident(T, 0), vec![], vec![]);
    let g = def_item(
        ident(G, 10),
        vec![],
        vec![Parameter { name: ident(X, 12), ty: ty(ident(T, 13)), span: Span::new(12, 14) }],
        ty(ident(T, 16)),
        Some(Block(vec![
            Statement {
                kind: StmtKind::Assign(Assignment {
                    lhs: ident(X, 18),
                    rhs: id_expr(ident(X, 20)),
                }),
            },
            Statement { kind: StmtKind::Return(id_expr(ident(X, 22))) },
        ])),
    );
    let file = File { items: vec![t, g] };
    assert!(lower_ast(&file).is_ok());
}

#[test]
fn let_bindings_shadow_and_persist_through_unsafe_blocks() {
    // def g(a: T) -> T { unsafe { a2 = a; } return a2; }
    let t = record_item(ident(T, 0), vec![], vec![]);
    let g = def_item(
        ident(G, 10),
        vec![],
        vec![Parameter { name: ident(X, 12), ty: ty(ident(T, 13)), span: Span::new(12, 14) }],
        ty(ident(T, 16)),
        Some(Block(vec![
            Statement {
                kind: StmtKind::Unsafe(Block(vec![Statement {
                    kind: StmtKind::Assign(Assignment {
                        lhs: ident(Y, 18),
                        rhs: id_expr(ident(X, 20)),
                    }),
                }])),
            },
            Statement { kind: StmtKind::Return(id_expr(ident(Y, 22))) },
        ])),
    );
    let file = File { items: vec![t, g] };
    assert!(lower_ast(&file).is_ok());
}
