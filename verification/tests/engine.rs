use fxrazen::ast::{Block, CatchClause, Directive, SwitchCase, TypeCase};
use fxrazen::compiler_options::CompilerOptions;
use fxrazen::directive::DirectiveSubverifier;
use fxrazen::subverifier::{Subverifier, VerifierPhase};

fn fresh(node_count: usize) -> Subverifier {
    Subverifier::new(node_count, Vec::new(), Vec::new(), CompilerOptions::default())
}

#[test]
fn other_statement_is_noop() {
    let mut sv = fresh(0);
    let d = Directive::OtherStatement;
    let r = DirectiveSubverifier::verify_directive(&mut sv, &d);
    assert!(r.is_ok());
    assert_eq!(sv.diagnostics.len(), 0);
    assert_eq!(sv.scope_parents.len(), 0);
    assert_eq!(sv.scope_stack.len(), 0);
}

#[test]
fn block_creates_scope_and_finishes() {
    let mut sv = fresh(1);
    let d = Directive::Block(Block { id: 0, directives: vec![Directive::OtherStatement] });
    let r = DirectiveSubverifier::verify_directive(&mut sv, &d);
    assert!(r.is_ok());
    assert_eq!(sv.node_states[0].phase, VerifierPhase::Finished);
    assert_eq!(sv.scope_parents.len(), 1);
    assert_eq!(sv.scope_stack.len(), 0);
}

#[test]
fn finished_block_second_visit_is_noop() {
    let mut sv = fresh(1);
    let d = Directive::Block(Block { id: 0, directives: vec![] });
    assert!(DirectiveSubverifier::verify_directive(&mut sv, &d).is_ok());
    let scopes_before = sv.scope_parents.len();
    let diags_before = sv.diagnostics.len();
    let r = DirectiveSubverifier::verify_directive(&mut sv, &d);
    assert!(r.is_ok());
    assert_eq!(sv.scope_parents.len(), scopes_before);
    assert_eq!(sv.diagnostics.len(), diags_before);
    assert_eq!(sv.node_states[0].phase, VerifierPhase::Finished);
}

#[test]
fn try_catch_finally_creates_three_scopes() {
    let mut sv = fresh(3);
    let d = Directive::TryStatement {
        block: Block { id: 0, directives: vec![] },
        catch_clauses: vec![CatchClause { block: Block { id: 1, directives: vec![] } }],
        finally_clause: Some(Block { id: 2, directives: vec![] }),
    };
    let r = DirectiveSubverifier::verify_directive(&mut sv, &d);
    assert!(r.is_ok());
    assert_eq!(sv.scope_parents.len(), 3);
    assert_eq!(sv.scope_stack.len(), 0);
    assert_eq!(sv.node_states[0].phase, VerifierPhase::Finished);
    assert_eq!(sv.node_states[1].phase, VerifierPhase::Finished);
    assert_eq!(sv.node_states[2].phase, VerifierPhase::Finished);
}

#[test]
fn for_loop_scope_inherits_enclosing_scope() {
    let mut sv = fresh(2);
    let unit_scope = sv.create_scope();
    sv.inherit_and_enter_scope(unit_scope);
    let d = Directive::ForStatement {
        id: 0,
        body: Box::new(Directive::Block(Block { id: 1, directives: vec![] })),
    };
    let r = DirectiveSubverifier::verify_directive(&mut sv, &d);
    assert!(r.is_ok());
    // the loop scope inherits the unit scope, and the body's scope inherits
    // the loop scope — loop-head bindings are visible to the body without
    // escaping to the unit scope
    assert_eq!(sv.scope_parents[1], Some(unit_scope));
    assert_eq!(sv.scope_parents[2], Some(1));
    assert_eq!(sv.scope_stack.len(), 1);
    sv.exit_scope();
    assert_eq!(sv.scope_stack.len(), 0);
}

#[test]
fn for_in_loop_creates_memoized_scope() {
    let mut sv = fresh(1);
    let d = Directive::ForInStatement { id: 0, body: Box::new(Directive::OtherStatement) };
    assert!(DirectiveSubverifier::verify_directive(&mut sv, &d).is_ok());
    assert_eq!(sv.scope_parents.len(), 1);
    // a second visit reuses the memoized scope instead of creating another
    assert!(DirectiveSubverifier::verify_directive(&mut sv, &d).is_ok());
    assert_eq!(sv.scope_parents.len(), 1);
}

#[test]
fn siblings_after_deferred_import_still_finish() {
    let mut sv = fresh(2);
    let list = vec![
        Directive::ImportDirective {
            id: 0,
            import: fxrazen::ast::ImportDirective {
                alias: None,
                package_name: vec![10, 11],
                import_specifier: fxrazen::ast::ImportSpecifier::Identifier(12),
            },
        },
        Directive::Block(Block { id: 1, directives: vec![] }),
    ];
    let r = DirectiveSubverifier::verify_directives(&mut sv, &list);
    assert!(r.is_err());
    // the import deferred, but its sibling was still visited and finished
    assert_eq!(sv.node_states[0].phase, VerifierPhase::Beta);
    assert_eq!(sv.node_states[1].phase, VerifierPhase::Finished);
    let r2 = DirectiveSubverifier::verify_directives(&mut sv, &list);
    assert!(r2.is_ok());
    assert_eq!(sv.node_states[0].phase, VerifierPhase::Finished);
}

#[test]
fn switch_visits_every_case() {
    let mut sv = fresh(2);
    let d = Directive::SwitchStatement {
        cases: vec![
            SwitchCase { directives: vec![Directive::Block(Block { id: 0, directives: vec![] })] },
            SwitchCase { directives: vec![Directive::Block(Block { id: 1, directives: vec![] })] },
        ],
    };
    assert!(DirectiveSubverifier::verify_directive(&mut sv, &d).is_ok());
    assert_eq!(sv.node_states[0].phase, VerifierPhase::Finished);
    assert_eq!(sv.node_states[1].phase, VerifierPhase::Finished);
    assert_eq!(sv.scope_parents.len(), 2);
}

#[test]
fn switch_type_cases_get_their_own_blocks() {
    let mut sv = fresh(2);
    let d = Directive::SwitchTypeStatement {
        type_cases: vec![
            TypeCase { block: Block { id: 0, directives: vec![] } },
            TypeCase { block: Block { id: 1, directives: vec![] } },
        ],
    };
    assert!(DirectiveSubverifier::verify_directive(&mut sv, &d).is_ok());
    assert_eq!(sv.node_states[0].phase, VerifierPhase::Finished);
    assert_eq!(sv.node_states[1].phase, VerifierPhase::Finished);
    assert_eq!(sv.scope_parents.len(), 2);
    assert_eq!(sv.scope_stack.len(), 0);
}

#[test]
fn passthrough_statements_reach_their_bodies() {
    let mut sv = fresh(1);
    let d = Directive::LabeledStatement {
        substatement: Box::new(Directive::DoStatement {
            body: Box::new(Directive::WhileStatement {
                body: Box::new(Directive::WithStatement {
                    body: Box::new(Directive::Block(Block { id: 0, directives: vec![] })),
                }),
            }),
        }),
    };
    assert!(DirectiveSubverifier::verify_directive(&mut sv, &d).is_ok());
    assert_eq!(sv.node_states[0].phase, VerifierPhase::Finished);
    assert_eq!(sv.scope_parents.len(), 1);
}

#[test]
fn runtime_if_visits_both_branches() {
    // contrast with conditional compilation: a runtime `if` performs no
    // compile-time branch selection, so both branches are verified
    let mut sv = Subverifier::new(
        2,
        vec![fxrazen::subverifier::EvalOutcome::Resolved(
            fxrazen::subverifier::ConstantValue::Boolean(true),
        )],
        Vec::new(),
        CompilerOptions::default(),
    );
    let d = Directive::IfStatement {
        test: 0,
        consequent: Box::new(Directive::Block(Block { id: 0, directives: vec![] })),
        alternative: Some(Box::new(Directive::Block(Block { id: 1, directives: vec![] }))),
    };
    assert!(DirectiveSubverifier::verify_directive(&mut sv, &d).is_ok());
    assert_eq!(sv.node_states[0].phase, VerifierPhase::Finished);
    assert_eq!(sv.node_states[1].phase, VerifierPhase::Finished);
}
