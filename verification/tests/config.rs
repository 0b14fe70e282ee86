use fxrazen::ast::{Block, Directive, ImportDirective, ImportSpecifier};
use fxrazen::compiler_options::CompilerOptions;
use fxrazen::directive::DirectiveSubverifier;
use fxrazen::subverifier::{
    ConstantValue, DiagnosticKind, EvalOutcome, Subverifier, VerifierPhase,
};

fn config_if_with_imports(test_value: EvalOutcome) -> (Subverifier, Directive) {
    // configuration directive (node 0) around
    //     if (test) { import a.b.C; } else { import x.y.Z; }
    // with the consequent block as node 1 holding import node 2, and the
    // alternative block as node 3 holding import node 4
    let sv = Subverifier::new(5, vec![test_value], Vec::new(), CompilerOptions::default());
    let consequent = Directive::Block(Block {
        id: 1,
        directives: vec![Directive::ImportDirective {
            id: 2,
            import: ImportDirective {
                alias: None,
                package_name: vec![0, 1],
                import_specifier: ImportSpecifier::Identifier(2),
            },
        }],
    });
    let alternative = Directive::Block(Block {
        id: 3,
        directives: vec![Directive::ImportDirective {
            id: 4,
            import: ImportDirective {
                alias: None,
                package_name: vec![3, 4],
                import_specifier: ImportSpecifier::Identifier(5),
            },
        }],
    });
    let d = Directive::ConfigurationDirective {
        id: 0,
        directive: Box::new(Directive::IfStatement {
            test: 0,
            consequent: Box::new(consequent),
            alternative: Some(Box::new(alternative)),
        }),
    };
    (sv, d)
}

#[test]
fn config_true_never_visits_alternative() {
    let (mut sv, d) = config_if_with_imports(EvalOutcome::Resolved(ConstantValue::Boolean(true)));
    // first pass: the consequent's import registers and defers
    assert!(DirectiveSubverifier::verify_directive(&mut sv, &d).is_err());
    assert_eq!(sv.node_states[2].phase, VerifierPhase::Beta);
    assert!(sv.node_states[2].object.is_some());
    // second pass: everything selected resolves
    assert!(DirectiveSubverifier::verify_directive(&mut sv, &d).is_ok());
    assert_eq!(sv.node_states[0].phase, VerifierPhase::Finished);
    assert_eq!(sv.node_states[2].phase, VerifierPhase::Finished);
    // the untaken branch was never visited: no phase, no import object, no
    // scope, no unused-candidate for it
    assert_eq!(sv.node_states[3].phase, VerifierPhase::Unvisited);
    assert_eq!(sv.node_states[4].phase, VerifierPhase::Unvisited);
    assert!(sv.node_states[4].object.is_none());
    assert!(sv.unused.contains(&2));
    assert!(!sv.unused.contains(&4));
    assert_eq!(sv.diagnostics.len(), 0);
}

#[test]
fn config_false_visits_only_alternative() {
    let (mut sv, d) = config_if_with_imports(EvalOutcome::Resolved(ConstantValue::Boolean(false)));
    assert!(DirectiveSubverifier::verify_directive(&mut sv, &d).is_err());
    assert!(DirectiveSubverifier::verify_directive(&mut sv, &d).is_ok());
    assert_eq!(sv.node_states[4].phase, VerifierPhase::Finished);
    assert_eq!(sv.node_states[2].phase, VerifierPhase::Unvisited);
    assert!(sv.node_states[2].object.is_none());
    assert!(sv.unused.contains(&4));
    assert!(!sv.unused.contains(&2));
}

#[test]
fn config_false_without_alternative_resolves_empty() {
    let mut sv = Subverifier::new(
        2,
        vec![EvalOutcome::Resolved(ConstantValue::Boolean(false))],
        Vec::new(),
        CompilerOptions::default(),
    );
    let d = Directive::ConfigurationDirective {
        id: 0,
        directive: Box::new(Directive::IfStatement {
            test: 0,
            consequent: Box::new(Directive::Block(Block { id: 1, directives: vec![] })),
            alternative: None,
        }),
    };
    assert!(DirectiveSubverifier::verify_directive(&mut sv, &d).is_ok());
    assert_eq!(sv.node_states[0].phase, VerifierPhase::Finished);
    assert_eq!(sv.node_states[1].phase, VerifierPhase::Unvisited);
    assert_eq!(sv.diagnostics.len(), 0);
}

#[test]
fn non_boolean_test_diagnoses_once_and_resolves() {
    let mut sv = Subverifier::new(
        2,
        vec![EvalOutcome::Resolved(ConstantValue::NonBoolean)],
        Vec::new(),
        CompilerOptions::default(),
    );
    sv.expr_annotations = vec![Some(ConstantValue::NonBoolean)];
    let d = Directive::ConfigurationDirective {
        id: 0,
        directive: Box::new(Directive::IfStatement {
            test: 0,
            consequent: Box::new(Directive::Block(Block { id: 1, directives: vec![] })),
            alternative: None,
        }),
    };
    let r = DirectiveSubverifier::verify_directive(&mut sv, &d);
    assert!(r.is_ok());
    assert_eq!(sv.diagnostics.len(), 1);
    assert_eq!(sv.diagnostics[0].kind, DiagnosticKind::NotABooleanConstant);
    assert_eq!(sv.diagnostics[0].location, 0);
    // the speculative annotation on the test was cleared
    assert_eq!(sv.expr_annotations[0], None);
    assert_eq!(sv.node_states[0].phase, VerifierPhase::Finished);
    // no branch was taken
    assert_eq!(sv.node_states[1].phase, VerifierPhase::Unvisited);
    // a later pass is a no-op: the diagnostic is not repeated
    assert!(DirectiveSubverifier::verify_directive(&mut sv, &d).is_ok());
    assert_eq!(sv.diagnostics.len(), 1);
}

#[test]
fn evaluation_cycle_failure_diagnoses_and_resolves() {
    let mut sv = Subverifier::new(
        2,
        vec![EvalOutcome::CycleFailure],
        Vec::new(),
        CompilerOptions::default(),
    );
    let d = Directive::ConfigurationDirective {
        id: 0,
        directive: Box::new(Directive::IfStatement {
            test: 0,
            consequent: Box::new(Directive::Block(Block { id: 1, directives: vec![] })),
            alternative: None,
        }),
    };
    assert!(DirectiveSubverifier::verify_directive(&mut sv, &d).is_ok());
    assert_eq!(sv.diagnostics.len(), 1);
    assert_eq!(sv.diagnostics[0].kind, DiagnosticKind::ReachedMaximumCycles);
    assert_eq!(sv.node_states[0].phase, VerifierPhase::Finished);
}

#[test]
fn unresolved_test_defers_then_resolves() {
    let mut sv = Subverifier::new(
        2,
        vec![EvalOutcome::Unresolved],
        Vec::new(),
        CompilerOptions::default(),
    );
    let d = Directive::ConfigurationDirective {
        id: 0,
        directive: Box::new(Directive::IfStatement {
            test: 0,
            consequent: Box::new(Directive::Block(Block { id: 1, directives: vec![] })),
            alternative: None,
        }),
    };
    // a not-yet-constant test is a genuine deferral: silent, retried later
    assert!(DirectiveSubverifier::verify_directive(&mut sv, &d).is_err());
    assert_eq!(sv.diagnostics.len(), 0);
    assert_eq!(sv.node_states[0].phase, VerifierPhase::Alpha);
    // the evaluator resolves the constant on a later pass
    sv.expr_constants = vec![EvalOutcome::Resolved(ConstantValue::Boolean(true))];
    assert!(DirectiveSubverifier::verify_directive(&mut sv, &d).is_ok());
    assert_eq!(sv.node_states[0].phase, VerifierPhase::Finished);
    // the selected block lies on the configuration spine: its directives
    // were traversed without giving the block a phase of its own
    assert_eq!(sv.node_states[1].phase, VerifierPhase::Unvisited);
}

#[test]
fn config_block_spine_verifies_directives_directly() {
    // a block on the configuration spine is traversed for its directives
    // without getting a scope or a phase of its own
    let mut sv = Subverifier::new(2, Vec::new(), Vec::new(), CompilerOptions::default());
    let d = Directive::ConfigurationDirective {
        id: 0,
        directive: Box::new(Directive::Block(Block {
            id: 1,
            directives: vec![Directive::OtherStatement],
        })),
    };
    assert!(DirectiveSubverifier::verify_directive(&mut sv, &d).is_ok());
    assert_eq!(sv.node_states[0].phase, VerifierPhase::Finished);
    assert_eq!(sv.node_states[1].phase, VerifierPhase::Unvisited);
    assert_eq!(sv.scope_parents.len(), 0);
}
