use fxrazen::ast::{Directive, ImportDirective, ImportSpecifier};
use fxrazen::compiler_options::CompilerOptions;
use fxrazen::directive::DirectiveSubverifier;
use fxrazen::subverifier::{
    DiagnosticKind, ImportObject, SemanticObject, Subverifier, VerifierPhase,
};

fn import_directive(
    id: usize,
    alias: Option<usize>,
    package: Vec<usize>,
    specifier: ImportSpecifier,
) -> Directive {
    Directive::ImportDirective {
        id,
        import: ImportDirective { alias, package_name: package, import_specifier: specifier },
    }
}

#[test]
fn import_list_fixpoint_in_two_passes() {
    // three mutually independent imports, each needing exactly one prior
    // pass: the whole unit reaches its fixpoint on the second pass
    let mut sv = Subverifier::new(
        3,
        Vec::new(),
        vec![vec![0, 1]],
        CompilerOptions::default(),
    );
    let list = vec![
        import_directive(0, None, vec![0, 1], ImportSpecifier::Identifier(2)),
        import_directive(1, None, vec![0, 1], ImportSpecifier::Wildcard),
        import_directive(2, None, vec![0, 1], ImportSpecifier::Recursive),
    ];
    let mut passes: usize = 0;
    loop {
        passes += 1;
        assert!(passes <= 10, "fixpoint not reached");
        if DirectiveSubverifier::verify_directives(&mut sv, &list).is_ok() {
            break;
        }
    }
    assert_eq!(passes, 2);
    assert_eq!(sv.node_states[0].phase, VerifierPhase::Finished);
    assert_eq!(sv.node_states[1].phase, VerifierPhase::Finished);
    assert_eq!(sv.node_states[2].phase, VerifierPhase::Finished);
    // a third pass is a no-op
    let diags = sv.diagnostics.len();
    assert!(DirectiveSubverifier::verify_directives(&mut sv, &list).is_ok());
    assert_eq!(sv.diagnostics.len(), diags);
}

#[test]
fn wildcard_import_of_empty_package_warns() {
    let mut sv = Subverifier::new(1, Vec::new(), Vec::new(), CompilerOptions::default());
    let d = import_directive(0, None, vec![7, 8], ImportSpecifier::Wildcard);
    assert!(DirectiveSubverifier::verify_directive(&mut sv, &d).is_err());
    assert_eq!(sv.diagnostics.len(), 0);
    assert!(DirectiveSubverifier::verify_directive(&mut sv, &d).is_ok());
    assert_eq!(sv.diagnostics.len(), 1);
    assert_eq!(sv.diagnostics[0].kind, DiagnosticKind::EmptyPackageImport);
    assert_eq!(sv.diagnostics[0].location, 0);
}

#[test]
fn wildcard_import_of_populated_package_is_silent() {
    let mut sv = Subverifier::new(
        1,
        Vec::new(),
        vec![vec![7, 8]],
        CompilerOptions::default(),
    );
    let d = import_directive(0, None, vec![7, 8], ImportSpecifier::Wildcard);
    assert!(DirectiveSubverifier::verify_directive(&mut sv, &d).is_err());
    assert!(DirectiveSubverifier::verify_directive(&mut sv, &d).is_ok());
    assert_eq!(sv.diagnostics.len(), 0);
}

#[test]
fn identifier_import_skips_empty_package_check() {
    let mut sv = Subverifier::new(1, Vec::new(), Vec::new(), CompilerOptions::default());
    let d = import_directive(0, None, vec![7, 8], ImportSpecifier::Identifier(9));
    assert!(DirectiveSubverifier::verify_directive(&mut sv, &d).is_err());
    assert!(DirectiveSubverifier::verify_directive(&mut sv, &d).is_ok());
    assert_eq!(sv.diagnostics.len(), 0);
}

#[test]
fn recursive_import_creates_package_once() {
    let mut sv = Subverifier::new(
        1,
        Vec::new(),
        vec![vec![3, 4]],
        CompilerOptions::default(),
    );
    let d = import_directive(0, None, vec![3, 4], ImportSpecifier::Recursive);
    assert!(DirectiveSubverifier::verify_directive(&mut sv, &d).is_err());
    assert_eq!(sv.packages.len(), 1);
    assert_eq!(sv.packages[0], vec![3, 4]);
    assert_eq!(
        sv.node_states[0].object,
        Some(SemanticObject::Import(ImportObject::Recursive(0)))
    );
    // the memoized import object is reused, no second package appears
    assert!(DirectiveSubverifier::verify_directive(&mut sv, &d).is_ok());
    assert_eq!(sv.packages.len(), 1);
}

#[test]
fn alias_import_resolves_in_two_phases() {
    let mut sv = Subverifier::new(1, Vec::new(), Vec::new(), CompilerOptions::default());
    let d = import_directive(0, Some(5), vec![3, 4], ImportSpecifier::Identifier(6));
    assert!(DirectiveSubverifier::verify_directive(&mut sv, &d).is_err());
    assert_eq!(sv.node_states[0].phase, VerifierPhase::Beta);
    assert_eq!(sv.node_states[0].object, Some(SemanticObject::Import(ImportObject::Alias)));
    assert!(sv.unused.contains(&0));
    assert!(DirectiveSubverifier::verify_directive(&mut sv, &d).is_ok());
    assert_eq!(sv.node_states[0].phase, VerifierPhase::Finished);
    // an alias is a named binding, not an open import
    assert_eq!(sv.open_imports.len(), 0);
}

#[test]
fn import_contributes_to_enclosing_scope() {
    let mut sv = Subverifier::new(1, Vec::new(), Vec::new(), CompilerOptions::default());
    let scope = sv.create_scope();
    sv.inherit_and_enter_scope(scope);
    let d = import_directive(0, None, vec![1, 2], ImportSpecifier::Wildcard);
    assert!(DirectiveSubverifier::verify_directive(&mut sv, &d).is_err());
    assert_eq!(sv.open_imports, vec![(scope, 0)]);
    sv.exit_scope();
}

#[test]
fn unused_import_candidates_respect_warning_toggle() {
    let mut options = CompilerOptions::default();
    options.warnings.unused = false;
    let mut sv = Subverifier::new(1, Vec::new(), Vec::new(), options);
    let d = import_directive(0, None, vec![1, 2], ImportSpecifier::Identifier(3));
    assert!(DirectiveSubverifier::verify_directive(&mut sv, &d).is_err());
    assert_eq!(sv.unused.len(), 0);
}

#[test]
fn unused_import_candidate_recorded_when_warning_on() {
    let mut sv = Subverifier::new(1, Vec::new(), Vec::new(), CompilerOptions::default());
    let d = import_directive(0, None, vec![1, 2], ImportSpecifier::Identifier(3));
    assert!(DirectiveSubverifier::verify_directive(&mut sv, &d).is_err());
    assert_eq!(sv.unused, vec![0]);
}

#[test]
fn import_alias_directive_called_directly() {
    let mut sv = Subverifier::new(1, Vec::new(), Vec::new(), CompilerOptions::default());
    let imp = ImportDirective {
        alias: Some(5),
        package_name: vec![3, 4],
        import_specifier: ImportSpecifier::Identifier(6),
    };
    assert!(DirectiveSubverifier::verify_import_alias_directive(&mut sv, 0, &imp).is_err());
    assert!(DirectiveSubverifier::verify_import_alias_directive(&mut sv, 0, &imp).is_ok());
    assert_eq!(sv.node_states[0].phase, VerifierPhase::Finished);
    // a finished alias import is idempotent
    assert!(DirectiveSubverifier::verify_import_alias_directive(&mut sv, 0, &imp).is_ok());
}

#[test]
fn import_directive_called_directly() {
    let mut sv = Subverifier::new(1, Vec::new(), Vec::new(), CompilerOptions::default());
    let imp = ImportDirective {
        alias: None,
        package_name: vec![3, 4],
        import_specifier: ImportSpecifier::Identifier(6),
    };
    assert!(DirectiveSubverifier::verify_import_directive(&mut sv, 0, &imp).is_err());
    assert!(DirectiveSubverifier::verify_import_directive(&mut sv, 0, &imp).is_ok());
    assert!(DirectiveSubverifier::verify_import_directive(&mut sv, 0, &imp).is_ok());
    assert_eq!(sv.node_states[0].phase, VerifierPhase::Finished);
}
