use fxrazen::ast::{Block, Directive};
use fxrazen::compiler_options::{CompilationUnit, CompilerOptions, CompilerWarningOptions};
use fxrazen::directive::DirectiveSubverifier;
use fxrazen::subverifier::Subverifier;

#[test]
fn default_options_have_every_toggle_on() {
    let o = CompilerOptions::default();
    assert!(o.as3);
    assert!(o.infer_types);
    assert!(o.block_scope);
    assert!(o.asdoc_markdown);
    assert!(o.warnings.unused);
    assert!(o.inherit_this_type);
    assert_eq!(o.source_path.len(), 0);
}

#[test]
fn default_warning_options_report_unused() {
    let w = CompilerWarningOptions::default();
    assert!(w.unused);
}

#[test]
fn options_of_compilation_unit() {
    let mut o = CompilerOptions::default();
    o.as3 = false;
    o.source_path = vec![String::from("src"), String::from("main")];
    let cu = CompilationUnit { compiler_options: Some(o) };
    let got = CompilerOptions::of(&cu);
    assert!(!got.as3);
    assert_eq!(got.source_path.len(), 2);
    assert_eq!(got.source_path[0], "src");
}

#[test]
fn verify_block_standalone() {
    let mut sv = Subverifier::new(1, Vec::new(), Vec::new(), CompilerOptions::default());
    let b = Block { id: 0, directives: vec![Directive::OtherStatement] };
    assert!(DirectiveSubverifier::verify_block(&mut sv, &b).is_ok());
    assert_eq!(sv.scope_parents.len(), 1);
    assert_eq!(sv.scope_stack.len(), 0);
    // verifying the same block again reuses phase and scope
    assert!(DirectiveSubverifier::verify_block(&mut sv, &b).is_ok());
    assert_eq!(sv.scope_parents.len(), 1);
}
