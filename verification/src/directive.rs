use vstd::prelude::*;
use vstd::pervasive::unreached;
use crate::ast::{
    Block, Directive, ImportDirective, ImportSpecifier, NodeId, block_wf, catch_clauses_wf,
    config_grammar, drtv_wf, drtvs_wf, switch_cases_wf, type_cases_wf,
};
use crate::semantics::{
    lemma_block_evolves, lemma_config_subdirective_evolves, lemma_directive_evolves,
    lemma_directives_evolve, lemma_lazy_init_evolves, spec_verify_block,
    spec_verify_catch_clauses, spec_verify_config_subdirective, spec_verify_directive,
    spec_verify_directives, spec_verify_import_alias, spec_verify_import_directive,
    spec_verify_switch_cases, spec_verify_type_cases,
};
use crate::subverifier::{
    ConstantValue, DeferError, DiagnosticKind, Subverifier, VerifierPhase,
};

verus! {

// The deferral-aware directive verifier: the recursive dispatcher over
// directive kinds, re-entrant across driver passes. Each function is proved
// to transform the context exactly as the corresponding specification
// function of `semantics` says, and to report deferral exactly when that
// function says a descendant deferred.

pub struct DirectiveSubverifier;

impl DirectiveSubverifier {
    /// Verify every directive of a list, in source order, visiting every
    /// element even after an earlier sibling deferred; defer iff at least one
    /// element deferred.
    pub fn verify_directives(verifier: &mut Subverifier, list: &Vec<Directive>) -> (r: Result<
        (),
        DeferError,
    >)
        requires
            old(verifier)@.wf(),
            drtvs_wf(list@, old(verifier)@.node_states.len(), old(verifier)@.expr_constants.len()),
        ensures
            ({
                let (s2, def) = spec_verify_directives(old(verifier)@, list@);
                final(verifier)@ == s2 && (r is Err) == def
            }),
        decreases list@,
    {
        let ghost s0 = verifier@;
        proof {
            assert(list@.skip(0) =~= list@);
        }
        let mut any_defer: bool = false;
        let mut i: usize = 0;
        let n: usize = list.len();
        while i < n
            invariant
                i <= n,
                n as nat == list@.len(),
                verifier@.wf(),
                verifier@.node_states.len() == s0.node_states.len(),
                verifier@.expr_constants == s0.expr_constants,
                drtvs_wf(list@, s0.node_states.len(), s0.expr_constants.len()),
                ({
                    let (sf, df) = spec_verify_directives(s0, list@);
                    let (sr, dr) = spec_verify_directives(verifier@, list@.skip(i as int));
                    sf == sr && df == (any_defer || dr)
                }),
            decreases n - i,
        {
            let ghost s_iter = verifier@;
            proof {
                assert(list@.skip(i as int)[0] == list@[i as int]);
                assert(list@.skip(i as int).drop_first() =~= list@.skip(i as int + 1));
            }
            let r = Self::verify_directive(verifier, &list[i]);
            if r.is_err() {
                any_defer = true;
            }
            proof {
                lemma_directive_evolves(s_iter, list@[i as int]);
            }
            i = i + 1;
        }
        proof {
            assert(list@.skip(n as int) =~= Seq::<Directive>::empty());
        }
        if any_defer {
            Err(DeferError)
        } else {
            Ok(())
        }
    }

    /// Verify one directive: dispatch over its kind, as one pass of the
    /// phased, deferral-aware traversal.
    #[verifier::rlimit(80)]
    #[verifier::loop_isolation(false)]
    pub fn verify_directive(verifier: &mut Subverifier, drtv: &Directive) -> (r: Result<
        (),
        DeferError,
    >)
        requires
            old(verifier)@.wf(),
            drtv_wf(*drtv, old(verifier)@.node_states.len(), old(verifier)@.expr_constants.len()),
        ensures
            ({
                let (s2, def) = spec_verify_directive(old(verifier)@, *drtv);
                final(verifier)@ == s2 && (r is Err) == def
            }),
        decreases drtv,
    {
        let ghost s0 = verifier@;
        match drtv {
            Directive::Block(block) => Self::verify_block(verifier, block),
            Directive::LabeledStatement { substatement } => {
                Self::verify_directive(verifier, &**substatement)
            },
            Directive::IfStatement { test: _, consequent, alternative } => {
                let r1 = Self::verify_directive(verifier, &**consequent);
                let mut any_defer: bool = r1.is_err();
                proof {
                    lemma_directive_evolves(s0, **consequent);
                }
                match alternative {
                    Some(alt) => {
                        let r2 = Self::verify_directive(verifier, &**alt);
                        if r2.is_err() {
                            any_defer = true;
                        }
                    },
                    None => {},
                }
                if any_defer {
                    Err(DeferError)
                } else {
                    Ok(())
                }
            },
            Directive::SwitchStatement { cases } => {
                proof {
                    assert(cases@.skip(0) =~= cases@);
                }
                let mut any_defer: bool = false;
                let mut i: usize = 0;
                let n: usize = cases.len();
                while i < n
                    invariant
                        i <= n,
                        n as nat == cases@.len(),
                        verifier@.wf(),
                        verifier@.node_states.len() == s0.node_states.len(),
                        verifier@.expr_constants == s0.expr_constants,
                        switch_cases_wf(cases@, s0.node_states.len(), s0.expr_constants.len()),
                        ({
                            let (sf, df) = spec_verify_switch_cases(s0, cases@);
                            let (sr, dr) = spec_verify_switch_cases(
                                verifier@,
                                cases@.skip(i as int),
                            );
                            sf == sr && df == (any_defer || dr)
                        }),
                    decreases n - i,
                {
                    let ghost s_iter = verifier@;
                    proof {
                        assert(cases@.skip(i as int)[0] == cases@[i as int]);
                        assert(cases@.skip(i as int).drop_first() =~= cases@.skip(i as int + 1));
                        assert(decreases_to!(*drtv => (*drtv)->cases));
                        assert((*drtv)->cases == *cases);
                        assert(decreases_to!(*cases => cases@));
                        assert(decreases_to!(cases@ => cases@[i as int]));
                        assert(decreases_to!(cases@[i as int] => cases@[i as int].directives));
                        assert(decreases_to!(cases@[i as int].directives => cases@[i as int].directives@));
                    }
                    let r = Self::verify_directives(verifier, &cases[i].directives);
                    if r.is_err() {
                        any_defer = true;
                    }
                    proof {
                        lemma_directives_evolve(s_iter, cases@[i as int].directives@);
                    }
                    i = i + 1;
                }
                proof {
                    assert(cases@.skip(n as int) =~= Seq::<crate::ast::SwitchCase>::empty());
                }
                if any_defer {
                    Err(DeferError)
                } else {
                    Ok(())
                }
            },
            Directive::SwitchTypeStatement { type_cases } => {
                proof {
                    assert(type_cases@.skip(0) =~= type_cases@);
                }
                let mut any_defer: bool = false;
                let mut i: usize = 0;
                let n: usize = type_cases.len();
                while i < n
                    invariant
                        i <= n,
                        n as nat == type_cases@.len(),
                        verifier@.wf(),
                        verifier@.node_states.len() == s0.node_states.len(),
                        verifier@.expr_constants == s0.expr_constants,
                        type_cases_wf(type_cases@, s0.node_states.len(), s0.expr_constants.len()),
                        ({
                            let (sf, df) = spec_verify_type_cases(s0, type_cases@);
                            let (sr, dr) = spec_verify_type_cases(verifier@, type_cases@.skip(i as int));
                            sf == sr && df == (any_defer || dr)
                        }),
                    decreases n - i,
                {
                    let ghost s_iter = verifier@;
                    proof {
                        assert(type_cases@.skip(i as int)[0] == type_cases@[i as int]);
                        assert(type_cases@.skip(i as int).drop_first() =~= type_cases@.skip(i as int + 1));
                        assert(decreases_to!(*drtv => (*drtv)->type_cases));
                        assert((*drtv)->type_cases == *type_cases);
                        assert(decreases_to!(*type_cases => type_cases@));
                        assert(decreases_to!(type_cases@ => type_cases@[i as int]));
                        assert(decreases_to!(type_cases@[i as int] => type_cases@[i as int].block));
                    }
                    let r = Self::verify_block(verifier, &type_cases[i].block);
                    if r.is_err() {
                        any_defer = true;
                    }
                    proof {
                        lemma_block_evolves(s_iter, type_cases@[i as int].block);
                    }
                    i = i + 1;
                }
                proof {
                    assert(type_cases@.skip(n as int) =~= Seq::<crate::ast::TypeCase>::empty());
                }
                if any_defer {
                    Err(DeferError)
                } else {
                    Ok(())
                }
            },
            Directive::DoStatement { body } => Self::verify_directive(verifier, &**body),
            Directive::WhileStatement { body } => Self::verify_directive(verifier, &**body),
            Directive::ForStatement { id, body } => {
                let sid = verifier.ensure_node_scope(*id);
                verifier.inherit_and_enter_scope(sid);
                let ghost s2 = verifier@;
                let r = Self::verify_directive(verifier, &**body);
                proof {
                    lemma_directive_evolves(s2, **body);
                }
                verifier.exit_scope();
                r
            },
            Directive::ForInStatement { id, body } => {
                let sid = verifier.ensure_node_scope(*id);
                verifier.inherit_and_enter_scope(sid);
                let ghost s2 = verifier@;
                let r = Self::verify_directive(verifier, &**body);
                proof {
                    lemma_directive_evolves(s2, **body);
                }
                verifier.exit_scope();
                r
            },
            Directive::WithStatement { body } => Self::verify_directive(verifier, &**body),
            Directive::TryStatement { block, catch_clauses, finally_clause } => {
                let r1 = Self::verify_block(verifier, block);
                let mut any_defer: bool = r1.is_err();
                proof {
                    lemma_block_evolves(s0, *block);
                }
                let ghost s1 = verifier@;
                proof {
                    assert(catch_clauses@.skip(0) =~= catch_clauses@);
                }
                let mut i: usize = 0;
                let n: usize = catch_clauses.len();
                while i < n
                    invariant
                        i <= n,
                        n as nat == catch_clauses@.len(),
                        verifier@.wf(),
                        verifier@.node_states.len() == s1.node_states.len(),
                        verifier@.expr_constants == s1.expr_constants,
                        catch_clauses_wf(
                            catch_clauses@,
                            s1.node_states.len(),
                            s1.expr_constants.len(),
                        ),
                        r1 is Err ==> any_defer,
                        ({
                            let (sf, df) = spec_verify_catch_clauses(s1, catch_clauses@);
                            let (sr, dr) = spec_verify_catch_clauses(
                                verifier@,
                                catch_clauses@.skip(i as int),
                            );
                            sf == sr && (df || (r1 is Err)) == (any_defer || dr)
                        }),
                    decreases n - i,
                {
                    let ghost s_iter = verifier@;
                    proof {
                        assert(catch_clauses@.skip(i as int)[0] == catch_clauses@[i as int]);
                        assert(catch_clauses@.skip(i as int).drop_first() =~= catch_clauses@.skip(
                            i as int + 1,
                        ));
                        assert(decreases_to!(*drtv => (*drtv)->catch_clauses));
                        assert((*drtv)->catch_clauses == *catch_clauses);
                        assert(decreases_to!(*catch_clauses => catch_clauses@));
                        assert(decreases_to!(catch_clauses@ => catch_clauses@[i as int]));
                        assert(decreases_to!(catch_clauses@[i as int] => catch_clauses@[i as int].block));
                    }
                    let r = Self::verify_block(verifier, &catch_clauses[i].block);
                    if r.is_err() {
                        any_defer = true;
                    }
                    proof {
                        lemma_block_evolves(s_iter, catch_clauses@[i as int].block);
                    }
                    i = i + 1;
                }
                proof {
                    assert(catch_clauses@.skip(n as int) =~= Seq::<crate::ast::CatchClause>::empty());
                }
                match finally_clause {
                    Some(fb) => {
                        let r3 = Self::verify_block(verifier, fb);
                        if r3.is_err() {
                            any_defer = true;
                        }
                    },
                    None => {},
                }
                if any_defer {
                    Err(DeferError)
                } else {
                    Ok(())
                }
            },
            Directive::ConfigurationDirective { id, directive } => {
                let phase = verifier.lazy_init_phase(*id);
                if phase == VerifierPhase::Finished {
                    return Ok(());
                }
                let ghost s1 = verifier@;
                let r = Self::verify_config_subdirective(verifier, &**directive);
                proof {
                    lemma_config_subdirective_evolves(s1, **directive);
                }
                if r.is_err() {
                    Err(DeferError)
                } else {
                    verifier.set_phase(*id, VerifierPhase::Finished);
                    Ok(())
                }
            },
            Directive::ImportDirective { id, import } => {
                Self::verify_import_directive(verifier, *id, import)
            },
            Directive::OtherStatement => Ok(()),
        }
    }

    /// Verify an import directive: phase-gated with two live phases. Alpha
    /// registers the binding and defers; Beta reports empty wildcard or
    /// recursive package imports and finishes. An aliased import delegates
    /// to its own path.
    pub fn verify_import_directive(
        verifier: &mut Subverifier,
        id: NodeId,
        impdrtv: &ImportDirective,
    ) -> (r: Result<(), DeferError>)
        requires
            old(verifier)@.wf(),
            (id as nat) < old(verifier)@.node_states.len(),
        ensures
            ({
                let (s2, def) = spec_verify_import_directive(old(verifier)@, id, *impdrtv);
                final(verifier)@ == s2 && (r is Err) == def
            }),
    {
        let phase = verifier.lazy_init_phase(id);
        if phase == VerifierPhase::Finished {
            return Ok(());
        }
        if impdrtv.alias.is_some() {
            return Self::verify_import_alias_directive(verifier, id, impdrtv);
        }
        verifier.ensure_import_object(id, impdrtv);
        match phase {
            VerifierPhase::Alpha => {
                // Mark as a candidate for unused-import reporting, and
                // contribute to the enclosing scope's open-import list; the
                // actual resolution waits for the Beta phase.
                verifier.mark_unused(id);
                verifier.contribute_open_import(id);
                verifier.set_phase(id, VerifierPhase::Beta);
                Err(DeferError)
            },
            VerifierPhase::Beta => {
                // A wildcard or recursive import of a package that
                // contributes no members earns a warning.
                let warn: bool = match impdrtv.import_specifier {
                    ImportSpecifier::Identifier(_) => false,
                    _ => verifier.package_is_empty(&impdrtv.package_name),
                };
                if warn {
                    verifier.add_verify_error(DiagnosticKind::EmptyPackageImport, id);
                }
                verifier.set_phase(id, VerifierPhase::Finished);
                Ok(())
            },
            _ => Ok(()),
        }
    }

    /// Verify an aliased import directive. The envelope is the same
    /// two-phase protocol; the alias target's binding algorithm belongs to a
    /// later stage and is not decided here.
    pub fn verify_import_alias_directive(
        verifier: &mut Subverifier,
        id: NodeId,
        impdrtv: &ImportDirective,
    ) -> (r: Result<(), DeferError>)
        requires
            old(verifier)@.wf(),
            (id as nat) < old(verifier)@.node_states.len(),
        ensures
            ({
                let (s2, def) = spec_verify_import_alias(old(verifier)@, id, *impdrtv);
                final(verifier)@ == s2 && (r is Err) == def
            }),
    {
        let phase = verifier.lazy_init_phase(id);
        if phase == VerifierPhase::Finished {
            return Ok(());
        }
        verifier.ensure_alias_import_object(id);
        match phase {
            VerifierPhase::Alpha => {
                verifier.mark_unused(id);
                verifier.set_phase(id, VerifierPhase::Beta);
                Err(DeferError)
            },
            VerifierPhase::Beta => {
                verifier.set_phase(id, VerifierPhase::Finished);
                Ok(())
            },
            _ => Ok(()),
        }
    }

    /// Verify the sub-directive of a configuration directive: nested blocks
    /// and `if` statements whose tests are compile-time constants. Only the
    /// selected branch is ever visited. The caller must guarantee the
    /// restricted grammar; any other kind here is a defect of an earlier
    /// stage.
    pub fn verify_config_subdirective(verifier: &mut Subverifier, drtv: &Directive) -> (r: Result<
        (),
        DeferError,
    >)
        requires
            old(verifier)@.wf(),
            drtv_wf(*drtv, old(verifier)@.node_states.len(), old(verifier)@.expr_constants.len()),
            config_grammar(*drtv),
        ensures
            ({
                let (s2, def) = spec_verify_config_subdirective(old(verifier)@, *drtv);
                final(verifier)@ == s2 && (r is Err) == def
            }),
        decreases drtv,
    {
        match drtv {
            Directive::Block(block) => {
                proof {
                    assert(block_wf(
                        *block,
                        old(verifier)@.node_states.len(),
                        old(verifier)@.expr_constants.len(),
                    ));
                }
                Self::verify_directives(verifier, &block.directives)
            },
            Directive::IfStatement { test, consequent, alternative } => {
                let t: usize = *test;
                match verifier.verify_expression(t) {
                    Err(_) => {
                        verifier.add_verify_error(DiagnosticKind::ReachedMaximumCycles, t);
                        Ok(())
                    },
                    Ok(None) => Err(DeferError),
                    Ok(Some(ConstantValue::NonBoolean)) => {
                        verifier.clear_expr_annotation(t);
                        verifier.add_verify_error(DiagnosticKind::NotABooleanConstant, t);
                        Ok(())
                    },
                    Ok(Some(ConstantValue::Boolean(bv))) => {
                        if bv {
                            Self::verify_config_subdirective(verifier, &**consequent)
                        } else {
                            match alternative {
                                Some(alt) => Self::verify_config_subdirective(verifier, &**alt),
                                None => Ok(()),
                            }
                        }
                    },
                }
            },
            _ => unreached(),
        }
    }

    /// Verify a block: phase-gated; obtain-or-create its scope, enter it,
    /// verify the contained directives, and exit the scope even on the
    /// deferral path, so the scope stack stays balanced.
    pub fn verify_block(verifier: &mut Subverifier, block: &Block) -> (r: Result<(), DeferError>)
        requires
            old(verifier)@.wf(),
            block_wf(*block, old(verifier)@.node_states.len(), old(verifier)@.expr_constants.len()),
        ensures
            ({
                let (s2, def) = spec_verify_block(old(verifier)@, *block);
                final(verifier)@ == s2 && (r is Err) == def
            }),
        decreases block,
    {
        let ghost s0 = verifier@;
        let phase = verifier.lazy_init_phase(block.id);
        if phase == VerifierPhase::Finished {
            return Ok(());
        }
        proof {
            lemma_lazy_init_evolves(s0, block.id);
        }
        let sid = verifier.ensure_node_scope(block.id);
        verifier.inherit_and_enter_scope(sid);
        let ghost s3 = verifier@;
        let r = Self::verify_directives(verifier, &block.directives);
        proof {
            lemma_directives_evolve(s3, block.directives@);
        }
        verifier.exit_scope();
        if r.is_err() {
            Err(DeferError)
        } else {
            verifier.set_phase(block.id, VerifierPhase::Finished);
            Ok(())
        }
    }
}

} // verus!
