use vstd::prelude::*;
use crate::ast::{
    Block, CatchClause, Directive, ImportDirective, NodeId, SwitchCase, TypeCase, block_wf,
    catch_clauses_wf, drtv_wf, drtvs_wf, switch_cases_wf, type_cases_wf,
};
use crate::subverifier::{
    ConstantValue, DiagnosticKind, EvalOutcome, SemanticObject, StateModel, VerifierPhase,
    node_state_wf, phase_le,
};

verus! {

// The mathematical meaning of one verification pass: each function returns
// the state after the pass over its node together with whether that node
// (or a descendant) deferred. The executable engine is proved equal to these
// functions, so every law stated of them holds of the engine.

/// One pass of the directive verifier over a single directive.
pub open spec fn spec_verify_directive(s: StateModel, d: Directive) -> (StateModel, bool)
    decreases d,
{
    match d {
        Directive::Block(b) => spec_verify_block(s, b),
        Directive::LabeledStatement { substatement } => spec_verify_directive(s, *substatement),
        Directive::IfStatement { test: _, consequent, alternative } => {
            let (s1, d1) = spec_verify_directive(s, *consequent);
            match alternative {
                Some(alt) => {
                    let (s2, d2) = spec_verify_directive(s1, *alt);
                    (s2, d1 || d2)
                },
                None => (s1, d1),
            }
        },
        Directive::SwitchStatement { cases } => spec_verify_switch_cases(s, cases@),
        Directive::SwitchTypeStatement { type_cases } => spec_verify_type_cases(s, type_cases@),
        Directive::DoStatement { body } => spec_verify_directive(s, *body),
        Directive::WhileStatement { body } => spec_verify_directive(s, *body),
        Directive::ForStatement { id, body } => {
            let (s1, sid) = s.ensure_scope(id);
            let s2 = s1.enter_scope(sid);
            let (s3, def) = spec_verify_directive(s2, *body);
            (s3.exit_scope(), def)
        },
        Directive::ForInStatement { id, body } => {
            let (s1, sid) = s.ensure_scope(id);
            let s2 = s1.enter_scope(sid);
            let (s3, def) = spec_verify_directive(s2, *body);
            (s3.exit_scope(), def)
        },
        Directive::WithStatement { body } => spec_verify_directive(s, *body),
        Directive::TryStatement { block, catch_clauses, finally_clause } => {
            let (s1, d1) = spec_verify_block(s, block);
            let (s2, d2) = spec_verify_catch_clauses(s1, catch_clauses@);
            match finally_clause {
                Some(fb) => {
                    let (s3, d3) = spec_verify_block(s2, fb);
                    (s3, d1 || d2 || d3)
                },
                None => (s2, d1 || d2),
            }
        },
        Directive::ConfigurationDirective { id, directive } => {
            let (s1, phase) = s.lazy_init_phase(id);
            if phase == VerifierPhase::Finished {
                (s1, false)
            } else {
                let (s2, def) = spec_verify_config_subdirective(s1, *directive);
                if def {
                    (s2, true)
                } else {
                    (s2.with_phase(id, VerifierPhase::Finished), false)
                }
            }
        },
        Directive::ImportDirective { id, import } => spec_verify_import_directive(s, id, import),
        Directive::OtherStatement => (s, false),
    }
}

/// One pass over a directive list: every element is visited regardless of
/// earlier deferrals, and the list defers iff at least one element deferred.
pub open spec fn spec_verify_directives(s: StateModel, list: Seq<Directive>) -> (StateModel, bool)
    decreases list,
{
    if list.len() == 0 {
        (s, false)
    } else {
        let (s1, d1) = spec_verify_directive(s, list[0]);
        let (s2, d2) = spec_verify_directives(s1, list.drop_first());
        (s2, d1 || d2)
    }
}

pub open spec fn spec_verify_switch_cases(s: StateModel, cases: Seq<SwitchCase>) -> (StateModel, bool)
    decreases cases,
{
    if cases.len() == 0 {
        (s, false)
    } else {
        let (s1, d1) = spec_verify_directives(s, cases[0].directives@);
        let (s2, d2) = spec_verify_switch_cases(s1, cases.drop_first());
        (s2, d1 || d2)
    }
}

pub open spec fn spec_verify_type_cases(s: StateModel, cases: Seq<TypeCase>) -> (StateModel, bool)
    decreases cases,
{
    if cases.len() == 0 {
        (s, false)
    } else {
        let (s1, d1) = spec_verify_block(s, cases[0].block);
        let (s2, d2) = spec_verify_type_cases(s1, cases.drop_first());
        (s2, d1 || d2)
    }
}

pub open spec fn spec_verify_catch_clauses(s: StateModel, clauses: Seq<CatchClause>) -> (StateModel, bool)
    decreases clauses,
{
    if clauses.len() == 0 {
        (s, false)
    } else {
        let (s1, d1) = spec_verify_block(s, clauses[0].block);
        let (s2, d2) = spec_verify_catch_clauses(s1, clauses.drop_first());
        (s2, d1 || d2)
    }
}

/// One pass over a block: phase-gated, scoped, and the scope is exited even
/// on the deferral path so that the scope stack stays balanced.
pub open spec fn spec_verify_block(s: StateModel, b: Block) -> (StateModel, bool)
    decreases b,
{
    let (s1, phase) = s.lazy_init_phase(b.id);
    if phase == VerifierPhase::Finished {
        (s1, false)
    } else {
        let (s2, sid) = s1.ensure_scope(b.id);
        let s3 = s2.enter_scope(sid);
        let (s4, def) = spec_verify_directives(s3, b.directives@);
        let s5 = s4.exit_scope();
        if def {
            (s5, true)
        } else {
            (s5.with_phase(b.id, VerifierPhase::Finished), false)
        }
    }
}

/// One pass over the sub-directive of a configuration directive: the one
/// place where only the selected branch is ever visited.
pub open spec fn spec_verify_config_subdirective(s: StateModel, d: Directive) -> (StateModel, bool)
    decreases d,
{
    match d {
        Directive::Block(b) => spec_verify_directives(s, b.directives@),
        Directive::IfStatement { test, consequent, alternative } => {
            match s.expr_constants[test as int] {
                EvalOutcome::CycleFailure => (
                    s.add_diag(DiagnosticKind::ReachedMaximumCycles, test),
                    false,
                ),
                EvalOutcome::Unresolved => (s, true),
                EvalOutcome::Resolved(c) => match c {
                    ConstantValue::NonBoolean => (
                        s.clear_annotation(test).add_diag(DiagnosticKind::NotABooleanConstant, test),
                        false,
                    ),
                    ConstantValue::Boolean(bv) => if bv {
                        spec_verify_config_subdirective(s, *consequent)
                    } else {
                        match alternative {
                            Some(alt) => spec_verify_config_subdirective(s, *alt),
                            None => (s, false),
                        }
                    },
                },
            }
        },
        _ => (s, false),
    }
}

/// One pass over an aliased import directive: the two-phase envelope, with
/// the alias target's binding algorithm left to a later stage.
pub open spec fn spec_verify_import_alias(s: StateModel, id: NodeId, import: ImportDirective) -> (StateModel, bool) {
    let (s1, phase) = s.lazy_init_phase(id);
    if phase == VerifierPhase::Finished {
        (s1, false)
    } else {
        let s2 = s1.ensure_alias_object(id);
        if phase == VerifierPhase::Alpha {
            (s2.mark_unused(id).with_phase(id, VerifierPhase::Beta), true)
        } else if phase == VerifierPhase::Beta {
            (s2.with_phase(id, VerifierPhase::Finished), false)
        } else {
            (s2, false)
        }
    }
}

/// One pass over an import directive: phase-gated with two live phases.
/// Alpha registers the binding (unused-candidate, open-import contribution)
/// and defers; Beta reports empty wildcard/recursive package imports and
/// finishes.
pub open spec fn spec_verify_import_directive(s: StateModel, id: NodeId, import: ImportDirective) -> (StateModel, bool) {
    let (s1, phase) = s.lazy_init_phase(id);
    if phase == VerifierPhase::Finished {
        (s1, false)
    } else if import.alias is Some {
        spec_verify_import_alias(s1, id, import)
    } else {
        let s2 = s1.ensure_import_object(id, import);
        if phase == VerifierPhase::Alpha {
            (s2.mark_unused(id).contribute_open_import(id).with_phase(id, VerifierPhase::Beta), true)
        } else if phase == VerifierPhase::Beta {
            let warn = !(import.import_specifier is Identifier) && s2.package_is_empty(
                import.package_name@,
            );
            let s3 = if warn {
                s2.add_diag(DiagnosticKind::EmptyPackageImport, id)
            } else {
                s2
            };
            (s3.with_phase(id, VerifierPhase::Finished), false)
        } else {
            (s2, false)
        }
    }
}

/// How the state after any engine step relates to the state before it: the
/// scope stack is restored, phases only advance, memoized objects are never
/// replaced, the diagnostic log only grows, the read-only tables stay, and
/// well-formedness is preserved.
pub open spec fn evolves(s: StateModel, s2: StateModel) -> bool {
    &&& s2.node_states.len() == s.node_states.len()
    &&& s2.scope_parents.len() >= s.scope_parents.len()
    &&& s2.scope_stack == s.scope_stack
    &&& s2.expr_constants == s.expr_constants
    &&& s2.expr_annotations.len() == s.expr_annotations.len()
    &&& s2.nonempty_packages == s.nonempty_packages
    &&& s2.warn_unused == s.warn_unused
    &&& (forall|i: int|
        0 <= i < s.node_states.len() ==> phase_le(
            (#[trigger] s.node_states[i]).phase,
            s2.node_states[i].phase,
        ))
    &&& (forall|i: int|
        0 <= i < s.node_states.len() && (#[trigger] s.node_states[i]).object is Some
            ==> s2.node_states[i].object == s.node_states[i].object)
    &&& s2.diagnostics.len() >= s.diagnostics.len()
    &&& s2.diagnostics.take(s.diagnostics.len() as int) == s.diagnostics
    &&& (s.wf() ==> s2.wf())
}

pub proof fn lemma_evolves_refl(s: StateModel)
    ensures
        evolves(s, s),
{
    assert(s.diagnostics.take(s.diagnostics.len() as int) =~= s.diagnostics);
}

pub proof fn lemma_evolves_trans(s0: StateModel, s1: StateModel, s2: StateModel)
    requires
        evolves(s0, s1),
        evolves(s1, s2),
    ensures
        evolves(s0, s2),
{
    assert forall|i: int|
        0 <= i < s0.node_states.len() implies phase_le(
        (#[trigger] s0.node_states[i]).phase,
        s2.node_states[i].phase,
    ) by {
        assert(phase_le(s0.node_states[i].phase, s1.node_states[i].phase));
        assert(phase_le(s1.node_states[i].phase, s2.node_states[i].phase));
    }
    assert forall|i: int|
        0 <= i < s0.node_states.len() && (#[trigger] s0.node_states[i]).object is Some implies s2.node_states[i].object
        == s0.node_states[i].object by {
        assert(s1.node_states[i].object == s0.node_states[i].object);
    }
    assert(s2.diagnostics.take(s0.diagnostics.len() as int) =~= s0.diagnostics) by {
        assert forall|i: int| 0 <= i < s0.diagnostics.len() implies s2.diagnostics[i]
            == s0.diagnostics[i] by {
            assert(s1.diagnostics[i] == s1.diagnostics.take(s0.diagnostics.len() as int)[i]);
            assert(s2.diagnostics[i] == s2.diagnostics.take(s1.diagnostics.len() as int)[i]);
        }
    }
}

/// Promoting a node's phase preserves the engine invariants whenever the new
/// phase is no lower than the old one.
pub proof fn lemma_with_phase_evolves(s: StateModel, id: NodeId, p: VerifierPhase)
    requires
        (id as nat) < s.node_states.len(),
        phase_le(s.phase_of(id), p),
    ensures
        evolves(s, s.with_phase(id, p)),
{
    let s2 = s.with_phase(id, p);
    assert(s2.diagnostics.take(s.diagnostics.len() as int) =~= s.diagnostics);
    assert(s.wf() ==> s2.wf()) by {
        if s.wf() {
            assert forall|i: int|
                0 <= i < s2.node_states.len() implies node_state_wf(
                #[trigger] s2.node_states[i],
                s2.scope_parents.len(),
            ) by {
                assert(node_state_wf(s.node_states[i], s.scope_parents.len()));
            }
        }
    }
}

pub proof fn lemma_lazy_init_evolves(s: StateModel, id: NodeId)
    requires
        (id as nat) < s.node_states.len(),
    ensures
        evolves(s, s.lazy_init_phase(id).0),
        s.lazy_init_phase(id).1 != VerifierPhase::Unvisited,
        s.lazy_init_phase(id).0.phase_of(id) == s.lazy_init_phase(id).1,
        phase_le(s.phase_of(id), s.lazy_init_phase(id).1),
{
    if s.phase_of(id) == VerifierPhase::Unvisited {
        lemma_with_phase_evolves(s, id, VerifierPhase::Alpha);
    } else {
        lemma_evolves_refl(s);
    }
}

pub proof fn lemma_ensure_scope_evolves(s: StateModel, id: NodeId)
    requires
        s.wf(),
        (id as nat) < s.node_states.len(),
    ensures
        evolves(s, s.ensure_scope(id).0),
        (s.ensure_scope(id).1 as nat) < s.ensure_scope(id).0.scope_parents.len(),
        s.ensure_scope(id).0.phase_of(id) == s.phase_of(id),
{
    let (s2, sid) = s.ensure_scope(id);
    match s.object_of(id) {
        Some(SemanticObject::Scope(_)) => {
            lemma_evolves_refl(s);
        },
        _ => {
            assert(s2.diagnostics.take(s.diagnostics.len() as int) =~= s.diagnostics);
            assert(s2.wf()) by {
                assert forall|i: int|
                    0 <= i < s2.node_states.len() implies node_state_wf(
                    #[trigger] s2.node_states[i],
                    s2.scope_parents.len(),
                ) by {
                    assert(node_state_wf(s.node_states[i], s.scope_parents.len()));
                }
                assert forall|i: int|
                    0 <= i < s2.scope_stack.len() implies (#[trigger] s2.scope_stack[i] as nat)
                    < s2.scope_parents.len() by {
                    assert((s.scope_stack[i] as nat) < s.scope_parents.len());
                }
            }
        },
    }
}

/// Entering and later exiting a scope around a subtree whose verification
/// itself preserves the invariants preserves them as a whole, and restores
/// the scope stack exactly.
pub proof fn lemma_scoped_evolves(s: StateModel, s1: StateModel, sid: usize, s3: StateModel)
    requires
        s.wf(),
        evolves(s, s1),
        (sid as nat) < s1.scope_parents.len(),
        evolves(s1.enter_scope(sid), s3),
    ensures
        evolves(s, s3.exit_scope()),
{
    let s2 = s1.enter_scope(sid);
    let s4 = s3.exit_scope();
    assert(s2.wf()) by {
        assert forall|i: int|
            0 <= i < s2.node_states.len() implies node_state_wf(
            #[trigger] s2.node_states[i],
            s2.scope_parents.len(),
        ) by {
            assert(node_state_wf(s1.node_states[i], s1.scope_parents.len()));
        }
        assert forall|i: int|
            0 <= i < s2.scope_stack.len() implies (#[trigger] s2.scope_stack[i] as nat)
            < s2.scope_parents.len() by {
            if i < s1.scope_stack.len() {
                assert(s2.scope_stack[i] == s1.scope_stack[i]);
            } else {
                assert(s2.scope_stack[i] == sid);
            }
        }
    }
    assert(s3.scope_stack == s2.scope_stack);
    assert(s4.scope_stack =~= s.scope_stack) by {
        assert(s2.scope_stack =~= s1.scope_stack.push(sid));
        assert(s1.scope_stack.push(sid).drop_last() =~= s1.scope_stack);
    }
    assert(s4.wf()) by {
        assert(s3.wf());
        assert forall|i: int|
            0 <= i < s4.scope_stack.len() implies (#[trigger] s4.scope_stack[i] as nat)
            < s4.scope_parents.len() by {
            assert(s4.scope_stack[i] == s3.scope_stack[i]);
        }
    }
    // phases and memo slots compose across entry, subtree, and exit
    assert forall|i: int|
        0 <= i < s.node_states.len() implies phase_le(
        (#[trigger] s.node_states[i]).phase,
        s4.node_states[i].phase,
    ) by {
        assert(phase_le(s.node_states[i].phase, s1.node_states[i].phase));
        assert(s2.node_states[i] == s1.node_states[i]);
        assert(phase_le(s2.node_states[i].phase, s3.node_states[i].phase));
        assert(s4.node_states[i] == s3.node_states[i]);
    }
    assert forall|i: int|
        0 <= i < s.node_states.len() && (#[trigger] s.node_states[i]).object is Some implies s4.node_states[i].object
        == s.node_states[i].object by {
        assert(s1.node_states[i].object == s.node_states[i].object);
        assert(s2.node_states[i] == s1.node_states[i]);
        assert(s3.node_states[i].object == s2.node_states[i].object);
    }
    assert(s4.diagnostics.take(s.diagnostics.len() as int) =~= s.diagnostics) by {
        assert forall|i: int| 0 <= i < s.diagnostics.len() implies s4.diagnostics[i]
            == s.diagnostics[i] by {
            assert(s1.diagnostics[i] == s1.diagnostics.take(s.diagnostics.len() as int)[i]);
            assert(s3.diagnostics[i] == s3.diagnostics.take(s2.diagnostics.len() as int)[i]);
        }
    }
}

pub proof fn lemma_add_diag_evolves(s: StateModel, kind: DiagnosticKind, location: usize)
    ensures
        evolves(s, s.add_diag(kind, location)),
{
    let s2 = s.add_diag(kind, location);
    assert(s2.diagnostics.take(s.diagnostics.len() as int) =~= s.diagnostics);
}

pub proof fn lemma_mark_unused_evolves(s: StateModel, id: NodeId)
    ensures
        evolves(s, s.mark_unused(id)),
        s.mark_unused(id).node_states == s.node_states,
{
    assert(s.mark_unused(id).diagnostics.take(s.diagnostics.len() as int) =~= s.diagnostics);
}

pub proof fn lemma_contribute_evolves(s: StateModel, id: NodeId)
    ensures
        evolves(s, s.contribute_open_import(id)),
        s.contribute_open_import(id).node_states == s.node_states,
{
    assert(s.contribute_open_import(id).diagnostics.take(s.diagnostics.len() as int)
        =~= s.diagnostics);
}

pub proof fn lemma_clear_annotation_evolves(s: StateModel, e: usize)
    requires
        (e as nat) < s.expr_annotations.len(),
    ensures
        evolves(s, s.clear_annotation(e)),
{
    assert(s.clear_annotation(e).diagnostics.take(s.diagnostics.len() as int) =~= s.diagnostics);
}

pub proof fn lemma_ensure_import_object_evolves(s: StateModel, id: NodeId, import: ImportDirective)
    requires
        (id as nat) < s.node_states.len(),
    ensures
        evolves(s, s.ensure_import_object(id, import)),
        s.ensure_import_object(id, import).phase_of(id) == s.phase_of(id),
{
    let s2 = s.ensure_import_object(id, import);
    assert(s2.diagnostics.take(s.diagnostics.len() as int) =~= s.diagnostics);
    assert(s.wf() ==> s2.wf()) by {
        if s.wf() {
            assert forall|i: int|
                0 <= i < s2.node_states.len() implies node_state_wf(
                #[trigger] s2.node_states[i],
                s2.scope_parents.len(),
            ) by {
                assert(node_state_wf(s.node_states[i], s.scope_parents.len()));
            }
        }
    }
}

pub proof fn lemma_ensure_alias_object_evolves(s: StateModel, id: NodeId)
    requires
        (id as nat) < s.node_states.len(),
    ensures
        evolves(s, s.ensure_alias_object(id)),
        s.ensure_alias_object(id).phase_of(id) == s.phase_of(id),
{
    let s2 = s.ensure_alias_object(id);
    assert(s2.diagnostics.take(s.diagnostics.len() as int) =~= s.diagnostics);
    assert(s.wf() ==> s2.wf()) by {
        if s.wf() {
            assert forall|i: int|
                0 <= i < s2.node_states.len() implies node_state_wf(
                #[trigger] s2.node_states[i],
                s2.scope_parents.len(),
            ) by {
                assert(node_state_wf(s.node_states[i], s.scope_parents.len()));
            }
        }
    }
}

pub proof fn lemma_import_directive_evolves(s: StateModel, id: NodeId, import: ImportDirective)
    requires
        s.wf(),
        (id as nat) < s.node_states.len(),
    ensures
        evolves(s, spec_verify_import_directive(s, id, import).0),
{
    let (s1, phase) = s.lazy_init_phase(id);
    lemma_lazy_init_evolves(s, id);
    if phase == VerifierPhase::Finished {
    } else if import.alias is Some {
        let s2 = s1.ensure_alias_object(id);
        lemma_ensure_alias_object_evolves(s1, id);
        lemma_evolves_trans(s, s1, s2);
        if phase == VerifierPhase::Alpha {
            let s3 = s2.mark_unused(id);
            lemma_mark_unused_evolves(s2, id);
            lemma_evolves_trans(s, s2, s3);
            lemma_with_phase_evolves(s3, id, VerifierPhase::Beta);
            lemma_evolves_trans(s, s3, s3.with_phase(id, VerifierPhase::Beta));
        } else if phase == VerifierPhase::Beta {
            lemma_with_phase_evolves(s2, id, VerifierPhase::Finished);
            lemma_evolves_trans(s, s2, s2.with_phase(id, VerifierPhase::Finished));
        }
    } else {
        let s2 = s1.ensure_import_object(id, import);
        lemma_ensure_import_object_evolves(s1, id, import);
        lemma_evolves_trans(s, s1, s2);
        if phase == VerifierPhase::Alpha {
            let s3 = s2.mark_unused(id);
            let s4 = s3.contribute_open_import(id);
            lemma_mark_unused_evolves(s2, id);
            lemma_evolves_trans(s, s2, s3);
            lemma_contribute_evolves(s3, id);
            lemma_evolves_trans(s, s3, s4);
            lemma_with_phase_evolves(s4, id, VerifierPhase::Beta);
            lemma_evolves_trans(s, s4, s4.with_phase(id, VerifierPhase::Beta));
        } else if phase == VerifierPhase::Beta {
            let warn = !(import.import_specifier is Identifier) && s2.package_is_empty(
                import.package_name@,
            );
            let s3 = if warn {
                s2.add_diag(DiagnosticKind::EmptyPackageImport, id)
            } else {
                s2
            };
            if warn {
                lemma_add_diag_evolves(s2, DiagnosticKind::EmptyPackageImport, id);
            } else {
                lemma_evolves_refl(s2);
            }
            lemma_evolves_trans(s, s2, s3);
            lemma_with_phase_evolves(s3, id, VerifierPhase::Finished);
            lemma_evolves_trans(s, s3, s3.with_phase(id, VerifierPhase::Finished));
        }
    }
}

pub proof fn lemma_config_subdirective_evolves(s: StateModel, d: Directive)
    requires
        s.wf(),
        drtv_wf(d, s.node_states.len(), s.expr_constants.len()),
    ensures
        evolves(s, spec_verify_config_subdirective(s, d).0),
    decreases d,
{
    match d {
        Directive::Block(b) => {
            assert(block_wf(b, s.node_states.len(), s.expr_constants.len()));
            lemma_directives_evolve(s, b.directives@);
        },
        Directive::IfStatement { test, consequent, alternative } => {
            match s.expr_constants[test as int] {
                EvalOutcome::CycleFailure => {
                    lemma_add_diag_evolves(s, DiagnosticKind::ReachedMaximumCycles, test);
                },
                EvalOutcome::Unresolved => {
                    lemma_evolves_refl(s);
                },
                EvalOutcome::Resolved(c) => match c {
                    ConstantValue::NonBoolean => {
                        let s1 = s.clear_annotation(test);
                        lemma_clear_annotation_evolves(s, test);
                        lemma_add_diag_evolves(s1, DiagnosticKind::NotABooleanConstant, test);
                        lemma_evolves_trans(
                            s,
                            s1,
                            s1.add_diag(DiagnosticKind::NotABooleanConstant, test),
                        );
                    },
                    ConstantValue::Boolean(bv) => if bv {
                        lemma_config_subdirective_evolves(s, *consequent);
                    } else {
                        match alternative {
                            Some(alt) => {
                                lemma_config_subdirective_evolves(s, *alt);
                            },
                            None => {
                                lemma_evolves_refl(s);
                            },
                        }
                    },
                },
            }
        },
        _ => {
            lemma_evolves_refl(s);
        },
    }
}

pub proof fn lemma_block_evolves(s: StateModel, b: Block)
    requires
        s.wf(),
        block_wf(b, s.node_states.len(), s.expr_constants.len()),
    ensures
        evolves(s, spec_verify_block(s, b).0),
    decreases b,
{
    let (s1, phase) = s.lazy_init_phase(b.id);
    lemma_lazy_init_evolves(s, b.id);
    if phase == VerifierPhase::Finished {
    } else {
        let (s2, sid) = s1.ensure_scope(b.id);
        lemma_ensure_scope_evolves(s1, b.id);
        lemma_evolves_trans(s, s1, s2);
        let s3 = s2.enter_scope(sid);
        let (s4, def) = spec_verify_directives(s3, b.directives@);
        assert(s3.wf()) by {
            assert(evolves(s, s2));
            assert(s2.wf());
            assert forall|i: int|
                0 <= i < s3.node_states.len() implies node_state_wf(
                #[trigger] s3.node_states[i],
                s3.scope_parents.len(),
            ) by {
                assert(node_state_wf(s2.node_states[i], s2.scope_parents.len()));
            }
            assert forall|i: int|
                0 <= i < s3.scope_stack.len() implies (#[trigger] s3.scope_stack[i] as nat)
                < s3.scope_parents.len() by {
                if i < s2.scope_stack.len() {
                    assert(s3.scope_stack[i] == s2.scope_stack[i]);
                } else {
                    assert(s3.scope_stack[i] == sid);
                }
            }
        }
        assert(drtvs_wf(b.directives@, s3.node_states.len(), s3.expr_constants.len()));
        lemma_directives_evolve(s3, b.directives@);
        lemma_scoped_evolves(s, s2, sid, s4);
        let s5 = s4.exit_scope();
        if def {
        } else {
            assert((b.id as nat) < s5.node_states.len());
            lemma_with_phase_evolves(s5, b.id, VerifierPhase::Finished);
            lemma_evolves_trans(s, s5, s5.with_phase(b.id, VerifierPhase::Finished));
        }
    }
}

pub proof fn lemma_directive_evolves(s: StateModel, d: Directive)
    requires
        s.wf(),
        drtv_wf(d, s.node_states.len(), s.expr_constants.len()),
    ensures
        evolves(s, spec_verify_directive(s, d).0),
    decreases d,
{
    match d {
        Directive::Block(b) => {
            lemma_block_evolves(s, b);
        },
        Directive::LabeledStatement { substatement } => {
            lemma_directive_evolves(s, *substatement);
        },
        Directive::IfStatement { test: _, consequent, alternative } => {
            let (s1, _) = spec_verify_directive(s, *consequent);
            lemma_directive_evolves(s, *consequent);
            match alternative {
                Some(alt) => {
                    lemma_directive_evolves(s1, *alt);
                    lemma_evolves_trans(s, s1, spec_verify_directive(s1, *alt).0);
                },
                None => {},
            }
        },
        Directive::SwitchStatement { cases } => {
            lemma_switch_cases_evolve(s, cases@);
        },
        Directive::SwitchTypeStatement { type_cases } => {
            lemma_type_cases_evolve(s, type_cases@);
        },
        Directive::DoStatement { body } => {
            lemma_directive_evolves(s, *body);
        },
        Directive::WhileStatement { body } => {
            lemma_directive_evolves(s, *body);
        },
        Directive::ForStatement { id, body } => {
            let (s1, sid) = s.ensure_scope(id);
            lemma_ensure_scope_evolves(s, id);
            let s2 = s1.enter_scope(sid);
            assert(s2.wf()) by {
                assert(s1.wf());
                assert forall|i: int|
                    0 <= i < s2.node_states.len() implies node_state_wf(
                    #[trigger] s2.node_states[i],
                    s2.scope_parents.len(),
                ) by {
                    assert(node_state_wf(s1.node_states[i], s1.scope_parents.len()));
                }
                assert forall|i: int|
                    0 <= i < s2.scope_stack.len() implies (#[trigger] s2.scope_stack[i] as nat)
                    < s2.scope_parents.len() by {
                    if i < s1.scope_stack.len() {
                        assert(s2.scope_stack[i] == s1.scope_stack[i]);
                    } else {
                        assert(s2.scope_stack[i] == sid);
                    }
                }
            }
            lemma_directive_evolves(s2, *body);
            lemma_scoped_evolves(s, s1, sid, spec_verify_directive(s2, *body).0);
        },
        Directive::ForInStatement { id, body } => {
            let (s1, sid) = s.ensure_scope(id);
            lemma_ensure_scope_evolves(s, id);
            let s2 = s1.enter_scope(sid);
            assert(s2.wf()) by {
                assert(s1.wf());
                assert forall|i: int|
                    0 <= i < s2.node_states.len() implies node_state_wf(
                    #[trigger] s2.node_states[i],
                    s2.scope_parents.len(),
                ) by {
                    assert(node_state_wf(s1.node_states[i], s1.scope_parents.len()));
                }
                assert forall|i: int|
                    0 <= i < s2.scope_stack.len() implies (#[trigger] s2.scope_stack[i] as nat)
                    < s2.scope_parents.len() by {
                    if i < s1.scope_stack.len() {
                        assert(s2.scope_stack[i] == s1.scope_stack[i]);
                    } else {
                        assert(s2.scope_stack[i] == sid);
                    }
                }
            }
            lemma_directive_evolves(s2, *body);
            lemma_scoped_evolves(s, s1, sid, spec_verify_directive(s2, *body).0);
        },
        Directive::WithStatement { body } => {
            lemma_directive_evolves(s, *body);
        },
        Directive::TryStatement { block, catch_clauses, finally_clause } => {
            let (s1, _) = spec_verify_block(s, block);
            lemma_block_evolves(s, block);
            let (s2, _) = spec_verify_catch_clauses(s1, catch_clauses@);
            lemma_catch_clauses_evolve(s1, catch_clauses@);
            lemma_evolves_trans(s, s1, s2);
            match finally_clause {
                Some(fb) => {
                    lemma_block_evolves(s2, fb);
                    lemma_evolves_trans(s, s2, spec_verify_block(s2, fb).0);
                },
                None => {},
            }
        },
        Directive::ConfigurationDirective { id, directive } => {
            let (s1, phase) = s.lazy_init_phase(id);
            lemma_lazy_init_evolves(s, id);
            if phase == VerifierPhase::Finished {
            } else {
                let (s2, def) = spec_verify_config_subdirective(s1, *directive);
                lemma_config_subdirective_evolves(s1, *directive);
                lemma_evolves_trans(s, s1, s2);
                if def {
                } else {
                    lemma_with_phase_evolves(s2, id, VerifierPhase::Finished);
                    lemma_evolves_trans(s, s2, s2.with_phase(id, VerifierPhase::Finished));
                }
            }
        },
        Directive::ImportDirective { id, import } => {
            lemma_import_directive_evolves(s, id, import);
        },
        Directive::OtherStatement => {
            lemma_evolves_refl(s);
        },
    }
}

pub proof fn lemma_directives_evolve(s: StateModel, list: Seq<Directive>)
    requires
        s.wf(),
        drtvs_wf(list, s.node_states.len(), s.expr_constants.len()),
    ensures
        evolves(s, spec_verify_directives(s, list).0),
    decreases list,
{
    if list.len() == 0 {
        lemma_evolves_refl(s);
    } else {
        let (s1, _) = spec_verify_directive(s, list[0]);
        lemma_directive_evolves(s, list[0]);
        assert(drtvs_wf(list.drop_first(), s1.node_states.len(), s1.expr_constants.len())) by {
            assert forall|i: int| 0 <= i < list.drop_first().len() implies drtv_wf(
                #[trigger] list.drop_first()[i],
                s1.node_states.len(),
                s1.expr_constants.len(),
            ) by {
                assert(list.drop_first()[i] == list[i + 1]);
                assert(drtv_wf(list[i + 1], s.node_states.len(), s.expr_constants.len()));
            }
        }
        lemma_directives_evolve(s1, list.drop_first());
        lemma_evolves_trans(s, s1, spec_verify_directives(s1, list.drop_first()).0);
    }
}

pub proof fn lemma_switch_cases_evolve(s: StateModel, cases: Seq<SwitchCase>)
    requires
        s.wf(),
        switch_cases_wf(cases, s.node_states.len(), s.expr_constants.len()),
    ensures
        evolves(s, spec_verify_switch_cases(s, cases).0),
    decreases cases,
{
    if cases.len() == 0 {
        lemma_evolves_refl(s);
    } else {
        let (s1, _) = spec_verify_directives(s, cases[0].directives@);
        lemma_directives_evolve(s, cases[0].directives@);
        assert(switch_cases_wf(cases.drop_first(), s1.node_states.len(), s1.expr_constants.len()))
            by {
            assert forall|i: int| 0 <= i < cases.drop_first().len() implies drtvs_wf(
                (#[trigger] cases.drop_first()[i]).directives@,
                s1.node_states.len(),
                s1.expr_constants.len(),
            ) by {
                assert(cases.drop_first()[i] == cases[i + 1]);
                assert(drtvs_wf(
                    cases[i + 1].directives@,
                    s.node_states.len(),
                    s.expr_constants.len(),
                ));
            }
        }
        lemma_switch_cases_evolve(s1, cases.drop_first());
        lemma_evolves_trans(s, s1, spec_verify_switch_cases(s1, cases.drop_first()).0);
    }
}

pub proof fn lemma_type_cases_evolve(s: StateModel, cases: Seq<TypeCase>)
    requires
        s.wf(),
        type_cases_wf(cases, s.node_states.len(), s.expr_constants.len()),
    ensures
        evolves(s, spec_verify_type_cases(s, cases).0),
    decreases cases,
{
    if cases.len() == 0 {
        lemma_evolves_refl(s);
    } else {
        let (s1, _) = spec_verify_block(s, cases[0].block);
        lemma_block_evolves(s, cases[0].block);
        assert(type_cases_wf(cases.drop_first(), s1.node_states.len(), s1.expr_constants.len()))
            by {
            assert forall|i: int| 0 <= i < cases.drop_first().len() implies block_wf(
                (#[trigger] cases.drop_first()[i]).block,
                s1.node_states.len(),
                s1.expr_constants.len(),
            ) by {
                assert(cases.drop_first()[i] == cases[i + 1]);
                assert(block_wf(cases[i + 1].block, s.node_states.len(), s.expr_constants.len()));
            }
        }
        lemma_type_cases_evolve(s1, cases.drop_first());
        lemma_evolves_trans(s, s1, spec_verify_type_cases(s1, cases.drop_first()).0);
    }
}

pub proof fn lemma_catch_clauses_evolve(s: StateModel, clauses: Seq<CatchClause>)
    requires
        s.wf(),
        catch_clauses_wf(clauses, s.node_states.len(), s.expr_constants.len()),
    ensures
        evolves(s, spec_verify_catch_clauses(s, clauses).0),
    decreases clauses,
{
    if clauses.len() == 0 {
        lemma_evolves_refl(s);
    } else {
        let (s1, _) = spec_verify_block(s, clauses[0].block);
        lemma_block_evolves(s, clauses[0].block);
        assert(catch_clauses_wf(clauses.drop_first(), s1.node_states.len(), s1.expr_constants.len()))
            by {
            assert forall|i: int| 0 <= i < clauses.drop_first().len() implies block_wf(
                (#[trigger] clauses.drop_first()[i]).block,
                s1.node_states.len(),
                s1.expr_constants.len(),
            ) by {
                assert(clauses.drop_first()[i] == clauses[i + 1]);
                assert(block_wf(clauses[i + 1].block, s.node_states.len(), s.expr_constants.len()));
            }
        }
        lemma_catch_clauses_evolve(s1, clauses.drop_first());
        lemma_evolves_trans(s, s1, spec_verify_catch_clauses(s1, clauses.drop_first()).0);
    }
}

} // verus!
