use vstd::prelude::*;
use crate::ast::{Block, Directive, ExprId, NodeId, drtv_wf, drtvs_wf};
use crate::semantics::{
    lemma_directive_evolves, lemma_directives_evolve, spec_verify_block,
    spec_verify_config_subdirective, spec_verify_directive, spec_verify_directives,
    spec_verify_import_directive,
};
use crate::subverifier::{
    ConstantValue, Diagnostic, DiagnosticKind, EvalOutcome, StateModel, VerifierPhase, phase_rank,
};

verus! {

// The guarantees the engine gives to its driver, stated over the
// specification functions of `semantics`. Because every executable function
// of `directive` is proved equal to those functions, each law holds of the
// executable engine as well.

/// Whether a directive kind carries a phase of its own (is gated on it).
pub open spec fn is_phased(d: Directive) -> bool {
    match d {
        Directive::Block(_) => true,
        Directive::ConfigurationDirective { .. } => true,
        Directive::ImportDirective { .. } => true,
        _ => false,
    }
}

/// The node handle a phased directive is gated on.
pub open spec fn phased_id(d: Directive) -> NodeId
    recommends
        is_phased(d),
{
    match d {
        Directive::Block(b) => b.id,
        Directive::ConfigurationDirective { id, .. } => id,
        Directive::ImportDirective { id, .. } => id,
        _ => 0,
    }
}

/// Idempotence: verifying an already-finished phased directive a second time
/// is a no-op — the state (scope stack, memo table, diagnostics, all of it)
/// is returned unchanged, and the verification succeeds.
pub proof fn lemma_finished_directive_is_noop(s: StateModel, d: Directive)
    requires
        is_phased(d),
        (phased_id(d) as nat) < s.node_states.len(),
        s.phase_of(phased_id(d)) == VerifierPhase::Finished,
    ensures
        spec_verify_directive(s, d) == (s, false),
{
    match d {
        Directive::Block(b) => {
            assert(s.lazy_init_phase(b.id) == (s, VerifierPhase::Finished));
            assert(spec_verify_block(s, b) == (s, false));
            assert(spec_verify_directive(s, d) == spec_verify_block(s, b));
        },
        Directive::ConfigurationDirective { id, directive } => {
            assert(s.lazy_init_phase(id) == (s, VerifierPhase::Finished));
        },
        Directive::ImportDirective { id, import } => {
            assert(s.lazy_init_phase(id) == (s, VerifierPhase::Finished));
        },
        _ => {},
    }
}

/// Idempotence of the standalone block verifier, used for blocks owned by
/// try/catch/finally and type-switch cases.
pub proof fn lemma_finished_block_is_noop(s: StateModel, b: Block)
    requires
        (b.id as nat) < s.node_states.len(),
        s.phase_of(b.id) == VerifierPhase::Finished,
    ensures
        spec_verify_block(s, b) == (s, false),
{
}

/// Scope pairing: for every directive verification the scope stack after the
/// call equals the stack before the call, whether the directive resolved or
/// deferred.
pub proof fn lemma_scope_stack_preserved(s: StateModel, d: Directive)
    requires
        s.wf(),
        drtv_wf(d, s.node_states.len(), s.expr_constants.len()),
    ensures
        spec_verify_directive(s, d).0.scope_stack == s.scope_stack,
{
    lemma_directive_evolves(s, d);
}

/// Scope pairing for the standalone block verifier.
pub proof fn lemma_scope_stack_preserved_block(s: StateModel, b: Block)
    requires
        s.wf(),
        crate::ast::block_wf(b, s.node_states.len(), s.expr_constants.len()),
    ensures
        spec_verify_block(s, b).0.scope_stack == s.scope_stack,
{
    crate::semantics::lemma_block_evolves(s, b);
}

/// Phase monotonicity: one pass never lowers the phase of any node.
pub proof fn lemma_phases_monotone(s: StateModel, d: Directive, id: NodeId)
    requires
        s.wf(),
        drtv_wf(d, s.node_states.len(), s.expr_constants.len()),
        (id as nat) < s.node_states.len(),
    ensures
        phase_rank(s.phase_of(id)) <= phase_rank(spec_verify_directive(s, d).0.phase_of(id)),
{
    lemma_directive_evolves(s, d);
    let s2 = spec_verify_directive(s, d).0;
    assert(crate::subverifier::phase_le(s.node_states[id as int].phase, s2.node_states[id as int].phase));
}

/// A phased directive that reports success is finished afterwards.
pub proof fn lemma_success_finishes(s: StateModel, d: Directive)
    requires
        s.wf(),
        drtv_wf(d, s.node_states.len(), s.expr_constants.len()),
        is_phased(d),
        !spec_verify_directive(s, d).1,
    ensures
        spec_verify_directive(s, d).0.phase_of(phased_id(d)) == VerifierPhase::Finished,
{
    match d {
        Directive::Block(b) => {
            assert(crate::ast::block_wf(b, s.node_states.len(), s.expr_constants.len()));
            assert((b.id as nat) < s.node_states.len());
            assert(spec_verify_directive(s, d) == spec_verify_block(s, b));
            let (s1, phase) = s.lazy_init_phase(b.id);
            crate::semantics::lemma_lazy_init_evolves(s, b.id);
            if phase == VerifierPhase::Finished {
                assert(s1.phase_of(b.id) == VerifierPhase::Finished);
            } else {
                let (s2, sid) = s1.ensure_scope(b.id);
                crate::semantics::lemma_ensure_scope_evolves(s1, b.id);
                let s3 = s2.enter_scope(sid);
                assert(s3.node_states == s2.node_states);
                let (s4, def) = spec_verify_directives(s3, b.directives@);
                assert(s3.wf()) by {
                    assert forall|i: int|
                        0 <= i < s3.node_states.len() implies crate::subverifier::node_state_wf(
                        #[trigger] s3.node_states[i],
                        s3.scope_parents.len(),
                    ) by {
                        assert(crate::subverifier::node_state_wf(
                            s2.node_states[i],
                            s2.scope_parents.len(),
                        ));
                    }
                    assert forall|i: int|
                        0 <= i < s3.scope_stack.len() implies (#[trigger] s3.scope_stack[i] as nat)
                        < s3.scope_parents.len() by {
                        if i < s2.scope_stack.len() {
                            assert(s3.scope_stack[i] == s2.scope_stack[i]);
                        } else {
                            assert(s3.scope_stack[i] == sid);
                        }
                    }
                }
                lemma_directives_evolve(s3, b.directives@);
                let s5 = s4.exit_scope();
                assert(!def);
                assert((b.id as nat) < s5.node_states.len());
                assert(spec_verify_block(s, b).0 == s5.with_phase(b.id, VerifierPhase::Finished));
            }
        },
        Directive::ConfigurationDirective { id, directive } => {
            let (s1, phase) = s.lazy_init_phase(id);
            crate::semantics::lemma_lazy_init_evolves(s, id);
            if phase == VerifierPhase::Finished {
                assert(s1.phase_of(id) == VerifierPhase::Finished);
            } else {
                let (s2, def) = spec_verify_config_subdirective(s1, *directive);
                crate::semantics::lemma_config_subdirective_evolves(s1, *directive);
                assert(!def);
                assert((id as nat) < s2.node_states.len());
            }
        },
        Directive::ImportDirective { id, import } => {
            let (s1, phase) = s.lazy_init_phase(id);
            crate::semantics::lemma_lazy_init_evolves(s, id);
            assert(phase != VerifierPhase::Unvisited);
            if phase == VerifierPhase::Finished {
                assert(s1.phase_of(id) == VerifierPhase::Finished);
            } else if import.alias is Some {
                let s2 = s1.ensure_alias_object(id);
                crate::semantics::lemma_ensure_alias_object_evolves(s1, id);
                assert((id as nat) < s2.node_states.len());
            } else {
                let s2 = s1.ensure_import_object(id, import);
                crate::semantics::lemma_ensure_import_object_evolves(s1, id, import);
                assert((id as nat) < s2.node_states.len());
            }
        },
        _ => {},
    }
}

/// Decomposing one pass over a list at an index: the pass equals the pass
/// over the prefix followed by the pass over the rest, and defers iff either
/// part deferred.
pub proof fn lemma_directives_split(s: StateModel, list: Seq<Directive>, i: int)
    requires
        0 <= i <= list.len(),
    ensures
        ({
            let (sp, dp) = spec_verify_directives(s, list.take(i));
            let (ss, ds) = spec_verify_directives(sp, list.skip(i));
            spec_verify_directives(s, list) == (ss, dp || ds)
        }),
    decreases i,
{
    if i == 0 {
        assert(list.take(0) =~= Seq::<Directive>::empty());
        assert(list.skip(0) =~= list);
    } else {
        let (s1, d1) = spec_verify_directive(s, list[0]);
        lemma_directives_split(s1, list.drop_first(), i - 1);
        assert(list.take(i)[0] == list[0]);
        assert(list.take(i).drop_first() =~= list.drop_first().take(i - 1));
        assert(list.skip(i) =~= list.drop_first().skip(i - 1));
    }
}

/// All siblings are visited: if element `i` of a list resolves from the
/// state the pass reaches it in, it is finished after the whole pass over
/// the list — whatever any other sibling (before or after it) did.
pub proof fn lemma_all_siblings_visited(s: StateModel, list: Seq<Directive>, i: int)
    requires
        s.wf(),
        drtvs_wf(list, s.node_states.len(), s.expr_constants.len()),
        0 <= i < list.len(),
        is_phased(list[i]),
        !spec_verify_directive(spec_verify_directives(s, list.take(i)).0, list[i]).1,
    ensures
        spec_verify_directives(s, list).0.phase_of(phased_id(list[i])) == VerifierPhase::Finished,
{
    let prefix = list.take(i);
    let rest = list.skip(i);
    assert(drtvs_wf(prefix, s.node_states.len(), s.expr_constants.len())) by {
        assert forall|j: int| 0 <= j < prefix.len() implies drtv_wf(
            #[trigger] prefix[j],
            s.node_states.len(),
            s.expr_constants.len(),
        ) by {
            assert(prefix[j] == list[j]);
        }
    }
    lemma_directives_split(s, list, i);
    let (sp, _) = spec_verify_directives(s, prefix);
    lemma_directives_evolve(s, prefix);
    assert(drtv_wf(list[i], sp.node_states.len(), sp.expr_constants.len()));
    assert(rest[0] == list[i]);
    let (si, di) = spec_verify_directive(sp, list[i]);
    lemma_success_finishes(sp, list[i]);
    lemma_directive_evolves(sp, list[i]);
    let tail = rest.drop_first();
    assert(drtvs_wf(tail, si.node_states.len(), si.expr_constants.len())) by {
        assert forall|j: int| 0 <= j < tail.len() implies drtv_wf(
            #[trigger] tail[j],
            si.node_states.len(),
            si.expr_constants.len(),
        ) by {
            assert(tail[j] == list[i + 1 + j]);
            assert(drtv_wf(list[i + 1 + j], s.node_states.len(), s.expr_constants.len()));
        }
    }
    lemma_directives_evolve(si, tail);
    let (sr, _) = spec_verify_directives(si, tail);
    let id = phased_id(list[i]);
    assert((id as nat) < s.node_states.len()) by {
        match list[i] {
            Directive::Block(b) => {},
            Directive::ConfigurationDirective { .. } => {},
            Directive::ImportDirective { .. } => {},
            _ => {},
        }
    }
    assert(phase_rank(si.phase_of(id)) <= phase_rank(sr.phase_of(id)));
    assert(spec_verify_directives(s, list).0 == sr);
}

/// Conditional exclusivity, true side: when the test of a configuration
/// `if` is the boolean constant `true`, the whole evaluation equals the
/// evaluation of the consequent alone — the alternative contributes nothing:
/// no scope is created for it, no diagnostic comes from it, no phase of any
/// of its nodes moves.
pub proof fn lemma_conditional_exclusivity_true(
    s: StateModel,
    test: ExprId,
    consequent: Box<Directive>,
    alternative: Option<Box<Directive>>,
)
    requires
        s.expr_constants[test as int] == EvalOutcome::Resolved(ConstantValue::Boolean(true)),
    ensures
        spec_verify_config_subdirective(
            s,
            Directive::IfStatement { test, consequent, alternative },
        ) == spec_verify_config_subdirective(s, *consequent),
{
}

/// Conditional exclusivity, false side: with a constant `false` test and an
/// alternative present, only the alternative is visited.
pub proof fn lemma_conditional_exclusivity_false(
    s: StateModel,
    test: ExprId,
    consequent: Box<Directive>,
    alternative: Box<Directive>,
)
    requires
        s.expr_constants[test as int] == EvalOutcome::Resolved(ConstantValue::Boolean(false)),
    ensures
        spec_verify_config_subdirective(
            s,
            Directive::IfStatement { test, consequent, alternative: Some(alternative) },
        ) == spec_verify_config_subdirective(s, *alternative),
{
}

/// A configuration test that evaluates to a non-boolean constant yields the
/// not-a-boolean-constant diagnostic exactly once, clears the test's
/// speculative annotation, changes nothing else, and resolves as empty
/// without deferring.
pub proof fn lemma_non_boolean_test(
    s: StateModel,
    test: ExprId,
    consequent: Box<Directive>,
    alternative: Option<Box<Directive>>,
)
    requires
        s.expr_constants[test as int] == EvalOutcome::Resolved(ConstantValue::NonBoolean),
    ensures
        ({
            let (s2, def) = spec_verify_config_subdirective(
                s,
                Directive::IfStatement { test, consequent, alternative },
            );
            &&& !def
            &&& s2.diagnostics == s.diagnostics.push(
                Diagnostic { kind: DiagnosticKind::NotABooleanConstant, location: test },
            )
            &&& s2.expr_annotations == s.expr_annotations.update(test as int, None)
            &&& s2.node_states == s.node_states
            &&& s2.scope_parents == s.scope_parents
            &&& s2.scope_stack == s.scope_stack
            &&& s2.open_imports == s.open_imports
            &&& s2.packages == s.packages
            &&& s2.unused == s.unused
        }),
{
}

/// Whether every element of a list is an import directive.
pub open spec fn all_imports(list: Seq<Directive>) -> bool {
    forall|i: int| 0 <= i < list.len() ==> (#[trigger] list[i]) is ImportDirective
}

/// After one pass over an import directive, its node is at least in the Beta
/// phase.
proof fn lemma_import_step_reaches_beta(s: StateModel, id: NodeId, import: crate::ast::ImportDirective)
    requires
        s.wf(),
        (id as nat) < s.node_states.len(),
    ensures
        phase_rank(spec_verify_import_directive(s, id, import).0.phase_of(id)) >= 2,
{
    let (s1, phase) = s.lazy_init_phase(id);
    assert(phase != VerifierPhase::Unvisited);
}

/// An import directive whose node is at least in the Beta phase finishes on
/// the next pass, without deferring.
proof fn lemma_import_step_finishes(s: StateModel, id: NodeId, import: crate::ast::ImportDirective)
    requires
        s.wf(),
        (id as nat) < s.node_states.len(),
        phase_rank(s.phase_of(id)) >= 2,
    ensures
        !spec_verify_import_directive(s, id, import).1,
        spec_verify_import_directive(s, id, import).0.phase_of(id) == VerifierPhase::Finished,
{
    let (s1, phase) = s.lazy_init_phase(id);
    assert(phase == s.phase_of(id));
}

/// After one pass over a list of import directives, every one of their nodes
/// is at least in the Beta phase.
proof fn lemma_import_pass_reaches_beta(s: StateModel, list: Seq<Directive>)
    requires
        s.wf(),
        drtvs_wf(list, s.node_states.len(), s.expr_constants.len()),
        all_imports(list),
    ensures
        forall|i: int|
            0 <= i < list.len() ==> phase_rank(
                spec_verify_directives(s, list).0.phase_of(phased_id(#[trigger] list[i])),
            ) >= 2,
    decreases list,
{
    if list.len() > 0 {
        let d0 = list[0];
        let (s1, _) = spec_verify_directive(s, d0);
        lemma_directive_evolves(s, d0);
        match d0 {
            Directive::ImportDirective { id, import } => {
                lemma_import_step_reaches_beta(s, id, import);
            },
            _ => {},
        }
        let tail = list.drop_first();
        assert(drtvs_wf(tail, s1.node_states.len(), s1.expr_constants.len())) by {
            assert forall|j: int| 0 <= j < tail.len() implies drtv_wf(
                #[trigger] tail[j],
                s1.node_states.len(),
                s1.expr_constants.len(),
            ) by {
                assert(tail[j] == list[j + 1]);
                assert(drtv_wf(list[j + 1], s.node_states.len(), s.expr_constants.len()));
            }
        }
        assert(all_imports(tail)) by {
            assert forall|j: int| 0 <= j < tail.len() implies (#[trigger] tail[j])
                is ImportDirective by {
                assert(tail[j] == list[j + 1]);
            }
        }
        lemma_import_pass_reaches_beta(s1, tail);
        let (s2, _) = spec_verify_directives(s1, tail);
        lemma_directives_evolve(s1, tail);
        assert forall|i: int| 0 <= i < list.len() implies phase_rank(
            s2.phase_of(phased_id(#[trigger] list[i])),
        ) >= 2 by {
            if i == 0 {
                let id = phased_id(d0);
                assert(phase_rank(s1.phase_of(id)) >= 2);
                assert(phase_rank(s1.phase_of(id)) <= phase_rank(s2.phase_of(id)));
            } else {
                assert(tail[i - 1] == list[i]);
            }
        }
    }
}

/// A pass over a list of import directives whose nodes are all at least in
/// the Beta phase finishes every one of them and reports no deferral.
proof fn lemma_import_pass_finishes(s: StateModel, list: Seq<Directive>)
    requires
        s.wf(),
        drtvs_wf(list, s.node_states.len(), s.expr_constants.len()),
        all_imports(list),
        forall|i: int|
            0 <= i < list.len() ==> phase_rank(s.phase_of(phased_id(#[trigger] list[i]))) >= 2,
    ensures
        !spec_verify_directives(s, list).1,
        forall|i: int|
            0 <= i < list.len() ==> spec_verify_directives(s, list).0.phase_of(
                phased_id(#[trigger] list[i]),
            ) == VerifierPhase::Finished,
    decreases list,
{
    if list.len() > 0 {
        let d0 = list[0];
        let (s1, d1) = spec_verify_directive(s, d0);
        lemma_directive_evolves(s, d0);
        match d0 {
            Directive::ImportDirective { id, import } => {
                lemma_import_step_finishes(s, id, import);
            },
            _ => {},
        }
        let tail = list.drop_first();
        assert(drtvs_wf(tail, s1.node_states.len(), s1.expr_constants.len())) by {
            assert forall|j: int| 0 <= j < tail.len() implies drtv_wf(
                #[trigger] tail[j],
                s1.node_states.len(),
                s1.expr_constants.len(),
            ) by {
                assert(tail[j] == list[j + 1]);
                assert(drtv_wf(list[j + 1], s.node_states.len(), s.expr_constants.len()));
            }
        }
        assert(all_imports(tail)) by {
            assert forall|j: int| 0 <= j < tail.len() implies (#[trigger] tail[j])
                is ImportDirective by {
                assert(tail[j] == list[j + 1]);
            }
        }
        assert forall|j: int| 0 <= j < tail.len() implies phase_rank(
            s1.phase_of(phased_id(#[trigger] tail[j])),
        ) >= 2 by {
            assert(tail[j] == list[j + 1]);
            let id = phased_id(list[j + 1]);
            assert((id as nat) < s.node_states.len()) by {
                assert(drtv_wf(list[j + 1], s.node_states.len(), s.expr_constants.len()));
            }
            assert(phase_rank(s.phase_of(id)) <= phase_rank(s1.phase_of(id)));
        }
        lemma_import_pass_finishes(s1, tail);
        let (s2, _) = spec_verify_directives(s1, tail);
        lemma_directives_evolve(s1, tail);
        assert forall|i: int| 0 <= i < list.len() implies s2.phase_of(
            phased_id(#[trigger] list[i]),
        ) == VerifierPhase::Finished by {
            if i == 0 {
                let id = phased_id(d0);
                assert(s1.phase_of(id) == VerifierPhase::Finished);
                assert(phase_rank(s1.phase_of(id)) <= phase_rank(s2.phase_of(id)));
            } else {
                assert(tail[i - 1] == list[i]);
            }
        }
    }
}

/// Fixpoint termination for import resolution: over a top-level list of
/// import directives — each of which needs exactly one prior pass to
/// resolve — two driver passes finish every one of them, and the second
/// pass already reports no deferral. Further passes are then no-ops by
/// idempotence.
pub proof fn lemma_import_fixpoint(s: StateModel, list: Seq<Directive>)
    requires
        s.wf(),
        drtvs_wf(list, s.node_states.len(), s.expr_constants.len()),
        all_imports(list),
    ensures
        ({
            let s1 = spec_verify_directives(s, list).0;
            let (s2, def2) = spec_verify_directives(s1, list);
            &&& !def2
            &&& forall|i: int|
                0 <= i < list.len() ==> s2.phase_of(phased_id(#[trigger] list[i]))
                    == VerifierPhase::Finished
        }),
{
    lemma_import_pass_reaches_beta(s, list);
    let s1 = spec_verify_directives(s, list).0;
    lemma_directives_evolve(s, list);
    assert(drtvs_wf(list, s1.node_states.len(), s1.expr_constants.len()));
    lemma_import_pass_finishes(s1, list);
}

} // verus!
