use vstd::prelude::*;
use crate::ast::{ImportDirective, ImportSpecifier, NameId, NodeId, ExprId};
use crate::compiler_options::CompilerOptions;

verus! {

/// Per-node resolution progress. A node that was never visited has no phase
/// yet; the first visit promotes it to `Alpha`. The phase of a node is
/// monotonically non-decreasing across driver passes, and `Finished` is
/// terminal.
#[derive(Clone, Copy, PartialEq, Eq, Structural, Debug)]
pub enum VerifierPhase {
    Unvisited,
    Alpha,
    Beta,
    Finished,
}

/// Numeric rank of a phase, used to state monotonicity.
pub open spec fn phase_rank(p: VerifierPhase) -> int {
    match p {
        VerifierPhase::Unvisited => 0,
        VerifierPhase::Alpha => 1,
        VerifierPhase::Beta => 2,
        VerifierPhase::Finished => 3,
    }
}

pub open spec fn phase_le(a: VerifierPhase, b: VerifierPhase) -> bool {
    phase_rank(a) <= phase_rank(b)
}

/// The semantic object lazily materialized for an import directive.
#[derive(Clone, Copy, PartialEq, Eq, Structural, Debug)]
pub enum ImportObject {
    /// An initially unresolved single-definition import; its actual
    /// resolution belongs to a later stage of the Beta-phase contract.
    Identifier,
    /// A package-level open import.
    Wildcard,
    /// A whole-subtree package import, holding the handle of the package
    /// object obtained from the package factory.
    Recursive(usize),
    /// An aliased import; the alias target resolves through its own path.
    Alias,
}

/// What the node-to-semantic-object memo table maps a node to: the scope
/// created for a scope-introducing node, or the import object of an import
/// directive. Each slot is written at most once.
#[derive(Clone, Copy, PartialEq, Eq, Structural, Debug)]
pub enum SemanticObject {
    Scope(usize),
    Import(ImportObject),
}

/// The memo record of one AST node: its phase and its mapped object.
#[derive(Clone, Copy, PartialEq, Eq, Structural, Debug)]
pub struct NodeState {
    pub phase: VerifierPhase,
    pub object: Option<SemanticObject>,
}

/// A compile-time constant, as far as conditional compilation reads it: a
/// boolean, or a constant of any non-boolean kind.
#[derive(Clone, Copy, PartialEq, Eq, Structural, Debug)]
pub enum ConstantValue {
    Boolean(bool),
    NonBoolean,
}

/// What the external constant evaluator answers for one test expression.
#[derive(Clone, Copy, PartialEq, Eq, Structural, Debug)]
pub enum EvalOutcome {
    /// The evaluator gave up after its maximum number of cycles.
    CycleFailure,
    /// No value yet: a dependency is not ready, try a later pass.
    Unresolved,
    /// A constant value.
    Resolved(ConstantValue),
}

/// A user-facing diagnostic kind emitted by this engine.
#[derive(Clone, Copy, PartialEq, Eq, Structural, Debug)]
pub enum DiagnosticKind {
    ReachedMaximumCycles,
    NotABooleanConstant,
    EmptyPackageImport,
}

/// A recorded diagnostic: its kind and the handle of the node or expression
/// it points at.
#[derive(Clone, Copy, PartialEq, Eq, Structural, Debug)]
pub struct Diagnostic {
    pub kind: DiagnosticKind,
    pub location: usize,
}

/// Not a true error: a control signal meaning "this subtree is not yet
/// resolvable; retry on a later pass". It carries no payload; diagnostics
/// are emitted directly to the sink at the point of failure.
#[derive(Clone, Copy, PartialEq, Eq, Structural, Debug)]
pub struct DeferError;

/// The mathematical model of the verification context.
#[verifier::ext_equal]
pub ghost struct StateModel {
    /// Phase and memoized object per node handle.
    pub node_states: Seq<NodeState>,
    /// Scope arena: the enclosing scope each scope inherits from, set when
    /// the scope is entered.
    pub scope_parents: Seq<Option<usize>>,
    /// The lexical scope stack, innermost scope last.
    pub scope_stack: Seq<usize>,
    /// Open-import contributions: pairs of (scope, import directive node).
    pub open_imports: Seq<(usize, NodeId)>,
    /// Package objects created by the package factory, each its dotted name.
    pub packages: Seq<Seq<NameId>>,
    /// Import directives marked as candidates for unused-import reporting.
    pub unused: Seq<NodeId>,
    /// Diagnostics emitted so far, in order.
    pub diagnostics: Seq<Diagnostic>,
    /// The constant evaluator's answer per expression handle (read-only).
    pub expr_constants: Seq<EvalOutcome>,
    /// Speculative constant annotations attached to test expressions by
    /// earlier stages; cleared when a test turns out non-boolean.
    pub expr_annotations: Seq<Option<ConstantValue>>,
    /// Names of the packages known to contribute members (read-only).
    pub nonempty_packages: Seq<Seq<NameId>>,
    /// Whether unused-import candidates are recorded.
    pub warn_unused: bool,
}

impl StateModel {
    /// Bounds that keep every table access of the engine in range.
    pub open spec fn wf(self) -> bool {
        &&& self.expr_annotations.len() == self.expr_constants.len()
        &&& forall|i: int|
            0 <= i < self.node_states.len() ==> node_state_wf(
                #[trigger] self.node_states[i],
                self.scope_parents.len(),
            )
        &&& forall|i: int|
            0 <= i < self.scope_stack.len() ==> (#[trigger] self.scope_stack[i] as nat)
                < self.scope_parents.len()
    }

    pub open spec fn phase_of(self, id: NodeId) -> VerifierPhase {
        self.node_states[id as int].phase
    }

    pub open spec fn object_of(self, id: NodeId) -> Option<SemanticObject> {
        self.node_states[id as int].object
    }

    pub open spec fn with_phase(self, id: NodeId, p: VerifierPhase) -> StateModel {
        StateModel {
            node_states: self.node_states.update(
                id as int,
                NodeState { phase: p, object: self.node_states[id as int].object },
            ),
            ..self
        }
    }

    pub open spec fn with_object(self, id: NodeId, obj: SemanticObject) -> StateModel {
        StateModel {
            node_states: self.node_states.update(
                id as int,
                NodeState { phase: self.node_states[id as int].phase, object: Some(obj) },
            ),
            ..self
        }
    }

    /// Obtain the node's phase, promoting an unvisited node to `Alpha`.
    pub open spec fn lazy_init_phase(self, id: NodeId) -> (StateModel, VerifierPhase) {
        if self.phase_of(id) == VerifierPhase::Unvisited {
            (self.with_phase(id, VerifierPhase::Alpha), VerifierPhase::Alpha)
        } else {
            (self, self.phase_of(id))
        }
    }

    /// Obtain-or-create the scope memoized against a scope-introducing node.
    /// A slot already holding a non-scope object cannot arise for a tree with
    /// distinct node handles; such a slot is left untouched.
    pub open spec fn ensure_scope(self, id: NodeId) -> (StateModel, usize) {
        match self.object_of(id) {
            Some(SemanticObject::Scope(sid)) => (self, sid),
            None => {
                let sid = self.scope_parents.len() as usize;
                let s1 = StateModel { scope_parents: self.scope_parents.push(None), ..self };
                (s1.with_object(id, SemanticObject::Scope(sid)), sid)
            },
            Some(_) => {
                let sid = self.scope_parents.len() as usize;
                (StateModel { scope_parents: self.scope_parents.push(None), ..self }, sid)
            },
        }
    }

    /// Enter a scope, inheriting from the scope currently on top.
    pub open spec fn enter_scope(self, sid: usize) -> StateModel {
        let parent = if self.scope_stack.len() == 0 {
            None
        } else {
            Some(self.scope_stack.last())
        };
        StateModel {
            scope_parents: self.scope_parents.update(sid as int, parent),
            scope_stack: self.scope_stack.push(sid),
            ..self
        }
    }

    pub open spec fn exit_scope(self) -> StateModel {
        StateModel { scope_stack: self.scope_stack.drop_last(), ..self }
    }

    pub open spec fn add_diag(self, kind: DiagnosticKind, location: usize) -> StateModel {
        StateModel { diagnostics: self.diagnostics.push(Diagnostic { kind, location }), ..self }
    }

    /// Record an import as a candidate for unused-import reporting, when
    /// that warning class is on.
    pub open spec fn mark_unused(self, id: NodeId) -> StateModel {
        if self.warn_unused {
            StateModel { unused: self.unused.push(id), ..self }
        } else {
            self
        }
    }

    /// Contribute an import to the enclosing scope's open-import list, so
    /// subsequent name lookups in this pass can see it. With no enclosing
    /// scope there is nothing to contribute to.
    pub open spec fn contribute_open_import(self, id: NodeId) -> StateModel {
        if self.scope_stack.len() == 0 {
            self
        } else {
            StateModel {
                open_imports: self.open_imports.push((self.scope_stack.last(), id)),
                ..self
            }
        }
    }

    pub open spec fn clear_annotation(self, e: ExprId) -> StateModel {
        StateModel { expr_annotations: self.expr_annotations.update(e as int, None), ..self }
    }

    /// A package contributes no members unless it is listed as non-empty.
    pub open spec fn package_is_empty(self, name: Seq<NameId>) -> bool {
        !self.nonempty_packages.contains(name)
    }

    /// Lazily materialize the import object of an aliased import directive.
    pub open spec fn ensure_alias_object(self, id: NodeId) -> StateModel {
        match self.object_of(id) {
            Some(_) => self,
            None => self.with_object(id, SemanticObject::Import(ImportObject::Alias)),
        }
    }

    /// Lazily materialize the import object of a non-aliased import
    /// directive, per its specifier shape. A recursive import requires the
    /// named package object from the package factory.
    pub open spec fn ensure_import_object(self, id: NodeId, import: ImportDirective) -> StateModel {
        match self.object_of(id) {
            Some(_) => self,
            None => match import.import_specifier {
                ImportSpecifier::Identifier(_) => self.with_object(
                    id,
                    SemanticObject::Import(ImportObject::Identifier),
                ),
                ImportSpecifier::Wildcard => self.with_object(
                    id,
                    SemanticObject::Import(ImportObject::Wildcard),
                ),
                ImportSpecifier::Recursive => {
                    let pid = self.packages.len() as usize;
                    let s1 = StateModel {
                        packages: self.packages.push(import.package_name@),
                        ..self
                    };
                    s1.with_object(id, SemanticObject::Import(ImportObject::Recursive(pid)))
                },
            },
        }
    }
}

pub open spec fn node_state_wf(ns: NodeState, n_scopes: nat) -> bool {
    match ns.object {
        Some(SemanticObject::Scope(sid)) => (sid as nat) < n_scopes,
        _ => true,
    }
}

/// The initial model of a fresh verification context.
pub open spec fn initial_state(
    node_count: nat,
    expr_constants: Seq<EvalOutcome>,
    nonempty_packages: Seq<Seq<NameId>>,
    warn_unused: bool,
) -> StateModel {
    StateModel {
        node_states: Seq::new(
            node_count,
            |i: int| NodeState { phase: VerifierPhase::Unvisited, object: None },
        ),
        scope_parents: Seq::empty(),
        scope_stack: Seq::empty(),
        open_imports: Seq::empty(),
        packages: Seq::empty(),
        unused: Seq::empty(),
        diagnostics: Seq::empty(),
        expr_constants,
        expr_annotations: Seq::new(expr_constants.len(), |i: int| None),
        nonempty_packages,
        warn_unused,
    }
}

/// The verification context: per-node progress and memo table, the scope
/// machinery, the diagnostic sink, and the external collaborators the engine
/// reads (the constant evaluator's answers, the package population, the
/// compiler options).
pub struct Subverifier {
    pub node_states: Vec<NodeState>,
    pub scope_parents: Vec<Option<usize>>,
    pub scope_stack: Vec<usize>,
    pub open_imports: Vec<(usize, NodeId)>,
    pub packages: Vec<Vec<NameId>>,
    pub unused: Vec<NodeId>,
    pub diagnostics: Vec<Diagnostic>,
    pub expr_constants: Vec<EvalOutcome>,
    pub expr_annotations: Vec<Option<ConstantValue>>,
    pub nonempty_packages: Vec<Vec<NameId>>,
    pub options: CompilerOptions,
}

impl View for Subverifier {
    type V = StateModel;

    open spec fn view(&self) -> StateModel {
        StateModel {
            node_states: self.node_states@,
            scope_parents: self.scope_parents@,
            scope_stack: self.scope_stack@,
            open_imports: self.open_imports@,
            packages: self.packages@.map_values(|p: Vec<NameId>| p@),
            unused: self.unused@,
            diagnostics: self.diagnostics@,
            expr_constants: self.expr_constants@,
            expr_annotations: self.expr_annotations@,
            nonempty_packages: self.nonempty_packages@.map_values(|p: Vec<NameId>| p@),
            warn_unused: self.options.warnings.unused,
        }
    }
}

impl Subverifier {
    /// A fresh context over `node_count` AST nodes, the evaluator's answers,
    /// the set of packages known to contribute members, and the options.
    pub fn new(
        node_count: usize,
        expr_constants: Vec<EvalOutcome>,
        nonempty_packages: Vec<Vec<NameId>>,
        options: CompilerOptions,
    ) -> (v: Subverifier)
        ensures
            v@ == initial_state(
                node_count as nat,
                expr_constants@,
                nonempty_packages@.map_values(|p: Vec<NameId>| p@),
                options.warnings.unused,
            ),
            v@.wf(),
    {
        let mut node_states: Vec<NodeState> = Vec::new();
        let mut i: usize = 0;
        while i < node_count
            invariant
                i <= node_count,
                node_states@.len() == i as nat,
                forall|j: int|
                    0 <= j < i as int ==> node_states@[j] == (NodeState {
                        phase: VerifierPhase::Unvisited,
                        object: None,
                    }),
            decreases node_count - i,
        {
            node_states.push(NodeState { phase: VerifierPhase::Unvisited, object: None });
            i = i + 1;
        }
        let mut expr_annotations: Vec<Option<ConstantValue>> = Vec::new();
        let mut k: usize = 0;
        let n_exprs: usize = expr_constants.len();
        while k < n_exprs
            invariant
                k <= n_exprs,
                expr_annotations@.len() == k as nat,
                forall|j: int| 0 <= j < k as int ==> expr_annotations@[j] is None,
            decreases n_exprs - k,
        {
            expr_annotations.push(None);
            k = k + 1;
        }
        let v = Subverifier {
            node_states,
            scope_parents: Vec::new(),
            scope_stack: Vec::new(),
            open_imports: Vec::new(),
            packages: Vec::new(),
            unused: Vec::new(),
            diagnostics: Vec::new(),
            expr_constants,
            expr_annotations,
            nonempty_packages,
            options,
        };
        proof {
            assert(v@ =~~= initial_state(
                node_count as nat,
                v.expr_constants@,
                v.nonempty_packages@.map_values(|p: Vec<NameId>| p@),
                v.options.warnings.unused,
            ));
        }
        v
    }

    /// Obtain the node's phase, promoting an unvisited node to `Alpha`.
    pub fn lazy_init_phase(&mut self, id: NodeId) -> (p: VerifierPhase)
        requires
            (id as nat) < old(self)@.node_states.len(),
        ensures
            final(self)@ == old(self)@.lazy_init_phase(id).0,
            p == old(self)@.lazy_init_phase(id).1,
            p != VerifierPhase::Unvisited,
            old(self)@.wf() ==> final(self)@.wf(),
    {
        let st = self.node_states[id];
        if st.phase == VerifierPhase::Unvisited {
            self.node_states[id] = NodeState { phase: VerifierPhase::Alpha, object: st.object };
            proof {
                assert(self@ =~~= old(self)@.with_phase(id, VerifierPhase::Alpha));
            }
            VerifierPhase::Alpha
        } else {
            proof {
                assert(self@ =~~= old(self)@);
            }
            st.phase
        }
    }

    pub fn set_phase(&mut self, id: NodeId, p: VerifierPhase)
        requires
            (id as nat) < old(self)@.node_states.len(),
        ensures
            final(self)@ == old(self)@.with_phase(id, p),
            old(self)@.wf() ==> final(self)@.wf(),
    {
        let st = self.node_states[id];
        self.node_states[id] = NodeState { phase: p, object: st.object };
        proof {
            assert(self@ =~~= old(self)@.with_phase(id, p));
        }
    }

    /// Obtain-or-create the scope memoized against a scope-introducing node.
    pub fn ensure_node_scope(&mut self, id: NodeId) -> (sid: usize)
        requires
            old(self)@.wf(),
            (id as nat) < old(self)@.node_states.len(),
        ensures
            final(self)@ == old(self)@.ensure_scope(id).0,
            sid == old(self)@.ensure_scope(id).1,
            (sid as nat) < final(self)@.scope_parents.len(),
            final(self)@.wf(),
    {
        let st = self.node_states[id];
        match st.object {
            Some(SemanticObject::Scope(sid)) => {
                proof {
                    assert(self@ =~~= old(self)@);
                }
                sid
            },
            None => {
                let sid = self.scope_parents.len();
                self.scope_parents.push(None);
                self.node_states[id] = NodeState {
                    phase: st.phase,
                    object: Some(SemanticObject::Scope(sid)),
                };
                proof {
                    let s1 = StateModel {
                        scope_parents: old(self)@.scope_parents.push(None),
                        ..old(self)@
                    };
                    assert(self@ =~~= s1.with_object(id, SemanticObject::Scope(sid)));
                }
                sid
            },
            Some(_) => {
                let sid = self.scope_parents.len();
                self.scope_parents.push(None);
                proof {
                    assert(self@ =~~= (StateModel {
                        scope_parents: old(self)@.scope_parents.push(None),
                        ..old(self)@
                    }));
                }
                sid
            },
        }
    }

    /// Enter a scope, inheriting from the scope currently on top of the
    /// stack. Entry and exit must be strictly paired.
    pub fn inherit_and_enter_scope(&mut self, sid: usize)
        requires
            old(self)@.wf(),
            (sid as nat) < old(self)@.scope_parents.len(),
        ensures
            final(self)@ == old(self)@.enter_scope(sid),
            final(self)@.wf(),
            final(self)@.scope_stack.len() == old(self)@.scope_stack.len() + 1,
    {
        let parent: Option<usize> = if self.scope_stack.len() == 0 {
            None
        } else {
            Some(self.scope_stack[self.scope_stack.len() - 1])
        };
        self.scope_parents[sid] = parent;
        self.scope_stack.push(sid);
        proof {
            assert(self@ =~~= old(self)@.enter_scope(sid));
        }
    }

    pub fn exit_scope(&mut self)
        requires
            old(self)@.scope_stack.len() > 0,
        ensures
            final(self)@ == old(self)@.exit_scope(),
            old(self)@.wf() ==> final(self)@.wf(),
    {
        let _ = self.scope_stack.pop();
        proof {
            assert(self@ =~~= old(self)@.exit_scope());
        }
    }

    /// Ask the external constant evaluator about a test expression.
    pub fn verify_expression(&self, expr: ExprId) -> (r: Result<Option<ConstantValue>, DeferError>)
        requires
            (expr as nat) < self@.expr_constants.len(),
        ensures
            r is Err <==> self@.expr_constants[expr as int] is CycleFailure,
            r == Ok::<Option<ConstantValue>, DeferError>(None::<ConstantValue>) <==> self@.expr_constants[expr as int] is Unresolved,
            forall|c: ConstantValue|
                r == Ok::<Option<ConstantValue>, DeferError>(Some(c)) <==> self@.expr_constants[expr as int]
                    == EvalOutcome::Resolved(c),
    {
        match self.expr_constants[expr] {
            EvalOutcome::CycleFailure => Err(DeferError),
            EvalOutcome::Unresolved => Ok(None),
            EvalOutcome::Resolved(c) => Ok(Some(c)),
        }
    }

    /// Emit a diagnostic to the sink.
    pub fn add_verify_error(&mut self, kind: DiagnosticKind, location: usize)
        ensures
            final(self)@ == old(self)@.add_diag(kind, location),
            old(self)@.wf() ==> final(self)@.wf(),
    {
        self.diagnostics.push(Diagnostic { kind, location });
        proof {
            assert(self@ =~~= old(self)@.add_diag(kind, location));
        }
    }

    /// Record an import as a candidate for unused-import reporting.
    pub fn mark_unused(&mut self, id: NodeId)
        ensures
            final(self)@ == old(self)@.mark_unused(id),
            old(self)@.wf() ==> final(self)@.wf(),
    {
        if self.options.warnings.unused {
            self.unused.push(id);
        }
        proof {
            assert(self@ =~~= old(self)@.mark_unused(id));
        }
    }

    /// Contribute an import to the enclosing scope's open-import list.
    pub fn contribute_open_import(&mut self, id: NodeId)
        ensures
            final(self)@ == old(self)@.contribute_open_import(id),
            old(self)@.wf() ==> final(self)@.wf(),
    {
        if self.scope_stack.len() > 0 {
            let top = self.scope_stack[self.scope_stack.len() - 1];
            self.open_imports.push((top, id));
        }
        proof {
            assert(self@ =~~= old(self)@.contribute_open_import(id));
        }
    }

    /// Clear the speculative constant annotation of a test expression.
    pub fn clear_expr_annotation(&mut self, e: ExprId)
        requires
            (e as nat) < old(self)@.expr_annotations.len(),
        ensures
            final(self)@ == old(self)@.clear_annotation(e),
            old(self)@.wf() ==> final(self)@.wf(),
    {
        self.expr_annotations[e] = None;
        proof {
            assert(self@ =~~= old(self)@.clear_annotation(e));
        }
    }

    /// Whether the named package contributes no members.
    pub fn package_is_empty(&self, name: &Vec<NameId>) -> (r: bool)
        ensures
            r == self@.package_is_empty(name@),
    {
        let mut i: usize = 0;
        let n: usize = self.nonempty_packages.len();
        while i < n
            invariant
                i <= n,
                n as nat == self@.nonempty_packages.len(),
                forall|j: int| 0 <= j < i as int ==> self@.nonempty_packages[j] != name@,
            decreases n - i,
        {
            if name_eq(&self.nonempty_packages[i], name) {
                proof {
                    assert(self@.nonempty_packages[i as int] == name@);
                }
                return false;
            }
            i = i + 1;
        }
        proof {
            assert(forall|j: int|
                0 <= j < self@.nonempty_packages.len() ==> self@.nonempty_packages[j] != name@);
        }
        true
    }

    /// Lazily materialize the import object of a non-aliased import
    /// directive.
    pub fn ensure_import_object(&mut self, id: NodeId, import: &ImportDirective)
        requires
            (id as nat) < old(self)@.node_states.len(),
        ensures
            final(self)@ == old(self)@.ensure_import_object(id, *import),
            old(self)@.wf() ==> final(self)@.wf(),
    {
        let st = self.node_states[id];
        match st.object {
            Some(_) => {
                proof {
                    assert(self@ =~~= old(self)@);
                }
            },
            None => {
                let obj: SemanticObject = match &import.import_specifier {
                    ImportSpecifier::Identifier(_) => SemanticObject::Import(
                        ImportObject::Identifier,
                    ),
                    ImportSpecifier::Wildcard => SemanticObject::Import(ImportObject::Wildcard),
                    ImportSpecifier::Recursive => {
                        let pid = self.packages.len();
                        self.packages.push(import.package_name.clone());
                        SemanticObject::Import(ImportObject::Recursive(pid))
                    },
                };
                self.node_states[id] = NodeState { phase: st.phase, object: Some(obj) };
                proof {
                    assert(self@ =~~= old(self)@.ensure_import_object(id, *import));
                }
            },
        }
    }

    /// Lazily materialize the import object of an aliased import directive.
    pub fn ensure_alias_import_object(&mut self, id: NodeId)
        requires
            (id as nat) < old(self)@.node_states.len(),
        ensures
            final(self)@ == old(self)@.ensure_alias_object(id),
            old(self)@.wf() ==> final(self)@.wf(),
    {
        let st = self.node_states[id];
        match st.object {
            Some(_) => {
                proof {
                    assert(self@ =~~= old(self)@);
                }
            },
            None => {
                self.node_states[id] = NodeState {
                    phase: st.phase,
                    object: Some(SemanticObject::Import(ImportObject::Alias)),
                };
                proof {
                    assert(self@ =~~= old(self)@.ensure_alias_object(id));
                }
            },
        }
    }

    /// Ask the factory for a fresh scope object.
    pub fn create_scope(&mut self) -> (sid: usize)
        ensures
            final(self)@ == (StateModel { scope_parents: old(self)@.scope_parents.push(None), ..old(self)@ }),
            sid as nat == old(self)@.scope_parents.len(),
            old(self)@.wf() ==> final(self)@.wf(),
    {
        let sid = self.scope_parents.len();
        self.scope_parents.push(None);
        proof {
            assert(self@ =~~= (StateModel {
                scope_parents: old(self)@.scope_parents.push(None),
                ..old(self)@
            }));
        }
        sid
    }
}

/// Element-wise equality of two interned-name paths.
fn name_eq(a: &Vec<NameId>, b: &Vec<NameId>) -> (r: bool)
    ensures
        r == (a@ == b@),
{
    if a.len() != b.len() {
        proof {
            assert(a@ != b@);
        }
        return false;
    }
    let n: usize = a.len();
    let mut i: usize = 0;
    while i < n
        invariant
            i <= n,
            n as nat == a@.len(),
            a@.len() == b@.len(),
            forall|j: int| 0 <= j < i as int ==> a@[j] == b@[j],
        decreases n - i,
    {
        if a[i] != b[i] {
            proof {
                assert(a@[i as int] != b@[i as int]);
            }
            return false;
        }
        i = i + 1;
    }
    proof {
        assert(a@ =~= b@);
    }
    true
}

} // verus!
