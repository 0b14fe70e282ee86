use vstd::prelude::*;

verus! {

/// Stable handle of a phase-carrying AST node (a block, a loop, a
/// configuration directive, an import directive). The parser assigns the
/// handles; they index the verifier's node-state table, so every handle in a
/// tree must lie below the table's length and no two nodes may share one.
pub type NodeId = usize;

/// Handle of a test expression; indexes the constant evaluator's table.
pub type ExprId = usize;

/// Handle of an interned name (a package path segment or an alias).
pub type NameId = usize;

/// The shape of an import declaration's specifier.
pub enum ImportSpecifier {
    /// `import p.q.N;` — a single definition, resolved late.
    Identifier(NameId),
    /// `import p.q.*;` — a package-level open import.
    Wildcard,
    /// `import p.q.**;` — a whole-subtree package import.
    Recursive,
}

/// The payload of an import directive.
pub struct ImportDirective {
    /// `import A = p.q.N;` declares the alias `A`.
    pub alias: Option<NameId>,
    /// The dotted package path, as interned name segments.
    pub package_name: Vec<NameId>,
    pub import_specifier: ImportSpecifier,
}

/// A brace-delimited, ordered group of directives. Blocks are reachable both
/// as a directive variant and as sub-parts of control constructs, so they
/// carry their own node handle.
pub struct Block {
    pub id: NodeId,
    pub directives: Vec<Directive>,
}

/// One case of a `switch` statement: its directive list.
pub struct SwitchCase {
    pub directives: Vec<Directive>,
}

/// One case of a type-discriminated `switch`: it owns a whole block.
pub struct TypeCase {
    pub block: Block,
}

/// One catch clause of a `try` statement: it owns a whole block.
pub struct CatchClause {
    pub block: Block,
}

/// A statement-level AST node subject to semantic verification. Kinds with no
/// scope or phase machinery at this layer fall under `OtherStatement`.
pub enum Directive {
    Block(Block),
    LabeledStatement { substatement: Box<Directive> },
    IfStatement {
        test: ExprId,
        consequent: Box<Directive>,
        alternative: Option<Box<Directive>>,
    },
    SwitchStatement { cases: Vec<SwitchCase> },
    SwitchTypeStatement { type_cases: Vec<TypeCase> },
    DoStatement { body: Box<Directive> },
    WhileStatement { body: Box<Directive> },
    ForStatement { id: NodeId, body: Box<Directive> },
    ForInStatement { id: NodeId, body: Box<Directive> },
    WithStatement { body: Box<Directive> },
    TryStatement {
        block: Block,
        catch_clauses: Vec<CatchClause>,
        finally_clause: Option<Block>,
    },
    ConfigurationDirective { id: NodeId, directive: Box<Directive> },
    ImportDirective { id: NodeId, import: ImportDirective },
    OtherStatement,
}

/// Well-formedness of a directive against a verifier whose node-state table
/// has `n_nodes` entries and whose evaluator table has `n_exprs` entries:
/// every node handle and expression handle in the tree is in range.
pub open spec fn drtv_wf(d: Directive, n_nodes: nat, n_exprs: nat) -> bool
    decreases d,
{
    match d {
        Directive::Block(b) => block_wf(b, n_nodes, n_exprs),
        Directive::LabeledStatement { substatement } => drtv_wf(*substatement, n_nodes, n_exprs),
        Directive::IfStatement { test, consequent, alternative } => {
            &&& (test as nat) < n_exprs
            &&& drtv_wf(*consequent, n_nodes, n_exprs)
            &&& match alternative {
                Some(alt) => drtv_wf(*alt, n_nodes, n_exprs),
                None => true,
            }
        },
        Directive::SwitchStatement { cases } => switch_cases_wf(cases@, n_nodes, n_exprs),
        Directive::SwitchTypeStatement { type_cases } => type_cases_wf(type_cases@, n_nodes, n_exprs),
        Directive::DoStatement { body } => drtv_wf(*body, n_nodes, n_exprs),
        Directive::WhileStatement { body } => drtv_wf(*body, n_nodes, n_exprs),
        Directive::ForStatement { id, body } => {
            (id as nat) < n_nodes && drtv_wf(*body, n_nodes, n_exprs)
        },
        Directive::ForInStatement { id, body } => {
            (id as nat) < n_nodes && drtv_wf(*body, n_nodes, n_exprs)
        },
        Directive::WithStatement { body } => drtv_wf(*body, n_nodes, n_exprs),
        Directive::TryStatement { block, catch_clauses, finally_clause } => {
            &&& block_wf(block, n_nodes, n_exprs)
            &&& catch_clauses_wf(catch_clauses@, n_nodes, n_exprs)
            &&& match finally_clause {
                Some(fb) => block_wf(fb, n_nodes, n_exprs),
                None => true,
            }
        },
        Directive::ConfigurationDirective { id, directive } => {
            // the parser pre-restricts configuration sub-trees to the
            // conditional-compilation grammar
            &&& (id as nat) < n_nodes
            &&& drtv_wf(*directive, n_nodes, n_exprs)
            &&& config_grammar(*directive)
        },
        Directive::ImportDirective { id, import: _ } => (id as nat) < n_nodes,
        Directive::OtherStatement => true,
    }
}

pub open spec fn drtvs_wf(list: Seq<Directive>, n_nodes: nat, n_exprs: nat) -> bool
    decreases list,
{
    forall|i: int| 0 <= i < list.len() ==> drtv_wf(#[trigger] list[i], n_nodes, n_exprs)
}

pub open spec fn block_wf(b: Block, n_nodes: nat, n_exprs: nat) -> bool
    decreases b,
{
    (b.id as nat) < n_nodes && drtvs_wf(b.directives@, n_nodes, n_exprs)
}

pub open spec fn switch_cases_wf(cases: Seq<SwitchCase>, n_nodes: nat, n_exprs: nat) -> bool
    decreases cases,
{
    forall|i: int| 0 <= i < cases.len() ==> drtvs_wf(#[trigger] cases[i].directives@, n_nodes, n_exprs)
}

pub open spec fn type_cases_wf(cases: Seq<TypeCase>, n_nodes: nat, n_exprs: nat) -> bool
    decreases cases,
{
    forall|i: int| 0 <= i < cases.len() ==> block_wf(#[trigger] cases[i].block, n_nodes, n_exprs)
}

pub open spec fn catch_clauses_wf(clauses: Seq<CatchClause>, n_nodes: nat, n_exprs: nat) -> bool
    decreases clauses,
{
    forall|i: int| 0 <= i < clauses.len() ==> block_wf(#[trigger] clauses[i].block, n_nodes, n_exprs)
}

/// The restricted grammar legal inside configuration directives: nested
/// blocks and `if` statements only. The parser guarantees this shape for
/// every sub-directive of a configuration directive; handing any other kind
/// to the conditional-compilation evaluator is a contract violation of an
/// earlier stage.
pub open spec fn config_grammar(d: Directive) -> bool
    decreases d,
{
    match d {
        Directive::Block(_) => true,
        Directive::IfStatement { test: _, consequent, alternative } => {
            &&& config_grammar(*consequent)
            &&& match alternative {
                Some(alt) => config_grammar(*alt),
                None => true,
            }
        },
        _ => false,
    }
}

} // verus!
