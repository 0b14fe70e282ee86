use vstd::prelude::*;

verus! {

/// Declarative compiler configuration. The verification engine only reads
/// these flags; they are assigned to a compilation unit by the driver.
#[derive(Clone)]
pub struct CompilerOptions {
    pub as3: bool,
    pub infer_types: bool,
    /// Whether to use block scoped properties.
    /// If this is true:
    /// * all block statements will create their own scope, and
    /// * `for..in` will contribute any bindings to a new scope
    ///   surrounding the loop's body.
    pub block_scope: bool,
    /// Whether to allow Markdown text in ASDoc comments.
    pub asdoc_markdown: bool,
    pub warnings: CompilerWarningOptions,
    /// Used for identifying the AS3 package in a MXML source tree.
    pub source_path: Vec<String>,
    /// Used for inheriting the type of the `this` object.
    /// Switch it off if it breaks an existing program.
    pub inherit_this_type: bool,
}

/// Toggles for individual warning classes.
#[derive(Clone)]
#[non_exhaustive]
pub struct CompilerWarningOptions {
    /// Whether unused bindings (such as unused imports) are reported.
    pub unused: bool,
}

/// A compilation unit, as far as this stage reads it: the compiler options
/// that the driver assigned to it, if any.
pub struct CompilationUnit {
    pub compiler_options: Option<CompilerOptions>,
}

impl CompilerOptions {
    /// The options assigned to a compilation unit. The driver must have
    /// assigned options before verification starts; a unit without them is a
    /// driver defect, so the caller has to guarantee their presence.
    pub fn of(cu: &CompilationUnit) -> (r: &CompilerOptions)
        requires
            cu.compiler_options is Some,
        ensures
            *r == cu.compiler_options->Some_0,
    {
        cu.compiler_options.as_ref().unwrap()
    }
}

impl Default for CompilerOptions {
    /// Every toggle is on by default and the source path starts empty.
    fn default() -> (d: Self)
        ensures
            d.as3,
            d.infer_types,
            d.block_scope,
            d.asdoc_markdown,
            d.warnings.unused,
            d.source_path@.len() == 0,
            d.inherit_this_type,
    {
        CompilerOptions {
            as3: true,
            infer_types: true,
            block_scope: true,
            asdoc_markdown: true,
            warnings: CompilerWarningOptions::default(),
            source_path: Vec::new(),
            inherit_this_type: true,
        }
    }
}

impl Default for CompilerWarningOptions {
    /// Warnings are reported by default.
    fn default() -> (d: Self)
        ensures
            d.unused,
    {
        CompilerWarningOptions { unused: true }
    }
}

} // verus!
