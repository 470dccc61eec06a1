//! The owned field tree of one compiled module: an ordered sequence of
//! top-level fields. Fields that the adapter rewrites are held in structured
//! form; everything else is carried through as its raw token run.

use vstd::prelude::*;

use crate::text::Tok;

verus! {

/// A function field: an optional leading identifier, inline export names,
/// the tokens between the exports and the declared results (a type use, the
/// parameters), the declared result value types, and the remaining tokens
/// (locals and instructions).
pub struct FuncField {
    pub head: Vec<Tok>,
    pub exports: Vec<String>,
    pub pre: Vec<Tok>,
    pub results: Vec<String>,
    pub body: Vec<Tok>,
}

/// A top-level export field: `( export "name" ( kind index ) )`.
pub struct ExportField {
    pub name: String,
    pub kind: String,
    pub index: String,
}

/// One top-level field of a module.
pub enum Field {
    /// An import; only the declaring module's name is read.
    Import { module: String, rest: Vec<Tok> },
    /// A memory: an optional leading identifier, its inline export names,
    /// and the remaining tokens (its limits).
    Memory { head: Vec<Tok>, exports: Vec<String>, rest: Vec<Tok> },
    /// A function.
    Func(FuncField),
    /// A top-level export.
    Export(ExportField),
    /// A start reference: `( start index )`.
    Start { index: String },
    /// An injected builtin shim; its tokens stand without the outer
    /// parentheses, which the printer adds back.
    Shim { name: String, toks: Vec<Tok> },
    /// Any other field, kept verbatim with its outer parentheses.
    Other { toks: Vec<Tok> },
}

/// One compiled module: an optional identifier (with its `$`) and the fields.
pub struct ModuleTree {
    pub id: Option<String>,
    pub fields: Vec<Field>,
}

/// The reserved test-harness import namespace, filtered out of the module.
pub open spec fn spectest_name() -> Seq<char> {
    "spectest"@
}

/// The compiler's internal canonical memory export name.
pub open spec fn internal_memory_name() -> Seq<char> {
    "moonbit.memory"@
}

/// The memory export name the component model expects.
pub open spec fn canonical_memory_name() -> Seq<char> {
    "memory"@
}

/// The reserved "run on instantiate" export the compiler emits.
pub open spec fn start_export_name() -> Seq<char> {
    "_start"@
}

/// The compiler's internal allocator routine; a call to it activates the
/// reallocation shim.
pub open spec fn allocator_name() -> Seq<char> {
    "rael.malloc"@
}

/// Two adjacent body tokens forming a direct call of `$name`.
pub open spec fn is_call_pair(t: Tok, u: Tok, name: Seq<char>) -> bool {
    &&& t matches Tok::Atom(a) && a@ == "call"@
    &&& u matches Tok::Atom(b) && b@ == seq!['$'] + name
}

/// Whether a token run contains a direct call of `$name` at any depth.
pub open spec fn calls_in(ts: Seq<Tok>, name: Seq<char>) -> bool {
    exists|i: int| 0 <= i && i + 1 < ts.len() && #[trigger] is_call_pair(ts[i], ts[i + 1], name)
}

/// Whether any function body in the module directly calls `$name`.
pub open spec fn module_calls(fields: Seq<Field>, name: Seq<char>) -> bool {
    exists|i: int|
        0 <= i < fields.len() && ((#[trigger] fields[i]) matches Field::Func(ff) && calls_in(
            ff.body@,
            name,
        ))
}

/// Fields the transformation drops: imports of the reserved test-harness
/// namespace, and the start export (captured, then re-expressed as a start
/// reference).
pub open spec fn field_dropped(f: Field) -> bool {
    ||| f matches Field::Import { module, .. } && module@ == spectest_name()
    ||| f matches Field::Export(e) && e.name@ == start_export_name()
}

/// The index referenced by the module's start export; when several exports
/// carry the reserved name, the last one stands, as a single forward pass
/// that overwrites its capture would leave it.
pub open spec fn start_index_of(fields: Seq<Field>) -> Option<String>
    decreases fields.len(),
{
    if fields.len() == 0 {
        None
    } else if fields.last() matches Field::Export(e) && e.name@ == start_export_name() {
        Some(fields.last()->Export_0.index)
    } else {
        start_index_of(fields.drop_last())
    }
}

/// How many fields the rewriting pass keeps.
pub open spec fn kept_len(fields: Seq<Field>) -> nat
    decreases fields.len(),
{
    if fields.len() == 0 {
        0
    } else {
        kept_len(fields.drop_last()) + if field_dropped(fields.last()) {
            0nat
        } else {
            1nat
        }
    }
}

} // verus!
