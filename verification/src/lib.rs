//! Adapter that rewrites a compiler-emitted WebAssembly text module so that it
//! satisfies a typed interface world, then packages it as a component binary.
//!
//! The module text is read into an owned field tree ([`tree::ModuleTree`]); a
//! single verified pass ([`transform`]) renames the linear memory, maps export
//! symbols, corrects a known return-arity defect, injects the builtin shims
//! that are actually called, and converts the implicit start export into a
//! module start reference; the rewritten tree is printed back to module text
//! and handed to the encoder ([`codec`]).

use vstd::prelude::*;

pub mod bindgen;
pub mod codec;
pub mod parse;
pub mod render;
pub mod shims;
pub mod symbols;
pub mod text;
pub mod transform;
pub mod tree;
pub mod world;

pub use codec::componentize;

verus! {

/// Everything that can go wrong while adapting a module.
#[derive(Debug)]
pub enum AdaptError {
    /// A quoted string in the module text never ends.
    UnterminatedQuote { pos: usize },
    /// A block comment in the module text never ends.
    UnterminatedComment { pos: usize },
    /// A stray character that no token can start with.
    StrayChar { pos: usize },
    /// The text does not hold a single `(module ...)` form.
    NotAModule,
    /// The module declares no start export, which the compiler contract owes.
    MissingStart,
    /// The rewritten text was refused by the binary-module encoder.
    Encode(wast::Error),
    /// The interface metadata could not be embedded.
    Embed(anyhow::Error),
    /// The component encoder refused the module.
    Component(anyhow::Error),
}

/// Options of the adapter: the path of the compiled module's text.
pub struct Opts {
    pub wat: String,
}

} // verus!
