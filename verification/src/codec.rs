//! The packager: serialize the transformed tree to a binary module, embed
//! the resolved interface metadata, and encode the result as a component.
//! The three encoding steps are outside library calls; each stands behind a
//! declared contract, and any failure there is fatal and surfaced to the
//! caller unmodified.

use vstd::prelude::*;

use crate::parse::{module_parseable, parse_module, parses_to};
use crate::render::{render_module, render_module_spec};
use crate::shims::{distinct_shim_names, shim_names, standard_shim_names, Shim, ShimCatalog};
use crate::symbols::SymbolMap;
use crate::text::{lex_ok, lexes_from, tokenize, Tok};
use crate::transform::{transform, transform_post};
use crate::tree::{start_index_of, ModuleTree};
use crate::AdaptError;

verus! {

#[verifier::external_type_specification]
#[verifier::external_body]
pub struct ExResolve(wit_parser::Resolve);

#[verifier::external_type_specification]
#[verifier::external_body]
pub struct ExWorld(wit_parser::World);

#[verifier::external_type_specification]
#[verifier::external_body]
#[verifier::reject_recursive_types(T)]
pub struct ExArenaId<T>(id_arena::Id<T>);

#[verifier::external_type_specification]
#[verifier::external_body]
pub struct ExWastError(wast::Error);

#[verifier::external_type_specification]
#[verifier::external_body]
pub struct ExAnyhowError(anyhow::Error);

/// The binary encoding of the core module that the given module text
/// denotes. The text-to-binary encoder is deterministic: the same text
/// yields the same bytes.
pub uninterp spec fn wasm_encoding_of(text: Seq<char>) -> Seq<u8>;

/// Whether the binary-module encoder accepts the given module text; its
/// success, like its output, is a function of the text alone.
pub uninterp spec fn wasm_encodable(text: Seq<char>) -> bool;

/// The component binary built from a core module's bytes by the component
/// encoder under its default settings; a deterministic function of the
/// module bytes, which carry the embedded interface metadata.
pub uninterp spec fn component_encoding_of(module: Seq<u8>) -> Seq<u8>;

/// Whether the component encoder accepts the given module image; its
/// success, like its output, is a function of the module bytes alone.
pub uninterp spec fn component_encodable(module: Seq<u8>) -> bool;

/// Relies on wast: `parser::ParseBuffer::new` and `parser::parse` read the
/// module text, and `Wat::encode` writes the binary module; together a
/// deterministic function of the text alone.
#[verifier::external_body]
fn wat_to_binary(text: &str) -> (r: Result<Vec<u8>, wast::Error>)
    ensures
        r matches Ok(b) ==> b@ == wasm_encoding_of(text@),
        r is Ok <==> wasm_encodable(text@),
{
    let buf = wast::parser::ParseBuffer::new(text)?;
    let mut ast = wast::parser::parse::<wast::Wat>(&buf)?;
    ast.encode()
}

/// Relies on wit_component::embed_component_metadata: on success it appends
/// one custom section holding the encoded interface metadata to the module
/// bytes; on failure it leaves them untouched. The call would abort on a
/// world identifier that does not belong to the given resolver, or whose
/// world carries no package — neither can be ruled out by a precondition
/// over the opaque types — so the body refuses such a pair first, through
/// id_arena::Arena::get, which answers nothing instead of asserting.
#[verifier::external_body]
fn embed_metadata(
    bytes: &mut Vec<u8>,
    resolve: &wit_parser::Resolve,
    world: wit_parser::WorldId,
) -> (r: Result<(), anyhow::Error>)
    ensures
        r is Ok ==> old(bytes)@.is_prefix_of(final(bytes)@),
        r is Err ==> final(bytes)@ == old(bytes)@,
{
    match resolve.worlds.get(world) {
        Some(w) if w.package.is_some() => wit_component::embed_component_metadata(
            bytes,
            resolve,
            world,
            wit_component::StringEncoding::UTF8,
            false,
        ),
        _ => Err(anyhow::Error::msg("the world does not belong to the given resolver")),
    }
}

/// Relies on wit_component::ComponentEncoder: `default`, `module` and
/// `encode` turn a core module with embedded metadata into a component
/// binary, deterministically in the module bytes under default settings.
#[verifier::external_body]
fn encode_component(module: &Vec<u8>) -> (r: Result<Vec<u8>, anyhow::Error>)
    ensures
        r matches Ok(b) ==> b@ == component_encoding_of(module@),
        r is Ok <==> component_encodable(module@),
{
    let mut enc = wit_component::ComponentEncoder::default();
    enc.module(module.as_slice())?;
    enc.encode()
}

/// The verified middle of the run: `rewritten` is the transformation, under
/// the standard template catalog, of the tree that the input text denotes.
pub open spec fn rewritten_by(
    text: Seq<char>,
    entries: Seq<crate::symbols::SymbolEntry>,
    rewritten: ModuleTree,
) -> bool {
    exists|ts: Seq<Tok>, module: ModuleTree, shims: Seq<Shim>|
        {
            &&& #[trigger] lex_ok(text, 0, ts)
            &&& parses_to(ts, module)
            &&& shim_names(shims) == standard_shim_names()
            &&& distinct_shim_names(shims)
            &&& #[trigger] transform_post(module, rewritten, entries, shims)
        }
}

/// Adapt one compiled module end to end: on success the result is the
/// component encoding of a module image that extends the binary encoding of
/// the printed transformed tree by the embedded metadata section, and the
/// tree itself is the transformation of what the input text denotes.
pub open spec fn adapted(
    text: Seq<char>,
    entries: Seq<crate::symbols::SymbolEntry>,
    out: Seq<u8>,
) -> bool {
    exists|rewritten: ModuleTree, image: Seq<u8>|
        {
            &&& #[trigger] rewritten_by(text, entries, rewritten)
            &&& wasm_encoding_of(render_module_spec(rewritten)).is_prefix_of(image)
            &&& out == #[trigger] component_encoding_of(image)
        }
}

/// Adapt one compiled module: read its text into the field tree, transform
/// the tree against the symbol map ([`crate::transform::transform`] states
/// exactly what the pass does), print it back, and package the result as a
/// component with the world's metadata embedded. Every failure aborts the
/// whole run with no partial output, and every error comes exactly with its
/// condition: a text that does not lex, a token sequence without the module
/// shape, a module without the owed start export, or a refusal of one of
/// the three encoding steps.
pub fn componentize(
    wat: &str,
    symbols: &SymbolMap,
    resolve: &wit_parser::Resolve,
    world: wit_parser::WorldId,
) -> (r: Result<Vec<u8>, AdaptError>)
    ensures
        r matches Ok(out) ==> adapted(wat@, symbols.entries@, out@),
        r matches Err(e) ==> match e {
            AdaptError::UnterminatedQuote { .. } => !lexes_from(wat@, 0),
            AdaptError::UnterminatedComment { .. } => !lexes_from(wat@, 0),
            AdaptError::StrayChar { .. } => !lexes_from(wat@, 0),
            AdaptError::NotAModule => exists|ts: Seq<Tok>|
                #[trigger] lex_ok(wat@, 0, ts) && !module_parseable(ts),
            AdaptError::MissingStart => exists|ts: Seq<Tok>, md: ModuleTree|
                lex_ok(wat@, 0, ts) && #[trigger] parses_to(ts, md) && start_index_of(
                    md.fields@,
                ) is None,
            AdaptError::Encode(_) => exists|rw: ModuleTree|
                #[trigger] rewritten_by(wat@, symbols.entries@, rw) && !wasm_encodable(
                    render_module_spec(rw),
                ),
            AdaptError::Embed(_) => exists|rw: ModuleTree|
                #[trigger] rewritten_by(wat@, symbols.entries@, rw) && wasm_encodable(
                    render_module_spec(rw),
                ),
            AdaptError::Component(_) => exists|rw: ModuleTree, image: Seq<u8>|
                #[trigger] rewritten_by(wat@, symbols.entries@, rw) && wasm_encoding_of(
                    render_module_spec(rw),
                ).is_prefix_of(image) && !(#[trigger] component_encodable(image)),
        },
{
    let toks = tokenize(wat)?;
    let ghost token_seq = toks@;
    let module = match parse_module(toks) {
        Ok(m) => m,
        Err(e) => {
            proof {
                assert(lex_ok(wat@, 0, token_seq) && !module_parseable(token_seq));
            }
            return Err(e);
        },
    };
    let ghost parsed = module;
    let catalog = ShimCatalog::standard()?;
    let ghost shims = catalog.shims@;
    let module = match transform(module, symbols, catalog) {
        Ok(m) => m,
        Err(e) => {
            proof {
                assert(lex_ok(wat@, 0, token_seq) && parses_to(token_seq, parsed)
                    && start_index_of(parsed.fields@) is None);
            }
            return Err(e);
        },
    };
    proof {
        assert(rewritten_by(wat@, symbols.entries@, module));
    }
    let text = render_module(&module);
    let mut bytes = match wat_to_binary(text.as_str()) {
        Ok(b) => b,
        Err(e) => {
            proof {
                assert(!wasm_encodable(render_module_spec(module)));
            }
            return Err(AdaptError::Encode(e));
        },
    };
    match embed_metadata(&mut bytes, resolve, world) {
        Ok(u) => u,
        Err(e) => {
            proof {
                assert(wasm_encodable(render_module_spec(module)));
            }
            return Err(AdaptError::Embed(e));
        },
    };
    match encode_component(&bytes) {
        Ok(out) => {
            proof {
                assert(wasm_encoding_of(render_module_spec(module)).is_prefix_of(bytes@));
                assert(out@ == component_encoding_of(bytes@));
                assert(adapted(wat@, symbols.entries@, out@));
            }
            Ok(out)
        },
        Err(e) => {
            proof {
                assert(wasm_encoding_of(render_module_spec(module)).is_prefix_of(bytes@));
                assert(!component_encodable(bytes@));
            }
            Err(AdaptError::Component(e))
        },
    }
}

} // verus!
