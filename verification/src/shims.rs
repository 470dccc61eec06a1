//! The builtin shim catalog: a fixed table of small instruction-sequence
//! templates (memory copy, 32/64-bit loads, data-pointer arithmetic, a
//! console-output stub) plus the standalone reallocation shim. Each template
//! is tokenized eagerly, so injection later is a pure tree append.

use vstd::prelude::*;

use crate::text::{lex_ok, lexes_from, tokenize, Tok};
use crate::tree::allocator_name;
use crate::AdaptError;

verus! {

/// One named template. Its activation key is `name`: a direct call of
/// `$name` anywhere in a function body activates the template.
pub struct Shim {
    pub name: String,
    pub toks: Vec<Tok>,
}

/// The fixed catalog. The reallocation shim stands last; its activation key
/// is the internal allocator routine's name, while its template defines the
/// reallocation export itself.
pub struct ShimCatalog {
    pub shims: Vec<Shim>,
}

/// The names of the catalog's templates, in catalog order.
pub open spec fn shim_names(shims: Seq<Shim>) -> Seq<Seq<char>> {
    shims.map_values(|s: Shim| s.name@)
}

/// No two templates share a name.
pub open spec fn distinct_shim_names(shims: Seq<Shim>) -> bool {
    forall|i: int, j: int|
        0 <= i < j < shims.len() ==> (#[trigger] shims[i]).name@ != (#[trigger] shims[j]).name@
}

/// The fixed names, in catalog order.
pub open spec fn standard_shim_names() -> Seq<Seq<char>> {
    seq![
        "rael.memory_copy"@,
        "rael.load_i32"@,
        "rael.load_i64"@,
        "rael.bytes_data"@,
        "moonbit.string_data"@,
        "printc"@,
        "rael.malloc"@,
    ]
}

/// The fixed template texts, in catalog order.
pub open spec fn standard_shim_text(k: int) -> Seq<char> {
    if k == 0 {
        "func $rael.memory_copy (param $dest i32) (param $src i32) (param $len i32) (memory.copy (local.get $dest) (local.get $src) (local.get $len))"@
    } else if k == 1 {
        "func $rael.load_i32 (param $ptr i32) (result i32) (i32.load (local.get $ptr))"@
    } else if k == 2 {
        "func $rael.load_i64 (param $ptr i32) (result i64) (i64.load (local.get $ptr))"@
    } else if k == 3 {
        "func $rael.bytes_data (param $str i32) (result i32) (i32.add (local.get $str) (i32.const 4))"@
    } else if k == 4 {
        "func $moonbit.string_data (param $str i32) (result i32) (i32.add (local.get $str) (i32.const 4))"@
    } else if k == 5 {
        "func $printc (param $ptr i32)"@
    } else {
        "func (export \"cabi_realloc\") (param i32) (param i32) (param i32) (param $len i32) (result i32) (call $rael.malloc (local.get $len))"@
    }
}

impl ShimCatalog {
    /// Build the fixed catalog, tokenizing every template. The fixed
    /// templates always lex, so construction always succeeds; a failure
    /// would be a defect of the adapter itself, never of its input.
    #[verifier::rlimit(100)]
    pub fn standard() -> (r: Result<ShimCatalog, AdaptError>)
        ensures
            r is Ok,
            r matches Ok(c) ==> {
                &&& shim_names(c.shims@) =~= standard_shim_names()
                &&& distinct_shim_names(c.shims@)
                &&& c.shims@.len() > 0 && c.shims@.last().name@ == allocator_name()
                &&& forall|k: int|
                    0 <= k < c.shims@.len() ==> lex_ok(
                        standard_shim_text(k),
                        0,
                        (#[trigger] c.shims@[k]).toks@,
                    )
            },
    {
        proof {
            lemma_template_lexes_copy();
            lemma_template_lexes_load32();
            lemma_template_lexes_load64();
            lemma_template_lexes_bytes();
            lemma_template_lexes_string();
            lemma_template_lexes_printc();
            lemma_template_lexes_realloc();
        }
        let mut shims: Vec<Shim> = Vec::new();
        let toks = tokenize(
            "func $rael.memory_copy (param $dest i32) (param $src i32) (param $len i32) (memory.copy (local.get $dest) (local.get $src) (local.get $len))",
        )?;
        shims.push(Shim { name: "rael.memory_copy".to_owned(), toks });
        let toks = tokenize(
            "func $rael.load_i32 (param $ptr i32) (result i32) (i32.load (local.get $ptr))",
        )?;
        shims.push(Shim { name: "rael.load_i32".to_owned(), toks });
        let toks = tokenize(
            "func $rael.load_i64 (param $ptr i32) (result i64) (i64.load (local.get $ptr))",
        )?;
        shims.push(Shim { name: "rael.load_i64".to_owned(), toks });
        let toks = tokenize(
            "func $rael.bytes_data (param $str i32) (result i32) (i32.add (local.get $str) (i32.const 4))",
        )?;
        shims.push(Shim { name: "rael.bytes_data".to_owned(), toks });
        let toks = tokenize(
            "func $moonbit.string_data (param $str i32) (result i32) (i32.add (local.get $str) (i32.const 4))",
        )?;
        shims.push(Shim { name: "moonbit.string_data".to_owned(), toks });
        let toks = tokenize("func $printc (param $ptr i32)")?;
        shims.push(Shim { name: "printc".to_owned(), toks });
        let toks = tokenize(
            "func (export \"cabi_realloc\") (param i32) (param i32) (param i32) (param $len i32) (result i32) (call $rael.malloc (local.get $len))",
        )?;
        shims.push(Shim { name: "rael.malloc".to_owned(), toks });
        proof {
            reveal_strlit("rael.memory_copy");
            reveal_strlit("rael.load_i32");
            reveal_strlit("rael.load_i64");
            reveal_strlit("rael.bytes_data");
            reveal_strlit("moonbit.string_data");
            reveal_strlit("printc");
            reveal_strlit("rael.malloc");
            assert(shim_names(shims@) =~= standard_shim_names());
            assert("rael.memory_copy"@.len() == 16);
            assert("rael.load_i32"@.len() == 13);
            assert("rael.load_i64"@.len() == 13);
            assert("rael.bytes_data"@.len() == 15);
            assert("moonbit.string_data"@.len() == 19);
            assert("printc"@.len() == 6);
            assert("rael.malloc"@.len() == 11);
            assert("rael.load_i32"@[11] != "rael.load_i64"@[11]);
            assert(shims@.last().name@ =~= allocator_name());
            assert(distinct_shim_names(shims@));
            assert forall|k: int| 0 <= k < shims@.len() implies lex_ok(
                standard_shim_text(k),
                0,
                (#[trigger] shims@[k]).toks@,
            ) by {
                assert(shims@.len() == 7);
            }
        }
        Ok(ShimCatalog { shims })
    }
}


/// The fixed templates lex, one proof per template: the memory-copy shim.
#[verifier::rlimit(100)]
#[verifier::spinoff_prover]
proof fn lemma_template_lexes_copy()
    ensures
        lexes_from(standard_shim_text(0), 0),
{
    reveal_strlit("func $rael.memory_copy (param $dest i32) (param $src i32) (param $len i32) (memory.copy (local.get $dest) (local.get $src) (local.get $len))");
    reveal_with_fuel(crate::text::lexes_from, 90);
    reveal_with_fuel(crate::text::atom_end, 20);
    assert(lexes_from(standard_shim_text(0), 0));
}

/// The 32-bit load shim.
#[verifier::rlimit(100)]
proof fn lemma_template_lexes_load32()
    ensures
        lexes_from(standard_shim_text(1), 0),
{
    reveal_strlit("func $rael.load_i32 (param $ptr i32) (result i32) (i32.load (local.get $ptr))");
    reveal_with_fuel(crate::text::lexes_from, 60);
    reveal_with_fuel(crate::text::atom_end, 25);
}

/// The 64-bit load shim.
#[verifier::rlimit(100)]
proof fn lemma_template_lexes_load64()
    ensures
        lexes_from(standard_shim_text(2), 0),
{
    reveal_strlit("func $rael.load_i64 (param $ptr i32) (result i64) (i64.load (local.get $ptr))");
    reveal_with_fuel(crate::text::lexes_from, 60);
    reveal_with_fuel(crate::text::atom_end, 25);
}

/// The byte-buffer data-pointer shim.
#[verifier::rlimit(100)]
proof fn lemma_template_lexes_bytes()
    ensures
        lexes_from(standard_shim_text(3), 0),
{
    reveal_strlit(
        "func $rael.bytes_data (param $str i32) (result i32) (i32.add (local.get $str) (i32.const 4))",
    );
    reveal_with_fuel(crate::text::lexes_from, 70);
    reveal_with_fuel(crate::text::atom_end, 25);
}

/// The string data-pointer shim.
#[verifier::rlimit(100)]
proof fn lemma_template_lexes_string()
    ensures
        lexes_from(standard_shim_text(4), 0),
{
    reveal_strlit(
        "func $moonbit.string_data (param $str i32) (result i32) (i32.add (local.get $str) (i32.const 4))",
    );
    reveal_with_fuel(crate::text::lexes_from, 70);
    reveal_with_fuel(crate::text::atom_end, 25);
}

/// The console-output stub.
#[verifier::rlimit(100)]
proof fn lemma_template_lexes_printc()
    ensures
        lexes_from(standard_shim_text(5), 0),
{
    reveal_strlit("func $printc (param $ptr i32)");
    reveal_with_fuel(crate::text::lexes_from, 40);
    reveal_with_fuel(crate::text::atom_end, 25);
}

/// The reallocation shim.
#[verifier::rlimit(100)]
proof fn lemma_template_lexes_realloc()
    ensures
        lexes_from(standard_shim_text(6), 0),
{
    reveal_strlit(
        "func (export \"cabi_realloc\") (param i32) (param i32) (param i32) (param $len i32) (result i32) (call $rael.malloc (local.get $len))",
    );
    reveal_with_fuel(crate::text::lexes_from, 80);
    reveal_with_fuel(crate::text::atom_end, 25);
    reveal_with_fuel(crate::text::quoted_end, 20);
}

} // verus!
