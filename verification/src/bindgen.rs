//! The symbol resolver: the naming pass that derives, for every exported
//! function of the (augmented) world, the compiler's internal function name
//! and the export symbol the component expects. The scheme is a standalone
//! pure function, so the adapter and any code generator derive the same
//! names from the same interface description.

use vstd::prelude::*;
use vstd::string::{StrSliceExecFns, StringExecFns};

use crate::symbols::{SymbolEntry, SymbolMap};
use crate::world::WorldExports;

verus! {

/// Options of the binding-generation pass. It has none.
#[derive(Debug, Default)]
pub struct Opts {}

/// How one character of an interface name reads in the compiler's internal
/// function name: the separator of kebab-case interface names becomes an
/// underscore.
pub open spec fn internal_char(c: char) -> char {
    if c == '-' {
        '_'
    } else {
        c
    }
}

/// The compiler's internal function name derived from an interface name.
pub open spec fn internal_key_of(name: Seq<char>) -> Seq<char> {
    name.map_values(|c: char| internal_char(c))
}

/// Derive the compiler's internal function name from an interface name. The
/// qualified export the compiler emits ends in this key, and the symbol map
/// is looked up by it.
pub fn internal_key(name: &str) -> (r: String)
    ensures
        r@ == internal_key_of(name@),
{
    let n = name.unicode_len();
    let mut r = String::new();
    let mut i: usize = 0;
    proof {
        assert(r@ =~= internal_key_of(name@.take(0)));
    }
    while i < n
        invariant
            n == name@.len(),
            i <= n,
            r@ == internal_key_of(name@.take(i as int)),
        decreases n - i,
    {
        let ghost prev = r@;
        if name.get_char(i) == '-' {
            r.append("_");
            proof {
                reveal_strlit("_");
                assert("_"@ =~= seq!['_']);
            }
        } else {
            r.append(name.substring_char(i, i + 1));
            proof {
                assert(name@.subrange(i as int, i as int + 1) =~= seq![name@[i as int]]);
            }
        }
        proof {
            assert(r@ =~= prev.push(internal_char(name@[i as int])));
            assert(internal_key_of(name@.take(i as int + 1)) =~= internal_key_of(
                name@.take(i as int),
            ).push(internal_char(name@[i as int])));
        }
        i = i + 1;
    }
    proof {
        assert(name@.take(n as int) =~= name@);
    }
    r
}

/// Run the naming pass over the world's export set and capture the
/// authoritative symbol map: one entry per exported function, keyed by the
/// compiler's internal name, carrying the canonical export symbol — the
/// interface name itself, which the component encoder expects — and the
/// return-value flag.
pub fn resolve_symbols(w: &WorldExports) -> (r: SymbolMap)
    ensures
        r.entries@.len() == w.funcs@.len(),
        forall|i: int|
            0 <= i < w.funcs@.len() ==> {
                let e = #[trigger] r.entries@[i];
                &&& e.key@ == internal_key_of(w.funcs@[i].name@)
                &&& e.symbol == w.funcs@[i].name
                &&& e.has_result == w.funcs@[i].has_result
            },
{
    let n = w.funcs.len();
    let mut r = SymbolMap::new();
    let mut i: usize = 0;
    while i < n
        invariant
            n == w.funcs@.len(),
            i <= n,
            r.entries@.len() == i,
            forall|k: int|
                0 <= k < i ==> {
                    let e = #[trigger] r.entries@[k];
                    &&& e.key@ == internal_key_of(w.funcs@[k].name@)
                    &&& e.symbol == w.funcs@[k].name
                    &&& e.has_result == w.funcs@[k].has_result
                },
        decreases n - i,
    {
        let f = &w.funcs[i];
        let key = internal_key(f.name.as_str());
        r.insert(key, f.name.clone(), f.has_result);
        i = i + 1;
    }
    r
}

} // verus!
