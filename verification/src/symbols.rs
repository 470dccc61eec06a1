//! The symbol map: for every interface-qualified export key, the low-level
//! export symbol the compiler is expected to have produced, and whether the
//! function is declared to return a value. Built once per run, read-only
//! thereafter.

use vstd::prelude::*;

verus! {

/// One mapping entry.
pub struct SymbolEntry {
    pub key: String,
    pub symbol: String,
    pub has_result: bool,
}

/// The authoritative mapping from export keys to export symbols.
pub struct SymbolMap {
    pub entries: Vec<SymbolEntry>,
}

/// First entry whose key reads as `key`.
pub open spec fn lookup_spec(entries: Seq<SymbolEntry>, key: Seq<char>) -> Option<SymbolEntry>
    decreases entries.len(),
{
    if entries.len() == 0 {
        None
    } else if entries.first().key@ == key {
        Some(entries.first())
    } else {
        lookup_spec(entries.drop_first(), key)
    }
}

impl SymbolMap {
    /// What `key` maps to.
    pub open spec fn spec_lookup(&self, key: Seq<char>) -> Option<SymbolEntry> {
        lookup_spec(self.entries@, key)
    }

    /// An empty map.
    pub fn new() -> (r: SymbolMap)
        ensures
            r.entries@.len() == 0,
    {
        SymbolMap { entries: Vec::new() }
    }

    /// Record that `key` names the export symbol `symbol`, returning
    /// `has_result` or not.
    pub fn insert(&mut self, key: String, symbol: String, has_result: bool)
        ensures
            final(self).entries@ == old(self).entries@.push(
                SymbolEntry { key, symbol, has_result },
            ),
    {
        self.entries.push(SymbolEntry { key, symbol, has_result });
    }

    /// Look `key` up; the symbol and the return-value flag of the first
    /// matching entry come back.
    pub fn lookup(&self, key: &String) -> (r: Option<(String, bool)>)
        ensures
            match self.spec_lookup(key@) {
                Some(entry) => {
                    &&& r matches Some(p)
                    &&& p.0 == entry.symbol
                    &&& p.1 == entry.has_result
                },
                None => r is None,
            },
    {
        let n = self.entries.len();
        let mut i: usize = 0;
        proof {
            assert(self.entries@.skip(0) =~= self.entries@);
        }
        while i < n
            invariant
                n == self.entries@.len(),
                i <= n,
                lookup_spec(self.entries@, key@) == lookup_spec(self.entries@.skip(i as int), key@),
            decreases n - i,
        {
            let e = &self.entries[i];
            if e.key == *key {
                proof {
                    assert(self.entries@.skip(i as int).first() == self.entries@[i as int]);
                }
                return Some((e.symbol.clone(), e.has_result));
            }
            proof {
                assert(self.entries@.skip(i as int).drop_first() =~= self.entries@.skip(
                    i as int + 1,
                ));
            }
            i = i + 1;
        }
        proof {
            assert(self.entries@.skip(n as int).len() == 0);
        }
        None
    }
}

} // verus!
