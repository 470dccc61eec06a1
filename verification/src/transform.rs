//! The central pass over a module's field list. In one forward sweep it
//! drops test-harness imports, renames the internal memory export, maps
//! qualified function export names through the symbol map, corrects the
//! surplus-result defect, and captures the start export; it then appends the
//! builtin templates that the module actually calls, and one start reference.

use vstd::prelude::*;
use vstd::string::StrSliceExecFns;

use crate::shims::{Shim, ShimCatalog};
use crate::symbols::{lookup_spec, SymbolEntry, SymbolMap};
use crate::text::Tok;
use crate::tree::{
    canonical_memory_name, field_dropped, internal_memory_name, kept_len, module_calls,
    start_export_name, start_index_of, Field, FuncField, ModuleTree,
};
use crate::AdaptError;

verus! {

/// The part of `s` that follows the first `::`.
pub open spec fn qualified_suffix(s: Seq<char>) -> Option<Seq<char>>
    decreases s.len(),
{
    if s.len() < 2 {
        None
    } else if s[0] == ':' && s[1] == ':' {
        Some(s.skip(2))
    } else {
        qualified_suffix(s.skip(1))
    }
}

/// A lone `drop` instruction.
pub open spec fn is_drop_atom(t: Tok) -> bool {
    t matches Tok::Atom(a) && a@ == "drop"@
}

/// How one function field is rewritten. A single qualified export name whose
/// bare key the symbol map knows is replaced by the mapped symbol; when the
/// map says the function returns nothing but one result is declared, the
/// declared result list is emptied and a value-discarding instruction is
/// appended after the existing instruction sequence. Everything else is left
/// unchanged.
pub open spec fn func_rewritten(f: FuncField, g: FuncField, m: Seq<SymbolEntry>) -> bool {
    if f.exports@.len() == 1 {
        match qualified_suffix(f.exports@[0]@) {
            Some(key) => match lookup_spec(m, key) {
                Some(entry) => {
                    &&& g.exports@ == seq![entry.symbol]
                    &&& g.head == f.head
                    &&& g.pre == f.pre
                    &&& if !entry.has_result && f.results@.len() == 1 {
                        &&& g.results@.len() == 0
                        &&& g.body@.len() == f.body@.len() + 1
                        &&& g.body@.drop_last() == f.body@
                        &&& is_drop_atom(g.body@.last())
                    } else {
                        &&& g.results == f.results
                        &&& g.body == f.body
                    }
                },
                None => g == f,
            },
            None => g == f,
        }
    } else {
        g == f
    }
}

/// How one kept field is rewritten: a memory whose single inline export name
/// is the compiler's internal one is renamed to the canonical `memory`;
/// functions follow [`func_rewritten`]; every other field passes through.
pub open spec fn field_rewritten(f: Field, g: Field, m: Seq<SymbolEntry>) -> bool {
    match f {
        Field::Memory { head, exports, rest } => {
            if exports.deep_view() == seq![internal_memory_name()] {
                match g {
                    Field::Memory { head: gh, exports: ge, rest: gr } => {
                        &&& gh == head
                        &&& ge@.len() == 1
                        &&& ge@[0]@ == canonical_memory_name()
                        &&& gr == rest
                    },
                    _ => false,
                }
            } else {
                g == f
            }
        },
        Field::Func(ff) => match g {
            Field::Func(gf) => func_rewritten(ff, gf, m),
            _ => false,
        },
        _ => g == f,
    }
}

/// The rewriting pass over a whole field sequence: dropped fields vanish,
/// every kept field is rewritten in place, order is preserved.
pub open spec fn fields_rewritten(ins: Seq<Field>, outs: Seq<Field>, m: Seq<SymbolEntry>) -> bool
    decreases ins.len(),
{
    if ins.len() == 0 {
        outs.len() == 0
    } else if field_dropped(ins.last()) {
        fields_rewritten(ins.drop_last(), outs, m)
    } else {
        &&& outs.len() > 0
        &&& fields_rewritten(ins.drop_last(), outs.drop_last(), m)
        &&& field_rewritten(ins.last(), outs.last(), m)
    }
}

/// The template fields appended for a catalog, in catalog order: one field
/// per template whose name some function body calls.
pub open spec fn shim_fields(shims: Seq<Shim>, ins: Seq<Field>) -> Seq<Field>
    decreases shims.len(),
{
    if shims.len() == 0 {
        Seq::empty()
    } else {
        shim_fields(shims.drop_last(), ins) + if module_calls(ins, shims.last().name@) {
            seq![Field::Shim { name: shims.last().name, toks: shims.last().toks }]
        } else {
            Seq::empty()
        }
    }
}

/// Split an export name at its first `::`, returning what follows.
fn split_qualified(name: &str) -> (r: Option<String>)
    ensures
        match qualified_suffix(name@) {
            Some(suffix) => r matches Some(s) && s@ == suffix,
            None => r is None,
        },
{
    let n = name.unicode_len();
    let mut i: usize = 0;
    proof {
        assert(name@.skip(0) =~= name@);
    }
    while i < n && i + 1 < n
        invariant
            n == name@.len(),
            i <= n,
            qualified_suffix(name@) == qualified_suffix(name@.skip(i as int)),
        decreases n - i,
    {
        if name.get_char(i) == ':' && name.get_char(i + 1) == ':' {
            let s = name.substring_char(i + 2, n).to_owned();
            proof {
                assert(name@.skip(i as int).skip(2) =~= name@.subrange(i as int + 2, n as int));
            }
            return Some(s);
        }
        proof {
            assert(name@.skip(i as int).skip(1) =~= name@.skip(i as int + 1));
        }
        i = i + 1;
    }
    proof {
        assert(name@.skip(i as int).len() < 2);
    }
    None
}

/// Whether `u` is the atom `$name`.
fn is_call_target(u: &Tok, name: &String) -> (r: bool)
    ensures
        r == (u matches Tok::Atom(b) && b@ == seq!['$'] + name@),
{
    match u {
        Tok::Atom(b) => {
            let bl = b.as_str().unicode_len();
            let nl = name.as_str().unicode_len();
            if bl >= 1 && bl - 1 == nl && b.as_str().get_char(0) == '$' {
                let tail = b.as_str().substring_char(1, bl).to_owned();
                let hit = tail == *name;
                proof {
                    if hit {
                        assert(b@ =~= seq!['$'] + name@);
                    } else {
                        assert(b@[0] == '$');
                        if b@ == seq!['$'] + name@ {
                            assert(b@.subrange(1, bl as int) =~= name@);
                        }
                    }
                }
                hit
            } else {
                proof {
                    let t = seq!['$'] + name@;
                    assert(t.len() == name@.len() + 1);
                    assert(t[0] == '$');
                }
                false
            }
        },
        _ => false,
    }
}

/// Whether a token run contains a direct call of `$name`.
fn toks_call(ts: &Vec<Tok>, name: &String) -> (r: bool)
    ensures
        r == crate::tree::calls_in(ts@, name@),
{
    let call_kw = "call".to_owned();
    let n = ts.len();
    let mut i: usize = 0;
    while i < n && i + 1 < n
        invariant
            n == ts@.len(),
            i <= n,
            forall|k: int|
                0 <= k && k + 1 < i + 1 && k + 1 < n ==> !(#[trigger] crate::tree::is_call_pair(
                    ts@[k],
                    ts@[k + 1],
                    name@,
                )),
            call_kw@ == "call"@,
        decreases n - i,
    {
        let head_is_call = match &ts[i] {
            Tok::Atom(a) => *a == call_kw,
            _ => false,
        };
        if head_is_call && is_call_target(&ts[i + 1], name) {
            assert(crate::tree::is_call_pair(ts@[i as int], ts@[i as int + 1], name@));
            return true;
        }
        i = i + 1;
    }
    false
}

/// Whether any function body in `fields` directly calls `$name`.
fn module_calls_exec(fields: &Vec<Field>, name: &String) -> (r: bool)
    ensures
        r == module_calls(fields@, name@),
{
    let n = fields.len();
    let mut i: usize = 0;
    while i < n
        invariant
            n == fields@.len(),
            i <= n,
            forall|k: int|
                0 <= k < i ==> !((#[trigger] fields@[k]) matches Field::Func(ff) && crate::tree::calls_in(
                    ff.body@,
                    name@,
                )),
        decreases n - i,
    {
        let hit = match &fields[i] {
            Field::Func(ff) => toks_call(&ff.body, name),
            _ => false,
        };
        if hit {
            return true;
        }
        i = i + 1;
    }
    false
}

/// Rewrite one kept field.
fn rewrite_field(f: Field, symbols: &SymbolMap) -> (g: Field)
    ensures
        field_rewritten(f, g, symbols.entries@),
{
    match f {
        Field::Memory { head, exports, rest } => {
            let internal = "moonbit.memory".to_owned();
            if exports.len() == 1 && exports[0] == internal {
                proof {
                    assert(exports.deep_view() =~= seq![internal_memory_name()]);
                }
                let mut ge: Vec<String> = Vec::new();
                ge.push("memory".to_owned());
                Field::Memory { head, exports: ge, rest }
            } else {
                proof {
                    if exports.deep_view() == seq![internal_memory_name()] {
                        assert(exports.deep_view().len() == 1);
                        assert(exports@.len() == 1);
                        assert(exports.deep_view()[0] == exports@[0].deep_view());
                        assert(seq![internal_memory_name()][0] == internal_memory_name());
                        assert(exports@[0]@ == internal_memory_name());
                    }
                }
                Field::Memory { head, exports, rest }
            }
        },
        Field::Func(ff) => {
            let mut ff = ff;
            if ff.exports.len() == 1 {
                match split_qualified(ff.exports[0].as_str()) {
                    Some(key) => match symbols.lookup(&key) {
                        Some(mapped) => {
                            let (symbol, has_result) = mapped;
                            let mut ge: Vec<String> = Vec::new();
                            ge.push(symbol);
                            ff.exports = ge;
                            if !has_result && ff.results.len() == 1 {
                                ff.results = Vec::new();
                                let ghost prev_body = ff.body@;
                                ff.body.push(Tok::Atom("drop".to_owned()));
                                proof {
                                    assert(ff.body@.drop_last() =~= prev_body);
                                }
                            }
                            Field::Func(ff)
                        },
                        None => Field::Func(ff),
                    },
                    None => Field::Func(ff),
                }
            } else {
                Field::Func(ff)
            }
        },
        other => other,
    }
}

/// Everything the transformation guarantees of its output: the rewritten
/// core fields stand first, then one field per activated template in
/// catalog order, then a single start reference for the captured start
/// export.
pub open spec fn transform_post(
    m: ModuleTree,
    out: ModuleTree,
    entries: Seq<SymbolEntry>,
    shims: Seq<Shim>,
) -> bool {
    let core = kept_len(m.fields@) as int;
    let sf = shim_fields(shims, m.fields@);
    &&& start_index_of(m.fields@) is Some
    &&& out.id == m.id
    &&& out.fields@.len() == core + sf.len() + 1
    &&& fields_rewritten(m.fields@, out.fields@.take(core), entries)
    &&& out.fields@.subrange(core, core + sf.len() as int) == sf
    &&& (start_index_of(m.fields@) matches Some(idx) && out.fields@.last() == (Field::Start {
        index: idx,
    }))
}

/// Transform a module: one rewriting pass, then the activated templates,
/// then a single start reference for the captured start export. When the
/// module declares no start export the transformation refuses the module,
/// since the compiler contract owes exactly one.
pub fn transform(m: ModuleTree, symbols: &SymbolMap, catalog: ShimCatalog) -> (r: Result<
    ModuleTree,
    AdaptError,
>)
    ensures
        r matches Err(e) ==> e matches AdaptError::MissingStart && start_index_of(m.fields@) is None,
        r matches Ok(out) ==> transform_post(m, out, symbols.entries@, catalog.shims@),
{
    let ModuleTree { id, fields } = m;
    let ghost ins = fields@;
    let ncat = catalog.shims.len();

    // which templates the module activates
    let mut used: Vec<bool> = Vec::new();
    let mut j: usize = 0;
    while j < ncat
        invariant
            ncat == catalog.shims@.len(),
            used@.len() == j <= ncat,
            fields@ == ins,
            forall|k: int|
                0 <= k < j ==> used@[k] == module_calls(ins, (#[trigger] catalog.shims@[k]).name@),
        decreases ncat - j,
    {
        let u = module_calls_exec(&fields, &catalog.shims[j].name);
        used.push(u);
        j = j + 1;
    }

    // the rewriting pass
    let nf = fields.len();
    let mut rest = fields;
    let mut out: Vec<Field> = Vec::new();
    let mut start: Option<String> = None;
    let mut i: usize = 0;
    proof {
        assert(ins.skip(0) =~= ins);
        assert(ins.take(0) =~= Seq::<Field>::empty());
    }
    while rest.len() > 0
        invariant
            nf == ins.len(),
            i + rest@.len() == ins.len(),
            rest@ == ins.skip(i as int),
            fields_rewritten(ins.take(i as int), out@, symbols.entries@),
            out@.len() == kept_len(ins.take(i as int)),
            match start_index_of(ins.take(i as int)) {
                Some(s) => start matches Some(t) && t == s,
                None => start is None,
            },
        decreases rest@.len(),
    {
        let f = rest.remove(0);
        proof {
            assert(ins.skip(i as int).remove(0) =~= ins.skip(i as int + 1));
            assert(f == ins[i as int]);
            assert(ins.take(i as int + 1).drop_last() =~= ins.take(i as int));
            assert(ins.take(i as int + 1).last() == ins[i as int]);
        }
        match f {
            Field::Import { module, rest: irest } => {
                let spect = "spectest".to_owned();
                if module == spect {
                    proof {
                        assert(field_dropped(ins[i as int]));
                    }
                } else {
                    proof {
                        assert(!field_dropped(ins[i as int]));
                    }
                    let ghost prev_out = out@;
                    let g = rewrite_field(Field::Import { module, rest: irest }, symbols);
                    out.push(g);
                    proof {
                        assert(out@.drop_last() =~= prev_out);
                        assert(fields_rewritten(ins.take(i as int + 1), out@, symbols.entries@));
                    }
                }
            },
            Field::Export(e) => {
                let startname = "_start".to_owned();
                if e.name == startname {
                    proof {
                        assert(field_dropped(ins[i as int]));
                    }
                    start = Some(e.index);
                } else {
                    proof {
                        assert(!field_dropped(ins[i as int]));
                    }
                    let ghost prev_out = out@;
                    let g = rewrite_field(Field::Export(e), symbols);
                    out.push(g);
                    proof {
                        assert(out@.drop_last() =~= prev_out);
                        assert(fields_rewritten(ins.take(i as int + 1), out@, symbols.entries@));
                    }
                }
            },
            other => {
                proof {
                    assert(!field_dropped(ins[i as int]));
                }
                let ghost prev_out = out@;
                let g = rewrite_field(other, symbols);
                out.push(g);
                proof {
                    assert(out@.drop_last() =~= prev_out);
                    assert(fields_rewritten(ins.take(i as int + 1), out@, symbols.entries@));
                }
            },
        }
        i = i + 1;
    }
    proof {
        assert(ins.take(i as int) =~= ins);
    }

    // append the activated templates, in catalog order
    let mut cshims = catalog.shims;
    let ghost cat = cshims@;
    let ghost core_out = out@;
    let mut k: usize = 0;
    proof {
        assert(cat.skip(0) =~= cat);
        assert(cat.take(0) =~= Seq::<Shim>::empty());
        assert(out@ =~= core_out + shim_fields(cat.take(0), ins));
    }
    while k < ncat
        invariant
            ncat == cat.len(),
            k <= ncat,
            used@.len() == ncat,
            cshims@ == cat.skip(k as int),
            forall|q: int| 0 <= q < ncat ==> used@[q] == module_calls(ins, (#[trigger] cat[q]).name@),
            out@ == core_out + shim_fields(cat.take(k as int), ins),
        decreases ncat - k,
    {
        let sh = cshims.remove(0);
        proof {
            assert(cat.skip(k as int).remove(0) =~= cat.skip(k as int + 1));
            assert(sh == cat[k as int]);
            assert(cat.take(k as int + 1).drop_last() =~= cat.take(k as int));
            assert(cat.take(k as int + 1).last() == cat[k as int]);
        }
        if used[k] {
            out.push(Field::Shim { name: sh.name, toks: sh.toks });
            proof {
                assert(out@ =~= core_out + shim_fields(cat.take(k as int + 1), ins));
            }
        } else {
            proof {
                assert(out@ =~= core_out + shim_fields(cat.take(k as int + 1), ins));
            }
        }
        k = k + 1;
    }
    proof {
        assert(cat.take(ncat as int) =~= cat);
    }

    // the start reference
    match start {
        None => Err(AdaptError::MissingStart),
        Some(idx) => {
            out.push(Field::Start { index: idx });
            let result = ModuleTree { id, fields: out };
            proof {
                let core = kept_len(ins) as int;
                let sf = shim_fields(cat, ins);
                assert(result.fields@.take(core) =~= core_out);
                assert(result.fields@.subrange(core, core + sf.len() as int) =~= sf);
            }
            Ok(result)
        },
    }
}

/// Every kept input field has a rewritten counterpart among the outputs.
pub proof fn lemma_rewritten_total(ins: Seq<Field>, outs: Seq<Field>, m: Seq<SymbolEntry>, i: int)
    requires
        fields_rewritten(ins, outs, m),
        0 <= i < ins.len(),
        !field_dropped(ins[i]),
    ensures
        exists|j: int| 0 <= j < outs.len() && field_rewritten(ins[i], #[trigger] outs[j], m),
    decreases ins.len(),
{
    if field_dropped(ins.last()) {
        assert(ins.drop_last()[i] == ins[i]);
        lemma_rewritten_total(ins.drop_last(), outs, m, i);
    } else if i == ins.len() - 1 {
        assert(field_rewritten(ins[i], outs[outs.len() - 1], m));
    } else {
        assert(ins.drop_last()[i] == ins[i]);
        lemma_rewritten_total(ins.drop_last(), outs.drop_last(), m, i);
        let j = choose|j: int|
            0 <= j < outs.drop_last().len() && field_rewritten(
                ins[i],
                #[trigger] outs.drop_last()[j],
                m,
            );
        assert(outs.drop_last()[j] == outs[j]);
        assert(field_rewritten(ins[i], outs[j], m));
    }
}

/// Every output field is the rewriting of some kept input field.
pub proof fn lemma_rewritten_from(ins: Seq<Field>, outs: Seq<Field>, m: Seq<SymbolEntry>, j: int)
    requires
        fields_rewritten(ins, outs, m),
        0 <= j < outs.len(),
    ensures
        exists|i: int|
            0 <= i < ins.len() && !field_dropped(#[trigger] ins[i]) && field_rewritten(
                ins[i],
                outs[j],
                m,
            ),
    decreases ins.len(),
{
    if ins.len() == 0 {
        assert(false);
    } else if field_dropped(ins.last()) {
        lemma_rewritten_from(ins.drop_last(), outs, m, j);
        let i = choose|i: int|
            0 <= i < ins.drop_last().len() && !field_dropped(#[trigger] ins.drop_last()[i])
                && field_rewritten(ins.drop_last()[i], outs[j], m);
        assert(ins.drop_last()[i] == ins[i]);
    } else if j == outs.len() - 1 {
        assert(!field_dropped(ins[ins.len() - 1]) && field_rewritten(
            ins[ins.len() - 1],
            outs[j],
            m,
        ));
    } else {
        lemma_rewritten_from(ins.drop_last(), outs.drop_last(), m, j);
        let i = choose|i: int|
            0 <= i < ins.drop_last().len() && !field_dropped(#[trigger] ins.drop_last()[i])
                && field_rewritten(ins.drop_last()[i], outs.drop_last()[j], m);
        assert(ins.drop_last()[i] == ins[i]);
        assert(outs.drop_last()[j] == outs[j]);
    }
}

/// Symbol coverage: a function whose single export name is qualified and
/// whose bare key the map knows comes out exported under exactly the mapped
/// symbol.
pub proof fn lemma_symbol_coverage(
    ins: Seq<Field>,
    outs: Seq<Field>,
    m: Seq<SymbolEntry>,
    i: int,
    ff: FuncField,
    entry: SymbolEntry,
)
    requires
        fields_rewritten(ins, outs, m),
        0 <= i < ins.len(),
        ins[i] == Field::Func(ff),
        ff.exports@.len() == 1,
        qualified_suffix(ff.exports@[0]@) matches Some(key) && lookup_spec(m, key) == Some(entry),
    ensures
        exists|j: int|
            0 <= j < outs.len() && ((#[trigger] outs[j]) matches Field::Func(gf) && gf.exports@
                == seq![entry.symbol]),
{
    lemma_rewritten_total(ins, outs, m, i);
    let j = choose|j: int| 0 <= j < outs.len() && field_rewritten(ins[i], #[trigger] outs[j], m);
    assert(outs[j] matches Field::Func(gf) && gf.exports@ == seq![entry.symbol]);
}

/// Arity correction: a function mapped as returning nothing but declared
/// with one result comes out with no declared result and with its original
/// instruction sequence followed by exactly one value-discarding
/// instruction, so the surplus value the body still produces is dropped.
pub proof fn lemma_arity_correction(
    ins: Seq<Field>,
    outs: Seq<Field>,
    m: Seq<SymbolEntry>,
    i: int,
    ff: FuncField,
    entry: SymbolEntry,
)
    requires
        fields_rewritten(ins, outs, m),
        0 <= i < ins.len(),
        ins[i] == Field::Func(ff),
        ff.exports@.len() == 1,
        qualified_suffix(ff.exports@[0]@) matches Some(key) && lookup_spec(m, key) == Some(entry),
        !entry.has_result,
        ff.results@.len() == 1,
    ensures
        exists|j: int|
            0 <= j < outs.len() && ((#[trigger] outs[j]) matches Field::Func(gf) && gf.results@.len()
                == 0 && gf.body@.len() == ff.body@.len() + 1 && gf.body@.drop_last() == ff.body@
                && is_drop_atom(gf.body@.last())),
{
    lemma_rewritten_total(ins, outs, m, i);
    let j = choose|j: int| 0 <= j < outs.len() && field_rewritten(ins[i], #[trigger] outs[j], m);
    assert(outs[j] matches Field::Func(gf) && gf.results@.len() == 0 && gf.body@.len()
        == ff.body@.len() + 1 && gf.body@.drop_last() == ff.body@ && is_drop_atom(gf.body@.last()));
}

/// Memory renaming: a memory whose single inline export name is the
/// internal one comes out exported as the canonical `memory`; any other
/// memory comes out unchanged.
pub proof fn lemma_memory_renaming(
    ins: Seq<Field>,
    outs: Seq<Field>,
    m: Seq<SymbolEntry>,
    i: int,
    head: Vec<Tok>,
    exports: Vec<String>,
    rest: Vec<Tok>,
)
    requires
        fields_rewritten(ins, outs, m),
        0 <= i < ins.len(),
        ins[i] == (Field::Memory { head, exports, rest }),
    ensures
        exports.deep_view() == seq![internal_memory_name()] ==> exists|j: int|
            0 <= j < outs.len() && ((#[trigger] outs[j]) matches Field::Memory {
                head: gh,
                exports: ge,
                rest: gr,
            } && gh == head && ge@.len() == 1 && ge@[0]@ == canonical_memory_name() && gr == rest),
        exports.deep_view() != seq![internal_memory_name()] ==> exists|j: int|
            0 <= j < outs.len() && #[trigger] outs[j] == ins[i],
{
    lemma_rewritten_total(ins, outs, m, i);
    let j = choose|j: int| 0 <= j < outs.len() && field_rewritten(ins[i], #[trigger] outs[j], m);
    if exports.deep_view() == seq![internal_memory_name()] {
        assert(outs[j] matches Field::Memory { head: gh, exports: ge, rest: gr } && gh == head
            && ge@.len() == 1 && ge@[0]@ == canonical_memory_name() && gr == rest);
    } else {
        assert(outs[j] == ins[i]);
    }
}

/// Start conversion, first half: no export under the reserved start name
/// survives the rewriting pass.
pub proof fn lemma_no_start_export(ins: Seq<Field>, outs: Seq<Field>, m: Seq<SymbolEntry>)
    requires
        fields_rewritten(ins, outs, m),
    ensures
        forall|j: int|
            0 <= j < outs.len() ==> !((#[trigger] outs[j]) matches Field::Export(e) && e.name@
                == start_export_name()),
{
    assert forall|j: int|
        0 <= j < outs.len() implies !((#[trigger] outs[j]) matches Field::Export(e) && e.name@
        == start_export_name()) by {
        lemma_rewritten_from(ins, outs, m, j);
        let i = choose|i: int|
            0 <= i < ins.len() && !field_dropped(#[trigger] ins[i]) && field_rewritten(
                ins[i],
                outs[j],
                m,
            );
        if outs[j] matches Field::Export(e) && e.name@ == start_export_name() {
            assert(ins[i] == outs[j]);
            assert(field_dropped(ins[i]));
        }
    }
}

/// Start conversion, second half: the rewriting pass introduces no start
/// reference of its own, so the single appended one stands alone whenever
/// the input module had none.
pub proof fn lemma_no_new_start(ins: Seq<Field>, outs: Seq<Field>, m: Seq<SymbolEntry>)
    requires
        fields_rewritten(ins, outs, m),
        forall|i: int| 0 <= i < ins.len() ==> !((#[trigger] ins[i]) is Start),
    ensures
        forall|j: int| 0 <= j < outs.len() ==> !((#[trigger] outs[j]) is Start),
{
    assert forall|j: int| 0 <= j < outs.len() implies !((#[trigger] outs[j]) is Start) by {
        lemma_rewritten_from(ins, outs, m, j);
        let i = choose|i: int|
            0 <= i < ins.len() && !field_dropped(#[trigger] ins[i]) && field_rewritten(
                ins[i],
                outs[j],
                m,
            );
        if outs[j] is Start {
            assert(ins[i] is Start);
        }
    }
}

/// Start conversion, assembled over the shape the transformation guarantees
/// of its output: no export under the reserved start name survives, and —
/// when the input module held no start reference of its own — the appended
/// reference, standing last, is the only one.
pub proof fn lemma_start_conversion(
    ins: Seq<Field>,
    outs: Seq<Field>,
    m: Seq<SymbolEntry>,
    shims: Seq<Shim>,
)
    requires
        outs.len() == kept_len(ins) + shim_fields(shims, ins).len() + 1,
        fields_rewritten(ins, outs.take(kept_len(ins) as int), m),
        outs.subrange(
            kept_len(ins) as int,
            kept_len(ins) as int + shim_fields(shims, ins).len() as int,
        ) == shim_fields(shims, ins),
        outs.last() is Start,
    ensures
        forall|j: int|
            0 <= j < outs.len() ==> !((#[trigger] outs[j]) matches Field::Export(e) && e.name@
                == start_export_name()),
        (forall|i: int| 0 <= i < ins.len() ==> !((#[trigger] ins[i]) is Start)) ==> forall|j: int|
            0 <= j < outs.len() - 1 ==> !((#[trigger] outs[j]) is Start),
{
    let kc = kept_len(ins) as int;
    let sf = shim_fields(shims, ins);
    lemma_no_start_export(ins, outs.take(kc), m);
    lemma_shim_fields_are_shims(shims, ins);
    assert forall|j: int|
        0 <= j < outs.len() implies !((#[trigger] outs[j]) matches Field::Export(e) && e.name@
        == start_export_name()) by {
        if j < kc {
            assert(outs[j] == outs.take(kc)[j]);
        } else if j < kc + sf.len() {
            assert(outs[j] == outs.subrange(kc, kc + sf.len() as int)[j - kc]);
            assert(outs[j] is Shim);
        } else {
            assert(outs[j] == outs.last());
        }
    }
    if forall|i: int| 0 <= i < ins.len() ==> !((#[trigger] ins[i]) is Start) {
        lemma_no_new_start(ins, outs.take(kc), m);
        assert forall|j: int| 0 <= j < outs.len() - 1 implies !((#[trigger] outs[j]) is Start) by {
            if j < kc {
                assert(outs[j] == outs.take(kc)[j]);
            } else {
                assert(outs[j] == outs.subrange(kc, kc + sf.len() as int)[j - kc]);
                assert(outs[j] is Shim);
            }
        }
    }
}

/// The appended fields are template fields and nothing else.
pub proof fn lemma_shim_fields_are_shims(shims: Seq<Shim>, ins: Seq<Field>)
    ensures
        forall|j: int|
            0 <= j < shim_fields(shims, ins).len() ==> (#[trigger] shim_fields(shims, ins)[j])
                is Shim,
    decreases shims.len(),
{
    if shims.len() > 0 {
        lemma_shim_fields_are_shims(shims.drop_last(), ins);
    }
}

/// Shim minimality, membership direction: a template field under `name`
/// stands among the appended fields exactly when the catalog holds a
/// template under `name` and some function body calls it.
pub proof fn lemma_shim_minimality(shims: Seq<Shim>, ins: Seq<Field>, name: Seq<char>)
    ensures
        (exists|j: int|
            0 <= j < shim_fields(shims, ins).len() && ((#[trigger] shim_fields(shims, ins)[j])
                matches Field::Shim { name: sn, .. } && sn@ == name)) <==> ((exists|q: int|
            0 <= q < shims.len() && (#[trigger] shims[q]).name@ == name) && module_calls(
            ins,
            name,
        )),
    decreases shims.len(),
{
    if shims.len() > 0 {
        lemma_shim_minimality(shims.drop_last(), ins, name);
        let sf = shim_fields(shims, ins);
        let sfd = shim_fields(shims.drop_last(), ins);
        if exists|j: int|
            0 <= j < sf.len() && ((#[trigger] sf[j]) matches Field::Shim { name: sn, .. } && sn@
                == name) {
            let j = choose|j: int|
                0 <= j < sf.len() && ((#[trigger] sf[j]) matches Field::Shim { name: sn, .. }
                    && sn@ == name);
            if j < sfd.len() {
                assert(sfd[j] == sf[j]);
            } else {
                assert(sf[j] == (Field::Shim {
                    name: shims.last().name,
                    toks: shims.last().toks,
                }));
                assert(shims[shims.len() - 1].name@ == name);
            }
        }
        if (exists|q: int| 0 <= q < shims.len() && (#[trigger] shims[q]).name@ == name)
            && module_calls(ins, name) {
            let q = choose|q: int| 0 <= q < shims.len() && (#[trigger] shims[q]).name@ == name;
            if q < shims.len() - 1 {
                assert(shims.drop_last()[q] == shims[q]);
                let j = choose|j: int|
                    0 <= j < sfd.len() && ((#[trigger] sfd[j]) matches Field::Shim {
                        name: sn,
                        ..
                    } && sn@ == name);
                assert(sf[j] == sfd[j]);
                assert(sf[j] matches Field::Shim { name: sn, .. } && sn@ == name);
            } else {
                let j = sfd.len() as int;
                assert(sf[j] == (Field::Shim {
                    name: shims.last().name,
                    toks: shims.last().toks,
                }));
                assert(sf[j] matches Field::Shim { name: sn, .. } && sn@ == name);
            }
        }
    }
}

/// The names of the appended template fields, in order.
pub open spec fn shim_field_names(sf: Seq<Field>) -> Seq<Seq<char>> {
    sf.map_values(
        |f: Field|
            match f {
                Field::Shim { name, .. } => name@,
                _ => Seq::empty(),
            },
    )
}

/// Shim minimality, uniqueness direction: with distinct template names no
/// appended template field repeats a name, however many call sites the
/// module holds.
pub proof fn lemma_shim_no_duplicates(shims: Seq<Shim>, ins: Seq<Field>)
    requires
        crate::shims::distinct_shim_names(shims),
    ensures
        forall|j1: int, j2: int|
            0 <= j1 < j2 < shim_fields(shims, ins).len() ==> shim_field_names(
                shim_fields(shims, ins),
            )[j1] != shim_field_names(shim_fields(shims, ins))[j2],
    decreases shims.len(),
{
    if shims.len() > 0 {
        assert(crate::shims::distinct_shim_names(shims.drop_last())) by {
            assert(forall|i: int|
                0 <= i < shims.drop_last().len() ==> #[trigger] shims.drop_last()[i] == shims[i]);
        }
        lemma_shim_no_duplicates(shims.drop_last(), ins);
        let sf = shim_fields(shims, ins);
        let sfd = shim_fields(shims.drop_last(), ins);
        assert forall|j1: int, j2: int|
            0 <= j1 < j2 < sf.len() implies shim_field_names(sf)[j1] != shim_field_names(
            sf,
        )[j2] by {
            assert(forall|j: int| 0 <= j < sfd.len() ==> #[trigger] sf[j] == sfd[j]);
            if j2 < sfd.len() {
                assert(shim_field_names(sfd)[j1] != shim_field_names(sfd)[j2]);
            } else {
                // the appended field carries the last template's name, which
                // differs from every earlier one; earlier fields carry
                // earlier template names
                lemma_shim_names_bound(shims.drop_last(), ins, j1);
            }
        }
    }
}

/// Every appended template field carries the name of some catalog template.
pub proof fn lemma_shim_names_bound(shims: Seq<Shim>, ins: Seq<Field>, j: int)
    requires
        0 <= j < shim_fields(shims, ins).len(),
    ensures
        exists|q: int|
            0 <= q < shims.len() && shim_field_names(shim_fields(shims, ins))[j] == (
            #[trigger] shims[q]).name@,
    decreases shims.len(),
{
    if shims.len() > 0 {
        let sf = shim_fields(shims, ins);
        let sfd = shim_fields(shims.drop_last(), ins);
        if j < sfd.len() {
            lemma_shim_names_bound(shims.drop_last(), ins, j);
            let q = choose|q: int|
                0 <= q < shims.drop_last().len() && shim_field_names(sfd)[j] == (
                #[trigger] shims.drop_last()[q]).name@;
            assert(sf[j] == sfd[j]);
            assert(shims.drop_last()[q] == shims[q]);
            assert(shim_field_names(sf)[j] == shims[q].name@);
        } else {
            assert(sf[j] == (Field::Shim { name: shims.last().name, toks: shims.last().toks }));
            assert(shim_field_names(sf)[j] == shims[shims.len() - 1].name@);
        }
    }
}

} // verus!
