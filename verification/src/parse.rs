//! Reading a token sequence into the owned field tree. Fields the adapter
//! rewrites (imports, memories, functions, exports, start references) are
//! read into structured form; a field of any other shape is carried through
//! verbatim, since the module may legitimately hold constructs outside the
//! adapter's concern.

use vstd::prelude::*;

use crate::text::Tok;
use crate::tree::{ExportField, Field, FuncField, ModuleTree};
use crate::AdaptError;

verus! {

/// Whether the token at `i` opens a group.
fn is_lparen(ts: &Vec<Tok>, i: usize) -> (r: bool)
    ensures
        r == (i < ts@.len() && ts@[i as int] is LParen),
{
    i < ts.len() && match &ts[i] {
        Tok::LParen => true,
        _ => false,
    }
}

/// Whether the token at `i` closes a group.
fn is_rparen(ts: &Vec<Tok>, i: usize) -> (r: bool)
    ensures
        r == (i < ts@.len() && ts@[i as int] is RParen),
{
    i < ts.len() && match &ts[i] {
        Tok::RParen => true,
        _ => false,
    }
}

/// Whether the token at `i` is the atom `kw`.
fn is_atom(ts: &Vec<Tok>, i: usize, kw: &str) -> (r: bool)
    ensures
        r == (i < ts@.len() && (ts@[i as int] matches Tok::Atom(a) && a@ == kw@)),
{
    i < ts.len() && match &ts[i] {
        Tok::Atom(a) => {
            let owned = kw.to_owned();
            *a == owned
        },
        _ => false,
    }
}

/// Whether the token at `i` is any atom.
fn is_any_atom(ts: &Vec<Tok>, i: usize) -> (r: bool)
    ensures
        r == (i < ts@.len() && ts@[i as int] is Atom),
{
    i < ts.len() && match &ts[i] {
        Tok::Atom(_) => true,
        _ => false,
    }
}

/// Whether the token at `i` is a quoted string.
fn is_quoted(ts: &Vec<Tok>, i: usize) -> (r: bool)
    ensures
        r == (i < ts@.len() && ts@[i as int] is Quoted),
{
    i < ts.len() && match &ts[i] {
        Tok::Quoted(_) => true,
        _ => false,
    }
}

/// Position after the close of a balanced group whose body is read from `i`
/// at nesting depth `d`; nothing when the group never closes.
pub open spec fn group_close(ts: Seq<Tok>, i: int, d: int) -> Option<int>
    decreases ts.len() - i,
    when 0 <= i <= ts.len()
{
    if i >= ts.len() {
        None
    } else if ts[i] is LParen {
        group_close(ts, i + 1, d + 1)
    } else if ts[i] is RParen {
        if d <= 1 {
            Some(i + 1)
        } else {
            group_close(ts, i + 1, d - 1)
        }
    } else {
        group_close(ts, i + 1, d)
    }
}

pub proof fn lemma_group_close_bounds(ts: Seq<Tok>, i: int, d: int)
    requires
        0 <= i <= ts.len(),
    ensures
        group_close(ts, i, d) matches Some(j) ==> i < j <= ts.len(),
    decreases ts.len() - i,
{
    if i < ts.len() && !(ts[i] is RParen && d <= 1) {
        if ts[i] is LParen {
            lemma_group_close_bounds(ts, i + 1, d + 1);
        } else if ts[i] is RParen {
            lemma_group_close_bounds(ts, i + 1, d - 1);
        } else {
            lemma_group_close_bounds(ts, i + 1, d);
        }
    }
}

/// Whether a token run opens with an inline export group
/// `( export "name" )`.
pub open spec fn inline_export_front(ts: Seq<Tok>) -> bool {
    &&& ts.len() >= 4
    &&& ts[0] is LParen
    &&& (ts[1] matches Tok::Atom(a) && a@ == "export"@)
    &&& ts[2] is Quoted
    &&& ts[3] is RParen
}

/// The shape an import group must have to be read in structured form.
pub open spec fn import_shape(g: Seq<Tok>) -> bool {
    g.len() >= 4 && g[2] is Quoted
}

/// How an import group reads into a field; only a group without the
/// structured shape is carried through verbatim.
pub open spec fn import_matches(g: Seq<Tok>, f: Field) -> bool {
    match f {
        Field::Import { module, rest } => {
            &&& import_shape(g)
            &&& g[2] == Tok::Quoted(module)
            &&& rest@ == g.subrange(3, g.len() - 1)
        },
        Field::Other { toks } => toks@ == g && !import_shape(g),
        _ => false,
    }
}

/// How a memory group reads into a field: the leading identifier and the
/// inline export run are both maximal, and the rest is exactly what
/// follows the run up to the closing parenthesis.
pub open spec fn memory_matches(g: Seq<Tok>, f: Field) -> bool {
    match f {
        Field::Memory { head, exports, rest } => {
            let hk = head@.len() as int;
            &&& hk <= 1
            &&& g.len() >= 3 + hk + 4 * exports@.len()
            &&& head@ == g.subrange(2, 2 + hk)
            &&& (hk == 0 ==> g.len() <= 3 || !(g[2] is Atom))
            &&& forall|k: int|
                0 <= k < exports@.len() ==> g[2 + hk + 4 * k + 2] == (Tok::Quoted(
                    #[trigger] exports@[k],
                ))
            &&& rest@ == g.subrange(2 + hk + 4 * exports@.len(), g.len() - 1)
            &&& !inline_export_front(rest@)
        },
        _ => false,
    }
}

/// How a function group reads into a field: the leading identifier and the
/// inline export run are maximal, the type-use and parameter tokens are
/// exactly the run that follows, and the locals and instructions are
/// exactly the trailing run before the closing parenthesis; the declared
/// result types are read from the groups in between.
pub open spec fn func_matches(g: Seq<Tok>, f: Field) -> bool {
    match f {
        Field::Func(ff) => {
            let hk = ff.head@.len() as int;
            let base = 2 + hk + 4 * ff.exports@.len();
            &&& hk <= 1
            &&& g.len() >= 3 + hk + 4 * ff.exports@.len()
            &&& ff.head@ == g.subrange(2, 2 + hk)
            &&& (hk == 0 ==> g.len() <= 3 || !(g[2] is Atom))
            &&& forall|k: int|
                0 <= k < ff.exports@.len() ==> g[2 + hk + 4 * k + 2] == (Tok::Quoted(
                    #[trigger] ff.exports@[k],
                ))
            &&& !inline_export_front(g.subrange(base, g.len() - 1))
            &&& base + ff.pre@.len() + ff.body@.len() <= g.len() - 1
            &&& ff.pre@ == g.subrange(base, base + ff.pre@.len())
            &&& ff.body@ == g.subrange(g.len() - 1 - ff.body@.len(), g.len() - 1)
        },
        _ => false,
    }
}

/// The shape a top-level export group must have to be read in structured
/// form.
pub open spec fn export_shape(g: Seq<Tok>) -> bool {
    &&& g.len() == 8
    &&& g[2] is Quoted
    &&& g[3] is LParen
    &&& g[4] is Atom
    &&& g[5] is Atom
    &&& g[6] is RParen
    &&& g[7] is RParen
}

/// How a top-level export group reads into a field; only a group without
/// the structured shape is carried through verbatim.
pub open spec fn export_matches(g: Seq<Tok>, f: Field) -> bool {
    match f {
        Field::Export(e) => {
            &&& export_shape(g)
            &&& g[2] == Tok::Quoted(e.name)
            &&& g[4] == Tok::Atom(e.kind)
            &&& g[5] == Tok::Atom(e.index)
        },
        Field::Other { toks } => toks@ == g && !export_shape(g),
        _ => false,
    }
}

/// The shape a start group must have to be read in structured form.
pub open spec fn start_shape(g: Seq<Tok>) -> bool {
    g.len() == 4 && g[2] is Atom && g[3] is RParen
}

/// How a start group reads into a field; only a group without the
/// structured shape is carried through verbatim.
pub open spec fn start_matches(g: Seq<Tok>, f: Field) -> bool {
    match f {
        Field::Start { index } => start_shape(g) && g[2] == Tok::Atom(index),
        Field::Other { toks } => toks@ == g && !start_shape(g),
        _ => false,
    }
}

/// Whether the group's head is the atom `kw`.
pub open spec fn group_headed(g: Seq<Tok>, kw: Seq<char>) -> bool {
    g.len() > 1 && (g[1] matches Tok::Atom(a) && a@ == kw)
}

/// How one field group reads, by its head keyword.
pub open spec fn field_matches(g: Seq<Tok>, f: Field) -> bool {
    if group_headed(g, "import"@) {
        import_matches(g, f)
    } else if group_headed(g, "memory"@) {
        memory_matches(g, f)
    } else if group_headed(g, "func"@) {
        func_matches(g, f)
    } else if group_headed(g, "export"@) {
        export_matches(g, f)
    } else if group_headed(g, "start"@) {
        start_matches(g, f)
    } else {
        f matches Field::Other { toks } && toks@ == g
    }
}

/// The field grammar: `fields` reads the token run `ts`, one balanced group
/// per field, up to a lone closing parenthesis that ends the module.
pub open spec fn fields_parse_ok(ts: Seq<Tok>, fields: Seq<Field>) -> bool
    decreases ts.len(),
{
    if ts.len() == 0 {
        false
    } else if ts[0] is RParen {
        fields.len() == 0 && ts.len() == 1
    } else if ts[0] is LParen {
        match group_close(ts, 1, 1) {
            Some(j) => {
                proof {
                    lemma_group_close_bounds(ts, 1, 1);
                }
                &&& fields.len() > 0
                &&& field_matches(ts.take(j), fields[0])
                &&& fields_parse_ok(ts.skip(j), fields.drop_first())
            },
            None => false,
        }
    } else {
        false
    }
}

/// The module grammar: the tree `m` reads the whole token sequence.
pub open spec fn parses_to(ts: Seq<Tok>, m: ModuleTree) -> bool {
    &&& ts.len() >= 2
    &&& ts[0] is LParen
    &&& (ts[1] matches Tok::Atom(a) && a@ == "module"@)
    &&& match m.id {
        Some(id) => ts.len() >= 3 && ts[2] == Tok::Atom(id) && fields_parse_ok(
            ts.skip(3),
            m.fields@,
        ),
        None => !(ts.len() >= 3 && ts[2] is Atom) && fields_parse_ok(ts.skip(2), m.fields@),
    }
}

/// The token-level side of the field grammar: whether the run splits into
/// balanced groups up to a lone closing parenthesis.
pub open spec fn fields_parseable(ts: Seq<Tok>) -> bool
    decreases ts.len(),
{
    if ts.len() == 0 {
        false
    } else if ts[0] is RParen {
        ts.len() == 1
    } else if ts[0] is LParen {
        match group_close(ts, 1, 1) {
            Some(j) => {
                proof {
                    lemma_group_close_bounds(ts, 1, 1);
                }
                fields_parseable(ts.skip(j))
            },
            None => false,
        }
    } else {
        false
    }
}

/// The token-level side of the module grammar, deciding exactly when the
/// reader succeeds.
pub open spec fn module_parseable(ts: Seq<Tok>) -> bool {
    &&& ts.len() >= 2
    &&& ts[0] is LParen
    &&& (ts[1] matches Tok::Atom(a) && a@ == "module"@)
    &&& if ts.len() >= 3 && ts[2] is Atom {
        fields_parseable(ts.skip(3))
    } else {
        fields_parseable(ts.skip(2))
    }
}

/// Take the next token; an exhausted sequence means the module text broke
/// off inside a group.
fn take1(ts: &mut Vec<Tok>) -> (r: Result<Tok, AdaptError>)
    ensures
        r matches Ok(t) ==> old(ts)@.len() > 0 && t == old(ts)@[0] && final(ts)@ == old(
            ts,
        )@.remove(0),
        r is Ok <==> old(ts)@.len() > 0,
        r is Err ==> final(ts)@ == old(ts)@ && (r matches Err(e) && e is NotAModule),
{
    if ts.len() > 0 {
        Ok(ts.remove(0))
    } else {
        Err(AdaptError::NotAModule)
    }
}

/// Consume one balanced group, outer parentheses included. The first token
/// must open a group; what comes back is exactly the front run of the input
/// up to the matching close, and the reading fails exactly when the group
/// never closes.
fn take_group(ts: &mut Vec<Tok>) -> (r: Result<Vec<Tok>, AdaptError>)
    ensures
        r matches Ok(grp) ==> {
            &&& 2 <= grp@.len() <= old(ts)@.len()
            &&& final(ts)@.len() < old(ts)@.len()
            &&& grp@ == old(ts)@.take(grp@.len() as int)
            &&& final(ts)@ == old(ts)@.skip(grp@.len() as int)
            &&& grp@[0] is LParen
            &&& grp@.last() is RParen
            &&& group_close(old(ts)@, 1, 1) == Some(grp@.len() as int)
        },
        old(ts)@.len() > 0 && old(ts)@[0] is LParen && r is Err ==> group_close(
            old(ts)@,
            1,
            1,
        ) is None,
        r matches Err(e) ==> e is NotAModule,
{
    let n0 = ts.len();
    let mut group: Vec<Tok> = Vec::new();
    if !is_lparen(ts, 0) {
        return Err(AdaptError::NotAModule);
    }
    let t = take1(ts)?;
    group.push(t);
    let mut depth: usize = 1;
    while depth > 0
        invariant
            n0 == old(ts)@.len(),
            ts@.len() < old(ts)@.len(),
            group@ + ts@ == old(ts)@,
            group@.len() >= 1,
            group@[0] is LParen,
            depth as int <= group@.len(),
            depth >= 1 ==> group_close(old(ts)@, 1, 1) == group_close(
                old(ts)@,
                group@.len() as int,
                depth as int,
            ),
            depth == 0 ==> group@.last() is RParen && group_close(old(ts)@, 1, 1) == Some(
                group@.len() as int,
            ),
        decreases ts@.len(),
    {
        if ts.len() == 0 {
            proof {
                assert(group@.len() as int == old(ts)@.len());
                assert(group_close(old(ts)@, group@.len() as int, depth as int) is None);
            }
            return Err(AdaptError::NotAModule);
        }
        let ghost prev_group = group@;
        let ghost prev_ts = ts@;
        let ghost p = group@.len() as int;
        let t = take1(ts)?;
        proof {
            assert(prev_ts =~= old(ts)@.skip(p));
            assert(t == old(ts)@[p]);
            assert(p + 1 + ts@.len() == n0);
        }
        match &t {
            Tok::LParen => {
                proof {
                    assert(group_close(old(ts)@, p, depth as int) == group_close(
                        old(ts)@,
                        p + 1,
                        depth as int + 1,
                    ));
                }
                depth = depth + 1;
            },
            Tok::RParen => {
                proof {
                    if depth == 1 {
                        assert(group_close(old(ts)@, p, depth as int) == Some(p + 1));
                    } else {
                        assert(group_close(old(ts)@, p, depth as int) == group_close(
                            old(ts)@,
                            p + 1,
                            depth as int - 1,
                        ));
                    }
                }
                depth = depth - 1;
            },
            _ => {
                proof {
                    assert(group_close(old(ts)@, p, depth as int) == group_close(
                        old(ts)@,
                        p + 1,
                        depth as int,
                    ));
                }
            },
        }
        group.push(t);
        proof {
            assert(group@ + ts@ =~= prev_group + prev_ts);
        }
    }
    proof {
        assert(group@ =~= old(ts)@.take(group@.len() as int));
        assert(ts@ =~= old(ts)@.skip(group@.len() as int));
    }
    Ok(group)
}

/// Read an import field: `( import "module" ... )`.
fn read_import(group: Vec<Tok>) -> (r: Result<Field, AdaptError>)
    requires
        group@.len() >= 2,
        group@.last() is RParen,
    ensures
        r is Ok,
        r matches Ok(f) ==> match f {
            Field::Import { module, rest } => {
                &&& group@.len() >= 4
                &&& group@[2] == Tok::Quoted(module)
                &&& rest@ == group@.subrange(3, group@.len() - 1)
            },
            Field::Other { toks } => toks == group && !import_shape(group@),
            _ => false,
        },
{
    let mut g = group;
    if !is_quoted(&g, 2) {
        // an import of unexpected shape is carried through verbatim
        return Ok(Field::Other { toks: g });
    }
    proof {
        assert(group@[2] is Quoted);
        assert(group@.len() >= 4);
    }
    let _lp = take1(&mut g)?;
    proof {
        assert(g@ =~= group@.skip(1));
    }
    let _kw = take1(&mut g)?;
    proof {
        assert(g@ =~= group@.skip(2));
    }
    let name_tok = take1(&mut g)?;
    proof {
        assert(g@ =~= group@.skip(3));
        assert(name_tok == group@[2]);
    }
    let module = match name_tok {
        Tok::Quoted(q) => q,
        _ => {
            proof {
                assert(false);
            }
            return Err(AdaptError::NotAModule);
        },
    };
    let _rp = g.pop();
    proof {
        assert(g@ =~= group@.subrange(3, group@.len() - 1));
    }
    Ok(Field::Import { module, rest: g })
}

/// Collect the optional leading identifier into `head`; never fails.
fn read_head(g: &mut Vec<Tok>, head: &mut Vec<Tok>) -> (r: Result<(), AdaptError>)
    ensures
        r is Ok,
        final(head)@.len() >= old(head)@.len(),
        ({
            let k = final(head)@.len() - old(head)@.len();
            &&& k <= 1
            &&& k <= old(g)@.len()
            &&& final(head)@ == old(head)@ + old(g)@.take(k as int)
            &&& final(g)@ == old(g)@.skip(k as int)
            &&& (k == 0 ==> old(g)@.len() == 0 || !(old(g)@[0] is Atom))
        }),
{
    if is_any_atom(g, 0) {
        let t = take1(g)?;
        head.push(t);
        proof {
            assert(final(head)@ =~= old(head)@ + old(g)@.take(1));
        }
    } else {
        proof {
            assert(final(head)@ =~= old(head)@ + old(g)@.take(0));
            assert(final(g)@ =~= old(g)@.skip(0));
        }
    }
    Ok(())
}

/// Whether an inline export group `( export "name" )` stands at the front.
fn at_inline_export(g: &Vec<Tok>) -> (r: bool)
    ensures
        r == inline_export_front(g@),
{
    is_lparen(g, 0) && is_atom(g, 1, "export") && is_quoted(g, 2) && is_rparen(g, 3)
}

/// Collect the run of inline export groups at the front; never fails.
fn read_inline_exports(g: &mut Vec<Tok>) -> (r: Result<Vec<String>, AdaptError>)
    ensures
        r is Ok,
        final(g)@.len() <= old(g)@.len(),
        r matches Ok(names) ==> {
            &&& old(g)@.len() >= 4 * names@.len()
            &&& final(g)@ == old(g)@.skip(4 * names@.len() as int)
            &&& !inline_export_front(final(g)@)
            &&& forall|k: int|
                0 <= k < names@.len() ==> old(g)@[4 * k + 2] == (Tok::Quoted(
                    #[trigger] names@[k],
                ))
        },
{
    let mut names: Vec<String> = Vec::new();
    proof {
        assert(g@.skip(0) =~= g@);
    }
    while at_inline_export(g)
        invariant
            g@.len() <= old(g)@.len(),
            old(g)@.len() >= 4 * names@.len(),
            g@ == old(g)@.skip(4 * names@.len() as int),
            forall|k: int|
                0 <= k < names@.len() ==> old(g)@[4 * k + 2] == (Tok::Quoted(
                    #[trigger] names@[k],
                )),
        decreases g@.len(),
    {
        let ghost n0 = names@.len() as int;
        let ghost gs = g@;
        let _lp = take1(g)?;
        let _kw = take1(g)?;
        let name_tok = take1(g)?;
        proof {
            assert(g@ =~= gs.skip(3));
            assert(name_tok == gs[2]);
        }
        match name_tok {
            Tok::Quoted(q) => names.push(q),
            _ => {
                proof {
                    assert(false);
                }
                return Err(AdaptError::NotAModule);
            },
        }
        let _rp = take1(g)?;
        proof {
            assert(old(g)@.skip(4 * n0)[2] == old(g)@[4 * n0 + 2]);
            assert(g@ =~= old(g)@.skip(4 * n0).skip(4));
            assert(g@ =~= old(g)@.skip(4 * (n0 + 1)));
        }
    }
    Ok(names)
}

/// Whether a flat group headed by `kw` stands at the front.
fn at_group_of(g: &Vec<Tok>, kw: &str) -> (r: bool)
    ensures
        r ==> g@.len() > 0 && g@[0] is LParen,
{
    is_lparen(g, 0) && is_atom(g, 1, kw)
}

/// Move one balanced front group of `g` into `dst`; an unclosed group is
/// moved whole, so the move never fails.
fn move_group(g: &mut Vec<Tok>, dst: &mut Vec<Tok>)
    requires
        old(g)@.len() > 0,
        old(g)@[0] is LParen,
    ensures
        final(g)@.len() < old(g)@.len(),
        final(dst)@ == old(dst)@ + old(g)@.take(old(g)@.len() - final(g)@.len()),
        final(g)@ == old(g)@.skip(old(g)@.len() - final(g)@.len()),
{
    let n0 = g.len();
    let t = g.remove(0);
    dst.push(t);
    proof {
        assert(dst@ =~= old(dst)@ + old(g)@.take(1));
        assert(g@ =~= old(g)@.skip(1));
    }
    let mut depth: usize = 1;
    while depth > 0 && g.len() > 0
        invariant
            n0 == old(g)@.len(),
            g@.len() < n0,
            depth as int <= n0 - g@.len(),
            dst@ == old(dst)@ + old(g)@.take(n0 - g@.len()),
            g@ == old(g)@.skip(n0 - g@.len()),
        decreases g@.len(),
    {
        let ghost consumed = n0 - g@.len();
        let t = g.remove(0);
        match &t {
            Tok::LParen => {
                depth = depth + 1;
            },
            Tok::RParen => {
                depth = depth - 1;
            },
            _ => {},
        }
        dst.push(t);
        proof {
            assert(t == old(g)@[consumed as int]);
            assert(dst@ =~= old(dst)@ + old(g)@.take(consumed as int + 1));
            assert(g@ =~= old(g)@.skip(consumed as int + 1));
        }
    }
}

/// Whether a `( result T* )` group of plain type atoms stands at the front.
fn at_flat_result(g: &Vec<Tok>) -> (r: bool)
    ensures
        r ==> exists|e: int|
            2 <= e < g@.len() && (#[trigger] g@[e]) is RParen && g@[0] is LParen && (forall|t: int|
                2 <= t < e ==> (#[trigger] g@[t]) is Atom),
{
    if !(is_lparen(g, 0) && is_atom(g, 1, "result")) {
        return false;
    }
    let n = g.len();
    let mut i: usize = 2;
    while is_any_atom(g, i)
        invariant
            n == g@.len(),
            i <= n + 2,
            forall|t: int| 2 <= t < i ==> (#[trigger] g@[t]) is Atom,
        decreases g@.len() - i,
    {
        i = i + 1;
    }
    let r = is_rparen(g, i);
    proof {
        if r {
            assert(2 <= i < g@.len() && g@[i as int] is RParen);
        }
    }
    r
}

/// Collect the declared result types from the front run of result groups;
/// never fails.
fn read_results(g: &mut Vec<Tok>) -> (r: Result<Vec<String>, AdaptError>)
    ensures
        r is Ok,
        final(g)@.len() <= old(g)@.len(),
        final(g)@ == old(g)@.skip(old(g)@.len() - final(g)@.len()),
{
    let mut results: Vec<String> = Vec::new();
    proof {
        assert(g@ =~= old(g)@.skip(0));
    }
    while at_flat_result(g)
        invariant
            g@.len() <= old(g)@.len(),
            g@ == old(g)@.skip(old(g)@.len() - g@.len()),
        decreases g@.len(),
    {
        let glen = g.len();
        let ghost gs = g@;
        let ghost e = choose|e: int|
            2 <= e < gs.len() && (#[trigger] gs[e]) is RParen && gs[0] is LParen && (forall|t: int|
                2 <= t < e ==> (#[trigger] gs[t]) is Atom);
        let _lp = take1(g)?;
        let _kw = take1(g)?;
        let mut c: usize = 2;
        proof {
            assert(g@ =~= gs.skip(2));
        }
        loop
            invariant_except_break
                2 <= c <= e,
                g@ == gs.skip(c as int),
            invariant
                glen == gs.len(),
                gs.len() <= old(g)@.len(),
                2 <= e < gs.len(),
                gs[e] is RParen,
                forall|t: int| 2 <= t < e ==> (#[trigger] gs[t]) is Atom,
            ensures
                g@.len() < gs.len(),
                g@ == gs.skip(gs.len() - g@.len()),
            decreases gs.len() - c,
        {
            let t = take1(g)?;
            proof {
                assert(t == gs[c as int]);
                assert(g@ =~= gs.skip(c as int + 1));
            }
            match t {
                Tok::Atom(a) => {
                    results.push(a);
                    proof {
                        assert((c as int) < e);
                    }
                },
                Tok::RParen => {
                    proof {
                        assert((c as int) == e);
                        assert(g@ =~= gs.skip(gs.len() - g@.len()));
                    }
                    c = c + 1;
                    break ;
                },
                _ => {
                    proof {
                        assert(false);
                    }
                    return Err(AdaptError::NotAModule);
                },
            }
            c = c + 1;
        }
        proof {
            let c0 = old(g)@.len() - gs.len();
            assert(gs == old(g)@.skip(c0 as int));
            assert(g@ == gs.skip(gs.len() - g@.len()));
            assert(g@ =~= old(g)@.skip(old(g)@.len() - g@.len()));
        }
    }
    Ok(results)
}

/// Read a memory field: `( memory id? ( export "n" )* limits )`.
fn read_memory(group: Vec<Tok>) -> (r: Result<Field, AdaptError>)
    requires
        group@.len() >= 3,
        group@.last() is RParen,
    ensures
        r is Ok,
        r matches Ok(f) ==> match f {
            Field::Memory { head, exports, rest } => {
                let hk = head@.len() as int;
                &&& hk <= 1
                &&& group@.len() >= 3 + hk + 4 * exports@.len()
                &&& head@ == group@.subrange(2, 2 + hk)
                &&& (hk == 0 ==> group@.len() <= 3 || !(group@[2] is Atom))
                &&& forall|k: int|
                    0 <= k < exports@.len() ==> group@[2 + hk + 4 * k + 2] == (Tok::Quoted(
                        #[trigger] exports@[k],
                    ))
                &&& rest@ == group@.subrange(
                    2 + hk + 4 * exports@.len(),
                    group@.len() - 1,
                )
                &&& !inline_export_front(rest@)
            },
            _ => false,
        },
{
    let mut g = group;
    let _lp = take1(&mut g)?;
    let _kw = take1(&mut g)?;
    let _rp = g.pop();
    proof {
        assert(g@ =~= group@.subrange(2, group@.len() - 1));
    }
    let ghost g2 = g@;
    let mut head: Vec<Tok> = Vec::new();
    read_head(&mut g, &mut head)?;
    let ghost hk = head@.len() as int;
    let ghost g3 = g@;
    let exports = read_inline_exports(&mut g)?;
    proof {
        assert(hk <= g2.len());
        assert(head@ =~= g2.take(hk));
        assert(head@ =~= group@.subrange(2, 2 + hk));
        assert(g3 == g2.skip(hk));
        assert forall|k: int| 0 <= k < exports@.len() implies group@[2 + hk + 4 * k + 2] == (
        Tok::Quoted(#[trigger] exports@[k])) by {
            assert(4 * k + 2 < g3.len());
            assert(g3[4 * k + 2] == (Tok::Quoted(exports@[k])));
            assert(g2.skip(hk)[4 * k + 2] == g2[hk + 4 * k + 2]);
            assert(group@.subrange(2, group@.len() - 1)[hk + 4 * k + 2] == group@[2 + hk + 4 * k
                + 2]);
        }
        assert(g@ =~= group@.subrange(2 + hk + 4 * exports@.len(), group@.len() - 1));
        if hk == 0 && group@.len() > 3 {
            assert(g2.len() > 0);
            assert(g2[0] == group@[2]);
        }
    }
    Ok(Field::Memory { head, exports, rest: g })
}

/// Read a function field: `( func id? ( export "n" )* typeuse params
/// results locals instructions )`.
#[verifier::rlimit(100)]
#[verifier::spinoff_prover]
fn read_func(group: Vec<Tok>) -> (r: Result<Field, AdaptError>)
    requires
        group@.len() >= 3,
        group@.last() is RParen,
    ensures
        r is Ok,
        r matches Ok(f) ==> match f {
            Field::Func(ff) => {
                let hk = ff.head@.len() as int;
                let base = 2 + hk + 4 * ff.exports@.len();
                &&& hk <= 1
                &&& group@.len() >= 3 + hk + 4 * ff.exports@.len()
                &&& ff.head@ == group@.subrange(2, 2 + hk)
                &&& (hk == 0 ==> group@.len() <= 3 || !(group@[2] is Atom))
                &&& forall|k: int|
                    0 <= k < ff.exports@.len() ==> group@[2 + hk + 4 * k + 2] == (Tok::Quoted(
                        #[trigger] ff.exports@[k],
                    ))
                &&& !inline_export_front(group@.subrange(base, group@.len() - 1))
                &&& base + ff.pre@.len() + ff.body@.len() <= group@.len() - 1
                &&& ff.pre@ == group@.subrange(base, base + ff.pre@.len())
                &&& ff.body@ == group@.subrange(
                    group@.len() - 1 - ff.body@.len(),
                    group@.len() - 1,
                )
            },
            _ => false,
        },
{
    let mut g = group;
    let _lp = take1(&mut g)?;
    let _kw = take1(&mut g)?;
    let _rp = g.pop();
    proof {
        assert(g@ =~= group@.subrange(2, group@.len() - 1));
    }
    let ghost g2 = g@;
    let mut head: Vec<Tok> = Vec::new();
    read_head(&mut g, &mut head)?;
    let ghost hk = head@.len() as int;
    let ghost g3 = g@;
    let exports = read_inline_exports(&mut g)?;
    let ghost base = 2 + hk + 4 * exports@.len();
    let ghost g4 = g@;
    proof {
        assert(hk <= g2.len());
        assert(head@ =~= g2.take(hk));
        assert(head@ =~= group@.subrange(2, 2 + hk));
        assert(g3 == g2.skip(hk));
        assert forall|k: int| 0 <= k < exports@.len() implies group@[2 + hk + 4 * k + 2] == (
        Tok::Quoted(#[trigger] exports@[k])) by {
            assert(4 * k + 2 < g3.len());
            assert(g3[4 * k + 2] == (Tok::Quoted(exports@[k])));
            assert(g2.skip(hk)[4 * k + 2] == g2[hk + 4 * k + 2]);
            assert(group@.subrange(2, group@.len() - 1)[hk + 4 * k + 2] == group@[2 + hk + 4 * k
                + 2]);
        }
        assert(g4 =~= group@.subrange(base, group@.len() - 1));
        assert(!inline_export_front(g4));
        if hk == 0 && group@.len() > 3 {
            assert(g2.len() > 0);
            assert(g2[0] == group@[2]);
        }
    }
    let mut pre: Vec<Tok> = Vec::new();
    while at_group_of(&g, "type") || at_group_of(&g, "param")
        invariant
            g@.len() <= g4.len(),
            pre@.len() == g4.len() - g@.len(),
            pre@ == g4.take(g4.len() - g@.len()),
            g@ == g4.skip(g4.len() - g@.len()),
        decreases g@.len(),
    {
        let ghost c = g4.len() - g@.len();
        let ghost gpre = g@;
        let ghost dpre = pre@;
        move_group(&mut g, &mut pre);
        proof {
            let k = gpre.len() - g@.len();
            assert(dpre == g4.take(c as int));
            assert(gpre == g4.skip(c as int));
            assert(pre@ == dpre + gpre.take(k as int));
            assert(g@ == gpre.skip(k as int));
            assert(gpre.take(k as int) =~= g4.subrange(c as int, c + k));
            assert(pre@ =~= g4.take(c + k));
            assert(g@ =~= g4.skip(c + k));
        }
    }
    let ghost g5 = g@;
    let ghost prelen = pre@.len() as int;
    let results = read_results(&mut g)?;
    proof {
        let rc = g5.len() - g@.len();
        assert(g@ == g5.skip(rc as int));
        assert(g5 == g4.skip(prelen));
        assert(pre@ =~= group@.subrange(base, base + prelen));
        assert(g@ =~= g4.skip(prelen + rc));
        assert(g@ =~= group@.subrange(base + prelen + rc, group@.len() - 1));
        assert(g@ =~= group@.subrange(
            group@.len() - 1 - g@.len(),
            group@.len() - 1,
        ));
    }
    Ok(Field::Func(FuncField { head, exports, pre, results, body: g }))
}

/// Read a top-level export field: `( export "name" ( kind index ) )`.
fn read_export(group: Vec<Tok>) -> (r: Result<Field, AdaptError>)
    ensures
        r is Ok,
        r matches Ok(f) ==> match f {
            Field::Export(e) => {
                &&& export_shape(group@)
                &&& group@[2] == Tok::Quoted(e.name)
                &&& group@[4] == Tok::Atom(e.kind)
                &&& group@[5] == Tok::Atom(e.index)
            },
            Field::Other { toks } => toks == group && !export_shape(group@),
            _ => false,
        },
{
    let g = group;
    let shaped = g.len() == 8 && is_quoted(&g, 2) && is_lparen(&g, 3) && is_any_atom(&g, 4)
        && is_any_atom(&g, 5) && is_rparen(&g, 6) && is_rparen(&g, 7);
    if !shaped {
        return Ok(Field::Other { toks: g });
    }
    let mut g = g;
    let _lp = take1(&mut g)?;
    let _kw = take1(&mut g)?;
    let name_tok = take1(&mut g)?;
    proof {
        assert(g@ =~= group@.skip(3));
        assert(name_tok == group@[2]);
    }
    let name = match name_tok {
        Tok::Quoted(q) => q,
        _ => {
            proof {
                assert(false);
            }
            return Err(AdaptError::NotAModule);
        },
    };
    let _lp2 = take1(&mut g)?;
    let kind_tok = take1(&mut g)?;
    proof {
        assert(g@ =~= group@.skip(5));
        assert(kind_tok == group@[4]);
    }
    let kind = match kind_tok {
        Tok::Atom(a) => a,
        _ => {
            proof {
                assert(false);
            }
            return Err(AdaptError::NotAModule);
        },
    };
    let index_tok = take1(&mut g)?;
    proof {
        assert(index_tok == group@[5]);
    }
    let index = match index_tok {
        Tok::Atom(a) => a,
        _ => {
            proof {
                assert(false);
            }
            return Err(AdaptError::NotAModule);
        },
    };
    Ok(Field::Export(ExportField { name, kind, index }))
}

/// Read a start field: `( start index )`.
fn read_start(group: Vec<Tok>) -> (r: Result<Field, AdaptError>)
    ensures
        r is Ok,
        r matches Ok(f) ==> match f {
            Field::Start { index } => start_shape(group@) && group@[2] == Tok::Atom(index),
            Field::Other { toks } => toks == group && !start_shape(group@),
            _ => false,
        },
{
    let g = group;
    let shaped = g.len() == 4 && is_any_atom(&g, 2) && is_rparen(&g, 3);
    if !shaped {
        return Ok(Field::Other { toks: g });
    }
    let mut g = g;
    let _lp = take1(&mut g)?;
    let _kw = take1(&mut g)?;
    let index_tok = take1(&mut g)?;
    proof {
        assert(index_tok == group@[2]);
    }
    let index = match index_tok {
        Tok::Atom(a) => a,
        _ => {
            proof {
                assert(false);
            }
            return Err(AdaptError::NotAModule);
        },
    };
    Ok(Field::Start { index })
}

/// Classify and read one field group; a balanced group always reads.
fn read_field(group: Vec<Tok>) -> (r: Result<Field, AdaptError>)
    requires
        group@.len() >= 2,
        group@.last() is RParen,
    ensures
        r is Ok,
        r matches Ok(f) ==> !(f is Shim) && field_matches(group@, f),
{
    proof {
        if group@.len() >= 2 && group@[1] is Atom {
            assert(group@[1] != group@.last());
            assert(group@.len() >= 3);
        }
    }
    if is_atom(&group, 1, "import") {
        read_import(group)
    } else if is_atom(&group, 1, "memory") {
        read_memory(group)
    } else if is_atom(&group, 1, "func") {
        read_func(group)
    } else if is_atom(&group, 1, "export") {
        read_export(group)
    } else if is_atom(&group, 1, "start") {
        read_start(group)
    } else {
        Ok(Field::Other { toks: group })
    }
}

/// Read a whole module: `( module id? field* )`, nothing before, nothing
/// after. The reading succeeds exactly when the token sequence has the
/// module shape ([`module_parseable`]), and a successful result is exactly
/// the tree the token sequence denotes ([`parses_to`]).
pub fn parse_module(toks: Vec<Tok>) -> (r: Result<ModuleTree, AdaptError>)
    ensures
        r is Ok <==> module_parseable(toks@),
        r matches Err(e) ==> e is NotAModule,
        r matches Ok(m) ==> parses_to(toks@, m),
        r matches Ok(m) ==> forall|j: int|
            0 <= j < m.fields@.len() ==> !((#[trigger] m.fields@[j]) is Shim),
{
    let mut ts = toks;
    if !(is_lparen(&ts, 0) && is_atom(&ts, 1, "module")) {
        return Err(AdaptError::NotAModule);
    }
    let _lp = take1(&mut ts)?;
    proof {
        assert(ts@ =~= toks@.skip(1));
    }
    let _kw = take1(&mut ts)?;
    proof {
        assert(ts@ =~= toks@.skip(2));
    }
    let had_id = is_any_atom(&ts, 0);
    let id: Option<String> = if had_id {
        match take1(&mut ts)? {
            Tok::Atom(a) => {
                proof {
                    assert(ts@ =~= toks@.skip(3));
                }
                Some(a)
            },
            _ => {
                proof {
                    assert(false);
                }
                return Err(AdaptError::NotAModule);
            },
        }
    } else {
        None
    };
    let ghost t0 = ts@;
    let mut fields: Vec<Field> = Vec::new();
    proof {
        match id {
            Some(_) => {
                assert(t0 =~= toks@.skip(3));
            },
            None => {
                assert(t0 =~= toks@.skip(2));
            },
        }
        assert(module_parseable(toks@) == fields_parseable(t0));
        assert forall|rest: Seq<Field>| #[trigger] fields_parse_ok(ts@, rest) implies
            fields_parse_ok(t0, fields@ + rest) by {
            assert(fields@ + rest =~= rest);
        }
    }
    loop
        invariant_except_break
            fields_parseable(t0) == fields_parseable(ts@),
            forall|rest: Seq<Field>| #[trigger] fields_parse_ok(ts@, rest) ==> fields_parse_ok(
                t0,
                fields@ + rest,
            ),
        invariant
            module_parseable(toks@) == fields_parseable(t0),
            forall|j: int| 0 <= j < fields@.len() ==> !((#[trigger] fields@[j]) is Shim),
        ensures
            fields_parse_ok(t0, fields@),
            fields_parseable(t0),
            forall|j: int| 0 <= j < fields@.len() ==> !((#[trigger] fields@[j]) is Shim),
        decreases ts@.len(),
    {
        let ghost tsb = ts@;
        if is_rparen(&ts, 0) {
            let _rp = take1(&mut ts)?;
            if ts.len() != 0 {
                proof {
                    assert(!fields_parseable(tsb));
                    assert(!module_parseable(toks@));
                }
                return Err(AdaptError::NotAModule);
            }
            proof {
                assert(tsb.len() == 1);
                assert(fields_parseable(tsb));
                assert(fields_parse_ok(tsb, Seq::<Field>::empty()));
                assert(fields@ + Seq::<Field>::empty() =~= fields@);
            }
            break ;
        }
        if !is_lparen(&ts, 0) {
            proof {
                assert(!fields_parseable(tsb));
                assert(!module_parseable(toks@));
            }
            return Err(AdaptError::NotAModule);
        }
        let group = match take_group(&mut ts) {
            Ok(grp) => grp,
            Err(e) => {
                proof {
                    assert(!fields_parseable(tsb));
                    assert(!module_parseable(toks@));
                }
                return Err(e);
            },
        };
        let field = read_field(group)?;
        let ghost prev_fields = fields@;
        fields.push(field);
        proof {
            assert(fields_parseable(tsb) == fields_parseable(ts@));
            assert forall|rest: Seq<Field>| #[trigger] fields_parse_ok(ts@, rest) implies
                fields_parse_ok(t0, fields@ + rest) by {
                let ext = seq![fields@.last()] + rest;
                assert(ext.drop_first() =~= rest);
                assert(fields_parse_ok(tsb, ext));
                assert(prev_fields + ext =~= fields@ + rest);
                assert(fields_parse_ok(t0, prev_fields + ext));
            }
        }
    }
    let result = ModuleTree { id, fields };
    proof {
        match result.id {
            Some(_) => {
                assert(t0 =~= toks@.skip(3));
            },
            None => {
                assert(t0 =~= toks@.skip(2));
            },
        }
        assert(module_parseable(toks@));
    }
    Ok(result)
}

} // verus!
