//! Printing the transformed tree back to module text. The printer's output
//! is pinned exactly by the spec-level rendering below: one space before
//! every token, quoted strings re-wrapped, each structured field laid out in
//! the order it was read.

use vstd::prelude::*;
use vstd::string::StringExecFns;

use crate::text::Tok;
use crate::tree::{Field, ModuleTree};

verus! {

/// How one token prints.
pub open spec fn render_tok(t: Tok) -> Seq<char> {
    match t {
        Tok::LParen => " ("@,
        Tok::RParen => " )"@,
        Tok::Atom(a) => " "@ + a@,
        Tok::Quoted(q) => " \""@ + q@ + "\""@,
    }
}

/// How a token run prints.
pub open spec fn render_toks(ts: Seq<Tok>) -> Seq<char>
    decreases ts.len(),
{
    if ts.len() == 0 {
        Seq::empty()
    } else {
        render_toks(ts.drop_last()) + render_tok(ts.last())
    }
}

/// How one inline export name prints.
pub open spec fn render_inline_export(n: String) -> Seq<char> {
    " ( export \""@ + n@ + "\" )"@
}

/// How a run of inline export names prints.
pub open spec fn render_inline_exports(ns: Seq<String>) -> Seq<char>
    decreases ns.len(),
{
    if ns.len() == 0 {
        Seq::empty()
    } else {
        render_inline_exports(ns.drop_last()) + render_inline_export(ns.last())
    }
}

/// How one declared result type prints.
pub open spec fn render_result(t: String) -> Seq<char> {
    " ( result "@ + t@ + " )"@
}

/// How the declared result types print.
pub open spec fn render_results(ts: Seq<String>) -> Seq<char>
    decreases ts.len(),
{
    if ts.len() == 0 {
        Seq::empty()
    } else {
        render_results(ts.drop_last()) + render_result(ts.last())
    }
}

/// How one field prints.
pub open spec fn render_field(f: Field) -> Seq<char> {
    match f {
        Field::Import { module, rest } => " ( import \""@ + module@ + "\""@ + render_toks(rest@)
            + " )"@,
        Field::Memory { head, exports, rest } => " ( memory"@ + render_toks(head@)
            + render_inline_exports(exports@) + render_toks(rest@) + " )"@,
        Field::Func(ff) => " ( func"@ + render_toks(ff.head@) + render_inline_exports(ff.exports@)
            + render_toks(ff.pre@) + render_results(ff.results@) + render_toks(ff.body@) + " )"@,
        Field::Export(e) => " ( export \""@ + e.name@ + "\" ( "@ + e.kind@ + " "@ + e.index@
            + " ) )"@,
        Field::Start { index } => " ( start "@ + index@ + " )"@,
        Field::Shim { name: _, toks } => " ("@ + render_toks(toks@) + " )"@,
        Field::Other { toks } => render_toks(toks@),
    }
}

/// How a field sequence prints.
pub open spec fn render_fields(fs: Seq<Field>) -> Seq<char>
    decreases fs.len(),
{
    if fs.len() == 0 {
        Seq::empty()
    } else {
        render_fields(fs.drop_last()) + render_field(fs.last())
    }
}

/// How a whole module prints.
pub open spec fn render_module_spec(m: ModuleTree) -> Seq<char> {
    " ( module"@ + (match m.id {
        Some(id) => " "@ + id@,
        None => Seq::<char>::empty(),
    }) + render_fields(m.fields@) + " )"@
}

/// Print one token.
fn print_tok(out: &mut String, t: &Tok)
    ensures
        final(out)@ == old(out)@ + render_tok(*t),
{
    match t {
        Tok::LParen => out.append(" ("),
        Tok::RParen => out.append(" )"),
        Tok::Atom(a) => {
            out.append(" ");
            out.append(a.as_str());
        },
        Tok::Quoted(q) => {
            out.append(" \"");
            out.append(q.as_str());
            out.append("\"");
        },
    }
}

/// Print a token run.
fn print_toks(out: &mut String, ts: &Vec<Tok>)
    ensures
        final(out)@ == old(out)@ + render_toks(ts@),
{
    let n = ts.len();
    let mut i: usize = 0;
    proof {
        assert(ts@.take(0) =~= Seq::<Tok>::empty());
    }
    while i < n
        invariant
            n == ts@.len(),
            i <= n,
            out@ == old(out)@ + render_toks(ts@.take(i as int)),
        decreases n - i,
    {
        print_tok(out, &ts[i]);
        proof {
            assert(ts@.take(i as int + 1).drop_last() =~= ts@.take(i as int));
            assert(ts@.take(i as int + 1).last() == ts@[i as int]);
        }
        i = i + 1;
    }
    proof {
        assert(ts@.take(n as int) =~= ts@);
    }
}

/// Print a run of inline export names.
fn print_inline_exports(out: &mut String, ns: &Vec<String>)
    ensures
        final(out)@ == old(out)@ + render_inline_exports(ns@),
{
    let n = ns.len();
    let mut i: usize = 0;
    proof {
        assert(ns@.take(0) =~= Seq::<String>::empty());
    }
    while i < n
        invariant
            n == ns@.len(),
            i <= n,
            out@ == old(out)@ + render_inline_exports(ns@.take(i as int)),
        decreases n - i,
    {
        out.append(" ( export \"");
        out.append(ns[i].as_str());
        out.append("\" )");
        proof {
            assert(ns@.take(i as int + 1).drop_last() =~= ns@.take(i as int));
            assert(ns@.take(i as int + 1).last() == ns@[i as int]);
        }
        i = i + 1;
    }
    proof {
        assert(ns@.take(n as int) =~= ns@);
    }
}

/// Print the declared result types.
fn print_results(out: &mut String, ts: &Vec<String>)
    ensures
        final(out)@ == old(out)@ + render_results(ts@),
{
    let n = ts.len();
    let mut i: usize = 0;
    proof {
        assert(ts@.take(0) =~= Seq::<String>::empty());
    }
    while i < n
        invariant
            n == ts@.len(),
            i <= n,
            out@ == old(out)@ + render_results(ts@.take(i as int)),
        decreases n - i,
    {
        out.append(" ( result ");
        out.append(ts[i].as_str());
        out.append(" )");
        proof {
            assert(ts@.take(i as int + 1).drop_last() =~= ts@.take(i as int));
            assert(ts@.take(i as int + 1).last() == ts@[i as int]);
        }
        i = i + 1;
    }
    proof {
        assert(ts@.take(n as int) =~= ts@);
    }
}

/// Print one field.
fn print_field(out: &mut String, f: &Field)
    ensures
        final(out)@ == old(out)@ + render_field(*f),
{
    match f {
        Field::Import { module, rest } => {
            out.append(" ( import \"");
            out.append(module.as_str());
            out.append("\"");
            print_toks(out, rest);
            out.append(" )");
        },
        Field::Memory { head, exports, rest } => {
            out.append(" ( memory");
            print_toks(out, head);
            print_inline_exports(out, exports);
            print_toks(out, rest);
            out.append(" )");
        },
        Field::Func(ff) => {
            out.append(" ( func");
            print_toks(out, &ff.head);
            print_inline_exports(out, &ff.exports);
            print_toks(out, &ff.pre);
            print_results(out, &ff.results);
            print_toks(out, &ff.body);
            out.append(" )");
        },
        Field::Export(e) => {
            out.append(" ( export \"");
            out.append(e.name.as_str());
            out.append("\" ( ");
            out.append(e.kind.as_str());
            out.append(" ");
            out.append(e.index.as_str());
            out.append(" ) )");
        },
        Field::Start { index } => {
            out.append(" ( start ");
            out.append(index.as_str());
            out.append(" )");
        },
        Field::Shim { name: _, toks } => {
            out.append(" (");
            print_toks(out, toks);
            out.append(" )");
        },
        Field::Other { toks } => {
            print_toks(out, toks);
        },
    }
}

/// Print a whole module tree back to module text.
pub fn render_module(m: &ModuleTree) -> (r: String)
    ensures
        r@ == render_module_spec(*m),
{
    let mut out = String::new();
    out.append(" ( module");
    match &m.id {
        Some(id) => {
            out.append(" ");
            out.append(id.as_str());
        },
        None => {},
    }
    let n = m.fields.len();
    let mut i: usize = 0;
    let ghost header = out@;
    proof {
        assert(m.fields@.take(0) =~= Seq::<Field>::empty());
    }
    while i < n
        invariant
            n == m.fields@.len(),
            i <= n,
            out@ == header + render_fields(m.fields@.take(i as int)),
        decreases n - i,
    {
        print_field(&mut out, &m.fields[i]);
        proof {
            assert(m.fields@.take(i as int + 1).drop_last() =~= m.fields@.take(i as int));
            assert(m.fields@.take(i as int + 1).last() == m.fields@[i as int]);
        }
        i = i + 1;
    }
    out.append(" )");
    proof {
        assert(m.fields@.take(n as int) =~= m.fields@);
    }
    out
}

} // verus!
