//! Token layer of the module text: the tree is a sequence of parentheses,
//! atoms and quoted strings, and every field of a module is a balanced run of
//! such tokens.

use vstd::prelude::*;
use vstd::string::StrSliceExecFns;

use crate::AdaptError;

verus! {

/// One token of module text.
#[derive(Debug, Clone)]
pub enum Tok {
    LParen,
    RParen,
    /// A run of ordinary characters: a keyword, an identifier, a number.
    Atom(String),
    /// The inner text of a quoted string, escape sequences left intact.
    Quoted(String),
}

/// Characters that may stand inside an atom: anything but whitespace,
/// parentheses, quotes and the comment introducer.
pub open spec fn atom_char(c: char) -> bool {
    c != ' ' && c != '\t' && c != '\n' && c != '\r' && c != '(' && c != ')' && c != '"'
        && c != ';'
}

/// A well-formed atom: non-empty, made of atom characters only.
pub open spec fn atom_wf(s: Seq<char>) -> bool {
    s.len() > 0 && forall|i: int| 0 <= i < s.len() ==> atom_char(#[trigger] s[i])
}

/// A well-formed quoted-string body: a quote appears only as the second
/// character of an escape pair, so wrapping the body in quotes again yields
/// exactly one string token.
pub open spec fn quoted_wf(s: Seq<char>) -> bool
    decreases s.len(),
{
    if s.len() == 0 {
        true
    } else if s[0] == '\\' {
        s.len() >= 2 && quoted_wf(s.skip(2))
    } else {
        s[0] != '"' && quoted_wf(s.skip(1))
    }
}

/// A well-formed token.
pub open spec fn tok_wf(t: Tok) -> bool {
    match t {
        Tok::LParen => true,
        Tok::RParen => true,
        Tok::Atom(a) => atom_wf(a@),
        Tok::Quoted(q) => quoted_wf(q@),
    }
}

/// All tokens of a sequence are well-formed.
pub open spec fn toks_wf(ts: Seq<Tok>) -> bool {
    forall|i: int| 0 <= i < ts.len() ==> tok_wf(#[trigger] ts[i])
}

proof fn lemma_quoted_push_plain(s: Seq<char>, c: char)
    requires
        quoted_wf(s),
        c != '"',
        c != '\\',
    ensures
        quoted_wf(s.push(c)),
    decreases s.len(),
{
    let t = s.push(c);
    if s.len() == 0 {
        assert(t[0] == c);
        assert(t.skip(1) =~= Seq::<char>::empty());
        assert(quoted_wf(t.skip(1)));
    } else if s[0] == '\\' {
        lemma_quoted_push_plain(s.skip(2), c);
        assert(t[0] == '\\');
        assert(t.skip(2) =~= s.skip(2).push(c));
    } else {
        lemma_quoted_push_plain(s.skip(1), c);
        assert(t[0] == s[0]);
        assert(t.skip(1) =~= s.skip(1).push(c));
    }
}

proof fn lemma_quoted_push_escape(s: Seq<char>, c: char)
    requires
        quoted_wf(s),
    ensures
        quoted_wf(s.push('\\').push(c)),
    decreases s.len(),
{
    let t = s.push('\\').push(c);
    if s.len() == 0 {
        assert(t[0] == '\\');
        assert(t.skip(2) =~= Seq::<char>::empty());
        assert(quoted_wf(t.skip(2)));
    } else if s[0] == '\\' {
        lemma_quoted_push_escape(s.skip(2), c);
        assert(t[0] == '\\');
        assert(t.skip(2) =~= s.skip(2).push('\\').push(c));
    } else {
        lemma_quoted_push_escape(s.skip(1), c);
        assert(t[0] == s[0]);
        assert(t.skip(1) =~= s.skip(1).push('\\').push(c));
    }
}

/// Whitespace between tokens.
pub open spec fn space_char(c: char) -> bool {
    c == ' ' || c == '\t' || c == '\n' || c == '\r'
}

/// Position of the newline that ends a line comment read from `i`, or the
/// end of the text.
pub open spec fn line_comment_end(s: Seq<char>, i: int) -> int
    decreases s.len() - i,
    when 0 <= i <= s.len()
{
    if i >= s.len() {
        s.len() as int
    } else if s[i] == '\n' {
        i
    } else {
        line_comment_end(s, i + 1)
    }
}

pub proof fn lemma_line_comment_end_bounds(s: Seq<char>, i: int)
    requires
        0 <= i <= s.len(),
    ensures
        i <= line_comment_end(s, i) <= s.len(),
    decreases s.len() - i,
{
    if i < s.len() && s[i] != '\n' {
        lemma_line_comment_end_bounds(s, i + 1);
    }
}

/// Position after the close of a block comment whose body is read from `i`
/// at nesting depth `d`; nothing when the comment never closes.
pub open spec fn block_comment_end(s: Seq<char>, i: int, d: int) -> Option<int>
    decreases s.len() - i,
    when 0 <= i <= s.len()
{
    if i >= s.len() {
        None
    } else if s[i] == '(' && i + 1 < s.len() && s[i + 1] == ';' {
        block_comment_end(s, i + 2, d + 1)
    } else if s[i] == ';' && i + 1 < s.len() && s[i + 1] == ')' {
        if d <= 1 {
            Some(i + 2)
        } else {
            block_comment_end(s, i + 2, d - 1)
        }
    } else {
        block_comment_end(s, i + 1, d)
    }
}

pub proof fn lemma_block_comment_end_bounds(s: Seq<char>, i: int, d: int)
    requires
        0 <= i <= s.len(),
    ensures
        block_comment_end(s, i, d) matches Some(j) ==> i < j <= s.len(),
    decreases s.len() - i,
{
    if i < s.len() {
        if s[i] == '(' && i + 1 < s.len() && s[i + 1] == ';' {
            lemma_block_comment_end_bounds(s, i + 2, d + 1);
        } else if s[i] == ';' && i + 1 < s.len() && s[i + 1] == ')' {
            if d > 1 {
                lemma_block_comment_end_bounds(s, i + 2, d - 1);
            }
        } else {
            lemma_block_comment_end_bounds(s, i + 1, d);
        }
    }
}

/// Position of the closing quote of a string body read from `i`, escape
/// pairs skipped; nothing when the string never closes.
pub open spec fn quoted_end(s: Seq<char>, i: int) -> Option<int>
    decreases s.len() - i,
    when 0 <= i <= s.len()
{
    if i >= s.len() {
        None
    } else if s[i] == '"' {
        Some(i)
    } else if s[i] == '\\' {
        if i + 1 < s.len() {
            quoted_end(s, i + 2)
        } else {
            None
        }
    } else {
        quoted_end(s, i + 1)
    }
}

pub proof fn lemma_quoted_end_bounds(s: Seq<char>, i: int)
    requires
        0 <= i <= s.len(),
    ensures
        quoted_end(s, i) matches Some(j) ==> i <= j < s.len(),
    decreases s.len() - i,
{
    if i < s.len() && s[i] != '"' {
        if s[i] == '\\' {
            if i + 1 < s.len() {
                lemma_quoted_end_bounds(s, i + 2);
            }
        } else {
            lemma_quoted_end_bounds(s, i + 1);
        }
    }
}

/// Position after the last character of an atom whose tail is read from `i`.
pub open spec fn atom_end(s: Seq<char>, i: int) -> int
    decreases s.len() - i,
    when 0 <= i <= s.len()
{
    if i >= s.len() {
        s.len() as int
    } else if atom_char(s[i]) {
        atom_end(s, i + 1)
    } else {
        i
    }
}

pub proof fn lemma_atom_end_bounds(s: Seq<char>, i: int)
    requires
        0 <= i <= s.len(),
    ensures
        i <= atom_end(s, i) <= s.len(),
    decreases s.len() - i,
{
    if i < s.len() && atom_char(s[i]) {
        lemma_atom_end_bounds(s, i + 1);
    }
}

/// The whole lexical grammar: `ts` is exactly the token sequence of the text
/// from position `i` to its end.
pub open spec fn lex_ok(s: Seq<char>, i: int, ts: Seq<Tok>) -> bool
    decreases s.len() - i,
    when 0 <= i <= s.len()
{
    if i >= s.len() {
        ts.len() == 0
    } else if space_char(s[i]) {
        lex_ok(s, i + 1, ts)
    } else if s[i] == '(' && i + 1 < s.len() && s[i + 1] == ';' {
        match block_comment_end(s, i + 2, 1) {
            Some(j) => {
                proof {
                    lemma_block_comment_end_bounds(s, i + 2, 1);
                }
                lex_ok(s, j, ts)
            },
            None => false,
        }
    } else if s[i] == '(' {
        ts.len() > 0 && ts[0] is LParen && lex_ok(s, i + 1, ts.drop_first())
    } else if s[i] == ')' {
        ts.len() > 0 && ts[0] is RParen && lex_ok(s, i + 1, ts.drop_first())
    } else if s[i] == ';' {
        if i + 1 < s.len() && s[i + 1] == ';' {
            proof {
                lemma_line_comment_end_bounds(s, i + 2);
            }
            lex_ok(s, line_comment_end(s, i + 2), ts)
        } else {
            false
        }
    } else if s[i] == '"' {
        match quoted_end(s, i + 1) {
            Some(j) => {
                proof {
                    lemma_quoted_end_bounds(s, i + 1);
                }
                &&& ts.len() > 0
                &&& (ts[0] matches Tok::Quoted(q) && q@ == s.subrange(i + 1, j))
                &&& lex_ok(s, j + 1, ts.drop_first())
            },
            None => false,
        }
    } else {
        proof {
            lemma_atom_end_bounds(s, i + 1);
        }
        let j = atom_end(s, i + 1);
        &&& ts.len() > 0
        &&& (ts[0] matches Tok::Atom(a) && a@ == s.subrange(i, j))
        &&& lex_ok(s, j, ts.drop_first())
    }
}

fn is_space(c: char) -> (r: bool)
    ensures
        r == space_char(c),
{
    c == ' ' || c == '\t' || c == '\n' || c == '\r'
}

fn is_atom_char(c: char) -> (r: bool)
    ensures
        r == atom_char(c),
{
    c != ' ' && c != '\t' && c != '\n' && c != '\r' && c != '(' && c != ')' && c != '"'
        && c != ';'
}

/// Whether the text lexes to completion from position `i`: the token-free
/// side of [`lex_ok`], deciding exactly when the tokenizer succeeds.
pub open spec fn lexes_from(s: Seq<char>, i: int) -> bool
    decreases s.len() - i,
    when 0 <= i <= s.len()
{
    if i >= s.len() {
        true
    } else if space_char(s[i]) {
        lexes_from(s, i + 1)
    } else if s[i] == '(' && i + 1 < s.len() && s[i + 1] == ';' {
        match block_comment_end(s, i + 2, 1) {
            Some(j) => {
                proof {
                    lemma_block_comment_end_bounds(s, i + 2, 1);
                }
                lexes_from(s, j)
            },
            None => false,
        }
    } else if s[i] == '(' {
        lexes_from(s, i + 1)
    } else if s[i] == ')' {
        lexes_from(s, i + 1)
    } else if s[i] == ';' {
        if i + 1 < s.len() && s[i + 1] == ';' {
            proof {
                lemma_line_comment_end_bounds(s, i + 2);
            }
            lexes_from(s, line_comment_end(s, i + 2))
        } else {
            false
        }
    } else if s[i] == '"' {
        match quoted_end(s, i + 1) {
            Some(j) => {
                proof {
                    lemma_quoted_end_bounds(s, i + 1);
                }
                lexes_from(s, j + 1)
            },
            None => false,
        }
    } else {
        proof {
            lemma_atom_end_bounds(s, i + 1);
        }
        lexes_from(s, atom_end(s, i + 1))
    }
}

/// Split module text into tokens. Line comments (`;;` to end of line) and
/// nestable block comments (`(;` to `;)`) are skipped; quoted strings keep
/// their escape sequences untouched. A successful result is exactly the
/// text's token sequence, as [`lex_ok`] states it.
pub fn tokenize(s: &str) -> (r: Result<Vec<Tok>, AdaptError>)
    ensures
        r matches Ok(ts) ==> toks_wf(ts@) && lex_ok(s@, 0, ts@),
        r is Ok <==> lexes_from(s@, 0),
        r matches Err(e) ==> (e matches AdaptError::UnterminatedQuote { .. }) || (e matches AdaptError::UnterminatedComment { .. }) || (e matches AdaptError::StrayChar { .. }),
{
    let n: usize = s.unicode_len();
    let mut toks: Vec<Tok> = Vec::new();
    let mut i: usize = 0;
    proof {
        assert forall|rest: Seq<Tok>| #[trigger] lex_ok(s@, 0, rest) implies lex_ok(
            s@,
            0,
            toks@ + rest,
        ) by {
            assert(toks@ + rest =~= rest);
        }
    }
    while i < n
        invariant
            n == s@.len(),
            i <= n,
            toks_wf(toks@),
            lexes_from(s@, 0) == lexes_from(s@, i as int),
            forall|rest: Seq<Tok>| #[trigger] lex_ok(s@, i as int, rest) ==> lex_ok(
                s@,
                0,
                toks@ + rest,
            ),
        decreases n - i,
    {
        let c = s.get_char(i);
        if is_space(c) {
            proof {
                assert(lexes_from(s@, i as int) == lexes_from(s@, i as int + 1));
                assert forall|rest: Seq<Tok>| #[trigger] lex_ok(s@, i as int + 1, rest) implies
                    lex_ok(s@, 0, toks@ + rest) by {
                    assert(lex_ok(s@, i as int, rest));
                }
            }
            i = i + 1;
        } else if c == '(' {
            if i + 1 < n && s.get_char(i + 1) == ';' {
                // block comment, possibly nested
                let mut depth: usize = 1;
                let mut j: usize = i + 2;
                loop
                    invariant_except_break
                        1 <= depth,
                        block_comment_end(s@, i as int + 2, 1) == block_comment_end(
                            s@,
                            j as int,
                            depth as int,
                        ),
                    invariant
                        n == s@.len(),
                        i + 2 <= j <= n,
                        2 * (depth as int) <= j - i,
                        s@[i as int] == '(',
                        s@[i as int + 1] == ';',
                        lexes_from(s@, 0) == lexes_from(s@, i as int),
                    ensures
                        block_comment_end(s@, i as int + 2, 1) == Some(j as int),
                    decreases n - j,
                {
                    if j >= n {
                        proof {
                            assert(block_comment_end(s@, j as int, depth as int) is None);
                            assert(!lexes_from(s@, i as int));
                        }
                        return Err(AdaptError::UnterminatedComment { pos: i });
                    }
                    let d = s.get_char(j);
                    if d == '(' && j + 1 < n && s.get_char(j + 1) == ';' {
                        proof {
                            assert(block_comment_end(s@, j as int, depth as int)
                                == block_comment_end(s@, j as int + 2, depth as int + 1));
                        }
                        depth = depth + 1;
                        j = j + 2;
                    } else if d == ';' && j + 1 < n && s.get_char(j + 1) == ')' {
                        if depth == 1 {
                            proof {
                                assert(block_comment_end(s@, j as int, depth as int) == Some(
                                    j as int + 2,
                                ));
                            }
                            j = j + 2;
                            break ;
                        }
                        proof {
                            assert(block_comment_end(s@, j as int, depth as int)
                                == block_comment_end(s@, j as int + 2, depth as int - 1));
                        }
                        depth = depth - 1;
                        j = j + 2;
                    } else {
                        proof {
                            assert(block_comment_end(s@, j as int, depth as int)
                                == block_comment_end(s@, j as int + 1, depth as int));
                        }
                        j = j + 1;
                    }
                }
                proof {
                    assert(lexes_from(s@, i as int) == lexes_from(s@, j as int));
                    assert forall|rest: Seq<Tok>| #[trigger] lex_ok(s@, j as int, rest) implies
                        lex_ok(s@, 0, toks@ + rest) by {
                        assert(lex_ok(s@, i as int, rest));
                    }
                }
                i = j;
            } else {
                let ghost prev_toks = toks@;
                toks.push(Tok::LParen);
                proof {
                    assert(lexes_from(s@, i as int) == lexes_from(s@, i as int + 1));
                    assert forall|rest: Seq<Tok>| #[trigger] lex_ok(s@, i as int + 1, rest) implies
                        lex_ok(s@, 0, toks@ + rest) by {
                        let ext = seq![Tok::LParen] + rest;
                        assert(ext.drop_first() =~= rest);
                        assert(lex_ok(s@, i as int, ext));
                        assert(prev_toks + ext =~= toks@ + rest);
                        assert(lex_ok(s@, 0, prev_toks + ext));
                    }
                }
                i = i + 1;
            }
        } else if c == ')' {
            let ghost prev_toks = toks@;
            toks.push(Tok::RParen);
            proof {
                assert(lexes_from(s@, i as int) == lexes_from(s@, i as int + 1));
                assert forall|rest: Seq<Tok>| #[trigger] lex_ok(s@, i as int + 1, rest) implies
                    lex_ok(s@, 0, toks@ + rest) by {
                    let ext = seq![Tok::RParen] + rest;
                    assert(ext.drop_first() =~= rest);
                    assert(lex_ok(s@, i as int, ext));
                    assert(prev_toks + ext =~= toks@ + rest);
                    assert(lex_ok(s@, 0, prev_toks + ext));
                }
            }
            i = i + 1;
        } else if c == ';' {
            if i + 1 < n && s.get_char(i + 1) == ';' {
                // line comment
                let mut j: usize = i + 2;
                while j < n && s.get_char(j) != '\n'
                    invariant
                        n == s@.len(),
                        i + 2 <= j <= n,
                        line_comment_end(s@, i as int + 2) == line_comment_end(s@, j as int),
                    decreases n - j,
                {
                    proof {
                        assert(line_comment_end(s@, j as int) == line_comment_end(
                            s@,
                            j as int + 1,
                        ));
                    }
                    j = j + 1;
                }
                proof {
                    assert(line_comment_end(s@, j as int) == j as int);
                    assert(lexes_from(s@, i as int) == lexes_from(s@, j as int));
                    assert forall|rest: Seq<Tok>| #[trigger] lex_ok(s@, j as int, rest) implies
                        lex_ok(s@, 0, toks@ + rest) by {
                        assert(lex_ok(s@, i as int, rest));
                    }
                }
                i = j;
            } else {
                proof {
                    assert(!lexes_from(s@, i as int));
                }
                return Err(AdaptError::StrayChar { pos: i });
            }
        } else if c == '"' {
            let mut j: usize = i + 1;
            let mut body = String::new();
            proof {
                assert(body@ =~= s@.subrange(i as int + 1, i as int + 1));
            }
            loop
                invariant
                    n == s@.len(),
                    i + 1 <= j <= n,
                    s@[i as int] == '"',
                    lexes_from(s@, 0) == lexes_from(s@, i as int),
                    quoted_wf(body@),
                    body@ == s@.subrange(i as int + 1, j as int),
                    quoted_end(s@, i as int + 1) == quoted_end(s@, j as int),
                ensures
                    j < n,
                    s@[j as int] == '"',
                    quoted_end(s@, i as int + 1) == Some(j as int),
                    quoted_wf(body@),
                    body@ == s@.subrange(i as int + 1, j as int),
                decreases n - j,
            {
                if j >= n {
                    proof {
                        assert(quoted_end(s@, j as int) is None);
                        assert(quoted_end(s@, i as int + 1) is None);
                        assert(s@[i as int] == '"');
                        assert(!lexes_from(s@, i as int));
                    }
                    return Err(AdaptError::UnterminatedQuote { pos: i });
                }
                let d = s.get_char(j);
                if d == '"' {
                    proof {
                        assert(quoted_end(s@, j as int) == Some(j as int));
                    }
                    break ;
                } else if d == '\\' {
                    if j + 1 >= n {
                        proof {
                            assert(quoted_end(s@, j as int) is None);
                            assert(quoted_end(s@, i as int + 1) is None);
                            assert(s@[i as int] == '"');
                            assert(!lexes_from(s@, i as int));
                        }
                        return Err(AdaptError::UnterminatedQuote { pos: i });
                    }
                    let e = s.get_char(j + 1);
                    let ghost prev = body@;
                    proof {
                        lemma_quoted_push_escape(prev, e);
                        assert(quoted_end(s@, j as int) == quoted_end(s@, j as int + 2));
                    }
                    body.append(s.substring_char(j, j + 2));
                    proof {
                        assert(s@.subrange(j as int, j as int + 2) =~= seq![
                            s@[j as int],
                            s@[j as int + 1],
                        ]);
                        assert(body@ =~= prev.push('\\').push(e));
                        assert(body@ =~= s@.subrange(i as int + 1, j as int + 2));
                    }
                    j = j + 2;
                } else {
                    let ghost prev = body@;
                    proof {
                        lemma_quoted_push_plain(prev, d);
                        assert(quoted_end(s@, j as int) == quoted_end(s@, j as int + 1));
                    }
                    body.append(s.substring_char(j, j + 1));
                    proof {
                        assert(s@.subrange(j as int, j as int + 1) =~= seq![s@[j as int]]);
                        assert(body@ =~= prev.push(d));
                        assert(body@ =~= s@.subrange(i as int + 1, j as int + 1));
                    }
                    j = j + 1;
                }
            }
            let ghost prev_toks = toks@;
            toks.push(Tok::Quoted(body));
            proof {
                assert(lexes_from(s@, i as int) == lexes_from(s@, j as int + 1));
                assert forall|rest: Seq<Tok>| #[trigger] lex_ok(s@, j as int + 1, rest) implies
                    lex_ok(s@, 0, toks@ + rest) by {
                    let ext = seq![toks@.last()] + rest;
                    assert(ext.drop_first() =~= rest);
                    assert(lex_ok(s@, i as int, ext));
                    assert(prev_toks + ext =~= toks@ + rest);
                    assert(lex_ok(s@, 0, prev_toks + ext));
                }
            }
            i = j + 1;
        } else {
            assert(atom_char(s@[i as int]));
            let mut j: usize = i + 1;
            while j < n && is_atom_char(s.get_char(j))
                invariant
                    n == s@.len(),
                    i < j <= n,
                    forall|k: int| i <= k < j ==> atom_char(#[trigger] s@[k]),
                    atom_end(s@, i as int + 1) == atom_end(s@, j as int),
                decreases n - j,
            {
                proof {
                    assert(atom_end(s@, j as int) == atom_end(s@, j as int + 1));
                }
                j = j + 1;
            }
            proof {
                assert(atom_end(s@, j as int) == j as int);
            }
            let a = s.substring_char(i, j).to_owned();
            assert(atom_wf(a@));
            let ghost prev_toks = toks@;
            toks.push(Tok::Atom(a));
            proof {
                assert(lexes_from(s@, i as int) == lexes_from(s@, j as int));
                assert forall|rest: Seq<Tok>| #[trigger] lex_ok(s@, j as int, rest) implies lex_ok(
                    s@,
                    0,
                    toks@ + rest,
                ) by {
                    let ext = seq![toks@.last()] + rest;
                    assert(ext.drop_first() =~= rest);
                    assert(lex_ok(s@, i as int, ext));
                    assert(prev_toks + ext =~= toks@ + rest);
                    assert(lex_ok(s@, 0, prev_toks + ext));
                }
            }
            i = j;
        }
    }
    proof {
        assert(lexes_from(s@, n as int));
        assert(lex_ok(s@, n as int, Seq::<Tok>::empty()));
        assert(toks@ + Seq::<Tok>::empty() =~= toks@);
    }
    Ok(toks)
}

} // verus!
