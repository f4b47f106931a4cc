use vstd::prelude::*;
use vstd::string::*;
use crate::tree::Tree;
use crate::expr::{Expr, SExpr, lemma_list_view, same_text};

verus! {

/// What goes wrong when text does not hold exactly one expression.
#[derive(Debug, Clone, Copy, PartialEq, Eq, Structural)]
pub enum SyntaxError {
    /// The tokens ran out while a list was still open.
    UnexpectedEnd,
    /// A closing parenthesis with no list open.
    UnexpectedClose,
    /// Tokens remain after one complete expression.
    LeftoverTokens,
}

/// White space as Unicode's `White_Space` property lists it.
pub open spec fn is_space_spec(c: char) -> bool {
    let u = c as u32;
    (0x9 <= u && u <= 0xd) || u == 0x20 || u == 0x85 || u == 0xa0 || u == 0x1680 || (0x2000
        <= u && u <= 0x200a) || u == 0x2028 || u == 0x2029 || u == 0x202f || u == 0x205f || u
        == 0x3000
}

pub open spec fn is_paren(c: char) -> bool {
    c == '(' || c == ')'
}

pub open spec fn is_delim(c: char) -> bool {
    is_space_spec(c) || is_paren(c)
}

/// The pending token, if it is not empty.
pub open spec fn flush(cur: Seq<char>) -> Seq<Seq<char>> {
    if cur.len() == 0 {
        seq![]
    } else {
        seq![cur]
    }
}

/// The tokens of `s`, where `cur` holds the characters of a token already begun.
/// Each parenthesis is a token of its own; white space separates tokens and
/// is dropped.
pub open spec fn tokens_from(s: Seq<char>, cur: Seq<char>) -> Seq<Seq<char>>
    decreases s.len(),
{
    if s.len() == 0 {
        flush(cur)
    } else if is_paren(s[0]) {
        flush(cur) + seq![seq![s[0]]] + tokens_from(s.drop_first(), seq![])
    } else if is_space_spec(s[0]) {
        flush(cur) + tokens_from(s.drop_first(), seq![])
    } else {
        tokens_from(s.drop_first(), cur.push(s[0]))
    }
}

pub open spec fn tokens_of(s: Seq<char>) -> Seq<Seq<char>> {
    tokens_from(s, seq![])
}

pub open spec fn open_tok() -> Seq<char> {
    seq!['(']
}

pub open spec fn close_tok() -> Seq<char> {
    seq![')']
}

/// One expression from the front of `toks`, and the tokens after it.
pub open spec fn parse_expr(toks: Seq<Seq<char>>) -> Result<(SExpr, Seq<Seq<char>>), SyntaxError>
    decreases toks.len(), 0nat,
{
    if toks.len() == 0 {
        Err(SyntaxError::UnexpectedEnd)
    } else if toks[0] == open_tok() {
        parse_items(toks.drop_first(), seq![])
    } else if toks[0] == close_tok() {
        Err(SyntaxError::UnexpectedClose)
    } else {
        Ok((SExpr::Atom(toks[0]), toks.drop_first()))
    }
}

/// The rest of an open list whose children so far are `acc`, up to and
/// including its closing parenthesis.
pub open spec fn parse_items(toks: Seq<Seq<char>>, acc: Seq<SExpr>) -> Result<
    (SExpr, Seq<Seq<char>>),
    SyntaxError,
>
    decreases toks.len(), 1nat,
{
    if toks.len() > 0 && toks[0] == close_tok() {
        Ok((SExpr::List(acc), toks.drop_first()))
    } else {
        match parse_expr(toks) {
            Err(e) => Err(e),
            Ok((x, rest)) => if rest.len() < toks.len() {
                parse_items(rest, acc.push(x))
            } else {
                Err(SyntaxError::UnexpectedEnd)
            },
        }
    }
}

/// What reading `s` gives: one expression that uses up every token.
pub open spec fn read_spec(s: Seq<char>) -> Result<SExpr, SyntaxError> {
    match parse_expr(tokens_of(s)) {
        Err(e) => Err(e),
        Ok((x, rest)) => if rest.len() == 0 {
            Ok(x)
        } else if rest[0] == close_tok() {
            Err(SyntaxError::UnexpectedClose)
        } else {
            Err(SyntaxError::LeftoverTokens)
        },
    }
}

pub open spec fn tokens_view(toks: Seq<String>) -> Seq<Seq<char>> {
    toks.map_values(|t: String| t@)
}

pub fn is_space(c: char) -> (r: bool)
    ensures
        r == is_space_spec(c),
{
    let u = c as u32;
    (0x9 <= u && u <= 0xd) || u == 0x20 || u == 0x85 || u == 0xa0 || u == 0x1680 || (0x2000
        <= u && u <= 0x200a) || u == 0x2028 || u == 0x2029 || u == 0x202f || u == 0x205f || u
        == 0x3000
}

proof fn lemma_tokens_step(s: Seq<char>, i: int, cur: Seq<char>)
    requires
        0 <= i < s.len(),
    ensures
        s.subrange(i, s.len() as int).drop_first() == s.subrange(i + 1, s.len() as int),
        s.subrange(i, s.len() as int)[0] == s[i],
{
    assert(s.subrange(i, s.len() as int).drop_first() =~= s.subrange(i + 1, s.len() as int));
}

/// Splits text into tokens: each parenthesis alone, other tokens separated by
/// white space.
pub fn tokenize(s: &str) -> (r: Vec<String>)
    ensures
        tokens_view(r@) == tokens_of(s@),
{
    let n = s.unicode_len();
    let mut out: Vec<String> = Vec::new();
    let mut start: usize = 0;
    let mut i: usize = 0;
    proof {
        assert(s@.subrange(0, n as int) =~= s@);
        assert(s@.subrange(0, 0) =~= Seq::<char>::empty());
        assert(tokens_view(out@) =~= Seq::<Seq<char>>::empty());
        assert(tokens_view(out@) + tokens_of(s@) =~= tokens_of(s@));
    }
    while i < n
        invariant
            n == s@.len(),
            start <= i <= n,
            tokens_view(out@) + tokens_from(s@.subrange(i as int, n as int), s@.subrange(start as int, i as int))
                == tokens_of(s@),
        decreases n - i,
    {
        let c = s.get_char(i);
        let ghost cur = s@.subrange(start as int, i as int);
        let ghost old_out = tokens_view(out@);
        proof {
            lemma_tokens_step(s@, i as int, cur);
        }
        if c == '(' || c == ')' || is_space(c) {
            if start < i {
                out.push(String::from_str(s.substring_char(start, i)));
                proof {
                    assert(tokens_view(out@) =~= old_out + flush(cur));
                }
            } else {
                assert(tokens_view(out@) =~= old_out + flush(cur));
            }
            if c == '(' || c == ')' {
                let ghost before = tokens_view(out@);
                out.push(String::from_str(s.substring_char(i, i + 1)));
                proof {
                    assert(s@.subrange(i as int, i + 1) =~= seq![c]);
                    assert(tokens_view(out@) =~= before + seq![seq![c]]);
                }
            }
            start = i + 1;
            proof {
                assert(s@.subrange(start as int, i + 1) =~= Seq::<char>::empty());
            }
        } else {
            proof {
                assert(s@.subrange(start as int, i + 1) =~= cur.push(c));
            }
        }
        i = i + 1;
    }
    proof {
        assert(tokens_view(out@) + flush(s@.subrange(start as int, n as int)) == tokens_of(s@));
    }
    if start < n {
        let ghost before = tokens_view(out@);
        out.push(String::from_str(s.substring_char(start, n)));
        assert(tokens_view(out@) =~= before + flush(s@.subrange(start as int, n as int)));
    } else {
        assert(tokens_view(out@) =~= tokens_view(out@) + flush(s@.subrange(start as int, n as int)));
    }
    out
}

/// The tokens from `pos` on.
pub open spec fn suffix(toks: Seq<String>, pos: int) -> Seq<Seq<char>> {
    tokens_view(toks).subrange(pos, toks.len() as int)
}

/// Whether `r` is what reading one expression from position `pos` gives.
pub open spec fn read_from_result(
    toks: Seq<String>,
    pos: int,
    r: Result<(Expr, usize), SyntaxError>,
) -> bool {
    match parse_expr(suffix(toks, pos)) {
        Ok((e, rest)) => r is Ok && r->Ok_0.0@ == e && pos < r->Ok_0.1 <= toks.len() && rest
            == suffix(toks, r->Ok_0.1 as int),
        Err(x) => r == Err::<(Expr, usize), SyntaxError>(x),
    }
}

fn is_token(t: &String, lit: &str) -> (r: bool)
    ensures
        r == (t@ == lit@),
{
    same_text(t.as_str(), lit)
}

/// Reads one expression from the tokens at `pos`, returning it with the
/// position just after it.
pub fn read_from(toks: &Vec<String>, pos: usize) -> (r: Result<(Expr, usize), SyntaxError>)
    requires
        pos <= toks.len(),
    ensures
        read_from_result(toks@, pos as int, r),
    decreases toks.len() - pos,
{
    let ghost tv = tokens_view(toks@);
    proof {
        reveal_strlit("(");
        reveal_strlit(")");
        assert("("@ =~= open_tok());
        assert(")"@ =~= close_tok());
    }
    if pos >= toks.len() {
        return Err(SyntaxError::UnexpectedEnd);
    }
    assert(suffix(toks@, pos as int)[0] == toks@[pos as int]@);
    assert(suffix(toks@, pos as int).drop_first() =~= suffix(toks@, pos + 1));
    if is_token(&toks[pos], "(") {
        let mut ch: Vec<Expr> = Vec::new();
        let mut p: usize = pos + 1;
        assert(ch@.map_values(|t: Expr| t@) =~= Seq::<SExpr>::empty());
        loop
            invariant
                pos < p <= toks.len(),
                ")"@ == close_tok(),
                parse_expr(suffix(toks@, pos as int)) == parse_items(
                    suffix(toks@, p as int),
                    ch@.map_values(|t: Expr| t@),
                ),
            decreases toks.len() - p,
        {
            let ghost acc = ch@.map_values(|t: Expr| t@);
            if p < toks.len() {
                assert(suffix(toks@, p as int)[0] == toks@[p as int]@);
                assert(suffix(toks@, p as int).drop_first() =~= suffix(toks@, p + 1));
                if is_token(&toks[p], ")") {
                    let e = Tree::Branch(ch);
                    proof {
                        lemma_list_view(ch);
                        assert(e@->List_0 =~= acc);
                    }
                    return Ok((e, p + 1));
                }
            }
            match read_from(toks, p) {
                Err(x) => {
                    return Err(x);
                },
                Ok((x, q)) => {
                    ch.push(x);
                    proof {
                        assert(ch@.map_values(|t: Expr| t@) =~= acc.push(x@));
                    }
                    p = q;
                },
            }
        }
    } else if is_token(&toks[pos], ")") {
        Err(SyntaxError::UnexpectedClose)
    } else {
        Ok((Tree::Leaf(toks[pos].clone()), pos + 1))
    }
}

/// Reads exactly one expression from `s`.
pub fn read(s: &str) -> (r: Result<Expr, SyntaxError>)
    ensures
        match read_spec(s@) {
            Ok(e) => r is Ok && r->Ok_0@ == e,
            Err(x) => r == Err::<Expr, SyntaxError>(x),
        },
{
    let toks = tokenize(s);
    proof {
        reveal_strlit(")");
        assert(")"@ =~= close_tok());
        assert(suffix(toks@, 0) =~= tokens_of(s@));
    }
    match read_from(&toks, 0) {
        Err(x) => Err(x),
        Ok((e, p)) => {
            if p == toks.len() {
                assert(suffix(toks@, p as int) =~= Seq::<Seq<char>>::empty());
                Ok(e)
            } else {
                assert(suffix(toks@, p as int)[0] == toks@[p as int]@);
                if is_token(&toks[p], ")") {
                    Err(SyntaxError::UnexpectedClose)
                } else {
                    Err(SyntaxError::LeftoverTokens)
                }
            }
        },
    }
}

/// The expressions of a whole program: one after another until the tokens
/// run out.
pub open spec fn parse_all(toks: Seq<Seq<char>>) -> Result<Seq<SExpr>, SyntaxError>
    decreases toks.len(),
{
    if toks.len() == 0 {
        Ok(seq![])
    } else {
        match parse_expr(toks) {
            Err(e) => Err(e),
            Ok((x, rest)) => if rest.len() < toks.len() {
                match parse_all(rest) {
                    Err(e) => Err(e),
                    Ok(xs) => Ok(seq![x] + xs),
                }
            } else {
                Err(SyntaxError::UnexpectedEnd)
            },
        }
    }
}

pub open spec fn prepend_exprs(p: Seq<SExpr>, r: Result<Seq<SExpr>, SyntaxError>) -> Result<
    Seq<SExpr>,
    SyntaxError,
> {
    match r {
        Err(e) => Err(e),
        Ok(xs) => Ok(p + xs),
    }
}

/// Reads every expression of a program.
pub fn read_all(s: &str) -> (r: Result<Vec<Expr>, SyntaxError>)
    ensures
        match parse_all(tokens_of(s@)) {
            Ok(xs) => r is Ok && r->Ok_0@.map_values(|t: Expr| t@) == xs,
            Err(x) => r == Err::<Vec<Expr>, SyntaxError>(x),
        },
{
    let toks = tokenize(s);
    let mut out: Vec<Expr> = Vec::new();
    let mut p: usize = 0;
    proof {
        assert(suffix(toks@, 0) =~= tokens_of(s@));
        assert(out@.map_values(|t: Expr| t@) + parse_all(tokens_of(s@))->Ok_0 =~= parse_all(
            tokens_of(s@),
        )->Ok_0);
    }
    while p < toks.len()
        invariant
            p <= toks.len(),
            parse_all(tokens_of(s@)) == prepend_exprs(
                out@.map_values(|t: Expr| t@),
                parse_all(suffix(toks@, p as int)),
            ),
        decreases toks.len() - p,
    {
        let ghost before = out@.map_values(|t: Expr| t@);
        match read_from(&toks, p) {
            Err(x) => {
                return Err(x);
            },
            Ok((e, q)) => {
                let ghost rest = parse_all(suffix(toks@, q as int));
                out.push(e);
                proof {
                    assert(out@.map_values(|t: Expr| t@) =~= before.push(e@));
                    assert(before + (seq![e@] + rest->Ok_0) =~= before.push(e@) + rest->Ok_0);
                }
                p = q;
            },
        }
    }
    proof {
        assert(suffix(toks@, p as int) =~= Seq::<Seq<char>>::empty());
        assert(out@.map_values(|t: Expr| t@) + Seq::<SExpr>::empty() =~= out@.map_values(
            |t: Expr| t@,
        ));
    }
    Ok(out)
}

} // verus!
