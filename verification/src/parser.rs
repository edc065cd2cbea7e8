use vstd::prelude::*;
use vstd::string::StrSliceExecFns;

use crate::text::str_content_eq;

use crate::lana_err::{LanaErr, SpecErr};
use crate::lana_expr::{lemma_spec_exprs_of, spec_exprs_of, LanaExpr, SpecExpr};
use crate::lexer::token::{SpecToken, SpecTokenKind, Token, TokenKind};

verus! {

/// The models of a token list, in order.
pub open spec fn toks_model(tokens: Seq<Token>) -> Seq<SpecToken> {
    tokens.map_values(|t: Token| t@)
}

/// What an atom token stands for.  Parenthesis tokens never reach this
/// function: the parser handles them first.
pub open spec fn spec_atom(t: SpecToken) -> Result<SpecExpr, SpecErr> {
    match t.kind {
        SpecTokenKind::Number(b) => Ok(SpecExpr::Number(b)),
        SpecTokenKind::Str(s) => Ok(SpecExpr::Str(s)),
        SpecTokenKind::Id(s) => if s == "true"@ {
            Ok(SpecExpr::Bool(true))
        } else if s == "false"@ {
            Ok(SpecExpr::Bool(false))
        } else if s == "nil"@ {
            Ok(SpecExpr::Nil)
        } else if s.len() > 0 && s[0] == ':' {
            Ok(SpecExpr::Keyword(s))
        } else {
            Ok(SpecExpr::Symbol(s))
        },
        SpecTokenKind::UnterminatedString(_) => Err(SpecErr::UnterminatedExpr('"', t)),
        _ => arbitrary(),
    }
}

/// One expression read from index `i` on: the expression and the index of
/// the first unconsumed token.
pub open spec fn spec_parse(toks: Seq<SpecToken>, i: int) -> Result<(SpecExpr, int), SpecErr>
    decreases toks.len() - i, 0int when 0 <= i <= toks.len()
{
    if i >= toks.len() {
        Err(SpecErr::Reason("Could not get token"@))
    } else {
        match toks[i].kind {
            SpecTokenKind::LParen => match spec_read_seq(toks, i + 1, toks[i]) {
                Ok((elems, j)) => Ok((SpecExpr::List(elems), j)),
                Err(e) => Err(e),
            },
            SpecTokenKind::RParen => Err(SpecErr::UnexpectedToken(toks[i])),
            _ => match spec_atom(toks[i]) {
                Ok(e) => Ok((e, i + 1)),
                Err(e) => Err(e),
            },
        }
    }
}

/// The elements of a list read from index `i` on, up to the parenthesis that
/// closes `open_tok`.  The parser always advances, so the middle guard can
/// never be taken: it only carries the termination measure.
pub open spec fn spec_read_seq(toks: Seq<SpecToken>, i: int, open_tok: SpecToken) -> Result<
    (Seq<SpecExpr>, int),
    SpecErr,
>
    decreases toks.len() - i, 1int when 0 <= i <= toks.len()
{
    if i >= toks.len() {
        Err(SpecErr::UnterminatedExpr(')', open_tok))
    } else if toks[i].kind is RParen {
        Ok((Seq::<SpecExpr>::empty(), i + 1))
    } else {
        match spec_parse(toks, i) {
            Err(e) => Err(e),
            Ok((e, j)) => if j <= i || j > toks.len() {
                Err(SpecErr::Reason(Seq::<char>::empty()))
            } else {
                match spec_read_seq(toks, j, open_tok) {
                    Err(e2) => Err(e2),
                    Ok((rest, k)) => Ok((seq![e] + rest, k)),
                }
            },
        }
    }
}

/// Reading one expression consumes at least one token and never more than
/// there are.
pub proof fn lemma_parse_advances(toks: Seq<SpecToken>, i: int)
    requires
        0 <= i <= toks.len(),
    ensures
        spec_parse(toks, i) matches Ok(p) ==> i < p.1 <= toks.len(),
    decreases toks.len() - i, 0int,
{
    if i < toks.len() {
        if toks[i].kind is LParen {
            lemma_read_seq_advances(toks, i + 1, toks[i]);
        }
    }
}

pub proof fn lemma_read_seq_advances(toks: Seq<SpecToken>, i: int, open_tok: SpecToken)
    requires
        0 <= i <= toks.len(),
    ensures
        spec_read_seq(toks, i, open_tok) matches Ok(p) ==> i < p.1 <= toks.len(),
    decreases toks.len() - i, 1int,
{
    if i < toks.len() && !(toks[i].kind is RParen) {
        lemma_parse_advances(toks, i);
        if let Ok((e, j)) = spec_parse(toks, i) {
            if i < j <= toks.len() {
                lemma_read_seq_advances(toks, j, open_tok);
            }
        }
    }
}

/// Every expression of the token list, in order; the first error wins.
pub open spec fn spec_parse_all(toks: Seq<SpecToken>, i: int) -> Result<Seq<SpecExpr>, SpecErr>
    decreases toks.len() - i when 0 <= i <= toks.len() via spec_parse_all_decreases
{
    if i >= toks.len() {
        Ok(Seq::<SpecExpr>::empty())
    } else {
        match spec_parse(toks, i) {
            Err(e) => Err(e),
            Ok((e, j)) => if j <= i || j > toks.len() {
                Err(SpecErr::Reason(Seq::<char>::empty()))
            } else {
                match spec_parse_all(toks, j) {
                    Err(e2) => Err(e2),
                    Ok(rest) => Ok(seq![e] + rest),
                }
            },
        }
    }
}

#[via_fn]
proof fn spec_parse_all_decreases(toks: Seq<SpecToken>, i: int) {
}

/// The leaf expression an atom token stands for: numbers and strings map to
/// their own kind, `true`, `false` and `nil` to the literal values, a word
/// beginning with `:` to a keyword, and any other word to a symbol.
fn parse_atom(token: &Token) -> (r: Result<LanaExpr, LanaErr>)
    requires
        !(token.kind is LParen),
        !(token.kind is RParen),
    ensures
        match r {
            Ok(e) => spec_atom(token@) == Ok::<SpecExpr, SpecErr>(e@),
            Err(er) => spec_atom(token@) == Err::<SpecExpr, SpecErr>(er@),
        },
{
    match &token.kind {
        TokenKind::Number(b) => Ok(LanaExpr::Number(*b)),
        TokenKind::String(s) => Ok(LanaExpr::String(s.clone())),
        TokenKind::Id(s) => {
            if str_content_eq(s.as_str(), "true") {
                Ok(LanaExpr::Bool(true))
            } else if str_content_eq(s.as_str(), "false") {
                Ok(LanaExpr::Bool(false))
            } else if str_content_eq(s.as_str(), "nil") {
                Ok(LanaExpr::Nil)
            } else if s.unicode_len() > 0 && s.as_str().get_char(0) == ':' {
                Ok(LanaExpr::Keyword(s.clone()))
            } else {
                Ok(LanaExpr::Symbol(s.clone()))
            }
        }
        TokenKind::UnterminatedString(_) => Err(LanaErr::UnterminatedExpr('"', token.duplicate())),
        TokenKind::LParen => unreached(),
        TokenKind::RParen => unreached(),
    }
}

/// One expression read from index `i` of the token list; `Ok` carries the
/// expression and the index of the first unconsumed token.
fn parse_at(tokens: &Vec<Token>, i: usize) -> (r: Result<(LanaExpr, usize), LanaErr>)
    requires
        i <= tokens@.len(),
    ensures
        ({
            let m = toks_model(tokens@);
            match r {
                Ok(p) => i < p.1 <= tokens@.len() && spec_parse(m, i as int) == Ok::<
                    (SpecExpr, int),
                    SpecErr,
                >((p.0@, p.1 as int)),
                Err(er) => spec_parse(m, i as int) == Err::<(SpecExpr, int), SpecErr>(er@),
            }
        }),
    decreases tokens@.len() - i, 0int,
{
    if i >= tokens.len() {
        Err(LanaErr::Reason("Could not get token".to_owned()))
    } else {
        let token = &tokens[i];
        match &token.kind {
            TokenKind::LParen => match read_seq(tokens, i + 1, token) {
                Ok((elems, j)) => {
                    proof {
                        lemma_spec_exprs_of(elems, 0);
                    }
                    Ok((LanaExpr::List(elems), j))
                }
                Err(e) => Err(e),
            },
            TokenKind::RParen => Err(LanaErr::UnexpectedToken(token.duplicate())),
            _ => match parse_atom(token) {
                Ok(e) => Ok((e, i + 1)),
                Err(e) => Err(e),
            },
        }
    }
}

/// The elements of a list from index `i` on, up to the parenthesis that
/// closes `opening`; `Ok` carries the elements and the index just after the
/// closing parenthesis.
fn read_seq(tokens: &Vec<Token>, i: usize, opening: &Token) -> (r: Result<
    (Vec<LanaExpr>, usize),
    LanaErr,
>)
    requires
        i <= tokens@.len(),
    ensures
        ({
            let m = toks_model(tokens@);
            match r {
                Ok(p) => i < p.1 <= tokens@.len() && spec_read_seq(m, i as int, opening@) == Ok::<
                    (Seq<SpecExpr>, int),
                    SpecErr,
                >((spec_exprs_of(p.0, 0), p.1 as int)),
                Err(er) => spec_read_seq(m, i as int, opening@) == Err::<
                    (Seq<SpecExpr>, int),
                    SpecErr,
                >(er@),
            }
        }),
    decreases tokens@.len() - i, 1int,
{
    if i >= tokens.len() {
        return Err(LanaErr::UnterminatedExpr(')', opening.duplicate()));
    }
    let is_close = match &tokens[i].kind {
        TokenKind::RParen => true,
        _ => false,
    };
    if is_close {
        let out: Vec<LanaExpr> = Vec::new();
        proof {
            assert(spec_exprs_of(out, 0) =~= Seq::<SpecExpr>::empty());
        }
        return Ok((out, i + 1));
    }
    match parse_at(tokens, i) {
        Err(e) => Err(e),
        Ok((e, j)) => {
            proof {
                lemma_parse_advances(toks_model(tokens@), i as int);
            }
            match read_seq(tokens, j, opening) {
                Err(e2) => Err(e2),
                Ok((mut rest, k)) => {
                    proof {
                        lemma_spec_exprs_of(rest, 0);
                    }
                    rest.insert(0, e);
                    proof {
                        lemma_spec_exprs_of(rest, 0);
                        let m = toks_model(tokens@);
                        let se = spec_parse(m, i as int)->Ok_0.0;
                        let tail = spec_read_seq(m, j as int, opening@)->Ok_0.0;
                        assert(spec_exprs_of(rest, 0) =~= seq![se] + tail);
                    }
                    Ok((rest, k))
                }
            }
        }
    }
}

/// One expression read from the front of the token list; `Ok` carries the
/// expression and the index of the first unconsumed token.
pub fn parse(tokens: &Vec<Token>) -> (r: Result<(LanaExpr, usize), LanaErr>)
    ensures
        ({
            let m = toks_model(tokens@);
            match r {
                Ok(p) => p.1 <= tokens@.len() && spec_parse(m, 0) == Ok::<
                    (SpecExpr, int),
                    SpecErr,
                >((p.0@, p.1 as int)),
                Err(er) => spec_parse(m, 0) == Err::<(SpecExpr, int), SpecErr>(er@),
            }
        }),
{
    parse_at(tokens, 0)
}

/// Every expression of the token list, in order; the first error wins.
pub fn parse_all(tokens: &Vec<Token>) -> (r: Result<Vec<LanaExpr>, LanaErr>)
    ensures
        ({
            let m = toks_model(tokens@);
            match r {
                Ok(v) => spec_parse_all(m, 0) == Ok::<Seq<SpecExpr>, SpecErr>(spec_exprs_of(v, 0)),
                Err(er) => spec_parse_all(m, 0) == Err::<Seq<SpecExpr>, SpecErr>(er@),
            }
        }),
{
    let ghost m = toks_model(tokens@);
    let mut exprs: Vec<LanaExpr> = Vec::new();
    let mut i: usize = 0;
    while i < tokens.len()
        invariant
            i <= tokens@.len(),
            m == toks_model(tokens@),
            ({
                match spec_parse_all(m, i as int) {
                    Ok(rest) => spec_parse_all(m, 0) == Ok::<Seq<SpecExpr>, SpecErr>(
                        spec_exprs_of(exprs, 0) + rest,
                    ),
                    Err(e) => spec_parse_all(m, 0) == Err::<Seq<SpecExpr>, SpecErr>(e),
                }
            }),
        decreases tokens@.len() - i,
    {
        match parse_at(tokens, i) {
            Err(e) => {
                return Err(e);
            }
            Ok((e, j)) => {
                let ghost before = spec_exprs_of(exprs, 0);
                let ghost ev = e@;
                proof {
                    lemma_spec_exprs_of(exprs, 0);
                }
                exprs.push(e);
                proof {
                    lemma_spec_exprs_of(exprs, 0);
                    assert(spec_exprs_of(exprs, 0) =~= before.push(ev));
                    match spec_parse_all(m, j as int) {
                        Ok(rest) => {
                            assert(before + (seq![ev] + rest) =~= before.push(ev) + rest);
                        }
                        Err(_) => {}
                    }
                }
                i = j;
            }
        }
    }
    proof {
        assert(spec_exprs_of(exprs, 0) + Seq::<SpecExpr>::empty() =~= spec_exprs_of(exprs, 0));
    }
    Ok(exprs)
}

} // verus!
