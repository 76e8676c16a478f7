//! The parser: tokens to expression trees.
use vstd::prelude::*;

use crate::lexer::{Token, TokenV, tokens_view};

verus! {

/// An expression tree.
#[derive(PartialEq, Eq, Debug)]
pub enum Expr {
    Atom(String),
    List(Vec<Expr>),
}

/// The model of an expression tree.
pub enum ExprV {
    Atom(Seq<char>),
    List(Seq<ExprV>),
}

/// Why a token sequence is not an expression.
#[derive(PartialEq, Eq, Debug, Clone, Copy)]
pub enum ParseError {
    /// The tokens ran out where an expression was expected.
    UnexpectedEnd,
    /// A `)` stood where an expression was expected.
    UnexpectedClose,
    /// The tokens ran out inside a list.
    UnclosedList,
}

/// The model of an expression tree.
pub open spec fn expr_view(e: Expr) -> ExprV
    decreases e,
{
    match e {
        Expr::Atom(s) => ExprV::Atom(s@),
        Expr::List(items) => ExprV::List(
            Seq::new(
                items@.len(),
                |i: int|
                    if 0 <= i < items@.len() {
                        expr_view(items@[i])
                    } else {
                        ExprV::List(seq![])
                    },
            ),
        ),
    }
}

/// The models of a sequence of expression trees.
pub open spec fn exprs_view(items: Seq<Expr>) -> Seq<ExprV> {
    Seq::new(items.len(), |i: int| expr_view(items[i]))
}

pub proof fn lemma_list_view(items: Vec<Expr>)
    ensures
        expr_view(Expr::List(items)) == ExprV::List(exprs_view(items@)),
{
    let v = expr_view(Expr::List(items));
    if let ExprV::List(s) = v {
        assert(s =~= exprs_view(items@));
    }
}

impl View for Expr {
    type V = ExprV;

    open spec fn view(&self) -> ExprV {
        expr_view(*self)
    }
}

/// The text of the atom that a `'` stands for.
pub open spec fn quote_text() -> Seq<char> {
    seq!['\'']
}

/// The expression that starts at token `i`, and the index of the token after it.
///
/// `(` opens a list that runs to its `)`, `'e` stands for the list `(' e)`, and
/// a symbol is an atom.
pub open spec fn parse_spec(ts: Seq<TokenV>, i: nat) -> Result<(ExprV, nat), ParseError>
    decreases ts.len() - i, 0nat,
{
    if i >= ts.len() {
        Err(ParseError::UnexpectedEnd)
    } else {
        match ts[i as int] {
            TokenV::LeftParen => match parse_list_spec(ts, i + 1) {
                Ok((items, j)) => Ok((ExprV::List(items), j)),
                Err(e) => Err(e),
            },
            TokenV::RightParen => Err(ParseError::UnexpectedClose),
            TokenV::Quote => match parse_spec(ts, i + 1) {
                Ok((e, j)) => Ok((ExprV::List(seq![ExprV::Atom(quote_text()), e]), j)),
                Err(e) => Err(e),
            },
            TokenV::Symbol(s) => Ok((ExprV::Atom(s), i + 1)),
        }
    }
}

/// The items of a list whose first item starts at token `i`, and the index of
/// the token after the closing `)`.
pub open spec fn parse_list_spec(ts: Seq<TokenV>, i: nat) -> Result<(Seq<ExprV>, nat), ParseError>
    decreases ts.len() - i, 1nat,
{
    if i >= ts.len() {
        Err(ParseError::UnclosedList)
    } else if ts[i as int] is RightParen {
        Ok((seq![], i + 1))
    } else {
        match parse_spec(ts, i) {
            Ok((e, j)) => if i < j <= ts.len() {
                match parse_list_spec(ts, j) {
                    Ok((rest, k)) => Ok((seq![e] + rest, k)),
                    Err(err) => Err(err),
                }
            } else {
                Err(ParseError::UnexpectedEnd)
            },
            Err(err) => if err is UnexpectedEnd {
                Err(ParseError::UnclosedList)
            } else {
                Err(err)
            },
        }
    }
}

proof fn lemma_parse_advances(ts: Seq<TokenV>, i: nat)
    ensures
        parse_spec(ts, i) matches Ok((_, j)) ==> i < j <= ts.len(),
        parse_list_spec(ts, i) matches Ok((_, j)) ==> i < j <= ts.len(),
    decreases ts.len() - i,
{
    if i < ts.len() {
        lemma_parse_advances(ts, i + 1);
        if let Ok((_, j)) = parse_spec(ts, i) {
            if i < j && j < ts.len() {
                lemma_parse_advances(ts, j);
            }
        }
    }
}

fn quote_atom() -> (e: Expr)
    ensures
        e@ == ExprV::Atom(quote_text()),
{
    let s = "'";
    proof {
        reveal_strlit("'");
    }
    let t = s.to_owned();
    assert(t@ == quote_text());
    Expr::Atom(t)
}

fn parse_at(tokens: &Vec<Token>, i: usize) -> (r: Result<(Expr, usize), ParseError>)
    requires
        i <= tokens.len(),
    ensures
        match r {
            Ok((e, j)) => parse_spec(tokens_view(tokens@), i as nat) == Ok::<_, ParseError>(
                (e@, j as nat),
            ),
            Err(err) => parse_spec(tokens_view(tokens@), i as nat) == Err::<(ExprV, nat), _>(err),
        },
    decreases tokens.len() - i, 0nat,
{
    proof {
        lemma_parse_advances(tokens_view(tokens@), i as nat);
    }
    if i >= tokens.len() {
        return Err(ParseError::UnexpectedEnd);
    }
    match &tokens[i] {
        Token::LeftParen => {
            let (items, j) = parse_list_at(tokens, i + 1)?;
            let e = Expr::List(items);
            proof {
                lemma_list_view(items);
            }
            Ok((e, j))
        },
        Token::RightParen => Err(ParseError::UnexpectedClose),
        Token::Quote => {
            let (inner, j) = parse_at(tokens, i + 1)?;
            let mut items: Vec<Expr> = Vec::new();
            items.push(quote_atom());
            items.push(inner);
            proof {
                lemma_list_view(items);
                assert(exprs_view(items@) =~= seq![ExprV::Atom(quote_text()), inner@]);
            }
            let e = Expr::List(items);
            Ok((e, j))
        },
        Token::Symbol(s) => {
            let e = Expr::Atom(s.clone());
            Ok((e, i + 1))
        },
    }
}

fn parse_list_at(tokens: &Vec<Token>, i: usize) -> (r: Result<(Vec<Expr>, usize), ParseError>)
    requires
        i <= tokens.len(),
    ensures
        match r {
            Ok((items, j)) => parse_list_spec(tokens_view(tokens@), i as nat) == Ok::<
                _,
                ParseError,
            >((exprs_view(items@), j as nat)),
            Err(err) => parse_list_spec(tokens_view(tokens@), i as nat) == Err::<
                (Seq<ExprV>, nat),
                _,
            >(err),
        },
    decreases tokens.len() - i, 1nat,
{
    proof {
        lemma_parse_advances(tokens_view(tokens@), i as nat);
    }
    if i >= tokens.len() {
        return Err(ParseError::UnclosedList);
    }
    if let Token::RightParen = &tokens[i] {
        let items: Vec<Expr> = Vec::new();
        proof {
            assert(exprs_view(items@) =~= seq![]);
        }
        return Ok((items, i + 1));
    }
    let (e, j) = match parse_at(tokens, i) {
        Ok(p) => p,
        Err(err) => {
            if let ParseError::UnexpectedEnd = err {
                return Err(ParseError::UnclosedList);
            }
            return Err(err);
        },
    };
    let (mut rest, k) = parse_list_at(tokens, j)?;
    let ghost rest_view = exprs_view(rest@);
    let ghost ev = e@;
    rest.insert(0, e);
    proof {
        assert(exprs_view(rest@) =~= seq![ev] + rest_view);
    }
    Ok((rest, k))
}

/// Parses the expression at the start of `tokens`; returns it with the number
/// of tokens it took.
pub fn parse_expr(tokens: &Vec<Token>) -> (r: Result<(Expr, usize), ParseError>)
    ensures
        match r {
            Ok((e, j)) => parse_spec(tokens_view(tokens@), 0) == Ok::<_, ParseError>(
                (e@, j as nat),
            ),
            Err(err) => parse_spec(tokens_view(tokens@), 0) == Err::<(ExprV, nat), _>(err),
        },
{
    parse_at(tokens, 0)
}

} // verus!
