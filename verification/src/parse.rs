//! The syntactic grammar of one line, and a verified recursive-descent
//! parser for it.
//!
//! A line is an optional assignment target (`identifier =`) followed by an
//! expression; an expression is a value followed by any number of operator
//! and value pairs, and becomes a flat, alternating list of slots; a value
//! is a literal, an identifier, a parenthesized expression, or a negated
//! value.

use vstd::prelude::*;
use crate::ast::Node;
use crate::ast::NodeV;
use crate::ast::Operator;
use crate::ast::node_view;
use crate::ast::slots_view;
use crate::bigint::big_clone;
use crate::error::Expected;
use crate::error::FailView;
use crate::error::ParseFailure;
use crate::lex::TokKV;
use crate::lex::TokKind;
use crate::lex::TokV;
use crate::lex::Token;
use crate::lex::spec_lex;
use crate::lex::toks_view;

verus! {

/// The operator denoted by a token, if any.
pub open spec fn op_of(k: TokKV) -> Option<Operator> {
    match k {
        TokKV::Plus => Some(Operator::Addition),
        TokKV::Minus => Some(Operator::Subtraction),
        TokKV::Star => Some(Operator::Multiplication),
        TokKV::Slash => Some(Operator::Division),
        TokKV::Caret => Some(Operator::Exponent),
        _ => None,
    }
}

/// The name carried by an identifier token.
pub open spec fn ident_name(k: TokKV) -> Seq<char> {
    match k {
        TokKV::Ident(x) => x,
        _ => Seq::empty(),
    }
}

/// Parsing one value at token `i`: a literal, an identifier, a
/// parenthesized expression, or a negated value. Returns the node and the
/// index of the first token after it; `eol` is the character index used
/// for failures at the end of the line.
pub open spec fn sp_value(toks: Seq<TokV>, i: int, eol: int) -> Result<(NodeV, int), FailView>
    decreases toks.len() - i, 0int,
{
    if i < 0 || i >= toks.len() {
        Err(FailView { at: eol, expected: Expected::Value })
    } else {
        match toks[i].kind {
            TokKV::Num(v) => Ok((NodeV::Literal(v), i + 1)),
            TokKV::Ident(x) => Ok((NodeV::Variable(x), i + 1)),
            TokKV::Minus => match sp_value(toks, i + 1, eol) {
                Ok((n, j)) => Ok((NodeV::Negation(Box::new(n)), j)),
                Err(e) => Err(e),
            },
            TokKV::LParen => match sp_expr(toks, i + 1, eol) {
                Ok((slots, j)) => if 0 <= j < toks.len() && toks[j].kind is RParen {
                    Ok((NodeV::Parenthetical(Box::new(NodeV::Expression(slots))), j + 1))
                } else {
                    Err(
                        FailView {
                            at: if 0 <= j < toks.len() {
                                toks[j].at
                            } else {
                                eol
                            },
                            expected: Expected::CloseParen,
                        },
                    )
                },
                Err(e) => Err(e),
            },
            _ => Err(FailView { at: toks[i].at, expected: Expected::Value }),
        }
    }
}

/// Parsing an expression at token `i`: a value, then operator and value
/// pairs for as long as an operator follows.
pub open spec fn sp_expr(toks: Seq<TokV>, i: int, eol: int) -> Result<
    (Seq<Option<NodeV>>, int),
    FailView,
>
    decreases toks.len() - i, 1int,
{
    match sp_value(toks, i, eol) {
        Err(e) => Err(e),
        Ok((n, j)) => if i < j && j <= toks.len() {
            sp_ops(toks, j, eol, seq![Some(n)])
        } else {
            Err(FailView { at: eol, expected: Expected::Value })
        },
    }
}

/// The operator-and-value tail of an expression, with the slots parsed so
/// far in `acc`.
pub open spec fn sp_ops(toks: Seq<TokV>, i: int, eol: int, acc: Seq<Option<NodeV>>) -> Result<
    (Seq<Option<NodeV>>, int),
    FailView,
>
    decreases toks.len() - i, 2int,
{
    if i < 0 || i >= toks.len() {
        Ok((acc, i))
    } else {
        match op_of(toks[i].kind) {
            Some(op) => match sp_value(toks, i + 1, eol) {
                Err(e) => Err(e),
                Ok((n, j)) => if i + 1 < j && j <= toks.len() {
                    sp_ops(toks, j, eol, acc + seq![Some(NodeV::Operator(op)), Some(n)])
                } else {
                    Err(FailView { at: eol, expected: Expected::Value })
                },
            },
            None => Ok((acc, i)),
        }
    }
}

/// Parsing one full line: an optional `identifier =` prefix, then an
/// expression that must reach the end of the tokens.
pub open spec fn sp_line(toks: Seq<TokV>, eol: int) -> Result<
    (Option<Seq<char>>, Seq<Option<NodeV>>),
    FailView,
> {
    let assign = toks.len() >= 2 && toks[0].kind is Ident && toks[1].kind is Eq;
    let start: int = if assign {
        2
    } else {
        0
    };
    match sp_expr(toks, start, eol) {
        Err(e) => Err(e),
        Ok((slots, j)) => if j == toks.len() {
            Ok(
                (
                    if assign {
                        Some(ident_name(toks[0].kind))
                    } else {
                        None
                    },
                    slots,
                ),
            )
        } else {
            Err(
                FailView {
                    at: if 0 <= j < toks.len() {
                        toks[j].at
                    } else {
                        eol
                    },
                    expected: Expected::OperatorOrEnd,
                },
            )
        },
    }
}

/// Parsing one line of text: tokenize, then parse the tokens.
pub open spec fn spec_parse_line(s: Seq<char>) -> Result<
    (Option<Seq<char>>, Seq<Option<NodeV>>),
    FailView,
> {
    match spec_lex(s, 0) {
        Err(at) => Err(FailView { at, expected: Expected::Token }),
        Ok(toks) => sp_line(toks, s.len() as int),
    }
}

/// Parses one value starting at token `i`.
pub(crate) fn p_value(toks: &Vec<Token>, i: usize, eol: usize) -> (r: Result<
    (Node, usize),
    ParseFailure,
>)
    ensures
        match sp_value(toks_view(toks@), i as int, eol as int) {
            Ok(p) => r matches Ok(q) && node_view(q.0) == p.0 && q.1 as int == p.1 && i < q.1
                <= toks.len(),
            Err(f) => r matches Err(g) && g@ == f,
        },
    decreases toks@.len() - i, 0int,
{
    let ghost tv = toks_view(toks@);
    if i >= toks.len() {
        return Err(ParseFailure { at: eol, expected: Expected::Value });
    }
    match &toks[i].kind {
        TokKind::Num(b) => {
            let v = big_clone(b);
            Ok((Node::Literal(v), i + 1))
        },
        TokKind::Ident(x) => {
            let name = x.clone();
            Ok((Node::Variable(name), i + 1))
        },
        TokKind::Minus => {
            match p_value(toks, i + 1, eol) {
                Ok((n, j)) => Ok((Node::Negation(Box::new(n)), j)),
                Err(e) => Err(e),
            }
        },
        TokKind::LParen => {
            match p_expr(toks, i + 1, eol) {
                Ok((slots, j)) => {
                    if j < toks.len() {
                        proof {
                            assert(tv[j as int] == toks@[j as int]@);
                        }
                        let close = matches!(&toks[j].kind, TokKind::RParen);
                        if close {
                            let ghost slotsg = slots@;
                            let nd = Node::Parenthetical(Box::new(Node::Expression(slots)));
                            proof {
                                reveal_with_fuel(node_view, 3);
                                assert(node_view(nd) == NodeV::Parenthetical(
                                    Box::new(NodeV::Expression(slots_view(slotsg))),
                                ));
                            }
                            return Ok((nd, j + 1));
                        }
                        Err(ParseFailure { at: toks[j].at, expected: Expected::CloseParen })
                    } else {
                        Err(ParseFailure { at: eol, expected: Expected::CloseParen })
                    }
                },
                Err(e) => Err(e),
            }
        },
        TokKind::Plus => Err(ParseFailure { at: toks[i].at, expected: Expected::Value }),
        TokKind::Star => Err(ParseFailure { at: toks[i].at, expected: Expected::Value }),
        TokKind::Slash => Err(ParseFailure { at: toks[i].at, expected: Expected::Value }),
        TokKind::Caret => Err(ParseFailure { at: toks[i].at, expected: Expected::Value }),
        TokKind::RParen => Err(ParseFailure { at: toks[i].at, expected: Expected::Value }),
        TokKind::Eq => Err(ParseFailure { at: toks[i].at, expected: Expected::Value }),
    }
}

/// Parses an expression starting at token `i` into its slots.
pub(crate) fn p_expr(toks: &Vec<Token>, i: usize, eol: usize) -> (r: Result<
    (Vec<Option<Node>>, usize),
    ParseFailure,
>)
    ensures
        match sp_expr(toks_view(toks@), i as int, eol as int) {
            Ok(p) => r matches Ok(q) && slots_view(q.0@) == p.0 && q.1 as int == p.1 && i < q.1
                <= toks.len(),
            Err(f) => r matches Err(g) && g@ == f,
        },
    decreases toks@.len() - i, 1int,
{
    let ghost tv = toks_view(toks@);
    let (n0, j0) = match p_value(toks, i, eol) {
        Ok(p) => p,
        Err(e) => {
            return Err(e);
        },
    };
    let mut slots: Vec<Option<Node>> = Vec::new();
    slots.push(Some(n0));
    let ghost base = sp_ops(tv, j0 as int, eol as int, slots_view(slots@));
    proof {
        assert(slots_view(slots@) =~= seq![Some(node_view(slots@[0].unwrap()))]);
        assert(sp_expr(tv, i as int, eol as int) == base);
    }
    let mut cur: usize = j0;
    loop
        invariant
            i < cur <= toks.len(),
            tv == toks_view(toks@),
            sp_ops(tv, cur as int, eol as int, slots_view(slots@)) == base,
            sp_expr(tv, i as int, eol as int) == base,
        ensures
            i < cur <= toks.len(),
            sp_expr(tv, i as int, eol as int) == base,
            base matches Ok(p) && p.0 == slots_view(slots@) && p.1 == cur as int,
        decreases toks@.len() - cur,
    {
        if cur >= toks.len() {
            break ;
        }
        let op = match &toks[cur].kind {
            TokKind::Plus => Some(Operator::Addition),
            TokKind::Minus => Some(Operator::Subtraction),
            TokKind::Star => Some(Operator::Multiplication),
            TokKind::Slash => Some(Operator::Division),
            TokKind::Caret => Some(Operator::Exponent),
            _ => None,
        };
        proof {
            assert(op matches Some(o) ==> op_of(tv[cur as int].kind) == Some(o));
            assert(op is None ==> op_of(tv[cur as int].kind) is None);
        }
        match op {
            None => {
                break ;
            },
            Some(o) => {
                match p_value(toks, cur + 1, eol) {
                    Err(e) => {
                        return Err(e);
                    },
                    Ok((n, j)) => {
                        let ghost before = slots_view(slots@);
                        slots.push(Some(Node::Operator(o)));
                        slots.push(Some(n));
                        proof {
                            assert(slots_view(slots@) =~= before + seq![
                                Some(NodeV::Operator(o)),
                                Some(node_view(n)),
                            ]);
                        }
                        cur = j;
                    },
                }
            },
        }
    }
    Ok((slots, cur))
}

/// Parses one full line of tokens into its root node: a `Main` holding
/// the optional assignment target as an `Lhs` node and the expression.
pub(crate) fn p_line(toks: &Vec<Token>, eol: usize) -> (r: Result<Node, ParseFailure>)
    ensures
        match sp_line(toks_view(toks@), eol as int) {
            Ok(p) => r matches Ok(nd) && (nd matches Node::Main(lhs, body) && (match (
                lhs,
                p.0,
            ) {
                (Some(bx), Some(tv)) => *bx matches Node::Lhs(x) && x@ == tv,
                (None, None) => true,
                _ => false,
            }) && node_view(*body) == NodeV::Expression(p.1)),
            Err(f) => r matches Err(g) && g@ == f,
        },
{
    let ghost tv = toks_view(toks@);
    let mut target: Option<String> = None;
    let mut start: usize = 0;
    if toks.len() >= 2 {
        let is_assign = match (&toks[0].kind, &toks[1].kind) {
            (TokKind::Ident(_), TokKind::Eq) => true,
            _ => false,
        };
        if is_assign {
            match &toks[0].kind {
                TokKind::Ident(x) => {
                    target = Some(x.clone());
                },
                _ => {},
            }
            start = 2;
        }
    }
    match p_expr(toks, start, eol) {
        Err(e) => Err(e),
        Ok((slots, j)) => {
            if j == toks.len() {
                let ghost slotsg = slots@;
                let lhs: Option<Box<Node>> = match target {
                    Some(s) => Some(Box::new(Node::Lhs(s))),
                    None => None,
                };
                let body = Box::new(Node::Expression(slots));
                proof {
                    assert(node_view(*body) == NodeV::Expression(slots_view(slotsg)));
                }
                Ok(Node::Main(lhs, body))
            } else {
                Err(ParseFailure { at: toks[j].at, expected: Expected::OperatorOrEnd })
            }
        },
    }
}

} // verus!
