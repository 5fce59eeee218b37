//! The grammar of Side, as functions from a token sequence and a position to
//! the tree read there and the position after it. [`crate::parser`] is proved
//! to compute exactly these.

use vstd::prelude::*;
use crate::token::{Tok, same_kind, unit_debug};
use crate::value::VVal;
use crate::ast::{BinOp, UnOp, SExpr, SStmt, SField, SDecl, SItem};
use crate::lexer::{Lexed, lex_at};

verus! {

/// A parse failure, mathematically.
pub enum SErr {
    /// `ParseError::UnexpectedToken` (at the end of input the token is `Error`).
    Unexpected(Tok),
    /// `ParseError::Expected` with the expected text and the token found.
    Expected(Seq<char>, Tok),
    /// `ParseError::InvalidLValue`.
    InvalidLValue,
    /// The input ends inside a `form`: no token is there to report, and
    /// parsing cannot go on.
    Crash,
    /// A position went backwards; never happens (see the parser's proofs).
    Stuck,
}

pub open spec fn is_kind(ts: Seq<Tok>, p: int, k: Tok) -> bool {
    0 <= p < ts.len() && same_kind(ts[p], k)
}

/// `expect`: the token at `p` must be of kind `k`.
pub open spec fn expect(ts: Seq<Tok>, p: int, k: Tok) -> Result<int, SErr> {
    if p < 0 || p >= ts.len() {
        Err(SErr::Unexpected(Tok::Error))
    } else if same_kind(ts[p], k) {
        Ok(p + 1)
    } else {
        Err(SErr::Expected(unit_debug(k), ts[p]))
    }
}

/// An identifier at `p`.
pub open spec fn ident(ts: Seq<Tok>, p: int) -> Result<(Seq<char>, int), SErr> {
    if p < 0 || p >= ts.len() {
        Err(SErr::Unexpected(Tok::Error))
    } else {
        match ts[p] {
            Tok::Identifier(s) => Ok((s, p + 1)),
            t => Err(SErr::Expected("identifier"@, t)),
        }
    }
}

pub open spec fn within(p: int, q: int, len: int) -> bool {
    p <= q <= len
}

pub open spec fn bin(l: SExpr, op: BinOp, r: SExpr) -> SExpr {
    SExpr::Binary(Box::new(l), op, Box::new(r))
}

pub open spec fn comparison_op(ts: Seq<Tok>, p: int) -> Option<BinOp> {
    if p < 0 || p >= ts.len() {
        None
    } else {
        match ts[p] {
            Tok::Equal => Some(BinOp::Eq),
            Tok::NotEqual => Some(BinOp::Ne),
            Tok::Less => Some(BinOp::Lt),
            Tok::LessEqual => Some(BinOp::Le),
            Tok::Greater => Some(BinOp::Gt),
            Tok::GreaterEqual => Some(BinOp::Ge),
            _ => None,
        }
    }
}

pub open spec fn term_op(ts: Seq<Tok>, p: int) -> Option<BinOp> {
    if p < 0 || p >= ts.len() {
        None
    } else {
        match ts[p] {
            Tok::Plus => Some(BinOp::Add),
            Tok::Minus => Some(BinOp::Sub),
            _ => None,
        }
    }
}

pub open spec fn factor_op(ts: Seq<Tok>, p: int) -> Option<BinOp> {
    if p < 0 || p >= ts.len() {
        None
    } else {
        match ts[p] {
            Tok::Star => Some(BinOp::Mul),
            Tok::Slash => Some(BinOp::Div),
            Tok::Percent => Some(BinOp::Rem),
            _ => None,
        }
    }
}

/// The operator of a binary level: 0 `or`, 1 `and`, 2 comparisons, 3 `+ -`, 4 `* / %`.
pub open spec fn level_op(ts: Seq<Tok>, p: int, level: nat) -> Option<BinOp> {
    if level == 0 {
        if is_kind(ts, p, Tok::Or) { Some(BinOp::Or) } else { None }
    } else if level == 1 {
        if is_kind(ts, p, Tok::And) { Some(BinOp::And) } else { None }
    } else if level == 2 {
        comparison_op(ts, p)
    } else if level == 3 {
        term_op(ts, p)
    } else {
        factor_op(ts, p)
    }
}

/// An expression (`parse_expression`).
pub open spec fn expr(ts: Seq<Tok>, p: int) -> Result<(SExpr, int), SErr>
    decreases ts.len() - p, 30nat, 0nat,
{
    binary(ts, p, 0)
}

/// One binary level: an operand of the next level, then left-associated
/// operators of this level (`parse_or` ... `parse_factor`).
pub open spec fn binary(ts: Seq<Tok>, p: int, level: nat) -> Result<(SExpr, int), SErr>
    decreases ts.len() - p, 29nat, 10 - level,
{
    if level >= 5 {
        unary(ts, p)
    } else {
        match binary(ts, p, level + 1) {
            Ok((l, q)) => if within(p, q, ts.len() as int) {
                binary_rest(ts, l, q, level)
            } else {
                Err(SErr::Stuck)
            },
            Err(e) => Err(e),
        }
    }
}

/// Operators of one level after a left operand.
pub open spec fn binary_rest(ts: Seq<Tok>, l: SExpr, p: int, level: nat) -> Result<
    (SExpr, int),
    SErr,
>
    decreases ts.len() - p, 29nat, 9 - level,
{
    if level >= 5 {
        Ok((l, p))
    } else {
        match level_op(ts, p, level) {
            Some(op) => match binary(ts, p + 1, level + 1) {
                Ok((r, q)) => if within(p + 1, q, ts.len() as int) {
                    binary_rest(ts, bin(l, op, r), q, level)
                } else {
                    Err(SErr::Stuck)
                },
                Err(e) => Err(e),
            },
            None => Ok((l, p)),
        }
    }
}

/// `not`* followed by a primary expression.
pub open spec fn unary(ts: Seq<Tok>, p: int) -> Result<(SExpr, int), SErr>
    decreases ts.len() - p, 19nat, 0nat,
{
    if is_kind(ts, p, Tok::Not) {
        match unary(ts, p + 1) {
            Ok((e, q)) => Ok((SExpr::Unary(UnOp::Not, Box::new(e)), q)),
            Err(e) => Err(e),
        }
    } else {
        primary(ts, p)
    }
}

/// Comma-separated expressions up to (not including) `close`.
pub open spec fn elements(ts: Seq<Tok>, acc: Seq<SExpr>, p: int, close: Tok) -> Result<
    (Seq<SExpr>, int),
    SErr,
>
    decreases ts.len() - p, 31nat, 0nat,
{
    match expr(ts, p) {
        Ok((e, q)) => if !within(p, q, ts.len() as int) {
            Err(SErr::Stuck)
        } else if is_kind(ts, q, close) {
            Ok((acc.push(e), q))
        } else {
            match expect(ts, q, Tok::Comma) {
                Ok(q2) => elements(ts, acc.push(e), q2, close),
                Err(e) => Err(e),
            }
        },
        Err(e) => Err(e),
    }
}

/// A literal, list, name, parenthesised expression, `new` or `entry`, with
/// its suffixes.
pub open spec fn primary(ts: Seq<Tok>, p: int) -> Result<(SExpr, int), SErr>
    decreases ts.len() - p, 18nat, 0nat,
{
    if p < 0 || p >= ts.len() {
        Err(SErr::Unexpected(Tok::Error))
    } else {
        match ts[p] {
            Tok::Whole(n) => Ok((SExpr::Literal(VVal::Whole(n)), p + 1)),
            Tok::Fraction(b) => Ok((SExpr::Literal(VVal::Fraction(b)), p + 1)),
            Tok::Str(s) => Ok((SExpr::Literal(VVal::Str(s)), p + 1)),
            Tok::True => Ok((SExpr::Literal(VVal::Bool(true)), p + 1)),
            Tok::False => Ok((SExpr::Literal(VVal::Bool(false)), p + 1)),
            Tok::Nil => Ok((SExpr::Literal(VVal::Nil), p + 1)),
            Tok::LBracket => {
                let inner = if is_kind(ts, p + 1, Tok::RBracket) {
                    Ok((Seq::empty(), p + 1))
                } else {
                    elements(ts, Seq::empty(), p + 1, Tok::RBracket)
                };
                match inner {
                    Ok((es, q)) => match expect(ts, q, Tok::RBracket) {
                        Ok(q2) => Ok((SExpr::List(es), q2)),
                        Err(e) => Err(e),
                    },
                    Err(e) => Err(e),
                }
            },
            Tok::Identifier(n) => suffix(ts, SExpr::Variable(n), p + 1),
            Tok::LParen => match expr(ts, p + 1) {
                Ok((e, q)) => if within(p + 1, q, ts.len() as int) {
                    match expect(ts, q, Tok::RParen) {
                        Ok(q2) => suffix(ts, e, q2),
                        Err(e) => Err(e),
                    }
                } else {
                    Err(SErr::Stuck)
                },
                Err(e) => Err(e),
            },
            Tok::New => match ident(ts, p + 1) {
                Ok((n, q)) => suffix(ts, SExpr::New(n), q),
                Err(e) => Err(e),
            },
            Tok::Entry => if p + 1 < ts.len() && ts[p + 1] is Str {
                suffix(
                    ts,
                    SExpr::Entry(Some(Box::new(SExpr::Literal(VVal::Str(ts[p + 1]->Str_0))))),
                    p + 2,
                )
            } else {
                suffix(ts, SExpr::Entry(None), p + 1)
            },
            t => Err(SErr::Unexpected(t)),
        }
    }
}

/// Calls, field accesses and indexing after an expression (`parse_suffix`).
pub open spec fn suffix(ts: Seq<Tok>, e: SExpr, p: int) -> Result<(SExpr, int), SErr>
    decreases ts.len() - p, 17nat, 0nat,
{
    if p < 0 || p > ts.len() {
        Err(SErr::Stuck)
    } else if is_kind(ts, p, Tok::LParen) {
        let args = if is_kind(ts, p + 1, Tok::RParen) {
            Ok((Seq::empty(), p + 1))
        } else {
            elements(ts, Seq::empty(), p + 1, Tok::RParen)
        };
        match args {
            Ok((a, q)) => if !within(p + 1, q, ts.len() as int) {
                Err(SErr::Stuck)
            } else {
                match expect(ts, q, Tok::RParen) {
                    Ok(q2) => match e {
                        SExpr::Variable(n) => suffix(ts, SExpr::Call(n, a), q2),
                        _ => Err(SErr::Expected("function name"@, Tok::LParen)),
                    },
                    Err(err) => Err(err),
                }
            },
            Err(err) => Err(err),
        }
    } else if is_kind(ts, p, Tok::Dot) {
        match ident(ts, p + 1) {
            Ok((f, q)) => suffix(ts, SExpr::Field(Box::new(e), f), q),
            Err(err) => Err(err),
        }
    } else if is_kind(ts, p, Tok::LBracket) {
        match expr(ts, p + 1) {
            Ok((i, q)) => if !within(p + 1, q, ts.len() as int) {
                Err(SErr::Stuck)
            } else {
                match expect(ts, q, Tok::RBracket) {
                    Ok(q2) => suffix(ts, SExpr::Index(Box::new(e), Box::new(i)), q2),
                    Err(err) => Err(err),
                }
            },
            Err(err) => Err(err),
        }
    } else {
        Ok((e, p))
    }
}

// ------------------------------------------------------------------ statements

/// Whether the token at `p` ends a block: `end`, and with `else_ends` also `else`.
pub open spec fn ends_block(ts: Seq<Tok>, p: int, else_ends: bool) -> bool {
    is_kind(ts, p, Tok::End) || (else_ends && is_kind(ts, p, Tok::Else))
}

/// Statements up to a terminator or the end of input (`parse_block_until`).
pub open spec fn block_until(ts: Seq<Tok>, acc: Seq<SStmt>, p: int, else_ends: bool) -> Result<
    (Seq<SStmt>, int),
    SErr,
>
    decreases ts.len() - p, 41nat, 0nat,
{
    if p < 0 || p >= ts.len() || ends_block(ts, p, else_ends) {
        Ok((acc, p))
    } else {
        match stmt(ts, p) {
            Ok((s, q)) => if within(p + 1, q, ts.len() as int) {
                block_until(ts, acc.push(s), q, else_ends)
            } else {
                Err(SErr::Stuck)
            },
            Err(e) => Err(e),
        }
    }
}

/// A statement (`parse_stmt`).
pub open spec fn stmt(ts: Seq<Tok>, p: int) -> Result<(SStmt, int), SErr>
    decreases ts.len() - p, 40nat, 0nat,
{
    if is_kind(ts, p, Tok::SetKeyword) {
        set_stmt(ts, p, true)
    } else if is_kind(ts, p, Tok::Fix) {
        set_stmt(ts, p, false)
    } else if is_kind(ts, p, Tok::Log) {
        match expr(ts, p + 1) {
            Ok((e, q)) => Ok((SStmt::Log(e), q)),
            Err(e) => Err(e),
        }
    } else if is_kind(ts, p, Tok::Check) {
        if_stmt(ts, p)
    } else if is_kind(ts, p, Tok::Loop) {
        match expr(ts, p + 1) {
            Ok((c, q)) => if !within(p + 1, q, ts.len() as int) {
                Err(SErr::Stuck)
            } else {
                match expect(ts, q, Tok::Start) {
                    Ok(q2) => match block_until(ts, Seq::empty(), q2, false) {
                        Ok((b, q3)) => if !within(q2, q3, ts.len() as int) {
                            Err(SErr::Stuck)
                        } else {
                            match expect(ts, q3, Tok::End) {
                                Ok(q4) => Ok((SStmt::Loop(c, b), q4)),
                                Err(e) => Err(e),
                            }
                        },
                        Err(e) => Err(e),
                    },
                    Err(e) => Err(e),
                }
            },
            Err(e) => Err(e),
        }
    } else if is_kind(ts, p, Tok::Stop) {
        Ok((SStmt::Break, p + 1))
    } else if is_kind(ts, p, Tok::Wait) {
        match expr(ts, p + 1) {
            Ok((e, q)) => Ok((SStmt::Wait(e), q)),
            Err(e) => Err(e),
        }
    } else if is_kind(ts, p, Tok::Give) {
        if !is_kind(ts, p + 1, Tok::End) && !is_kind(ts, p + 1, Tok::Else) && !is_kind(
            ts,
            p + 1,
            Tok::Start,
        ) {
            match expr(ts, p + 1) {
                Ok((e, q)) => Ok((SStmt::Return(Some(e)), q)),
                Err(e) => Err(e),
            }
        } else {
            Ok((SStmt::Return(None), p + 1))
        }
    } else if is_kind(ts, p, Tok::Trap) {
        trap_stmt(ts, p)
    } else {
        assign_or_expr(ts, p)
    }
}

/// `set`/`fix` name `=` expression.
pub open spec fn set_stmt(ts: Seq<Tok>, p: int, mutable: bool) -> Result<(SStmt, int), SErr>
    decreases ts.len() - p, 39nat, 0nat,
{
    match ident(ts, p + 1) {
        Ok((n, q)) => match expect(ts, q, Tok::Assign) {
            Ok(q2) => match expr(ts, q2) {
                Ok((v, q3)) => Ok((SStmt::SetVar(n, v, mutable), q3)),
                Err(e) => Err(e),
            },
            Err(e) => Err(e),
        },
        Err(e) => Err(e),
    }
}

/// `check` condition `start` ... [`else start` ...] `end`.
pub open spec fn if_stmt(ts: Seq<Tok>, p: int) -> Result<(SStmt, int), SErr>
    decreases ts.len() - p, 39nat, 0nat,
{
    match expr(ts, p + 1) {
        Ok((c, q)) => if !within(p + 1, q, ts.len() as int) {
            Err(SErr::Stuck)
        } else {
            match expect(ts, q, Tok::Start) {
                Ok(q2) => match block_until(ts, Seq::empty(), q2, true) {
                    Ok((tb, q3)) => if !within(q2, q3, ts.len() as int) {
                        Err(SErr::Stuck)
                    } else if is_kind(ts, q3, Tok::Else) {
                        match expect(ts, q3 + 1, Tok::Start) {
                            Ok(q4) => match block_until(ts, Seq::empty(), q4, false) {
                                Ok((eb, q5)) => match expect(ts, q5, Tok::End) {
                                    Ok(q6) => Ok((SStmt::If(c, tb, Some(eb)), q6)),
                                    Err(e) => Err(e),
                                },
                                Err(e) => Err(e),
                            },
                            Err(e) => Err(e),
                        }
                    } else {
                        match expect(ts, q3, Tok::End) {
                            Ok(q4) => Ok((SStmt::If(c, tb, None), q4)),
                            Err(e) => Err(e),
                        }
                    },
                    Err(e) => Err(e),
                },
                Err(e) => Err(e),
            }
        },
        Err(e) => Err(e),
    }
}

/// `trap start` ... `else start` ... `end`.
pub open spec fn trap_stmt(ts: Seq<Tok>, p: int) -> Result<(SStmt, int), SErr>
    decreases ts.len() - p, 39nat, 0nat,
{
    match expect(ts, p + 1, Tok::Start) {
        Ok(q) => match block_until(ts, Seq::empty(), q, true) {
            Ok((tb, q2)) => if !within(q, q2, ts.len() as int) {
                Err(SErr::Stuck)
            } else {
                match expect(ts, q2, Tok::Else) {
                    Ok(q3) => match expect(ts, q3, Tok::Start) {
                        Ok(q4) => match block_until(ts, Seq::empty(), q4, false) {
                            Ok((cb, q5)) => match expect(ts, q5, Tok::End) {
                                Ok(q6) => Ok((SStmt::Trap(tb, cb), q6)),
                                Err(e) => Err(e),
                            },
                            Err(e) => Err(e),
                        },
                        Err(e) => Err(e),
                    },
                    Err(e) => Err(e),
                }
            },
            Err(e) => Err(e),
        },
        Err(e) => Err(e),
    }
}

pub open spec fn is_place(e: SExpr) -> bool {
    e is Variable || e is Field || e is Index
}

/// An expression statement, or an assignment to a variable, field or element.
pub open spec fn assign_or_expr(ts: Seq<Tok>, p: int) -> Result<(SStmt, int), SErr>
    decreases ts.len() - p, 39nat, 0nat,
{
    match expr(ts, p) {
        Ok((e, q)) => if !within(p, q, ts.len() as int) {
            Err(SErr::Stuck)
        } else if is_kind(ts, q, Tok::Assign) {
            match expr(ts, q + 1) {
                Ok((v, q2)) => if is_place(e) {
                    Ok((SStmt::Assign(e, v), q2))
                } else {
                    Err(SErr::InvalidLValue)
                },
                Err(err) => Err(err),
            }
        } else {
            Ok((SStmt::ExprStmt(e), q))
        },
        Err(err) => Err(err),
    }
}

// ------------------------------------------------------------------ declarations

/// Parameter names up to `)`.
pub open spec fn params(ts: Seq<Tok>, acc: Seq<Seq<char>>, p: int) -> Result<
    (Seq<Seq<char>>, int),
    SErr,
>
    decreases ts.len() - p,
{
    match ident(ts, p) {
        Ok((n, q)) => if is_kind(ts, q, Tok::RParen) {
            Ok((acc.push(n), q))
        } else {
            match expect(ts, q, Tok::Comma) {
                Ok(q2) => params(ts, acc.push(n), q2),
                Err(e) => Err(e),
            }
        },
        Err(e) => Err(e),
    }
}

/// `proc` name `(` params `) start` body `end`.
pub open spec fn proc_decl(ts: Seq<Tok>, p: int) -> Result<(SDecl, int), SErr> {
    match ident(ts, p + 1) {
        Ok((n, q)) => match expect(ts, q, Tok::LParen) {
            Ok(q2) => {
                let ps = if !is_kind(ts, q2, Tok::RParen) {
                    params(ts, Seq::empty(), q2)
                } else {
                    Ok((Seq::empty(), q2))
                };
                match ps {
                    Ok((pars, q3)) => match expect(ts, q3, Tok::RParen) {
                        Ok(q4) => match expect(ts, q4, Tok::Start) {
                            Ok(q5) => match block_until(ts, Seq::empty(), q5, false) {
                                Ok((body, q6)) => match expect(ts, q6, Tok::End) {
                                    Ok(q7) => Ok((SDecl::Proc(n, pars, body), q7)),
                                    Err(e) => Err(e),
                                },
                                Err(e) => Err(e),
                            },
                            Err(e) => Err(e),
                        },
                        Err(e) => Err(e),
                    },
                    Err(e) => Err(e),
                }
            },
            Err(e) => Err(e),
        },
        Err(e) => Err(e),
    }
}

/// A field of a form: `set`/`fix` name [`=` expression].
pub open spec fn field_decl(ts: Seq<Tok>, p: int) -> Result<(SField, int), SErr> {
    if p < 0 || p >= ts.len() {
        Err(SErr::Crash)
    } else if !(ts[p] is SetKeyword || ts[p] is Fix) {
        Err(SErr::Expected("set or fix"@, ts[p]))
    } else {
        let mutable = ts[p] is SetKeyword;
        match ident(ts, p + 1) {
            Ok((n, q)) => if is_kind(ts, q, Tok::Assign) {
                match expr(ts, q + 1) {
                    Ok((e, q2)) => Ok((SField { name: n, mutable, initial: Some(e) }, q2)),
                    Err(e) => Err(e),
                }
            } else {
                Ok((SField { name: n, mutable, initial: None }, q))
            },
            Err(e) => Err(e),
        }
    }
}

/// Fields up to `end`.
pub open spec fn fields(ts: Seq<Tok>, acc: Seq<SField>, p: int) -> Result<(Seq<SField>, int), SErr>
    decreases ts.len() - p,
{
    if is_kind(ts, p, Tok::End) {
        Ok((acc, p))
    } else {
        match field_decl(ts, p) {
            Ok((f, q)) => if within(p + 1, q, ts.len() as int) {
                fields(ts, acc.push(f), q)
            } else {
                Err(SErr::Stuck)
            },
            Err(e) => Err(e),
        }
    }
}

/// `form` name `start` fields `end`.
pub open spec fn form_decl(ts: Seq<Tok>, p: int) -> Result<(SDecl, int), SErr> {
    match ident(ts, p + 1) {
        Ok((n, q)) => match expect(ts, q, Tok::Start) {
            Ok(q2) => match fields(ts, Seq::empty(), q2) {
                Ok((fs, q3)) => match expect(ts, q3, Tok::End) {
                    Ok(q4) => Ok((SDecl::Form(n, fs), q4)),
                    Err(e) => Err(e),
                },
                Err(e) => Err(e),
            },
            Err(e) => Err(e),
        },
        Err(e) => Err(e),
    }
}

/// `link "path"` [`as` name].
pub open spec fn link_decl(ts: Seq<Tok>, p: int) -> Result<(SDecl, int), SErr> {
    if p + 1 >= ts.len() {
        Err(SErr::Unexpected(Tok::Error))
    } else {
        match ts[p + 1] {
            Tok::Str(path) => if is_kind(ts, p + 2, Tok::As) {
                if p + 3 >= ts.len() {
                    Err(SErr::Unexpected(Tok::Error))
                } else {
                    match ts[p + 3] {
                        Tok::Identifier(a) => Ok((SDecl::Link(path, Some(a)), p + 4)),
                        t => Err(SErr::Expected("identifier"@, t)),
                    }
                }
            } else {
                Ok((SDecl::Link(path, None), p + 2))
            },
            t => Err(SErr::Expected("string"@, t)),
        }
    }
}

/// A declaration or a statement.
pub open spec fn item(ts: Seq<Tok>, p: int) -> Result<(SItem, int), SErr> {
    if is_kind(ts, p, Tok::Link) {
        match link_decl(ts, p) {
            Ok((d, q)) => Ok((SItem::Decl(d), q)),
            Err(e) => Err(e),
        }
    } else if is_kind(ts, p, Tok::Proc) {
        match proc_decl(ts, p) {
            Ok((d, q)) => Ok((SItem::Decl(d), q)),
            Err(e) => Err(e),
        }
    } else if is_kind(ts, p, Tok::Form) {
        match form_decl(ts, p) {
            Ok((d, q)) => Ok((SItem::Decl(d), q)),
            Err(e) => Err(e),
        }
    } else {
        match stmt(ts, p) {
            Ok((s, q)) => Ok((SItem::Stmt(s), q)),
            Err(e) => Err(e),
        }
    }
}

/// Items from `p` to the end of input.
pub open spec fn items(ts: Seq<Tok>, acc: Seq<SItem>, p: int) -> Result<Seq<SItem>, SErr>
    decreases ts.len() - p,
{
    if p < 0 || p >= ts.len() {
        Ok(acc)
    } else {
        match item(ts, p) {
            Ok((it, q)) => if within(p + 1, q, ts.len() as int) {
                items(ts, acc.push(it), q)
            } else {
                Err(SErr::Stuck)
            },
            Err(e) => Err(e),
        }
    }
}

/// A whole program.
pub open spec fn program(ts: Seq<Tok>) -> Result<Seq<SItem>, SErr> {
    items(ts, Seq::empty(), 0)
}

// ------------------------------------------------------------------------ laws

/// The binary operator that a token stands for, with its precedence level
/// (0 binds loosest): `or`; `and`; `==`, `!=`, `<`, `<=`, `>`, `>=`; `+`,
/// `-`; `*`, `/`, `%`.
pub open spec fn operator_token(t: Tok) -> Option<(nat, BinOp)> {
    match t {
        Tok::Or => Some((0nat, BinOp::Or)),
        Tok::And => Some((1nat, BinOp::And)),
        Tok::Equal => Some((2nat, BinOp::Eq)),
        Tok::NotEqual => Some((2nat, BinOp::Ne)),
        Tok::Less => Some((2nat, BinOp::Lt)),
        Tok::LessEqual => Some((2nat, BinOp::Le)),
        Tok::Greater => Some((2nat, BinOp::Gt)),
        Tok::GreaterEqual => Some((2nat, BinOp::Ge)),
        Tok::Plus => Some((3nat, BinOp::Add)),
        Tok::Minus => Some((3nat, BinOp::Sub)),
        Tok::Star => Some((4nat, BinOp::Mul)),
        Tok::Slash => Some((4nat, BinOp::Div)),
        Tok::Percent => Some((4nat, BinOp::Rem)),
        _ => None,
    }
}

/// The precedence level of an operator token.
pub open spec fn token_level(t: Tok) -> nat {
    match operator_token(t) {
        Some((l, _)) => l,
        None => 0,
    }
}

/// The operator of an operator token.
pub open spec fn token_op(t: Tok) -> BinOp {
    match operator_token(t) {
        Some((_, o)) => o,
        None => BinOp::Add,
    }
}

/// A whole number as an expression.
pub open spec fn whole_lit(n: i64) -> SExpr {
    SExpr::Literal(VVal::Whole(n))
}

proof fn lemma_level_op_token(ts: Seq<Tok>, p: int, level: nat)
    requires
        level < 5,
    ensures
        0 <= p < ts.len() && operator_token(ts[p]) is Some ==> level_op(ts, p, level) == if level
            == token_level(ts[p]) {
            Some(token_op(ts[p]))
        } else {
            None::<BinOp>
        },
        !(0 <= p < ts.len()) ==> level_op(ts, p, level) is None,
{
}

/// A whole number at `p`, followed by the end or by an operator of a level
/// below `level`, is the whole operand of that level.
proof fn lemma_whole_operand(ts: Seq<Tok>, p: int, n: i64, level: nat)
    requires
        0 <= p < ts.len(),
        ts[p] == Tok::Whole(n),
        level <= 5,
        p + 1 == ts.len() || (operator_token(ts[p + 1]) is Some && token_level(ts[p + 1])
            < level),
    ensures
        binary(ts, p, level) == Ok::<(SExpr, int), SErr>((whole_lit(n), p + 1)),
    decreases 5 - level,
{
    if level < 5 {
        lemma_whole_operand(ts, p, n, level + 1);
        lemma_level_op_token(ts, p + 1, level);
        assert(level_op(ts, p + 1, level) is None);
        assert(binary_rest(ts, whole_lit(n), p + 1, level) == Ok::<(SExpr, int), SErr>(
            (whole_lit(n), p + 1),
        ));
    } else {
        assert(!is_kind(ts, p, Tok::Not));
        assert(primary(ts, p) == Ok::<(SExpr, int), SErr>((whole_lit(n), p + 1)));
        assert(unary(ts, p) == Ok::<(SExpr, int), SErr>((whole_lit(n), p + 1)));
    }
}

proof fn lemma_operation_below(ts: Seq<Tok>, e: SExpr, level: nat, top: nat)
    requires
        level <= top < 5,
        ts.len() == 3,
        binary(ts, 0, top) == Ok::<(SExpr, int), SErr>((e, 3)),
    ensures
        binary(ts, 0, level) == Ok::<(SExpr, int), SErr>((e, 3)),
    decreases top - level,
{
    if level < top {
        lemma_operation_below(ts, e, level + 1, top);
        lemma_level_op_token(ts, 3, level);
        assert(binary_rest(ts, e, 3, level) == Ok::<(SExpr, int), SErr>((e, 3)));
    }
}

/// Every operator token stands for its own operator: `a t b`, for whole
/// numbers `a`, `b` and any binary operator token `t`, is the expression
/// that applies the operator of `t` (`<=` is `Le`, `>=` is `Ge`, `or` is
/// `Or`, ...) to `a` and `b`, and takes all three tokens.
pub proof fn lemma_operator_tokens(a: i64, t: Tok, b: i64)
    requires
        operator_token(t) is Some,
    ensures
        expr(seq![Tok::Whole(a), t, Tok::Whole(b)], 0) == Ok::<(SExpr, int), SErr>(
            (bin(whole_lit(a), token_op(t), whole_lit(b)), 3),
        ),
{
    let ts = seq![Tok::Whole(a), t, Tok::Whole(b)];
    let lv = token_level(t);
    let op = token_op(t);
    lemma_whole_operand(ts, 0, a, lv + 1);
    lemma_whole_operand(ts, 2, b, lv + 1);
    lemma_level_op_token(ts, 1, lv);
    lemma_level_op_token(ts, 3, lv);
    let e = bin(whole_lit(a), op, whole_lit(b));
    assert(level_op(ts, 1, lv) == Some(op));
    assert(binary_rest(ts, e, 3, lv) == Ok::<(SExpr, int), SErr>((e, 3)));
    assert(binary(ts, 0, lv + 1) == Ok::<(SExpr, int), SErr>((whole_lit(a), 1)));
    assert(binary(ts, 2, lv + 1) == Ok::<(SExpr, int), SErr>((whole_lit(b), 3)));
    assert(binary_rest(ts, whole_lit(a), 1, lv) == Ok::<(SExpr, int), SErr>((e, 3)));
    assert(binary(ts, 0, lv) == Ok::<(SExpr, int), SErr>((e, 3)));
    lemma_operation_below(ts, bin(whole_lit(a), op, whole_lit(b)), 0, lv);
}

proof fn lemma_rest_passes(ts: Seq<Tok>, p: int, e: SExpr, q: int, level: nat, top: nat)
    requires
        level <= top <= 5,
        0 <= p <= q <= ts.len(),
        binary(ts, p, top) == Ok::<(SExpr, int), SErr>((e, q)),
        q == ts.len() || (operator_token(ts[q]) is Some && token_level(ts[q]) < level),
    ensures
        binary(ts, p, level) == Ok::<(SExpr, int), SErr>((e, q)),
    decreases top - level,
{
    if level < top {
        lemma_rest_passes(ts, p, e, q, level + 1, top);
        lemma_level_op_token(ts, q, level);
        assert(level_op(ts, q, level) is None);
        assert(binary_rest(ts, e, q, level) == Ok::<(SExpr, int), SErr>((e, q)));
    }
}

/// Precedence and associativity: in `a t1 b t2 c` (whole numbers and two
/// operator tokens), the operator that binds tighter applies first, and of
/// two operators that bind alike the left one applies first. So `1 + 2 * 3`
/// is `1 + (2 * 3)`, `1 - 2 - 3` is `(1 - 2) - 3`, and `a < b or c` is
/// `(a < b) or c`.
pub proof fn lemma_precedence(a: i64, t1: Tok, b: i64, t2: Tok, c: i64)
    requires
        operator_token(t1) is Some,
        operator_token(t2) is Some,
    ensures
        expr(seq![Tok::Whole(a), t1, Tok::Whole(b), t2, Tok::Whole(c)], 0) == Ok::<(SExpr, int), SErr>(
            (
                if token_level(t1) >= token_level(t2) {
                    bin(bin(whole_lit(a), token_op(t1), whole_lit(b)), token_op(t2), whole_lit(c))
                } else {
                    bin(whole_lit(a), token_op(t1), bin(whole_lit(b), token_op(t2), whole_lit(c)))
                },
                5,
            ),
        ),
{
    let ts = seq![Tok::Whole(a), t1, Tok::Whole(b), t2, Tok::Whole(c)];
    let l1 = token_level(t1);
    let l2 = token_level(t2);
    let o1 = token_op(t1);
    let o2 = token_op(t2);
    let ea = whole_lit(a);
    let eb = whole_lit(b);
    let ec = whole_lit(c);
    lemma_level_op_token(ts, 1, l1);
    lemma_level_op_token(ts, 3, l1);
    lemma_level_op_token(ts, 3, l2);
    lemma_level_op_token(ts, 5, l1);
    lemma_level_op_token(ts, 5, l2);
    lemma_whole_operand(ts, 0, a, l1 + 1);
    lemma_whole_operand(ts, 4, c, l1 + 1);
    lemma_whole_operand(ts, 4, c, l2 + 1);
    if l1 >= l2 {
        lemma_whole_operand(ts, 2, b, l1 + 1);
        let ab = bin(ea, o1, eb);
        let abc = bin(ab, o2, ec);
        assert(binary_rest(ts, abc, 5, l1) == Ok::<(SExpr, int), SErr>((abc, 5)));
        if l1 == l2 {
            assert(binary_rest(ts, ab, 3, l1) == Ok::<(SExpr, int), SErr>((abc, 5)));
            assert(binary_rest(ts, ea, 1, l1) == Ok::<(SExpr, int), SErr>((abc, 5)));
            assert(binary(ts, 0, l1) == Ok::<(SExpr, int), SErr>((abc, 5)));
            lemma_rest_passes(ts, 0, abc, 5, 0, l1);
        } else {
            assert(binary_rest(ts, ab, 3, l1) == Ok::<(SExpr, int), SErr>((ab, 3)));
            assert(binary_rest(ts, ea, 1, l1) == Ok::<(SExpr, int), SErr>((ab, 3)));
            assert(binary(ts, 0, l1) == Ok::<(SExpr, int), SErr>((ab, 3)));
            lemma_rest_passes(ts, 0, ab, 3, l2 + 1, l1);
            assert(binary_rest(ts, abc, 5, l2) == Ok::<(SExpr, int), SErr>((abc, 5)));
            assert(binary_rest(ts, ab, 3, l2) == Ok::<(SExpr, int), SErr>((abc, 5)));
            assert(binary(ts, 0, l2) == Ok::<(SExpr, int), SErr>((abc, 5)));
            lemma_rest_passes(ts, 0, abc, 5, 0, l2);
        }
    } else {
        lemma_whole_operand(ts, 2, b, l2 + 1);
        let bc = bin(eb, o2, ec);
        let abc = bin(ea, o1, bc);
        assert(binary_rest(ts, bc, 5, l2) == Ok::<(SExpr, int), SErr>((bc, 5)));
        assert(binary_rest(ts, eb, 3, l2) == Ok::<(SExpr, int), SErr>((bc, 5)));
        assert(binary(ts, 2, l2) == Ok::<(SExpr, int), SErr>((bc, 5)));
        lemma_rest_passes(ts, 2, bc, 5, l1 + 1, l2);
        assert(binary_rest(ts, abc, 5, l1) == Ok::<(SExpr, int), SErr>((abc, 5)));
        assert(binary_rest(ts, ea, 1, l1) == Ok::<(SExpr, int), SErr>((abc, 5)));
        assert(binary(ts, 0, l1) == Ok::<(SExpr, int), SErr>((abc, 5)));
        lemma_rest_passes(ts, 0, abc, 5, 0, l1);
    }
}

/// How an operator is written, for the operators written with symbols.
pub open spec fn operator_symbol(op: BinOp) -> Seq<char> {
    match op {
        BinOp::Add => seq!['+'],
        BinOp::Sub => seq!['-'],
        BinOp::Mul => seq!['*'],
        BinOp::Div => seq!['/'],
        BinOp::Rem => seq!['%'],
        BinOp::Eq => seq!['=', '='],
        BinOp::Ne => seq!['!', '='],
        BinOp::Lt => seq!['<'],
        BinOp::Le => seq!['<', '='],
        BinOp::Gt => seq!['>'],
        BinOp::Ge => seq!['>', '='],
        _ => Seq::empty(),
    }
}

/// From source text to operator: where a symbol operator is written (and
/// what follows does not make a longer token of it, as `=` after `<` or a
/// digit after `-` would), the lexer reads one token that the grammar takes
/// for that very operator: `<=` is less-or-equal, `>=` greater-or-equal,
/// `!=` not-equal, and so on.
pub proof fn lemma_operator_symbols(src: Seq<char>, i: int, op: BinOp)
    requires
        !(op is And || op is Or),
        0 <= i,
        i + operator_symbol(op).len() <= src.len(),
        src.subrange(i, i + operator_symbol(op).len()) == operator_symbol(op),
        i + operator_symbol(op).len() < src.len() ==> {
            let c = src[i + operator_symbol(op).len()];
            &&& ((op is Lt || op is Gt) ==> c != '=')
            &&& (op is Sub ==> !('0' <= c && c <= '9'))
        },
    ensures
        lex_at(src, i).1 == i + operator_symbol(op).len(),
        lex_at(src, i).0 is Tok,
        operator_token(lex_at(src, i).0->Tok_0) is Some,
        token_op(lex_at(src, i).0->Tok_0) == op,
{
    let n = operator_symbol(op).len() as int;
    assert(src[i] == operator_symbol(op)[0]) by {
        assert(src.subrange(i, i + n)[0] == src[i]);
    }
    if n == 2 {
        assert(src[i + 1] == operator_symbol(op)[1]) by {
            assert(src.subrange(i, i + n)[1] == src[i + 1]);
        }
    }
}

/// `set x = v` declares a variable that can be written again; `fix x = v`
/// a constant.
pub proof fn lemma_set_and_fix(x: Seq<char>, n: i64)
    ensures
        stmt(seq![Tok::SetKeyword, Tok::Identifier(x), Tok::Assign, Tok::Whole(n)], 0) == Ok::<
            (SStmt, int),
            SErr,
        >((SStmt::SetVar(x, whole_lit(n), true), 4)),
        stmt(seq![Tok::Fix, Tok::Identifier(x), Tok::Assign, Tok::Whole(n)], 0) == Ok::<
            (SStmt, int),
            SErr,
        >((SStmt::SetVar(x, whole_lit(n), false), 4)),
{
    let t1 = seq![Tok::SetKeyword, Tok::Identifier(x), Tok::Assign, Tok::Whole(n)];
    let t2 = seq![Tok::Fix, Tok::Identifier(x), Tok::Assign, Tok::Whole(n)];
    lemma_whole_operand(t1, 3, n, 0);
    lemma_whole_operand(t2, 3, n, 0);
    assert(is_kind(t1, 0, Tok::SetKeyword));
    assert(!is_kind(t2, 0, Tok::SetKeyword));
    assert(is_kind(t2, 0, Tok::Fix));
}

} // verus!
