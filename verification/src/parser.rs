//! The recursive-descent parser of Side. Every parse function is proved to
//! compute the grammar function of [`crate::parser_spec`] of the same name.

use vstd::prelude::*;
use crate::token::{Token, Tok, toks, same_kind, unit_debug, unit_debug_text};
use crate::ast::{Program, Item, Decl, FieldDecl, Stmt, Expr, BinOp, UnOp, SExpr, SStmt, SField, SDecl, SItem, expr_view, exprs_view, stmt_view, stmts_view, names_view, field_decl_view, field_decls_view, decl_view, item_view, items_view, lemma_exprs_view_push, lemma_exprs_view_empty, lemma_stmts_view_push};
use crate::parser_spec::{SErr, is_kind, expect, ident, level_op, expr, binary, binary_rest, unary, elements, primary, suffix, block_until, stmt, set_stmt, if_stmt, trap_stmt, assign_or_expr, params, proc_decl, field_decl, fields, form_decl, link_decl, item, items, program};
use crate::value::{Value, VVal, Piece, Chunk, chunks, text_chunk, text_piece, append_pieces, str_debug, debug_string};
use crate::text::{nat_text, int_text, nat_digits, int_to_string, string_from_chars, concat};

verus! {

/// Why a program could not be parsed. `line` is always 1: the parser does
/// not count lines.
pub enum ParseError {
    UnexpectedToken { line: usize, token: Token },
    Expected { line: usize, expected: String, found: Token },
    InvalidLValue { line: usize },
}

impl ParseError {
    /// The error as the grammar names it.
    pub open spec fn kind(&self) -> SErr {
        match self {
            ParseError::UnexpectedToken { token, .. } => SErr::Unexpected(token@),
            ParseError::Expected { expected, found, .. } => SErr::Expected(expected@, found@),
            ParseError::InvalidLValue { .. } => SErr::InvalidLValue,
        }
    }

    pub open spec fn line_number(&self) -> usize {
        match self {
            ParseError::UnexpectedToken { line, .. } => *line,
            ParseError::Expected { line, .. } => *line,
            ParseError::InvalidLValue { line } => *line,
        }
    }
}

/// How a parse function fails: with a parse error, or because the input
/// ends inside a `form`, where the grammar has no answer.
enum Fail {
    Error(ParseError),
    Crash,
}

spec fn fail_view(f: Fail) -> SErr {
    match f {
        Fail::Error(e) => e.kind(),
        Fail::Crash => SErr::Crash,
    }
}

spec fn err_of<T>(f: Fail) -> Result<T, SErr> {
    Err(fail_view(f))
}

spec fn fail_line_ok(f: Fail) -> bool {
    match f {
        Fail::Error(e) => e.line_number() == 1,
        Fail::Crash => true,
    }
}

spec fn pos_res(s: Result<int, SErr>, r: Result<usize, Fail>) -> bool {
    match r {
        Ok(q) => s == Ok::<int, SErr>(q as int),
        Err(f) => s == err_of::<int>(f) && fail_line_ok(f),
    }
}

spec fn name_res(s: Result<(Seq<char>, int), SErr>, r: Result<(String, usize), Fail>) -> bool {
    match r {
        Ok((n, q)) => s == Ok::<(Seq<char>, int), SErr>((n@, q as int)),
        Err(f) => s == err_of::<(Seq<char>, int)>(f) && fail_line_ok(f),
    }
}

spec fn expr_res(
    s: Result<(SExpr, int), SErr>,
    r: Result<(Expr, usize), Fail>,
    p: int,
    len: int,
    strict: bool,
) -> bool {
    match r {
        Ok((e, q)) => s == Ok::<(SExpr, int), SErr>((expr_view(e), q as int)) && p <= q <= len && (strict ==> p < q),
        Err(f) => s == err_of::<(SExpr, int)>(f) && fail_line_ok(f),
    }
}

spec fn exprs_res(
    s: Result<(Seq<SExpr>, int), SErr>,
    r: Result<(Vec<Expr>, usize), Fail>,
    p: int,
    len: int,
) -> bool {
    match r {
        Ok((es, q)) => s == Ok::<(Seq<SExpr>, int), SErr>((exprs_view(es@), q as int)) && p < q <= len,
        Err(f) => s == err_of::<(Seq<SExpr>, int)>(f) && fail_line_ok(f),
    }
}

spec fn stmt_res(
    s: Result<(SStmt, int), SErr>,
    r: Result<(Stmt, usize), Fail>,
    p: int,
    len: int,
) -> bool {
    match r {
        Ok((st, q)) => s == Ok::<(SStmt, int), SErr>((stmt_view(st), q as int)) && p < q <= len,
        Err(f) => s == err_of::<(SStmt, int)>(f) && fail_line_ok(f),
    }
}

spec fn stmts_res(
    s: Result<(Seq<SStmt>, int), SErr>,
    r: Result<(Vec<Stmt>, usize), Fail>,
    p: int,
    len: int,
) -> bool {
    match r {
        Ok((b, q)) => s == Ok::<(Seq<SStmt>, int), SErr>((stmts_view(b@), q as int)) && p <= q
            <= len,
        Err(f) => s == err_of::<(Seq<SStmt>, int)>(f) && fail_line_ok(f),
    }
}

spec fn names_res(
    s: Result<(Seq<Seq<char>>, int), SErr>,
    r: Result<(Vec<String>, usize), Fail>,
    p: int,
    len: int,
) -> bool {
    match r {
        Ok((ns, q)) => s == Ok::<(Seq<Seq<char>>, int), SErr>((names_view(ns@), q as int)) && p
            < q <= len,
        Err(f) => s == err_of::<(Seq<Seq<char>>, int)>(f) && fail_line_ok(f),
    }
}

spec fn decl_res(
    s: Result<(SDecl, int), SErr>,
    r: Result<(Decl, usize), Fail>,
    p: int,
    len: int,
) -> bool {
    match r {
        Ok((d, q)) => s == Ok::<(SDecl, int), SErr>((decl_view(d), q as int)) && p < q <= len,
        Err(f) => s == err_of::<(SDecl, int)>(f) && fail_line_ok(f),
    }
}

/// A parser over a token sequence, with its position.
pub struct Parser {
    tokens: Vec<Token>,
    pos: usize,
    current_line: usize,
}

impl Parser {
    /// The tokens, mathematically.
    pub closed spec fn token_kinds(&self) -> Seq<Tok> {
        toks(self.tokens@)
    }

    /// The position of the next token to read.
    pub closed spec fn position(&self) -> int {
        self.pos as int
    }

    pub closed spec fn wf(&self) -> bool {
        self.pos <= self.tokens.len() && self.current_line == 1
    }

    spec fn ts(&self) -> Seq<Tok> {
        toks(self.tokens@)
    }

    /// A parser at the start of `tokens`.
    pub fn new(tokens: Vec<Token>) -> (res: Parser)
        ensures
            res.wf(),
            res.token_kinds() == toks(tokens@),
            res.position() == 0,
    {
        Parser { tokens, pos: 0, current_line: 1 }
    }

    fn end_error(&self) -> (f: Fail)
        requires
            self.wf(),
        ensures
            fail_view(f) == SErr::Unexpected(Tok::Error),
            fail_line_ok(f),
    {
        Fail::Error(ParseError::UnexpectedToken { line: self.current_line, token: Token::Error })
    }

    fn expected_error(&self, what: &str, found: &Token) -> (f: Fail)
        requires
            self.wf(),
        ensures
            fail_view(f) == SErr::Expected(what@, found@),
            fail_line_ok(f),
    {
        Fail::Error(
            ParseError::Expected {
                line: self.current_line,
                expected: what.to_owned(),
                found: found.duplicate(),
            },
        )
    }

    fn is_kind_at(&self, p: usize, k: &Token) -> (res: bool)
        requires
            self.wf(),
        ensures
            res == is_kind(self.ts(), p as int, k@),
    {
        p < self.tokens.len() && self.tokens[p].same_kind(k)
    }

    fn expect_at(&self, p: usize, k: Token) -> (res: Result<usize, Fail>)
        requires
            self.wf(),
        ensures
            pos_res(expect(self.ts(), p as int, k@), res),
            res matches Ok(q) ==> q == p + 1 && q <= self.tokens.len(),
    {
        if p >= self.tokens.len() {
            return Err(self.end_error());
        }
        if self.tokens[p].same_kind(&k) {
            Ok(p + 1)
        } else {
            Err(
                Fail::Error(
                    ParseError::Expected {
                        line: self.current_line,
                        expected: unit_debug_text(&k),
                        found: self.tokens[p].duplicate(),
                    },
                ),
            )
        }
    }

    fn ident_at(&self, p: usize) -> (res: Result<(String, usize), Fail>)
        requires
            self.wf(),
        ensures
            name_res(ident(self.ts(), p as int), res),
            res matches Ok((_, q)) ==> q == p + 1 && q <= self.tokens.len(),
    {
        if p >= self.tokens.len() {
            return Err(self.end_error());
        }
        match &self.tokens[p] {
            Token::Identifier(s) => Ok((s.clone(), p + 1)),
            t => {
                proof {
                    reveal_strlit("identifier");
                }
                Err(self.expected_error("identifier", t))
            },
        }
    }

    // ---------------------------------------------------------- expressions

    fn level_op_at(&self, p: usize, level: u8) -> (res: Option<BinOp>)
        requires
            self.wf(),
            level < 5,
        ensures
            res == level_op(self.ts(), p as int, level as nat),
    {
        if level == 0 {
            if self.is_kind_at(p, &Token::Or) {
                Some(BinOp::Or)
            } else {
                None
            }
        } else if level == 1 {
            if self.is_kind_at(p, &Token::And) {
                Some(BinOp::And)
            } else {
                None
            }
        } else if p >= self.tokens.len() {
            None
        } else if level == 2 {
            match &self.tokens[p] {
                Token::Equal => Some(BinOp::Eq),
                Token::NotEqual => Some(BinOp::Ne),
                Token::Less => Some(BinOp::Lt),
                Token::LessEqual => Some(BinOp::Le),
                Token::Greater => Some(BinOp::Gt),
                Token::GreaterEqual => Some(BinOp::Ge),
                _ => None,
            }
        } else if level == 3 {
            match &self.tokens[p] {
                Token::Plus => Some(BinOp::Add),
                Token::Minus => Some(BinOp::Sub),
                _ => None,
            }
        } else {
            match &self.tokens[p] {
                Token::Star => Some(BinOp::Mul),
                Token::Slash => Some(BinOp::Div),
                Token::Percent => Some(BinOp::Rem),
                _ => None,
            }
        }
    }

    /// `parse_expression`: an expression starting at `p`.
    fn parse_expression(&self, p: usize) -> (res: Result<(Expr, usize), Fail>)
        requires
            self.wf(),
            p <= self.tokens.len(),
        ensures
            expr_res(expr(self.ts(), p as int), res, p as int, self.tokens.len() as int, true),
        decreases self.tokens.len() - p, 30nat, 0nat,
    {
        self.parse_binary(p, 0)
    }

    /// One level of binary operators (`parse_or`, `parse_and`,
    /// `parse_comparison`, `parse_term`, `parse_factor` for levels 0 to 4).
    fn parse_binary(&self, p: usize, level: u8) -> (res: Result<(Expr, usize), Fail>)
        requires
            self.wf(),
            p <= self.tokens.len(),
            level <= 5,
        ensures
            expr_res(
                binary(self.ts(), p as int, level as nat),
                res,
                p as int,
                self.tokens.len() as int,
                true,
            ),
        decreases self.tokens.len() - p, 29nat, 10 - level,
    {
        if level >= 5 {
            return self.parse_unary(p);
        }
        match self.parse_binary(p, level + 1) {
            Ok((l, q)) => self.parse_binary_rest(l, q, level, Ghost(p)),
            Err(f) => Err(f),
        }
    }

    /// The operators of one level after its left operand `l`, which ends at `p`.
    fn parse_binary_rest(&self, l: Expr, p: usize, level: u8, Ghost(start): Ghost<usize>) -> (res:
        Result<(Expr, usize), Fail>)
        requires
            self.wf(),
            start < p <= self.tokens.len(),
            level < 5,
        ensures
            expr_res(
                binary_rest(self.ts(), expr_view(l), p as int, level as nat),
                res,
                p as int,
                self.tokens.len() as int,
                false,
            ),
        decreases self.tokens.len() - start, 29nat, 9 - level,
    {
        let ghost l0 = expr_view(l);
        let mut acc = l;
        let mut q = p;
        loop
            invariant
                self.wf(),
                start < p <= q <= self.tokens.len(),
                level < 5,
                l0 == expr_view(l),
                binary_rest(self.ts(), expr_view(acc), q as int, level as nat) == binary_rest(
                    self.ts(),
                    l0,
                    p as int,
                    level as nat,
                ),
            decreases self.tokens.len() - q,
        {
            match self.level_op_at(q, level) {
                None => {
                    return Ok((acc, q));
                },
                Some(op) => {
                    match self.parse_binary(q + 1, level + 1) {
                        Ok((r, q2)) => {
                            acc = Expr::Binary { left: Box::new(acc), op, right: Box::new(r) };
                            q = q2;
                        },
                        Err(f) => {
                            return Err(f);
                        },
                    }
                },
            }
        }
    }

    /// `parse_unary`: `not`s, then a primary expression.
    fn parse_unary(&self, p: usize) -> (res: Result<(Expr, usize), Fail>)
        requires
            self.wf(),
            p <= self.tokens.len(),
        ensures
            expr_res(unary(self.ts(), p as int), res, p as int, self.tokens.len() as int, true),
        decreases self.tokens.len() - p, 19nat, 0nat,
    {
        if self.is_kind_at(p, &Token::Not) {
            match self.parse_unary(p + 1) {
                Ok((e, q)) => Ok((Expr::Unary { op: UnOp::Not, expr: Box::new(e) }, q)),
                Err(f) => Err(f),
            }
        } else {
            self.parse_primary(p)
        }
    }

    /// Comma-separated expressions up to `close`, starting at `p`.
    fn parse_elements(&self, p: usize, close: &Token) -> (res: Result<(Vec<Expr>, usize), Fail>)
        requires
            self.wf(),
            p <= self.tokens.len(),
        ensures
            exprs_res(
                elements(self.ts(), Seq::empty(), p as int, close@),
                res,
                p as int,
                self.tokens.len() as int,
            ),
        decreases self.tokens.len() - p, 31nat, 0nat,
    {
        let mut acc: Vec<Expr> = Vec::new();
        let mut q = p;
        proof {
            lemma_exprs_view_empty();
        }
        loop
            invariant
                self.wf(),
                p <= q <= self.tokens.len(),
                elements(self.ts(), exprs_view(acc@), q as int, close@) == elements(
                    self.ts(),
                    Seq::empty(),
                    p as int,
                    close@,
                ),
            decreases self.tokens.len() - q,
        {
            match self.parse_expression(q) {
                Ok((e, q1)) => {
                    proof {
                        lemma_exprs_view_push(acc@, e);
                    }
                    if self.is_kind_at(q1, close) {
                        acc.push(e);
                        return Ok((acc, q1));
                    }
                    match self.expect_at(q1, Token::Comma) {
                        Ok(q2) => {
                            acc.push(e);
                            q = q2;
                        },
                        Err(f) => {
                            return Err(f);
                        },
                    }
                },
                Err(f) => {
                    return Err(f);
                },
            }
        }
    }

    /// Elements between `open` at `p - 1` and `close`, when the list may be empty.
    fn parse_maybe_elements(&self, p: usize, close: &Token) -> (res: Result<
        (Vec<Expr>, usize),
        Fail,
    >)
        requires
            self.wf(),
            p <= self.tokens.len(),
        ensures
            match res {
                Ok((es, q)) => (if is_kind(self.ts(), p as int, close@) {
                    Ok((Seq::<SExpr>::empty(), p as int))
                } else {
                    elements(self.ts(), Seq::empty(), p as int, close@)
                }) == Ok::<(Seq<SExpr>, int), SErr>((exprs_view(es@), q as int)) && p <= q <= self.tokens.len(),
                Err(f) => (if is_kind(self.ts(), p as int, close@) {
                    Ok((Seq::<SExpr>::empty(), p as int))
                } else {
                    elements(self.ts(), Seq::empty(), p as int, close@)
                }) == err_of::<(Seq<SExpr>, int)>(f) && fail_line_ok(f),
            },
        decreases self.tokens.len() - p, 32nat, 0nat,
    {
        if self.is_kind_at(p, close) {
            proof {
                lemma_exprs_view_empty();
            }
            Ok((Vec::new(), p))
        } else {
            self.parse_elements(p, close)
        }
    }

    /// `parse_primary`: the expression that starts at `p`, with its suffixes.
    fn parse_primary(&self, p: usize) -> (res: Result<(Expr, usize), Fail>)
        requires
            self.wf(),
            p <= self.tokens.len(),
        ensures
            expr_res(primary(self.ts(), p as int), res, p as int, self.tokens.len() as int, true),
        decreases self.tokens.len() - p, 18nat, 0nat,
    {
        if p >= self.tokens.len() {
            return Err(self.end_error());
        }
        match &self.tokens[p] {
            Token::Whole(n) => Ok((Expr::Literal(Value::Whole(*n)), p + 1)),
            Token::Fraction(b) => Ok((Expr::Literal(Value::Fraction(*b)), p + 1)),
            Token::String(s) => Ok((Expr::Literal(Value::String(s.clone())), p + 1)),
            Token::True => Ok((Expr::Literal(Value::Bool(true)), p + 1)),
            Token::False => Ok((Expr::Literal(Value::Bool(false)), p + 1)),
            Token::Nil => Ok((Expr::Literal(Value::Nil), p + 1)),
            Token::LBracket => {
                match self.parse_maybe_elements(p + 1, &Token::RBracket) {
                    Ok((es, q)) => match self.expect_at(q, Token::RBracket) {
                        Ok(q2) => Ok((Expr::List(es), q2)),
                        Err(f) => Err(f),
                    },
                    Err(f) => Err(f),
                }
            },
            Token::Identifier(n) => self.parse_suffix(Expr::Variable(n.clone()), p + 1, Ghost(p)),
            Token::LParen => {
                match self.parse_expression(p + 1) {
                    Ok((e, q)) => match self.expect_at(q, Token::RParen) {
                        Ok(q2) => self.parse_suffix(e, q2, Ghost(p)),
                        Err(f) => Err(f),
                    },
                    Err(f) => Err(f),
                }
            },
            Token::New => {
                match self.ident_at(p + 1) {
                    Ok((n, q)) => self.parse_suffix(Expr::New { name: n }, q, Ghost(p)),
                    Err(f) => Err(f),
                }
            },
            Token::Entry => {
                if p + 1 < self.tokens.len() {
                    match &self.tokens[p + 1] {
                        Token::String(s) => {
                            assert(self.ts()[p + 1] == Tok::Str(s@));
                            let prompt = Expr::Literal(Value::String(s.clone()));
                            assert(expr_view(prompt) == SExpr::Literal(VVal::Str(s@)));
                            return self.parse_suffix(
                                Expr::Entry { prompt: Some(Box::new(prompt)) },
                                p + 2,
                                Ghost(p),
                            );
                        },
                        _ => {},
                    }
                }
                self.parse_suffix(Expr::Entry { prompt: None }, p + 1, Ghost(p))
            },
            t => Err(Fail::Error(ParseError::UnexpectedToken { line: self.current_line, token: t.duplicate() })),
        }
    }

    /// `parse_suffix`: calls, field accesses and indexing after `e`, which ends at `p`.
    fn parse_suffix(&self, e: Expr, p: usize, Ghost(start): Ghost<usize>) -> (res: Result<
        (Expr, usize),
        Fail,
    >)
        requires
            self.wf(),
            start < p <= self.tokens.len(),
        ensures
            expr_res(
                suffix(self.ts(), expr_view(e), p as int),
                res,
                p as int,
                self.tokens.len() as int,
                false,
            ),
        decreases self.tokens.len() - start, 17nat, 0nat,
    {
        let ghost e0 = expr_view(e);
        let mut acc = e;
        let mut q = p;
        loop
            invariant
                self.wf(),
                start < p <= q <= self.tokens.len(),
                e0 == expr_view(e),
                suffix(self.ts(), expr_view(acc), q as int) == suffix(self.ts(), e0, p as int),
            decreases self.tokens.len() - q,
        {
            if self.is_kind_at(q, &Token::LParen) {
                match self.parse_maybe_elements(q + 1, &Token::RParen) {
                    Ok((args, q1)) => match self.expect_at(q1, Token::RParen) {
                        Ok(q2) => {
                            match acc {
                                Expr::Variable(name) => {
                                    acc = Expr::Call { name, args };
                                    q = q2;
                                },
                                _ => {
                                    proof {
                                        reveal_strlit("function name");
                                    }
                                    return Err(self.expected_error("function name", &Token::LParen));
                                },
                            }
                        },
                        Err(f) => {
                            return Err(f);
                        },
                    },
                    Err(f) => {
                        return Err(f);
                    },
                }
            } else if self.is_kind_at(q, &Token::Dot) {
                match self.ident_at(q + 1) {
                    Ok((field, q1)) => {
                        acc = Expr::Field { object: Box::new(acc), field };
                        q = q1;
                    },
                    Err(f) => {
                        return Err(f);
                    },
                }
            } else if self.is_kind_at(q, &Token::LBracket) {
                match self.parse_expression(q + 1) {
                    Ok((i, q1)) => match self.expect_at(q1, Token::RBracket) {
                        Ok(q2) => {
                            acc = Expr::Index { object: Box::new(acc), index: Box::new(i) };
                            q = q2;
                        },
                        Err(f) => {
                            return Err(f);
                        },
                    },
                    Err(f) => {
                        return Err(f);
                    },
                }
            } else {
                return Ok((acc, q));
            }
        }
    }

    // ----------------------------------------------------------- statements

    /// `parse_block_until`: statements up to `end` (and `else`, where
    /// `else_ends`) or the end of the input.
    fn parse_block_until(&self, p: usize, else_ends: bool) -> (res: Result<(Vec<Stmt>, usize), Fail>)
        requires
            self.wf(),
            p <= self.tokens.len(),
        ensures
            stmts_res(
                block_until(self.ts(), Seq::empty(), p as int, else_ends),
                res,
                p as int,
                self.tokens.len() as int,
            ),
        decreases self.tokens.len() - p, 41nat,
    {
        let mut acc: Vec<Stmt> = Vec::new();
        let mut q = p;
        assert(stmts_view(acc@) =~= Seq::<SStmt>::empty());
        loop
            invariant
                self.wf(),
                p <= q <= self.tokens.len(),
                block_until(self.ts(), stmts_view(acc@), q as int, else_ends) == block_until(
                    self.ts(),
                    Seq::empty(),
                    p as int,
                    else_ends,
                ),
            decreases self.tokens.len() - q,
        {
            if q >= self.tokens.len() || self.is_kind_at(q, &Token::End) || (else_ends
                && self.is_kind_at(q, &Token::Else)) {
                return Ok((acc, q));
            }
            match self.parse_stmt(q) {
                Ok((st, q1)) => {
                    proof {
                        lemma_stmts_view_push(acc@, st);
                    }
                    acc.push(st);
                    q = q1;
                },
                Err(f) => {
                    return Err(f);
                },
            }
        }
    }

    /// `parse_block`: statements up to `end`.
    fn parse_block(&self, p: usize) -> (res: Result<(Vec<Stmt>, usize), Fail>)
        requires
            self.wf(),
            p <= self.tokens.len(),
        ensures
            stmts_res(
                block_until(self.ts(), Seq::empty(), p as int, false),
                res,
                p as int,
                self.tokens.len() as int,
            ),
        decreases self.tokens.len() - p, 42nat,
    {
        self.parse_block_until(p, false)
    }

    /// `parse_stmt`: the statement at `p`.
    fn parse_stmt(&self, p: usize) -> (res: Result<(Stmt, usize), Fail>)
        requires
            self.wf(),
            p <= self.tokens.len(),
        ensures
            stmt_res(stmt(self.ts(), p as int), res, p as int, self.tokens.len() as int),
        decreases self.tokens.len() - p, 40nat,
    {
        if self.is_kind_at(p, &Token::SetKeyword) {
            self.parse_set_stmt(p, true)
        } else if self.is_kind_at(p, &Token::Fix) {
            self.parse_set_stmt(p, false)
        } else if self.is_kind_at(p, &Token::Log) {
            self.parse_log_stmt(p)
        } else if self.is_kind_at(p, &Token::Check) {
            self.parse_if_stmt(p)
        } else if self.is_kind_at(p, &Token::Loop) {
            self.parse_loop_stmt(p)
        } else if self.is_kind_at(p, &Token::Stop) {
            Ok((Stmt::Break, p + 1))
        } else if self.is_kind_at(p, &Token::Wait) {
            self.parse_wait_stmt(p)
        } else if self.is_kind_at(p, &Token::Give) {
            self.parse_return_stmt(p)
        } else if self.is_kind_at(p, &Token::Trap) {
            self.parse_trap_stmt(p)
        } else {
            self.parse_assign_or_expr_stmt(p)
        }
    }

    /// `set` (mutable) or `fix`: name `=` expression.
    fn parse_set_stmt(&self, p: usize, mutable: bool) -> (res: Result<(Stmt, usize), Fail>)
        requires
            self.wf(),
            p < self.tokens.len(),
        ensures
            stmt_res(set_stmt(self.ts(), p as int, mutable), res, p as int, self.tokens.len() as int),
        decreases self.tokens.len() - p, 39nat,
    {
        match self.ident_at(p + 1) {
            Ok((name, q)) => match self.expect_at(q, Token::Assign) {
                Ok(q2) => match self.parse_expression(q2) {
                    Ok((value, q3)) => Ok((Stmt::SetVar { name, value, mutable }, q3)),
                    Err(f) => Err(f),
                },
                Err(f) => Err(f),
            },
            Err(f) => Err(f),
        }
    }

    /// `log` expression.
    fn parse_log_stmt(&self, p: usize) -> (res: Result<(Stmt, usize), Fail>)
        requires
            self.wf(),
            is_kind(self.ts(), p as int, Tok::Log),
        ensures
            stmt_res(stmt(self.ts(), p as int), res, p as int, self.tokens.len() as int),
        decreases self.tokens.len() - p, 39nat,
    {
        match self.parse_expression(p + 1) {
            Ok((e, q)) => Ok((Stmt::Log(e), q)),
            Err(f) => Err(f),
        }
    }

    /// `wait` expression.
    fn parse_wait_stmt(&self, p: usize) -> (res: Result<(Stmt, usize), Fail>)
        requires
            self.wf(),
            is_kind(self.ts(), p as int, Tok::Wait),
        ensures
            stmt_res(stmt(self.ts(), p as int), res, p as int, self.tokens.len() as int),
        decreases self.tokens.len() - p, 39nat,
    {
        match self.parse_expression(p + 1) {
            Ok((e, q)) => Ok((Stmt::Wait(e), q)),
            Err(f) => Err(f),
        }
    }

    /// `give` [expression]: the expression is left out before `end`, `else`
    /// and `start`.
    fn parse_return_stmt(&self, p: usize) -> (res: Result<(Stmt, usize), Fail>)
        requires
            self.wf(),
            is_kind(self.ts(), p as int, Tok::Give),
        ensures
            stmt_res(stmt(self.ts(), p as int), res, p as int, self.tokens.len() as int),
        decreases self.tokens.len() - p, 39nat,
    {
        if !self.is_kind_at(p + 1, &Token::End) && !self.is_kind_at(p + 1, &Token::Else)
            && !self.is_kind_at(p + 1, &Token::Start) {
            match self.parse_expression(p + 1) {
                Ok((e, q)) => Ok((Stmt::Return(Some(e)), q)),
                Err(f) => Err(f),
            }
        } else {
            Ok((Stmt::Return(None), p + 1))
        }
    }

    /// `loop` condition `start` body `end`.
    fn parse_loop_stmt(&self, p: usize) -> (res: Result<(Stmt, usize), Fail>)
        requires
            self.wf(),
            is_kind(self.ts(), p as int, Tok::Loop),
        ensures
            stmt_res(stmt(self.ts(), p as int), res, p as int, self.tokens.len() as int),
        decreases self.tokens.len() - p, 39nat,
    {
        match self.parse_expression(p + 1) {
            Ok((condition, q)) => match self.expect_at(q, Token::Start) {
                Ok(q2) => match self.parse_block(q2) {
                    Ok((body, q3)) => match self.expect_at(q3, Token::End) {
                        Ok(q4) => Ok((Stmt::Loop { condition, body }, q4)),
                        Err(f) => Err(f),
                    },
                    Err(f) => Err(f),
                },
                Err(f) => Err(f),
            },
            Err(f) => Err(f),
        }
    }

    /// `check` condition `start` ... [`else start` ...] `end`.
    fn parse_if_stmt(&self, p: usize) -> (res: Result<(Stmt, usize), Fail>)
        requires
            self.wf(),
            p < self.tokens.len(),
        ensures
            stmt_res(if_stmt(self.ts(), p as int), res, p as int, self.tokens.len() as int),
        decreases self.tokens.len() - p, 39nat,
    {
        let (condition, q) = match self.parse_expression(p + 1) {
            Ok(r) => r,
            Err(f) => {
                return Err(f);
            },
        };
        let q2 = match self.expect_at(q, Token::Start) {
            Ok(q2) => q2,
            Err(f) => {
                return Err(f);
            },
        };
        let (then_block, q3) = match self.parse_block_until(q2, true) {
            Ok(r) => r,
            Err(f) => {
                return Err(f);
            },
        };
        if self.is_kind_at(q3, &Token::Else) {
            let q4 = match self.expect_at(q3 + 1, Token::Start) {
                Ok(q4) => q4,
                Err(f) => {
                    return Err(f);
                },
            };
            let (else_block, q5) = match self.parse_block_until(q4, false) {
                Ok(r) => r,
                Err(f) => {
                    return Err(f);
                },
            };
            match self.expect_at(q5, Token::End) {
                Ok(q6) => Ok((Stmt::If { condition, then_block, else_block: Some(else_block) }, q6)),
                Err(f) => Err(f),
            }
        } else {
            match self.expect_at(q3, Token::End) {
                Ok(q4) => Ok((Stmt::If { condition, then_block, else_block: None }, q4)),
                Err(f) => Err(f),
            }
        }
    }

    /// `trap start` ... `else start` ... `end`.
    fn parse_trap_stmt(&self, p: usize) -> (res: Result<(Stmt, usize), Fail>)
        requires
            self.wf(),
            p < self.tokens.len(),
        ensures
            stmt_res(trap_stmt(self.ts(), p as int), res, p as int, self.tokens.len() as int),
        decreases self.tokens.len() - p, 39nat,
    {
        let q = match self.expect_at(p + 1, Token::Start) {
            Ok(q) => q,
            Err(f) => {
                return Err(f);
            },
        };
        let (try_block, q2) = match self.parse_block_until(q, true) {
            Ok(r) => r,
            Err(f) => {
                return Err(f);
            },
        };
        let q3 = match self.expect_at(q2, Token::Else) {
            Ok(q3) => q3,
            Err(f) => {
                return Err(f);
            },
        };
        let q4 = match self.expect_at(q3, Token::Start) {
            Ok(q4) => q4,
            Err(f) => {
                return Err(f);
            },
        };
        let (catch_block, q5) = match self.parse_block_until(q4, false) {
            Ok(r) => r,
            Err(f) => {
                return Err(f);
            },
        };
        match self.expect_at(q5, Token::End) {
            Ok(q6) => Ok((Stmt::Trap { try_block, catch_block }, q6)),
            Err(f) => Err(f),
        }
    }

    /// An expression statement, or an assignment to a name, field or element.
    fn parse_assign_or_expr_stmt(&self, p: usize) -> (res: Result<(Stmt, usize), Fail>)
        requires
            self.wf(),
            p <= self.tokens.len(),
        ensures
            stmt_res(assign_or_expr(self.ts(), p as int), res, p as int, self.tokens.len() as int),
        decreases self.tokens.len() - p, 39nat,
    {
        let (e, q) = match self.parse_expression(p) {
            Ok(r) => r,
            Err(f) => {
                return Err(f);
            },
        };
        if self.is_kind_at(q, &Token::Assign) {
            let (value, q2) = match self.parse_expression(q + 1) {
                Ok(r) => r,
                Err(f) => {
                    return Err(f);
                },
            };
            match e {
                Expr::Variable(_) | Expr::Field { .. } | Expr::Index { .. } => Ok(
                    (Stmt::Assign { target: e, value }, q2),
                ),
                _ => Err(Fail::Error(ParseError::InvalidLValue { line: self.current_line })),
            }
        } else {
            Ok((Stmt::ExprStmt(e), q))
        }
    }

    // --------------------------------------------------------- declarations

    /// Parameter names up to `)`.
    fn parse_params(&self, p: usize) -> (res: Result<(Vec<String>, usize), Fail>)
        requires
            self.wf(),
            p <= self.tokens.len(),
        ensures
            names_res(params(self.ts(), Seq::empty(), p as int), res, p as int, self.tokens.len() as int),
    {
        let mut acc: Vec<String> = Vec::new();
        let mut q = p;
        assert(names_view(acc@) =~= Seq::<Seq<char>>::empty());
        loop
            invariant
                self.wf(),
                p <= q <= self.tokens.len(),
                params(self.ts(), names_view(acc@), q as int) == params(self.ts(), Seq::empty(), p as int),
            decreases self.tokens.len() - q,
        {
            match self.ident_at(q) {
                Ok((n, q1)) => {
                    assert(names_view(acc@.push(n)) =~= names_view(acc@).push(n@));
                    if self.is_kind_at(q1, &Token::RParen) {
                        acc.push(n);
                        return Ok((acc, q1));
                    }
                    match self.expect_at(q1, Token::Comma) {
                        Ok(q2) => {
                            acc.push(n);
                            q = q2;
                        },
                        Err(f) => {
                            return Err(f);
                        },
                    }
                },
                Err(f) => {
                    return Err(f);
                },
            }
        }
    }

    /// `proc` name `(` params `) start` body `end`, at `p`.
    fn parse_proc(&self, p: usize) -> (res: Result<(Decl, usize), Fail>)
        requires
            self.wf(),
            p < self.tokens.len(),
        ensures
            decl_res(proc_decl(self.ts(), p as int), res, p as int, self.tokens.len() as int),
    {
        let (name, q) = match self.ident_at(p + 1) {
            Ok(r) => r,
            Err(f) => {
                return Err(f);
            },
        };
        let q2 = match self.expect_at(q, Token::LParen) {
            Ok(q2) => q2,
            Err(f) => {
                return Err(f);
            },
        };
        let (params, q3) = if !self.is_kind_at(q2, &Token::RParen) {
            match self.parse_params(q2) {
                Ok(r) => r,
                Err(f) => {
                    return Err(f);
                },
            }
        } else {
            let v: Vec<String> = Vec::new();
            assert(names_view(v@) =~= Seq::<Seq<char>>::empty());
            (v, q2)
        };
        let q4 = match self.expect_at(q3, Token::RParen) {
            Ok(q4) => q4,
            Err(f) => {
                return Err(f);
            },
        };
        let q5 = match self.expect_at(q4, Token::Start) {
            Ok(q5) => q5,
            Err(f) => {
                return Err(f);
            },
        };
        let (body, q6) = match self.parse_block(q5) {
            Ok(r) => r,
            Err(f) => {
                return Err(f);
            },
        };
        match self.expect_at(q6, Token::End) {
            Ok(q7) => Ok((Decl::Proc { name, params, body }, q7)),
            Err(f) => Err(f),
        }
    }

    /// `parse_field_decl`: `set`/`fix` name [`=` expression], at `p`.
    fn parse_field_decl(&self, p: usize) -> (res: Result<(FieldDecl, usize), Fail>)
        requires
            self.wf(),
            p <= self.tokens.len(),
        ensures
            match res {
                Ok((f, q)) => field_decl(self.ts(), p as int) == Ok::<(SField, int), SErr>(
                    (field_decl_view(f), q as int),
                ) && p < q <= self.tokens.len(),
                Err(f) => field_decl(self.ts(), p as int) == err_of::<(SField, int)>(f)
                    && fail_line_ok(f),
            },
    {
        if p >= self.tokens.len() {
            return Err(Fail::Crash);
        }
        let mutable = match &self.tokens[p] {
            Token::SetKeyword => true,
            Token::Fix => false,
            t => {
                proof {
                    reveal_strlit("set or fix");
                }
                return Err(self.expected_error("set or fix", t));
            },
        };
        let (name, q) = match self.ident_at(p + 1) {
            Ok(r) => r,
            Err(f) => {
                return Err(f);
            },
        };
        if self.is_kind_at(q, &Token::Assign) {
            match self.parse_expression(q + 1) {
                Ok((e, q2)) => Ok((FieldDecl { name, mutable, initial: Some(e) }, q2)),
                Err(f) => Err(f),
            }
        } else {
            Ok((FieldDecl { name, mutable, initial: None }, q))
        }
    }

    /// `form` name `start` fields `end`, at `p`.
    fn parse_form(&self, p: usize) -> (res: Result<(Decl, usize), Fail>)
        requires
            self.wf(),
            p < self.tokens.len(),
        ensures
            decl_res(form_decl(self.ts(), p as int), res, p as int, self.tokens.len() as int),
    {
        let (name, q) = match self.ident_at(p + 1) {
            Ok(r) => r,
            Err(f) => {
                return Err(f);
            },
        };
        let q2 = match self.expect_at(q, Token::Start) {
            Ok(q2) => q2,
            Err(f) => {
                return Err(f);
            },
        };
        let mut acc: Vec<FieldDecl> = Vec::new();
        let mut q3 = q2;
        assert(field_decls_view(acc@) =~= Seq::<SField>::empty());
        loop
            invariant
                self.wf(),
                p < q2 <= q3 <= self.tokens.len(),
                ident(self.ts(), p + 1) == Ok::<(Seq<char>, int), SErr>((name@, q as int)),
                expect(self.ts(), q as int, Tok::Start) == Ok::<int, SErr>(q2 as int),
                fields(self.ts(), field_decls_view(acc@), q3 as int) == fields(
                    self.ts(),
                    Seq::empty(),
                    q2 as int,
                ),
            ensures
                is_kind(self.ts(), q3 as int, Tok::End),
            decreases self.tokens.len() - q3,
        {
            if self.is_kind_at(q3, &Token::End) {
                break;
            }
            match self.parse_field_decl(q3) {
                Ok((f, q4)) => {
                    assert(field_decls_view(acc@.push(f)) =~= field_decls_view(acc@).push(
                        field_decl_view(f),
                    ));
                    acc.push(f);
                    q3 = q4;
                },
                Err(f) => {
                    return Err(f);
                },
            }
        }
        match self.expect_at(q3, Token::End) {
            Ok(q5) => Ok((Decl::Form { name, fields: acc }, q5)),
            Err(f) => Err(f),
        }
    }

    /// `link "path"` [`as` name], at `p`.
    fn parse_link(&self, p: usize) -> (res: Result<(Decl, usize), Fail>)
        requires
            self.wf(),
            p < self.tokens.len(),
        ensures
            decl_res(link_decl(self.ts(), p as int), res, p as int, self.tokens.len() as int),
    {
        if p + 1 >= self.tokens.len() {
            return Err(self.end_error());
        }
        let path = match &self.tokens[p + 1] {
            Token::String(s) => s.clone(),
            t => {
                proof {
                    reveal_strlit("string");
                }
                return Err(self.expected_error("string", t));
            },
        };
        if self.is_kind_at(p + 2, &Token::As) {
            if p + 3 >= self.tokens.len() {
                return Err(self.end_error());
            }
            match &self.tokens[p + 3] {
                Token::Identifier(a) => Ok((Decl::Link { path, alias: Some(a.clone()) }, p + 4)),
                t => {
                    proof {
                        reveal_strlit("identifier");
                    }
                    Err(self.expected_error("identifier", t))
                },
            }
        } else {
            Ok((Decl::Link { path, alias: None }, p + 2))
        }
    }

    /// `parse_item`: a declaration or a statement, at `p`.
    fn parse_item(&self, p: usize) -> (res: Result<(Item, usize), Fail>)
        requires
            self.wf(),
            p < self.tokens.len(),
        ensures
            match res {
                Ok((it, q)) => item(self.ts(), p as int) == Ok::<(SItem, int), SErr>(
                    (item_view(it), q as int),
                ) && p < q <= self.tokens.len(),
                Err(f) => item(self.ts(), p as int) == err_of::<(SItem, int)>(f) && fail_line_ok(f),
            },
    {
        if self.is_kind_at(p, &Token::Link) {
            match self.parse_link(p) {
                Ok((d, q)) => Ok((Item::Decl(d), q)),
                Err(f) => Err(f),
            }
        } else if self.is_kind_at(p, &Token::Proc) {
            match self.parse_proc(p) {
                Ok((d, q)) => Ok((Item::Decl(d), q)),
                Err(f) => Err(f),
            }
        } else if self.is_kind_at(p, &Token::Form) {
            match self.parse_form(p) {
                Ok((d, q)) => Ok((Item::Decl(d), q)),
                Err(f) => Err(f),
            }
        } else {
            match self.parse_stmt(p) {
                Ok((s, q)) => Ok((Item::Stmt(s), q)),
                Err(f) => Err(f),
            }
        }
    }

    /// Items from `p` to the end of the tokens.
    fn parse_items(&self, p: usize) -> (res: Result<Vec<Item>, Fail>)
        requires
            self.wf(),
            p <= self.tokens.len(),
        ensures
            match res {
                Ok(its) => items(self.ts(), Seq::empty(), p as int) == Ok::<Seq<SItem>, SErr>(
                    items_view(its@),
                ),
                Err(f) => items(self.ts(), Seq::empty(), p as int) == err_of::<Seq<SItem>>(f)
                    && fail_line_ok(f),
            },
    {
        let mut acc: Vec<Item> = Vec::new();
        let mut q = p;
        assert(items_view(acc@) =~= Seq::<SItem>::empty());
        loop
            invariant
                self.wf(),
                p <= q <= self.tokens.len(),
                items(self.ts(), items_view(acc@), q as int) == items(
                    self.ts(),
                    Seq::empty(),
                    p as int,
                ),
            decreases self.tokens.len() - q,
        {
            if q >= self.tokens.len() {
                return Ok(acc);
            }
            match self.parse_item(q) {
                Ok((it, q1)) => {
                    assert(items_view(acc@.push(it)) =~= items_view(acc@).push(item_view(it)));
                    acc.push(it);
                    q = q1;
                },
                Err(f) => {
                    return Err(f);
                },
            }
        }
    }

    /// Parses the program from the current position, or gives `None` where
    /// the input ends inside a `form` (the grammar's [`SErr::Crash`]).
    pub fn try_parse(&mut self) -> (res: Option<Result<Program, ParseError>>)
        requires
            old(self).wf(),
        ensures
            final(self).wf(),
            final(self).token_kinds() == old(self).token_kinds(),
            match res {
                None => items(old(self).token_kinds(), Seq::empty(), old(self).position())
                    == Err::<Seq<SItem>, SErr>(SErr::Crash),
                Some(Ok(prog)) => items(old(self).token_kinds(), Seq::empty(), old(self).position())
                    == Ok::<Seq<SItem>, SErr>(items_view(prog.items@)) && final(self).position()
                    == old(self).token_kinds().len(),
                Some(Err(e)) => items(old(self).token_kinds(), Seq::empty(), old(self).position())
                    == Err::<Seq<SItem>, SErr>(e.kind()) && e.line_number() == 1
                    && final(self).position() == old(self).position(),
            },
    {
        match self.parse_items(self.pos) {
            Ok(its) => {
                self.pos = self.tokens.len();
                Some(Ok(Program { items: its }))
            },
            Err(Fail::Error(e)) => Some(Err(e)),
            Err(Fail::Crash) => None,
        }
    }

    /// `parse`: the whole program from the current position. The input must
    /// not end inside a `form` (see [`Parser::try_parse`]).
    pub fn parse(&mut self) -> (res: Result<Program, ParseError>)
        requires
            old(self).wf(),
            items(old(self).token_kinds(), Seq::empty(), old(self).position()) != Err::<
                Seq<SItem>,
                SErr,
            >(SErr::Crash),
        ensures
            final(self).wf(),
            final(self).token_kinds() == old(self).token_kinds(),
            match res {
                Ok(prog) => items(old(self).token_kinds(), Seq::empty(), old(self).position())
                    == Ok::<Seq<SItem>, SErr>(items_view(prog.items@)) && final(self).position()
                    == old(self).token_kinds().len(),
                Err(e) => items(old(self).token_kinds(), Seq::empty(), old(self).position())
                    == Err::<Seq<SItem>, SErr>(e.kind()) && e.line_number() == 1,
            },
    {
        match self.try_parse() {
            Some(r) => r,
            None => Err(ParseError::InvalidLValue { line: 1 }),
        }
    }
}


/// The derived `Debug` text of a token.
pub open spec fn token_debug(t: Tok) -> Seq<Chunk> {
    match t {
        Tok::Whole(n) => text_chunk("Whole("@ + int_text(n as int) + ")"@),
        Tok::Fraction(b) => text_chunk("Fraction("@) + seq![Chunk::FractionDebug(b)] + text_chunk(
            ")"@,
        ),
        Tok::Str(s) => text_chunk("String("@ + str_debug(s) + ")"@),
        Tok::Identifier(s) => text_chunk("Identifier("@ + str_debug(s) + ")"@),
        _ => text_chunk(unit_debug(t)),
    }
}

/// The message of a parse error, as its `Display` shows it.
pub open spec fn parse_error_chunks(line: nat, e: SErr) -> Seq<Chunk> {
    let head = "[строка "@ + nat_text(line) + "] "@;
    match e {
        SErr::Unexpected(t) => text_chunk(head + "Неожиданный токен: "@) + token_debug(t),
        SErr::Expected(x, t) => text_chunk(head + "Ожидалось "@ + x + ", найдено "@) + token_debug(
            t,
        ),
        SErr::InvalidLValue => text_chunk(head + "Некорректное выражение слева от присваивания"@),
        _ => Seq::empty(),
    }
}

fn token_debug_pieces(t: &Token) -> (res: Vec<Piece>)
    ensures
        chunks(res@) == token_debug(t@),
{
    match t {
        Token::Whole(n) => {
            let a = concat("Whole(", int_to_string(*n).as_str());
            text_piece(concat(a.as_str(), ")").as_str())
        },
        Token::Fraction(b) => {
            let mut v = text_piece("Fraction(");
            let mut f: Vec<Piece> = Vec::new();
            f.push(Piece::FractionDebug(*b));
            assert(chunks(f@) =~= seq![Chunk::FractionDebug(*b)]);
            append_pieces(&mut v, f);
            append_pieces(&mut v, text_piece(")"));
            v
        },
        Token::String(s) => {
            let a = concat("String(", debug_string(s.as_str()).as_str());
            text_piece(concat(a.as_str(), ")").as_str())
        },
        Token::Identifier(s) => {
            let a = concat("Identifier(", debug_string(s.as_str()).as_str());
            text_piece(concat(a.as_str(), ")").as_str())
        },
        _ => {
            let u = unit_debug_text(t);
            text_piece(u.as_str())
        },
    }
}

impl ParseError {
    /// The error's message, as its `Display` shows it; a fraction token in it
    /// is left to the host to render.
    pub fn message_pieces(&self) -> (res: Vec<Piece>)
        ensures
            chunks(res@) == parse_error_chunks(self.line_number() as nat, self.kind()),
    {
        let line = string_from_chars(nat_digits(self.line_number_exec() as u64).as_slice());
        let head = concat(concat("[строка ", line.as_str()).as_str(), "] ");
        match self {
            ParseError::UnexpectedToken { token, .. } => {
                let mut v = text_piece(concat(head.as_str(), "Неожиданный токен: ").as_str());
                append_pieces(&mut v, token_debug_pieces(token));
                v
            },
            ParseError::Expected { expected, found, .. } => {
                let a = concat(concat(head.as_str(), "Ожидалось ").as_str(), expected.as_str());
                let mut v = text_piece(concat(a.as_str(), ", найдено ").as_str());
                append_pieces(&mut v, token_debug_pieces(found));
                v
            },
            ParseError::InvalidLValue { .. } => text_piece(
                concat(head.as_str(), "Некорректное выражение слева от присваивания").as_str(),
            ),
        }
    }

    fn line_number_exec(&self) -> (res: usize)
        ensures
            res == self.line_number(),
    {
        match self {
            ParseError::UnexpectedToken { line, .. } => *line,
            ParseError::Expected { line, .. } => *line,
            ParseError::InvalidLValue { line } => *line,
        }
    }
}

} // verus!
