//! The syntax tree of Side programs.

use vstd::prelude::*;
use crate::value::{Value, VVal};

verus! {

/// A whole program: declarations and statements in order.
pub struct Program {
    pub items: Vec<Item>,
}

pub enum Item {
    Decl(Decl),
    Stmt(Stmt),
}

pub enum Decl {
    /// `link "path" as alias`
    Link { path: String, alias: Option<String> },
    /// `proc name(params) start ... end`
    Proc { name: String, params: Vec<String>, body: Vec<Stmt> },
    /// `form name start fields end`
    Form { name: String, fields: Vec<FieldDecl> },
}

/// A field of a `form`: `set name = initial` or `fix name`.
pub struct FieldDecl {
    pub name: String,
    pub mutable: bool,
    pub initial: Option<Expr>,
}

pub enum Stmt {
    /// `set name = value` (mutable) or `fix name = value`.
    SetVar { name: String, value: Expr, mutable: bool },
    Assign { target: Expr, value: Expr },
    Log(Expr),
    If { condition: Expr, then_block: Vec<Stmt>, else_block: Option<Vec<Stmt>> },
    Loop { condition: Expr, body: Vec<Stmt> },
    Break,
    Wait(Expr),
    Return(Option<Expr>),
    Trap { try_block: Vec<Stmt>, catch_block: Vec<Stmt> },
    ExprStmt(Expr),
}

pub enum Expr {
    Literal(Value),
    List(Vec<Expr>),
    Variable(String),
    Binary { left: Box<Expr>, op: BinOp, right: Box<Expr> },
    Unary { op: UnOp, expr: Box<Expr> },
    Call { name: String, args: Vec<Expr> },
    Field { object: Box<Expr>, field: String },
    Index { object: Box<Expr>, index: Box<Expr> },
    New { name: String },
    Entry { prompt: Option<Box<Expr>> },
}

#[derive(Clone, Copy, PartialEq, Eq, Structural)]
pub enum BinOp {
    Add,
    Sub,
    Mul,
    Div,
    Rem,
    Eq,
    Ne,
    Lt,
    Le,
    Gt,
    Ge,
    And,
    Or,
}

#[derive(Clone, Copy, PartialEq, Eq, Structural)]
pub enum UnOp {
    Not,
}

// ------------------------------------------------------------ mathematical trees

pub enum SExpr {
    Literal(VVal),
    List(Seq<SExpr>),
    Variable(Seq<char>),
    Binary(Box<SExpr>, BinOp, Box<SExpr>),
    Unary(UnOp, Box<SExpr>),
    Call(Seq<char>, Seq<SExpr>),
    Field(Box<SExpr>, Seq<char>),
    Index(Box<SExpr>, Box<SExpr>),
    New(Seq<char>),
    Entry(Option<Box<SExpr>>),
}

pub enum SStmt {
    SetVar(Seq<char>, SExpr, bool),
    Assign(SExpr, SExpr),
    Log(SExpr),
    If(SExpr, Seq<SStmt>, Option<Seq<SStmt>>),
    Loop(SExpr, Seq<SStmt>),
    Break,
    Wait(SExpr),
    Return(Option<SExpr>),
    Trap(Seq<SStmt>, Seq<SStmt>),
    ExprStmt(SExpr),
}

pub struct SField {
    pub name: Seq<char>,
    pub mutable: bool,
    pub initial: Option<SExpr>,
}

pub enum SDecl {
    Link(Seq<char>, Option<Seq<char>>),
    Proc(Seq<char>, Seq<Seq<char>>, Seq<SStmt>),
    Form(Seq<char>, Seq<SField>),
}

pub enum SItem {
    Decl(SDecl),
    Stmt(SStmt),
}

pub open spec fn expr_view(e: Expr) -> SExpr
    decreases e, 0nat,
{
    match e {
        Expr::Literal(v) => SExpr::Literal(v@),
        Expr::List(es) => SExpr::List(exprs_view(es@)),
        Expr::Variable(n) => SExpr::Variable(n@),
        Expr::Binary { left, op, right } => SExpr::Binary(
            Box::new(expr_view(*left)),
            op,
            Box::new(expr_view(*right)),
        ),
        Expr::Unary { op, expr } => SExpr::Unary(op, Box::new(expr_view(*expr))),
        Expr::Call { name, args } => SExpr::Call(name@, exprs_view(args@)),
        Expr::Field { object, field } => SExpr::Field(Box::new(expr_view(*object)), field@),
        Expr::Index { object, index } => SExpr::Index(
            Box::new(expr_view(*object)),
            Box::new(expr_view(*index)),
        ),
        Expr::New { name } => SExpr::New(name@),
        Expr::Entry { prompt } => SExpr::Entry(
            match prompt {
                Some(p) => Some(Box::new(expr_view(*p))),
                None => None,
            },
        ),
    }
}

pub open spec fn exprs_view(es: Seq<Expr>) -> Seq<SExpr>
    decreases es, es.len(),
{
    if es.len() == 0 {
        Seq::empty()
    } else {
        exprs_view(es.drop_last()).push(expr_view(es.last()))
    }
}

pub open spec fn stmt_view(s: Stmt) -> SStmt
    decreases s, 0nat,
{
    match s {
        Stmt::SetVar { name, value, mutable } => SStmt::SetVar(name@, expr_view(value), mutable),
        Stmt::Assign { target, value } => SStmt::Assign(expr_view(target), expr_view(value)),
        Stmt::Log(e) => SStmt::Log(expr_view(e)),
        Stmt::If { condition, then_block, else_block } => SStmt::If(
            expr_view(condition),
            stmts_view(then_block@),
            match else_block {
                Some(b) => Some(stmts_view(b@)),
                None => None,
            },
        ),
        Stmt::Loop { condition, body } => SStmt::Loop(expr_view(condition), stmts_view(body@)),
        Stmt::Break => SStmt::Break,
        Stmt::Wait(e) => SStmt::Wait(expr_view(e)),
        Stmt::Return(e) => SStmt::Return(
            match e {
                Some(x) => Some(expr_view(x)),
                None => None,
            },
        ),
        Stmt::Trap { try_block, catch_block } => SStmt::Trap(
            stmts_view(try_block@),
            stmts_view(catch_block@),
        ),
        Stmt::ExprStmt(e) => SStmt::ExprStmt(expr_view(e)),
    }
}

pub open spec fn stmts_view(ss: Seq<Stmt>) -> Seq<SStmt>
    decreases ss, ss.len(),
{
    if ss.len() == 0 {
        Seq::empty()
    } else {
        stmts_view(ss.drop_last()).push(stmt_view(ss.last()))
    }
}

pub open spec fn names_view(ns: Seq<String>) -> Seq<Seq<char>> {
    ns.map_values(|n: String| n@)
}

pub open spec fn field_decl_view(f: FieldDecl) -> SField {
    SField {
        name: f.name@,
        mutable: f.mutable,
        initial: match f.initial {
            Some(e) => Some(expr_view(e)),
            None => None,
        },
    }
}

pub open spec fn field_decls_view(fs: Seq<FieldDecl>) -> Seq<SField> {
    fs.map_values(|f: FieldDecl| field_decl_view(f))
}

pub open spec fn decl_view(d: Decl) -> SDecl {
    match d {
        Decl::Link { path, alias } => SDecl::Link(
            path@,
            match alias {
                Some(a) => Some(a@),
                None => None,
            },
        ),
        Decl::Proc { name, params, body } => SDecl::Proc(
            name@,
            names_view(params@),
            stmts_view(body@),
        ),
        Decl::Form { name, fields } => SDecl::Form(name@, field_decls_view(fields@)),
    }
}

pub open spec fn item_view(i: Item) -> SItem {
    match i {
        Item::Decl(d) => SItem::Decl(decl_view(d)),
        Item::Stmt(s) => SItem::Stmt(stmt_view(s)),
    }
}

pub open spec fn items_view(is: Seq<Item>) -> Seq<SItem> {
    is.map_values(|i: Item| item_view(i))
}

pub proof fn lemma_exprs_view_push(es: Seq<Expr>, e: Expr)
    ensures
        exprs_view(es.push(e)) == exprs_view(es).push(expr_view(e)),
{
    assert(es.push(e).drop_last() =~= es);
}

pub proof fn lemma_stmts_view_push(ss: Seq<Stmt>, s: Stmt)
    ensures
        stmts_view(ss.push(s)) == stmts_view(ss).push(stmt_view(s)),
{
    assert(ss.push(s).drop_last() =~= ss);
}

pub proof fn lemma_exprs_view_empty()
    ensures
        exprs_view(Seq::<Expr>::empty()) == Seq::<SExpr>::empty(),
{
}

pub proof fn lemma_exprs_view(es: Seq<Expr>)
    ensures
        exprs_view(es).len() == es.len(),
        forall|i: int| 0 <= i < es.len() ==> #[trigger] exprs_view(es)[i] == expr_view(es[i]),
    decreases es.len(),
{
    if es.len() > 0 {
        lemma_exprs_view(es.drop_last());
    }
}

pub proof fn lemma_stmts_view(ss: Seq<Stmt>)
    ensures
        stmts_view(ss).len() == ss.len(),
        forall|i: int| 0 <= i < ss.len() ==> #[trigger] stmts_view(ss)[i] == stmt_view(ss[i]),
    decreases ss.len(),
{
    if ss.len() > 0 {
        lemma_stmts_view(ss.drop_last());
    }
}

pub proof fn lemma_exprs_view_take(es: Seq<Expr>, n: int)
    requires
        0 < n <= es.len(),
    ensures
        exprs_view(es.take(n)) == exprs_view(es.take(n - 1)).push(expr_view(es[n - 1])),
{
    assert(es.take(n).drop_last() =~= es.take(n - 1));
}

pub proof fn lemma_stmts_view_take(ss: Seq<Stmt>, n: int)
    requires
        0 < n <= ss.len(),
    ensures
        stmts_view(ss.take(n)) == stmts_view(ss.take(n - 1)).push(stmt_view(ss[n - 1])),
{
    assert(ss.take(n).drop_last() =~= ss.take(n - 1));
}

impl Expr {
    /// A copy of the expression.
    pub fn copy(&self) -> (res: Expr)
        ensures
            expr_view(res) == expr_view(*self),
        decreases *self, 0nat,
    {
        match self {
            Expr::Literal(v) => Expr::Literal(v.copy()),
            Expr::List(es) => {
                let c = Expr::copy_all(es, es.len());
                assert(es@.take(es.len() as int) =~= es@);
                Expr::List(c)
            },
            Expr::Variable(n) => Expr::Variable(n.clone()),
            Expr::Binary { left, op, right } => Expr::Binary {
                left: Box::new((**left).copy()),
                op: *op,
                right: Box::new((**right).copy()),
            },
            Expr::Unary { op, expr } => Expr::Unary { op: *op, expr: Box::new((**expr).copy()) },
            Expr::Call { name, args } => {
                let c = Expr::copy_all(args, args.len());
                assert(args@.take(args.len() as int) =~= args@);
                Expr::Call { name: name.clone(), args: c }
            },
            Expr::Field { object, field } => Expr::Field {
                object: Box::new((**object).copy()),
                field: field.clone(),
            },
            Expr::Index { object, index } => Expr::Index {
                object: Box::new((**object).copy()),
                index: Box::new((**index).copy()),
            },
            Expr::New { name } => Expr::New { name: name.clone() },
            Expr::Entry { prompt } => match prompt {
                Some(p) => Expr::Entry { prompt: Some(Box::new((**p).copy())) },
                None => Expr::Entry { prompt: None },
            },
        }
    }

    /// Copies of the first `n` expressions.
    pub fn copy_all(es: &Vec<Expr>, n: usize) -> (res: Vec<Expr>)
        requires
            n <= es.len(),
        ensures
            exprs_view(res@) == exprs_view(es@.take(n as int)),
        decreases es@, n,
    {
        if n == 0 {
            let v: Vec<Expr> = Vec::new();
            assert(exprs_view(v@) =~= exprs_view(es@.take(0)));
            v
        } else {
            let mut v = Expr::copy_all(es, n - 1);
            let c = es[n - 1].copy();
            proof {
                lemma_exprs_view_push(v@, c);
                lemma_exprs_view_take(es@, n as int);
            }
            v.push(c);
            v
        }
    }
}

impl Stmt {
    /// A copy of the statement.
    pub fn copy(&self) -> (res: Stmt)
        ensures
            stmt_view(res) == stmt_view(*self),
        decreases *self, 0nat,
    {
        match self {
            Stmt::SetVar { name, value, mutable } => Stmt::SetVar {
                name: name.clone(),
                value: value.copy(),
                mutable: *mutable,
            },
            Stmt::Assign { target, value } => Stmt::Assign { target: target.copy(), value: value.copy() },
            Stmt::Log(e) => Stmt::Log(e.copy()),
            Stmt::If { condition, then_block, else_block } => {
                let t = Stmt::copy_all(then_block, then_block.len());
                assert(then_block@.take(then_block.len() as int) =~= then_block@);
                let e = match else_block {
                    Some(b) => {
                        let c = Stmt::copy_all(b, b.len());
                        assert(b@.take(b.len() as int) =~= b@);
                        Some(c)
                    },
                    None => None,
                };
                Stmt::If { condition: condition.copy(), then_block: t, else_block: e }
            },
            Stmt::Loop { condition, body } => {
                let b = Stmt::copy_all(body, body.len());
                assert(body@.take(body.len() as int) =~= body@);
                Stmt::Loop { condition: condition.copy(), body: b }
            },
            Stmt::Break => Stmt::Break,
            Stmt::Wait(e) => Stmt::Wait(e.copy()),
            Stmt::Return(e) => match e {
                Some(x) => Stmt::Return(Some(x.copy())),
                None => Stmt::Return(None),
            },
            Stmt::Trap { try_block, catch_block } => {
                let t = Stmt::copy_all(try_block, try_block.len());
                assert(try_block@.take(try_block.len() as int) =~= try_block@);
                let c = Stmt::copy_all(catch_block, catch_block.len());
                assert(catch_block@.take(catch_block.len() as int) =~= catch_block@);
                Stmt::Trap { try_block: t, catch_block: c }
            },
            Stmt::ExprStmt(e) => Stmt::ExprStmt(e.copy()),
        }
    }

    /// Copies of the first `n` statements.
    pub fn copy_all(ss: &Vec<Stmt>, n: usize) -> (res: Vec<Stmt>)
        requires
            n <= ss.len(),
        ensures
            stmts_view(res@) == stmts_view(ss@.take(n as int)),
        decreases ss@, n,
    {
        if n == 0 {
            let v: Vec<Stmt> = Vec::new();
            assert(stmts_view(v@) =~= stmts_view(ss@.take(0)));
            v
        } else {
            let mut v = Stmt::copy_all(ss, n - 1);
            let c = ss[n - 1].copy();
            proof {
                lemma_stmts_view_push(v@, c);
                lemma_stmts_view_take(ss@, n as int);
            }
            v.push(c);
            v
        }
    }

    /// A copy of a whole block.
    pub fn copy_block(ss: &Vec<Stmt>) -> (res: Vec<Stmt>)
        ensures
            stmts_view(res@) == stmts_view(ss@),
    {
        let r = Stmt::copy_all(ss, ss.len());
        assert(ss@.take(ss.len() as int) =~= ss@);
        r
    }
}

impl FieldDecl {
    pub fn copy(&self) -> (res: FieldDecl)
        ensures
            field_decl_view(res) == field_decl_view(*self),
    {
        FieldDecl {
            name: self.name.clone(),
            mutable: self.mutable,
            initial: match &self.initial {
                Some(e) => Some(e.copy()),
                None => None,
            },
        }
    }
}

impl Decl {
    pub fn copy(&self) -> (res: Decl)
        ensures
            decl_view(res) == decl_view(*self),
    {
        match self {
            Decl::Link { path, alias } => Decl::Link {
                path: path.clone(),
                alias: match alias {
                    Some(a) => Some(a.clone()),
                    None => None,
                },
            },
            Decl::Proc { name, params, body } => {
                let mut ps: Vec<String> = Vec::new();
                let mut i: usize = 0;
                while i < params.len()
                    invariant
                        0 <= i <= params.len(),
                        ps.len() == i,
                        forall|k: int| 0 <= k < i ==> #[trigger] ps@[k]@ == params@[k]@,
                    decreases params.len() - i,
                {
                    ps.push(params[i].clone());
                    i += 1;
                }
                assert(names_view(ps@) =~= names_view(params@));
                Decl::Proc { name: name.clone(), params: ps, body: Stmt::copy_block(body) }
            },
            Decl::Form { name, fields } => {
                let mut fs: Vec<FieldDecl> = Vec::new();
                let mut i: usize = 0;
                while i < fields.len()
                    invariant
                        0 <= i <= fields.len(),
                        fs.len() == i,
                        forall|k: int|
                            0 <= k < i ==> #[trigger] field_decl_view(fs@[k]) == field_decl_view(
                                fields@[k],
                            ),
                    decreases fields.len() - i,
                {
                    fs.push(fields[i].copy());
                    i += 1;
                }
                assert(field_decls_view(fs@) =~= field_decls_view(fields@));
                Decl::Form { name: name.clone(), fields: fs }
            },
        }
    }
}

} // verus!
