//! The abstract syntax of BudL contracts: storage fields, struct
//! declarations, functions, statements and expressions.

use vstd::prelude::*;

verus! {

/// A contract: its name, storage fields, struct declarations and functions.
#[derive(Debug, Clone)]
pub struct Contract {
    pub name: String,
    pub storage: Vec<StorageField>,
    pub structs: Vec<Struct>,
    pub functions: Vec<Function>,
}

/// A named, typed storage field (also a struct field).
#[derive(Debug, Clone)]
pub struct StorageField {
    pub name: String,
    pub ty: String,
}

/// A function: its name, parameters, return type, body and visibility.
#[derive(Debug, Clone)]
pub struct Function {
    pub name: String,
    pub params: Vec<Param>,
    pub return_type: Option<String>,
    pub body: Vec<Stmt>,
    pub is_pub: bool,
}

/// A named, typed parameter.
#[derive(Debug, Clone)]
pub struct Param {
    pub name: String,
    pub ty: String,
}

/// A statement.
#[derive(Debug)]
pub enum Stmt {
    Let(String, Expr),
    Constrain(Expr),
    Assign(String, Expr),
    StorageWrite(String, Expr),
    MappingWrite(String, Expr, Expr),
    If(Expr, Vec<Stmt>, Option<Vec<Stmt>>),
    While(Expr, Vec<Stmt>),
    For { var: String, start: Expr, end: Expr, body: Vec<Stmt> },
    Return(Option<Expr>),
    Emit(String, Vec<Expr>),
    Expr(Expr),
}

/// A struct declaration.
#[derive(Debug, Clone)]
pub struct Struct {
    pub name: String,
    pub fields: Vec<StorageField>,
}

/// An expression.
#[derive(Debug)]
pub enum Expr {
    Int(u64),
    Ident(String),
    StorageRead(String),
    MappingRead(String, Box<Expr>),
    FieldAccess(Box<Expr>, String),
    StructLiteral(String, Vec<(String, Expr)>),
    Binary(Box<Expr>, BinOp, Box<Expr>),
    Call(String, Vec<Expr>),
}

/// A binary operator.
#[derive(Debug, Clone, Copy, PartialEq, Eq, Structural)]
pub enum BinOp {
    Add,
    Sub,
    Mul,
    Div,
    Eq,
    Neq,
    Lt,
    Gt,
    Lte,
    Gte,
}

/// Two expressions are the same tree: the same variants with the same
/// names, numbers and operators throughout.
pub open spec fn expr_eq(a: Expr, b: Expr) -> bool
    decreases a,
{
    match a {
        Expr::Int(n) => b == Expr::Int(n),
        Expr::Ident(s) => b == Expr::Ident(s),
        Expr::StorageRead(s) => b == Expr::StorageRead(s),
        Expr::MappingRead(s, e) => b matches Expr::MappingRead(t, f) && s == t && expr_eq(*e, *f),
        Expr::FieldAccess(e, s) => b matches Expr::FieldAccess(f, t) && s == t && expr_eq(*e, *f),
        Expr::StructLiteral(name, fields) => b matches Expr::StructLiteral(name2, fields2) && name
            == name2 && fields_eq(fields@, fields2@),
        Expr::Binary(l, op, r) => b matches Expr::Binary(l2, op2, r2) && op == op2 && expr_eq(*l, *l2)
            && expr_eq(*r, *r2),
        Expr::Call(name, args) => b matches Expr::Call(name2, args2) && name == name2 && exprs_eq(
            args@,
            args2@,
        ),
    }
}

/// Two sequences of expressions are the same trees, entry by entry.
pub open spec fn exprs_eq(a: Seq<Expr>, b: Seq<Expr>) -> bool
    decreases a,
{
    if a.len() == 0 {
        b.len() == 0
    } else {
        b.len() > 0 && exprs_eq(a.drop_last(), b.drop_last()) && expr_eq(a.last(), b.last())
    }
}

/// Two sequences of named expressions have the same names and the same
/// trees, entry by entry.
pub open spec fn fields_eq(a: Seq<(String, Expr)>, b: Seq<(String, Expr)>) -> bool
    decreases a,
{
    if a.len() == 0 {
        b.len() == 0
    } else {
        b.len() > 0 && fields_eq(a.drop_last(), b.drop_last()) && a.last().0 == b.last().0
            && expr_eq(a.last().1, b.last().1)
    }
}

impl Clone for Expr {
    fn clone(&self) -> (r: Expr)
        ensures
            expr_eq(*self, r),
        decreases self,
    {
        match self {
            Expr::Int(n) => Expr::Int(*n),
            Expr::Ident(s) => Expr::Ident(s.clone()),
            Expr::StorageRead(s) => Expr::StorageRead(s.clone()),
            Expr::MappingRead(s, e) => Expr::MappingRead(s.clone(), Box::new((**e).clone())),
            Expr::FieldAccess(e, s) => Expr::FieldAccess(Box::new((**e).clone()), s.clone()),
            Expr::StructLiteral(name, fields) => {
                let mut out: Vec<(String, Expr)> = Vec::new();
                for i in 0..fields.len()
                    invariant
                        self is StructLiteral && *fields == self->StructLiteral_1,
                        fields_eq(fields@.subrange(0, i as int), out@),
                {
                    proof {
                        assert(*fields == self->StructLiteral_1);
                        assert(decreases_to!(self => self->StructLiteral_1));
                        assert(decreases_to!(*fields => fields@));
                        assert(decreases_to!(fields@ => fields@[i as int]));
                        assert(decreases_to!(self => fields@[i as int].1));
                    }
                    let key = fields[i].0.clone();
                    let value = fields[i].1.clone();
                    let ghost before = out@;
                    out.push((key, value));
                    proof {
                        let s = fields@.subrange(0, i + 1);
                        assert(s.drop_last() =~= fields@.subrange(0, i as int));
                        assert(out@.drop_last() =~= before);
                    }
                }
                proof {
                    assert(fields@.subrange(0, fields@.len() as int) =~= fields@);
                }
                Expr::StructLiteral(name.clone(), out)
            },
            Expr::Binary(l, op, r) => Expr::Binary(Box::new((**l).clone()), *op, Box::new((**r).clone())),
            Expr::Call(name, args) => {
                let mut out: Vec<Expr> = Vec::new();
                for i in 0..args.len()
                    invariant
                        self is Call && *args == self->Call_1,
                        exprs_eq(args@.subrange(0, i as int), out@),
                {
                    proof {
                        assert(*args == self->Call_1);
                        assert(decreases_to!(self => self->Call_1));
                        assert(decreases_to!(*args => args@));
                        assert(decreases_to!(self => args@[i as int]));
                    }
                    let arg = args[i].clone();
                    let ghost before = out@;
                    out.push(arg);
                    proof {
                        let s = args@.subrange(0, i + 1);
                        assert(s.drop_last() =~= args@.subrange(0, i as int));
                        assert(out@.drop_last() =~= before);
                    }
                }
                proof {
                    assert(args@.subrange(0, args@.len() as int) =~= args@);
                }
                Expr::Call(name.clone(), out)
            },
        }
    }
}

/// Two statements are the same tree: the same variants with the same
/// names and the same expressions and bodies throughout.
pub open spec fn stmt_eq(a: Stmt, b: Stmt) -> bool
    decreases a,
{
    match a {
        Stmt::Let(n, e) => b matches Stmt::Let(n2, e2) && n == n2 && expr_eq(e, e2),
        Stmt::Constrain(e) => b matches Stmt::Constrain(e2) && expr_eq(e, e2),
        Stmt::Assign(n, e) => b matches Stmt::Assign(n2, e2) && n == n2 && expr_eq(e, e2),
        Stmt::StorageWrite(n, e) => b matches Stmt::StorageWrite(n2, e2) && n == n2 && expr_eq(e, e2),
        Stmt::MappingWrite(n, k, v) => b matches Stmt::MappingWrite(n2, k2, v2) && n == n2 && expr_eq(
            k,
            k2,
        ) && expr_eq(v, v2),
        Stmt::If(c, t, e) => b matches Stmt::If(c2, t2, e2) && expr_eq(c, c2) && stmts_eq(t@, t2@) && (
        match e {
            Some(body) => e2 matches Some(body2) && stmts_eq(body@, body2@),
            None => e2 is None,
        }),
        Stmt::While(c, body) => b matches Stmt::While(c2, body2) && expr_eq(c, c2) && stmts_eq(
            body@,
            body2@,
        ),
        Stmt::For { var, start, end, body } => b matches Stmt::For {
            var: var2,
            start: start2,
            end: end2,
            body: body2,
        } && var == var2 && expr_eq(start, start2) && expr_eq(end, end2) && stmts_eq(body@, body2@),
        Stmt::Return(e) => b matches Stmt::Return(e2) && match e {
            Some(x) => e2 matches Some(x2) && expr_eq(x, x2),
            None => e2 is None,
        },
        Stmt::Emit(n, args) => b matches Stmt::Emit(n2, args2) && n == n2 && exprs_eq(args@, args2@),
        Stmt::Expr(e) => b matches Stmt::Expr(e2) && expr_eq(e, e2),
    }
}

/// Two sequences of statements are the same trees, entry by entry.
pub open spec fn stmts_eq(a: Seq<Stmt>, b: Seq<Stmt>) -> bool
    decreases a,
{
    if a.len() == 0 {
        b.len() == 0
    } else {
        b.len() > 0 && stmts_eq(a.drop_last(), b.drop_last()) && stmt_eq(a.last(), b.last())
    }
}

impl Clone for Stmt {
    fn clone(&self) -> (r: Stmt)
        ensures
            stmt_eq(*self, r),
        decreases self,
    {
        match self {
            Stmt::Let(name, e) => Stmt::Let(name.clone(), e.clone()),
            Stmt::Constrain(e) => Stmt::Constrain(e.clone()),
            Stmt::Assign(name, e) => Stmt::Assign(name.clone(), e.clone()),
            Stmt::StorageWrite(name, e) => Stmt::StorageWrite(name.clone(), e.clone()),
            Stmt::MappingWrite(name, k, v) => Stmt::MappingWrite(name.clone(), k.clone(), v.clone()),
            Stmt::If(c, then_body, else_body) => {
                let mut then_out: Vec<Stmt> = Vec::new();
                for i in 0..then_body.len()
                    invariant
                        self is If && *then_body == self->If_1,
                        stmts_eq(then_body@.subrange(0, i as int), then_out@),
                {
                    proof {
                        assert(*then_body == self->If_1);
                        assert(decreases_to!(self => self->If_1));
                        assert(decreases_to!(*then_body => then_body@));
                        assert(decreases_to!(self => then_body@[i as int]));
                    }
                    let st = then_body[i].clone();
                    let ghost before = then_out@;
                    then_out.push(st);
                    proof {
                        assert(then_body@.subrange(0, i + 1).drop_last() =~= then_body@.subrange(0, i as int));
                        assert(then_out@.drop_last() =~= before);
                    }
                }
                proof {
                    assert(then_body@.subrange(0, then_body@.len() as int) =~= then_body@);
                }
                let else_out = match else_body {
                    Some(body) => {
                        let mut out: Vec<Stmt> = Vec::new();
                        for i in 0..body.len()
                            invariant
                                self is If && self->If_2 == Some(*body),
                                stmts_eq(body@.subrange(0, i as int), out@),
                        {
                            proof {
                                assert(self->If_2 == Some(*body));
                                assert(decreases_to!(self => self->If_2));
                                assert(decreases_to!(self->If_2 => self->If_2->0));
                                assert(decreases_to!(*body => body@));
                                assert(decreases_to!(self => body@[i as int]));
                            }
                            let st = body[i].clone();
                            let ghost before = out@;
                            out.push(st);
                            proof {
                                assert(body@.subrange(0, i + 1).drop_last() =~= body@.subrange(0, i as int));
                                assert(out@.drop_last() =~= before);
                            }
                        }
                        proof {
                            assert(body@.subrange(0, body@.len() as int) =~= body@);
                        }
                        Some(out)
                    },
                    None => None,
                };
                Stmt::If(c.clone(), then_out, else_out)
            },
            Stmt::While(c, body) => {
                let mut out: Vec<Stmt> = Vec::new();
                for i in 0..body.len()
                    invariant
                        self is While && *body == self->While_1,
                        stmts_eq(body@.subrange(0, i as int), out@),
                {
                    proof {
                        assert(*body == self->While_1);
                        assert(decreases_to!(self => self->While_1));
                        assert(decreases_to!(*body => body@));
                        assert(decreases_to!(self => body@[i as int]));
                    }
                    let st = body[i].clone();
                    let ghost before = out@;
                    out.push(st);
                    proof {
                        assert(body@.subrange(0, i + 1).drop_last() =~= body@.subrange(0, i as int));
                        assert(out@.drop_last() =~= before);
                    }
                }
                proof {
                    assert(body@.subrange(0, body@.len() as int) =~= body@);
                }
                Stmt::While(c.clone(), out)
            },
            Stmt::For { var, start, end, body } => {
                let mut out: Vec<Stmt> = Vec::new();
                for i in 0..body.len()
                    invariant
                        self is For && *body == self->body,
                        stmts_eq(body@.subrange(0, i as int), out@),
                {
                    proof {
                        assert(*body == self->body);
                        assert(decreases_to!(self => self->body));
                        assert(decreases_to!(*body => body@));
                        assert(decreases_to!(self => body@[i as int]));
                    }
                    let st = body[i].clone();
                    let ghost before = out@;
                    out.push(st);
                    proof {
                        assert(body@.subrange(0, i + 1).drop_last() =~= body@.subrange(0, i as int));
                        assert(out@.drop_last() =~= before);
                    }
                }
                proof {
                    assert(body@.subrange(0, body@.len() as int) =~= body@);
                }
                Stmt::For { var: var.clone(), start: start.clone(), end: end.clone(), body: out }
            },
            Stmt::Return(e) => Stmt::Return(
                match e {
                    Some(x) => Some(x.clone()),
                    None => None,
                },
            ),
            Stmt::Emit(name, args) => {
                let mut out: Vec<Expr> = Vec::new();
                for i in 0..args.len()
                    invariant
                        exprs_eq(args@.subrange(0, i as int), out@),
                {
                    let arg = args[i].clone();
                    let ghost before = out@;
                    out.push(arg);
                    proof {
                        assert(args@.subrange(0, i + 1).drop_last() =~= args@.subrange(0, i as int));
                        assert(out@.drop_last() =~= before);
                    }
                }
                proof {
                    assert(args@.subrange(0, args@.len() as int) =~= args@);
                }
                Stmt::Emit(name.clone(), out)
            },
            Stmt::Expr(e) => Stmt::Expr(e.clone()),
        }
    }
}

} // verus!
