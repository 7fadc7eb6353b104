//! The arithmetic / let-binding dialect: AST node types, their ghost
//! mirror, the evaluation semantics, and text rendering.
use crate::text::signed_chars;
use crate::text::signed_string;
use vstd::prelude::*;

verus! {

/// An expression of the arithmetic dialect.
pub enum Expr {
    Value(i64),
    Add(AddExpr),
    Sub(SubExpr),
    Mul(MulExpr),
    Div(DivExpr),
    Var(String),
    Let(String, Box<Expr>),
    Paren(Box<Expr>),
}

pub struct AddExpr {
    pub left: Box<Expr>,
    pub right: Box<Expr>,
}

pub struct SubExpr {
    pub left: Box<Expr>,
    pub right: Box<Expr>,
}

pub struct MulExpr {
    pub left: Box<Expr>,
    pub right: Box<Expr>,
}

pub struct DivExpr {
    pub left: Box<Expr>,
    pub right: Box<Expr>,
}

/// Ghost mirror of `Expr`, with names as character sequences.
pub enum ExprV {
    Value(i64),
    Add(Box<ExprV>, Box<ExprV>),
    Sub(Box<ExprV>, Box<ExprV>),
    Mul(Box<ExprV>, Box<ExprV>),
    Div(Box<ExprV>, Box<ExprV>),
    Var(Seq<char>),
    Let(Seq<char>, Box<ExprV>),
    Paren(Box<ExprV>),
}

pub open spec fn expr_view(e: Expr) -> ExprV
    decreases e,
{
    match e {
        Expr::Value(n) => ExprV::Value(n),
        Expr::Add(b) => ExprV::Add(Box::new(expr_view(*b.left)), Box::new(expr_view(*b.right))),
        Expr::Sub(b) => ExprV::Sub(Box::new(expr_view(*b.left)), Box::new(expr_view(*b.right))),
        Expr::Mul(b) => ExprV::Mul(Box::new(expr_view(*b.left)), Box::new(expr_view(*b.right))),
        Expr::Div(b) => ExprV::Div(Box::new(expr_view(*b.left)), Box::new(expr_view(*b.right))),
        Expr::Var(n) => ExprV::Var(n@),
        Expr::Let(n, e1) => ExprV::Let(n@, Box::new(expr_view(*e1))),
        Expr::Paren(e1) => ExprV::Paren(Box::new(expr_view(*e1))),
    }
}

impl View for Expr {
    type V = ExprV;

    open spec fn view(&self) -> ExprV {
        expr_view(*self)
    }
}

/// A failure of evaluation: a variable read before any binding, or a
/// division whose divisor is zero (the one arithmetic fault; the
/// engine reports it instead of faulting the process).
pub enum EvalErr {
    UnknownVar(Seq<char>),
    DivByZero,
}

/// Truncating signed division (rounds toward zero), as the generated
/// native code divides.
pub open spec fn trunc_div(a: int, b: int) -> int
    recommends
        b != 0,
{
    if a >= 0 && b > 0 {
        a / b
    } else if a < 0 && b < 0 {
        (-a) / (-b)
    } else if a < 0 {
        -((-a) / b)
    } else {
        -(a / (-b))
    }
}

/// Division as the engine computes it on 64-bit words: truncating, with
/// the one overflowing quotient wrapping back to `i64::MIN`.
pub open spec fn div_wrap(a: i64, b: i64) -> i64
    recommends
        b != 0,
{
    if a == i64::MIN && b == -1 {
        i64::MIN
    } else {
        trunc_div(a as int, b as int) as i64
    }
}

/// Evaluation of an expression under an environment of bound locals.
///
/// Operands evaluate left to right and thread the environment forward,
/// exactly as the code generator lowers them; `Let` evaluates its operand
/// under the environment from before the binding, then rebinds. Arithmetic
/// is two's-complement wrapping, as the generated native code computes.
pub open spec fn eval_expr(e: ExprV, env: Map<Seq<char>, i64>) -> Result<
    (i64, Map<Seq<char>, i64>),
    EvalErr,
>
    decreases e,
{
    match e {
        ExprV::Value(n) => Ok((n, env)),
        ExprV::Add(l, r) => match eval_expr(*l, env) {
            Ok((a, env1)) => match eval_expr(*r, env1) {
                Ok((b, env2)) => Ok((a.wrapping_add(b), env2)),
                Err(er) => Err(er),
            },
            Err(er) => Err(er),
        },
        ExprV::Sub(l, r) => match eval_expr(*l, env) {
            Ok((a, env1)) => match eval_expr(*r, env1) {
                Ok((b, env2)) => Ok((a.wrapping_sub(b), env2)),
                Err(er) => Err(er),
            },
            Err(er) => Err(er),
        },
        ExprV::Mul(l, r) => match eval_expr(*l, env) {
            Ok((a, env1)) => match eval_expr(*r, env1) {
                Ok((b, env2)) => Ok((a.wrapping_mul(b), env2)),
                Err(er) => Err(er),
            },
            Err(er) => Err(er),
        },
        ExprV::Div(l, r) => match eval_expr(*l, env) {
            Ok((a, env1)) => match eval_expr(*r, env1) {
                Ok((b, env2)) => if b == 0 {
                    Err(EvalErr::DivByZero)
                } else {
                    Ok((div_wrap(a, b), env2))
                },
                Err(er) => Err(er),
            },
            Err(er) => Err(er),
        },
        ExprV::Var(n) => if env.contains_key(n) {
            Ok((env[n], env))
        } else {
            Err(EvalErr::UnknownVar(n))
        },
        ExprV::Let(n, e1) => match eval_expr(*e1, env) {
            Ok((v, env1)) => Ok((v, env1.insert(n, v))),
            Err(er) => Err(er),
        },
        ExprV::Paren(e1) => eval_expr(*e1, env),
    }
}

/// Evaluation of a statement sequence: statements run left to right,
/// each threading the environment forward; the result is the last
/// statement's value, or `last` for an empty sequence.
pub open spec fn eval_seq(es: Seq<ExprV>, env: Map<Seq<char>, i64>, last: i64) -> Result<
    (i64, Map<Seq<char>, i64>),
    EvalErr,
>
    decreases es.len(),
{
    if es.len() == 0 {
        Ok((last, env))
    } else {
        match eval_expr(es[0], env) {
            Ok((v, env1)) => eval_seq(es.drop_first(), env1, v),
            Err(er) => Err(er),
        }
    }
}

/// The display rendering of an expression, infix with spaced operators.
pub open spec fn expr_text(e: ExprV) -> Seq<char>
    decreases e,
{
    match e {
        ExprV::Value(n) => signed_chars(n as int),
        ExprV::Add(l, r) => expr_text(*l) + " + "@ + expr_text(*r),
        ExprV::Sub(l, r) => expr_text(*l) + " - "@ + expr_text(*r),
        ExprV::Mul(l, r) => expr_text(*l) + " * "@ + expr_text(*r),
        ExprV::Div(l, r) => expr_text(*l) + " / "@ + expr_text(*r),
        ExprV::Var(n) => n,
        ExprV::Let(n, e1) => "let "@ + n + " = "@ + expr_text(*e1),
        ExprV::Paren(e1) => "("@ + expr_text(*e1) + ")"@,
    }
}

/// The debug rendering: every binary node parenthesized, names quoted,
/// grouping nodes bracketed.
pub open spec fn expr_debug_text(e: ExprV) -> Seq<char>
    decreases e,
{
    match e {
        ExprV::Value(n) => signed_chars(n as int),
        ExprV::Add(l, r) => "("@ + expr_debug_text(*l) + " + "@ + expr_debug_text(*r) + ")"@,
        ExprV::Sub(l, r) => "("@ + expr_debug_text(*l) + " - "@ + expr_debug_text(*r) + ")"@,
        ExprV::Mul(l, r) => "("@ + expr_debug_text(*l) + " * "@ + expr_debug_text(*r) + ")"@,
        ExprV::Div(l, r) => "("@ + expr_debug_text(*l) + " / "@ + expr_debug_text(*r) + ")"@,
        ExprV::Var(n) => "\""@ + n + "\""@,
        ExprV::Let(n, e1) => "let \""@ + n + "\" = "@ + expr_debug_text(*e1),
        ExprV::Paren(e1) => "["@ + expr_debug_text(*e1) + "]"@,
    }
}

impl Expr {
    /// The display rendering, for showing an expression to a user.
    pub fn to_text(&self) -> (s: String)
        ensures
            s@ == expr_text(self@),
        decreases *self,
    {
        match self {
            Expr::Value(n) => signed_string(*n),
            Expr::Add(b) => {
                let mut s = b.left.to_text();
                s.append(" + ");
                let r = b.right.to_text();
                s.append(r.as_str());
                s
            },
            Expr::Sub(b) => {
                let mut s = b.left.to_text();
                s.append(" - ");
                let r = b.right.to_text();
                s.append(r.as_str());
                s
            },
            Expr::Mul(b) => {
                let mut s = b.left.to_text();
                s.append(" * ");
                let r = b.right.to_text();
                s.append(r.as_str());
                s
            },
            Expr::Div(b) => {
                let mut s = b.left.to_text();
                s.append(" / ");
                let r = b.right.to_text();
                s.append(r.as_str());
                s
            },
            Expr::Var(n) => n.clone(),
            Expr::Let(n, e1) => {
                let mut s = "let ".to_owned();
                s.append(n.as_str());
                s.append(" = ");
                let inner = e1.to_text();
                s.append(inner.as_str());
                s
            },
            Expr::Paren(e1) => {
                let mut s = "(".to_owned();
                let inner = e1.to_text();
                s.append(inner.as_str());
                s.append(")");
                s
            },
        }
    }

    /// The debug rendering, for logging an expression.
    pub fn debug_text(&self) -> (s: String)
        ensures
            s@ == expr_debug_text(self@),
        decreases *self,
    {
        match self {
            Expr::Value(n) => signed_string(*n),
            Expr::Add(b) => {
                let mut s = "(".to_owned();
                let l = b.left.debug_text();
                s.append(l.as_str());
                s.append(" + ");
                let r = b.right.debug_text();
                s.append(r.as_str());
                s.append(")");
                s
            },
            Expr::Sub(b) => {
                let mut s = "(".to_owned();
                let l = b.left.debug_text();
                s.append(l.as_str());
                s.append(" - ");
                let r = b.right.debug_text();
                s.append(r.as_str());
                s.append(")");
                s
            },
            Expr::Mul(b) => {
                let mut s = "(".to_owned();
                let l = b.left.debug_text();
                s.append(l.as_str());
                s.append(" * ");
                let r = b.right.debug_text();
                s.append(r.as_str());
                s.append(")");
                s
            },
            Expr::Div(b) => {
                let mut s = "(".to_owned();
                let l = b.left.debug_text();
                s.append(l.as_str());
                s.append(" / ");
                let r = b.right.debug_text();
                s.append(r.as_str());
                s.append(")");
                s
            },
            Expr::Var(n) => {
                let mut s = "\"".to_owned();
                s.append(n.as_str());
                s.append("\"");
                s
            },
            Expr::Let(n, e1) => {
                let mut s = "let \"".to_owned();
                s.append(n.as_str());
                s.append("\" = ");
                let inner = e1.debug_text();
                s.append(inner.as_str());
                s
            },
            Expr::Paren(e1) => {
                let mut s = "[".to_owned();
                let inner = e1.debug_text();
                s.append(inner.as_str());
                s.append("]");
                s
            },
        }
    }
}

} // verus!
