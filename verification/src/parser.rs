//! Recursive-descent parser for both dialects. Each executable parsing
//! function is proved equal to a specification parser over the input's
//! character sequence, so parsing is a mathematical function of the text.
//!
//! Positions are character indices. A parser either fails, or returns the
//! position of the unconsumed remainder together with what it recognized.
use crate::expr::AddExpr;
use crate::expr::DivExpr;
use crate::expr::Expr;
use crate::expr::ExprV;
use crate::expr::MulExpr;
use crate::expr::SubExpr;
use vstd::prelude::*;

verus! {

/// A path segment as parsed: the leading dot, an object key, or an
/// array index.
#[derive(Debug)]
pub enum Path {
    Root,
    Key(String),
    Idx(usize),
}

/// Ghost mirror of `Path`, with the key as a character sequence.
pub enum PathV {
    Root,
    Key(Seq<char>),
    Idx(usize),
}

impl View for Path {
    type V = PathV;

    open spec fn view(&self) -> PathV {
        match self {
            Path::Root => PathV::Root,
            Path::Key(k) => PathV::Key(k@),
            Path::Idx(n) => PathV::Idx(*n),
        }
    }
}

/// One infix operator of the arithmetic dialect.
#[derive(Debug)]
pub enum Oper {
    Add,
    Sub,
    Mul,
    Div,
}

/// A parse failure; `at` is the character position where the unconsumed
/// remainder of the input begins.
#[derive(Debug)]
pub struct ParseError {
    pub at: usize,
}

// ---------------------------------------------------------------------
// Character classes and basic scans.
// ---------------------------------------------------------------------
pub open spec fn is_space(c: char) -> bool {
    c == ' ' || c == '\t' || c == '\n' || c == '\r'
}

pub open spec fn is_lower(c: char) -> bool {
    97 <= c as u32 && c as u32 <= 122
}

pub open spec fn is_digit(c: char) -> bool {
    48 <= c as u32 && c as u32 <= 57
}

/// The first position at or after `p` holding no whitespace.
pub open spec fn skip_ws(t: Seq<char>, p: nat) -> nat
    decreases t.len() - p,
{
    if p < t.len() && is_space(t[p as int]) {
        let q = skip_ws(t, p + 1);
        if p + 1 <= q && q <= t.len() {
            q
        } else {
            p + 1
        }
    } else {
        p
    }
}

/// The end of the run of lowercase letters that begins at `p`.
pub open spec fn lower_end(t: Seq<char>, p: nat) -> nat
    decreases t.len() - p,
{
    if p < t.len() && is_lower(t[p as int]) {
        let q = lower_end(t, p + 1);
        if p + 1 <= q && q <= t.len() {
            q
        } else {
            p + 1
        }
    } else {
        p
    }
}

/// The end of the run of decimal digits that begins at `p`.
pub open spec fn digit_end(t: Seq<char>, p: nat) -> nat
    decreases t.len() - p,
{
    if p < t.len() && is_digit(t[p as int]) {
        let q = digit_end(t, p + 1);
        if p + 1 <= q && q <= t.len() {
            q
        } else {
            p + 1
        }
    } else {
        p
    }
}

/// The value of the `n` digits that begin at `q`, most significant first.
pub open spec fn digits_val(t: Seq<char>, q: nat, n: nat) -> int
    decreases n,
{
    if n == 0 {
        0
    } else {
        digits_val(t, q, (n - 1) as nat) * 10 + (t[q + n - 1] as u32 - 48)
    }
}

/// Every character of a digit run is a digit.
pub proof fn lemma_digit_run(t: Seq<char>, p: nat)
    ensures
        forall|j: int| p <= j < digit_end(t, p) ==> is_digit(t[j]),
    decreases t.len() - p,
{
    if p < t.len() && is_digit(t[p as int]) {
        lemma_digit_run(t, p + 1);
    }
}

/// A digit run's value only grows as the run extends.
pub proof fn lemma_digits_val_grows(t: Seq<char>, q: nat, k: nat, n: nat)
    requires
        k <= n,
        forall|j: int| q <= j < q + n ==> is_digit(t[j]),
    ensures
        0 <= digits_val(t, q, k) <= digits_val(t, q, n),
    decreases n,
{
    if n == 0 {
    } else if k == n {
        lemma_digits_val_grows(t, q, (k - 1) as nat, (n - 1) as nat);
    } else {
        lemma_digits_val_grows(t, q, k, (n - 1) as nat);
    }
}

// ---------------------------------------------------------------------
// The specification grammar of the arithmetic dialect.
// ---------------------------------------------------------------------
/// Builds the binary node for one folded infix operator.
pub open spec fn op_node(op: Oper, l: ExprV, r: ExprV) -> ExprV {
    match op {
        Oper::Add => ExprV::Add(Box::new(l), Box::new(r)),
        Oper::Sub => ExprV::Sub(Box::new(l), Box::new(r)),
        Oper::Mul => ExprV::Mul(Box::new(l), Box::new(r)),
        Oper::Div => ExprV::Div(Box::new(l), Box::new(r)),
    }
}

/// Left-associative fold of an initial operand and a list of
/// (operator, operand) pairs, in parse order.
pub open spec fn fold_exprs_v(init: ExprV, rem: Seq<(Oper, ExprV)>) -> ExprV
    decreases rem.len(),
{
    if rem.len() == 0 {
        init
    } else {
        fold_exprs_v(op_node(rem[0].0, init, rem[0].1), rem.drop_first())
    }
}

/// An integer literal: optional whitespace, digits, optional whitespace;
/// its value must be representable in an `i64`.
pub open spec fn sp_number(t: Seq<char>, p: nat) -> Option<(nat, ExprV)> {
    let w0 = skip_ws(t, p);
    let e0 = digit_end(t, w0);
    if e0 > w0 {
        let v = digits_val(t, w0, (e0 - w0) as nat);
        if v <= i64::MAX as int {
            Some((skip_ws(t, e0), ExprV::Value(v as i64)))
        } else {
            None
        }
    } else {
        None
    }
}

/// A variable reference: optional whitespace, one or more lowercase
/// letters, optional whitespace.
pub open spec fn sp_var(t: Seq<char>, p: nat) -> Option<(nat, ExprV)> {
    let w0 = skip_ws(t, p);
    let e0 = lower_end(t, w0);
    if e0 > w0 {
        Some((skip_ws(t, e0), ExprV::Var(t.subrange(w0 as int, e0 as int))))
    } else {
        None
    }
}

/// A parenthesized expression, with surrounding whitespace tolerated.
pub open spec fn sp_parens(t: Seq<char>, p: nat) -> Option<(nat, ExprV)>
    decreases t.len() - p, 1int,
{
    let w0 = skip_ws(t, p);
    if w0 < t.len() && t[w0 as int] == '(' {
        match sp_math(t, w0 + 1) {
            Some((q, e)) => if q < t.len() && t[q as int] == ')' {
                Some((skip_ws(t, q + 1), ExprV::Paren(Box::new(e))))
            } else {
                None
            },
            None => None,
        }
    } else {
        None
    }
}

/// An atom: an integer literal, a variable, or a parenthesized expression,
/// tried in that order.
pub open spec fn sp_factor(t: Seq<char>, p: nat) -> Option<(nat, ExprV)>
    decreases t.len() - p, 2int,
{
    match sp_number(t, p) {
        Some(r) => Some(r),
        None => match sp_var(t, p) {
            Some(r) => Some(r),
            None => sp_parens(t, p),
        },
    }
}

/// Zero or more `* factor` or `/ factor` continuations.
pub open spec fn sp_term_rest(t: Seq<char>, p: nat) -> (nat, Seq<(Oper, ExprV)>)
    decreases t.len() - p, 3int,
{
    if p < t.len() && (t[p as int] == '*' || t[p as int] == '/') {
        let op = if t[p as int] == '*' {
            Oper::Mul
        } else {
            Oper::Div
        };
        match sp_factor(t, p + 1) {
            Some((q0, e)) => {
                let q = if p + 1 <= q0 && q0 <= t.len() {
                    q0
                } else {
                    t.len()
                };
                let (q2, rest) = sp_term_rest(t, q);
                (q2, seq![(op, e)] + rest)
            },
            None => (p, Seq::empty()),
        }
    } else {
        (p, Seq::empty())
    }
}

/// A multiplicative level: a factor folded left with `*` and `/`.
pub open spec fn sp_term(t: Seq<char>, p: nat) -> Option<(nat, ExprV)>
    decreases t.len() - p, 4int,
{
    match sp_factor(t, p) {
        Some((q0, init)) => {
            let q = if p <= q0 && q0 <= t.len() {
                q0
            } else {
                p
            };
            let (q2, rest) = sp_term_rest(t, q);
            Some((q2, fold_exprs_v(init, rest)))
        },
        None => None,
    }
}

/// Zero or more `+ term` or `- term` continuations.
pub open spec fn sp_math_rest(t: Seq<char>, p: nat) -> (nat, Seq<(Oper, ExprV)>)
    decreases t.len() - p, 5int,
{
    if p < t.len() && (t[p as int] == '+' || t[p as int] == '-') {
        let op = if t[p as int] == '+' {
            Oper::Add
        } else {
            Oper::Sub
        };
        match sp_term(t, p + 1) {
            Some((q0, e)) => {
                let q = if p + 1 <= q0 && q0 <= t.len() {
                    q0
                } else {
                    t.len()
                };
                let (q2, rest) = sp_math_rest(t, q);
                (q2, seq![(op, e)] + rest)
            },
            None => (p, Seq::empty()),
        }
    } else {
        (p, Seq::empty())
    }
}

/// An additive level: a term folded left with `+` and `-`.
pub open spec fn sp_math(t: Seq<char>, p: nat) -> Option<(nat, ExprV)>
    decreases t.len() - p, 6int,
{
    match sp_term(t, p) {
        Some((q0, init)) => {
            let q = if p <= q0 && q0 <= t.len() {
                q0
            } else {
                p
            };
            let (q2, rest) = sp_math_rest(t, q);
            Some((q2, fold_exprs_v(init, rest)))
        },
        None => None,
    }
}

/// A binding: `let`, a name, `=`, and an additive expression.
pub open spec fn sp_let(t: Seq<char>, p: nat) -> Option<(nat, ExprV)>
    decreases t.len() - p, 7int,
{
    if p + 3 <= t.len() && t[p as int] == 'l' && t[p as int + 1] == 'e' && t[p as int + 2]
        == 't' {
        let w0 = skip_ws(t, p + 3);
        let e0 = lower_end(t, w0);
        if e0 > w0 {
            let name = t.subrange(w0 as int, e0 as int);
            let w1 = skip_ws(t, e0);
            if w1 < t.len() && t[w1 as int] == '=' {
                match sp_math(t, w1 + 1) {
                    Some((q, e)) => Some((q, ExprV::Let(name, Box::new(e)))),
                    None => None,
                }
            } else {
                None
            }
        } else {
            None
        }
    } else {
        None
    }
}

/// A statement: a binding, or else an additive expression.
pub open spec fn sp_expr(t: Seq<char>, p: nat) -> Option<(nat, ExprV)>
    decreases t.len() - p, 8int,
{
    match sp_let(t, p) {
        Some(r) => Some(r),
        None => sp_math(t, p),
    }
}

/// The statement separator: optional whitespace, then `;`.
pub open spec fn sp_dl(t: Seq<char>, p: nat) -> Option<nat> {
    let w = skip_ws(t, p);
    if w < t.len() && t[w as int] == ';' {
        Some(w + 1)
    } else {
        None
    }
}

/// Zero or more `; statement` continuations; a separator not followed by
/// a statement is left unconsumed.
pub open spec fn sp_exprs_rest(t: Seq<char>, p: nat) -> (nat, Seq<ExprV>)
    decreases t.len() - p, 9int,
{
    if p < t.len() {
        match sp_dl(t, p) {
            Some(q0) => {
                let q = if p + 1 <= q0 && q0 <= t.len() {
                    q0
                } else {
                    t.len()
                };
                match sp_expr(t, skip_ws(t, q)) {
                    Some((p0, e)) => {
                        let p1 = if q <= p0 && p0 <= t.len() {
                            p0
                        } else {
                            t.len()
                        };
                        let (p2, es) = sp_exprs_rest(t, p1);
                        (p2, seq![e] + es)
                    },
                    None => (p, Seq::empty()),
                }
            },
            None => (p, Seq::empty()),
        }
    } else {
        (p, Seq::empty())
    }
}

/// A `;`-separated statement sequence; an empty input parses to an empty
/// sequence with nothing consumed.
pub open spec fn sp_exprs(t: Seq<char>, p: nat) -> (nat, Seq<ExprV>)
    decreases t.len() - p, 10int,
{
    match sp_expr(t, skip_ws(t, p)) {
        Some((p0, e)) => {
            let p1 = if p <= p0 && p0 <= t.len() {
                p0
            } else {
                t.len()
            };
            let (p2, es) = sp_exprs_rest(t, p1);
            (p2, seq![e] + es)
        },
        None => (p, Seq::empty()),
    }
}

// ---------------------------------------------------------------------
// The specification grammar of the path dialect.
// ---------------------------------------------------------------------
/// An object key: one or more lowercase letters, with no whitespace.
pub open spec fn sp_path_key(t: Seq<char>, p: nat) -> Option<(nat, PathV)> {
    let e0 = lower_end(t, p);
    if e0 > p {
        Some((e0, PathV::Key(t.subrange(p as int, e0 as int))))
    } else {
        None
    }
}

/// An array index: `[`, optional whitespace, digits, optional whitespace,
/// `]`; the value must be representable in a `usize`.
pub open spec fn sp_path_idx(t: Seq<char>, p: nat) -> Option<(nat, PathV)> {
    if p < t.len() && t[p as int] == '[' {
        let w = skip_ws(t, p + 1);
        let e0 = digit_end(t, w);
        if e0 > w {
            let v = digits_val(t, w, (e0 - w) as nat);
            let w2 = skip_ws(t, e0);
            if w2 < t.len() && t[w2 as int] == ']' && v <= usize::MAX as int {
                Some((w2 + 1, PathV::Idx(v as usize)))
            } else {
                None
            }
        } else {
            None
        }
    } else {
        None
    }
}

/// A later segment: `.key`, or else an index.
pub open spec fn sp_path_seg(t: Seq<char>, p: nat) -> Option<(nat, PathV)> {
    if p < t.len() && t[p as int] == '.' {
        match sp_path_key(t, p + 1) {
            Some(r) => Some(r),
            None => sp_path_idx(t, p),
        }
    } else {
        sp_path_idx(t, p)
    }
}

/// Zero or more later segments.
pub open spec fn sp_path_rest(t: Seq<char>, p: nat) -> (nat, Seq<PathV>)
    decreases t.len() - p,
{
    if p < t.len() {
        match sp_path_seg(t, p) {
            Some((q0, s)) => {
                let q = if p + 1 <= q0 && q0 <= t.len() {
                    q0
                } else {
                    t.len()
                };
                let (q2, rest) = sp_path_rest(t, q);
                (q2, seq![s] + rest)
            },
            None => (p, Seq::empty()),
        }
    } else {
        (p, Seq::empty())
    }
}

/// The first segment after the leading dot: a key or an index, the key
/// without a second dot of its own.
pub open spec fn sp_first_seg(t: Seq<char>, p: nat) -> Option<(nat, PathV)> {
    match sp_path_key(t, p) {
        Some(r) => Some(r),
        None => sp_path_idx(t, p),
    }
}

/// A whole path: a leading `.` (the root), then segments. A bare `.`
/// parses to the root alone.
pub open spec fn sp_path(t: Seq<char>, p: nat) -> Option<(nat, Seq<PathV>)> {
    if p < t.len() && t[p as int] == '.' {
        let p1 = p + 1;
        match sp_first_seg(t, p1) {
            Some((q0, s)) => {
                let (q2, rest) = sp_path_rest(t, if q0 <= t.len() { q0 } else { t.len() });
                Some((q2, seq![PathV::Root, s] + rest))
            },
            None => Some((p1, seq![PathV::Root])),
        }
    } else {
        None
    }
}

} // verus!

verus! {

// ---------------------------------------------------------------------
// View helpers relating executable results to the specification grammar.
// ---------------------------------------------------------------------
pub open spec fn opt_ev(r: Option<(usize, Expr)>) -> Option<(nat, ExprV)> {
    match r {
        Some((q, e)) => Some((q as nat, e@)),
        None => None,
    }
}

pub open spec fn opt_sv(r: Option<(usize, Path)>) -> Option<(nat, PathV)> {
    match r {
        Some((q, s)) => Some((q as nat, s@)),
        None => None,
    }
}

pub open spec fn pairs_view(s: Seq<(Oper, Expr)>) -> Seq<(Oper, ExprV)> {
    s.map_values(|pr: (Oper, Expr)| (pr.0, pr.1@))
}

pub open spec fn exprs_view(s: Seq<Expr>) -> Seq<ExprV> {
    s.map_values(|e: Expr| e@)
}

pub open spec fn paths_view(s: Seq<Path>) -> Seq<PathV> {
    s.map_values(|x: Path| x@)
}

// ---------------------------------------------------------------------
// Executable scanning helpers.
// ---------------------------------------------------------------------
/// Skips whitespace.
fn ws(i: &str, p: usize) -> (q: usize)
    requires
        p <= i@.len(),
    ensures
        q as nat == skip_ws(i@, p as nat),
        p <= q <= i@.len(),
    decreases i@.len() - p,
{
    let l = i.unicode_len();
    if p < l {
        let c = i.get_char(p);
        if c == ' ' || c == '\t' || c == '\n' || c == '\r' {
            ws(i, p + 1)
        } else {
            p
        }
    } else {
        p
    }
}

/// Scans to the end of a lowercase-letter run.
fn lower_run(i: &str, p: usize) -> (e: usize)
    requires
        p <= i@.len(),
    ensures
        e as nat == lower_end(i@, p as nat),
        p <= e <= i@.len(),
    decreases i@.len() - p,
{
    let l = i.unicode_len();
    if p < l {
        let u = i.get_char(p) as u32;
        if 97 <= u && u <= 122 {
            lower_run(i, p + 1)
        } else {
            p
        }
    } else {
        p
    }
}

/// Scans to the end of a digit run.
fn digit_run(i: &str, p: usize) -> (e: usize)
    requires
        p <= i@.len(),
    ensures
        e as nat == digit_end(i@, p as nat),
        p <= e <= i@.len(),
    decreases i@.len() - p,
{
    let l = i.unicode_len();
    if p < l {
        let u = i.get_char(p) as u32;
        if 48 <= u && u <= 57 {
            digit_run(i, p + 1)
        } else {
            p
        }
    } else {
        p
    }
}

/// Reads the value of the digits in `[q, e)`, failing exactly when the
/// value exceeds `limit`.
fn digits_to(i: &str, q: usize, e: usize, limit: u64) -> (r: Option<u64>)
    requires
        q <= e <= i@.len(),
        forall|j: int| q <= j < e ==> is_digit(i@[j]),
    ensures
        match r {
            Some(v) => v as int == digits_val(i@, q as nat, (e - q) as nat) && v <= limit,
            None => digits_val(i@, q as nat, (e - q) as nat) > limit,
        },
{
    let mut acc: u64 = 0;
    let mut k = q;
    while k < e
        invariant
            q <= k <= e <= i@.len(),
            forall|j: int| q <= j < e ==> is_digit(i@[j]),
            acc as int == digits_val(i@, q as nat, (k - q) as nat),
            acc <= limit,
        decreases e - k,
    {
        let c = i.get_char(k);
        let d = (c as u32 as u64) - 48;
        let next = (acc as u128) * 10 + (d as u128);
        proof {
            assert(digits_val(i@, q as nat, (k + 1 - q) as nat) == digits_val(
                i@,
                q as nat,
                (k - q) as nat,
            ) * 10 + (i@[k as int] as u32 - 48));
        }
        if next > (limit as u128) {
            proof {
                lemma_digits_val_grows(i@, q as nat, (k + 1 - q) as nat, (e - q) as nat);
            }
            return None;
        }
        acc = next as u64;
        k = k + 1;
    }
    Some(acc)
}

// ---------------------------------------------------------------------
// The executable arithmetic-dialect parser.
// ---------------------------------------------------------------------
/// Parses an integer literal.
fn p_number(i: &str, p: usize) -> (r: Option<(usize, Expr)>)
    requires
        p <= i@.len(),
    ensures
        opt_ev(r) == sp_number(i@, p as nat),
        r matches Some(pr) ==> p < pr.0 && pr.0 <= i@.len(),
{
    let w0 = ws(i, p);
    let e0 = digit_run(i, w0);
    if e0 > w0 {
        proof {
            lemma_digit_run(i@, w0 as nat);
            lemma_digits_val_grows(i@, w0 as nat, 0, (e0 - w0) as nat);
        }
        match digits_to(i, w0, e0, 9223372036854775807u64) {
            Some(v) => {
                let q = ws(i, e0);
                Some((q, Expr::Value(v as i64)))
            },
            None => None,
        }
    } else {
        None
    }
}

/// Parses a variable reference.
fn p_var(i: &str, p: usize) -> (r: Option<(usize, Expr)>)
    requires
        p <= i@.len(),
    ensures
        opt_ev(r) == sp_var(i@, p as nat),
        r matches Some(pr) ==> p < pr.0 && pr.0 <= i@.len(),
{
    let w0 = ws(i, p);
    let e0 = lower_run(i, w0);
    if e0 > w0 {
        let name = i.substring_char(w0, e0).to_owned();
        let q = ws(i, e0);
        Some((q, Expr::Var(name)))
    } else {
        None
    }
}

/// Parses a parenthesized expression.
fn p_parens(i: &str, p: usize) -> (r: Option<(usize, Expr)>)
    requires
        p <= i@.len(),
    ensures
        opt_ev(r) == sp_parens(i@, p as nat),
        r matches Some(pr) ==> p < pr.0 && pr.0 <= i@.len(),
    decreases i@.len() - p, 1int,
{
    let l = i.unicode_len();
    let w0 = ws(i, p);
    if w0 < l && i.get_char(w0) == '(' {
        match p_math(i, w0 + 1) {
            Some((q, e)) => if q < l && i.get_char(q) == ')' {
                Some((ws(i, q + 1), Expr::Paren(Box::new(e))))
            } else {
                None
            },
            None => None,
        }
    } else {
        None
    }
}

/// Parses an atom.
fn p_factor(i: &str, p: usize) -> (r: Option<(usize, Expr)>)
    requires
        p <= i@.len(),
    ensures
        opt_ev(r) == sp_factor(i@, p as nat),
        r matches Some(pr) ==> p < pr.0 && pr.0 <= i@.len(),
    decreases i@.len() - p, 2int,
{
    match p_number(i, p) {
        Some(r) => Some(r),
        None => match p_var(i, p) {
            Some(r) => Some(r),
            None => p_parens(i, p),
        },
    }
}

/// Parses the `*`/`/` continuations of a term.
fn p_term_rest(i: &str, p: usize) -> (r: (usize, Vec<(Oper, Expr)>))
    requires
        p <= i@.len(),
    ensures
        r.0 as nat == sp_term_rest(i@, p as nat).0,
        pairs_view(r.1@) == sp_term_rest(i@, p as nat).1,
        p <= r.0 <= i@.len(),
    decreases i@.len() - p, 3int,
{
    let l = i.unicode_len();
    if p < l {
        let c = i.get_char(p);
        if c == '*' || c == '/' {
            match p_factor(i, p + 1) {
                Some((q, e)) => {
                    let op = if c == '*' {
                        Oper::Mul
                    } else {
                        Oper::Div
                    };
                    let ghost ev = e@;
                    let ghost opv = op;
                    let (q2, mut rest) = p_term_rest(i, q);
                    let ghost rest0 = rest@;
                    rest.insert(0, (op, e));
                    proof {
                        assert(pairs_view(rest@) =~= seq![(opv, ev)] + pairs_view(rest0));
                    }
                    (q2, rest)
                },
                None => (p, Vec::new()),
            }
        } else {
            (p, Vec::new())
        }
    } else {
        (p, Vec::new())
    }
}

/// Parses a multiplicative term.
fn p_term(i: &str, p: usize) -> (r: Option<(usize, Expr)>)
    requires
        p <= i@.len(),
    ensures
        opt_ev(r) == sp_term(i@, p as nat),
        r matches Some(pr) ==> p < pr.0 && pr.0 <= i@.len(),
    decreases i@.len() - p, 4int,
{
    match p_factor(i, p) {
        Some((q, init)) => {
            let (q2, rest) = p_term_rest(i, q);
            Some((q2, fold_exprs(init, rest)))
        },
        None => None,
    }
}

/// Parses the `+`/`-` continuations of an expression.
fn p_math_rest(i: &str, p: usize) -> (r: (usize, Vec<(Oper, Expr)>))
    requires
        p <= i@.len(),
    ensures
        r.0 as nat == sp_math_rest(i@, p as nat).0,
        pairs_view(r.1@) == sp_math_rest(i@, p as nat).1,
        p <= r.0 <= i@.len(),
    decreases i@.len() - p, 5int,
{
    let l = i.unicode_len();
    if p < l {
        let c = i.get_char(p);
        if c == '+' || c == '-' {
            match p_term(i, p + 1) {
                Some((q, e)) => {
                    let op = if c == '+' {
                        Oper::Add
                    } else {
                        Oper::Sub
                    };
                    let ghost ev = e@;
                    let ghost opv = op;
                    let (q2, mut rest) = p_math_rest(i, q);
                    let ghost rest0 = rest@;
                    rest.insert(0, (op, e));
                    proof {
                        assert(pairs_view(rest@) =~= seq![(opv, ev)] + pairs_view(rest0));
                    }
                    (q2, rest)
                },
                None => (p, Vec::new()),
            }
        } else {
            (p, Vec::new())
        }
    } else {
        (p, Vec::new())
    }
}

/// Parses an additive expression.
fn p_math(i: &str, p: usize) -> (r: Option<(usize, Expr)>)
    requires
        p <= i@.len(),
    ensures
        opt_ev(r) == sp_math(i@, p as nat),
        r matches Some(pr) ==> p < pr.0 && pr.0 <= i@.len(),
    decreases i@.len() - p, 6int,
{
    match p_term(i, p) {
        Some((q, init)) => {
            let (q2, rest) = p_math_rest(i, q);
            Some((q2, fold_exprs(init, rest)))
        },
        None => None,
    }
}

/// Parses a `let` binding.
fn p_let(i: &str, p: usize) -> (r: Option<(usize, Expr)>)
    requires
        p <= i@.len(),
    ensures
        opt_ev(r) == sp_let(i@, p as nat),
        r matches Some(pr) ==> p < pr.0 && pr.0 <= i@.len(),
    decreases i@.len() - p, 7int,
{
    let l = i.unicode_len();
    if l - p >= 3 && i.get_char(p) == 'l' && i.get_char(p + 1) == 'e' && i.get_char(p + 2)
        == 't' {
        let w0 = ws(i, p + 3);
        let e0 = lower_run(i, w0);
        if e0 > w0 {
            let name = i.substring_char(w0, e0).to_owned();
            let w1 = ws(i, e0);
            if w1 < l && i.get_char(w1) == '=' {
                match p_math(i, w1 + 1) {
                    Some((q, e)) => Some((q, Expr::Let(name, Box::new(e)))),
                    None => None,
                }
            } else {
                None
            }
        } else {
            None
        }
    } else {
        None
    }
}

/// Parses one statement.
fn p_expr(i: &str, p: usize) -> (r: Option<(usize, Expr)>)
    requires
        p <= i@.len(),
    ensures
        opt_ev(r) == sp_expr(i@, p as nat),
        r matches Some(pr) ==> p < pr.0 && pr.0 <= i@.len(),
    decreases i@.len() - p, 8int,
{
    match p_let(i, p) {
        Some(r) => Some(r),
        None => p_math(i, p),
    }
}

/// Parses the `; statement` continuations.
fn p_exprs_rest(i: &str, p: usize) -> (r: (usize, Vec<Expr>))
    requires
        p <= i@.len(),
    ensures
        r.0 as nat == sp_exprs_rest(i@, p as nat).0,
        exprs_view(r.1@) == sp_exprs_rest(i@, p as nat).1,
        p <= r.0 <= i@.len(),
    decreases i@.len() - p, 9int,
{
    let l = i.unicode_len();
    if p < l {
        let w = ws(i, p);
        if w < l && i.get_char(w) == ';' {
            let w2 = ws(i, w + 1);
            match p_expr(i, w2) {
                Some((p0, e)) => {
                    let ghost ev = e@;
                    let (p2, mut es) = p_exprs_rest(i, p0);
                    let ghost es0 = es@;
                    es.insert(0, e);
                    proof {
                        assert(exprs_view(es@) =~= seq![ev] + exprs_view(es0));
                    }
                    (p2, es)
                },
                None => (p, Vec::new()),
            }
        } else {
            (p, Vec::new())
        }
    } else {
        (p, Vec::new())
    }
}

/// Parses a whole `;`-separated statement sequence, returning the position
/// of the unconsumed remainder and the statements in order.
pub fn exprs(i: &str) -> (r: (usize, Vec<Expr>))
    ensures
        r.0 as nat == sp_exprs(i@, 0).0,
        exprs_view(r.1@) == sp_exprs(i@, 0).1,
        r.0 <= i@.len(),
{
    let w = ws(i, 0);
    match p_expr(i, w) {
        Some((p0, e)) => {
            let ghost ev = e@;
            let (p2, mut es) = p_exprs_rest(i, p0);
            let ghost es0 = es@;
            es.insert(0, e);
            proof {
                assert(exprs_view(es@) =~= seq![ev] + exprs_view(es0));
            }
            (p2, es)
        },
        None => (0, Vec::new()),
    }
}

// ---------------------------------------------------------------------
// The executable path-dialect parser.
// ---------------------------------------------------------------------
/// Parses an object key.
fn p_path_key(i: &str, p: usize) -> (r: Option<(usize, Path)>)
    requires
        p <= i@.len(),
    ensures
        opt_sv(r) == sp_path_key(i@, p as nat),
        r matches Some(pr) ==> p < pr.0 && pr.0 <= i@.len(),
{
    let e0 = lower_run(i, p);
    if e0 > p {
        let name = i.substring_char(p, e0).to_owned();
        Some((e0, Path::Key(name)))
    } else {
        None
    }
}

/// Parses an array index.
fn p_path_idx(i: &str, p: usize) -> (r: Option<(usize, Path)>)
    requires
        p <= i@.len(),
    ensures
        opt_sv(r) == sp_path_idx(i@, p as nat),
        r matches Some(pr) ==> p < pr.0 && pr.0 <= i@.len(),
{
    let l = i.unicode_len();
    if p < l && i.get_char(p) == '[' {
        let w = ws(i, p + 1);
        let e0 = digit_run(i, w);
        if e0 > w {
            proof {
                lemma_digit_run(i@, w as nat);
                lemma_digits_val_grows(i@, w as nat, 0, (e0 - w) as nat);
            }
            let w2 = ws(i, e0);
            if w2 < l && i.get_char(w2) == ']' {
                match digits_to(i, w, e0, usize::MAX as u64) {
                    Some(v) => Some((w2 + 1, Path::Idx(v as usize))),
                    None => None,
                }
            } else {
                None
            }
        } else {
            None
        }
    } else {
        None
    }
}

/// Parses one later segment.
fn p_path_seg(i: &str, p: usize) -> (r: Option<(usize, Path)>)
    requires
        p <= i@.len(),
    ensures
        opt_sv(r) == sp_path_seg(i@, p as nat),
        r matches Some(pr) ==> p < pr.0 && pr.0 <= i@.len(),
{
    let l = i.unicode_len();
    if p < l && i.get_char(p) == '.' {
        match p_path_key(i, p + 1) {
            Some(r) => Some(r),
            None => p_path_idx(i, p),
        }
    } else {
        p_path_idx(i, p)
    }
}

/// Parses the later segments.
fn p_path_rest(i: &str, p: usize) -> (r: (usize, Vec<Path>))
    requires
        p <= i@.len(),
    ensures
        r.0 as nat == sp_path_rest(i@, p as nat).0,
        paths_view(r.1@) == sp_path_rest(i@, p as nat).1,
        p <= r.0 <= i@.len(),
    decreases i@.len() - p,
{
    let l = i.unicode_len();
    if p < l {
        match p_path_seg(i, p) {
            Some((q, s)) => {
                let ghost sv = s@;
                let (q2, mut rest) = p_path_rest(i, q);
                let ghost rest0 = rest@;
                rest.insert(0, s);
                proof {
                    assert(paths_view(rest@) =~= seq![sv] + paths_view(rest0));
                }
                (q2, rest)
            },
            None => (p, Vec::new()),
        }
    } else {
        (p, Vec::new())
    }
}

/// Parses a whole path script: the leading `.` establishes the root, and
/// segments follow. Fails exactly when the text does not begin with `.`,
/// with the unconsumed remainder in the error.
pub fn path(i: &str) -> (r: Result<(usize, Vec<Path>), ParseError>)
    ensures
        match r {
            Ok((q, ps)) => {
                &&& sp_path(i@, 0) matches Some(pr)
                &&& pr.0 == q as nat
                &&& pr.1 == paths_view(ps@)
                &&& q <= i@.len()
            },
            Err(pe) => sp_path(i@, 0) is None && pe.at == 0,
        },
{
    let l = i.unicode_len();
    if l > 0 && i.get_char(0) == '.' {
        let first = match p_path_key(i, 1) {
            Some(r) => Some(r),
            None => p_path_idx(i, 1),
        };
        match first {
            Some((q0, s)) => {
                let ghost sv = s@;
                let (q2, mut rest) = p_path_rest(i, q0);
                let ghost rest0 = rest@;
                rest.insert(0, s);
                rest.insert(0, Path::Root);
                proof {
                    assert(paths_view(rest@) =~= seq![PathV::Root, sv] + paths_view(rest0));
                }
                Ok((q2, rest))
            },
            None => {
                let mut v: Vec<Path> = Vec::new();
                v.push(Path::Root);
                proof {
                    assert(paths_view(v@) =~= seq![PathV::Root]);
                }
                Ok((1, v))
            },
        }
    } else {
        Err(ParseError { at: 0 })
    }
}

/// Folds an initial operand and a list of (operator, operand) pairs into
/// a left-leaning tree of binary nodes, in parse order.
pub fn fold_exprs(initial: Expr, remainder: Vec<(Oper, Expr)>) -> (r: Expr)
    ensures
        r@ == fold_exprs_v(initial@, pairs_view(remainder@)),
{
    let ghost whole = fold_exprs_v(initial@, pairs_view(remainder@));
    let mut acc = initial;
    let mut rem = remainder;
    while rem.len() > 0
        invariant
            fold_exprs_v(acc@, pairs_view(rem@)) == whole,
        decreases rem.len(),
    {
        let ghost rem0 = rem@;
        let (op, e) = rem.remove(0);
        let ghost ev = e@;
        let ghost opv = op;
        let next = match op {
            Oper::Add => Expr::Add(AddExpr { left: Box::new(acc), right: Box::new(e) }),
            Oper::Sub => Expr::Sub(SubExpr { left: Box::new(acc), right: Box::new(e) }),
            Oper::Mul => Expr::Mul(MulExpr { left: Box::new(acc), right: Box::new(e) }),
            Oper::Div => Expr::Div(DivExpr { left: Box::new(acc), right: Box::new(e) }),
        };
        proof {
            assert(pairs_view(rem0)[0] == (opv, ev));
            assert(pairs_view(rem@) =~= pairs_view(rem0).drop_first());
        }
        acc = next;
    }
    acc
}

} // verus!
