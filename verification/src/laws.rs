//! The laws the library keeps, proved against the specification mirrors
//! that every executable function is proved equal to.
use crate::compiler::DeclaredV;
use crate::compiler::Inst;
use crate::compiler::LowerSt;
use crate::compiler::MState;
use crate::compiler::fn_find;
use crate::compiler::lemma_fn_find_hit;
use crate::compiler::lower_expr;
use crate::compiler::st_find;
use crate::compiler::st_ok;
use crate::compiler::mstep;
use crate::compiler::lower_seq;
use crate::compiler::root_lower;
use crate::compiler::run_to;
use crate::compiler::Wrap;
use crate::doc::NodeV;
use crate::driver::ScriptErrV;
use crate::driver::prepare_exprs_v;
use crate::driver::prepare_v;
use crate::driver::stdlib_decls;
use crate::expr::EvalErr;
use crate::expr::ExprV;
use crate::expr::eval_expr;
use crate::expr::eval_seq;
use crate::expr::trunc_div;
use crate::jq::PathOpV;
use crate::jq::lower_path;
use crate::jq::run_ops;
use crate::parser::Oper;
use crate::parser::PathV;
use crate::parser::op_node;
use crate::parser::sp_path;
use crate::parser::sp_path_rest;
use crate::parser::sp_path_seg;
use crate::std_lib::get_idx_s;
use crate::std_lib::get_key_s;
use vstd::prelude::*;

verus! {

/// The native arithmetic a binary operator denotes, over unbounded
/// integers; division truncates toward zero.
pub open spec fn native_binop(op: Oper, a: i64, b: i64) -> int {
    match op {
        Oper::Add => a + b,
        Oper::Sub => a - b,
        Oper::Mul => a * b,
        Oper::Div => trunc_div(a as int, b as int),
    }
}

/// Law: rebinding sees the prior value. A `let` evaluates its bound
/// expression under the environment from before the binding, and only
/// then rebinds the name; the binding's own value is the bound value.
pub proof fn lemma_let_rebind(n: Seq<char>, e: ExprV, env: Map<Seq<char>, i64>)
    ensures
        eval_expr(ExprV::Let(n, Box::new(e)), env) == (match eval_expr(e, env) {
            Ok((v, env1)) => Ok::<(i64, Map<Seq<char>, i64>), EvalErr>((v, env1.insert(n, v))),
            Err(er) => Err(er),
        }),
{
}

/// Law: for all machine integers `a` and `b`, compiling `a op b` and
/// running the finished function yields the native arithmetic result,
/// whenever that result is representable and, for division, the divisor
/// is not zero (and the one overflowing quotient is left out).
pub proof fn lemma_binary_op_native(op: Oper, a: i64, b: i64)
    requires
        op is Div ==> b != 0 && !(a == i64::MIN && b == -1),
        i64::MIN <= native_binop(op, a, b) <= i64::MAX,
    ensures
        ({
            let e = op_node(op, ExprV::Value(a), ExprV::Value(b));
            let start = LowerSt { insts: Seq::<Inst>::empty(), nslots: 0, vars: Seq::empty() };
            match root_lower(seq![e], start) {
                Ok(pr) => {
                    let body = pr.0.insts.push(Inst::Print);
                    match run_to(body, pr.0.nslots as nat, body.len()) {
                        Some(m) => m.vals[pr.1 as int] as int == native_binop(op, a, b)
                            && m.prints == 1,
                        None => false,
                    }
                },
                Err(_) => false,
            }
        }),
{
    let e = op_node(op, ExprV::Value(a), ExprV::Value(b));
    let start = LowerSt { insts: Seq::<Inst>::empty(), nslots: 0, vars: Seq::empty() };
    let seeded = LowerSt { insts: seq![Inst::Const(0)], nslots: 0, vars: Seq::empty() };
    assert(start.insts.push(Inst::Const(0)) =~= seeded.insts);
    assert(root_lower(seq![e], start) == lower_seq(seq![e], seeded, 0));

    let opc = match op {
        Oper::Add => Inst::Add(1, 2),
        Oper::Sub => Inst::Sub(1, 2),
        Oper::Mul => Inst::Mul(1, 2),
        Oper::Div => Inst::Div(1, 2),
    };
    let s1 = LowerSt {
        insts: seq![Inst::Const(0), Inst::Const(a)],
        nslots: 0,
        vars: Seq::empty(),
    };
    let s2 = LowerSt {
        insts: seq![Inst::Const(0), Inst::Const(a), Inst::Const(b)],
        nslots: 0,
        vars: Seq::empty(),
    };
    let s3 = LowerSt {
        insts: seq![Inst::Const(0), Inst::Const(a), Inst::Const(b), opc],
        nslots: 0,
        vars: Seq::empty(),
    };
    assert(seeded.insts.push(Inst::Const(a)) =~= s1.insts);
    assert(lower_expr(ExprV::Value(a), seeded) == Ok::<_, crate::compiler::CErrV>((s1, 1usize)));
    assert(s1.insts.push(Inst::Const(b)) =~= s2.insts);
    assert(lower_expr(ExprV::Value(b), s1) == Ok::<_, crate::compiler::CErrV>((s2, 2usize)));
    assert(s2.insts.push(opc) =~= s3.insts);
    assert(lower_expr(e, seeded) == Ok::<_, crate::compiler::CErrV>((s3, 3usize)));
    assert(seq![e][0] == e);
    assert(seq![e].drop_first() =~= Seq::<ExprV>::empty());
    assert(lower_seq(Seq::<ExprV>::empty(), s3, 3usize) == Ok::<_, crate::compiler::CErrV>(
        (s3, 3usize),
    ));
    assert(lower_seq(seq![e], seeded, 0) == Ok::<_, crate::compiler::CErrV>((s3, 3usize)));

    let body = s3.insts.push(Inst::Print);
    assert(body =~= seq![Inst::Const(0), Inst::Const(a), Inst::Const(b), opc, Inst::Print]);
    let m0 = MState { vals: Seq::empty(), slots: Seq::new(0, |i: int| 0i64), prints: 0 };
    assert(run_to(body, 0, 0) == Some(m0));
    let m1 = MState { vals: seq![0i64], slots: m0.slots, prints: 0 };
    assert(body[0] == Inst::Const(0));
    assert(run_to(body, 0, 1) == Some(m1)) by {
        assert(m0.vals.push(0i64) =~= m1.vals);
    };
    let m2 = MState { vals: seq![0i64, a], slots: m0.slots, prints: 0 };
    assert(body[1] == Inst::Const(a));
    assert(run_to(body, 0, 2) == Some(m2)) by {
        assert(m1.vals.push(a) =~= m2.vals);
    };
    let m3 = MState { vals: seq![0i64, a, b], slots: m0.slots, prints: 0 };
    assert(body[2] == Inst::Const(b));
    assert(run_to(body, 0, 3) == Some(m3)) by {
        assert(m2.vals.push(b) =~= m3.vals);
    };
    assert(m3.vals[1] == a && m3.vals[2] == b);
    let v = match op {
        Oper::Add => a.wrapping_add(b),
        Oper::Sub => a.wrapping_sub(b),
        Oper::Mul => a.wrapping_mul(b),
        Oper::Div => crate::expr::div_wrap(a, b),
    };
    assert(v as int == native_binop(op, a, b)) by {
        match op {
            Oper::Add => {},
            Oper::Sub => {},
            Oper::Mul => {
                lemma_signed_crop_in_range(a as int * b as int);
            },
            Oper::Div => {},
        }
    };
    let m4 = MState { vals: seq![0i64, a, b, v], slots: m0.slots, prints: 0 };
    assert(body[3] == opc);
    assert(run_to(body, 0, 4) == Some(m4)) by {
        assert(m3.vals.push(v) =~= m4.vals);
    };
    let m5 = MState { vals: seq![0i64, a, b, v, 0i64], slots: m0.slots, prints: 1 };
    assert(body[4] == Inst::Print);
    assert(run_to(body, 0, 5) == Some(m5)) by {
        assert(m4.vals.push(0i64) =~= m5.vals);
    };
    assert(m5.vals[3] == v);
}

/// An in-range product is its own two's-complement crop.
proof fn lemma_signed_crop_in_range(p: int)
    requires
        i64::MIN <= p <= i64::MAX,
    ensures
        vstd::wrapping::i64_specs::signed_crop(p) as int == p,
{
    let m = 0x1_0000_0000_0000_0000int;
    if p >= 0 {
        assert(p % m == p) by {
            vstd::arithmetic::div_mod::lemma_small_mod(p as nat, m as nat);
        };
    } else {
        assert(p % m == p + m) by {
            vstd::arithmetic::div_mod::lemma_small_mod((p + m) as nat, m as nat);
            vstd::arithmetic::div_mod::lemma_mod_sub_multiples_vanish(p + m, m);
        };
    }
}

// ---------------------------------------------------------------------
// The compiler-correctness laws of the arithmetic dialect: the machine
// computes the evaluation semantics.
// ---------------------------------------------------------------------
/// The symbol table binds exactly the names the environment holds.
pub open spec fn doms_match(vars: Seq<(Seq<char>, usize)>, env: Map<Seq<char>, i64>) -> bool {
    forall|n: Seq<char>| (#[trigger] st_find(vars, n)) is Some <==> env.contains_key(n)
}

/// Every bound name's slot holds its environment value.
pub open spec fn env_matches(
    vars: Seq<(Seq<char>, usize)>,
    env: Map<Seq<char>, i64>,
    slots: Seq<i64>,
) -> bool {
    forall|n: Seq<char>|
        (#[trigger] st_find(vars, n)) matches Some(slot) ==> slot < slots.len()
            && env.contains_key(n) && slots[slot as int] == env[n]
}

/// Lowering and evaluation fail together: when evaluation succeeds the
/// only possible lowering failure is the builder's capacity, and when
/// lowering succeeds the only possible evaluation failure is a division
/// by zero. On shared success the symbol table tracks the environment.
pub proof fn lemma_lower_errs(e: ExprV, s: LowerSt, env: Map<Seq<char>, i64>)
    requires
        doms_match(s.vars, env),
    ensures
        lower_expr(e, s) matches Ok(pr) ==> (eval_expr(e, env) matches Ok(ev) ==> doms_match(
            pr.0.vars,
            ev.1,
        )),
        lower_expr(e, s) matches Err(er) ==> (eval_expr(e, env) is Ok ==> er is Generic),
        eval_expr(e, env) matches Err(er) ==> (lower_expr(e, s) is Ok ==> er is DivByZero),
    decreases e,
{
    match e {
        ExprV::Value(_) => {},
        ExprV::Add(l, r) => {
            lemma_lower_errs(*l, s, env);
            if let (Ok(p1), Ok(v1)) = (lower_expr(*l, s), eval_expr(*l, env)) {
                lemma_lower_errs(*r, p1.0, v1.1);
            }
        },
        ExprV::Sub(l, r) => {
            lemma_lower_errs(*l, s, env);
            if let (Ok(p1), Ok(v1)) = (lower_expr(*l, s), eval_expr(*l, env)) {
                lemma_lower_errs(*r, p1.0, v1.1);
            }
        },
        ExprV::Mul(l, r) => {
            lemma_lower_errs(*l, s, env);
            if let (Ok(p1), Ok(v1)) = (lower_expr(*l, s), eval_expr(*l, env)) {
                lemma_lower_errs(*r, p1.0, v1.1);
            }
        },
        ExprV::Div(l, r) => {
            lemma_lower_errs(*l, s, env);
            if let (Ok(p1), Ok(v1)) = (lower_expr(*l, s), eval_expr(*l, env)) {
                lemma_lower_errs(*r, p1.0, v1.1);
            }
        },
        ExprV::Var(_) => {},
        ExprV::Let(n, e1) => {
            if s.nslots != usize::MAX {
                let slot = s.nslots;
                let s1 = LowerSt {
                    insts: s.insts,
                    nslots: (s.nslots + 1) as usize,
                    vars: s.vars,
                };
                lemma_lower_errs(*e1, s1, env);
                if let (Ok(p1), Ok(v1)) = (lower_expr(*e1, s1), eval_expr(*e1, env)) {
                    lemma_doms_match_push(p1.0.vars, v1.1, n, slot, v1.0);
                }
            }
        },
        ExprV::Paren(e1) => {
            lemma_lower_errs(*e1, s, env);
        },
    }
}

/// Rebinding a name keeps the table and environment in step.
proof fn lemma_doms_match_push(
    vars: Seq<(Seq<char>, usize)>,
    env: Map<Seq<char>, i64>,
    n: Seq<char>,
    slot: usize,
    v: i64,
)
    requires
        doms_match(vars, env),
    ensures
        doms_match(vars.push((n, slot)), env.insert(n, v)),
{
    assert forall|x: Seq<char>|
        (#[trigger] st_find(vars.push((n, slot)), x)) is Some <==> env.insert(
            n,
            v,
        ).contains_key(x) by {
        assert(vars.push((n, slot)).drop_last() =~= vars);
        if x == n {
        } else {
            assert(st_find(vars.push((n, slot)), x) == st_find(vars, x));
        }
    }
}


/// The operands of a binary node, when `e` is one.
pub open spec fn binop_parts(e: ExprV) -> Option<(ExprV, ExprV)> {
    match e {
        ExprV::Add(l, r) => Some((*l, *r)),
        ExprV::Sub(l, r) => Some((*l, *r)),
        ExprV::Mul(l, r) => Some((*l, *r)),
        ExprV::Div(l, r) => Some((*l, *r)),
        _ => None,
    }
}

/// `lemma_lower_runs`, for the four binary nodes.
proof fn lemma_binop_runs(
    e: ExprV,
    l: ExprV,
    r: ExprV,
    s: LowerSt,
    env: Map<Seq<char>, i64>,
    m: MState,
    N: nat,
)
    requires
        binop_parts(e) == Some((l, r)),
        st_ok(s),
        doms_match(s.vars, env),
        env_matches(s.vars, env, m.slots),
        lower_expr(e, s) is Ok,
        (lower_expr(e, s)->Ok_0).0.nslots <= N,
        run_to(s.insts, N, s.insts.len()) == Some(m),
    ensures
        ({
            let (s2, id) = lower_expr(e, s)->Ok_0;
            match eval_expr(e, env) {
                Ok((v, env2)) => run_to(s2.insts, N, s2.insts.len()) matches Some(m2)
                    && m.vals.is_prefix_of(m2.vals) && (id as int) < m2.vals.len()
                    && m2.vals[id as int] == v && env_matches(s2.vars, env2, m2.slots)
                    && m2.prints == m.prints,
                Err(_) => run_to(s2.insts, N, s2.insts.len()) is None,
            }
        }),
    decreases e, 0int,
{
    crate::compiler::lemma_run_len(s.insts, N, s.insts.len());
    crate::compiler::lemma_lower_wf(e, s);
    crate::compiler::lemma_lower_wf(l, s);
    let (s1, a) = lower_expr(l, s)->Ok_0;
    crate::compiler::lemma_lower_wf(r, s1);
    let (sr, b) = lower_expr(r, s1)->Ok_0;
    let (s2, id) = lower_expr(e, s)->Ok_0;
    assert(s2.insts == sr.insts.push(s2.insts.last()));
    assert(sr.insts.is_prefix_of(s2.insts)) by {
        crate::compiler::lemma_prefix_push(sr.insts, s2.insts.last());
    };
    lemma_lower_errs(l, s, env);
    lemma_lower_runs(l, s, env, m, N);
    match eval_expr(l, env) {
        Err(_) => {
            assert(s1.insts.is_prefix_of(s2.insts)) by {
                crate::compiler::lemma_prefix_trans(s1.insts, sr.insts, s2.insts);
            };
            crate::compiler::lemma_run_prefix(s1.insts, s2.insts, N, s1.insts.len());
            crate::compiler::lemma_run_stuck(s2.insts, N, s1.insts.len(), s2.insts.len());
        },
        Ok((v1, env1)) => {
            let m1 = run_to(s1.insts, N, s1.insts.len())->Some_0;
            crate::compiler::lemma_run_len(s1.insts, N, s1.insts.len());
            lemma_lower_runs(r, s1, env1, m1, N);
            match eval_expr(r, env1) {
                Err(_) => {
                    crate::compiler::lemma_run_prefix(sr.insts, s2.insts, N, sr.insts.len());
                    crate::compiler::lemma_run_stuck(
                        s2.insts,
                        N,
                        sr.insts.len(),
                        s2.insts.len(),
                    );
                },
                Ok((v2, env2)) => {
                    let m2 = run_to(sr.insts, N, sr.insts.len())->Some_0;
                    crate::compiler::lemma_run_len(sr.insts, N, sr.insts.len());
                    assert(m1.vals[a as int] == v1);
                    assert(m2.vals[a as int] == v1) by {
                        assert(m1.vals =~= m2.vals.subrange(0, m1.vals.len() as int));
                    };
                    assert(m2.vals[b as int] == v2);
                    crate::compiler::lemma_run_prefix(sr.insts, s2.insts, N, sr.insts.len());
                    assert(run_to(s2.insts, N, sr.insts.len() + 1) == mstep(
                        s2.insts[sr.insts.len() as int],
                        m2,
                    ));
                    crate::compiler::lemma_prefix_trans(m.vals, m1.vals, m2.vals);
                    match e {
                        ExprV::Add(_, _) => {
                            assert(s2.insts[sr.insts.len() as int] == Inst::Add(a, b));
                            crate::compiler::lemma_prefix_push(m2.vals, v1.wrapping_add(v2));
                            crate::compiler::lemma_prefix_trans(
                                m.vals,
                                m2.vals,
                                m2.vals.push(v1.wrapping_add(v2)),
                            );
                        },
                        ExprV::Sub(_, _) => {
                            assert(s2.insts[sr.insts.len() as int] == Inst::Sub(a, b));
                            crate::compiler::lemma_prefix_push(m2.vals, v1.wrapping_sub(v2));
                            crate::compiler::lemma_prefix_trans(
                                m.vals,
                                m2.vals,
                                m2.vals.push(v1.wrapping_sub(v2)),
                            );
                        },
                        ExprV::Mul(_, _) => {
                            assert(s2.insts[sr.insts.len() as int] == Inst::Mul(a, b));
                            crate::compiler::lemma_prefix_push(m2.vals, v1.wrapping_mul(v2));
                            crate::compiler::lemma_prefix_trans(
                                m.vals,
                                m2.vals,
                                m2.vals.push(v1.wrapping_mul(v2)),
                            );
                        },
                        ExprV::Div(_, _) => {
                            assert(s2.insts[sr.insts.len() as int] == Inst::Div(a, b));
                            if v2 != 0 {
                                crate::compiler::lemma_prefix_push(
                                    m2.vals,
                                    crate::expr::div_wrap(v1, v2),
                                );
                                crate::compiler::lemma_prefix_trans(
                                    m.vals,
                                    m2.vals,
                                    m2.vals.push(crate::expr::div_wrap(v1, v2)),
                                );
                            }
                        },
                        _ => {},
                    }
                },
            }
        },
    }
}

/// Law: the compiled code computes the evaluation semantics. For any
/// expression whose lowering succeeds, running the machine over the new
/// instructions yields exactly the evaluated value and keeps every bound
/// name's slot equal to its environment value; when evaluation faults
/// (division by zero), the machine run faults too.
pub proof fn lemma_lower_runs(e: ExprV, s: LowerSt, env: Map<Seq<char>, i64>, m: MState, N: nat)
    requires
        st_ok(s),
        doms_match(s.vars, env),
        env_matches(s.vars, env, m.slots),
        lower_expr(e, s) is Ok,
        (lower_expr(e, s)->Ok_0).0.nslots <= N,
        run_to(s.insts, N, s.insts.len()) == Some(m),
    ensures
        ({
            let (s2, id) = lower_expr(e, s)->Ok_0;
            match eval_expr(e, env) {
                Ok((v, env2)) => run_to(s2.insts, N, s2.insts.len()) matches Some(m2)
                    && m.vals.is_prefix_of(m2.vals) && (id as int) < m2.vals.len()
                    && m2.vals[id as int] == v && env_matches(s2.vars, env2, m2.slots)
                    && m2.prints == m.prints,
                Err(_) => run_to(s2.insts, N, s2.insts.len()) is None,
            }
        }),
    decreases e, 1int,
{
    crate::compiler::lemma_run_len(s.insts, N, s.insts.len());
    crate::compiler::lemma_lower_wf(e, s);
    match e {
        ExprV::Value(n) => {
            let s2 = (lower_expr(e, s)->Ok_0).0;
            crate::compiler::lemma_prefix_push(s.insts, Inst::Const(n));
            crate::compiler::lemma_run_prefix(s.insts, s2.insts, N, s.insts.len());
            assert(s2.insts[s.insts.len() as int] == Inst::Const(n));
            assert(run_to(s2.insts, N, s.insts.len() + 1) == mstep(Inst::Const(n), m));
            crate::compiler::lemma_prefix_push(m.vals, n);
        },
        ExprV::Add(l, r) => {
            lemma_binop_runs(e, *l, *r, s, env, m, N);
        },
        ExprV::Sub(l, r) => {
            lemma_binop_runs(e, *l, *r, s, env, m, N);
        },
        ExprV::Mul(l, r) => {
            lemma_binop_runs(e, *l, *r, s, env, m, N);
        },
        ExprV::Div(l, r) => {
            lemma_binop_runs(e, *l, *r, s, env, m, N);
        },
        ExprV::Var(n) => {
            let slot = st_find(s.vars, n)->Some_0;
            let s2 = (lower_expr(e, s)->Ok_0).0;
            assert(env.contains_key(n));
            assert(slot < m.slots.len() && m.slots[slot as int] == env[n]);
            crate::compiler::lemma_prefix_push(s.insts, Inst::Load(slot));
            crate::compiler::lemma_run_prefix(s.insts, s2.insts, N, s.insts.len());
            assert(s2.insts[s.insts.len() as int] == Inst::Load(slot));
            assert(run_to(s2.insts, N, s.insts.len() + 1) == mstep(Inst::Load(slot), m));
            crate::compiler::lemma_prefix_push(m.vals, m.slots[slot as int]);
        },
        ExprV::Let(n, e1) => {
            let slot = s.nslots;
            let s1 = LowerSt { insts: s.insts, nslots: (s.nslots + 1) as usize, vars: s.vars };
            assert(st_ok(s1)) by {
                crate::compiler::lemma_prog_wf_mono(s.insts, s.nslots as nat, s1.nslots as nat);
            };
            lemma_lower_errs(*e1, s1, env);
            crate::compiler::lemma_lower_wf(*e1, s1);
            let (s2e, vid) = lower_expr(*e1, s1)->Ok_0;
            lemma_lower_runs(*e1, s1, env, m, N);
            match eval_expr(*e1, env) {
                Ok((v, env1)) => {
                    let m2 = run_to(s2e.insts, N, s2e.insts.len())->Some_0;
                    crate::compiler::lemma_run_len(s2e.insts, N, s2e.insts.len());
                    let s2 = (lower_expr(e, s)->Ok_0).0;
                    crate::compiler::lemma_prefix_push(s2e.insts, Inst::Store(slot, vid));
                    crate::compiler::lemma_run_prefix(s2e.insts, s2.insts, N, s2e.insts.len());
                    assert(s2.insts[s2e.insts.len() as int] == Inst::Store(slot, vid));
                    assert(slot < m2.slots.len());
                    assert(run_to(s2.insts, N, s2e.insts.len() + 1) == mstep(
                        Inst::Store(slot, vid),
                        m2,
                    ));
                    let m3 = MState {
                        vals: m2.vals.push(m2.vals[vid as int]),
                        slots: m2.slots.update(slot as int, m2.vals[vid as int]),
                        prints: m2.prints,
                    };
                    crate::compiler::lemma_prefix_push(m2.vals, m2.vals[vid as int]);
                    crate::compiler::lemma_prefix_trans(m.vals, m2.vals, m3.vals);
                    assert(env_matches(s2.vars, env1.insert(n, v), m3.slots)) by {
                        assert forall|x: Seq<char>|
                            (#[trigger] st_find(s2.vars, x)) is Some implies ({
                            let t = st_find(s2.vars, x)->Some_0;
                            &&& t < m3.slots.len()
                            &&& env1.insert(n, v).contains_key(x)
                            &&& m3.slots[t as int] == env1.insert(n, v)[x]
                        }) by {
                            assert(s2.vars.drop_last() =~= s2e.vars);
                            if x == n {
                                assert(st_find(s2.vars, x) == Some(slot));
                            } else {
                                assert(st_find(s2.vars, x) == st_find(s2e.vars, x));
                                let t0 = st_find(s2e.vars, x)->Some_0;
                                crate::compiler::lemma_st_find_entry(s2e.vars, x);
                                let k = choose|k: int|
                                    0 <= k < s2e.vars.len() && (#[trigger] s2e.vars[k]) == (x, t0);
                                if k < s.vars.len() {
                                    assert(s2e.vars[k] == s.vars[k]);
                                    assert(s.vars[k].1 < s.nslots);
                                } else {
                                    assert(s2e.vars[k].1 >= s1.nslots);
                                }
                                assert(t0 != slot);
                            }
                        }
                    };
                },
                Err(_) => {
                    let s2 = (lower_expr(e, s)->Ok_0).0;
                    assert(s2e.insts.is_prefix_of(s2.insts)) by {
                        crate::compiler::lemma_prefix_push(s2e.insts, Inst::Store(slot, vid));
                    };
                    crate::compiler::lemma_run_prefix(s2e.insts, s2.insts, N, s2e.insts.len());
                    crate::compiler::lemma_run_stuck(s2.insts, N, s2e.insts.len(), s2.insts.len());
                },
            }
        },
        ExprV::Paren(e1) => {
            lemma_lower_runs(*e1, s, env, m, N);
        },
    }
}

/// `lemma_lower_errs`, extended over a statement sequence.
proof fn lemma_seq_errs(
    es: Seq<ExprV>,
    s: LowerSt,
    env: Map<Seq<char>, i64>,
    last_id: usize,
    last_v: i64,
)
    requires
        doms_match(s.vars, env),
    ensures
        lower_seq(es, s, last_id) matches Ok(pr) ==> (eval_seq(es, env, last_v) matches Ok(ev)
            ==> doms_match(pr.0.vars, ev.1)),
        lower_seq(es, s, last_id) matches Err(er) ==> (eval_seq(es, env, last_v) is Ok ==> er
            is Generic),
        eval_seq(es, env, last_v) matches Err(er) ==> (lower_seq(es, s, last_id) is Ok ==> er
            is DivByZero),
    decreases es.len(),
{
    if es.len() > 0 {
        lemma_lower_errs(es[0], s, env);
        if let (Ok(p1), Ok(v1)) = (lower_expr(es[0], s), eval_expr(es[0], env)) {
            lemma_seq_errs(es.drop_first(), p1.0, v1.1, p1.1, v1.0);
        }
    }
}

/// `lemma_lower_runs`, extended over a statement sequence.
proof fn lemma_seq_runs(
    es: Seq<ExprV>,
    s: LowerSt,
    env: Map<Seq<char>, i64>,
    m: MState,
    N: nat,
    last_id: usize,
    last_v: i64,
)
    requires
        st_ok(s),
        doms_match(s.vars, env),
        env_matches(s.vars, env, m.slots),
        lower_seq(es, s, last_id) is Ok,
        (lower_seq(es, s, last_id)->Ok_0).0.nslots <= N,
        run_to(s.insts, N, s.insts.len()) == Some(m),
        (last_id as int) < m.vals.len(),
        m.vals[last_id as int] == last_v,
    ensures
        ({
            let (s2, id) = lower_seq(es, s, last_id)->Ok_0;
            match eval_seq(es, env, last_v) {
                Ok((v, env2)) => run_to(s2.insts, N, s2.insts.len()) matches Some(m2)
                    && m.vals.is_prefix_of(m2.vals) && (id as int) < m2.vals.len()
                    && m2.vals[id as int] == v && env_matches(s2.vars, env2, m2.slots)
                    && m2.prints == m.prints,
                Err(_) => run_to(s2.insts, N, s2.insts.len()) is None,
            }
        }),
    decreases es.len(),
{
    crate::compiler::lemma_run_len(s.insts, N, s.insts.len());
    if es.len() > 0 {
        crate::compiler::lemma_lower_wf(es[0], s);
        let (s1, vid) = lower_expr(es[0], s)->Ok_0;
        let (s2, id) = lower_seq(es, s, last_id)->Ok_0;
        crate::compiler::lemma_lower_seq_wf(es.drop_first(), s1, vid);
        lemma_lower_errs(es[0], s, env);
        lemma_lower_runs(es[0], s, env, m, N);
        match eval_expr(es[0], env) {
            Err(_) => {
                crate::compiler::lemma_run_prefix(s1.insts, s2.insts, N, s1.insts.len());
                crate::compiler::lemma_run_stuck(s2.insts, N, s1.insts.len(), s2.insts.len());
            },
            Ok((v1, env1)) => {
                let m1 = run_to(s1.insts, N, s1.insts.len())->Some_0;
                crate::compiler::lemma_run_len(s1.insts, N, s1.insts.len());
                lemma_seq_runs(es.drop_first(), s1, env1, m1, N, vid, v1);
                if eval_seq(es.drop_first(), env1, v1) is Ok {
                    let m2 = run_to(s2.insts, N, s2.insts.len())->Some_0;
                    crate::compiler::lemma_prefix_trans(m.vals, m1.vals, m2.vals);
                }
            },
        }
    }
}

/// Law: a finished function of the expression dialect computes the
/// evaluation semantics of its statement sequence. Starting from a fresh
/// context, when the statements evaluate to a value under the empty
/// environment, the compiled function runs without fault, returns that
/// value, and prints its one diagnostic line; when evaluation faults by
/// dividing by zero, the run faults; and a lowering failure against an
/// evaluable sequence can only be the builder's capacity.
pub proof fn lemma_root_computes_eval(es: Seq<ExprV>)
    ensures
        ({
            let start = LowerSt { insts: Seq::<Inst>::empty(), nslots: 0, vars: Seq::empty() };
            match root_lower(es, start) {
                Ok(pr) => {
                    let body = pr.0.insts.push(Inst::Print);
                    match eval_seq(es, Map::empty(), 0) {
                        Ok((v, _)) => run_to(body, pr.0.nslots as nat, body.len()) matches Some(
                            m,
                        ) && (pr.1 as int) < m.vals.len() && m.vals[pr.1 as int] == v && m.prints
                            == 1,
                        Err(er) => er is DivByZero && run_to(
                            body,
                            pr.0.nslots as nat,
                            body.len(),
                        ) is None,
                    }
                },
                Err(er) => eval_seq(es, Map::empty(), 0) is Ok ==> er is Generic,
            }
        }),
{
    let start = LowerSt { insts: Seq::<Inst>::empty(), nslots: 0, vars: Seq::empty() };
    let seeded = LowerSt { insts: seq![Inst::Const(0)], nslots: 0, vars: Seq::empty() };
    assert(start.insts.push(Inst::Const(0)) =~= seeded.insts);
    assert(root_lower(es, start) == lower_seq(es, seeded, 0));
    let env0 = Map::<Seq<char>, i64>::empty();
    assert(doms_match(seeded.vars, env0)) by {
        assert forall|n: Seq<char>| !((#[trigger] st_find(seeded.vars, n)) is Some) by {}
        assert(forall|n: Seq<char>| !env0.contains_key(n));
    };
    lemma_seq_errs(es, seeded, env0, 0, 0);
    if lower_seq(es, seeded, 0) is Ok {
        let (s2, id) = lower_seq(es, seeded, 0)->Ok_0;
        let nn = s2.nslots as nat;
        let m0 = MState {
            vals: seq![0i64],
            slots: Seq::new(nn, |i: int| 0i64),
            prints: 0,
        };
        assert(run_to(seeded.insts, nn, 1) == Some(m0)) by {
            let init = MState {
                vals: Seq::<i64>::empty(),
                slots: Seq::new(nn, |i: int| 0i64),
                prints: 0,
            };
            assert(run_to(seeded.insts, nn, 0) == Some(init));
            assert(seeded.insts[0] == Inst::Const(0));
            assert(init.vals.push(0i64) =~= m0.vals);
        };
        assert(st_ok(seeded));
        assert(env_matches(seeded.vars, env0, m0.slots)) by {
            assert forall|n: Seq<char>| !((#[trigger] st_find(seeded.vars, n)) is Some) by {}
        };
        lemma_seq_runs(es, seeded, env0, m0, nn, 0, 0);
        let body = s2.insts.push(Inst::Print);
        match eval_seq(es, env0, 0) {
            Ok((v, _)) => {
                let m2 = run_to(s2.insts, nn, s2.insts.len())->Some_0;
                crate::compiler::lemma_run_len(s2.insts, nn, s2.insts.len());
                crate::compiler::lemma_prefix_push(s2.insts, Inst::Print);
                crate::compiler::lemma_run_prefix(s2.insts, body, nn, s2.insts.len());
                assert(body[s2.insts.len() as int] == Inst::Print);
                assert(run_to(body, nn, s2.insts.len() + 1) == mstep(Inst::Print, m2));
            },
            Err(_) => {
                crate::compiler::lemma_prefix_push(s2.insts, Inst::Print);
                crate::compiler::lemma_run_prefix(s2.insts, body, nn, s2.insts.len());
                crate::compiler::lemma_run_stuck(body, nn, s2.insts.len(), body.len());
            },
        }
    }
}

/// Law: the whole text pipeline of the expression dialect computes the
/// evaluation semantics. For any script text that parses completely and
/// compiles, running the finished function yields exactly what the
/// parsed statements evaluate to under the empty environment, with one
/// diagnostic print; a division by zero faults the run instead.
pub proof fn lemma_prepared_text_computes_eval(t: Seq<char>)
    ensures
        prepare_exprs_v(t) matches Ok(pr) ==> (match eval_seq(
            crate::parser::sp_exprs(t, 0).1,
            Map::empty(),
            0,
        ) {
            Ok((v, _)) => run_to(pr.0, pr.1 as nat, pr.0.len()) matches Some(m) && (pr.2 as int)
                < m.vals.len() && m.vals[pr.2 as int] == v && m.prints == 1,
            Err(er) => er is DivByZero && run_to(pr.0, pr.1 as nat, pr.0.len()) is None,
        }),
{
    if prepare_exprs_v(t) is Ok {
        lemma_root_computes_eval(crate::parser::sp_exprs(t, 0).1);
    }
}

// ---------------------------------------------------------------------
// The navigation laws of the path dialect.
// ---------------------------------------------------------------------
/// What a path means, directly: the record handle threads through the
/// segments left to right, `Root` the identity, each other segment one
/// navigation step.
pub open spec fn nav_segs(d: Seq<NodeV>, w: Wrap, segs: Seq<PathV>) -> Wrap
    decreases segs.len(),
{
    if segs.len() == 0 {
        w
    } else {
        let w1 = match segs[0] {
            PathV::Root => w,
            PathV::Key(k) => get_key_s(d, w, k),
            PathV::Idx(i) => get_idx_s(d, w, i as u64),
        };
        nav_segs(d, w1, segs.drop_first())
    }
}

/// The calls a segment sequence compiles to.
pub open spec fn path_calls(segs: Seq<PathV>) -> Seq<PathOpV>
    decreases segs.len(),
{
    if segs.len() == 0 {
        Seq::empty()
    } else {
        match segs[0] {
            PathV::Root => path_calls(segs.drop_first()),
            PathV::Key(k) => seq![PathOpV::GetKey(k)] + path_calls(segs.drop_first()),
            PathV::Idx(i) => seq![PathOpV::GetIdx(i as u64)] + path_calls(segs.drop_first()),
        }
    }
}

/// The runtime support table resolves both navigation primitives.
proof fn lemma_stdlib_has_nav()
    ensures
        fn_find(stdlib_decls(), "jq_get_key"@) is Some,
        fn_find(stdlib_decls(), "jq_get_idx"@) is Some,
{
    reveal_strlit("printd");
    reveal_strlit("printjson");
    reveal_strlit("dbg");
    reveal_strlit("jq_get_key");
    reveal_strlit("jq_get_idx");
    let fs = stdlib_decls();
    assert(fs.len() == 5);
    assert(fs[3].proto.name == "jq_get_key"@);
    assert(fs[4].proto.name == "jq_get_idx"@);
    assert(fs[0].proto.name == "printd"@ && fs[1].proto.name == "printjson"@ && fs[2].proto.name
        == "dbg"@);
    assert("jq_get_key"@ != "jq_get_idx"@) by {
        assert("jq_get_key"@[7] == 'k');
        assert("jq_get_idx"@[7] == 'i');
    };
    lemma_fn_find_hit(fs, "jq_get_key"@, 3);
    lemma_fn_find_hit(fs, "jq_get_idx"@, 4);
}

/// With both primitives declared, lowering a path succeeds and appends
/// exactly its calls.
proof fn lemma_lower_path_calls(segs: Seq<PathV>, ops0: Seq<PathOpV>, funcs: Seq<DeclaredV>)
    requires
        fn_find(funcs, "jq_get_key"@) is Some,
        fn_find(funcs, "jq_get_idx"@) is Some,
    ensures
        lower_path(segs, ops0, funcs) == Ok::<_, crate::compiler::CErrV>(ops0 + path_calls(segs)),
    decreases segs.len(),
{
    if segs.len() == 0 {
        assert(ops0 + path_calls(segs) =~= ops0);
    } else {
        match segs[0] {
            PathV::Root => {
                lemma_lower_path_calls(segs.drop_first(), ops0, funcs);
            },
            PathV::Key(k) => {
                lemma_lower_path_calls(segs.drop_first(), ops0.push(PathOpV::GetKey(k)), funcs);
                assert(ops0.push(PathOpV::GetKey(k)) + path_calls(segs.drop_first()) =~= ops0 + (
                seq![PathOpV::GetKey(k)] + path_calls(segs.drop_first())));
            },
            PathV::Idx(i) => {
                lemma_lower_path_calls(
                    segs.drop_first(),
                    ops0.push(PathOpV::GetIdx(i as u64)),
                    funcs,
                );
                assert(ops0.push(PathOpV::GetIdx(i as u64)) + path_calls(segs.drop_first()) =~= ops0
                    + (seq![PathOpV::GetIdx(i as u64)] + path_calls(segs.drop_first())));
            },
        }
    }
}

/// Running a path's compiled calls is exactly navigating its segments.
proof fn lemma_path_calls_navigate(d: Seq<NodeV>, w: Wrap, segs: Seq<PathV>)
    ensures
        run_ops(d, w, path_calls(segs)) == nav_segs(d, w, segs),
    decreases segs.len(),
{
    if segs.len() > 0 {
        match segs[0] {
            PathV::Root => {
                lemma_path_calls_navigate(d, w, segs.drop_first());
            },
            PathV::Key(k) => {
                let calls = seq![PathOpV::GetKey(k)] + path_calls(segs.drop_first());
                assert(calls[0] == PathOpV::GetKey(k));
                assert(calls.drop_first() =~= path_calls(segs.drop_first()));
                lemma_path_calls_navigate(d, get_key_s(d, w, k), segs.drop_first());
            },
            PathV::Idx(i) => {
                let calls = seq![PathOpV::GetIdx(i as u64)] + path_calls(segs.drop_first());
                assert(calls[0] == PathOpV::GetIdx(i as u64));
                assert(calls.drop_first() =~= path_calls(segs.drop_first()));
                lemma_path_calls_navigate(d, get_idx_s(d, w, i as u64), segs.drop_first());
            },
        }
    }
}

/// Law: the round trip from a path text through compilation to
/// execution. Whenever the text parses, preparation succeeds, and the
/// compiled function navigates any document exactly as the parsed
/// segments dictate, step by step from the given record handle.
pub proof fn lemma_prepare_navigates(t: Seq<char>, d: Seq<NodeV>, w: Wrap)
    ensures
        sp_path(t, 0) is Some ==> prepare_v(t) is Ok,
        (sp_path(t, 0) is Some && prepare_v(t) is Ok) ==> run_ops(d, w, prepare_v(t)->Ok_0)
            == nav_segs(d, w, sp_path(t, 0)->Some_0.1),
{
    lemma_stdlib_has_nav();
    if let Some((q, segs)) = sp_path(t, 0) {
        lemma_lower_path_calls(segs, Seq::empty(), stdlib_decls());
        assert(Seq::<PathOpV>::empty() + path_calls(segs) =~= path_calls(segs));
        lemma_path_calls_navigate(d, w, segs);
    }
}

/// Later segments are field or index steps, never the root.
proof fn lemma_path_rest_no_root(t: Seq<char>, p: nat)
    ensures
        forall|k: int|
            0 <= k < sp_path_rest(t, p).1.len() ==> !((#[trigger] sp_path_rest(t, p).1[k])
                is Root),
    decreases t.len() - p,
{
    if p < t.len() {
        match sp_path_seg(t, p) {
            Some((q0, s)) => {
                let q = if p + 1 <= q0 && q0 <= t.len() {
                    q0
                } else {
                    t.len()
                };
                lemma_path_rest_no_root(t, q);
                assert(!(s is Root));
            },
            None => {},
        }
    }
}

/// Law: in a parsed path the root is the first segment and appears
/// nowhere else; every later segment is a field or index step.
pub proof fn lemma_root_only_first(t: Seq<char>)
    ensures
        sp_path(t, 0) matches Some(pr) ==> pr.1.len() >= 1 && pr.1[0] is Root && (forall|k: int|
            1 <= k < pr.1.len() ==> !((#[trigger] pr.1[k]) is Root)),
{
    if let Some((q, segs)) = sp_path(t, 0) {
        if 0 < t.len() && t[0] == '.' {
            match crate::parser::sp_first_seg(t, 1) {
                Some((q0, s)) => {
                    lemma_path_rest_no_root(t, if q0 <= t.len() {
                        q0
                    } else {
                        t.len()
                    });
                    assert(!(s is Root));
                },
                None => {},
            }
        }
    }
}

/// Law: preparing a path text is a mathematical function of the text,
/// with no dependence on time, randomness, or iteration order: two
/// preparations of the same text in separate sessions yield functionally
/// equal programs.
pub proof fn lemma_prepare_deterministic(
    t: Seq<char>,
    r1: Result<Seq<PathOpV>, ScriptErrV>,
    r2: Result<Seq<PathOpV>, ScriptErrV>,
)
    requires
        r1 == prepare_v(t),
        r2 == prepare_v(t),
    ensures
        r1 == r2,
{
}

} // verus!
