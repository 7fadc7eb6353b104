//! The code generator and engine for the arithmetic dialect, and the
//! pieces both dialects share: the record handle, the compiler errors,
//! the modeled native types, and the registry of declared primitives.
//!
//! Lowering turns an AST into a straight-line instruction sequence over
//! value ids (each instruction's id is its index). Every executable step
//! is proved equal to a specification mirror, so what the compiler emits
//! and what the engine computes are mathematical functions of the input.
use crate::doc::JsonDoc;
use crate::doc::render_node;
use crate::expr::Expr;
use crate::expr::ExprV;
use crate::expr::div_wrap;
use crate::expr::expr_view;
use crate::parser::exprs_view;
use crate::std_lib::JQType;
use crate::std_lib::ProtoV;
use crate::std_lib::Prototype;
use vstd::prelude::*;

verus! {

/// The record handle passed between host and compiled code: a document
/// handle (an arena index) and an error code. Error `0` means success.
#[derive(PartialEq, Eq, Structural, Clone, Copy, Debug)]
pub struct Wrap {
    pub error: u64,
    pub json: usize,
}

/// A fatal arithmetic fault of the engine. Navigation failures travel
/// in-band in `Wrap.error`; a division by zero instead ends the run,
/// reported rather than faulting the process.
#[derive(PartialEq, Eq, Structural, Clone, Copy, Debug)]
pub enum Fault {
    DivByZero,
}

/// A failure of the compile phase.
#[derive(Debug)]
pub enum CompilerError {
    Generic,
    UnknownFunction(String),
    UnknownVariable(String),
}

/// Ghost mirror of `CompilerError`.
pub enum CErrV {
    Generic,
    UnknownFunction(Seq<char>),
    UnknownVariable(Seq<char>),
}

impl View for CompilerError {
    type V = CErrV;

    open spec fn view(&self) -> CErrV {
        match self {
            CompilerError::Generic => CErrV::Generic,
            CompilerError::UnknownFunction(n) => CErrV::UnknownFunction(n@),
            CompilerError::UnknownVariable(n) => CErrV::UnknownVariable(n@),
        }
    }
}

impl CompilerError {
    /// A short rendering of the error for reporting.
    pub fn describe(&self) -> (s: String)
        ensures
            s@ == match self@ {
                CErrV::Generic => "compile failed"@,
                CErrV::UnknownFunction(n) => "unknown function "@ + n,
                CErrV::UnknownVariable(n) => "unknown variable "@ + n,
            },
    {
        match self {
            CompilerError::Generic => "compile failed".to_owned(),
            CompilerError::UnknownFunction(n) => {
                let mut s = "unknown function ".to_owned();
                s.append(n.as_str());
                s
            },
            CompilerError::UnknownVariable(n) => {
                let mut s = "unknown variable ".to_owned();
                s.append(n.as_str());
                s
            },
        }
    }
}

// ---------------------------------------------------------------------
// Modeled native value and function types.
// ---------------------------------------------------------------------
/// The value types generated code works with: the two-word record pair,
/// a 64-bit integer, a 64-bit float, or a pointer to string bytes.
#[derive(PartialEq, Eq, Structural, Clone, Copy, Debug)]
pub enum IRType {
    JsonPair,
    Int64,
    Float64,
    StrPtr,
}

/// A declared function signature; `ret` of `None` is a void return.
pub struct FnType {
    pub params: Vec<IRType>,
    pub ret: Option<IRType>,
}

/// Ghost mirror of `FnType`.
pub struct FnTypeV {
    pub params: Seq<IRType>,
    pub ret: Option<IRType>,
}

impl View for FnType {
    type V = FnTypeV;

    open spec fn view(&self) -> FnTypeV {
        FnTypeV { params: self.params@, ret: self.ret }
    }
}

/// One declared primitive: its prototype and its lowered signature.
pub struct Declared {
    pub proto: Prototype,
    pub sig: FnType,
}

/// Ghost mirror of `Declared`.
pub struct DeclaredV {
    pub proto: ProtoV,
    pub sig: FnTypeV,
}

impl View for Declared {
    type V = DeclaredV;

    open spec fn view(&self) -> DeclaredV {
        DeclaredV { proto: self.proto@, sig: self.sig@ }
    }
}

pub open spec fn declared_view(fs: Seq<Declared>) -> Seq<DeclaredV> {
    fs.map_values(|d: Declared| d@)
}

/// The value type for one parameter tag. The `Void` tag has no value
/// type; a generator asking for one is a programming error, so it is
/// excluded by precondition.
pub open spec fn type_for_v(t: JQType) -> IRType {
    match t {
        JQType::JSON => IRType::JsonPair,
        JQType::Integer => IRType::Int64,
        JQType::Float => IRType::Float64,
        JQType::String => IRType::StrPtr,
        JQType::Void => IRType::JsonPair,
    }
}

/// The signature for a return tag and parameter types. No function
/// returns a string, so that tag is excluded by precondition.
pub open spec fn fn_type_v(t: JQType, params: Seq<IRType>) -> FnTypeV {
    FnTypeV {
        params,
        ret: match t {
            JQType::JSON => Some(IRType::JsonPair),
            JQType::Integer => Some(IRType::Int64),
            JQType::Float => Some(IRType::Float64),
            JQType::Void => None,
            JQType::String => None,
        },
    }
}

/// The index of the first declared function with the given name.
pub open spec fn fn_find(fs: Seq<DeclaredV>, name: Seq<char>) -> Option<nat>
    decreases fs.len(),
{
    if fs.len() == 0 {
        None
    } else if fs[0].proto.name == name {
        Some(0nat)
    } else {
        match fn_find(fs.drop_first(), name) {
            Some(j) => Some(j + 1),
            None => None,
        }
    }
}

pub proof fn lemma_fn_find_hit(fs: Seq<DeclaredV>, name: Seq<char>, k: nat)
    requires
        k < fs.len(),
        fs[k as int].proto.name == name,
        forall|j: int| 0 <= j < k ==> (#[trigger] fs[j]).proto.name != name,
    ensures
        fn_find(fs, name) == Some(k),
    decreases k,
{
    if k > 0 {
        lemma_fn_find_hit(fs.drop_first(), name, (k - 1) as nat);
    }
}

proof fn lemma_fn_find_miss(fs: Seq<DeclaredV>, name: Seq<char>)
    requires
        forall|j: int| 0 <= j < fs.len() ==> (#[trigger] fs[j]).proto.name != name,
    ensures
        fn_find(fs, name) is None,
    decreases fs.len(),
{
    if fs.len() > 0 {
        lemma_fn_find_miss(fs.drop_first(), name);
    }
}

/// Looks a primitive up by name in a registry; the error names the
/// missing function.
pub fn find_function(fs: &Vec<Declared>, name: &str) -> (r: Result<usize, CompilerError>)
    ensures
        r matches Ok(idx) ==> fn_find(declared_view(fs@), name@) == Some(idx as nat),
        r matches Err(e) ==> fn_find(declared_view(fs@), name@) is None && e@
            == CErrV::UnknownFunction(name@),
{
    let owned = name.to_owned();
    let mut k: usize = 0;
    while k < fs.len()
        invariant
            k <= fs@.len(),
            owned@ == name@,
            forall|j: int| 0 <= j < k ==> (#[trigger] declared_view(fs@)[j]).proto.name != name@,
        decreases fs@.len() - k,
    {
        if fs[k].proto.name == owned {
            proof {
                lemma_fn_find_hit(declared_view(fs@), name@, k as nat);
            }
            return Ok(k);
        }
        k = k + 1;
    }
    proof {
        lemma_fn_find_miss(declared_view(fs@), name@);
    }
    Err(CompilerError::UnknownFunction(owned))
}

/// A code-generation context: it owns a registry of callable primitives,
/// can lower type tags, and resolves calls by name.
pub trait Compiler: Sized {
    /// The state of the context apart from the registry.
    type Frame;

    /// The registry of declared primitives.
    spec fn funcs(&self) -> Seq<DeclaredV>;

    /// Everything of the context but the registry.
    spec fn frame(&self) -> Self::Frame;

    /// Adds one declared primitive to the registry and returns its index.
    fn declare(&mut self, d: Declared) -> (idx: usize)
        ensures
            final(self).funcs() == old(self).funcs().push(d@),
            idx as nat == old(self).funcs().len(),
            final(self).frame() == old(self).frame();

    /// The value type for one parameter tag.
    fn type_for(&self, t: &JQType) -> (r: IRType)
        requires
            *t != JQType::Void,
        ensures
            r == type_for_v(*t);

    /// The signature for a return tag and parameter types.
    fn fn_type_for(&self, t: &JQType, args: &[IRType]) -> (r: FnType)
        requires
            *t != JQType::String,
        ensures
            r@ == fn_type_v(*t, args@);

    /// Resolves a primitive by name against the registry.
    fn get_function(&self, name: &str) -> (r: Result<usize, CompilerError>)
        ensures
            r matches Ok(idx) ==> fn_find(self.funcs(), name@) == Some(idx as nat),
            r matches Err(e) ==> fn_find(self.funcs(), name@) is None && e@
                == CErrV::UnknownFunction(name@);
}

// ---------------------------------------------------------------------
// The instruction form and its machine semantics.
// ---------------------------------------------------------------------
/// One instruction. A value id names the result of the instruction at
/// that index; `Load`/`Store` move values between ids and local slots.
/// `Print` renders the current record's document to the diagnostic
/// channel.
#[derive(PartialEq, Eq, Structural, Clone, Copy, Debug)]
pub enum Inst {
    Const(i64),
    Add(usize, usize),
    Sub(usize, usize),
    Mul(usize, usize),
    Div(usize, usize),
    Load(usize),
    Store(usize, usize),
    Print,
}

/// An instruction at index `i` is well formed when its operands name
/// earlier instructions and its slot exists.
pub open spec fn inst_ok(inst: Inst, i: nat, nslots: nat) -> bool {
    match inst {
        Inst::Const(_) => true,
        Inst::Add(a, b) => a < i && b < i,
        Inst::Sub(a, b) => a < i && b < i,
        Inst::Mul(a, b) => a < i && b < i,
        Inst::Div(a, b) => a < i && b < i,
        Inst::Load(s) => s < nslots,
        Inst::Store(s, v) => s < nslots && v < i,
        Inst::Print => true,
    }
}

pub open spec fn prog_wf(insts: Seq<Inst>, nslots: nat) -> bool {
    forall|i: int| 0 <= i < insts.len() ==> inst_ok(#[trigger] insts[i], i as nat, nslots)
}

/// A machine state: the values produced so far, the local slots, and how
/// many diagnostic prints have happened.
pub struct MState {
    pub vals: Seq<i64>,
    pub slots: Seq<i64>,
    pub prints: nat,
}

/// One machine step. `None` is a fault: an operand out of range, or a
/// division by zero.
pub open spec fn mstep(inst: Inst, m: MState) -> Option<MState> {
    match inst {
        Inst::Const(n) => Some(MState { vals: m.vals.push(n), slots: m.slots, prints: m.prints }),
        Inst::Add(a, b) => if a < m.vals.len() && b < m.vals.len() {
            Some(
                MState {
                    vals: m.vals.push(m.vals[a as int].wrapping_add(m.vals[b as int])),
                    slots: m.slots,
                    prints: m.prints,
                },
            )
        } else {
            None
        },
        Inst::Sub(a, b) => if a < m.vals.len() && b < m.vals.len() {
            Some(
                MState {
                    vals: m.vals.push(m.vals[a as int].wrapping_sub(m.vals[b as int])),
                    slots: m.slots,
                    prints: m.prints,
                },
            )
        } else {
            None
        },
        Inst::Mul(a, b) => if a < m.vals.len() && b < m.vals.len() {
            Some(
                MState {
                    vals: m.vals.push(m.vals[a as int].wrapping_mul(m.vals[b as int])),
                    slots: m.slots,
                    prints: m.prints,
                },
            )
        } else {
            None
        },
        Inst::Div(a, b) => if a < m.vals.len() && b < m.vals.len() && m.vals[b as int] != 0 {
            Some(
                MState {
                    vals: m.vals.push(div_wrap(m.vals[a as int], m.vals[b as int])),
                    slots: m.slots,
                    prints: m.prints,
                },
            )
        } else {
            None
        },
        Inst::Load(s) => if s < m.slots.len() {
            Some(MState { vals: m.vals.push(m.slots[s as int]), slots: m.slots, prints: m.prints })
        } else {
            None
        },
        Inst::Store(s, v) => if s < m.slots.len() && v < m.vals.len() {
            Some(
                MState {
                    vals: m.vals.push(m.vals[v as int]),
                    slots: m.slots.update(s as int, m.vals[v as int]),
                    prints: m.prints,
                },
            )
        } else {
            None
        },
        Inst::Print => Some(
            MState { vals: m.vals.push(0), slots: m.slots, prints: m.prints + 1 },
        ),
    }
}

/// The machine state after the first `k` instructions, starting from
/// zeroed slots; `None` once any step faults.
pub open spec fn run_to(insts: Seq<Inst>, nslots: nat, k: nat) -> Option<MState>
    decreases k,
{
    if k == 0 {
        Some(MState { vals: Seq::empty(), slots: Seq::new(nslots, |i: int| 0i64), prints: 0 })
    } else {
        match run_to(insts, nslots, (k - 1) as nat) {
            Some(m) => if k - 1 < insts.len() {
                mstep(insts[k - 1], m)
            } else {
                None
            },
            None => None,
        }
    }
}

/// A reached state has one value per executed instruction and all its
/// slots.
pub proof fn lemma_run_len(insts: Seq<Inst>, nslots: nat, k: nat)
    ensures
        run_to(insts, nslots, k) matches Some(m) ==> m.vals.len() == k && m.slots.len() == nslots,
    decreases k,
{
    if k > 0 {
        lemma_run_len(insts, nslots, (k - 1) as nat);
    }
}

/// A faulted run stays faulted.
pub proof fn lemma_run_stuck(insts: Seq<Inst>, nslots: nat, k: nat, j: nat)
    requires
        k <= j,
        run_to(insts, nslots, k) is None,
    ensures
        run_to(insts, nslots, j) is None,
    decreases j,
{
    if j > k {
        lemma_run_stuck(insts, nslots, k, (j - 1) as nat);
    }
}

/// A run reads only the instructions it executes, so extending the
/// program does not change it.
pub proof fn lemma_run_prefix(insts1: Seq<Inst>, insts2: Seq<Inst>, nslots: nat, k: nat)
    requires
        insts1.is_prefix_of(insts2),
        k <= insts1.len(),
    ensures
        run_to(insts2, nslots, k) == run_to(insts1, nslots, k),
    decreases k,
{
    if k > 0 {
        lemma_run_prefix(insts1, insts2, nslots, (k - 1) as nat);
        assert(insts2[k - 1] == insts1[k - 1]);
    }
}

/// A found binding is one of the table's entries.
pub proof fn lemma_st_find_entry(vars: Seq<(Seq<char>, usize)>, n: Seq<char>)
    requires
        st_find(vars, n) is Some,
    ensures
        exists|k: int|
            0 <= k < vars.len() && (#[trigger] vars[k]) == (n, st_find(vars, n).unwrap()),
    decreases vars.len(),
{
    if vars.len() > 0 {
        if vars.last().0 == n {
            assert(vars[vars.len() - 1] == (n, st_find(vars, n).unwrap()));
        } else {
            lemma_st_find_entry(vars.drop_last(), n);
            let k = choose|k: int|
                0 <= k < vars.drop_last().len() && (#[trigger] vars.drop_last()[k]) == (
                n,
                st_find(vars.drop_last(), n).unwrap(),
                );
            assert(vars[k] == (n, st_find(vars, n).unwrap()));
        }
    }
}

// ---------------------------------------------------------------------
// Lowering: from AST to instructions.
// ---------------------------------------------------------------------
/// The mutable lowering state: the instructions emitted so far, the
/// number of local slots, and the symbol table.
pub struct LowerSt {
    pub insts: Seq<Inst>,
    pub nslots: usize,
    pub vars: Seq<(Seq<char>, usize)>,
}

/// The ghost view of a symbol table.
pub open spec fn vars_view(vs: Seq<(String, usize)>) -> Seq<(Seq<char>, usize)> {
    vs.map_values(|pr: (String, usize)| (pr.0@, pr.1))
}

/// Finds a name's storage slot; the latest binding wins.
pub open spec fn st_find(vars: Seq<(Seq<char>, usize)>, n: Seq<char>) -> Option<usize>
    decreases vars.len(),
{
    if vars.len() == 0 {
        None
    } else if vars.last().0 == n {
        Some(vars.last().1)
    } else {
        st_find(vars.drop_last(), n)
    }
}

/// The lowering of one expression: the new state and the value id of the
/// expression's result.
///
/// `Value` emits a constant. A binary node lowers its left then its right
/// operand and emits the operation. `Var` loads the bound slot, or fails
/// with the unknown name. `Let` allocates a slot first, lowers the bound
/// expression under the symbol table from before the binding, stores, and
/// then rebinds the name; its result is the bound value itself. `Paren`
/// is transparent.
pub open spec fn lower_expr(e: ExprV, s: LowerSt) -> Result<(LowerSt, usize), CErrV>
    decreases e,
{
    match e {
        ExprV::Value(n) => if s.insts.len() >= usize::MAX {
            Err(CErrV::Generic)
        } else {
            Ok(
                (
                    LowerSt { insts: s.insts.push(Inst::Const(n)), nslots: s.nslots, vars: s.vars },
                    s.insts.len() as usize,
                ),
            )
        },
        ExprV::Add(l, r) => match lower_expr(*l, s) {
            Ok((s1, a)) => match lower_expr(*r, s1) {
                Ok((s2, b)) => if s2.insts.len() >= usize::MAX {
                    Err(CErrV::Generic)
                } else {
                    Ok(
                        (
                            LowerSt {
                                insts: s2.insts.push(Inst::Add(a, b)),
                                nslots: s2.nslots,
                                vars: s2.vars,
                            },
                            s2.insts.len() as usize,
                        ),
                    )
                },
                Err(er) => Err(er),
            },
            Err(er) => Err(er),
        },
        ExprV::Sub(l, r) => match lower_expr(*l, s) {
            Ok((s1, a)) => match lower_expr(*r, s1) {
                Ok((s2, b)) => if s2.insts.len() >= usize::MAX {
                    Err(CErrV::Generic)
                } else {
                    Ok(
                        (
                            LowerSt {
                                insts: s2.insts.push(Inst::Sub(a, b)),
                                nslots: s2.nslots,
                                vars: s2.vars,
                            },
                            s2.insts.len() as usize,
                        ),
                    )
                },
                Err(er) => Err(er),
            },
            Err(er) => Err(er),
        },
        ExprV::Mul(l, r) => match lower_expr(*l, s) {
            Ok((s1, a)) => match lower_expr(*r, s1) {
                Ok((s2, b)) => if s2.insts.len() >= usize::MAX {
                    Err(CErrV::Generic)
                } else {
                    Ok(
                        (
                            LowerSt {
                                insts: s2.insts.push(Inst::Mul(a, b)),
                                nslots: s2.nslots,
                                vars: s2.vars,
                            },
                            s2.insts.len() as usize,
                        ),
                    )
                },
                Err(er) => Err(er),
            },
            Err(er) => Err(er),
        },
        ExprV::Div(l, r) => match lower_expr(*l, s) {
            Ok((s1, a)) => match lower_expr(*r, s1) {
                Ok((s2, b)) => if s2.insts.len() >= usize::MAX {
                    Err(CErrV::Generic)
                } else {
                    Ok(
                        (
                            LowerSt {
                                insts: s2.insts.push(Inst::Div(a, b)),
                                nslots: s2.nslots,
                                vars: s2.vars,
                            },
                            s2.insts.len() as usize,
                        ),
                    )
                },
                Err(er) => Err(er),
            },
            Err(er) => Err(er),
        },
        ExprV::Var(n) => match st_find(s.vars, n) {
            Some(slot) => if s.insts.len() >= usize::MAX {
                Err(CErrV::Generic)
            } else {
                Ok(
                    (
                        LowerSt {
                            insts: s.insts.push(Inst::Load(slot)),
                            nslots: s.nslots,
                            vars: s.vars,
                        },
                        s.insts.len() as usize,
                    ),
                )
            },
            None => Err(CErrV::UnknownVariable(n)),
        },
        ExprV::Let(n, e1) => if s.nslots == usize::MAX {
            Err(CErrV::Generic)
        } else {
            let slot = s.nslots;
            let s1 = LowerSt { insts: s.insts, nslots: (s.nslots + 1) as usize, vars: s.vars };
            match lower_expr(*e1, s1) {
                Ok((s2, v)) => if s2.insts.len() >= usize::MAX {
                    Err(CErrV::Generic)
                } else {
                    Ok(
                        (
                            LowerSt {
                                insts: s2.insts.push(Inst::Store(slot, v)),
                                nslots: s2.nslots,
                                vars: s2.vars.push((n, slot)),
                            },
                            v,
                        ),
                    )
                },
                Err(er) => Err(er),
            }
        },
        ExprV::Paren(e1) => lower_expr(*e1, s),
    }
}

/// The lowering of a whole statement sequence into one finished function
/// body: a seed constant, the statements, and the closing diagnostic
/// print; the result id is the last statement's value.
pub open spec fn root_lower(es: Seq<ExprV>, s: LowerSt) -> Result<(LowerSt, usize), CErrV> {
    if s.insts.len() >= usize::MAX {
        Err(CErrV::Generic)
    } else {
        let seeded = LowerSt { insts: s.insts.push(Inst::Const(0)), nslots: s.nslots, vars: s.vars };
        lower_seq(es, seeded, s.insts.len() as usize)
    }
}

/// Lowers a statement sequence; the result id is the last statement's,
/// or `last` for an empty sequence.
pub open spec fn lower_seq(es: Seq<ExprV>, s: LowerSt, last: usize) -> Result<
    (LowerSt, usize),
    CErrV,
>
    decreases es.len(),
{
    if es.len() == 0 {
        Ok((s, last))
    } else {
        match lower_expr(es[0], s) {
            Ok((s1, v)) => lower_seq(es.drop_first(), s1, v),
            Err(er) => Err(er),
        }
    }
}

/// A sound lowering state: the emitted program is well formed and every
/// bound slot exists.
pub open spec fn st_ok(s: LowerSt) -> bool {
    &&& prog_wf(s.insts, s.nslots as nat)
    &&& forall|k: int| 0 <= k < s.vars.len() ==> (#[trigger] s.vars[k]).1 < s.nslots
}

/// Prefixes compose.
pub proof fn lemma_prefix_trans<T>(a: Seq<T>, b: Seq<T>, c: Seq<T>)
    requires
        a.is_prefix_of(b),
        b.is_prefix_of(c),
    ensures
        a.is_prefix_of(c),
{
    assert(a =~= c.subrange(0, a.len() as int));
}

/// A sequence is a prefix of itself extended by one element.
pub proof fn lemma_prefix_push<T>(a: Seq<T>, x: T)
    ensures
        a.is_prefix_of(a.push(x)),
{
    assert(a =~= a.push(x).subrange(0, a.len() as int));
}

/// Appending a well-formed instruction keeps the program well formed.
proof fn lemma_wf_push(s: LowerSt, inst: Inst)
    requires
        st_ok(s),
        inst_ok(inst, s.insts.len(), s.nslots as nat),
    ensures
        st_ok(LowerSt { insts: s.insts.push(inst), nslots: s.nslots, vars: s.vars }),
{
    let p = s.insts.push(inst);
    assert forall|i: int| 0 <= i < p.len() implies inst_ok(
        #[trigger] p[i],
        i as nat,
        s.nslots as nat,
    ) by {
        if i < s.insts.len() {
            assert(p[i] == s.insts[i]);
            assert(inst_ok(s.insts[i], i as nat, s.nslots as nat));
        } else {
            assert(p[i] == inst);
        }
    }
}

/// A found slot respects any bound that every table entry respects.
pub proof fn lemma_st_find_bound(vars: Seq<(Seq<char>, usize)>, n: Seq<char>, bound: usize)
    requires
        forall|k: int| 0 <= k < vars.len() ==> (#[trigger] vars[k]).1 < bound,
        st_find(vars, n) is Some,
    ensures
        st_find(vars, n).unwrap() < bound,
    decreases vars.len(),
{
    if vars.len() > 0 && vars.last().0 != n {
        lemma_st_find_bound(vars.drop_last(), n, bound);
    }
}

/// A program stays well formed when the slot count only grows.
pub proof fn lemma_prog_wf_mono(insts: Seq<Inst>, n1: nat, n2: nat)
    requires
        prog_wf(insts, n1),
        n1 <= n2,
    ensures
        prog_wf(insts, n2),
{
    assert forall|i: int| 0 <= i < insts.len() implies inst_ok(
        #[trigger] insts[i],
        i as nat,
        n2,
    ) by {
        assert(inst_ok(insts[i], i as nat, n1));
    }
}

/// Lowering preserves soundness, only appends instructions, only grows
/// the slot count, and returns a value id below the new length.
pub proof fn lemma_lower_wf(e: ExprV, s: LowerSt)
    requires
        st_ok(s),
    ensures
        lower_expr(e, s) matches Ok(pr) ==> st_ok(pr.0) && (pr.1 as nat) < pr.0.insts.len()
            && s.insts.len() <= pr.0.insts.len() && s.nslots <= pr.0.nslots
            && s.insts.is_prefix_of(pr.0.insts) && s.vars.is_prefix_of(pr.0.vars) && (forall|
            k: int,
        |
            s.vars.len() <= k < pr.0.vars.len() ==> (#[trigger] pr.0.vars[k]).1 >= s.nslots),
    decreases e,
{
    assert(s.insts.is_prefix_of(s.insts));
    assert(s.vars.is_prefix_of(s.vars));
    match e {
        ExprV::Value(n) => {
            if s.insts.len() < usize::MAX {
                lemma_wf_push(s, Inst::Const(n));
                lemma_prefix_push(s.insts, Inst::Const(n));
            }
        },
        ExprV::Add(l, r) => {
            lemma_lower_wf(*l, s);
            if let Ok((s1, a)) = lower_expr(*l, s) {
                lemma_lower_wf(*r, s1);
                if let Ok((s2, b)) = lower_expr(*r, s1) {
                    if s2.insts.len() < usize::MAX {
                        lemma_wf_push(s2, Inst::Add(a, b));
                        lemma_prefix_push(s2.insts, Inst::Add(a, b));
                        lemma_prefix_trans(s.insts, s1.insts, s2.insts);
                        lemma_prefix_trans(s.insts, s2.insts, s2.insts.push(Inst::Add(a, b)));
                        lemma_prefix_trans(s.vars, s1.vars, s2.vars);
                        assert forall|k: int|
                            s.vars.len() <= k < s2.vars.len() implies (#[trigger] s2.vars[k]).1
                            >= s.nslots by {
                            if k < s1.vars.len() {
                                assert(s2.vars[k] == s1.vars[k]);
                            } else {
                                assert(s2.vars[k].1 >= s1.nslots);
                            }
                        }
                    }
                }
            }
        },
        ExprV::Sub(l, r) => {
            lemma_lower_wf(*l, s);
            if let Ok((s1, a)) = lower_expr(*l, s) {
                lemma_lower_wf(*r, s1);
                if let Ok((s2, b)) = lower_expr(*r, s1) {
                    if s2.insts.len() < usize::MAX {
                        lemma_wf_push(s2, Inst::Sub(a, b));
                        lemma_prefix_push(s2.insts, Inst::Sub(a, b));
                        lemma_prefix_trans(s.insts, s1.insts, s2.insts);
                        lemma_prefix_trans(s.insts, s2.insts, s2.insts.push(Inst::Sub(a, b)));
                        lemma_prefix_trans(s.vars, s1.vars, s2.vars);
                        assert forall|k: int|
                            s.vars.len() <= k < s2.vars.len() implies (#[trigger] s2.vars[k]).1
                            >= s.nslots by {
                            if k < s1.vars.len() {
                                assert(s2.vars[k] == s1.vars[k]);
                            } else {
                                assert(s2.vars[k].1 >= s1.nslots);
                            }
                        }
                    }
                }
            }
        },
        ExprV::Mul(l, r) => {
            lemma_lower_wf(*l, s);
            if let Ok((s1, a)) = lower_expr(*l, s) {
                lemma_lower_wf(*r, s1);
                if let Ok((s2, b)) = lower_expr(*r, s1) {
                    if s2.insts.len() < usize::MAX {
                        lemma_wf_push(s2, Inst::Mul(a, b));
                        lemma_prefix_push(s2.insts, Inst::Mul(a, b));
                        lemma_prefix_trans(s.insts, s1.insts, s2.insts);
                        lemma_prefix_trans(s.insts, s2.insts, s2.insts.push(Inst::Mul(a, b)));
                        lemma_prefix_trans(s.vars, s1.vars, s2.vars);
                        assert forall|k: int|
                            s.vars.len() <= k < s2.vars.len() implies (#[trigger] s2.vars[k]).1
                            >= s.nslots by {
                            if k < s1.vars.len() {
                                assert(s2.vars[k] == s1.vars[k]);
                            } else {
                                assert(s2.vars[k].1 >= s1.nslots);
                            }
                        }
                    }
                }
            }
        },
        ExprV::Div(l, r) => {
            lemma_lower_wf(*l, s);
            if let Ok((s1, a)) = lower_expr(*l, s) {
                lemma_lower_wf(*r, s1);
                if let Ok((s2, b)) = lower_expr(*r, s1) {
                    if s2.insts.len() < usize::MAX {
                        lemma_wf_push(s2, Inst::Div(a, b));
                        lemma_prefix_push(s2.insts, Inst::Div(a, b));
                        lemma_prefix_trans(s.insts, s1.insts, s2.insts);
                        lemma_prefix_trans(s.insts, s2.insts, s2.insts.push(Inst::Div(a, b)));
                        lemma_prefix_trans(s.vars, s1.vars, s2.vars);
                        assert forall|k: int|
                            s.vars.len() <= k < s2.vars.len() implies (#[trigger] s2.vars[k]).1
                            >= s.nslots by {
                            if k < s1.vars.len() {
                                assert(s2.vars[k] == s1.vars[k]);
                            } else {
                                assert(s2.vars[k].1 >= s1.nslots);
                            }
                        }
                    }
                }
            }
        },
        ExprV::Var(n) => {
            if st_find(s.vars, n) is Some && s.insts.len() < usize::MAX {
                lemma_st_find_bound(s.vars, n, s.nslots);
                lemma_wf_push(s, Inst::Load(st_find(s.vars, n).unwrap()));
                lemma_prefix_push(s.insts, Inst::Load(st_find(s.vars, n).unwrap()));
            }
        },
        ExprV::Let(n, e1) => {
            if s.nslots != usize::MAX {
                let slot = s.nslots;
                let s1 = LowerSt {
                    insts: s.insts,
                    nslots: (s.nslots + 1) as usize,
                    vars: s.vars,
                };
                assert(st_ok(s1)) by {
                    lemma_prog_wf_mono(s.insts, s.nslots as nat, s1.nslots as nat);
                };
                lemma_lower_wf(*e1, s1);
                if let Ok((s2, v)) = lower_expr(*e1, s1) {
                    if s2.insts.len() < usize::MAX {
                        lemma_wf_push(s2, Inst::Store(slot, v));
                        let fin = LowerSt {
                            insts: s2.insts.push(Inst::Store(slot, v)),
                            nslots: s2.nslots,
                            vars: s2.vars.push((n, slot)),
                        };
                        assert(st_ok(fin)) by {
                            assert forall|k: int| 0 <= k < fin.vars.len() implies (
                            #[trigger] fin.vars[k]).1 < fin.nslots by {
                                if k < s2.vars.len() {
                                    assert(fin.vars[k] == s2.vars[k]);
                                } else {
                                    assert(fin.vars[k] == (n, slot));
                                }
                            }
                        };
                        lemma_prefix_push(s2.insts, Inst::Store(slot, v));
                        lemma_prefix_trans(s.insts, s2.insts, fin.insts);
                        lemma_prefix_push(s2.vars, (n, slot));
                        lemma_prefix_trans(s.vars, s2.vars, fin.vars);
                        assert forall|k: int|
                            s.vars.len() <= k < fin.vars.len() implies (#[trigger] fin.vars[k]).1
                            >= s.nslots by {
                            if k < s2.vars.len() {
                                assert(fin.vars[k] == s2.vars[k]);
                                assert(s2.vars[k].1 >= s1.nslots);
                            } else {
                                assert(fin.vars[k] == (n, slot));
                            }
                        }
                    }
                }
            }
        },
        ExprV::Paren(e1) => {
            lemma_lower_wf(*e1, s);
        },
    }
}

/// `lemma_lower_wf`, extended over a statement sequence.
pub proof fn lemma_lower_seq_wf(es: Seq<ExprV>, s: LowerSt, last: usize)
    requires
        st_ok(s),
        (last as nat) < s.insts.len(),
    ensures
        lower_seq(es, s, last) matches Ok(pr) ==> st_ok(pr.0) && (pr.1 as nat) < pr.0.insts.len()
            && s.insts.len() <= pr.0.insts.len() && s.nslots <= pr.0.nslots
            && s.insts.is_prefix_of(pr.0.insts),
    decreases es.len(),
{
    assert(s.insts.is_prefix_of(s.insts));
    if es.len() > 0 {
        lemma_lower_wf(es[0], s);
        if let Ok((s1, v)) = lower_expr(es[0], s) {
            lemma_lower_seq_wf(es.drop_first(), s1, v);
            if lower_seq(es.drop_first(), s1, v) is Ok {
                lemma_prefix_trans(
                    s.insts,
                    s1.insts,
                    (lower_seq(es.drop_first(), s1, v)->Ok_0).0.insts,
                );
            }
        }
    }
}

// ---------------------------------------------------------------------
// The compiler for the arithmetic dialect.
// ---------------------------------------------------------------------
/// Something that can be lowered into a `MathCompiler`'s function body.
pub trait Compile {
    /// What lowering this node does to a lowering state.
    spec fn lowered(&self, s: LowerSt) -> Result<(LowerSt, usize), CErrV>;

    /// Lowers this node, returning the value id of its result.
    fn compile(&self, compiler: &mut MathCompiler) -> (r: Result<usize, CompilerError>)
        ensures
            self.lowered(old(compiler).lower_st()) matches Ok(pr) ==> r matches Ok(id)
                && final(compiler).lower_st() == pr.0 && id == pr.1 && final(compiler).functions@
                == old(compiler).functions@,
            self.lowered(old(compiler).lower_st()) matches Err(ev) ==> r matches Err(e) && e@
                == ev;
}

/// The code-generation context of the arithmetic dialect: the function
/// body being built, its local slots, the symbol table, and the registry
/// of callable primitives.
pub struct MathCompiler {
    pub insts: Vec<Inst>,
    pub nslots: usize,
    pub variables: Vec<(String, usize)>,
    pub functions: Vec<Declared>,
}

impl MathCompiler {
    /// The lowering state this context holds.
    pub open spec fn lower_st(&self) -> LowerSt {
        LowerSt { insts: self.insts@, nslots: self.nslots, vars: vars_view(self.variables@) }
    }

    /// A sound context: see `st_ok`.
    pub open spec fn wf(&self) -> bool {
        st_ok(self.lower_st())
    }
}

impl Compiler for MathCompiler {
    type Frame = LowerSt;

    open spec fn funcs(&self) -> Seq<DeclaredV> {
        declared_view(self.functions@)
    }

    open spec fn frame(&self) -> LowerSt {
        self.lower_st()
    }

    fn declare(&mut self, d: Declared) -> (idx: usize) {
        let idx = self.functions.len();
        self.functions.push(d);
        proof {
            assert(declared_view(self.functions@) =~= declared_view(old(self).functions@).push(
                self.functions@.last()@,
            ));
        }
        idx
    }

    fn type_for(&self, t: &JQType) -> (r: IRType) {
        match t {
            JQType::JSON => IRType::JsonPair,
            JQType::Integer => IRType::Int64,
            JQType::Float => IRType::Float64,
            JQType::String => IRType::StrPtr,
            JQType::Void => IRType::JsonPair,
        }
    }

    fn fn_type_for(&self, t: &JQType, args: &[IRType]) -> (r: FnType) {
        let params = vstd::slice::slice_to_vec(args);
        let ret = match t {
            JQType::JSON => Some(IRType::JsonPair),
            JQType::Integer => Some(IRType::Int64),
            JQType::Float => Some(IRType::Float64),
            JQType::Void => None,
            JQType::String => None,
        };
        FnType { params, ret }
    }

    fn get_function(&self, name: &str) -> (r: Result<usize, CompilerError>) {
        find_function(&self.functions, name)
    }
}

/// Looks a name up in a symbol table; the latest binding wins.
fn lookup_var(vars: &Vec<(String, usize)>, name: &String) -> (r: Option<usize>)
    ensures
        r == st_find(vars_view(vars@), name@),
{
    let mut k: usize = vars.len();
    proof {
        assert(vars_view(vars@).subrange(0, vars@.len() as int) =~= vars_view(vars@));
    }
    while k > 0
        invariant
            k <= vars@.len(),
            st_find(vars_view(vars@), name@) == st_find(
                vars_view(vars@).subrange(0, k as int),
                name@,
            ),
        decreases k,
    {
        let pr = &vars[k - 1];
        proof {
            assert(vars_view(vars@).subrange(0, k as int).last() == (vars@[k as int - 1].0@, vars@[
                k as int - 1].1));
        }
        if pr.0 == *name {
            return Some(pr.1);
        }
        proof {
            assert(vars_view(vars@).subrange(0, k as int).drop_last() =~= vars_view(
                vars@,
            ).subrange(0, k as int - 1));
        }
        k = k - 1;
    }
    proof {
        assert(vars_view(vars@).subrange(0, 0) =~= Seq::empty());
    }
    None
}

impl Expr {
    /// Lowers this expression into the context's function body.
    fn lower_into(&self, compiler: &mut MathCompiler) -> (r: Result<usize, CompilerError>)
        ensures
            lower_expr(self@, old(compiler).lower_st()) matches Ok(pr) ==> r matches Ok(id)
                && final(compiler).lower_st() == pr.0 && id == pr.1 && final(compiler).functions@
                == old(compiler).functions@,
            lower_expr(self@, old(compiler).lower_st()) matches Err(ev) ==> r matches Err(e) && e@
                == ev,
        decreases *self,
    {
        match self {
            Expr::Value(n) => {
                if compiler.insts.len() == usize::MAX {
                    return Err(CompilerError::Generic);
                }
                let id = compiler.insts.len();
                compiler.insts.push(Inst::Const(*n));
                Ok(id)
            },
            Expr::Add(b) => {
                let l = b.left.lower_into(compiler)?;
                let r = b.right.lower_into(compiler)?;
                if compiler.insts.len() == usize::MAX {
                    return Err(CompilerError::Generic);
                }
                let id = compiler.insts.len();
                compiler.insts.push(Inst::Add(l, r));
                Ok(id)
            },
            Expr::Sub(b) => {
                let l = b.left.lower_into(compiler)?;
                let r = b.right.lower_into(compiler)?;
                if compiler.insts.len() == usize::MAX {
                    return Err(CompilerError::Generic);
                }
                let id = compiler.insts.len();
                compiler.insts.push(Inst::Sub(l, r));
                Ok(id)
            },
            Expr::Mul(b) => {
                let l = b.left.lower_into(compiler)?;
                let r = b.right.lower_into(compiler)?;
                if compiler.insts.len() == usize::MAX {
                    return Err(CompilerError::Generic);
                }
                let id = compiler.insts.len();
                compiler.insts.push(Inst::Mul(l, r));
                Ok(id)
            },
            Expr::Div(b) => {
                let l = b.left.lower_into(compiler)?;
                let r = b.right.lower_into(compiler)?;
                if compiler.insts.len() == usize::MAX {
                    return Err(CompilerError::Generic);
                }
                let id = compiler.insts.len();
                compiler.insts.push(Inst::Div(l, r));
                Ok(id)
            },
            Expr::Var(name) => {
                match lookup_var(&compiler.variables, name) {
                    Some(slot) => {
                        if compiler.insts.len() == usize::MAX {
                            return Err(CompilerError::Generic);
                        }
                        let id = compiler.insts.len();
                        compiler.insts.push(Inst::Load(slot));
                        Ok(id)
                    },
                    None => Err(CompilerError::UnknownVariable(name.clone())),
                }
            },
            Expr::Let(name, e1) => {
                if compiler.nslots == usize::MAX {
                    return Err(CompilerError::Generic);
                }
                let slot = compiler.create_entry_block_alloca(name.as_str());
                let v = e1.lower_into(compiler)?;
                if compiler.insts.len() == usize::MAX {
                    return Err(CompilerError::Generic);
                }
                compiler.insts.push(Inst::Store(slot, v));
                let ghost mid = vars_view(compiler.variables@);
                compiler.variables.push((name.clone(), slot));
                proof {
                    assert(vars_view(compiler.variables@) =~= mid.push((name@, slot)));
                }
                Ok(v)
            },
            Expr::Paren(e1) => e1.lower_into(compiler),
        }
    }
}

impl Compile for Expr {
    open spec fn lowered(&self, s: LowerSt) -> Result<(LowerSt, usize), CErrV> {
        lower_expr((*self)@, s)
    }

    fn compile(&self, compiler: &mut MathCompiler) -> (r: Result<usize, CompilerError>) {
        self.lower_into(compiler)
    }
}

impl Compile for crate::expr::AddExpr {
    open spec fn lowered(&self, s: LowerSt) -> Result<(LowerSt, usize), CErrV> {
        lower_expr(ExprV::Add(Box::new(expr_view(*self.left)), Box::new(expr_view(*self.right))), s)
    }

    fn compile(&self, compiler: &mut MathCompiler) -> (r: Result<usize, CompilerError>) {
        let l = self.left.lower_into(compiler)?;
        let r = self.right.lower_into(compiler)?;
        if compiler.insts.len() == usize::MAX {
            return Err(CompilerError::Generic);
        }
        let id = compiler.insts.len();
        compiler.insts.push(Inst::Add(l, r));
        Ok(id)
    }
}

impl Compile for crate::expr::SubExpr {
    open spec fn lowered(&self, s: LowerSt) -> Result<(LowerSt, usize), CErrV> {
        lower_expr(ExprV::Sub(Box::new(expr_view(*self.left)), Box::new(expr_view(*self.right))), s)
    }

    fn compile(&self, compiler: &mut MathCompiler) -> (r: Result<usize, CompilerError>) {
        let l = self.left.lower_into(compiler)?;
        let r = self.right.lower_into(compiler)?;
        if compiler.insts.len() == usize::MAX {
            return Err(CompilerError::Generic);
        }
        let id = compiler.insts.len();
        compiler.insts.push(Inst::Sub(l, r));
        Ok(id)
    }
}

impl Compile for crate::expr::MulExpr {
    open spec fn lowered(&self, s: LowerSt) -> Result<(LowerSt, usize), CErrV> {
        lower_expr(ExprV::Mul(Box::new(expr_view(*self.left)), Box::new(expr_view(*self.right))), s)
    }

    fn compile(&self, compiler: &mut MathCompiler) -> (r: Result<usize, CompilerError>) {
        let l = self.left.lower_into(compiler)?;
        let r = self.right.lower_into(compiler)?;
        if compiler.insts.len() == usize::MAX {
            return Err(CompilerError::Generic);
        }
        let id = compiler.insts.len();
        compiler.insts.push(Inst::Mul(l, r));
        Ok(id)
    }
}

impl Compile for crate::expr::DivExpr {
    open spec fn lowered(&self, s: LowerSt) -> Result<(LowerSt, usize), CErrV> {
        lower_expr(ExprV::Div(Box::new(expr_view(*self.left)), Box::new(expr_view(*self.right))), s)
    }

    fn compile(&self, compiler: &mut MathCompiler) -> (r: Result<usize, CompilerError>) {
        let l = self.left.lower_into(compiler)?;
        let r = self.right.lower_into(compiler)?;
        if compiler.insts.len() == usize::MAX {
            return Err(CompilerError::Generic);
        }
        let id = compiler.insts.len();
        compiler.insts.push(Inst::Div(l, r));
        Ok(id)
    }
}

} // verus!

verus! {

impl MathCompiler {
    /// A fresh context with the runtime support table declared and an
    /// empty function body.
    pub fn new() -> (c: Self)
        ensures
            c.lower_st().insts == Seq::<Inst>::empty(),
            c.lower_st().nslots == 0,
            c.lower_st().vars == Seq::<(Seq<char>, usize)>::empty(),
            c.funcs() == crate::std_lib::stdlib_v().map_values(
                |p: ProtoV| crate::std_lib::declared_of(p),
            ),
            c.wf(),
    {
        let mut c = MathCompiler {
            insts: Vec::new(),
            nslots: 0,
            variables: Vec::new(),
            functions: Vec::new(),
        };
        proof {
            assert(vars_view(c.variables@) =~= Seq::<(Seq<char>, usize)>::empty());
            assert(declared_view(c.functions@) =~= Seq::<DeclaredV>::empty());
        }
        let mut protos = crate::std_lib::stdlib();
        let ghost target = crate::std_lib::stdlib_v().map_values(
            |p: ProtoV| crate::std_lib::declared_of(p),
        );
        let p0 = protos.remove(0);
        let _ = p0.compile(&mut c);
        let p1 = protos.remove(0);
        let _ = p1.compile(&mut c);
        let p2 = protos.remove(0);
        let _ = p2.compile(&mut c);
        let p3 = protos.remove(0);
        let _ = p3.compile(&mut c);
        let p4 = protos.remove(0);
        let _ = p4.compile(&mut c);
        proof {
            assert(c.funcs() =~= target);
        }
        c
    }

    /// Reserves one fresh local slot in the function's storage frame,
    /// the analogue of an entry-block stack allocation for `name`.
    pub fn create_entry_block_alloca(&mut self, name: &str) -> (slot: usize)
        requires
            old(self).nslots < usize::MAX,
        ensures
            slot == old(self).nslots,
            final(self).nslots == old(self).nslots + 1,
            final(self).insts == old(self).insts,
            final(self).variables == old(self).variables,
            final(self).functions == old(self).functions,
    {
        let slot = self.nslots;
        self.nslots = self.nslots + 1;
        slot
    }

    /// Lowers a statement sequence into one finished function: a seed
    /// constant, the statements in order, and a closing diagnostic print
    /// of the record's document. The returned program computes the last
    /// statement's value.
    pub fn jit_compile_expr_root(&mut self, exprs: &Vec<Expr>) -> (r: Result<
        MathProgram,
        CompilerError,
    >)
        requires
            old(self).wf(),
        ensures
            ({
                match root_lower(exprs_view(exprs@), old(self).lower_st()) {
                    Ok(pr) => match fn_find(old(self).funcs(), "printjson"@) {
                        Some(_) => if pr.0.insts.len() >= usize::MAX {
                            r matches Err(e) && e@ == CErrV::Generic
                        } else {
                            r matches Ok(p) && p.insts@ == pr.0.insts.push(Inst::Print)
                                && p.nslots == pr.0.nslots && p.ret == pr.1 && p.wf()
                        },
                        None => r matches Err(e) && e@ == CErrV::UnknownFunction("printjson"@),
                    },
                    Err(ev) => r matches Err(e) && e@ == ev,
                }
            }),
    {
        let ghost pre = self.lower_st();
        if self.insts.len() == usize::MAX {
            return Err(CompilerError::Generic);
        }
        let mut res: usize = self.insts.len();
        self.insts.push(Inst::Const(0));
        let ghost seeded = self.lower_st();
        let ghost seed_id = res;
        proof {
            assert(seeded == (LowerSt {
                insts: pre.insts.push(Inst::Const(0)),
                nslots: pre.nslots,
                vars: pre.vars,
            }));
            assert(st_ok(seeded));
            assert(root_lower(exprs_view(exprs@), pre) == lower_seq(
                exprs_view(exprs@),
                seeded,
                seed_id,
            ));
            assert(exprs_view(exprs@).skip(0) =~= exprs_view(exprs@));
        }
        let mut k: usize = 0;
        while k < exprs.len()
            invariant
                k <= exprs@.len(),
                st_ok(seeded),
                (seed_id as nat) < seeded.insts.len(),
                root_lower(exprs_view(exprs@), old(self).lower_st()) == lower_seq(
                    exprs_view(exprs@),
                    seeded,
                    seed_id,
                ),
                lower_seq(exprs_view(exprs@), seeded, seed_id) == lower_seq(
                    exprs_view(exprs@).skip(k as int),
                    self.lower_st(),
                    res,
                ),
                self.functions@ == old(self).functions@,
            decreases exprs@.len() - k,
        {
            let ghost cur = self.lower_st();
            let ghost rest = exprs_view(exprs@).skip(k as int);
            proof {
                assert(rest[0] == exprs@[k as int]@);
            }
            let e = &exprs[k];
            match e.lower_into(self) {
                Ok(v) => {
                    res = v;
                },
                Err(err) => {
                    proof {
                        assert(lower_seq(rest, cur, res) == lower_expr(exprs@[k as int]@, cur));
                    }
                    return Err(err);
                },
            }
            k = k + 1;
            proof {
                assert(rest.drop_first() =~= exprs_view(exprs@).skip(k as int));
            }
        }
        proof {
            assert(exprs_view(exprs@).skip(exprs@.len() as int) =~= Seq::<ExprV>::empty());
        }
        match self.get_function("printjson") {
            Ok(_) => {},
            Err(err) => {
                return Err(err);
            },
        }
        if self.insts.len() == usize::MAX {
            return Err(CompilerError::Generic);
        }
        self.insts.push(Inst::Print);
        let body = copy_insts(&self.insts);
        let prog = MathProgram { insts: body, nslots: self.nslots, ret: res };
        proof {
            lemma_lower_seq_wf(exprs_view(exprs@), seeded, seed_id);
        }
        Ok(prog)
    }
}

/// `checked_div` computes exactly the engine's division: truncating,
/// with the one overflowing quotient wrapped back to the minimum.
proof fn lemma_div_cases(x: i64, y: i64)
    requires
        y != 0,
    ensures
        x == i64::MIN && y == -1 ==> x.checked_div(y) is None,
        !(x == i64::MIN && y == -1) ==> x.checked_div(y) == Some(div_wrap(x, y)),
{
    let xi = x as int;
    let yi = y as int;
    if x == i64::MIN && y == -1 {
        let a = -xi;
        let b = -yi;
        assert(b == 1);
        vstd::arithmetic::div_mod::lemma_div_basics(a);
        assert(a / b == a);
    } else if xi == 0 {
        assert(crate::expr::trunc_div(xi, yi) == 0) by {
            if yi > 0 {
                assert(0int / yi == 0);
            } else {
                assert(0int / (yi * -1) == 0);
            }
        };
    } else if xi > 0 && yi > 0 {
        assert(0 <= xi / yi <= xi) by (nonlinear_arith)
            requires
                xi > 0 && yi >= 1,
        ;
    } else if xi < 0 && yi < 0 {
        let a = xi * -1;
        let b = yi * -1;
        assert(0 <= a / b <= a) by (nonlinear_arith)
            requires
                a > 0 && b >= 1,
        ;
        if a / b > i64::MAX as int {
            assert(a == 0x8000_0000_0000_0000);
            assert(b >= 2);
            assert(a / b <= a / 2) by (nonlinear_arith)
                requires
                    a > 0 && b >= 2,
            ;
            assert(false);
        }
    } else if xi < 0 {
        let a = xi * -1;
        assert(0 <= a / yi <= a) by (nonlinear_arith)
            requires
                a > 0 && yi >= 1,
        ;
    } else {
        let b = yi * -1;
        assert(0 <= xi / b <= xi) by (nonlinear_arith)
            requires
                xi > 0 && b >= 1,
        ;
    }
}

/// An exact copy of an instruction sequence.
fn copy_insts(v: &Vec<Inst>) -> (r: Vec<Inst>)
    ensures
        r@ == v@,
{
    let mut r: Vec<Inst> = Vec::new();
    let mut k: usize = 0;
    while k < v.len()
        invariant
            k <= v@.len(),
            r@ =~= v@.subrange(0, k as int),
        decreases v@.len() - k,
    {
        r.push(v[k]);
        k = k + 1;
    }
    proof {
        assert(v@.subrange(0, v@.len() as int) =~= v@);
    }
    r
}

// ---------------------------------------------------------------------
// The finished function of the arithmetic dialect, and its engine.
// ---------------------------------------------------------------------
/// A finished, invocable function of the arithmetic dialect: its body,
/// its local slot count, and the value id it returns.
#[derive(Debug)]
pub struct MathProgram {
    pub insts: Vec<Inst>,
    pub nslots: usize,
    pub ret: usize,
}

impl MathProgram {
    pub open spec fn wf(&self) -> bool {
        prog_wf(self.insts@, self.nslots as nat) && (self.ret as nat) < self.insts@.len()
    }

    /// What running the whole body yields: the returned value and the
    /// number of diagnostic prints, or nothing on a fault.
    pub open spec fn result_of(&self) -> Option<(i64, nat)> {
        match run_to(self.insts@, self.nslots as nat, self.insts@.len()) {
            Some(m) => Some((m.vals[self.ret as int], m.prints)),
            None => None,
        }
    }

    /// Invokes the function on one record, as the native entry point is
    /// called: it computes the returned 64-bit value, and yields one
    /// diagnostic line (the rendering of the record's document) per
    /// `Print` executed. A division by zero is the engine's one fault.
    pub fn call(&self, doc: &JsonDoc, w: Wrap) -> (r: Result<(i64, Vec<String>), Fault>)
        requires
            self.wf(),
            doc.wf(),
            w.json < doc@.len(),
        ensures
            self.result_of() matches Some(pr) ==> r matches Ok(o) && o.0 == pr.0 && o.1@.len()
                == pr.1 && (forall|i: int|
                0 <= i < o.1@.len() ==> (#[trigger] o.1@[i])@ == render_node(
                    doc@,
                    w.json as int,
                )),
            self.result_of() is None ==> r == Err::<(i64, Vec<String>), Fault>(Fault::DivByZero),
    {
        let n = self.insts.len();
        let mut vals: Vec<i64> = Vec::new();
        let mut slots: Vec<i64> = vec![0i64; self.nslots];
        let mut outs: Vec<String> = Vec::new();
        proof {
            assert(slots@ =~= Seq::new(self.nslots as nat, |i: int| 0i64));
        }
        let mut k: usize = 0;
        while k < n
            invariant
                k <= n,
                n == self.insts@.len(),
                self.wf(),
                doc.wf(),
                w.json < doc@.len(),
                run_to(self.insts@, self.nslots as nat, k as nat) == Some(
                    MState { vals: vals@, slots: slots@, prints: outs@.len() as nat },
                ),
                vals@.len() == k,
                slots@.len() == self.nslots,
                forall|i: int|
                    0 <= i < outs@.len() ==> (#[trigger] outs@[i])@ == render_node(
                        doc@,
                        w.json as int,
                    ),
            decreases n - k,
        {
            let ghost m = MState { vals: vals@, slots: slots@, prints: outs@.len() as nat };
            proof {
                assert(inst_ok(self.insts@[k as int], k as nat, self.nslots as nat));
                assert(run_to(self.insts@, self.nslots as nat, (k + 1) as nat) == mstep(
                    self.insts@[k as int],
                    m,
                ));
            }
            let inst = self.insts[k];
            match inst {
                Inst::Const(c) => {
                    vals.push(c);
                },
                Inst::Add(a, b) => {
                    let x = vals[a];
                    let y = vals[b];
                    vals.push(x.wrapping_add(y));
                },
                Inst::Sub(a, b) => {
                    let x = vals[a];
                    let y = vals[b];
                    vals.push(x.wrapping_sub(y));
                },
                Inst::Mul(a, b) => {
                    let x = vals[a];
                    let y = vals[b];
                    vals.push(x.wrapping_mul(y));
                },
                Inst::Div(a, b) => {
                    let x = vals[a];
                    let y = vals[b];
                    if y == 0 {
                        proof {
                            lemma_run_stuck(
                                self.insts@,
                                self.nslots as nat,
                                (k + 1) as nat,
                                self.insts@.len() as nat,
                            );
                        }
                        return Err(Fault::DivByZero);
                    }
                    let q = match x.checked_div(y) {
                        Some(q) => q,
                        None => i64::MIN,
                    };
                    proof {
                        lemma_div_cases(x, y);
                    }
                    vals.push(q);
                },
                Inst::Load(s) => {
                    let x = slots[s];
                    vals.push(x);
                },
                Inst::Store(s, v) => {
                    let x = vals[v];
                    slots[s] = x;
                    vals.push(x);
                },
                Inst::Print => {
                    let line = doc.render(w.json);
                    outs.push(line);
                    vals.push(0);
                },
            }
            k = k + 1;
        }
        proof {
            lemma_run_len(self.insts@, self.nslots as nat, n as nat);
        }
        let out = vals[self.ret];
        Ok((out, outs))
    }
}

} // verus!
