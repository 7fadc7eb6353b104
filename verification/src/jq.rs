//! The path dialect's code generator and engine: a path script lowers to
//! a straight-line sequence of navigation calls, and the finished program
//! threads a record handle through them, left to right.
use crate::compiler::CErrV;
use crate::compiler::Compiler;
use crate::compiler::CompilerError;
use crate::compiler::Declared;
use crate::compiler::DeclaredV;
use crate::compiler::FnType;
use crate::compiler::IRType;
use crate::compiler::Wrap;
use crate::compiler::declared_view;
use crate::compiler::find_function;
use crate::compiler::fn_find;
use crate::doc::JsonDoc;
use crate::doc::NodeV;
use crate::parser::PathV;
use crate::std_lib::JQType;
use crate::std_lib::ProtoV;
use crate::std_lib::get_idx_s;
use crate::std_lib::get_key_s;
use crate::std_lib::stdlib;
use vstd::prelude::*;

verus! {

/// A path segment of the navigation dialect.
#[derive(Debug, Clone)]
pub enum Path {
    Root,
    Key(String),
    Idx(usize),
}

impl View for Path {
    type V = PathV;

    open spec fn view(&self) -> PathV {
        match self {
            Path::Root => PathV::Root,
            Path::Key(k) => PathV::Key(k@),
            Path::Idx(n) => PathV::Idx(*n),
        }
    }
}

pub open spec fn jpaths_view(s: Seq<Path>) -> Seq<PathV> {
    s.map_values(|p: Path| p@)
}

/// One navigation call of a compiled path: fetch a field by key, or an
/// element by index. Each call consumes the previous record handle.
#[derive(Debug)]
pub enum PathOp {
    GetKey(String),
    GetIdx(u64),
}

/// Ghost mirror of `PathOp`.
pub enum PathOpV {
    GetKey(Seq<char>),
    GetIdx(u64),
}

impl View for PathOp {
    type V = PathOpV;

    open spec fn view(&self) -> PathOpV {
        match self {
            PathOp::GetKey(k) => PathOpV::GetKey(k@),
            PathOp::GetIdx(n) => PathOpV::GetIdx(*n),
        }
    }
}

pub open spec fn ops_view(s: Seq<PathOp>) -> Seq<PathOpV> {
    s.map_values(|o: PathOp| o@)
}

/// The lowering of one segment: `Root` is the fold's seed and emits
/// nothing; a key or index segment resolves its runtime primitive by
/// name and emits one call.
pub open spec fn lower_seg(p: PathV, ops: Seq<PathOpV>, funcs: Seq<DeclaredV>) -> Result<
    Seq<PathOpV>,
    CErrV,
> {
    match p {
        PathV::Root => Ok(ops),
        PathV::Key(k) => match fn_find(funcs, "jq_get_key"@) {
            Some(_) => Ok(ops.push(PathOpV::GetKey(k))),
            None => Err(CErrV::UnknownFunction("jq_get_key"@)),
        },
        PathV::Idx(i) => match fn_find(funcs, "jq_get_idx"@) {
            Some(_) => Ok(ops.push(PathOpV::GetIdx(i as u64))),
            None => Err(CErrV::UnknownFunction("jq_get_idx"@)),
        },
    }
}

/// The lowering of a whole segment sequence, left to right.
pub open spec fn lower_path(ps: Seq<PathV>, ops: Seq<PathOpV>, funcs: Seq<DeclaredV>) -> Result<
    Seq<PathOpV>,
    CErrV,
>
    decreases ps.len(),
{
    if ps.len() == 0 {
        Ok(ops)
    } else {
        match lower_seg(ps[0], ops, funcs) {
            Ok(ops1) => lower_path(ps.drop_first(), ops1, funcs),
            Err(er) => Err(er),
        }
    }
}

/// Something that can be lowered into a path script's function body.
pub trait JQCompile {
    /// What lowering this node does to the emitted call sequence.
    spec fn jq_lowered(&self, ops: Seq<PathOpV>, funcs: Seq<DeclaredV>) -> Result<
        Seq<PathOpV>,
        CErrV,
    >;

    /// Lowers this node, appending its navigation calls.
    fn compile(&self, compiler: &mut Script) -> (r: Result<(), CompilerError>)
        ensures
            self.jq_lowered(ops_view(old(compiler).ops@), old(compiler).funcs()) matches Ok(ops)
                ==> r is Ok && ops_view(final(compiler).ops@) == ops,
            self.jq_lowered(ops_view(old(compiler).ops@), old(compiler).funcs()) matches Err(ev)
                ==> r matches Err(e) && e@ == ev,
            final(compiler).functions@ == old(compiler).functions@,
            final(compiler).script@ == old(compiler).script@;
}

/// The code-generation context of the path dialect: the script, the
/// registry of callable primitives, and the emitted call sequence.
pub struct Script {
    pub script: Vec<Path>,
    pub functions: Vec<Declared>,
    pub ops: Vec<PathOp>,
}

impl Compiler for Script {
    type Frame = (Seq<PathV>, Seq<PathOpV>);

    open spec fn funcs(&self) -> Seq<DeclaredV> {
        declared_view(self.functions@)
    }

    open spec fn frame(&self) -> (Seq<PathV>, Seq<PathOpV>) {
        (jpaths_view(self.script@), ops_view(self.ops@))
    }

    fn declare(&mut self, d: Declared) -> (idx: usize) {
        let idx = self.functions.len();
        self.functions.push(d);
        proof {
            assert(declared_view(self.functions@) =~= declared_view(old(self).functions@).push(
                self.functions@.last()@,
            ));
        }
        idx
    }

    fn type_for(&self, t: &JQType) -> (r: IRType) {
        match t {
            JQType::JSON => IRType::JsonPair,
            JQType::Integer => IRType::Int64,
            JQType::Float => IRType::Float64,
            JQType::String => IRType::StrPtr,
            JQType::Void => IRType::JsonPair,
        }
    }

    fn fn_type_for(&self, t: &JQType, args: &[IRType]) -> (r: FnType) {
        let params = vstd::slice::slice_to_vec(args);
        let ret = match t {
            JQType::JSON => Some(IRType::JsonPair),
            JQType::Integer => Some(IRType::Int64),
            JQType::Float => Some(IRType::Float64),
            JQType::Void => None,
            JQType::String => None,
        };
        FnType { params, ret }
    }

    fn get_function(&self, name: &str) -> (r: Result<usize, CompilerError>) {
        find_function(&self.functions, name)
    }
}

impl JQCompile for Path {
    open spec fn jq_lowered(&self, ops: Seq<PathOpV>, funcs: Seq<DeclaredV>) -> Result<
        Seq<PathOpV>,
        CErrV,
    > {
        lower_seg((*self)@, ops, funcs)
    }

    fn compile(&self, compiler: &mut Script) -> (r: Result<(), CompilerError>) {
        match self {
            Path::Root => Ok(()),
            Path::Key(k) => {
                match compiler.get_function("jq_get_key") {
                    Ok(_) => {},
                    Err(e) => {
                        return Err(e);
                    },
                }
                let ghost mid = ops_view(compiler.ops@);
                compiler.ops.push(PathOp::GetKey(k.clone()));
                proof {
                    assert(ops_view(compiler.ops@) =~= mid.push(PathOpV::GetKey(k@)));
                }
                Ok(())
            },
            Path::Idx(i) => {
                match compiler.get_function("jq_get_idx") {
                    Ok(_) => {},
                    Err(e) => {
                        return Err(e);
                    },
                }
                let ghost mid = ops_view(compiler.ops@);
                compiler.ops.push(PathOp::GetIdx(*i as u64));
                proof {
                    assert(ops_view(compiler.ops@) =~= mid.push(PathOpV::GetIdx(*i as u64)));
                }
                Ok(())
            },
        }
    }
}

impl Script {
    /// A fresh path-script context: the script to compile, the runtime
    /// support table declared, and no calls emitted yet.
    pub fn from_path(script: Vec<Path>) -> (s: Self)
        ensures
            jpaths_view(s.script@) == jpaths_view(script@),
            ops_view(s.ops@) == Seq::<PathOpV>::empty(),
            s.funcs() == crate::std_lib::stdlib_v().map_values(
                |p: ProtoV| crate::std_lib::declared_of(p),
            ),
    {
        let mut s = Script { script, functions: Vec::new(), ops: Vec::new() };
        proof {
            assert(declared_view(s.functions@) =~= Seq::<DeclaredV>::empty());
            assert(ops_view(s.ops@) =~= Seq::<PathOpV>::empty());
        }
        let mut protos = stdlib();
        let ghost target = crate::std_lib::stdlib_v().map_values(
            |p: ProtoV| crate::std_lib::declared_of(p),
        );
        let p0 = protos.remove(0);
        let _ = p0.compile(&mut s);
        let p1 = protos.remove(0);
        let _ = p1.compile(&mut s);
        let p2 = protos.remove(0);
        let _ = p2.compile(&mut s);
        let p3 = protos.remove(0);
        let _ = p3.compile(&mut s);
        let p4 = protos.remove(0);
        let _ = p4.compile(&mut s);
        proof {
            assert(s.funcs() =~= target);
        }
        s
    }

    /// Lowers the whole script into one finished function with the fixed
    /// record-to-record signature. The `debug` toggle selects diagnostic
    /// rendering by the caller and does not change the result.
    pub fn jit_compile_main(&mut self, debug: bool) -> (r: Result<PathProgram, CompilerError>)
        ensures
            ({
                match lower_path(
                    jpaths_view(old(self).script@),
                    ops_view(old(self).ops@),
                    old(self).funcs(),
                ) {
                    Ok(ops) => r matches Ok(p) && ops_view(p.ops@) == ops,
                    Err(ev) => r matches Err(e) && e@ == ev,
                }
            }),
            final(self).script@ == old(self).script@,
            final(self).functions@ == old(self).functions@,
    {
        let mut script: Vec<Path> = Vec::new();
        core::mem::swap(&mut script, &mut self.script);
        let ghost full = jpaths_view(script@);
        let mut k: usize = 0;
        proof {
            assert(full.skip(0) =~= full);
        }
        let mut failed: Option<CompilerError> = None;
        while k < script.len()
            invariant
                k <= script@.len(),
                full == jpaths_view(script@),
                self.functions@ == old(self).functions@,
                self.script@ == Seq::<Path>::empty(),
                failed is None ==> lower_path(full, ops_view(old(self).ops@), old(self).funcs())
                    == lower_path(
                    full.skip(k as int),
                    ops_view(self.ops@),
                    declared_view(self.functions@),
                ),
                failed matches Some(e) ==> lower_path(
                    full,
                    ops_view(old(self).ops@),
                    old(self).funcs(),
                ) == Err::<Seq<PathOpV>, CErrV>(e@),
            decreases script@.len() - k,
        {
            if failed.is_none() {
                let ghost cur = ops_view(self.ops@);
                let ghost rest = full.skip(k as int);
                proof {
                    assert(rest[0] == script@[k as int]@);
                }
                let seg = &script[k];
                match seg.compile(self) {
                    Ok(_) => {},
                    Err(e) => {
                        failed = Some(e);
                    },
                }
                proof {
                    assert(rest.drop_first() =~= full.skip(k as int + 1));
                }
            }
            k = k + 1;
        }
        core::mem::swap(&mut script, &mut self.script);
        match failed {
            Some(e) => Err(e),
            None => {
                proof {
                    assert(full.skip(full.len() as int) =~= Seq::<PathV>::empty());
                }
                let ops = copy_ops(&self.ops);
                Ok(PathProgram { ops })
            },
        }
    }
}

/// An exact copy of a call sequence.
fn copy_ops(v: &Vec<PathOp>) -> (r: Vec<PathOp>)
    ensures
        ops_view(r@) == ops_view(v@),
{
    let mut r: Vec<PathOp> = Vec::new();
    let mut k: usize = 0;
    while k < v.len()
        invariant
            k <= v@.len(),
            r@ =~= v@.subrange(0, k as int),
        decreases v@.len() - k,
    {
        let op = match &v[k] {
            PathOp::GetKey(s) => PathOp::GetKey(s.clone()),
            PathOp::GetIdx(n) => PathOp::GetIdx(*n),
        };
        proof {
            assert(op == v@[k as int]);
        }
        r.push(op);
        proof {
            assert(r@ =~= v@.subrange(0, k as int + 1));
        }
        k = k + 1;
    }
    proof {
        assert(r@ =~= v@);
    }
    r
}

// ---------------------------------------------------------------------
// The finished function of the path dialect, and its engine.
// ---------------------------------------------------------------------
/// One navigation step on a record handle.
pub open spec fn step_op(d: Seq<NodeV>, w: Wrap, op: PathOpV) -> Wrap {
    match op {
        PathOpV::GetKey(k) => get_key_s(d, w, k),
        PathOpV::GetIdx(i) => get_idx_s(d, w, i),
    }
}

/// Threads a record handle through a call sequence, left to right.
pub open spec fn run_ops(d: Seq<NodeV>, w: Wrap, ops: Seq<PathOpV>) -> Wrap
    decreases ops.len(),
{
    if ops.len() == 0 {
        w
    } else {
        run_ops(d, step_op(d, w, ops[0]), ops.drop_first())
    }
}

/// A finished, invocable function of the path dialect: record in,
/// record out.
#[derive(Debug)]
pub struct PathProgram {
    pub ops: Vec<PathOp>,
}

impl PathProgram {
    /// Invokes the function on one record, as the native entry point is
    /// called: each compiled segment navigates one step, and a failed
    /// step short-circuits the rest, carrying its error code out in the
    /// returned record.
    pub fn call(&self, doc: &JsonDoc, w: Wrap) -> (r: Wrap)
        requires
            doc.wf(),
            w.json < doc@.len(),
        ensures
            r == run_ops(doc@, w, ops_view(self.ops@)),
            r.json < doc@.len(),
    {
        let ghost full = ops_view(self.ops@);
        let mut cur = w;
        let mut k: usize = 0;
        proof {
            assert(full.skip(0) =~= full);
        }
        while k < self.ops.len()
            invariant
                k <= self.ops@.len(),
                full == ops_view(self.ops@),
                doc.wf(),
                cur.json < doc@.len(),
                run_ops(doc@, w, full) == run_ops(doc@, cur, full.skip(k as int)),
            decreases self.ops@.len() - k,
        {
            let ghost rest = full.skip(k as int);
            proof {
                assert(rest[0] == self.ops@[k as int]@);
                assert(rest.drop_first() =~= full.skip(k as int + 1));
            }
            match &self.ops[k] {
                PathOp::GetKey(key) => {
                    cur = crate::std_lib::jq_get_key(cur, doc, key);
                },
                PathOp::GetIdx(i) => {
                    cur = crate::std_lib::jq_get_idx(cur, doc, *i);
                },
            }
            k = k + 1;
        }
        proof {
            assert(full.skip(full.len() as int) =~= Seq::<PathOpV>::empty());
        }
        cur
    }
}

} // verus!
