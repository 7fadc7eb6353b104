//! The execution driver for the path dialect: compile the script once,
//! then invoke the compiled function on each incoming document, emitting
//! one output line per record, in arrival order.
use crate::compiler::CErrV;
use crate::compiler::CompilerError;
use crate::compiler::Inst;
use crate::compiler::LowerSt;
use crate::compiler::MathCompiler;
use crate::compiler::MathProgram;
use crate::compiler::fn_find;
use crate::compiler::root_lower;
use crate::compiler::DeclaredV;
use crate::compiler::Wrap;
use crate::doc::JsonDoc;
use crate::doc::NodeV;
use crate::doc::render_node;
use crate::jq::PathOpV;
use crate::jq::PathProgram;
use crate::jq::Script;
use crate::jq::jpaths_view;
use crate::jq::lower_path;
use crate::jq::ops_view;
use crate::jq::run_ops;
use crate::parser::ParseError;
use crate::parser::PathV;
use crate::parser::paths_view;
use crate::parser::sp_exprs;
use crate::parser::sp_path;
use crate::std_lib::declared_of;
use crate::std_lib::stdlib_v;
use crate::text::decimal_chars;
use crate::text::decimal_string;
use vstd::prelude::*;

verus! {

/// Why a script could not be made runnable: its text did not parse, or
/// its compilation failed.
#[derive(Debug)]
pub enum ScriptError {
    Parse(ParseError),
    Compile(CompilerError),
}

/// Ghost mirror of `ScriptError`; the parse case carries the position of
/// the unconsumed remainder.
pub enum ScriptErrV {
    Parse(usize),
    Compile(CErrV),
}

impl View for ScriptError {
    type V = ScriptErrV;

    open spec fn view(&self) -> ScriptErrV {
        match self {
            ScriptError::Parse(pe) => ScriptErrV::Parse(pe.at),
            ScriptError::Compile(ce) => ScriptErrV::Compile(ce@),
        }
    }
}

/// The registry that a fresh context declares.
pub open spec fn stdlib_decls() -> Seq<DeclaredV> {
    stdlib_v().map_values(|p: crate::std_lib::ProtoV| declared_of(p))
}

/// What preparing a path script text yields: the compiled call sequence,
/// or the first failure. Text after the recognized path does not reach
/// the compiler.
pub open spec fn prepare_v(t: Seq<char>) -> Result<Seq<PathOpV>, ScriptErrV> {
    match sp_path(t, 0) {
        Some(pr) => match lower_path(pr.1, Seq::empty(), stdlib_decls()) {
            Ok(ops) => Ok(ops),
            Err(ce) => Err(ScriptErrV::Compile(ce)),
        },
        None => Err(ScriptErrV::Parse(0)),
    }
}

/// Converts parsed segments into the navigation dialect's own segments.
fn convert_segs(segs: Vec<crate::parser::Path>) -> (r: Vec<crate::jq::Path>)
    ensures
        jpaths_view(r@) == paths_view(segs@),
{
    let ghost orig = paths_view(segs@);
    let mut rest = segs;
    let mut out: Vec<crate::jq::Path> = Vec::new();
    while rest.len() > 0
        invariant
            jpaths_view(out@) + paths_view(rest@) =~= orig,
        decreases rest@.len(),
    {
        let ghost out0 = jpaths_view(out@);
        let ghost rest0 = paths_view(rest@);
        let p = rest.remove(0);
        let q = match p {
            crate::parser::Path::Root => crate::jq::Path::Root,
            crate::parser::Path::Key(s) => crate::jq::Path::Key(s),
            crate::parser::Path::Idx(n) => crate::jq::Path::Idx(n),
        };
        out.push(q);
        proof {
            assert(jpaths_view(out@) =~= out0.push(rest0[0]));
            assert(paths_view(rest@) =~= rest0.drop_first());
            assert(jpaths_view(out@) + paths_view(rest@) =~= orig);
        }
    }
    proof {
        assert(paths_view(rest@) =~= Seq::<PathV>::empty());
        assert(jpaths_view(out@) =~= orig);
    }
    out
}

/// Compiles a path script text once, for reuse across a whole input
/// stream: parse, then lower against the runtime support table.
pub fn prepare(text: &str) -> (r: Result<PathProgram, ScriptError>)
    ensures
        match prepare_v(text@) {
            Ok(ops) => r matches Ok(p) && ops_view(p.ops@) == ops,
            Err(ev) => r matches Err(e) && e@ == ev,
        },
{
    match crate::parser::path(text) {
        Ok((_, segs)) => {
            let jsegs = convert_segs(segs);
            let mut script = Script::from_path(jsegs);
            match script.jit_compile_main(false) {
                Ok(p) => Ok(p),
                Err(e) => Err(ScriptError::Compile(e)),
            }
        },
        Err(pe) => Err(ScriptError::Parse(pe)),
    }
}

/// What preparing an expression script text yields: the finished
/// function's body, slot count and result id, or the first failure. The
/// whole text must parse; a leftover remainder is a parse failure
/// carrying its position.
pub open spec fn prepare_exprs_v(t: Seq<char>) -> Result<(Seq<Inst>, usize, usize), ScriptErrV> {
    let (rest, es) = sp_exprs(t, 0);
    if rest != t.len() {
        Err(ScriptErrV::Parse(rest as usize))
    } else {
        let start = LowerSt { insts: Seq::<Inst>::empty(), nslots: 0, vars: Seq::empty() };
        match root_lower(es, start) {
            Ok(pr) => match fn_find(stdlib_decls(), "printjson"@) {
                Some(_) => if pr.0.insts.len() >= usize::MAX {
                    Err(ScriptErrV::Compile(CErrV::Generic))
                } else {
                    Ok((pr.0.insts.push(Inst::Print), pr.0.nslots, pr.1))
                },
                None => Err(ScriptErrV::Compile(CErrV::UnknownFunction("printjson"@))),
            },
            Err(ce) => Err(ScriptErrV::Compile(ce)),
        }
    }
}

/// Compiles an expression script text once: parse the whole text, then
/// lower against a fresh context. The finished function is well formed,
/// ready for the engine.
pub fn prepare_exprs(text: &str) -> (r: Result<MathProgram, ScriptError>)
    ensures
        match prepare_exprs_v(text@) {
            Ok(pr) => r matches Ok(p) && p.insts@ == pr.0 && p.nslots == pr.1 && p.ret == pr.2
                && p.wf(),
            Err(ev) => r matches Err(e) && e@ == ev,
        },
{
    let (rest, ast) = crate::parser::exprs(text);
    if rest != text.unicode_len() {
        return Err(ScriptError::Parse(ParseError { at: rest }));
    }
    let mut c = MathCompiler::new();
    match c.jit_compile_expr_root(&ast) {
        Ok(p) => Ok(p),
        Err(e) => Err(ScriptError::Compile(e)),
    }
}

/// The output line for one record: the rendering of the sub-document the
/// path reached, or an error marker with the navigation error code.
pub open spec fn record_output_v(ops: Seq<PathOpV>, d: Seq<NodeV>) -> Seq<char> {
    let w = run_ops(d, Wrap { error: 0, json: (d.len() - 1) as usize }, ops);
    if w.error == 0 {
        render_node(d, w.json as int)
    } else {
        "Error: "@ + decimal_chars(w.error as nat)
    }
}

/// Runs the compiled function on one document and renders the outcome.
pub fn record_output(prog: &PathProgram, doc: &JsonDoc) -> (line: String)
    requires
        doc.wf(),
    ensures
        line@ == record_output_v(ops_view(prog.ops@), doc@),
{
    let w0 = Wrap { error: 0, json: doc.root() };
    let r = prog.call(doc, w0);
    if r.error == 0 {
        doc.render(r.json)
    } else {
        let mut s = "Error: ".to_owned();
        let digits = decimal_string(r.error);
        s.append(digits.as_str());
        s
    }
}

/// Drives a whole input stream: one output line per input document, in
/// the same order, the compiled function reused across all of them.
pub fn run_stream(prog: &PathProgram, docs: &Vec<JsonDoc>) -> (out: Vec<String>)
    requires
        forall|i: int| 0 <= i < docs@.len() ==> (#[trigger] docs@[i]).wf(),
    ensures
        out@.len() == docs@.len(),
        forall|i: int|
            0 <= i < docs@.len() ==> (#[trigger] out@[i])@ == record_output_v(
                ops_view(prog.ops@),
                docs@[i]@,
            ),
{
    let mut out: Vec<String> = Vec::new();
    let mut k: usize = 0;
    while k < docs.len()
        invariant
            k <= docs@.len(),
            out@.len() == k,
            forall|i: int| 0 <= i < docs@.len() ==> (#[trigger] docs@[i]).wf(),
            forall|i: int|
                0 <= i < k ==> (#[trigger] out@[i])@ == record_output_v(
                    ops_view(prog.ops@),
                    docs@[i]@,
                ),
        decreases docs@.len() - k,
    {
        let line = record_output(prog, &docs[k]);
        out.push(line);
        k = k + 1;
    }
    out
}

} // verus!
