//! The runtime support table: the fixed set of primitives that generated
//! code may call, each declared by a prototype, and the two navigation
//! primitives themselves, verified against the document model.
use crate::compiler::CompilerError;
use crate::compiler::Compiler;
use crate::compiler::Declared;
use crate::compiler::DeclaredV;
use crate::compiler::FnTypeV;
use crate::compiler::Wrap;
use crate::compiler::fn_type_v;
use crate::compiler::type_for_v;
use crate::doc::JsonDoc;
use crate::doc::JsonNode;
use crate::doc::NodeV;
use crate::doc::fields_view;
use crate::doc::node_wf;
use crate::doc::obj_children_below;
use vstd::prelude::*;

verus! {

/// The type tags of the runtime interface. `String` is a one-way
/// parameter tag; `Void` is a return-only tag.
#[derive(Debug, Clone, Copy, PartialEq, Eq, Structural)]
pub enum JQType {
    JSON,
    String,
    Integer,
    Float,
    Void,
}

/// Defines the prototype (name, parameters, return) of a primitive that
/// generated code may call.
#[derive(Debug)]
pub struct Prototype {
    pub name: String,
    pub args: Vec<(String, JQType)>,
    pub ret: JQType,
}

/// Ghost mirror of `Prototype`.
pub struct ProtoV {
    pub name: Seq<char>,
    pub args: Seq<(Seq<char>, JQType)>,
    pub ret: JQType,
}

impl View for Prototype {
    type V = ProtoV;

    open spec fn view(&self) -> ProtoV {
        ProtoV {
            name: self.name@,
            args: self.args@.map_values(|a: (String, JQType)| (a.0@, a.1)),
            ret: self.ret,
        }
    }
}

/// A prototype the generator can lower: no void parameter, no string
/// return (either would be a programming error in the generator).
pub open spec fn proto_ok(p: ProtoV) -> bool {
    &&& p.ret != JQType::String
    &&& forall|k: int| 0 <= k < p.args.len() ==> (#[trigger] p.args[k]).1 != JQType::Void
}

/// The registry entry that declaring a prototype produces.
pub open spec fn declared_of(p: ProtoV) -> DeclaredV {
    DeclaredV {
        proto: p,
        sig: fn_type_v(p.ret, p.args.map_values(|a: (Seq<char>, JQType)| type_for_v(a.1))),
    }
}

impl Prototype {
    /// An exact copy.
    fn duplicate(&self) -> (r: Prototype)
        ensures
            r@ == self@,
    {
        let mut args: Vec<(String, JQType)> = Vec::new();
        let mut k: usize = 0;
        while k < self.args.len()
            invariant
                k <= self.args@.len(),
                args@ =~= self.args@.subrange(0, k as int),
            decreases self.args@.len() - k,
        {
            let pr = &self.args[k];
            args.push((pr.0.clone(), pr.1));
            proof {
                assert(args@ =~= self.args@.subrange(0, k + 1 as int));
            }
            k = k + 1;
        }
        proof {
            assert(args@ =~= self.args@);
        }
        let r = Prototype { name: self.name.clone(), args, ret: self.ret };
        proof {
            assert(r@.args =~= self@.args);
        }
        r
    }

    /// Declares this prototype in a compiler's registry, making the
    /// primitive callable by name; returns its registry index.
    pub fn compile<C: Compiler>(&self, compiler: &mut C) -> (r: Result<usize, CompilerError>)
        requires
            proto_ok(self@),
        ensures
            r matches Ok(idx) && idx as nat == old(compiler).funcs().len(),
            final(compiler).funcs() == old(compiler).funcs().push(declared_of(self@)),
            final(compiler).frame() == old(compiler).frame(),
    {
        let mut params: Vec<crate::compiler::IRType> = Vec::new();
        let mut k: usize = 0;
        while k < self.args.len()
            invariant
                k <= self.args@.len(),
                proto_ok(self@),
                params@ =~= self@.args.subrange(0, k as int).map_values(
                    |a: (Seq<char>, JQType)| type_for_v(a.1),
                ),
            decreases self.args@.len() - k,
        {
            proof {
                assert(self@.args[k as int].1 == self.args@[k as int].1);
            }
            let t = compiler.type_for(&self.args[k].1);
            params.push(t);
            proof {
                assert(self@.args.subrange(0, k + 1 as int).drop_last() =~= self@.args.subrange(
                    0,
                    k as int,
                ));
            }
            k = k + 1;
        }
        proof {
            assert(self@.args.subrange(0, self@.args.len() as int) =~= self@.args);
        }
        let sig = compiler.fn_type_for(&self.ret, params.as_slice());
        let d = Declared { proto: self.duplicate(), sig };
        proof {
            assert(d@ == declared_of(self@)) by {
                assert(d@.sig.params =~= declared_of(self@).sig.params);
            };
        }
        let idx = compiler.declare(d);
        Ok(idx)
    }
}

/// The fixed table of runtime primitives.
pub open spec fn stdlib_v() -> Seq<ProtoV> {
    seq![
        ProtoV { name: "printd"@, args: seq![("json"@, JQType::JSON)], ret: JQType::Void },
        ProtoV { name: "printjson"@, args: seq![("json"@, JQType::JSON)], ret: JQType::Void },
        ProtoV { name: "dbg"@, args: Seq::empty(), ret: JQType::Void },
        ProtoV {
            name: "jq_get_key"@,
            args: seq![
                ("json"@, JQType::JSON),
                ("key"@, JQType::String),
                ("len"@, JQType::Integer),
            ],
            ret: JQType::JSON,
        },
        ProtoV {
            name: "jq_get_idx"@,
            args: seq![("json"@, JQType::JSON), ("idx"@, JQType::Integer)],
            ret: JQType::JSON,
        },
    ]
}

/// The prototypes view of a prototype list.
pub open spec fn protos_view(ps: Seq<Prototype>) -> Seq<ProtoV> {
    ps.map_values(|p: Prototype| p@)
}

/// Builds the runtime support table: print-document (twice, one per
/// dialect's channel), the debug hook, and the two navigation
/// primitives.
pub fn stdlib() -> (r: Vec<Prototype>)
    ensures
        protos_view(r@) =~= stdlib_v(),
{
    let mut r: Vec<Prototype> = Vec::new();

    let mut a0: Vec<(String, JQType)> = Vec::new();
    a0.push(("json".to_owned(), JQType::JSON));
    r.push(Prototype { name: "printd".to_owned(), args: a0, ret: JQType::Void });

    let mut a1: Vec<(String, JQType)> = Vec::new();
    a1.push(("json".to_owned(), JQType::JSON));
    r.push(Prototype { name: "printjson".to_owned(), args: a1, ret: JQType::Void });

    let a2: Vec<(String, JQType)> = Vec::new();
    r.push(Prototype { name: "dbg".to_owned(), args: a2, ret: JQType::Void });

    let mut a3: Vec<(String, JQType)> = Vec::new();
    a3.push(("json".to_owned(), JQType::JSON));
    a3.push(("key".to_owned(), JQType::String));
    a3.push(("len".to_owned(), JQType::Integer));
    r.push(Prototype { name: "jq_get_key".to_owned(), args: a3, ret: JQType::JSON });

    let mut a4: Vec<(String, JQType)> = Vec::new();
    a4.push(("json".to_owned(), JQType::JSON));
    a4.push(("idx".to_owned(), JQType::Integer));
    r.push(Prototype { name: "jq_get_idx".to_owned(), args: a4, ret: JQType::JSON });

    proof {
        assert(protos_view(r@)[0].args =~= stdlib_v()[0].args);
        assert(protos_view(r@)[1].args =~= stdlib_v()[1].args);
        assert(protos_view(r@)[2].args =~= stdlib_v()[2].args);
        assert(protos_view(r@)[3].args =~= stdlib_v()[3].args);
        assert(protos_view(r@)[4].args =~= stdlib_v()[4].args);
        assert(protos_view(r@) =~= stdlib_v());
    }
    r
}

// ---------------------------------------------------------------------
// The navigation primitives, on the document model.
// ---------------------------------------------------------------------
/// The first field of an object with the given key, if any.
pub open spec fn obj_find(fs: Seq<(Seq<char>, usize)>, key: Seq<char>) -> Option<usize>
    decreases fs.len(),
{
    if fs.len() == 0 {
        None
    } else if fs[0].0 == key {
        Some(fs[0].1)
    } else {
        obj_find(fs.drop_first(), key)
    }
}

/// What `jq_get_key` computes: an errored record passes through
/// unchanged (a failed segment short-circuits the rest); on an object,
/// the field's sub-document, or error `1` when the key is missing; on
/// anything else, error `2`.
pub open spec fn get_key_s(d: Seq<NodeV>, w: Wrap, key: Seq<char>) -> Wrap {
    if w.error != 0 {
        w
    } else if w.json < d.len() {
        match d[w.json as int] {
            NodeV::Object(fs) => match obj_find(fs, key) {
                Some(c) => Wrap { error: 0, json: c },
                None => Wrap { error: 1, json: w.json },
            },
            _ => Wrap { error: 2, json: w.json },
        }
    } else {
        Wrap { error: 2, json: w.json }
    }
}

/// What `jq_get_idx` computes: an errored record passes through
/// unchanged; on an array, the element's sub-document, or error `1` when
/// the index is out of range; on anything else, error `2`.
pub open spec fn get_idx_s(d: Seq<NodeV>, w: Wrap, idx: u64) -> Wrap {
    if w.error != 0 {
        w
    } else if w.json < d.len() {
        match d[w.json as int] {
            NodeV::Array(cs) => if idx < cs.len() {
                Wrap { error: 0, json: cs[idx as int] }
            } else {
                Wrap { error: 1, json: w.json }
            },
            _ => Wrap { error: 2, json: w.json },
        }
    } else {
        Wrap { error: 2, json: w.json }
    }
}

/// One object field's target lies below the object's own index.
proof fn lemma_obj_child_bound(fs: Seq<(Seq<char>, usize)>, i: int, j: int)
    requires
        obj_children_below(fs, i),
        0 <= j < fs.len(),
    ensures
        (fs[j].1 as int) < i,
{
}

/// Object-field access: the runtime primitive behind a `Key` segment.
pub fn jq_get_key(wrap: Wrap, doc: &JsonDoc, key: &String) -> (r: Wrap)
    requires
        doc.wf(),
        wrap.json < doc@.len(),
    ensures
        r == get_key_s(doc@, wrap, key@),
        r.json < doc@.len(),
{
    if wrap.error != 0 {
        return wrap;
    }
    proof {
        assert(doc@[wrap.json as int] == doc.nodes@[wrap.json as int]@);
        assert(node_wf(doc@[wrap.json as int], wrap.json as int));
    }
    match &doc.nodes[wrap.json] {
        JsonNode::Object(fs) => {
            let ghost fsv = fields_view(fs@);
            proof {
                assert(doc@[wrap.json as int] == NodeV::Object(fsv));
                assert(node_wf(NodeV::Object(fsv), wrap.json as int));
                assert(obj_children_below(fsv, wrap.json as int));
                assert(fsv.subrange(0, fsv.len() as int) =~= fsv);
                assert forall|j: int| 0 <= j < fsv.len() implies (#[trigger] fsv[j]).1
                    < doc@.len() by {
                    lemma_obj_child_bound(fsv, wrap.json as int, j);
                }
            }
            let mut k: usize = 0;
            while k < fs.len()
                invariant
                    k <= fs@.len(),
                    fsv == fields_view(fs@),
                    wrap.error == 0,
                    wrap.json < doc@.len(),
                    doc@[wrap.json as int] == NodeV::Object(fsv),
                    obj_find(fsv, key@) == obj_find(fsv.subrange(k as int, fsv.len() as int), key@),
                    forall|j: int| 0 <= j < fsv.len() ==> (#[trigger] fsv[j]).1 < doc@.len(),
                decreases fs@.len() - k,
            {
                let pr = &fs[k];
                proof {
                    assert(fsv.subrange(k as int, fsv.len() as int)[0] == (fs@[k as int].0@, fs@[
                        k as int].1));
                }
                if pr.0 == *key {
                    return Wrap { error: 0, json: pr.1 };
                }
                proof {
                    assert(fsv.subrange(k as int, fsv.len() as int).drop_first() =~= fsv.subrange(
                        k as int + 1,
                        fsv.len() as int,
                    ));
                }
                k = k + 1;
            }
            Wrap { error: 1, json: wrap.json }
        },
        _ => Wrap { error: 2, json: wrap.json },
    }
}

/// Array-element access: the runtime primitive behind an `Idx` segment.
pub fn jq_get_idx(wrap: Wrap, doc: &JsonDoc, idx: u64) -> (r: Wrap)
    requires
        doc.wf(),
        wrap.json < doc@.len(),
    ensures
        r == get_idx_s(doc@, wrap, idx),
        r.json < doc@.len(),
{
    if wrap.error != 0 {
        return wrap;
    }
    proof {
        assert(doc@[wrap.json as int] == doc.nodes@[wrap.json as int]@);
        assert(node_wf(doc@[wrap.json as int], wrap.json as int));
    }
    match &doc.nodes[wrap.json] {
        JsonNode::Array(cs) => {
            if idx < (cs.len() as u64) {
                Wrap { error: 0, json: cs[idx as usize] }
            } else {
                Wrap { error: 1, json: wrap.json }
            }
        },
        _ => Wrap { error: 2, json: wrap.json },
    }
}

} // verus!
