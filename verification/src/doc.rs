//! The document model: a JSON-like value held in an arena of nodes, so a
//! record handle can refer to any sub-document by a plain index. A node's
//! children always sit at lower indices than the node itself (documents
//! are built bottom-up), which bounds every recursion over a document.
use crate::text::signed_chars;
use crate::text::signed_string;
use vstd::prelude::*;

verus! {

/// One node of a document: a scalar, or a composite whose children are
/// arena indices.
pub enum JsonNode {
    Null,
    Bool(bool),
    Int(i64),
    Text(String),
    Array(Vec<usize>),
    Object(Vec<(String, usize)>),
}

/// Ghost mirror of `JsonNode`.
pub enum NodeV {
    Null,
    Bool(bool),
    Int(i64),
    Text(Seq<char>),
    Array(Seq<usize>),
    Object(Seq<(Seq<char>, usize)>),
}

/// The ghost view of an object's field list.
pub open spec fn fields_view(fs: Seq<(String, usize)>) -> Seq<(Seq<char>, usize)> {
    fs.map_values(|pr: (String, usize)| (pr.0@, pr.1))
}

impl View for JsonNode {
    type V = NodeV;

    open spec fn view(&self) -> NodeV {
        match self {
            JsonNode::Null => NodeV::Null,
            JsonNode::Bool(b) => NodeV::Bool(*b),
            JsonNode::Int(n) => NodeV::Int(*n),
            JsonNode::Text(s) => NodeV::Text(s@),
            JsonNode::Array(cs) => NodeV::Array(cs@),
            JsonNode::Object(fs) => NodeV::Object(fields_view(fs@)),
        }
    }
}

/// Every array child index lies strictly below `i`.
pub open spec fn arr_children_below(cs: Seq<usize>, i: int) -> bool {
    forall|k: int| 0 <= k < cs.len() ==> ((#[trigger] cs[k]) as int) < i
}

/// Every object field's target lies strictly below `i`.
pub open spec fn obj_children_below(fs: Seq<(Seq<char>, usize)>, i: int) -> bool {
    forall|k: int| 0 <= k < fs.len() ==> ((#[trigger] fs[k]).1 as int) < i
}

/// A node is well formed at position `i` when all its children sit
/// strictly below `i`.
pub open spec fn node_wf(n: NodeV, i: int) -> bool {
    match n {
        NodeV::Array(cs) => arr_children_below(cs, i),
        NodeV::Object(fs) => obj_children_below(fs, i),
        _ => true,
    }
}

/// A well-formed document: at least one node, every node's children below
/// it. The last node is the root.
pub open spec fn doc_wf(d: Seq<NodeV>) -> bool {
    d.len() >= 1 && forall|i: int| 0 <= i < d.len() ==> node_wf(#[trigger] d[i], i)
}

/// A whole document: the arena of nodes. The root is the last node.
pub struct JsonDoc {
    pub nodes: Vec<JsonNode>,
}

impl View for JsonDoc {
    type V = Seq<NodeV>;

    open spec fn view(&self) -> Seq<NodeV> {
        self.nodes@.map_values(|n: JsonNode| n@)
    }
}

impl JsonDoc {
    pub open spec fn wf(&self) -> bool {
        doc_wf(self@)
    }

    /// The handle of the document's root node.
    pub fn root(&self) -> (h: usize)
        requires
            self.wf(),
        ensures
            h < self@.len(),
            h as int == self@.len() - 1,
    {
        self.nodes.len() - 1
    }

    /// Decides well-formedness, so an unverified caller can test a
    /// document it built before handing it to functions that ask for a
    /// well-formed one.
    pub fn check_wf(&self) -> (b: bool)
        ensures
            b == self.wf(),
    {
        if self.nodes.len() == 0 {
            return false;
        }
        let mut i: usize = 0;
        while i < self.nodes.len()
            invariant
                i <= self.nodes@.len(),
                self@.len() == self.nodes@.len(),
                forall|j: int| 0 <= j < i ==> node_wf(#[trigger] self@[j], j),
            decreases self.nodes@.len() - i,
        {
            proof {
                assert(self@[i as int] == self.nodes@[i as int]@);
            }
            let ok = match &self.nodes[i] {
                JsonNode::Array(cs) => children_below(cs, i),
                JsonNode::Object(fs) => field_targets_below(fs, i),
                _ => true,
            };
            if !ok {
                proof {
                    assert(!node_wf(self@[i as int], i as int));
                }
                return false;
            }
            i = i + 1;
        }
        true
    }

    /// The compact textual rendering of the sub-document at `h`: JSON
    /// syntax, with text emitted verbatim between quotes.
    pub fn render(&self, h: usize) -> (s: String)
        requires
            self.wf(),
            h < self@.len(),
        ensures
            s@ == render_node(self@, h as int),
        decreases h, 1int, 0int,
    {
        proof {
            assert(node_wf(self@[h as int], h as int));
        }
        match &self.nodes[h] {
            JsonNode::Null => {
                let s = "null".to_owned();
                s
            },
            JsonNode::Bool(b) => {
                if *b {
                    "true".to_owned()
                } else {
                    "false".to_owned()
                }
            },
            JsonNode::Int(n) => signed_string(*n),
            JsonNode::Text(t) => {
                let mut s = "\"".to_owned();
                s.append(t.as_str());
                s.append("\"");
                s
            },
            JsonNode::Array(cs) => {
                proof {
                    assert(self@[h as int] == self.nodes@[h as int]@);
                    assert(node_wf(NodeV::Array(cs@), h as int));
                }
                let mut s = "[".to_owned();
                let inner = self.render_items(cs, 0, h);
                s.append(inner.as_str());
                s.append("]");
                proof {
                    assert(cs@.subrange(0, cs@.len() as int) =~= cs@);
                }
                s
            },
            JsonNode::Object(fs) => {
                proof {
                    assert(self@[h as int] == self.nodes@[h as int]@);
                    assert(node_wf(NodeV::Object(fields_view(fs@)), h as int));
                    assert(forall|k: int|
                        0 <= k < fs@.len() ==> #[trigger] fs@[k].1 == fields_view(fs@)[k].1);
                }
                let mut s = "{".to_owned();
                let inner = self.render_fields(fs, 0, h);
                s.append(inner.as_str());
                s.append("}");
                proof {
                    assert(fields_view(fs@).subrange(0, fs@.len() as int) =~= fields_view(fs@));
                }
                s
            },
        }
    }

    /// Renders the array items `cs[from..]`, comma separated.
    fn render_items(&self, cs: &Vec<usize>, from: usize, h: usize) -> (s: String)
        requires
            self.wf(),
            from <= cs@.len(),
            h < self@.len(),
            forall|k: int| 0 <= k < cs@.len() ==> (cs@[k] as int) < h,
        ensures
            s@ == render_items_v(self@, cs@.subrange(from as int, cs@.len() as int), h as int),
        decreases h, 0int, cs@.len() - from,
    {
        if from == cs.len() {
            proof {
                reveal_strlit("");
                assert(""@ =~= Seq::<char>::empty());
            }
            "".to_owned()
        } else {
            let c = cs[from];
            let head = self.render(c);
            if from + 1 == cs.len() {
                proof {
                    lemma_single_item(self@, cs@.subrange(from as int, cs@.len() as int), h as int);
                }
                head
            } else {
                let mut s = head;
                s.append(",");
                let rest = self.render_items(cs, from + 1, h);
                s.append(rest.as_str());
                proof {
                    assert(cs@.subrange(from as int, cs@.len() as int).drop_first() =~= cs@.subrange(
                        from as int + 1,
                        cs@.len() as int,
                    ));
                }
                s
            }
        }
    }

    /// Renders the object fields `fs[from..]`, comma separated, each as a
    /// quoted key, a colon, and the field's value.
    fn render_fields(&self, fs: &Vec<(String, usize)>, from: usize, h: usize) -> (s: String)
        requires
            self.wf(),
            from <= fs@.len(),
            h < self@.len(),
            forall|k: int| 0 <= k < fs@.len() ==> (#[trigger] fs@[k].1 as int) < h,
        ensures
            s@ == render_fields_v(
                self@,
                fields_view(fs@).subrange(from as int, fs@.len() as int),
                h as int,
            ),
        decreases h, 0int, fs@.len() - from,
    {
        if from == fs.len() {
            proof {
                reveal_strlit("");
                assert(""@ =~= Seq::<char>::empty());
            }
            "".to_owned()
        } else {
            let pr = &fs[from];
            let mut s = "\"".to_owned();
            s.append(pr.0.as_str());
            s.append("\":");
            let v = self.render(pr.1);
            s.append(v.as_str());
            if from + 1 == fs.len() {
                proof {
                    lemma_single_field(
                        self@,
                        fields_view(fs@).subrange(from as int, fs@.len() as int),
                        h as int,
                    );
                }
                s
            } else {
                s.append(",");
                let rest = self.render_fields(fs, from + 1, h);
                s.append(rest.as_str());
                proof {
                    assert(fields_view(fs@).subrange(from as int, fs@.len() as int).drop_first()
                        =~= fields_view(fs@).subrange(from as int + 1, fs@.len() as int));
                }
                s
            }
        }
    }
}

/// The rendering of the node at `h`, empty for a dangling handle.
pub open spec fn render_node(d: Seq<NodeV>, h: int) -> Seq<char>
    decreases h, 1int, 0int,
{
    if 0 <= h < d.len() {
        match d[h] {
            NodeV::Null => "null"@,
            NodeV::Bool(b) => if b {
                "true"@
            } else {
                "false"@
            },
            NodeV::Int(n) => signed_chars(n as int),
            NodeV::Text(t) => "\""@ + t + "\""@,
            NodeV::Array(cs) => "["@ + render_items_v(d, cs, h) + "]"@,
            NodeV::Object(fs) => "{"@ + render_fields_v(d, fs, h) + "}"@,
        }
    } else {
        Seq::empty()
    }
}

/// The comma-separated renderings of array items, children of the node
/// at `h`.
pub open spec fn render_items_v(d: Seq<NodeV>, cs: Seq<usize>, h: int) -> Seq<char>
    decreases h, 0int, cs.len(),
{
    if cs.len() == 0 {
        Seq::empty()
    } else {
        let head = if 0 <= (cs[0] as int) < h {
            render_node(d, cs[0] as int)
        } else {
            Seq::empty()
        };
        if cs.len() == 1 {
            head
        } else {
            head + ","@ + render_items_v(d, cs.drop_first(), h)
        }
    }
}

/// The comma-separated renderings of object fields, children of the node
/// at `h`.
pub open spec fn render_fields_v(d: Seq<NodeV>, fs: Seq<(Seq<char>, usize)>, h: int) -> Seq<char>
    decreases h, 0int, fs.len(),
{
    if fs.len() == 0 {
        Seq::empty()
    } else {
        let head = "\""@ + fs[0].0 + "\":"@ + (if 0 <= (fs[0].1 as int) < h {
            render_node(d, fs[0].1 as int)
        } else {
            Seq::empty()
        });
        if fs.len() == 1 {
            head
        } else {
            head + ","@ + render_fields_v(d, fs.drop_first(), h)
        }
    }
}

/// Decides whether every index of `cs` lies strictly below `i`.
fn children_below(cs: &Vec<usize>, i: usize) -> (b: bool)
    ensures
        b == arr_children_below(cs@, i as int),
{
    let mut k: usize = 0;
    while k < cs.len()
        invariant
            k <= cs@.len(),
            forall|j: int| 0 <= j < k ==> ((#[trigger] cs@[j]) as int) < i,
        decreases cs@.len() - k,
    {
        if cs[k] >= i {
            return false;
        }
        k = k + 1;
    }
    true
}

/// Decides whether every field target of `fs` lies strictly below `i`.
fn field_targets_below(fs: &Vec<(String, usize)>, i: usize) -> (b: bool)
    ensures
        b == obj_children_below(fields_view(fs@), i as int),
{
    let mut k: usize = 0;
    while k < fs.len()
        invariant
            k <= fs@.len(),
            forall|j: int| 0 <= j < k ==> ((#[trigger] fields_view(fs@)[j]).1 as int) < i,
        decreases fs@.len() - k,
    {
        proof {
            assert(fields_view(fs@)[k as int].1 == fs@[k as int].1);
        }
        if fs[k].1 >= i {
            return false;
        }
        k = k + 1;
    }
    true
}

proof fn lemma_single_item(d: Seq<NodeV>, cs: Seq<usize>, h: int)
    requires
        cs.len() == 1,
        0 <= (cs[0] as int) < h,
    ensures
        render_items_v(d, cs, h) == render_node(d, cs[0] as int),
{
}

proof fn lemma_single_field(d: Seq<NodeV>, fs: Seq<(Seq<char>, usize)>, h: int)
    requires
        fs.len() == 1,
        0 <= (fs[0].1 as int) < h,
    ensures
        render_fields_v(d, fs, h) == "\""@ + fs[0].0 + "\":"@ + render_node(d, fs[0].1 as int),
{
}

} // verus!
