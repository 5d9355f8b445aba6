//! Deduplicated dependency graph of computation nodes, built on demand from
//! a network description.
//!
//! Nodes live in an arena (`Graph`) and edges are indices of earlier arena
//! slots, so the graph is acyclic by construction and a shared upstream
//! operator is represented by one slot referenced from many edges. A node's
//! identity is its first output's name: repeated resolution requests for the
//! same name return the same slot.

use vstd::prelude::*;

use crate::model::{ModelProto, ShapeTable};
use crate::text::str_eq;

verus! {

/// An operator node: the index of its record in the model's operator list,
/// together with the resolved shape of each declared output.
pub struct OperatorDefinition {
    pub record: usize,
    pub output_shapes: Vec<Vec<u64>>,
}

/// What a graph node stands for. Indices refer to the model the graph was
/// built from.
pub enum NodeDefinition {
    /// A computation step; holds the operator record index.
    Operator(OperatorDefinition),
    /// A constant tensor; holds the initializer index.
    Tensor(usize),
    /// A declared network input; holds the input index.
    Input(usize),
    /// The synthetic terminal node listing the requested output names.
    Outputs { names: Vec<String> },
    /// Sentinel for an absent optional operator input.
    Missing,
}

/// An edge to a producer node: the arena index of the producer and which of
/// its declared outputs is consumed.
pub struct Input {
    pub source_node: usize,
    pub output_index: usize,
}

/// A graph vertex: its definition and the ordered edges to the producers of
/// its inputs.
pub struct Node {
    pub definition: NodeDefinition,
    pub inputs: Vec<Input>,
}

/// The node arena. The root of a built graph is its last slot.
pub struct Graph {
    pub nodes: Vec<Node>,
}

/// Identity wrapper for a node: two identifiers are equal exactly when they
/// denote the same arena slot, never by comparing node contents.
#[derive(Clone, Copy, PartialEq, Eq, Hash, Structural, Debug)]
pub struct NodeIdentifier(pub usize);

/// Graph construction errors.
#[derive(Debug)]
pub enum IrError {
    /// A requested output is not declared by any operator record, or a
    /// declared output has no shape in the shape table.
    OutputNodeNotFound(String),
    /// An operator's input reference cannot be resolved to an output index
    /// in its declared producer.
    InputNodeNotFound { target_node_name: String, input_name: String },
    /// The name-dependency chain exceeds the number of operator records,
    /// which only a cyclic description can cause.
    CycleDetected(String),
}

/// Assumptions inherited from the source description: every operator record
/// declares at least one output, output names are required (non-empty) and
/// unique, and constant tensors have non-empty names of their own that no
/// operator output uses.
pub open spec fn model_wf(m: ModelProto) -> bool {
    &&& forall|r: int| 0 <= r < m.node@.len() ==> (#[trigger] m.node@[r]).output@.len() > 0
    &&& forall|r: int, j: int|
        0 <= r < m.node@.len() && 0 <= j < m.node@[r].output@.len() ==> (#[trigger] m.node@[r].output@[j]@).len()
            > 0
    &&& forall|r1: int, j1: int, r2: int, j2: int|
        #![trigger m.node@[r1].output@[j1]@, m.node@[r2].output@[j2]@]
        0 <= r1 < m.node@.len() && 0 <= j1 < m.node@[r1].output@.len() && 0 <= r2 < m.node@.len()
            && 0 <= j2 < m.node@[r2].output@.len() && m.node@[r1].output@[j1]@
            == m.node@[r2].output@[j2]@ ==> r1 == r2 && j1 == j2
    &&& forall|t: int, r: int, j: int|
        #![trigger m.initializer@[t].name@, m.node@[r].output@[j]@]
        0 <= t < m.initializer@.len() && 0 <= r < m.node@.len() && 0 <= j
            < m.node@[r].output@.len() ==> m.initializer@[t].name@ != m.node@[r].output@[j]@
    &&& forall|t: int|
        0 <= t < m.initializer@.len() ==> (#[trigger] m.initializer@[t].name@).len() > 0
    &&& forall|i: int| 0 <= i < m.input@.len() ==> (#[trigger] m.input@[i].name@).len() > 0
}

/// Record `r` declares `name` among its outputs.
pub open spec fn record_produces(m: ModelProto, r: int, name: Seq<char>) -> bool {
    exists|j: int| 0 <= j < m.node@[r].output@.len() && m.node@[r].output@[j]@ == name
}

/// Some operator record declares `name` among its outputs.
pub open spec fn name_is_produced(m: ModelProto, name: Seq<char>) -> bool {
    exists|r: int| 0 <= r < m.node@.len() && record_produces(m, r, name)
}

/// Some constant tensor carries `name`.
pub open spec fn is_initializer_name(m: ModelProto, name: Seq<char>) -> bool {
    exists|t: int| 0 <= t < m.initializer@.len() && m.initializer@[t].name@ == name
}

/// Some declared network input carries `name`.
pub open spec fn is_input_name(m: ModelProto, name: Seq<char>) -> bool {
    exists|i: int| 0 <= i < m.input@.len() && m.input@[i].name@ == name
}

/// Something of the description defines `name`: an operator output, a
/// constant tensor, or a declared input. Only names nothing defines may
/// resolve to the missing-input sentinel.
pub open spec fn name_registered(m: ModelProto, name: Seq<char>) -> bool {
    name_is_produced(m, name) || is_initializer_name(m, name) || is_input_name(m, name)
}

/// The record builds within `fuel` units: one unit for the record itself,
/// every declared output's shape in the table, and every input that
/// another operator produces resolvable in the remainder. In an acyclic
/// description every record is resolvable with one unit per operator
/// record, which is the fuel `from_model` supplies; a record on a cycle is
/// resolvable with no fuel at all.
pub open spec fn resolvable(m: ModelProto, shapes: ShapeTable, record: int, fuel: nat) -> bool
    decreases fuel,
{
    &&& fuel > 0
    &&& 0 <= record < m.node@.len()
    &&& forall|j: int|
        0 <= j < m.node@[record].output@.len() ==> shapes.contains_spec(
            #[trigger] m.node@[record].output@[j]@,
        )
    &&& forall|k: int, r2: int|
        0 <= k < m.node@[record].input@.len() && 0 <= r2 < m.node@.len()
            && #[trigger] record_produces(m, r2, m.node@[record].input@[k]@) ==> resolvable(
            m,
            shapes,
            r2,
            (fuel - 1) as nat,
        )
}

/// Under unique output names, at most one record produces a name.
proof fn lemma_producer_unique(m: ModelProto, r1: int, r2: int, name: Seq<char>)
    requires
        model_wf(m),
        0 <= r1 < m.node@.len(),
        0 <= r2 < m.node@.len(),
        record_produces(m, r1, name),
        record_produces(m, r2, name),
    ensures
        r1 == r2,
{
    let j1 = choose|j1: int| 0 <= j1 < m.node@[r1].output@.len() && m.node@[r1].output@[j1]@ == name;
    let j2 = choose|j2: int| 0 <= j2 < m.node@[r2].output@.len() && m.node@[r2].output@[j2]@ == name;
    assert(m.node@[r1].output@[j1]@ == m.node@[r2].output@[j2]@);
}

/// The name a node is known under: an operator's first output name, a
/// tensor's or input's own name, a single space for the synthetic outputs
/// node, and the empty string for the missing-input sentinel.
pub open spec fn def_name(m: ModelProto, d: NodeDefinition) -> Seq<char> {
    match d {
        NodeDefinition::Operator(op) => m.node@[op.record as int].output@[0]@,
        NodeDefinition::Tensor(t) => m.initializer@[t as int].name@,
        NodeDefinition::Input(i) => m.input@[i as int].name@,
        NodeDefinition::Outputs { .. } => seq![' '],
        NodeDefinition::Missing => Seq::empty(),
    }
}

/// The definition's model indices are in range.
pub open spec fn def_idx_wf(m: ModelProto, d: NodeDefinition) -> bool {
    match d {
        NodeDefinition::Operator(op) => op.record < m.node@.len() && m.node@[op.record as int].output@.len()
            > 0,
        NodeDefinition::Tensor(t) => t < m.initializer@.len(),
        NodeDefinition::Input(i) => i < m.input@.len(),
        NodeDefinition::Outputs { .. } => true,
        NodeDefinition::Missing => true,
    }
}

/// An operator definition carries one shape per declared output, each equal
/// to the shape registered for that output's name.
pub open spec fn def_shapes_ok(m: ModelProto, shapes: ShapeTable, d: NodeDefinition) -> bool {
    match d {
        NodeDefinition::Operator(op) => {
            &&& op.output_shapes@.len() == m.node@[op.record as int].output@.len()
            &&& forall|j: int|
                0 <= j < op.output_shapes@.len() ==> shapes.contains_spec(
                    m.node@[op.record as int].output@[j]@,
                ) && (#[trigger] op.output_shapes@[j])@ == shapes.shape_spec(
                    m.node@[op.record as int].output@[j]@,
                )
        },
        _ => true,
    }
}

/// The edge points at an existing non-terminal node, and its output index
/// is meaningful for that producer: within the declared outputs of an
/// operator, and zero for a leaf.
pub open spec fn edge_target_ok(m: ModelProto, nodes: Seq<Node>, e: Input) -> bool {
    &&& e.source_node < nodes.len()
    &&& match nodes[e.source_node as int].definition {
        NodeDefinition::Operator(sop) => e.output_index < m.node@[sop.record as int].output@.len(),
        NodeDefinition::Outputs { .. } => false,
        _ => e.output_index == 0,
    }
}

/// The tensor name an edge consumes: the producer's declared output at the
/// edge's output index, or a leaf's own name.
pub open spec fn consumed_name(m: ModelProto, nodes: Seq<Node>, e: Input) -> Seq<char> {
    match nodes[e.source_node as int].definition {
        NodeDefinition::Operator(sop) => m.node@[sop.record as int].output@[e.output_index as int]@,
        _ => def_name(m, nodes[e.source_node as int].definition),
    }
}

/// Well-formedness of one node: edges point backwards to valid producers,
/// and the edges wire exactly the names the node's record (or requested
/// output list) declares, in order.
pub open spec fn node_wf(m: ModelProto, shapes: ShapeTable, nodes: Seq<Node>, i: int) -> bool {
    let n = nodes[i];
    &&& def_idx_wf(m, n.definition)
    &&& def_shapes_ok(m, shapes, n.definition)
    &&& forall|k: int|
        0 <= k < n.inputs@.len() ==> edge_target_ok(m, nodes, #[trigger] n.inputs@[k])
            && n.inputs@[k].source_node < i
    &&& match n.definition {
        NodeDefinition::Operator(op) => {
            &&& n.inputs@.len() == m.node@[op.record as int].input@.len()
            &&& forall|k: int|
                0 <= k < n.inputs@.len() ==> (if nodes[(#[trigger] n.inputs@[k]).source_node as int].definition
                    is Missing {
                    !name_registered(m, m.node@[op.record as int].input@[k]@)
                } else {
                    consumed_name(m, nodes, n.inputs@[k]) == m.node@[op.record as int].input@[k]@
                })
        },
        NodeDefinition::Outputs { names } => {
            &&& n.inputs@.len() == names@.len()
            &&& forall|k: int|
                0 <= k < n.inputs@.len() ==> (nodes[(#[trigger] n.inputs@[k]).source_node as int].definition is Operator
                    && consumed_name(m, nodes, n.inputs@[k]) == names@[k]@)
        },
        _ => n.inputs@.len() == 0,
    }
}

/// Every node of the arena is well-formed.
pub open spec fn graph_wf(m: ModelProto, shapes: ShapeTable, nodes: Seq<Node>) -> bool {
    forall|i: int| 0 <= i < nodes.len() ==> node_wf(m, shapes, nodes, i)
}

/// Deduplication: no two non-terminal nodes share a name, so a name denotes
/// at most one slot and a shared ancestor is one object.
pub open spec fn names_unique(m: ModelProto, nodes: Seq<Node>) -> bool {
    forall|i: int, j: int|
        #![trigger def_name(m, nodes[i].definition), def_name(m, nodes[j].definition)]
        0 <= i < j < nodes.len() && !(nodes[i].definition is Outputs) && !(nodes[j].definition
            is Outputs) ==> def_name(m, nodes[i].definition) != def_name(m, nodes[j].definition)
}

/// Invariant of a graph under construction: well-formed, deduplicated, no
/// terminal node yet, and input-placeholder nodes only for names neither an
/// operator output nor a constant tensor claims — producers take
/// precedence over declared inputs.
pub open spec fn builder_wf(m: ModelProto, shapes: ShapeTable, nodes: Seq<Node>) -> bool {
    &&& graph_wf(m, shapes, nodes)
    &&& names_unique(m, nodes)
    &&& forall|i: int| 0 <= i < nodes.len() ==> !((#[trigger] nodes[i]).definition is Outputs)
    &&& forall|i: int|
        0 <= i < nodes.len() && (#[trigger] nodes[i]).definition is Input ==> !name_is_produced(
            m,
            def_name(m, nodes[i].definition),
        ) && !is_initializer_name(m, def_name(m, nodes[i].definition))
}

/// A node's value depends on runtime input exactly for operators and
/// declared inputs.
pub open spec fn dynamic_spec(d: NodeDefinition) -> bool {
    d is Operator || d is Input
}

/// What produced a tensor name: an operator record, an initializer, or a
/// declared network input.
#[derive(Clone, Copy)]
pub enum Producer {
    Op(usize),
    Init(usize),
    In(usize),
}

struct DefEntry {
    name: String,
    producer: Producer,
}

/// Mapping from every produced tensor name to its defining producer:
/// operator outputs first, then constant tensors, then declared inputs
/// that no producer shadows.
pub struct DefTable {
    entries: Vec<DefEntry>,
}

/// The producer of the last entry carrying `name`, so that later
/// registrations take precedence.
spec fn last_def(entries: Seq<DefEntry>, name: Seq<char>) -> Option<Producer>
    decreases entries.len(),
{
    if entries.len() == 0 {
        None
    } else if entries.last().name@ == name {
        Some(entries.last().producer)
    } else {
        last_def(entries.drop_last(), name)
    }
}

spec fn def_entry_wf(m: ModelProto, e: DefEntry) -> bool {
    match e.producer {
        Producer::Op(r) => r < m.node@.len() && record_produces(m, r as int, e.name@),
        Producer::Init(t) => t < m.initializer@.len() && m.initializer@[t as int].name@ == e.name@,
        Producer::In(i) => i < m.input@.len() && m.input@[i as int].name@ == e.name@
            && !name_is_produced(m, e.name@) && !is_initializer_name(m, e.name@),
    }
}

impl DefTable {
    /// The producer registered for `name`, if any.
    pub closed spec fn def_of(self, name: Seq<char>) -> Option<Producer> {
        last_def(self.entries@, name)
    }

    /// Soundness: every entry names a real producer of its name, and a
    /// declared-input entry exists only when nothing else claims the name.
    /// Completeness: every operator output, constant tensor and declared
    /// input has an entry, so an unregistered lookup is the only way to
    /// get nothing back.
    pub closed spec fn wf(self, m: ModelProto) -> bool {
        &&& forall|e: int|
            0 <= e < self.entries@.len() ==> def_entry_wf(m, #[trigger] self.entries@[e])
        &&& forall|r: int, j: int|
            0 <= r < m.node@.len() && 0 <= j < m.node@[r].output@.len() ==> self.def_of(
                #[trigger] m.node@[r].output@[j]@,
            ) is Some
        &&& forall|t: int|
            0 <= t < m.initializer@.len() ==> self.def_of(
                #[trigger] m.initializer@[t].name@,
            ) is Some
        &&& forall|i: int|
            0 <= i < m.input@.len() ==> self.def_of(#[trigger] m.input@[i].name@) is Some
    }

    pub fn lookup(&self, name: &str) -> (r: Option<Producer>)
        ensures
            r == self.def_of(name@),
    {
        find_last(&self.entries, name)
    }

    /// Builds the table for a model: one pass over operator outputs, one
    /// over initializers, and one over declared inputs, each input skipped
    /// when a producer already claims its name. Every produced name
    /// resolves to its operator record, every constant tensor name to a
    /// tensor, declared inputs only where no producer shadows them, and
    /// unregistered names to nothing.
    pub fn for_model(model: &ModelProto) -> (r: DefTable)
        requires
            model_wf(*model),
        ensures
            r.wf(*model),
            forall|n: Seq<char>|
                name_is_produced(*model, n) ==> ((#[trigger] r.def_of(n)) matches Some(
                    Producer::Op(rr),
                ) && record_produces(*model, rr as int, n)),
            forall|t: int|
                0 <= t < model.initializer@.len() ==> ((#[trigger] r.def_of(
                    model.initializer@[t].name@,
                )) matches Some(Producer::Init(tt)) && tt < model.initializer@.len()
                    && model.initializer@[tt as int].name@ == model.initializer@[t].name@),
            forall|i: int|
                0 <= i < model.input@.len() && !name_is_produced(*model, model.input@[i].name@)
                    && !is_initializer_name(*model, model.input@[i].name@) ==> ((
                #[trigger] r.def_of(model.input@[i].name@)) matches Some(Producer::In(ii)) && ii
                    < model.input@.len() && model.input@[ii as int].name@
                    == model.input@[i].name@),
            forall|n: Seq<char>| !name_registered(*model, n) ==> r.def_of(n) is None,
    {
        let mut entries: Vec<DefEntry> = Vec::new();
        let nrec = model.node.len();
        let mut rec: usize = 0;
        while rec < nrec
            invariant
                nrec == model.node@.len(),
                rec <= nrec,
                model_wf(*model),
                forall|e: int|
                    0 <= e < entries@.len() ==> def_entry_wf(*model, #[trigger] entries@[e]),
                forall|r2: int, j2: int|
                    0 <= r2 < rec && 0 <= j2 < model.node@[r2].output@.len() ==> last_def(
                        entries@,
                        #[trigger] model.node@[r2].output@[j2]@,
                    ) is Some,
            decreases nrec - rec,
        {
            let nout = model.node[rec].output.len();
            let mut j: usize = 0;
            while j < nout
                invariant
                    rec < nrec,
                    nrec == model.node@.len(),
                    nout == model.node@[rec as int].output@.len(),
                    j <= nout,
                    model_wf(*model),
                    forall|e: int|
                        0 <= e < entries@.len() ==> def_entry_wf(*model, #[trigger] entries@[e]),
                    forall|r2: int, j2: int|
                        0 <= r2 < rec && 0 <= j2 < model.node@[r2].output@.len() ==> last_def(
                            entries@,
                            #[trigger] model.node@[r2].output@[j2]@,
                        ) is Some,
                    forall|j2: int|
                        0 <= j2 < j ==> last_def(
                            entries@,
                            #[trigger] model.node@[rec as int].output@[j2]@,
                        ) is Some,
                decreases nout - j,
            {
                let name = model.node[rec].output[j].clone();
                let ghost prev = entries@;
                entries.push(DefEntry { name, producer: Producer::Op(rec) });
                proof {
                    let x = entries@.last();
                    assert(entries@ =~= prev.push(x));
                    assert forall|n2: Seq<char>| last_def(prev, n2) is Some implies last_def(
                        entries@,
                        n2,
                    ) is Some by {
                        lemma_last_def_push(prev, x, n2);
                    }
                    lemma_last_def_push(prev, x, model.node@[rec as int].output@[j as int]@);
                }
                j += 1;
            }
            rec += 1;
        }
        let ninit = model.initializer.len();
        let mut t: usize = 0;
        while t < ninit
            invariant
                ninit == model.initializer@.len(),
                t <= ninit,
                model_wf(*model),
                forall|e: int|
                    0 <= e < entries@.len() ==> def_entry_wf(*model, #[trigger] entries@[e]),
                forall|r2: int, j2: int|
                    0 <= r2 < model.node@.len() && 0 <= j2 < model.node@[r2].output@.len()
                        ==> last_def(entries@, #[trigger] model.node@[r2].output@[j2]@) is Some,
                forall|t2: int|
                    0 <= t2 < t ==> last_def(
                        entries@,
                        #[trigger] model.initializer@[t2].name@,
                    ) is Some,
            decreases ninit - t,
        {
            let name = model.initializer[t].name.clone();
            let ghost prev = entries@;
            entries.push(DefEntry { name, producer: Producer::Init(t) });
            proof {
                let x = entries@.last();
                assert(entries@ =~= prev.push(x));
                assert forall|n2: Seq<char>| last_def(prev, n2) is Some implies last_def(
                    entries@,
                    n2,
                ) is Some by {
                    lemma_last_def_push(prev, x, n2);
                }
                lemma_last_def_push(prev, x, model.initializer@[t as int].name@);
            }
            t += 1;
        }
        let nin = model.input.len();
        let mut vi: usize = 0;
        while vi < nin
            invariant
                nin == model.input@.len(),
                vi <= nin,
                model_wf(*model),
                forall|e: int|
                    0 <= e < entries@.len() ==> def_entry_wf(*model, #[trigger] entries@[e]),
                forall|r2: int, j2: int|
                    0 <= r2 < model.node@.len() && 0 <= j2 < model.node@[r2].output@.len()
                        ==> last_def(entries@, #[trigger] model.node@[r2].output@[j2]@) is Some,
                forall|t2: int|
                    0 <= t2 < model.initializer@.len() ==> last_def(
                        entries@,
                        #[trigger] model.initializer@[t2].name@,
                    ) is Some,
                forall|v2: int|
                    0 <= v2 < vi ==> last_def(entries@, #[trigger] model.input@[v2].name@) is Some,
            decreases nin - vi,
        {
            let name = model.input[vi].name.clone();
            let existing = find_last(&entries, name.as_str());
            match existing {
                Some(_) => {},
                None => {
                    proof {
                        lemma_absent_name_not_produced(*model, entries@, name@);
                        lemma_absent_name_not_initializer(*model, entries@, name@);
                    }
                    let ghost prev = entries@;
                    entries.push(DefEntry { name, producer: Producer::In(vi) });
                    proof {
                        let x = entries@.last();
                        assert(entries@ =~= prev.push(x));
                        assert forall|n2: Seq<char>| last_def(prev, n2) is Some implies last_def(
                            entries@,
                            n2,
                        ) is Some by {
                            lemma_last_def_push(prev, x, n2);
                        }
                        lemma_last_def_push(prev, x, model.input@[vi as int].name@);
                    }
                },
            }
            vi += 1;
        }
        let table = DefTable { entries };
        proof {
            lemma_for_model_bindings(table, *model);
        }
        table
    }
}

/// If every constant tensor name is registered and a name is absent, the
/// name is no constant tensor's.
proof fn lemma_absent_name_not_initializer(m: ModelProto, entries: Seq<DefEntry>, name: Seq<char>)
    requires
        last_def(entries, name) is None,
        forall|t: int|
            0 <= t < m.initializer@.len() ==> last_def(
                entries,
                #[trigger] m.initializer@[t].name@,
            ) is Some,
    ensures
        !is_initializer_name(m, name),
{
    if is_initializer_name(m, name) {
        let t = choose|t: int| 0 <= t < m.initializer@.len() && m.initializer@[t].name@ == name;
        assert(last_def(entries, m.initializer@[t].name@) is Some);
    }
}

/// In a sound and complete table over a well-formed model, what a name
/// resolves to is fixed by what the model declares under it.
proof fn lemma_for_model_bindings(t: DefTable, m: ModelProto)
    requires
        model_wf(m),
        t.wf(m),
    ensures
        forall|n: Seq<char>|
            name_is_produced(m, n) ==> ((#[trigger] t.def_of(n)) matches Some(Producer::Op(rr))
                && record_produces(m, rr as int, n)),
        forall|t2: int|
            0 <= t2 < m.initializer@.len() ==> ((#[trigger] t.def_of(m.initializer@[t2].name@))
                matches Some(Producer::Init(tt)) && tt < m.initializer@.len()
                && m.initializer@[tt as int].name@ == m.initializer@[t2].name@),
        forall|i: int|
            0 <= i < m.input@.len() && !name_is_produced(m, m.input@[i].name@)
                && !is_initializer_name(m, m.input@[i].name@) ==> ((#[trigger] t.def_of(
                m.input@[i].name@,
            )) matches Some(Producer::In(ii)) && ii < m.input@.len()
                && m.input@[ii as int].name@ == m.input@[i].name@),
        forall|n: Seq<char>| !name_registered(m, n) ==> t.def_of(n) is None,
{
    assert forall|n: Seq<char>| name_is_produced(m, n) implies ((#[trigger] t.def_of(n)) matches
    Some(Producer::Op(rr)) && record_produces(m, rr as int, n)) by {
        let r = choose|r: int| 0 <= r < m.node@.len() && record_produces(m, r, n);
        let j = choose|j: int| 0 <= j < m.node@[r].output@.len() && m.node@[r].output@[j]@ == n;
        assert(t.def_of(m.node@[r].output@[j]@) is Some);
        let p = t.def_of(n)->Some_0;
        lemma_last_def_entry(t.entries@, n, p);
        let e = choose|e: int|
            0 <= e < t.entries@.len() && (#[trigger] t.entries@[e]).name@ == n
                && t.entries@[e].producer == p;
        assert(def_entry_wf(m, t.entries@[e]));
        match p {
            Producer::Op(_) => {},
            Producer::Init(tt) => {
                assert(m.initializer@[tt as int].name@ == m.node@[r].output@[j]@);
                assert(false);
            },
            Producer::In(_) => {
                assert(false);
            },
        }
    }
    assert forall|t2: int| 0 <= t2 < m.initializer@.len() implies ((#[trigger] t.def_of(
        m.initializer@[t2].name@,
    )) matches Some(Producer::Init(tt)) && tt < m.initializer@.len()
        && m.initializer@[tt as int].name@ == m.initializer@[t2].name@) by {
        let n = m.initializer@[t2].name@;
        assert(t.def_of(n) is Some);
        let p = t.def_of(n)->Some_0;
        lemma_last_def_entry(t.entries@, n, p);
        let e = choose|e: int|
            0 <= e < t.entries@.len() && (#[trigger] t.entries@[e]).name@ == n
                && t.entries@[e].producer == p;
        assert(def_entry_wf(m, t.entries@[e]));
        match p {
            Producer::Op(rr) => {
                let j = choose|j: int|
                    0 <= j < m.node@[rr as int].output@.len() && m.node@[rr as int].output@[j]@
                        == n;
                assert(m.initializer@[t2].name@ == m.node@[rr as int].output@[j]@);
                assert(false);
            },
            Producer::Init(_) => {},
            Producer::In(_) => {
                assert(is_initializer_name(m, n));
                assert(false);
            },
        }
    }
    assert forall|i: int|
        0 <= i < m.input@.len() && !name_is_produced(m, m.input@[i].name@)
            && !is_initializer_name(m, m.input@[i].name@) implies ((#[trigger] t.def_of(
        m.input@[i].name@,
    )) matches Some(Producer::In(ii)) && ii < m.input@.len() && m.input@[ii as int].name@
        == m.input@[i].name@) by {
        let n = m.input@[i].name@;
        assert(t.def_of(n) is Some);
        let p = t.def_of(n)->Some_0;
        lemma_last_def_entry(t.entries@, n, p);
        let e = choose|e: int|
            0 <= e < t.entries@.len() && (#[trigger] t.entries@[e]).name@ == n
                && t.entries@[e].producer == p;
        assert(def_entry_wf(m, t.entries@[e]));
        match p {
            Producer::Op(rr) => {
                assert(name_is_produced(m, n));
                assert(false);
            },
            Producer::Init(tt) => {
                assert(is_initializer_name(m, n));
                assert(false);
            },
            Producer::In(_) => {},
        }
    }
    assert forall|n: Seq<char>| !name_registered(m, n) implies t.def_of(n) is None by {
        if t.def_of(n) is Some {
            let p = t.def_of(n)->Some_0;
            lemma_last_def_entry(t.entries@, n, p);
            let e = choose|e: int|
                0 <= e < t.entries@.len() && (#[trigger] t.entries@[e]).name@ == n
                    && t.entries@[e].producer == p;
            assert(def_entry_wf(m, t.entries@[e]));
            match p {
                Producer::Op(rr) => {
                    assert(name_is_produced(m, n));
                },
                Producer::Init(tt) => {
                    assert(is_initializer_name(m, n));
                },
                Producer::In(ii) => {
                    assert(is_input_name(m, n));
                },
            }
        }
    }
}

/// Appending an entry changes a lookup only for the appended name.
proof fn lemma_last_def_push(s: Seq<DefEntry>, x: DefEntry, n: Seq<char>)
    ensures
        last_def(s.push(x), n) == (if x.name@ == n {
            Some(x.producer)
        } else {
            last_def(s, n)
        }),
{
    reveal_with_fuel(last_def, 2);
    assert(s.push(x).drop_last() =~= s);
    assert(s.push(x).last() == x);
}

/// If every operator output is registered and a name is absent from the
/// table, no record produces that name.
proof fn lemma_absent_name_not_produced(m: ModelProto, entries: Seq<DefEntry>, name: Seq<char>)
    requires
        last_def(entries, name) is None,
        forall|r: int, j: int|
            0 <= r < m.node@.len() && 0 <= j < m.node@[r].output@.len() ==> last_def(
                entries,
                #[trigger] m.node@[r].output@[j]@,
            ) is Some,
    ensures
        !name_is_produced(m, name),
{
    if name_is_produced(m, name) {
        let r = choose|r: int| 0 <= r < m.node@.len() && record_produces(m, r, name);
        let j = choose|j: int| 0 <= j < m.node@[r].output@.len() && m.node@[r].output@[j]@ == name;
        assert(last_def(entries, m.node@[r].output@[j]@) is Some);
    }
}

/// Scans `entries` from the end for the last entry named `name`.
fn find_last(entries: &Vec<DefEntry>, name: &str) -> (r: Option<Producer>)
    ensures
        r == last_def(entries@, name@),
{
    let n = entries.len();
    let mut i: usize = n;
    proof {
        assert(entries@.take(n as int) =~= entries@);
    }
    while i > 0
        invariant
            i <= n,
            n == entries@.len(),
            last_def(entries@, name@) == last_def(entries@.take(i as int), name@),
        decreases i,
    {
        i -= 1;
        proof {
            reveal_with_fuel(last_def, 2);
            assert(entries@.take(i + 1).drop_last() =~= entries@.take(i as int));
            assert(entries@.take(i + 1).last() == entries@[i as int]);
        }
        if str_eq(entries[i].name.as_str(), name) {
            return Some(entries[i].producer);
        }
    }
    proof {
        reveal_with_fuel(last_def, 1);
        assert(entries@.take(0) =~= Seq::<DefEntry>::empty());
    }
    None
}

/// A found producer satisfies the per-entry well-formedness conditions.
proof fn lemma_def_of_wf(t: DefTable, m: ModelProto, name: Seq<char>, p: Producer)
    requires
        t.wf(m),
        t.def_of(name) == Some(p),
    ensures
        match p {
            Producer::Op(r) => r < m.node@.len() && record_produces(m, r as int, name),
            Producer::Init(i) => i < m.initializer@.len() && m.initializer@[i as int].name@ == name,
            Producer::In(i) => i < m.input@.len() && m.input@[i as int].name@ == name
                && !name_is_produced(m, name) && !is_initializer_name(m, name),
        },
{
    lemma_last_def_entry(t.entries@, name, p);
    let e = choose|e: int|
        0 <= e < t.entries@.len() && t.entries@[e].name@ == name && t.entries@[e].producer == p;
    assert(def_entry_wf(m, t.entries@[e]));
}

/// A found producer comes from some entry carrying the looked-up name.
proof fn lemma_last_def_entry(entries: Seq<DefEntry>, name: Seq<char>, p: Producer)
    requires
        last_def(entries, name) == Some(p),
    ensures
        exists|e: int|
            0 <= e < entries.len() && (#[trigger] entries[e]).name@ == name && entries[e].producer
                == p,
    decreases entries.len(),
{
    reveal_with_fuel(last_def, 2);
    if entries.len() > 0 {
        if entries.last().name@ == name {
            assert(entries[entries.len() - 1].name@ == name);
        } else {
            lemma_last_def_entry(entries.drop_last(), name, p);
            let e = choose|e: int|
                0 <= e < entries.drop_last().len() && (#[trigger] entries.drop_last()[e]).name@
                    == name && entries.drop_last()[e].producer == p;
            assert(entries[e].name@ == name && entries[e].producer == p);
        }
    }
}

impl Node {
    pub fn new(variant: NodeDefinition) -> (r: Node)
        ensures
            r.definition == variant,
            r.inputs@.len() == 0,
    {
        Node { definition: variant, inputs: Vec::new() }
    }

    /// True when the node's value depends on runtime input: for `Operator`
    /// and `Input` variants, false otherwise.
    pub fn is_dynamic(&self) -> (r: bool)
        ensures
            r == dynamic_spec(self.definition),
    {
        match self.definition {
            NodeDefinition::Operator(..) => true,
            NodeDefinition::Input(..) => true,
            _ => false,
        }
    }

    pub fn definition(&self) -> (r: &NodeDefinition)
        ensures
            r == &self.definition,
    {
        &self.definition
    }
}

impl NodeDefinition {
    /// The name the node is identified by; see `def_name`.
    pub fn get_name(&self, model: &ModelProto) -> (r: String)
        requires
            def_idx_wf(*model, *self),
        ensures
            r@ == def_name(*model, *self),
    {
        match self {
            NodeDefinition::Operator(op) => model.node[op.record].output[0].clone(),
            NodeDefinition::Tensor(t) => model.initializer[*t].name.clone(),
            NodeDefinition::Input(i) => model.input[*i].name.clone(),
            NodeDefinition::Outputs { .. } => {
                let r = String::from_str(" ");
                proof {
                    reveal_strlit(" ");
                    assert(r@ =~= seq![' ']);
                }
                r
            },
            NodeDefinition::Missing => String::new(),
        }
    }
}

impl Graph {
    pub fn len(&self) -> (r: usize)
        ensures
            r == self.nodes@.len(),
    {
        self.nodes.len()
    }

    pub fn get(&self, i: usize) -> (r: &Node)
        requires
            i < self.nodes@.len(),
        ensures
            r == &self.nodes@[i as int],
    {
        &self.nodes[i]
    }

    /// The identity of slot `index`: equality on identifiers is equality of
    /// the underlying slot, never of node contents.
    pub fn identifier(&self, index: usize) -> (r: NodeIdentifier)
        requires
            index < self.nodes@.len(),
        ensures
            r.0 == index,
    {
        NodeIdentifier(index)
    }
}


/// `nodes2` extends `nodes1`: it begins with exactly the slots of `nodes1`.
pub open spec fn extends(nodes1: Seq<Node>, nodes2: Seq<Node>) -> bool {
    nodes1.len() <= nodes2.len() && nodes2.take(nodes1.len() as int) == nodes1
}

proof fn lemma_extends_index(nodes1: Seq<Node>, nodes2: Seq<Node>)
    requires
        extends(nodes1, nodes2),
    ensures
        forall|i: int| 0 <= i < nodes1.len() ==> nodes2[i] == nodes1[i],
{
    assert forall|i: int| 0 <= i < nodes1.len() implies nodes2[i] == nodes1[i] by {
        assert(nodes2.take(nodes1.len() as int)[i] == nodes2[i]);
    }
}

proof fn lemma_extends_trans(n1: Seq<Node>, n2: Seq<Node>, n3: Seq<Node>)
    requires
        extends(n1, n2),
        extends(n2, n3),
    ensures
        extends(n1, n3),
{
    lemma_extends_index(n1, n2);
    lemma_extends_index(n2, n3);
    assert(n3.take(n1.len() as int) =~= n1);
}

/// Growing the arena never invalidates an existing edge, its target's
/// definition, or the name it consumes.
proof fn lemma_extends_edge(m: ModelProto, nodes1: Seq<Node>, nodes2: Seq<Node>, e: Input)
    requires
        extends(nodes1, nodes2),
        edge_target_ok(m, nodes1, e),
    ensures
        edge_target_ok(m, nodes2, e),
        consumed_name(m, nodes2, e) == consumed_name(m, nodes1, e),
        nodes2[e.source_node as int] == nodes1[e.source_node as int],
{
    lemma_extends_index(nodes1, nodes2);
}

/// Growing the arena preserves the well-formedness of existing nodes.
proof fn lemma_extends_node_wf(
    m: ModelProto,
    shapes: ShapeTable,
    nodes1: Seq<Node>,
    nodes2: Seq<Node>,
    i: int,
)
    requires
        extends(nodes1, nodes2),
        0 <= i < nodes1.len(),
        node_wf(m, shapes, nodes1, i),
    ensures
        node_wf(m, shapes, nodes2, i),
{
    lemma_extends_index(nodes1, nodes2);
    let n = nodes1[i];
    assert forall|k: int| 0 <= k < n.inputs@.len() implies edge_target_ok(
        m,
        nodes2,
        #[trigger] n.inputs@[k],
    ) && consumed_name(m, nodes2, n.inputs@[k]) == consumed_name(m, nodes1, n.inputs@[k])
        && nodes2[n.inputs@[k].source_node as int] == nodes1[n.inputs@[k].source_node as int] by {
        lemma_extends_edge(m, nodes1, nodes2, n.inputs@[k]);
    }
}

/// Growing the arena preserves the well-formedness of a whole prefix.
proof fn lemma_extends_graph_wf(
    m: ModelProto,
    shapes: ShapeTable,
    nodes1: Seq<Node>,
    nodes2: Seq<Node>,
)
    requires
        extends(nodes1, nodes2),
        graph_wf(m, shapes, nodes1),
    ensures
        forall|i: int| 0 <= i < nodes1.len() ==> node_wf(m, shapes, nodes2, i),
{
    assert forall|i: int| 0 <= i < nodes1.len() implies node_wf(m, shapes, nodes2, i) by {
        assert(node_wf(m, shapes, nodes1, i));
        lemma_extends_node_wf(m, shapes, nodes1, nodes2, i);
    }
}

/// In a deduplicated graph built for a well-formed model, a node carrying
/// the first output name of record `r` can only be the operator node of
/// record `r` itself: no leaf may bear an operator output's name.
proof fn lemma_named_node_is_operator(
    m: ModelProto,
    shapes: ShapeTable,
    nodes: Seq<Node>,
    i: int,
    r: int,
)
    requires
        model_wf(m),
        builder_wf(m, shapes, nodes),
        0 <= i < nodes.len(),
        0 <= r < m.node@.len(),
        def_name(m, nodes[i].definition) == m.node@[r].output@[0]@,
    ensures
        nodes[i].definition matches NodeDefinition::Operator(op) && op.record == r,
{
    assert(node_wf(m, shapes, nodes, i));
    assert(m.node@[r].output@.len() > 0);
    match nodes[i].definition {
        NodeDefinition::Operator(op) => {
            assert(m.node@[op.record as int].output@[0]@ == m.node@[r].output@[0]@);
        },
        NodeDefinition::Tensor(t) => {
            assert(m.initializer@[t as int].name@ == m.node@[r].output@[0]@);
            assert(false);
        },
        NodeDefinition::Input(vi) => {
            assert(record_produces(m, r, def_name(m, nodes[i].definition)));
            assert(name_is_produced(m, def_name(m, nodes[i].definition)));
            assert(false);
        },
        NodeDefinition::Outputs { .. } => {
            assert(false);
        },
        NodeDefinition::Missing => {
            assert(m.node@[r].output@[0]@.len() > 0);
            assert(false);
        },
    }
}

/// Copies a shape.
pub(crate) fn copy_dims(v: &Vec<u64>) -> (r: Vec<u64>)
    ensures
        r@ == v@,
{
    let mut r: Vec<u64> = Vec::new();
    let n = v.len();
    let mut i: usize = 0;
    while i < n
        invariant
            n == v@.len(),
            i <= n,
            r@ == v@.take(i as int),
        decreases n - i,
    {
        r.push(v[i]);
        proof {
            assert(v@.take(i + 1) =~= v@.take(i as int).push(v@[i as int]));
        }
        i += 1;
    }
    proof {
        assert(v@.take(n as int) =~= v@);
    }
    r
}

/// Copies a list of names.
fn copy_strings(v: &Vec<String>) -> (r: Vec<String>)
    ensures
        r@ == v@,
{
    let mut r: Vec<String> = Vec::new();
    let n = v.len();
    let mut i: usize = 0;
    while i < n
        invariant
            n == v@.len(),
            i <= n,
            r@ == v@.take(i as int),
        decreases n - i,
    {
        r.push(v[i].clone());
        proof {
            assert(v@.take(i + 1) =~= v@.take(i as int).push(v@[i as int]));
        }
        i += 1;
    }
    proof {
        assert(v@.take(n as int) =~= v@);
    }
    r
}

/// The declared output names of the model, in order.
fn model_output_names(model: &ModelProto) -> (r: Vec<String>)
    ensures
        r@ == model.output@.map_values(|v: crate::model::ValueInfoProto| v.name),
{
    let mut r: Vec<String> = Vec::new();
    let n = model.output.len();
    let mut i: usize = 0;
    while i < n
        invariant
            n == model.output@.len(),
            i <= n,
            r@ == model.output@.take(i as int).map_values(
                |v: crate::model::ValueInfoProto| v.name,
            ),
        decreases n - i,
    {
        r.push(model.output[i].name.clone());
        proof {
            assert(model.output@.take(i + 1).map_values(|v: crate::model::ValueInfoProto| v.name)
                =~= model.output@.take(i as int).map_values(
                |v: crate::model::ValueInfoProto| v.name,
            ).push(model.output@[i as int].name));
        }
        i += 1;
    }
    proof {
        assert(model.output@.take(n as int) =~= model.output@);
    }
    r
}

/// Compares each definition's name against `name`.
fn def_has_name(model: &ModelProto, d: &NodeDefinition, name: &str) -> (r: bool)
    requires
        def_idx_wf(*model, *d),
    ensures
        r == (def_name(*model, *d) == name@),
{
    match d {
        NodeDefinition::Operator(op) => str_eq(model.node[op.record].output[0].as_str(), name),
        NodeDefinition::Tensor(t) => str_eq(model.initializer[*t].name.as_str(), name),
        NodeDefinition::Input(i) => str_eq(model.input[*i].name.as_str(), name),
        NodeDefinition::Outputs { .. } => {
            let r = str_eq(" ", name);
            proof {
                reveal_strlit(" ");
                assert(" "@ =~= seq![' ']);
            }
            r
        },
        NodeDefinition::Missing => {
            let r = str_eq("", name);
            proof {
                reveal_strlit("");
                assert(""@ =~= Seq::<char>::empty());
            }
            r
        },
    }
}

/// The memoization lookup: scans the arena for the node registered under
/// `name`.
fn find_node_by_name(model: &ModelProto, nodes: &Vec<Node>, name: &str) -> (r: Option<usize>)
    requires
        forall|i: int|
            0 <= i < nodes@.len() ==> def_idx_wf(*model, (#[trigger] nodes@[i]).definition),
    ensures
        match r {
            Some(i) => i < nodes@.len() && def_name(*model, nodes@[i as int].definition) == name@,
            None => forall|i: int|
                0 <= i < nodes@.len() ==> def_name(*model, (#[trigger] nodes@[i]).definition)
                    != name@,
        },
{
    let n = nodes.len();
    let mut i: usize = 0;
    while i < n
        invariant
            n == nodes@.len(),
            i <= n,
            forall|j: int|
                0 <= j < nodes@.len() ==> def_idx_wf(*model, (#[trigger] nodes@[j]).definition),
            forall|j: int|
                0 <= j < i ==> def_name(*model, (#[trigger] nodes@[j]).definition) != name@,
        decreases n - i,
    {
        if def_has_name(model, &nodes[i].definition, name) {
            return Some(i);
        }
        i += 1;
    }
    None
}

/// The position of `name` in a list of names.
fn position_in(v: &Vec<String>, name: &str) -> (r: Option<usize>)
    ensures
        match r {
            Some(j) => j < v@.len() && v@[j as int]@ == name@,
            None => forall|j: int| 0 <= j < v@.len() ==> (#[trigger] v@[j])@ != name@,
        },
{
    let n = v.len();
    let mut i: usize = 0;
    while i < n
        invariant
            n == v@.len(),
            i <= n,
            forall|j: int| 0 <= j < i ==> (#[trigger] v@[j])@ != name@,
        decreases n - i,
    {
        if str_eq(v[i].as_str(), name) {
            return Some(i);
        }
        i += 1;
    }
    None
}

/// Fetches the leaf node registered under the definition's name, or pushes
/// a fresh input-less node for it.
fn get_or_create_leaf(
    model: &ModelProto,
    value_shapes: &ShapeTable,
    graph: &mut Graph,
    d: NodeDefinition,
) -> (r: usize)
    requires
        model_wf(*model),
        builder_wf(*model, *value_shapes, old(graph).nodes@),
        def_idx_wf(*model, d),
        !(d is Operator),
        !(d is Outputs),
        d is Input ==> !name_is_produced(*model, def_name(*model, d)) && !is_initializer_name(
            *model,
            def_name(*model, d),
        ),
    ensures
        builder_wf(*model, *value_shapes, final(graph).nodes@),
        extends(old(graph).nodes@, final(graph).nodes@),
        r < final(graph).nodes@.len(),
        def_name(*model, final(graph).nodes@[r as int].definition) == def_name(*model, d),
{
    let name = d.get_name(model);
    proof {
        assert forall|i: int| 0 <= i < graph.nodes@.len() implies def_idx_wf(
            *model,
            (#[trigger] graph.nodes@[i]).definition,
        ) by {
            assert(node_wf(*model, *value_shapes, graph.nodes@, i));
        }
    }
    match find_node_by_name(model, &graph.nodes, name.as_str()) {
        Some(i) => {
            proof {
                assert(graph.nodes@.take(graph.nodes@.len() as int) =~= graph.nodes@);
            }
            i
        },
        None => {
            let ghost pre = graph.nodes@;
            let ghost dd = d;
            graph.nodes.push(Node::new(d));
            proof {
                assert(extends(pre, graph.nodes@)) by {
                    assert(graph.nodes@.take(pre.len() as int) =~= pre);
                }
                lemma_extends_graph_wf(*model, *value_shapes, pre, graph.nodes@);
                let last = pre.len() as int;
                assert(graph.nodes@[last].definition == dd);
                assert(graph.nodes@[last].inputs@.len() == 0);
                assert(node_wf(*model, *value_shapes, graph.nodes@, last));
                lemma_extends_index(pre, graph.nodes@);
            }
            graph.nodes.len() - 1
        },
    }
}


impl OperatorDefinition {
    /// Resolves the shape of every declared output of record `record` in
    /// the shape table. Fails with the first output name, in declared
    /// order, that has no registered shape; succeeds exactly when every
    /// output has one.
    pub fn from(model: &ModelProto, record: usize, value_shapes: &ShapeTable) -> (r: Result<
        OperatorDefinition,
        IrError,
    >)
        requires
            value_shapes.wf(),
            record < model.node@.len(),
        ensures
            match r {
                Ok(d) => d.record == record && def_shapes_ok(
                    *model,
                    *value_shapes,
                    NodeDefinition::Operator(d),
                ),
                Err(e) => e matches IrError::OutputNodeNotFound(n) && !value_shapes.contains_spec(
                    n@,
                ) && exists|j: int|
                    0 <= j < model.node@[record as int].output@.len() && (
                    #[trigger] model.node@[record as int].output@[j]@) == n@ && forall|j2: int|
                        0 <= j2 < j ==> value_shapes.contains_spec(
                            #[trigger] model.node@[record as int].output@[j2]@,
                        ),
            },
    {
        let nout = model.node[record].output.len();
        let mut output_shapes: Vec<Vec<u64>> = Vec::new();
        let mut j: usize = 0;
        while j < nout
            invariant
                value_shapes.wf(),
                record < model.node@.len(),
                nout == model.node@[record as int].output@.len(),
                j <= nout,
                output_shapes@.len() == j,
                forall|j2: int|
                    0 <= j2 < j ==> value_shapes.contains_spec(
                        (#[trigger] model.node@[record as int].output@[j2])@,
                    ),
                forall|j2: int|
                    0 <= j2 < j ==> (#[trigger] output_shapes@[j2])@ == value_shapes.shape_spec(
                        model.node@[record as int].output@[j2]@,
                    ),
            decreases nout - j,
        {
            let output_name = &model.node[record].output[j];
            match value_shapes.lookup(output_name.as_str()) {
                Some(dims) => {
                    let ghost prev = output_shapes@;
                    output_shapes.push(copy_dims(dims));
                    proof {
                        assert(value_shapes.contains_spec(
                            model.node@[record as int].output@[j as int]@,
                        ));
                        assert forall|j2: int| 0 <= j2 < j + 1 implies (
                        #[trigger] output_shapes@[j2])@ == value_shapes.shape_spec(
                            model.node@[record as int].output@[j2]@,
                        ) by {
                            if j2 < j {
                                assert(output_shapes@[j2] == prev[j2]);
                                assert(prev[j2]@ == value_shapes.shape_spec(
                                    model.node@[record as int].output@[j2]@,
                                ));
                            } else {
                                assert(output_shapes@[j2]@ == value_shapes.shape_spec(
                                    model.node@[record as int].output@[j2]@,
                                ));
                            }
                        }
                    }
                },
                None => {
                    proof {
                        assert(record_produces(*model, record as int, output_name@));
                        assert(model.node@[record as int].output@[j as int]@ == output_name@);
                    }
                    return Err(IrError::OutputNodeNotFound(output_name.clone()));
                },
            }
            j += 1;
        }
        proof {
            assert forall|j2: int| 0 <= j2 < nout implies value_shapes.contains_spec(
                model.node@[record as int].output@[j2]@,
            ) && (#[trigger] output_shapes@[j2])@ == value_shapes.shape_spec(
                model.node@[record as int].output@[j2]@,
            ) by {
                assert(value_shapes.contains_spec(
                    (#[trigger] model.node@[record as int].output@[j2])@,
                ));
            }
        }
        Ok(OperatorDefinition { record, output_shapes })
    }
}

impl Node {
    /// Translates operator record `record` into a graph node, reusing the
    /// node if its name was resolved before, and resolving each declared
    /// input to an edge first: through the producing operator's node (built
    /// recursively), a constant tensor's node, a declared input's node, or
    /// the missing-input sentinel when nothing registers the name.
    ///
    /// A repeated request returns the existing slot and leaves the graph
    /// untouched. The fuel bounds the recursion depth, and success is owed
    /// whenever the record is `resolvable` with it; one unit per operator
    /// record always suffices for an acyclic description.
    pub fn from_node(
        model: &ModelProto,
        value_shapes: &ShapeTable,
        defs: &DefTable,
        graph: &mut Graph,
        record: usize,
        fuel: usize,
    ) -> (r: Result<usize, IrError>)
        requires
            model_wf(*model),
            value_shapes.wf(),
            defs.wf(*model),
            builder_wf(*model, *value_shapes, old(graph).nodes@),
            record < model.node@.len(),
        ensures
            builder_wf(*model, *value_shapes, final(graph).nodes@),
            extends(old(graph).nodes@, final(graph).nodes@),
            match r {
                Ok(i) => i < final(graph).nodes@.len() && def_name(
                    *model,
                    final(graph).nodes@[i as int].definition,
                ) == model.node@[record as int].output@[0]@,
                Err(e) => {
                    &&& (e matches IrError::OutputNodeNotFound(n)
                        ==> !value_shapes.contains_spec(n@))
                    &&& (e is OutputNodeNotFound || e is CycleDetected)
                },
            },
            (exists|i: int|
                0 <= i < old(graph).nodes@.len() && def_name(
                    *model,
                    (#[trigger] old(graph).nodes@[i]).definition,
                ) == model.node@[record as int].output@[0]@) ==> (r is Ok && final(graph).nodes@
                == old(graph).nodes@),
            resolvable(*model, *value_shapes, record as int, fuel as nat) ==> r is Ok,
        decreases fuel,
    {
        proof {
            assert(model.node@[record as int].output@.len() > 0);
        }
        let node_name = model.node[record].unique_name();
        proof {
            assert forall|i: int| 0 <= i < graph.nodes@.len() implies def_idx_wf(
                *model,
                (#[trigger] graph.nodes@[i]).definition,
            ) by {
                assert(node_wf(*model, *value_shapes, graph.nodes@, i));
            }
        }
        if let Some(i) = find_node_by_name(model, &graph.nodes, node_name.as_str()) {
            proof {
                assert(graph.nodes@.take(graph.nodes@.len() as int) =~= graph.nodes@);
            }
            return Ok(i);
        }
        if fuel == 0 {
            proof {
                assert(graph.nodes@.take(graph.nodes@.len() as int) =~= graph.nodes@);
            }
            return Err(IrError::CycleDetected(node_name));
        }
        let ghost orig = graph.nodes@;
        proof {
            assert(graph.nodes@.take(orig.len() as int) =~= orig);
            assert(forall|i: int|
                0 <= i < orig.len() ==> def_name(*model, (#[trigger] orig[i]).definition)
                    != model.node@[record as int].output@[0]@);
        }
        let n_inputs = model.node[record].input.len();
        let mut edges: Vec<Input> = Vec::new();
        let mut k: usize = 0;
        while k < n_inputs
            invariant
                model_wf(*model),
                value_shapes.wf(),
                defs.wf(*model),
                builder_wf(*model, *value_shapes, graph.nodes@),
                orig == old(graph).nodes@,
                extends(orig, graph.nodes@),
                forall|i: int|
                    0 <= i < orig.len() ==> def_name(*model, (#[trigger] orig[i]).definition)
                        != model.node@[record as int].output@[0]@,
                record < model.node@.len(),
                n_inputs == model.node@[record as int].input@.len(),
                fuel >= 1,
                k <= n_inputs,
                edges@.len() == k,
                forall|j: int|
                    0 <= j < k ==> edge_target_ok(*model, graph.nodes@, #[trigger] edges@[j]),
                forall|j: int|
                    0 <= j < k ==> (if graph.nodes@[(#[trigger] edges@[j]).source_node as int].definition
                        is Missing {
                        !name_registered(*model, model.node@[record as int].input@[j]@)
                    } else {
                        consumed_name(*model, graph.nodes@, edges@[j])
                            == model.node@[record as int].input@[j]@
                    }),
            decreases n_inputs - k,
        {
            let input_name = &model.node[record].input[k];
            let ghost before = graph.nodes@;
            let producer = defs.lookup(input_name.as_str());
            let edge: Input;
            match producer {
                None => {
                    let i = get_or_create_leaf(
                        model,
                        value_shapes,
                        graph,
                        NodeDefinition::Missing,
                    );
                    edge = Input { source_node: i, output_index: 0 };
                    proof {
                        let sd = graph.nodes@[i as int].definition;
                        assert(def_idx_wf(*model, sd)) by {
                            assert(node_wf(*model, *value_shapes, graph.nodes@, i as int));
                        }
                        assert(def_name(*model, sd) == Seq::<char>::empty());
                        match sd {
                            NodeDefinition::Operator(sop) => {
                                assert(model.node@[sop.record as int].output@[0]@.len() > 0);
                                assert(false);
                            },
                            NodeDefinition::Tensor(t) => {
                                assert(model.initializer@[t as int].name@.len() > 0);
                                assert(false);
                            },
                            NodeDefinition::Input(vi) => {
                                assert(model.input@[vi as int].name@.len() > 0);
                                assert(false);
                            },
                            NodeDefinition::Outputs { .. } => {
                                assert(false);
                            },
                            NodeDefinition::Missing => {},
                        }
                        assert(sd is Missing);
                        assert(edge_target_ok(*model, graph.nodes@, edge));
                        assert(defs.def_of(input_name@) is None);
                        if name_is_produced(*model, input_name@) {
                            let r3 = choose|r3: int|
                                0 <= r3 < model.node@.len() && record_produces(
                                    *model,
                                    r3,
                                    input_name@,
                                );
                            let j3 = choose|j3: int|
                                0 <= j3 < model.node@[r3].output@.len()
                                    && model.node@[r3].output@[j3]@ == input_name@;
                            assert(defs.def_of(model.node@[r3].output@[j3]@) is Some);
                            assert(false);
                        }
                        if is_initializer_name(*model, input_name@) {
                            let t3 = choose|t3: int|
                                0 <= t3 < model.initializer@.len()
                                    && model.initializer@[t3].name@ == input_name@;
                            assert(defs.def_of(model.initializer@[t3].name@) is Some);
                            assert(false);
                        }
                        if is_input_name(*model, input_name@) {
                            let v3 = choose|v3: int|
                                0 <= v3 < model.input@.len() && model.input@[v3].name@
                                    == input_name@;
                            assert(defs.def_of(model.input@[v3].name@) is Some);
                            assert(false);
                        }
                        assert(!name_registered(*model, input_name@));
                    }
                },
                Some(Producer::Op(r2)) => {
                    proof {
                        lemma_def_of_wf(*defs, *model, input_name@, Producer::Op(r2));
                    }
                    let i = match Node::from_node(model, value_shapes, defs, graph, r2, fuel - 1) {
                        Ok(i) => i,
                        Err(err) => {
                            proof {
                                lemma_extends_trans(orig, before, graph.nodes@);
                                if resolvable(
                                    *model,
                                    *value_shapes,
                                    record as int,
                                    fuel as nat,
                                ) {
                                    assert(record_produces(*model, r2 as int, input_name@));
                                    assert(resolvable(
                                        *model,
                                        *value_shapes,
                                        r2 as int,
                                        (fuel - 1) as nat,
                                    ));
                                    assert(false);
                                }
                            }
                            return Err(err);
                        },
                    };
                    let oi = match position_in(&model.node[r2].output, input_name.as_str()) {
                        Some(oi) => oi,
                        None => {
                            proof {
                                let j = choose|j: int|
                                    0 <= j < model.node@[r2 as int].output@.len()
                                        && model.node@[r2 as int].output@[j]@ == input_name@;
                                assert(false);
                            }
                            return Err(IrError::InputNodeNotFound {
                                target_node_name: node_name,
                                input_name: input_name.clone(),
                            });
                        },
                    };
                    edge = Input { source_node: i, output_index: oi };
                    proof {
                        lemma_named_node_is_operator(
                            *model,
                            *value_shapes,
                            graph.nodes@,
                            i as int,
                            r2 as int,
                        );
                        assert(consumed_name(*model, graph.nodes@, edge) == input_name@);
                        assert(edge_target_ok(*model, graph.nodes@, edge));
                    }
                },
                Some(Producer::Init(t)) => {
                    proof {
                        lemma_def_of_wf(*defs, *model, input_name@, Producer::Init(t));
                    }
                    let i = get_or_create_leaf(
                        model,
                        value_shapes,
                        graph,
                        NodeDefinition::Tensor(t),
                    );
                    edge = Input { source_node: i, output_index: 0 };
                    proof {
                        let sd = graph.nodes@[i as int].definition;
                        assert(def_idx_wf(*model, sd)) by {
                            assert(node_wf(*model, *value_shapes, graph.nodes@, i as int));
                        }
                        assert(def_name(*model, sd) == input_name@);
                        match sd {
                            NodeDefinition::Operator(sop) => {
                                assert(model.initializer@[t as int].name@
                                    != model.node@[sop.record as int].output@[0]@);
                                assert(false);
                            },
                            NodeDefinition::Outputs { .. } => {
                                assert(false);
                            },
                            NodeDefinition::Missing => {
                                assert(model.initializer@[t as int].name@.len() > 0);
                                assert(false);
                            },
                            _ => {},
                        }
                        assert(!(sd is Missing));
                        assert(consumed_name(*model, graph.nodes@, edge) == input_name@);
                        assert(edge_target_ok(*model, graph.nodes@, edge));
                    }
                },
                Some(Producer::In(vi)) => {
                    proof {
                        lemma_def_of_wf(*defs, *model, input_name@, Producer::In(vi));
                    }
                    let i = get_or_create_leaf(
                        model,
                        value_shapes,
                        graph,
                        NodeDefinition::Input(vi),
                    );
                    edge = Input { source_node: i, output_index: 0 };
                    proof {
                        let sd = graph.nodes@[i as int].definition;
                        assert(def_idx_wf(*model, sd)) by {
                            assert(node_wf(*model, *value_shapes, graph.nodes@, i as int));
                        }
                        assert(def_name(*model, sd) == input_name@);
                        match sd {
                            NodeDefinition::Operator(sop) => {
                                assert(record_produces(*model, sop.record as int, input_name@));
                                assert(name_is_produced(*model, input_name@));
                                assert(false);
                            },
                            NodeDefinition::Outputs { .. } => {
                                assert(false);
                            },
                            NodeDefinition::Missing => {
                                assert(model.input@[vi as int].name@.len() > 0);
                                assert(false);
                            },
                            _ => {},
                        }
                        assert(!(sd is Missing));
                        assert(consumed_name(*model, graph.nodes@, edge) == input_name@);
                        assert(edge_target_ok(*model, graph.nodes@, edge));
                    }
                },
            }
            proof {
                lemma_extends_trans(orig, before, graph.nodes@);
                assert forall|j: int| 0 <= j < k implies edge_target_ok(
                    *model,
                    graph.nodes@,
                    #[trigger] edges@[j],
                ) && (if graph.nodes@[edges@[j].source_node as int].definition is Missing {
                    !name_registered(*model, model.node@[record as int].input@[j]@)
                } else {
                    consumed_name(*model, graph.nodes@, edges@[j]) == model.node@[record as int].input@[j]@
                }) by {
                    lemma_extends_edge(*model, before, graph.nodes@, edges@[j]);
                }
            }
            edges.push(edge);
            k += 1;
        }
        let opdef = match OperatorDefinition::from(model, record, value_shapes) {
            Ok(d) => d,
            Err(err) => {
                proof {
                    if resolvable(*model, *value_shapes, record as int, fuel as nat) {
                        let n = err->OutputNodeNotFound_0;
                        let j = choose|j: int|
                            0 <= j < model.node@[record as int].output@.len()
                                && model.node@[record as int].output@[j]@ == n@;
                        assert(value_shapes.contains_spec(
                            model.node@[record as int].output@[j]@,
                        ));
                        assert(false);
                    }
                }
                return Err(err);
            },
        };
        proof {
            assert forall|i: int| 0 <= i < graph.nodes@.len() implies def_idx_wf(
                *model,
                (#[trigger] graph.nodes@[i]).definition,
            ) by {
                assert(node_wf(*model, *value_shapes, graph.nodes@, i));
            }
        }
        if let Some(i) = find_node_by_name(model, &graph.nodes, node_name.as_str()) {
            return Ok(i);
        }
        let ghost pre = graph.nodes@;
        let ghost gd = NodeDefinition::Operator(opdef);
        let ghost ge = edges@;
        graph.nodes.push(Node { definition: NodeDefinition::Operator(opdef), inputs: edges });
        proof {
            assert(extends(pre, graph.nodes@)) by {
                assert(graph.nodes@.take(pre.len() as int) =~= pre);
            }
            lemma_extends_graph_wf(*model, *value_shapes, pre, graph.nodes@);
            lemma_extends_index(pre, graph.nodes@);
            let last = pre.len() as int;
            assert(graph.nodes@[last].definition == gd);
            assert(graph.nodes@[last].inputs@ == ge);
            assert forall|j: int| 0 <= j < ge.len() implies edge_target_ok(
                *model,
                graph.nodes@,
                #[trigger] ge[j],
            ) && (if graph.nodes@[ge[j].source_node as int].definition is Missing {
                !name_registered(*model, model.node@[record as int].input@[j]@)
            } else {
                consumed_name(*model, graph.nodes@, ge[j]) == model.node@[record as int].input@[j]@
            }) by {
                lemma_extends_edge(*model, pre, graph.nodes@, ge[j]);
            }
            assert(node_wf(*model, *value_shapes, graph.nodes@, last));
            lemma_extends_trans(orig, pre, graph.nodes@);
        }
        Ok(graph.nodes.len() - 1)
    }
}


/// The first operator record that declares `name` among its outputs.
fn find_producing_record(model: &ModelProto, name: &str) -> (r: Option<usize>)
    ensures
        match r {
            Some(rec) => rec < model.node@.len() && record_produces(*model, rec as int, name@),
            None => !name_is_produced(*model, name@),
        },
{
    let n = model.node.len();
    let mut rec: usize = 0;
    while rec < n
        invariant
            n == model.node@.len(),
            rec <= n,
            forall|r2: int| 0 <= r2 < rec ==> !record_produces(*model, r2, name@),
        decreases n - rec,
    {
        match position_in(&model.node[rec].output, name) {
            Some(j) => {
                proof {
                    assert(record_produces(*model, rec as int, name@));
                }
                return Some(rec);
            },
            None => {
                proof {
                    assert(!record_produces(*model, rec as int, name@));
                }
            },
        }
        rec += 1;
    }
    proof {
        if name_is_produced(*model, name@) {
            let r2 = choose|r2: int|
                0 <= r2 < model.node@.len() && record_produces(*model, r2, name@);
            assert(!record_produces(*model, r2, name@));
        }
    }
    None
}

/// The output names a build resolves: the explicit request, or the
/// model's declared output names in order.
pub open spec fn requested_names(m: ModelProto, outputs: Option<&Vec<String>>) -> Seq<Seq<char>> {
    match outputs {
        Option::Some(o) => o@.map_values(|s: String| s@),
        Option::None => m.output@.map_values(|v: crate::model::ValueInfoProto| v.name@),
    }
}

/// The requested name at position `k` is declared by a record that builds
/// within one fuel unit per operator record — which holds of every request
/// against an acyclic description whose shapes are all in the table.
pub open spec fn request_resolvable(
    m: ModelProto,
    shapes: ShapeTable,
    req: Seq<Seq<char>>,
    k: int,
) -> bool {
    exists|rr: int|
        0 <= rr < m.node@.len() && record_produces(m, rr, req[k]) && resolvable(
            m,
            shapes,
            rr,
            m.node@.len() as nat,
        )
}

impl Node {
    /// Builds the dependency graph for the requested output names (the
    /// model's declared outputs when none are given): resolves each
    /// requested name to its producing operator's node and assembles the
    /// terminal node whose edges are those producers, in request order.
    ///
    /// Fails with `OutputNodeNotFound` when a requested output is declared
    /// by no operator record or a declared output's shape is missing from
    /// the table, and with `CycleDetected` only when the name-dependency
    /// chain cannot be built within one fuel unit per operator record.
    /// Success is owed whenever every requested name has a `resolvable`
    /// producer — true of every acyclic description whose shapes are all
    /// registered; the graph is then well-formed and deduplicated, and its
    /// last slot is the terminal node.
    pub fn from_model(
        model: &ModelProto,
        value_shapes: &ShapeTable,
        outputs: Option<&Vec<String>>,
    ) -> (r: Result<Graph, IrError>)
        requires
            model_wf(*model),
            value_shapes.wf(),
        ensures
            match r {
                Ok(g) => {
                    let nodes = g.nodes@;
                    let root = nodes[nodes.len() - 1];
                    &&& nodes.len() > 0
                    &&& graph_wf(*model, *value_shapes, nodes)
                    &&& names_unique(*model, nodes)
                    &&& forall|i: int|
                        0 <= i < nodes.len() - 1 ==> !((#[trigger] nodes[i]).definition
                            is Outputs)
                    &&& root.definition matches NodeDefinition::Outputs { names } && {
                        &&& match outputs {
                            Some(o) => names@ == o@,
                            None => names@ == model.output@.map_values(
                                |v: crate::model::ValueInfoProto| v.name,
                            ),
                        }
                        &&& forall|k: int|
                            0 <= k < names@.len() ==> name_is_produced(
                                *model,
                                (#[trigger] names@[k])@,
                            )
                    }
                    &&& forall|i: int|
                        0 <= i < nodes.len() && (#[trigger] nodes[i]).definition is Input
                            ==> !name_is_produced(*model, def_name(*model, nodes[i].definition))
                            && !is_initializer_name(*model, def_name(*model, nodes[i].definition))
                },
                Err(e) => {
                    &&& (e matches IrError::OutputNodeNotFound(n) ==> !name_is_produced(*model, n@)
                        || !value_shapes.contains_spec(n@))
                    &&& (e is OutputNodeNotFound || e is CycleDetected)
                },
            },
            (forall|k: int|
                0 <= k < requested_names(*model, outputs).len() ==> #[trigger] request_resolvable(
                    *model,
                    *value_shapes,
                    requested_names(*model, outputs),
                    k,
                )) ==> r is Ok,
            forall|k: int|
                0 <= k < requested_names(*model, outputs).len() && (forall|k2: int|
                    0 <= k2 < k ==> #[trigger] request_resolvable(
                        *model,
                        *value_shapes,
                        requested_names(*model, outputs),
                        k2,
                    )) && !name_is_produced(*model, requested_names(*model, outputs)[k]) ==> (
            r matches Err(IrError::OutputNodeNotFound(n)) && n@ == requested_names(
                *model,
                outputs,
            )[k]),
    {
        let defs = DefTable::for_model(model);
        let requested: Vec<String> = match outputs {
            Some(o) => copy_strings(o),
            None => model_output_names(model),
        };
        proof {
            match outputs {
                Option::Some(o) => {},
                Option::None => {
                    assert(model.output@.map_values(
                        |v: crate::model::ValueInfoProto| v.name,
                    ).map_values(|s: String| s@) =~= model.output@.map_values(
                        |v: crate::model::ValueInfoProto| v.name@,
                    ));
                },
            }
            assert(requested@.map_values(|s: String| s@) == requested_names(*model, outputs));
        }
        let mut graph = Graph { nodes: Vec::new() };
        let mut edges: Vec<Input> = Vec::new();
        let nreq = requested.len();
        let mut k: usize = 0;
        while k < nreq
            invariant
                model_wf(*model),
                value_shapes.wf(),
                defs.wf(*model),
                builder_wf(*model, *value_shapes, graph.nodes@),
                nreq == requested@.len(),
                k <= nreq,
                edges@.len() == k,
                forall|j: int|
                    0 <= j < k ==> edge_target_ok(*model, graph.nodes@, #[trigger] edges@[j]),
                forall|j: int|
                    0 <= j < k ==> graph.nodes@[(#[trigger] edges@[j]).source_node as int].definition
                        is Operator && consumed_name(*model, graph.nodes@, edges@[j])
                        == requested@[j]@,
                forall|j: int|
                    0 <= j < k ==> name_is_produced(*model, (#[trigger] requested@[j])@),
                requested@.map_values(|s: String| s@) == requested_names(*model, outputs),
            decreases nreq - k,
        {
            let out_name = &requested[k];
            let rec = match find_producing_record(model, out_name.as_str()) {
                Some(rec) => rec,
                None => {
                    proof {
                        let req = requested_names(*model, outputs);
                        assert(req[k as int] == out_name@);
                        if forall|k2: int|
                            0 <= k2 < req.len() ==> #[trigger] request_resolvable(
                                *model,
                                *value_shapes,
                                req,
                                k2,
                            ) {
                            assert(request_resolvable(*model, *value_shapes, req, k as int));
                            assert(false);
                        }
                        assert forall|k2: int|
                            0 <= k2 < req.len() && (forall|k3: int|
                                0 <= k3 < k2 ==> #[trigger] request_resolvable(
                                    *model,
                                    *value_shapes,
                                    req,
                                    k3,
                                )) && !name_is_produced(*model, req[k2]) implies k2
                            == k as int by {
                            if k2 < k {
                                assert(name_is_produced(*model, requested@[k2]@));
                            }
                            if k2 > k {
                                assert(request_resolvable(*model, *value_shapes, req, k as int));
                                assert(false);
                            }
                        }
                    }
                    return Err(IrError::OutputNodeNotFound(out_name.clone()));
                },
            };
            let ghost before = graph.nodes@;
            let i = match Node::from_node(
                model,
                value_shapes,
                &defs,
                &mut graph,
                rec,
                model.node.len(),
            ) {
                Ok(i) => i,
                Err(err) => {
                    proof {
                        let req = requested_names(*model, outputs);
                        assert(req[k as int] == out_name@);
                        if request_resolvable(*model, *value_shapes, req, k as int) {
                            let rr = choose|rr: int|
                                0 <= rr < model.node@.len() && record_produces(
                                    *model,
                                    rr,
                                    req[k as int],
                                ) && resolvable(
                                    *model,
                                    *value_shapes,
                                    rr,
                                    model.node@.len() as nat,
                                );
                            lemma_producer_unique(*model, rr, rec as int, req[k as int]);
                            assert(false);
                        }
                        assert forall|k2: int|
                            0 <= k2 < req.len() && (forall|k3: int|
                                0 <= k3 < k2 ==> #[trigger] request_resolvable(
                                    *model,
                                    *value_shapes,
                                    req,
                                    k3,
                                )) && !name_is_produced(*model, req[k2]) implies false by {
                            if k2 < k {
                                assert(name_is_produced(*model, requested@[k2]@));
                            } else if k2 == k {
                                assert(name_is_produced(*model, req[k2]));
                            } else {
                                assert(request_resolvable(*model, *value_shapes, req, k as int));
                            }
                        }
                    }
                    return Err(err);
                },
            };
            let oi = match position_in(&model.node[rec].output, out_name.as_str()) {
                Some(oi) => oi,
                None => {
                    proof {
                        let j = choose|j: int|
                            0 <= j < model.node@[rec as int].output@.len()
                                && model.node@[rec as int].output@[j]@ == out_name@;
                        assert(false);
                    }
                    return Err(IrError::OutputNodeNotFound(out_name.clone()));
                },
            };
            let edge = Input { source_node: i, output_index: oi };
            proof {
                lemma_named_node_is_operator(
                    *model,
                    *value_shapes,
                    graph.nodes@,
                    i as int,
                    rec as int,
                );
                assert(consumed_name(*model, graph.nodes@, edge) == out_name@);
                assert(edge_target_ok(*model, graph.nodes@, edge));
                assert forall|j: int| 0 <= j < k implies edge_target_ok(
                    *model,
                    graph.nodes@,
                    #[trigger] edges@[j],
                ) && graph.nodes@[edges@[j].source_node as int].definition is Operator
                    && consumed_name(*model, graph.nodes@, edges@[j]) == requested@[j]@ by {
                    lemma_extends_edge(*model, before, graph.nodes@, edges@[j]);
                }
                assert(record_produces(*model, rec as int, out_name@));
                assert(name_is_produced(*model, out_name@));
            }
            edges.push(edge);
            k += 1;
        }
        let ghost pre = graph.nodes@;
        let ghost ge = edges@;
        let ghost gnames = requested@;
        graph.nodes.push(
            Node { definition: NodeDefinition::Outputs { names: requested }, inputs: edges },
        );
        proof {
            assert(extends(pre, graph.nodes@)) by {
                assert(graph.nodes@.take(pre.len() as int) =~= pre);
            }
            lemma_extends_graph_wf(*model, *value_shapes, pre, graph.nodes@);
            lemma_extends_index(pre, graph.nodes@);
            let last = pre.len() as int;
            assert(graph.nodes@[last].inputs@ == ge);
            assert forall|j: int| 0 <= j < ge.len() implies edge_target_ok(
                *model,
                graph.nodes@,
                #[trigger] ge[j],
            ) && graph.nodes@[ge[j].source_node as int].definition is Operator && consumed_name(
                *model,
                graph.nodes@,
                ge[j],
            ) == gnames[j]@ by {
                lemma_extends_edge(*model, pre, graph.nodes@, ge[j]);
            }
            assert(node_wf(*model, *value_shapes, graph.nodes@, last));
            assert forall|i: int|
                0 <= i < graph.nodes@.len() && (#[trigger] graph.nodes@[i]).definition
                    is Input implies !name_is_produced(
                *model,
                def_name(*model, graph.nodes@[i].definition),
            ) && !is_initializer_name(*model, def_name(*model, graph.nodes@[i].definition)) by {
                assert(graph.nodes@[i] == pre[i]);
            }
            let req = requested_names(*model, outputs);
            assert(gnames.map_values(|s: String| s@) == req);
            assert forall|k2: int|
                0 <= k2 < req.len() && (forall|k3: int|
                    0 <= k3 < k2 ==> #[trigger] request_resolvable(
                        *model,
                        *value_shapes,
                        req,
                        k3,
                    )) && !name_is_produced(*model, req[k2]) implies false by {
                assert(name_is_produced(*model, gnames[k2]@));
            }
        }
        Ok(graph)
    }
}


/// Every edge of every node points to an earlier slot.
pub open spec fn node_edges_backward(nodes: Seq<Node>, i: int) -> bool {
    forall|k: int|
        0 <= k < nodes[i].inputs@.len() ==> (#[trigger] nodes[i].inputs@[k]).source_node < i
}

/// Every node of the arena has only backward edges.
pub open spec fn edges_backward_all(nodes: Seq<Node>) -> bool {
    forall|i: int| 0 <= i < nodes.len() ==> node_edges_backward(nodes, i)
}

/// A node's value is constant when it is not dynamic, or when it is an
/// operator whose every input is transitively constant.
pub open spec fn constant_spec(nodes: Seq<Node>, i: int) -> bool
    decreases i,
{
    if 0 <= i < nodes.len() && node_edges_backward(nodes, i) {
        let n = nodes[i];
        if !dynamic_spec(n.definition) {
            true
        } else if n.definition is Operator {
            forall|k: int|
                0 <= k < n.inputs@.len() ==> constant_spec(
                    nodes,
                    (#[trigger] n.inputs@[k]).source_node as int,
                )
        } else {
            false
        }
    } else {
        true
    }
}

/// The node is a declared input, or one of its transitive ancestors is.
pub open spec fn reaches_input(nodes: Seq<Node>, i: int) -> bool
    decreases i,
{
    if 0 <= i < nodes.len() && node_edges_backward(nodes, i) {
        nodes[i].definition is Input || exists|k: int|
            0 <= k < nodes[i].inputs@.len() && reaches_input(
                nodes,
                (#[trigger] nodes[i].inputs@[k]).source_node as int,
            )
    } else {
        false
    }
}

impl Graph {
    /// True exactly when the node's value does not depend on runtime
    /// input: either it is not dynamic, or it is an operator all of whose
    /// inputs are transitively constant.
    pub fn is_constant(&self, i: usize) -> (r: bool)
        requires
            edges_backward_all(self.nodes@),
            i < self.nodes@.len(),
        ensures
            r == constant_spec(self.nodes@, i as int),
        decreases i,
    {
        proof {
            assert(node_edges_backward(self.nodes@, i as int));
        }
        let n = &self.nodes[i];
        match n.definition {
            NodeDefinition::Operator(_) => {
                let m = n.inputs.len();
                let mut k: usize = 0;
                while k < m
                    invariant
                        edges_backward_all(self.nodes@),
                        i < self.nodes@.len(),
                        node_edges_backward(self.nodes@, i as int),
                        n == &self.nodes@[i as int],
                        n.definition is Operator,
                        m == n.inputs@.len(),
                        k <= m,
                        forall|j: int|
                            0 <= j < k ==> constant_spec(
                                self.nodes@,
                                (#[trigger] n.inputs@[j]).source_node as int,
                            ),
                    decreases m - k,
                {
                    let src = n.inputs[k].source_node;
                    proof {
                        assert(n.inputs@[k as int].source_node < i);
                    }
                    if !self.is_constant(src) {
                        return false;
                    }
                    k += 1;
                }
                true
            },
            NodeDefinition::Input(_) => false,
            _ => true,
        }
    }
}

/// Sharing: in a deduplicated graph a name denotes one slot, so any two
/// non-terminal nodes with the same name are the same node, and a shared
/// upstream operator reached from several consumers is one object.
pub proof fn lemma_shared_node(m: ModelProto, nodes: Seq<Node>, i: int, j: int)
    requires
        names_unique(m, nodes),
        0 <= i < nodes.len(),
        0 <= j < nodes.len(),
        !(nodes[i].definition is Outputs),
        !(nodes[j].definition is Outputs),
        def_name(m, nodes[i].definition) == def_name(m, nodes[j].definition),
    ensures
        i == j,
{
    if i < j {
        assert(def_name(m, nodes[i].definition) != def_name(m, nodes[j].definition));
    }
    if j < i {
        assert(def_name(m, nodes[j].definition) != def_name(m, nodes[i].definition));
    }
}

/// Constant propagation: a non-terminal node is constant exactly when no
/// declared network input is among it or its transitive ancestors. A node
/// built purely from constant tensors reports constant; a node with any
/// input-derived ancestor does not.
pub proof fn lemma_constant_iff_no_input_ancestor(
    m: ModelProto,
    shapes: ShapeTable,
    nodes: Seq<Node>,
    i: int,
)
    requires
        graph_wf(m, shapes, nodes),
        0 <= i < nodes.len(),
        !(nodes[i].definition is Outputs),
    ensures
        constant_spec(nodes, i) <==> !reaches_input(nodes, i),
    decreases i,
{
    assert(node_wf(m, shapes, nodes, i));
    let n = nodes[i];
    assert(node_edges_backward(nodes, i)) by {
        assert forall|k: int|
            0 <= k < nodes[i].inputs@.len() implies (#[trigger] nodes[i].inputs@[k]).source_node
            < i by {
            assert(edge_target_ok(m, nodes, n.inputs@[k]) && n.inputs@[k].source_node < i);
        }
    }
    match n.definition {
        NodeDefinition::Operator(op) => {
            assert forall|k: int| 0 <= k < n.inputs@.len() implies (constant_spec(
                nodes,
                (#[trigger] n.inputs@[k]).source_node as int,
            ) <==> !reaches_input(nodes, n.inputs@[k].source_node as int)) by {
                assert(edge_target_ok(m, nodes, n.inputs@[k]) && n.inputs@[k].source_node < i);
                assert(!(nodes[n.inputs@[k].source_node as int].definition is Outputs));
                lemma_constant_iff_no_input_ancestor(
                    m,
                    shapes,
                    nodes,
                    n.inputs@[k].source_node as int,
                );
            }
            if reaches_input(nodes, i) {
                let k = choose|k: int|
                    0 <= k < nodes[i].inputs@.len() && reaches_input(
                        nodes,
                        (#[trigger] nodes[i].inputs@[k]).source_node as int,
                    );
                assert(!constant_spec(nodes, n.inputs@[k].source_node as int));
                assert(!constant_spec(nodes, i));
            } else {
                assert forall|k: int| 0 <= k < n.inputs@.len() implies constant_spec(
                    nodes,
                    (#[trigger] n.inputs@[k]).source_node as int,
                ) by {
                    assert(!reaches_input(nodes, n.inputs@[k].source_node as int));
                }
                assert(constant_spec(nodes, i));
            }
        },
        NodeDefinition::Input(_) => {
            assert(!constant_spec(nodes, i));
            assert(reaches_input(nodes, i));
        },
        _ => {
            assert(n.inputs@.len() == 0);
            assert(constant_spec(nodes, i));
            assert(!(nodes[i].definition is Input));
            assert(!reaches_input(nodes, i));
        },
    }
}

} // verus!
