//! The data-flow graph builder: walks a control-flow graph's basic blocks in
//! order, decodes each instruction's register operands, and records how every
//! instruction moves or derives a value from one register to another, as
//! edges of a directed multigraph whose nodes are the registers.

use vstd::prelude::*;

use petgraph::visit::EdgeRef;
use petgraph::visit::IntoEdgeReferences;

use crate::number::Number;
use crate::number::digits_of;
use crate::value::Value;
use crate::ystring::YString;
use crate::ystring::str_bytes;

verus! {

/// The concrete graph the builder fills: a directed multigraph with stable
/// node indices, register nodes and data-flow edges, indexed by `u16`.
pub type RegGraph = petgraph::stable_graph::StableGraph<
    Node,
    DataFlowInfo,
    petgraph::Directed,
    u16,
>;

/// An index into the number register bank.
#[derive(Clone, Copy, Debug, PartialEq, Eq, Hash, Structural)]
pub struct NumberReg(pub u16);

/// An index into the string register bank.
#[derive(Clone, Copy, Debug, PartialEq, Eq, Hash, Structural)]
pub struct StringReg(pub u16);

/// An index into the value register bank.
#[derive(Clone, Copy, Debug, PartialEq, Eq, Hash, Structural)]
pub struct ValueReg(pub u16);

/// A reference to one register of one of the three banks. Registers of
/// different banks are never aliased.
#[derive(Clone, Copy, Debug, PartialEq, Eq, Hash, Structural)]
pub enum AnyReg {
    Number(NumberReg),
    String(StringReg),
    Value(ValueReg),
}

/// A location in the instruction store.
pub type CodeLoc = usize;

/// A high-level instruction, decoded by the builder into at most two input
/// registers and at most one output register.
#[derive(Clone, Copy, Debug, PartialEq, Eq, Structural)]
pub enum HLInstr {
    /// A relative jump; only its condition register, when present, reaches
    /// the data-flow graph.
    JumpRel { amount: usize, condition: Option<NumberReg> },
    /// A jump to the error handler; no data flow.
    JumpErr,
    /// A jump to a line; no data flow.
    JumpLine(usize),
    /// A line marker; no data flow.
    LineStart(usize),
    MoveSV { arg: StringReg, out: ValueReg },
    MoveNV { arg: NumberReg, out: ValueReg },
    MoveVV { arg: ValueReg, out: ValueReg },
    MoveVN { arg: ValueReg, out: NumberReg },
    MoveVS { arg: ValueReg, out: StringReg },
    IncV { arg: ValueReg, out: ValueReg },
    DecV { arg: ValueReg, out: ValueReg },
    IncN { arg: NumberReg, out: NumberReg },
    DecN { arg: NumberReg, out: NumberReg },
    IncS { arg: StringReg, out: StringReg },
    DecS { arg: StringReg, out: StringReg },
    AddS { arg1: StringReg, arg2: StringReg, out: StringReg },
    SubS { arg1: StringReg, arg2: StringReg, out: StringReg },
    AddV { arg1: ValueReg, arg2: ValueReg, out: ValueReg },
    SubV { arg1: ValueReg, arg2: ValueReg, out: ValueReg },
    AddN { arg1: NumberReg, arg2: NumberReg, out: NumberReg },
    SubN { arg1: NumberReg, arg2: NumberReg, out: NumberReg },
    Mul { arg1: NumberReg, arg2: NumberReg, out: NumberReg },
    Div { arg1: NumberReg, arg2: NumberReg, out: NumberReg },
    Mod { arg1: NumberReg, arg2: NumberReg, out: NumberReg },
    Pow { arg1: NumberReg, arg2: NumberReg, out: NumberReg },
    And { arg1: NumberReg, arg2: NumberReg, out: NumberReg },
    Or { arg1: NumberReg, arg2: NumberReg, out: NumberReg },
    Eq { arg1: ValueReg, arg2: ValueReg, out: NumberReg },
    Le { arg1: ValueReg, arg2: ValueReg, out: NumberReg },
    Lt { arg1: ValueReg, arg2: ValueReg, out: NumberReg },
    Abs { arg: NumberReg, out: NumberReg },
    Fact { arg: NumberReg, out: NumberReg },
    Sqrt { arg: NumberReg, out: NumberReg },
    Sin { arg: NumberReg, out: NumberReg },
    Cos { arg: NumberReg, out: NumberReg },
    Tan { arg: NumberReg, out: NumberReg },
    Asin { arg: NumberReg, out: NumberReg },
    Acos { arg: NumberReg, out: NumberReg },
    Atan { arg: NumberReg, out: NumberReg },
    Neg { arg: NumberReg, out: NumberReg },
    Not { arg: NumberReg, out: NumberReg },
    BoolN { arg: NumberReg, out: NumberReg },
    BoolV { arg: ValueReg, out: NumberReg },
    StringifyN { arg: NumberReg, out: StringReg },
    StringifyV { arg: ValueReg, out: StringReg },
}

/// How an edge's source register was used by the instruction.
#[derive(Clone, Copy, Debug, PartialEq, Eq, Structural)]
pub enum SourceModify {
    Read,
    ReadWrite,
}

/// How an edge's target register was used by the instruction.
#[derive(Clone, Copy, Debug, PartialEq, Eq, Structural)]
pub enum TargetModify {
    Read,
    Write,
    ReadWrite,
}

/// One node of the data-flow graph: a register.
#[derive(Clone, Copy, Debug, PartialEq, Eq, Hash, Structural)]
pub struct Node {
    pub reg: AnyReg,
}

/// One edge's payload: the owning basic block, the exact instruction
/// location, and how the source and target registers were used there.
#[derive(Clone, Copy, Debug, PartialEq, Eq, Structural)]
pub struct DataFlowInfo {
    pub cfg_node: usize,
    pub instr: CodeLoc,
    pub source: SourceModify,
    pub target: TargetModify,
}

/// One edge as the graph records it: source and target node indices and the
/// payload.
#[derive(Clone, Copy, Debug, PartialEq, Eq, Structural)]
pub struct EdgeRecord {
    pub src: u16,
    pub dst: u16,
    pub info: DataFlowInfo,
}

#[verifier::external_type_specification]
#[verifier::external_body]
#[verifier::reject_recursive_types(N)]
#[verifier::reject_recursive_types(E)]
#[verifier::reject_recursive_types(Ty)]
#[verifier::reject_recursive_types(Ix)]
pub struct ExStableGraph<N, E, Ty, Ix>(petgraph::stable_graph::StableGraph<N, E, Ty, Ix>);

#[verifier::external_type_specification]
#[verifier::external_body]
pub struct ExDirected(petgraph::Directed);

/// The graph's node weights, in node-index order. The builder only ever adds
/// nodes, so indices are dense and this order is creation order.
pub uninterp spec fn graph_nodes(g: RegGraph) -> Seq<Node>;

/// The graph's edges, in edge-index order: insertion order, since the
/// builder only ever adds edges.
pub uninterp spec fn graph_edges(g: RegGraph) -> Seq<EdgeRecord>;

/// Whether the graph has never had a node or an edge removed, so its free
/// lists are empty and indices are dense. Only a fresh graph keeps the index
/// claims the mutation wrappers below make; freshly created graphs are
/// fresh, adding preserves freshness, and this crate removes nothing.
pub uninterp spec fn graph_fresh(g: RegGraph) -> bool;

/// Relies on petgraph's StableGraph::with_capacity: a freshly created graph
/// has no nodes, no edges and empty free lists.
#[verifier::external_body]
fn graph_with_capacity(nodes: usize, edges: usize) -> (g: RegGraph)
    ensures
        graph_nodes(g) == Seq::<Node>::empty(),
        graph_edges(g) == Seq::<EdgeRecord>::empty(),
        graph_fresh(g),
{
    petgraph::stable_graph::StableGraph::with_capacity(nodes, edges)
}

/// Relies on petgraph's StableGraph::add_node: in a fresh graph (one from
/// which no node was ever removed) the free list is empty, so the new node
/// takes the next dense index -- the node count -- and every existing node
/// and edge is untouched; the graph stays fresh. It panics at the index
/// type's limit, which the bound on the existing count rules out.
#[verifier::external_body]
fn graph_add_node(g: &mut RegGraph, w: Node) -> (ix: u16)
    requires
        graph_fresh(*old(g)),
        graph_nodes(*old(g)).len() < 65535,
    ensures
        graph_fresh(*final(g)),
        graph_nodes(*final(g)) == graph_nodes(*old(g)).push(w),
        graph_edges(*final(g)) == graph_edges(*old(g)),
        ix as int == graph_nodes(*old(g)).len(),
{
    g.add_node(w).index() as u16
}

/// Relies on petgraph's StableGraph::add_edge: in a fresh graph every index
/// below the node count is occupied, so the new edge runs from `a` to `b`
/// with the given payload and takes the next edge index, after every edge
/// already present; nodes are untouched and the graph stays fresh. Parallel
/// edges and self-loops are allowed. It panics on a missing endpoint or at
/// the index type's limit, which freshness and the bounds rule out.
#[verifier::external_body]
fn graph_add_edge(g: &mut RegGraph, a: u16, b: u16, w: DataFlowInfo)
    requires
        graph_fresh(*old(g)),
        (a as int) < graph_nodes(*old(g)).len(),
        (b as int) < graph_nodes(*old(g)).len(),
        graph_edges(*old(g)).len() < 65534,
    ensures
        graph_fresh(*final(g)),
        graph_nodes(*final(g)) == graph_nodes(*old(g)),
        graph_edges(*final(g)) == graph_edges(*old(g)).push(
            EdgeRecord { src: a, dst: b, info: w },
        ),
{
    let _ = g.add_edge(
        petgraph::stable_graph::NodeIndex::new(a as usize),
        petgraph::stable_graph::NodeIndex::new(b as usize),
        w,
    );
}

/// Relies on petgraph's StableGraph::node_count.
#[verifier::external_body]
fn graph_node_count(g: &RegGraph) -> (n: usize)
    ensures
        n == graph_nodes(*g).len(),
{
    g.node_count()
}

/// Relies on petgraph's StableGraph::edge_count.
#[verifier::external_body]
fn graph_edge_count(g: &RegGraph) -> (n: usize)
    ensures
        n == graph_edges(*g).len(),
{
    g.edge_count()
}

/// Relies on petgraph's StableGraph::node_weights, which yields weights in
/// node-index order.
#[verifier::external_body]
fn graph_node_list(g: &RegGraph) -> (r: Vec<Node>)
    ensures
        r@ == graph_nodes(*g),
{
    g.node_weights().copied().collect()
}

/// Relies on petgraph's edge_references (visit::IntoEdgeReferences), which
/// yields edges in edge-index order: insertion order, no edge having been
/// removed.
#[verifier::external_body]
fn graph_edge_list(g: &RegGraph) -> (r: Vec<EdgeRecord>)
    ensures
        r@ == graph_edges(*g),
{
    g.edge_references().map(
        |e| EdgeRecord { src: e.source().index() as u16, dst: e.target().index() as u16, info: *e.weight() },
    ).collect()
}

/// The operand registers an instruction contributes to the data-flow graph:
/// a mandatory first input, an optional second input, and an optional
/// output. `None` for instructions that contribute no data flow at all.
pub open spec fn decode_spec(ins: HLInstr) -> Option<(AnyReg, Option<AnyReg>, Option<AnyReg>)> {
    match ins {
        HLInstr::JumpRel { condition, .. } => match condition {
            Some(c) => Some((AnyReg::Number(c), None, None)),
            None => None,
        },
        HLInstr::JumpErr => None,
        HLInstr::JumpLine(_) => None,
        HLInstr::LineStart(_) => None,
        HLInstr::MoveSV { arg, out } => Some(
            (AnyReg::String(arg), None, Some(AnyReg::Value(out))),
        ),
        HLInstr::MoveNV { arg, out } => Some(
            (AnyReg::Number(arg), None, Some(AnyReg::Value(out))),
        ),
        HLInstr::MoveVV { arg, out } => Some(
            (AnyReg::Value(arg), None, Some(AnyReg::Value(out))),
        ),
        HLInstr::MoveVN { arg, out } => Some(
            (AnyReg::Value(arg), None, Some(AnyReg::Number(out))),
        ),
        HLInstr::MoveVS { arg, out } => Some(
            (AnyReg::Value(arg), None, Some(AnyReg::String(out))),
        ),
        HLInstr::IncV { arg, out } => Some((AnyReg::Value(arg), None, Some(AnyReg::Value(out)))),
        HLInstr::DecV { arg, out } => Some((AnyReg::Value(arg), None, Some(AnyReg::Value(out)))),
        HLInstr::IncN { arg, out } => Some(
            (AnyReg::Number(arg), None, Some(AnyReg::Number(out))),
        ),
        HLInstr::DecN { arg, out } => Some(
            (AnyReg::Number(arg), None, Some(AnyReg::Number(out))),
        ),
        HLInstr::IncS { arg, out } => Some(
            (AnyReg::String(arg), None, Some(AnyReg::String(out))),
        ),
        HLInstr::DecS { arg, out } => Some(
            (AnyReg::String(arg), None, Some(AnyReg::String(out))),
        ),
        HLInstr::AddS { arg1, arg2, out } => Some(
            (AnyReg::String(arg1), Some(AnyReg::String(arg2)), Some(AnyReg::String(out))),
        ),
        HLInstr::SubS { arg1, arg2, out } => Some(
            (AnyReg::String(arg1), Some(AnyReg::String(arg2)), Some(AnyReg::String(out))),
        ),
        HLInstr::AddV { arg1, arg2, out } => Some(
            (AnyReg::Value(arg1), Some(AnyReg::Value(arg2)), Some(AnyReg::Value(out))),
        ),
        HLInstr::SubV { arg1, arg2, out } => Some(
            (AnyReg::Value(arg1), Some(AnyReg::Value(arg2)), Some(AnyReg::Value(out))),
        ),
        HLInstr::AddN { arg1, arg2, out } => Some(
            (AnyReg::Number(arg1), Some(AnyReg::Number(arg2)), Some(AnyReg::Number(out))),
        ),
        HLInstr::SubN { arg1, arg2, out } => Some(
            (AnyReg::Number(arg1), Some(AnyReg::Number(arg2)), Some(AnyReg::Number(out))),
        ),
        HLInstr::Mul { arg1, arg2, out } => Some(
            (AnyReg::Number(arg1), Some(AnyReg::Number(arg2)), Some(AnyReg::Number(out))),
        ),
        HLInstr::Div { arg1, arg2, out } => Some(
            (AnyReg::Number(arg1), Some(AnyReg::Number(arg2)), Some(AnyReg::Number(out))),
        ),
        HLInstr::Mod { arg1, arg2, out } => Some(
            (AnyReg::Number(arg1), Some(AnyReg::Number(arg2)), Some(AnyReg::Number(out))),
        ),
        HLInstr::Pow { arg1, arg2, out } => Some(
            (AnyReg::Number(arg1), Some(AnyReg::Number(arg2)), Some(AnyReg::Number(out))),
        ),
        HLInstr::And { arg1, arg2, out } => Some(
            (AnyReg::Number(arg1), Some(AnyReg::Number(arg2)), Some(AnyReg::Number(out))),
        ),
        HLInstr::Or { arg1, arg2, out } => Some(
            (AnyReg::Number(arg1), Some(AnyReg::Number(arg2)), Some(AnyReg::Number(out))),
        ),
        HLInstr::Eq { arg1, arg2, out } => Some(
            (AnyReg::Value(arg1), Some(AnyReg::Value(arg2)), Some(AnyReg::Number(out))),
        ),
        HLInstr::Le { arg1, arg2, out } => Some(
            (AnyReg::Value(arg1), Some(AnyReg::Value(arg2)), Some(AnyReg::Number(out))),
        ),
        HLInstr::Lt { arg1, arg2, out } => Some(
            (AnyReg::Value(arg1), Some(AnyReg::Value(arg2)), Some(AnyReg::Number(out))),
        ),
        HLInstr::Abs { arg, out } => Some(
            (AnyReg::Number(arg), None, Some(AnyReg::Number(out))),
        ),
        HLInstr::Fact { arg, out } => Some(
            (AnyReg::Number(arg), None, Some(AnyReg::Number(out))),
        ),
        HLInstr::Sqrt { arg, out } => Some(
            (AnyReg::Number(arg), None, Some(AnyReg::Number(out))),
        ),
        HLInstr::Sin { arg, out } => Some(
            (AnyReg::Number(arg), None, Some(AnyReg::Number(out))),
        ),
        HLInstr::Cos { arg, out } => Some(
            (AnyReg::Number(arg), None, Some(AnyReg::Number(out))),
        ),
        HLInstr::Tan { arg, out } => Some(
            (AnyReg::Number(arg), None, Some(AnyReg::Number(out))),
        ),
        HLInstr::Asin { arg, out } => Some(
            (AnyReg::Number(arg), None, Some(AnyReg::Number(out))),
        ),
        HLInstr::Acos { arg, out } => Some(
            (AnyReg::Number(arg), None, Some(AnyReg::Number(out))),
        ),
        HLInstr::Atan { arg, out } => Some(
            (AnyReg::Number(arg), None, Some(AnyReg::Number(out))),
        ),
        HLInstr::Neg { arg, out } => Some(
            (AnyReg::Number(arg), None, Some(AnyReg::Number(out))),
        ),
        HLInstr::Not { arg, out } => Some(
            (AnyReg::Number(arg), None, Some(AnyReg::Number(out))),
        ),
        HLInstr::BoolN { arg, out } => Some(
            (AnyReg::Number(arg), None, Some(AnyReg::Number(out))),
        ),
        HLInstr::BoolV { arg, out } => Some(
            (AnyReg::Value(arg), None, Some(AnyReg::Number(out))),
        ),
        HLInstr::StringifyN { arg, out } => Some(
            (AnyReg::Number(arg), None, Some(AnyReg::String(out))),
        ),
        HLInstr::StringifyV { arg, out } => Some(
            (AnyReg::Value(arg), None, Some(AnyReg::String(out))),
        ),
    }
}

/// The edges one instruction contributes, as source, target and use pair,
/// classified by which operands are present and which registers coincide:
/// - a pure read is a `(Read, Read)` self-loop;
/// - an operand that is also the output folds into a `(ReadWrite,
///   ReadWrite)` self-loop;
/// - any other input flows to the output as `(Read, Write)`.
pub open spec fn classify_spec(a1: AnyReg, a2o: Option<AnyReg>, outo: Option<AnyReg>) -> Seq<
    (AnyReg, AnyReg, SourceModify, TargetModify),
> {
    match (a2o, outo) {
        (None, None) => seq![(a1, a1, SourceModify::Read, TargetModify::Read)],
        (None, Some(out)) => {
            if a1 == out {
                seq![(a1, a1, SourceModify::ReadWrite, TargetModify::ReadWrite)]
            } else {
                seq![(a1, out, SourceModify::Read, TargetModify::Write)]
            }
        },
        (Some(a2), Some(out)) => {
            if a1 == a2 {
                if a1 == out {
                    seq![(a1, a1, SourceModify::ReadWrite, TargetModify::ReadWrite)]
                } else {
                    seq![(a1, out, SourceModify::Read, TargetModify::Write)]
                }
            } else if a1 == out {
                seq![
                    (a1, a1, SourceModify::ReadWrite, TargetModify::ReadWrite),
                    (a2, a1, SourceModify::Read, TargetModify::Write),
                ]
            } else if a2 == out {
                seq![
                    (a2, a2, SourceModify::ReadWrite, TargetModify::ReadWrite),
                    (a1, a2, SourceModify::Read, TargetModify::Write),
                ]
            } else {
                seq![
                    (a1, out, SourceModify::Read, TargetModify::Write),
                    (a2, out, SourceModify::Read, TargetModify::Write),
                ]
            }
        },
        (Some(_), None) => Seq::empty(),
    }
}

/// Decode an instruction's operand registers; `None` for the control-flow
/// instructions that contribute no data flow.
pub fn decode_operands(ins: &HLInstr) -> (r: Option<(AnyReg, Option<AnyReg>, Option<AnyReg>)>)
    ensures
        r == decode_spec(*ins),
{
    match *ins {
        HLInstr::JumpRel { condition: Some(c), .. } => Some((AnyReg::Number(c), None, None)),
        HLInstr::JumpRel { condition: None, .. } => None,
        HLInstr::JumpErr => None,
        HLInstr::JumpLine(_) => None,
        HLInstr::LineStart(_) => None,
        HLInstr::MoveSV { arg, out } => Some(
            (AnyReg::String(arg), None, Some(AnyReg::Value(out))),
        ),
        HLInstr::MoveNV { arg, out } => Some(
            (AnyReg::Number(arg), None, Some(AnyReg::Value(out))),
        ),
        HLInstr::MoveVV { arg, out } => Some(
            (AnyReg::Value(arg), None, Some(AnyReg::Value(out))),
        ),
        HLInstr::MoveVN { arg, out } => Some(
            (AnyReg::Value(arg), None, Some(AnyReg::Number(out))),
        ),
        HLInstr::MoveVS { arg, out } => Some(
            (AnyReg::Value(arg), None, Some(AnyReg::String(out))),
        ),
        HLInstr::IncV { arg, out } => Some((AnyReg::Value(arg), None, Some(AnyReg::Value(out)))),
        HLInstr::DecV { arg, out } => Some((AnyReg::Value(arg), None, Some(AnyReg::Value(out)))),
        HLInstr::IncN { arg, out } => Some(
            (AnyReg::Number(arg), None, Some(AnyReg::Number(out))),
        ),
        HLInstr::DecN { arg, out } => Some(
            (AnyReg::Number(arg), None, Some(AnyReg::Number(out))),
        ),
        HLInstr::IncS { arg, out } => Some(
            (AnyReg::String(arg), None, Some(AnyReg::String(out))),
        ),
        HLInstr::DecS { arg, out } => Some(
            (AnyReg::String(arg), None, Some(AnyReg::String(out))),
        ),
        HLInstr::AddS { arg1, arg2, out } | HLInstr::SubS { arg1, arg2, out } => Some(
            (AnyReg::String(arg1), Some(AnyReg::String(arg2)), Some(AnyReg::String(out))),
        ),
        HLInstr::AddV { arg1, arg2, out } | HLInstr::SubV { arg1, arg2, out } => Some(
            (AnyReg::Value(arg1), Some(AnyReg::Value(arg2)), Some(AnyReg::Value(out))),
        ),
        HLInstr::AddN { arg1, arg2, out } | HLInstr::SubN { arg1, arg2, out } | HLInstr::Mul {
            arg1,
            arg2,
            out,
        } | HLInstr::Div { arg1, arg2, out } | HLInstr::Mod { arg1, arg2, out } | HLInstr::Pow {
            arg1,
            arg2,
            out,
        } | HLInstr::And { arg1, arg2, out } | HLInstr::Or { arg1, arg2, out } => Some(
            (AnyReg::Number(arg1), Some(AnyReg::Number(arg2)), Some(AnyReg::Number(out))),
        ),
        HLInstr::Eq { arg1, arg2, out } | HLInstr::Le { arg1, arg2, out } | HLInstr::Lt {
            arg1,
            arg2,
            out,
        } => Some((AnyReg::Value(arg1), Some(AnyReg::Value(arg2)), Some(AnyReg::Number(out)))),
        HLInstr::Abs { arg, out } | HLInstr::Fact { arg, out } | HLInstr::Sqrt { arg, out }
        | HLInstr::Sin { arg, out } | HLInstr::Cos { arg, out } | HLInstr::Tan { arg, out }
        | HLInstr::Asin { arg, out } | HLInstr::Acos { arg, out } | HLInstr::Atan { arg, out }
        | HLInstr::Neg { arg, out } | HLInstr::Not { arg, out } | HLInstr::BoolN {
            arg,
            out,
        } => Some((AnyReg::Number(arg), None, Some(AnyReg::Number(out)))),
        HLInstr::BoolV { arg, out } => Some(
            (AnyReg::Value(arg), None, Some(AnyReg::Number(out))),
        ),
        HLInstr::StringifyN { arg, out } => Some(
            (AnyReg::Number(arg), None, Some(AnyReg::String(out))),
        ),
        HLInstr::StringifyV { arg, out } => Some(
            (AnyReg::Value(arg), None, Some(AnyReg::String(out))),
        ),
    }
}

/// Classify one decoded instruction's operands into its edges.
pub fn classify_edges(a1: AnyReg, a2o: Option<AnyReg>, outo: Option<AnyReg>) -> (r: Vec<
    (AnyReg, AnyReg, SourceModify, TargetModify),
>)
    requires
        a2o is Some ==> outo is Some,
    ensures
        r@ == classify_spec(a1, a2o, outo),
{
    let mut r: Vec<(AnyReg, AnyReg, SourceModify, TargetModify)> = Vec::new();
    match (a2o, outo) {
        (None, None) => {
            r.push((a1, a1, SourceModify::Read, TargetModify::Read));
            proof {
                assert(r@ =~= classify_spec(a1, a2o, outo));
            }
        },
        (None, Some(out)) => {
            if a1 == out {
                r.push((a1, a1, SourceModify::ReadWrite, TargetModify::ReadWrite));
            } else {
                r.push((a1, out, SourceModify::Read, TargetModify::Write));
            }
            proof {
                assert(r@ =~= classify_spec(a1, a2o, outo));
            }
        },
        (Some(a2), Some(out)) => {
            if a1 == a2 {
                if a1 == out {
                    r.push((a1, a1, SourceModify::ReadWrite, TargetModify::ReadWrite));
                } else {
                    r.push((a1, out, SourceModify::Read, TargetModify::Write));
                }
            } else if a1 == out {
                r.push((a1, a1, SourceModify::ReadWrite, TargetModify::ReadWrite));
                r.push((a2, a1, SourceModify::Read, TargetModify::Write));
            } else if a2 == out {
                r.push((a2, a2, SourceModify::ReadWrite, TargetModify::ReadWrite));
                r.push((a1, a2, SourceModify::Read, TargetModify::Write));
            } else {
                r.push((a1, out, SourceModify::Read, TargetModify::Write));
                r.push((a2, out, SourceModify::Read, TargetModify::Write));
            }
            proof {
                assert(r@ =~= classify_spec(a1, a2o, outo));
            }
        },
        (Some(_), None) => {
            proof {
                assert(r@ =~= classify_spec(a1, a2o, outo));
            }
        },
    }
    r
}

/// One basic block: an ordered sequence of instruction locations.
pub struct BasicBlock {
    pub locs: Vec<CodeLoc>,
}

/// A control-flow graph, reduced to what the builder reads: its basic
/// blocks, in order.
pub struct ControlFlowGraph {
    pub blocks: Vec<BasicBlock>,
}

/// The execution-state snapshot the builder reads: the three register banks,
/// the instruction store, and the mapping of global names to value
/// registers.
pub struct VMExec {
    pub numbers: Vec<Number>,
    pub strings: Vec<YString>,
    pub values: Vec<Value>,
    pub code: Vec<HLInstr>,
    pub globals: Vec<(String, ValueReg)>,
}

/// The graph node index a register maps to: the banks are laid out number
/// registers first, then string registers, then value registers.
pub open spec fn reg_index(r: AnyReg, nc: int, sc: int) -> int {
    match r {
        AnyReg::Number(i) => i.0 as int,
        AnyReg::String(i) => nc + i.0,
        AnyReg::Value(i) => nc + sc + i.0,
    }
}

/// The nodes the builder creates: one per register, bank by bank.
pub open spec fn node_seq(nc: int, sc: int, vc: int) -> Seq<Node> {
    Seq::new(
        (nc + sc + vc) as nat,
        |i: int|
            Node {
                reg: if i < nc {
                    AnyReg::Number(NumberReg(i as u16))
                } else if i < nc + sc {
                    AnyReg::String(StringReg((i - nc) as u16))
                } else {
                    AnyReg::Value(ValueReg((i - nc - sc) as u16))
                },
            },
    )
}

/// Whether a register's index lies within its bank.
pub open spec fn reg_wf(r: AnyReg, nc: int, sc: int, vc: int) -> bool {
    match r {
        AnyReg::Number(i) => (i.0 as int) < nc,
        AnyReg::String(i) => (i.0 as int) < sc,
        AnyReg::Value(i) => (i.0 as int) < vc,
    }
}

/// Whether every operand register an instruction contributes lies within its
/// bank.
pub open spec fn instr_wf(ins: HLInstr, nc: int, sc: int, vc: int) -> bool {
    match decode_spec(ins) {
        None => true,
        Some((a1, a2o, outo)) => {
            &&& reg_wf(a1, nc, sc, vc)
            &&& (a2o matches Some(a2) ==> reg_wf(a2, nc, sc, vc))
            &&& (outo matches Some(o) ==> reg_wf(o, nc, sc, vc))
        },
    }
}

/// Whether every instruction of the store is well formed for the bank sizes.
pub open spec fn code_wf(code: Seq<HLInstr>, nc: int, sc: int, vc: int) -> bool {
    forall|i: int| 0 <= i < code.len() ==> instr_wf(#[trigger] code[i], nc, sc, vc)
}

/// Whether every location of every block points into the instruction store.
pub open spec fn cfg_wf(blocks: Seq<BasicBlock>, code_len: int) -> bool {
    forall|b: int, j: int|
        0 <= b < blocks.len() && 0 <= j < blocks[b].locs@.len() ==> (#[trigger] blocks[b].locs@[j])
            < code_len
}

/// The total number of instruction locations over all blocks.
pub open spec fn total_locs(blocks: Seq<BasicBlock>) -> int
    decreases blocks.len(),
{
    if blocks.len() == 0 {
        0
    } else {
        total_locs(blocks.drop_last()) + blocks.last().locs@.len()
    }
}

/// One classified edge as the graph will record it.
pub open spec fn edge_rec(
    t: (AnyReg, AnyReg, SourceModify, TargetModify),
    block: int,
    loc: int,
    nc: int,
    sc: int,
) -> EdgeRecord {
    EdgeRecord {
        src: reg_index(t.0, nc, sc) as u16,
        dst: reg_index(t.1, nc, sc) as u16,
        info: DataFlowInfo {
            cfg_node: block as usize,
            instr: loc as usize,
            source: t.2,
            target: t.3,
        },
    }
}

/// The edges one instruction contributes.
pub open spec fn edges_of_instr(ins: HLInstr, block: int, loc: int, nc: int, sc: int) -> Seq<
    EdgeRecord,
> {
    match decode_spec(ins) {
        None => Seq::empty(),
        Some((a1, a2o, outo)) => classify_spec(a1, a2o, outo).map_values(
            |t: (AnyReg, AnyReg, SourceModify, TargetModify)| edge_rec(t, block, loc, nc, sc),
        ),
    }
}

/// The edges one block's locations contribute, in program order.
pub open spec fn edges_of_locs(
    code: Seq<HLInstr>,
    locs: Seq<CodeLoc>,
    block: int,
    nc: int,
    sc: int,
) -> Seq<EdgeRecord>
    decreases locs.len(),
{
    if locs.len() == 0 {
        Seq::empty()
    } else {
        edges_of_locs(code, locs.drop_last(), block, nc, sc) + edges_of_instr(
            code[locs.last() as int],
            block,
            locs.last() as int,
            nc,
            sc,
        )
    }
}

/// The edges of the whole graph: every block's, in block order.
pub open spec fn edges_of_blocks(
    code: Seq<HLInstr>,
    blocks: Seq<BasicBlock>,
    nc: int,
    sc: int,
) -> Seq<EdgeRecord>
    decreases blocks.len(),
{
    if blocks.len() == 0 {
        Seq::empty()
    } else {
        edges_of_blocks(code, blocks.drop_last(), nc, sc) + edges_of_locs(
            code,
            blocks.last().locs@,
            blocks.len() - 1,
            nc,
            sc,
        )
    }
}

/// The node index of each global's value register, in mapping order.
pub open spec fn globals_index_seq(globals: Seq<(String, ValueReg)>, nc: int, sc: int) -> Seq<
    u16,
> {
    globals.map_values(|p: (String, ValueReg)| ((nc + sc + p.1.0) as u16))
}

/// An instruction contributes at most two edges.
proof fn lemma_classify_len(a1: AnyReg, a2o: Option<AnyReg>, outo: Option<AnyReg>)
    ensures
        classify_spec(a1, a2o, outo).len() <= 2,
{
}

/// A decoded instruction never has a second input without an output.
proof fn lemma_decode_shape(ins: HLInstr)
    ensures
        match decode_spec(ins) {
            Some((a1, a2o, outo)) => a2o is Some ==> outo is Some,
            None => true,
        },
{
}

/// Every edge endpoint an instruction contributes is one of its operands.
proof fn lemma_classify_endpoints(a1: AnyReg, a2o: Option<AnyReg>, outo: Option<AnyReg>)
    ensures
        forall|k: int|
            0 <= k < classify_spec(a1, a2o, outo).len() ==> {
                let t = #[trigger] classify_spec(a1, a2o, outo)[k];
                (t.0 == a1 || a2o == Some(t.0) || outo == Some(t.0)) && (t.1 == a1 || a2o == Some(
                    t.1,
                ) || outo == Some(t.1))
            },
{
}

/// Block prefixes carry at most the whole location count.
proof fn lemma_total_locs_prefix(blocks: Seq<BasicBlock>, i: int)
    requires
        0 <= i <= blocks.len(),
    ensures
        0 <= total_locs(blocks.take(i)),
        total_locs(blocks.take(i)) <= total_locs(blocks),
        i < blocks.len() ==> total_locs(blocks.take(i)) + blocks[i].locs@.len() <= total_locs(
            blocks,
        ),
    decreases blocks.len() - i,
{
    if i == blocks.len() {
        assert(blocks.take(i) =~= blocks);
        lemma_total_locs_nonneg(blocks);
    } else {
        lemma_total_locs_prefix(blocks, i + 1);
        assert(blocks.take(i + 1).drop_last() =~= blocks.take(i));
        assert(blocks.take(i + 1).last() == blocks[i]);
        assert(total_locs(blocks.take(i + 1)) == total_locs(blocks.take(i))
            + blocks[i].locs@.len());
        lemma_total_locs_nonneg(blocks.take(i));
    }
}

proof fn lemma_total_locs_nonneg(blocks: Seq<BasicBlock>)
    ensures
        total_locs(blocks) >= 0,
    decreases blocks.len(),
{
    if blocks.len() > 0 {
        lemma_total_locs_nonneg(blocks.drop_last());
    }
}

/// A block's locations contribute at most two edges each.
proof fn lemma_edges_of_locs_len(
    code: Seq<HLInstr>,
    locs: Seq<CodeLoc>,
    block: int,
    nc: int,
    sc: int,
)
    ensures
        0 <= edges_of_locs(code, locs, block, nc, sc).len() <= 2 * locs.len(),
    decreases locs.len(),
{
    if locs.len() > 0 {
        lemma_edges_of_locs_len(code, locs.drop_last(), block, nc, sc);
        let ins = code[locs.last() as int];
        match decode_spec(ins) {
            None => {},
            Some((a1, a2o, outo)) => {
                lemma_classify_len(a1, a2o, outo);
            },
        }
    }
}

/// The whole graph has at most two edges per instruction location.
proof fn lemma_edges_of_blocks_len(code: Seq<HLInstr>, blocks: Seq<BasicBlock>, nc: int, sc: int)
    ensures
        0 <= edges_of_blocks(code, blocks, nc, sc).len() <= 2 * total_locs(blocks),
    decreases blocks.len(),
{
    if blocks.len() > 0 {
        lemma_edges_of_blocks_len(code, blocks.drop_last(), nc, sc);
        lemma_edges_of_locs_len(code, blocks.last().locs@, blocks.len() - 1, nc, sc);
    }
}

/// The register-to-node lookup: bank base plus index.
fn reg_lookup(r: AnyReg, nc: usize, sc: usize, vc: usize) -> (ix: u16)
    requires
        reg_wf(r, nc as int, sc as int, vc as int),
        nc + sc + vc < 65535,
    ensures
        ix as int == reg_index(r, nc as int, sc as int),
        (ix as int) < nc + sc + vc,
{
    match r {
        AnyReg::Number(i) => i.0,
        AnyReg::String(i) => (nc + i.0 as usize) as u16,
        AnyReg::Value(i) => (nc + sc + i.0 as usize) as u16,
    }
}

/// The data-flow graph: one node per register, one or two edges per
/// instruction, and the list of nodes that stand for global value registers.
pub struct DataFlowGraph {
    graph: RegGraph,
    globals: Vec<u16>,
}

impl DataFlowGraph {
    /// The node weights, in node-index order.
    pub closed spec fn nodes_seq(&self) -> Seq<Node> {
        graph_nodes(self.graph)
    }

    /// The edges, in insertion order.
    pub closed spec fn edges_seq(&self) -> Seq<EdgeRecord> {
        graph_edges(self.graph)
    }

    /// The node indices of the global value registers, in mapping order.
    pub closed spec fn globals_seq(&self) -> Seq<u16> {
        self.globals@
    }

    pub fn node_count(&self) -> (n: usize)
        ensures
            n == self.nodes_seq().len(),
    {
        graph_node_count(&self.graph)
    }

    pub fn edge_count(&self) -> (n: usize)
        ensures
            n == self.edges_seq().len(),
    {
        graph_edge_count(&self.graph)
    }

    /// All nodes, in node-index order.
    pub fn nodes(&self) -> (r: Vec<Node>)
        ensures
            r@ == self.nodes_seq(),
    {
        graph_node_list(&self.graph)
    }

    /// All edges, in insertion order.
    pub fn edges(&self) -> (r: Vec<EdgeRecord>)
        ensures
            r@ == self.edges_seq(),
    {
        graph_edge_list(&self.graph)
    }

    /// The node indices of the global value registers.
    pub fn globals(&self) -> (r: &Vec<u16>)
        ensures
            r@ == self.globals_seq(),
    {
        &self.globals
    }

    /// The underlying graph, for a consumer that works with it directly.
    pub fn graph(&self) -> (r: &RegGraph)
        ensures
            graph_nodes(*r) == self.nodes_seq(),
            graph_edges(*r) == self.edges_seq(),
    {
        &self.graph
    }

    /// Surrender the underlying graph to a consumer that chooses to go on
    /// mutating it.
    pub fn into_graph(self) -> (r: RegGraph)
        ensures
            graph_nodes(r) == self.nodes_seq(),
            graph_edges(r) == self.edges_seq(),
    {
        self.graph
    }
}

impl ControlFlowGraph {
    /// Build the data-flow graph: one node per register of every bank, then,
    /// walking the blocks in order and each block's locations in program
    /// order, the classified edges of every instruction, and finally the
    /// node list of the global value registers.
    #[verifier::loop_isolation(false)]
    pub fn dfg(&self, vm: &VMExec) -> (r: DataFlowGraph)
        requires
            vm.numbers@.len() + vm.strings@.len() + vm.values@.len() < 65535,
            code_wf(
                vm.code@,
                vm.numbers@.len() as int,
                vm.strings@.len() as int,
                vm.values@.len() as int,
            ),
            cfg_wf(self.blocks@, vm.code@.len() as int),
            2 * total_locs(self.blocks@) < 65534,
            forall|i: int|
                0 <= i < vm.globals@.len() ==> ((#[trigger] vm.globals@[i]).1.0 as int)
                    < vm.values@.len(),
        ensures
            r.nodes_seq() == node_seq(
                vm.numbers@.len() as int,
                vm.strings@.len() as int,
                vm.values@.len() as int,
            ),
            r.edges_seq() == edges_of_blocks(
                vm.code@,
                self.blocks@,
                vm.numbers@.len() as int,
                vm.strings@.len() as int,
            ),
            r.globals_seq() == globals_index_seq(
                vm.globals@,
                vm.numbers@.len() as int,
                vm.strings@.len() as int,
            ),
    {
        let nc = vm.numbers.len();
        let sc = vm.strings.len();
        let vc = vm.values.len();
        let ghost nci = nc as int;
        let ghost sci = sc as int;
        let ghost vci = vc as int;
        let ghost nodes_all = node_seq(nci, sci, vci);
        let mut graph = graph_with_capacity(nc + sc + vc, vm.code.len());
        let mut i: usize = 0;
        while i < nc
            invariant
                i <= nc,
                graph_fresh(graph),
                graph_nodes(graph) =~= nodes_all.take(i as int),
                graph_edges(graph) == Seq::<EdgeRecord>::empty(),
            decreases nc - i,
        {
            let _ = graph_add_node(&mut graph, Node { reg: AnyReg::Number(NumberReg(i as u16)) });
            proof {
                assert(graph_nodes(graph) =~= nodes_all.take(i + 1));
            }
            i = i + 1;
        }
        let mut j: usize = 0;
        while j < sc
            invariant
                j <= sc,
                graph_fresh(graph),
                graph_nodes(graph) =~= nodes_all.take(nc + j),
                graph_edges(graph) == Seq::<EdgeRecord>::empty(),
            decreases sc - j,
        {
            let _ = graph_add_node(&mut graph, Node { reg: AnyReg::String(StringReg(j as u16)) });
            proof {
                assert(graph_nodes(graph) =~= nodes_all.take(nc + j + 1));
            }
            j = j + 1;
        }
        let mut k: usize = 0;
        while k < vc
            invariant
                k <= vc,
                graph_fresh(graph),
                graph_nodes(graph) =~= nodes_all.take(nc + sc + k),
                graph_edges(graph) == Seq::<EdgeRecord>::empty(),
            decreases vc - k,
        {
            let _ = graph_add_node(&mut graph, Node { reg: AnyReg::Value(ValueReg(k as u16)) });
            proof {
                assert(graph_nodes(graph) =~= nodes_all.take(nc + sc + k + 1));
            }
            k = k + 1;
        }
        proof {
            assert(nodes_all.take(nc + sc + vc) =~= nodes_all);
        }
        let nblocks = self.blocks.len();
        let mut bi: usize = 0;
        while bi < nblocks
            invariant
                bi <= nblocks,
                graph_fresh(graph),
                graph_nodes(graph) == nodes_all,
                graph_edges(graph) =~= edges_of_blocks(
                    vm.code@,
                    self.blocks@.take(bi as int),
                    nci,
                    sci,
                ),
            decreases nblocks - bi,
        {
            let block = &self.blocks[bi];
            let nlocs = block.locs.len();
            let ghost blk_edges_before = graph_edges(graph);
            let mut li: usize = 0;
            while li < nlocs
                invariant
                    li <= nlocs,
                    graph_fresh(graph),
                    graph_nodes(graph) == nodes_all,
                    graph_edges(graph) =~= edges_of_blocks(
                        vm.code@,
                        self.blocks@.take(bi as int),
                        nci,
                        sci,
                    ) + edges_of_locs(vm.code@, block.locs@.take(li as int), bi as int, nci, sci),
                decreases nlocs - li,
            {
                let loc = block.locs[li];
                let ghost pre_locs = block.locs@.take(li as int);
                proof {
                    assert(block.locs@[li as int] < vm.code@.len());
                }
                let decoded = decode_operands(&vm.code[loc]);
                let ghost ins = vm.code@[loc as int];
                match decoded {
                    None => {
                        proof {
                            assert(block.locs@.take(li + 1).drop_last() =~= pre_locs);
                            assert(edges_of_instr(ins, bi as int, loc as int, nci, sci)
                                =~= Seq::<EdgeRecord>::empty());
                            assert(edges_of_locs(
                                vm.code@,
                                block.locs@.take(li + 1),
                                bi as int,
                                nci,
                                sci,
                            ) =~= edges_of_locs(vm.code@, pre_locs, bi as int, nci, sci));
                        }
                    },
                    Some((a1, a2o, outo)) => {
                        proof {
                            lemma_decode_shape(ins);
                        }
                        let plan = classify_edges(a1, a2o, outo);
                        let ghost instr_edges = edges_of_instr(ins, bi as int, loc as int, nci, sci);
                        let np = plan.len();
                        let mut pk: usize = 0;
                        while pk < np
                            invariant
                                pk <= np,
                                graph_fresh(graph),
                                graph_nodes(graph) == nodes_all,
                                graph_edges(graph) =~= edges_of_blocks(
                                    vm.code@,
                                    self.blocks@.take(bi as int),
                                    nci,
                                    sci,
                                ) + edges_of_locs(vm.code@, pre_locs, bi as int, nci, sci)
                                    + instr_edges.take(pk as int),
                            decreases np - pk,
                        {
                            let t = plan[pk];
                            proof {
                                lemma_classify_endpoints(a1, a2o, outo);
                                assert(reg_wf(t.0, nci, sci, vci) && reg_wf(t.1, nci, sci, vci));
                                lemma_edges_of_blocks_len(
                                    vm.code@,
                                    self.blocks@.take(bi as int),
                                    nci,
                                    sci,
                                );
                                lemma_edges_of_locs_len(vm.code@, pre_locs, bi as int, nci, sci);
                                lemma_total_locs_prefix(self.blocks@, bi as int);
                                lemma_classify_len(a1, a2o, outo);
                                assert(graph_edges(graph).len() < 65534);
                            }
                            let ia = reg_lookup(t.0, nc, sc, vc);
                            let ib = reg_lookup(t.1, nc, sc, vc);
                            graph_add_edge(
                                &mut graph,
                                ia,
                                ib,
                                DataFlowInfo { cfg_node: bi, instr: loc, source: t.2, target: t.3 },
                            );
                            proof {
                                assert(instr_edges[pk as int] == edge_rec(
                                    plan@[pk as int],
                                    bi as int,
                                    loc as int,
                                    nci,
                                    sci,
                                ));
                                assert(instr_edges.take(pk + 1) =~= instr_edges.take(
                                    pk as int,
                                ).push(instr_edges[pk as int]));
                                assert(graph_edges(graph) =~= edges_of_blocks(
                                    vm.code@,
                                    self.blocks@.take(bi as int),
                                    nci,
                                    sci,
                                ) + edges_of_locs(vm.code@, pre_locs, bi as int, nci, sci)
                                    + instr_edges.take(pk + 1));
                            }
                            pk = pk + 1;
                        }
                        proof {
                            assert(instr_edges.take(np as int) =~= instr_edges);
                            assert(block.locs@.take(li + 1).drop_last() =~= pre_locs);
                            assert(block.locs@.take(li + 1).last() == loc);
                            assert(edges_of_locs(
                                vm.code@,
                                block.locs@.take(li + 1),
                                bi as int,
                                nci,
                                sci,
                            ) =~= edges_of_locs(vm.code@, pre_locs, bi as int, nci, sci)
                                + instr_edges);
                        }
                    },
                }
                li = li + 1;
            }
            proof {
                assert(block.locs@.take(nlocs as int) =~= block.locs@);
                assert(self.blocks@.take(bi + 1).drop_last() =~= self.blocks@.take(bi as int));
                assert(self.blocks@.take(bi + 1).last() == self.blocks@[bi as int]);
                assert(edges_of_blocks(vm.code@, self.blocks@.take(bi + 1), nci, sci)
                    =~= edges_of_blocks(vm.code@, self.blocks@.take(bi as int), nci, sci)
                    + edges_of_locs(vm.code@, block.locs@, bi as int, nci, sci));
            }
            bi = bi + 1;
        }
        proof {
            assert(self.blocks@.take(nblocks as int) =~= self.blocks@);
        }
        let ng = vm.globals.len();
        let mut globals: Vec<u16> = Vec::new();
        let mut gi: usize = 0;
        while gi < ng
            invariant
                gi <= ng,
                globals@ =~= globals_index_seq(vm.globals@.take(gi as int), nci, sci),
            decreases ng - gi,
        {
            let reg = vm.globals[gi].1;
            globals.push((nc + sc + reg.0 as usize) as u16);
            proof {
                assert(globals@ =~= globals_index_seq(vm.globals@.take(gi + 1), nci, sci));
            }
            gi = gi + 1;
        }
        proof {
            assert(vm.globals@.take(ng as int) =~= vm.globals@);
        }
        DataFlowGraph { graph, globals }
    }
}

/// Node stability and completeness: the graph's node sequence holds exactly
/// one node per register over the three banks -- each register's node at the
/// index the lookup assigns it, whether or not any instruction references it
/// (isolated nodes included), distinct registers at distinct indices, and
/// every position holding the node of some in-range register, so there are
/// no other nodes.
pub proof fn lemma_node_stability(nc: int, sc: int, vc: int)
    requires
        0 <= nc,
        0 <= sc,
        0 <= vc,
        nc + sc + vc < 65536,
    ensures
        node_seq(nc, sc, vc).len() == nc + sc + vc,
        forall|r: AnyReg|
            reg_wf(r, nc, sc, vc) ==> 0 <= #[trigger] reg_index(r, nc, sc) < nc + sc + vc,
        forall|r: AnyReg|
            reg_wf(r, nc, sc, vc) ==> node_seq(nc, sc, vc)[#[trigger] reg_index(r, nc, sc)]
                == (Node { reg: r }),
        forall|r1: AnyReg, r2: AnyReg|
            reg_wf(r1, nc, sc, vc) && reg_wf(r2, nc, sc, vc) && #[trigger] reg_index(r1, nc, sc)
                == #[trigger] reg_index(r2, nc, sc) ==> r1 == r2,
        forall|i: int|
            0 <= i < nc + sc + vc ==> reg_wf(#[trigger] node_seq(nc, sc, vc)[i].reg, nc, sc, vc)
                && reg_index(node_seq(nc, sc, vc)[i].reg, nc, sc) == i,
{
    assert forall|r: AnyReg| reg_wf(r, nc, sc, vc) implies node_seq(nc, sc, vc)[#[trigger] reg_index(
        r,
        nc,
        sc,
    )] == (Node { reg: r }) by {
        match r {
            AnyReg::Number(i) => {
                assert(node_seq(nc, sc, vc)[i.0 as int] == (Node { reg: r }));
            },
            AnyReg::String(i) => {
                assert(node_seq(nc, sc, vc)[nc + i.0] == (Node { reg: r }));
            },
            AnyReg::Value(i) => {
                assert(node_seq(nc, sc, vc)[nc + sc + i.0] == (Node { reg: r }));
            },
        }
    }
    assert forall|r1: AnyReg, r2: AnyReg|
        reg_wf(r1, nc, sc, vc) && reg_wf(r2, nc, sc, vc) && #[trigger] reg_index(r1, nc, sc)
            == #[trigger] reg_index(r2, nc, sc) implies r1 == r2 by {
        let k = reg_index(r1, nc, sc);
        assert(node_seq(nc, sc, vc)[k] == (Node { reg: r1 }));
        assert(node_seq(nc, sc, vc)[k] == (Node { reg: r2 }));
    }
}

/// Global list completeness: under a mapping that names each value register
/// once, every register of the mapping appears in the globals node list at
/// its own position and nowhere else -- exactly once.
pub proof fn lemma_globals_complete(globals: Seq<(String, ValueReg)>, nc: int, sc: int)
    requires
        0 <= nc,
        0 <= sc,
        forall|i: int| 0 <= i < globals.len() ==> nc + sc + (#[trigger] globals[i]).1.0 < 65536,
        forall|i: int, j: int|
            0 <= i < j < globals.len() ==> (#[trigger] globals[i]).1 != (#[trigger] globals[j]).1,
    ensures
        globals_index_seq(globals, nc, sc).len() == globals.len(),
        forall|i: int|
            0 <= i < globals.len() ==> globals_index_seq(globals, nc, sc)[i] == ((nc + sc
                + (#[trigger] globals[i]).1.0) as u16),
        forall|i: int, j: int|
            0 <= i < j < globals.len() ==> globals_index_seq(globals, nc, sc)[i]
                != globals_index_seq(globals, nc, sc)[j],
{
    assert forall|i: int, j: int| 0 <= i < j < globals.len() implies globals_index_seq(
        globals,
        nc,
        sc,
    )[i] != globals_index_seq(globals, nc, sc)[j] by {
        assert(globals[i].1.0 != globals[j].1.0);
        assert(nc + sc + globals[i].1.0 != nc + sc + globals[j].1.0);
    }
}

/// The bank word and index labelling a node.
pub open spec fn node_label(n: Node) -> Seq<u8> {
    match n.reg {
        AnyReg::Number(i) => str_bytes("Number #"@) + digits_of(i.0 as nat),
        AnyReg::String(i) => str_bytes("String #"@) + digits_of(i.0 as nat),
        AnyReg::Value(i) => str_bytes("Value #"@) + digits_of(i.0 as nat),
    }
}

/// The short form of a source-use tag.
pub open spec fn smod_chars(m: SourceModify) -> Seq<char> {
    match m {
        SourceModify::Read => "R"@,
        SourceModify::ReadWrite => "RW"@,
    }
}

/// The short form of a target-use tag.
pub open spec fn tmod_chars(m: TargetModify) -> Seq<char> {
    match m {
        TargetModify::Read => "R"@,
        TargetModify::Write => "W"@,
        TargetModify::ReadWrite => "RW"@,
    }
}

/// An edge payload's label: the instruction location and the use pair.
pub open spec fn info_label(fi: DataFlowInfo) -> Seq<u8> {
    str_bytes("Instr #"@) + digits_of(fi.instr as nat) + str_bytes(" ("@) + str_bytes(
        smod_chars(fi.source),
    ) + str_bytes(" -> "@) + str_bytes(tmod_chars(fi.target)) + str_bytes(")"@)
}

/// One rendered edge line: endpoints and the payload's label.
pub open spec fn edge_line(e: EdgeRecord) -> Seq<u8> {
    digits_of(e.src as nat) + str_bytes(" -> "@) + digits_of(e.dst as nat) + str_bytes("["@)
        + info_label(e.info) + str_bytes("]\n"@)
}

/// The node section of the export: one labelled line per node.
pub open spec fn render_nodes(nodes: Seq<Node>) -> Seq<u8>
    decreases nodes.len(),
{
    if nodes.len() == 0 {
        Seq::empty()
    } else {
        render_nodes(nodes.drop_last()) + node_label(nodes.last()) + str_bytes("\n"@)
    }
}

/// The edge section of the export: one labelled line per edge.
pub open spec fn render_edges(edges: Seq<EdgeRecord>) -> Seq<u8>
    decreases edges.len(),
{
    if edges.len() == 0 {
        Seq::empty()
    } else {
        render_edges(edges.drop_last()) + edge_line(edges.last())
    }
}

impl SourceModify {
    /// The short tag used in edge labels.
    pub fn label(&self) -> (r: &'static str)
        ensures
            r@ == smod_chars(*self),
            r.is_ascii(),
    {
        proof {
            reveal_strlit("R");
            reveal_strlit("RW");
        }
        match self {
            SourceModify::Read => "R",
            SourceModify::ReadWrite => "RW",
        }
    }
}

impl TargetModify {
    /// The short tag used in edge labels.
    pub fn label(&self) -> (r: &'static str)
        ensures
            r@ == tmod_chars(*self),
            r.is_ascii(),
    {
        proof {
            reveal_strlit("R");
            reveal_strlit("W");
            reveal_strlit("RW");
        }
        match self {
            TargetModify::Read => "R",
            TargetModify::Write => "W",
            TargetModify::ReadWrite => "RW",
        }
    }
}

impl Node {
    /// Append this node's label: its bank's name and its index.
    pub fn push_label(&self, buf: &mut YString)
        ensures
            final(buf)@ == old(buf)@ + node_label(*self),
    {
        proof {
            reveal_strlit("Number #");
            reveal_strlit("String #");
            reveal_strlit("Value #");
        }
        match self.reg {
            AnyReg::Number(i) => {
                buf.push_str("Number #");
                buf.push_digits(i.0 as u64);
            },
            AnyReg::String(i) => {
                buf.push_str("String #");
                buf.push_digits(i.0 as u64);
            },
            AnyReg::Value(i) => {
                buf.push_str("Value #");
                buf.push_digits(i.0 as u64);
            },
        }
        proof {
            assert(buf@ =~= old(buf)@ + node_label(*self));
        }
    }
}

impl DataFlowInfo {
    /// Append this payload's label: the instruction location and the use
    /// pair.
    pub fn push_label(&self, buf: &mut YString)
        ensures
            final(buf)@ == old(buf)@ + info_label(*self),
    {
        proof {
            reveal_strlit("Instr #");
            reveal_strlit(" (");
            reveal_strlit(" -> ");
            reveal_strlit(")");
        }
        buf.push_str("Instr #");
        buf.push_digits(self.instr as u64);
        buf.push_str(" (");
        buf.push_str(self.source.label());
        buf.push_str(" -> ");
        buf.push_str(self.target.label());
        buf.push_str(")");
        proof {
            assert(buf@ =~= old(buf)@ + info_label(*self));
        }
    }
}

impl DataFlowGraph {
    /// A textual export of the graph: one line per node with its bank name
    /// and index, then one line per edge with its endpoints' node indices
    /// and its label.
    pub fn render(&self) -> (r: YString)
        ensures
            r@ == render_nodes(self.nodes_seq()) + render_edges(self.edges_seq()),
    {
        proof {
            reveal_strlit("\n");
            reveal_strlit(" -> ");
            reveal_strlit("[");
            reveal_strlit("]\n");
        }
        let mut buf = YString::new();
        let nodes = self.nodes();
        let nn = nodes.len();
        let mut i: usize = 0;
        while i < nn
            invariant
                i <= nn,
                nn == nodes@.len(),
                nodes@ == self.nodes_seq(),
                buf@ == render_nodes(self.nodes_seq().take(i as int)),
            decreases nn - i,
        {
            nodes[i].push_label(&mut buf);
            buf.push(10);
            proof {
                reveal_strlit("\n");
                assert(str_bytes("\n"@) =~= seq![10u8]);
                assert(self.nodes_seq().take(i + 1).drop_last() =~= self.nodes_seq().take(
                    i as int,
                ));
                assert(buf@ =~= render_nodes(self.nodes_seq().take(i + 1)));
            }
            i = i + 1;
        }
        proof {
            assert(self.nodes_seq().take(nn as int) =~= self.nodes_seq());
        }
        let ghost nodepart = buf@;
        let edges = self.edges();
        let ne = edges.len();
        let mut j: usize = 0;
        while j < ne
            invariant
                j <= ne,
                ne == edges@.len(),
                edges@ == self.edges_seq(),
                buf@ == nodepart + render_edges(self.edges_seq().take(j as int)),
            decreases ne - j,
        {
            let e = edges[j];
            proof {
                reveal_strlit(" -> ");
                reveal_strlit("[");
                reveal_strlit("]\n");
            }
            buf.push_digits(e.src as u64);
            buf.push_str(" -> ");
            buf.push_digits(e.dst as u64);
            buf.push_str("[");
            e.info.push_label(&mut buf);
            buf.push_str("]\n");
            proof {
                reveal_strlit(" -> ");
                reveal_strlit("[");
                reveal_strlit("]\n");
                assert(self.edges_seq().take(j + 1).drop_last() =~= self.edges_seq().take(
                    j as int,
                ));
                assert(buf@ =~= nodepart + render_edges(self.edges_seq().take(j + 1)));
            }
            j = j + 1;
        }
        proof {
            assert(self.edges_seq().take(ne as int) =~= self.edges_seq());
            assert(buf@ =~= render_nodes(self.nodes_seq()) + render_edges(self.edges_seq()));
        }
        buf
    }
}

} // verus!
