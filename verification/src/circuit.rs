//! The circuit: a DAG of operators over streams, stepped in a fixed
//! topological order, once per external input batch.  Stream 0 carries the
//! external input of the step; stream i+1 carries the output of node i,
//! which reads an earlier stream only — a node whose input index reached
//! its own stream would close a cycle, and such a graph is rejected at
//! construction time.

use vstd::prelude::*;
use crate::distinct::{distinct_step, hash_distinct_step, sign, stream_distinct_batch};
use crate::trace::Trace;
use crate::zset::{wsum, Tuple, ZSetBatch};

verus! {

/// Which transformation a node applies to its input stream.
#[derive(PartialEq, Eq, Structural, Clone, Copy, Debug)]
pub enum OperatorKind {
    /// Per-batch multiset-to-set reduction, without history.
    StreamDistinct,
    /// Incremental distinct, backed by the node's trace.
    Distinct,
    /// Incremental distinct over a hash-indexed scan, backed by the node's
    /// trace; interchangeable with `Distinct`.
    HashDistinct,
}

/// One operator node: its kind, the index of the stream it reads, and the
/// trace it owns.  Exactly one operator maintains each trace.
pub struct Node {
    pub kind: OperatorKind,
    pub input: usize,
    pub trace: Trace,
}

/// The weight of (k, v) on stream `j` during one step, given the traces as
/// they stood when the step began: stream 0 is the external input, stream
/// i+1 what node i derives from the stream it reads.
pub open spec fn sval(nodes: Seq<Node>, input: Seq<Tuple>, j: int, k: u64, v: u64) -> int
    decreases j,
{
    if j <= 0 {
        wsum(input, k, v)
    } else if j > nodes.len() || nodes[j - 1].input as int >= j {
        0
    } else {
        let n = nodes[j - 1];
        let x = sval(nodes, input, n.input as int, k, v);
        match n.kind {
            OperatorKind::StreamDistinct => sign(x),
            OperatorKind::Distinct => sign(wsum(n.trace@, k, v) + x) - sign(wsum(n.trace@, k, v)),
            OperatorKind::HashDistinct => sign(wsum(n.trace@, k, v) + x) - sign(
                wsum(n.trace@, k, v),
            ),
        }
    }
}

/// A malformed graph: the node at this position reads a stream that is not
/// produced before it, which would close a cycle without a delay.
#[derive(PartialEq, Eq, Structural, Clone, Copy, Debug)]
pub struct GraphError {
    pub node: usize,
}

/// The dataflow graph, with the scheduling of steps and the traces of its
/// operators.
pub struct Circuit {
    nodes: Vec<Node>,
}

impl Circuit {
    pub closed spec fn nodes_spec(&self) -> Seq<Node> {
        self.nodes@
    }

    /// Every node reads a stream produced before its own, and every trace
    /// is well formed.
    pub open spec fn wf(&self) -> bool {
        forall|i: int|
            0 <= i < self.nodes_spec().len() ==> (#[trigger] self.nodes_spec()[i]).input as int
                <= i && self.nodes_spec()[i].trace.wf()
    }

    /// All sums a step would feed into a trace-backed node stay within the
    /// weight type.
    pub open spec fn step_fits(&self, input: Seq<Tuple>) -> bool {
        forall|i: int, k: u64, v: u64|
            0 <= i < self.nodes_spec().len() ==> i64::MIN <= #[trigger] wsum(
                self.nodes_spec()[i].trace@,
                k,
                v,
            ) + sval(self.nodes_spec(), input, self.nodes_spec()[i].input as int, k, v)
                <= i64::MAX
    }

    /// Builds a circuit from the operator list: each pair names the node's
    /// kind and the stream it reads.  A node that would read its own or a
    /// later stream is a construction-time error, reported with its
    /// position; no such circuit is ever stepped.
    pub fn new(ops: &Vec<(OperatorKind, usize)>) -> (r: Result<Circuit, GraphError>)
        ensures
            (r matches Ok(c) ==> c.wf() && c.nodes_spec().len() == ops@.len() && (forall|i: int|
                0 <= i < ops@.len() ==> (#[trigger] c.nodes_spec()[i]).kind == ops@[i].0
                    && c.nodes_spec()[i].input == ops@[i].1)),
            (r matches Ok(c) ==> (forall|i: int, k: u64, v: u64|
                0 <= i < ops@.len() ==> #[trigger] wsum(c.nodes_spec()[i].trace@, k, v) == 0)),
            (r matches Err(e) ==> e.node < ops@.len() && ops@[e.node as int].1 > e.node),
            (r is Err <==> exists|i: int| 0 <= i < ops@.len() && (#[trigger] ops@[i]).1 > i),
    {
        let n = ops.len();
        let mut nodes: Vec<Node> = Vec::new();
        for i in 0..n
            invariant
                n == ops@.len(),
                nodes@.len() == i as int,
                forall|j: int| 0 <= j < i ==> (#[trigger] ops@[j]).1 <= j,
                forall|j: int|
                    0 <= j < i ==> (#[trigger] nodes@[j]).kind == ops@[j].0 && nodes@[j].input
                        == ops@[j].1 && nodes@[j].trace.wf(),
                forall|j: int, k: u64, v: u64|
                    0 <= j < i ==> #[trigger] wsum(nodes@[j].trace@, k, v) == 0,
        {
            let (kind, input) = ops[i];
            if input > i {
                return Err(GraphError { node: i });
            }
            nodes.push(Node { kind, input, trace: Trace::new() });
        }
        Ok(Circuit { nodes })
    }

    /// The number of operator nodes.
    pub fn len(&self) -> (n: usize)
        ensures
            n == self.nodes_spec().len(),
    {
        self.nodes.len()
    }

    /// Executes one step: accepts the external input batch, runs every
    /// node exactly once in topological order on the current step's
    /// streams, folds each trace-backed node's input into its trace, and
    /// returns all stream values of the step — the external input first,
    /// then each node's output in order.  A node never observes a stream
    /// of a later position, so no operator sees partial or future data.
    pub fn step(&mut self, input: ZSetBatch) -> (r: Vec<ZSetBatch>)
        requires
            old(self).wf(),
            input.wf(),
            old(self).step_fits(input@),
        ensures
            final(self).wf(),
            final(self).nodes_spec().len() == old(self).nodes_spec().len(),
            r@.len() == old(self).nodes_spec().len() + 1,
            forall|j: int| 0 <= j < r@.len() ==> crate::zset::wf_entries(#[trigger] r@[j]@),
            forall|j: int, k: u64, v: u64|
                0 <= j < r@.len() ==> #[trigger] wsum(r@[j]@, k, v) == sval(
                    old(self).nodes_spec(),
                    input@,
                    j,
                    k,
                    v,
                ),
            forall|i: int|
                0 <= i < old(self).nodes_spec().len() ==> (#[trigger] final(self).nodes_spec()[
                    i
                ]).kind == old(self).nodes_spec()[i].kind && final(self).nodes_spec()[i].input
                    == old(self).nodes_spec()[i].input,
            forall|i: int, k: u64, v: u64|
                0 <= i < old(self).nodes_spec().len() ==> #[trigger] wsum(
                    final(self).nodes_spec()[i].trace@,
                    k,
                    v,
                ) == (if old(self).nodes_spec()[i].kind == OperatorKind::StreamDistinct {
                    wsum(old(self).nodes_spec()[i].trace@, k, v)
                } else {
                    wsum(old(self).nodes_spec()[i].trace@, k, v) + sval(
                        old(self).nodes_spec(),
                        input@,
                        old(self).nodes_spec()[i].input as int,
                        k,
                        v,
                    )
                }),
    {
        let ghost nodes0 = self.nodes@;
        let n = self.nodes.len();
        let mut streams: Vec<ZSetBatch> = Vec::new();
        streams.push(input);
        let mut done: Vec<Node> = Vec::new();
        for i in 0..n
            invariant
                n == nodes0.len(),
                self.nodes@.len() == n - i,
                done@.len() == i as int,
                forall|j: int| 0 <= j < n - i ==> self.nodes@[j] == nodes0[j + i],
                input.wf(),
                forall|j: int|
                    0 <= j < nodes0.len() ==> (#[trigger] nodes0[j]).input as int <= j
                        && nodes0[j].trace.wf(),
                forall|j: int, k: u64, v: u64|
                    0 <= j < nodes0.len() ==> i64::MIN <= #[trigger] wsum(
                        nodes0[j].trace@,
                        k,
                        v,
                    ) + sval(nodes0, input@, nodes0[j].input as int, k, v) <= i64::MAX,
                streams@.len() == i + 1,
                forall|j: int| 0 <= j <= i ==> crate::zset::wf_entries(#[trigger] streams@[j]@),
                forall|j: int, k: u64, v: u64|
                    0 <= j <= i ==> #[trigger] wsum(streams@[j]@, k, v) == sval(
                        nodes0,
                        input@,
                        j,
                        k,
                        v,
                    ),
                forall|j: int|
                    0 <= j < i ==> (#[trigger] done@[j]).kind == nodes0[j].kind && done@[j].input
                        == nodes0[j].input && done@[j].trace.wf(),
                forall|j: int, k: u64, v: u64|
                    0 <= j < i ==> #[trigger] wsum(done@[j].trace@, k, v) == (if nodes0[j].kind
                        == OperatorKind::StreamDistinct {
                        wsum(nodes0[j].trace@, k, v)
                    } else {
                        wsum(nodes0[j].trace@, k, v) + sval(
                            nodes0,
                            input@,
                            nodes0[j].input as int,
                            k,
                            v,
                        )
                    }),
        {
            let mut node = self.nodes.remove(0);
            proof {
                assert(node == nodes0[i as int]);
                assert(forall|j: int|
                    0 <= j < n - i - 1 ==> self.nodes@[j] == nodes0[j + i + 1]);
            }
            let src = &streams[node.input];
            proof {
                assert(src@ == streams@[node.input as int]@);
            }
            let out: ZSetBatch = match node.kind {
                OperatorKind::StreamDistinct => stream_distinct_batch(src),
                OperatorKind::Distinct => {
                    let o = distinct_step(node.trace.batch(), src);
                    node.trace.insert(src);
                    o
                },
                OperatorKind::HashDistinct => {
                    let o = hash_distinct_step(node.trace.batch(), src);
                    node.trace.insert(src);
                    o
                },
            };
            proof {
                assert forall|k: u64, v: u64|
                    #[trigger] wsum(out@, k, v) == sval(nodes0, input@, i + 1, k, v) by {
                    assert(sval(nodes0, input@, i + 1, k, v) == (match nodes0[i as int].kind {
                        OperatorKind::StreamDistinct => sign(
                            sval(nodes0, input@, nodes0[i as int].input as int, k, v),
                        ),
                        OperatorKind::Distinct => sign(
                            wsum(nodes0[i as int].trace@, k, v) + sval(
                                nodes0,
                                input@,
                                nodes0[i as int].input as int,
                                k,
                                v,
                            ),
                        ) - sign(wsum(nodes0[i as int].trace@, k, v)),
                        OperatorKind::HashDistinct => sign(
                            wsum(nodes0[i as int].trace@, k, v) + sval(
                                nodes0,
                                input@,
                                nodes0[i as int].input as int,
                                k,
                                v,
                            ),
                        ) - sign(wsum(nodes0[i as int].trace@, k, v)),
                    }));
                }
            }
            streams.push(out);
            done.push(node);
        }
        self.nodes = done;
        streams
    }
}

} // verus!
