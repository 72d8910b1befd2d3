//! The task dependency graph: task insertion with dependency-edge inference
//! and cycle rejection.

use vstd::prelude::*;

use crate::error::Error;
use crate::graph::{
    add_node, edge_label, edges_bounded, has_cycle, is_cyclic, model, new_store, node_at,
    node_count, remove_edge, update_edge, GraphModel, GraphStore,
};
use crate::resource::{GpuResource, GpuResourceV};
use crate::task::{
    holds_uid, holds_uid_exec, node_dep, spec_barrier_new, GpuBarrier, GpuTask, GpuTaskV, Node,
    NodeV,
};

verus! {

/// The view of an optional declared resource.
pub open spec fn opt_res_view(o: Option<GpuResource>) -> Option<GpuResourceV> {
    match o {
        Some(r) => Some(r@),
        None => None,
    }
}

/// The edges of a graph after dependency inference for a newly appended node
/// `n` has considered the existing nodes with index below `m`: for each such
/// node, an edge towards `n` when `n` depends on it, and an edge away from
/// `n` when it depends on `n`, labeled with the UID of the inferred
/// dependency.
pub open spec fn added_edges_upto(
    nodes: Seq<NodeV>,
    edges0: Map<(int, int), Seq<char>>,
    n: int,
    m: int,
) -> Map<(int, int), Seq<char>> {
    Map::new(
        |p: (int, int)|
            edges0.dom().contains(p) || (p.1 == n && 0 <= p.0 < m && node_dep(
                nodes[n],
                nodes[p.0],
            ) is Some) || (p.0 == n && 0 <= p.1 < m && node_dep(nodes[p.1], nodes[n]) is Some),
        |p: (int, int)|
            if p.1 == n && 0 <= p.0 < m && node_dep(nodes[n], nodes[p.0]) is Some {
                node_dep(nodes[n], nodes[p.0])->Some_0.uid
            } else if p.0 == n && 0 <= p.1 < m && node_dep(nodes[p.1], nodes[n]) is Some {
                node_dep(nodes[p.1], nodes[n])->Some_0.uid
            } else {
                edges0[p]
            },
    )
}

/// The edges of a graph after a new node was appended and dependency edges
/// between it and every node (itself included) were inferred.
pub open spec fn added_edges(
    nodes: Seq<NodeV>,
    edges0: Map<(int, int), Seq<char>>,
) -> Map<(int, int), Seq<char>> {
    added_edges_upto(nodes, edges0, nodes.len() - 1, nodes.len() as int)
}


/// Whether index `i` names a task node.
pub open spec fn node_is_task(nodes: Seq<NodeV>, i: int) -> bool {
    0 <= i < nodes.len() && nodes[i] is Task
}

/// The task stored at index `i`.
pub open spec fn task_at(nodes: Seq<NodeV>, i: int) -> GpuTaskV {
    nodes[i]->Task_0
}


/// Whether some task of the graph declares the UID among its outputs.
pub open spec fn uid_produced(nodes: Seq<NodeV>, uid: Seq<char>) -> bool {
    exists|p: int|
        node_is_task(nodes, p) && #[trigger] holds_uid(task_at(nodes, p).outputs, uid)
}

/// Whether `t = (p, j, q)` names a producer task `p`, an index `j` into its
/// outputs, and a task `q` that consumes the UID of that output: the triples
/// for which barrier synthesis creates one barrier node each.
pub open spec fn is_triple(nodes: Seq<NodeV>, t: (int, int, int)) -> bool {
    &&& node_is_task(nodes, t.0)
    &&& 0 <= t.1 < task_at(nodes, t.0).outputs.len()
    &&& node_is_task(nodes, t.2)
    &&& holds_uid(task_at(nodes, t.2).inputs, task_at(nodes, t.0).outputs[t.1].uid)
}

/// The UID a triple's barrier guards.
pub open spec fn triple_uid(nodes: Seq<NodeV>, t: (int, int, int)) -> Seq<char> {
    task_at(nodes, t.0).outputs[t.1].uid
}

/// The triples of producer `p` and output `j` whose consumer index is at
/// least `q`, in consumer order.
pub open spec fn triples_q(nodes: Seq<NodeV>, p: int, j: int, q: int) -> Seq<(int, int, int)>
    decreases nodes.len() - q,
{
    if q < 0 || q >= nodes.len() {
        Seq::empty()
    } else {
        (if is_triple(nodes, (p, j, q)) {
            seq![(p, j, q)]
        } else {
            Seq::empty()
        }) + triples_q(nodes, p, j, q + 1)
    }
}

/// The triples of producer `p` whose output index is at least `j`, in
/// (output, consumer) order.
pub open spec fn triples_j(nodes: Seq<NodeV>, p: int, j: int) -> Seq<(int, int, int)>
    decreases (if node_is_task(nodes, p) { task_at(nodes, p).outputs.len() } else { 0 }) - j,
{
    if !node_is_task(nodes, p) || j < 0 || j >= task_at(nodes, p).outputs.len() {
        Seq::empty()
    } else {
        triples_q(nodes, p, j, 0) + triples_j(nodes, p, j + 1)
    }
}

/// The triples whose producer index is at least `p`, in (producer, output,
/// consumer) order.
pub open spec fn triples_p(nodes: Seq<NodeV>, p: int) -> Seq<(int, int, int)>
    decreases nodes.len() - p,
{
    if p < 0 || p >= nodes.len() {
        Seq::empty()
    } else {
        triples_j(nodes, p, 0) + triples_p(nodes, p + 1)
    }
}

/// All (producer, output, consumer) triples of a graph, in the order barrier
/// synthesis visits them.
pub open spec fn barrier_triples(nodes: Seq<NodeV>) -> Seq<(int, int, int)> {
    triples_p(nodes, 0)
}

/// The barrier node a triple gives rise to.
pub open spec fn triple_barrier(nodes: Seq<NodeV>, t: (int, int, int)) -> NodeV {
    NodeV::Barrier(spec_barrier_new(task_at(nodes, t.0).outputs[t.1]))
}

/// The nodes after barrier synthesis processed the triples `ts`: the original
/// nodes followed by one barrier per triple, in triple order.
pub open spec fn cbn_nodes(nodes: Seq<NodeV>, ts: Seq<(int, int, int)>) -> Seq<NodeV> {
    nodes + ts.map_values(|t: (int, int, int)| triple_barrier(nodes, t))
}

/// Whether some triple in `ts` runs from producer `a` to consumer `b`, so
/// that the direct edge `a -> b` was replaced by a barrier chain.
pub open spec fn removed_pair(ts: Seq<(int, int, int)>, a: int, b: int) -> bool {
    exists|k: int| 0 <= k < ts.len() && ts[k].0 == a && ts[k].2 == b
}

/// The edges after barrier synthesis processed the triples `ts`: for the
/// triple at position `k`, whose barrier has index `nodes.len() + k`, an edge
/// from the producer to the barrier and one from the barrier to the consumer,
/// both labeled with the guarded UID; the direct producer-to-consumer edge of
/// every triple is removed, and all other edges stay.
pub open spec fn cbn_edges(
    nodes: Seq<NodeV>,
    edges0: Map<(int, int), Seq<char>>,
    ts: Seq<(int, int, int)>,
) -> Map<(int, int), Seq<char>> {
    let n0 = nodes.len() as int;
    Map::new(
        |x: (int, int)|
            (edges0.dom().contains(x) && !removed_pair(ts, x.0, x.1)) || (n0 <= x.1 < n0
                + ts.len() && ts[x.1 - n0].0 == x.0) || (n0 <= x.0 < n0 + ts.len() && ts[x.0
                - n0].2 == x.1),
        |x: (int, int)|
            if n0 <= x.1 < n0 + ts.len() && ts[x.1 - n0].0 == x.0 {
                triple_uid(nodes, ts[x.1 - n0])
            } else if n0 <= x.0 < n0 + ts.len() && ts[x.0 - n0].2 == x.1 {
                triple_uid(nodes, ts[x.0 - n0])
            } else {
                edges0[x]
            },
    )
}

/// Pushing a triple extends the removed producer-consumer pairs by exactly
/// that triple's pair.
pub proof fn lemma_removed_pair_push(ts: Seq<(int, int, int)>, tr: (int, int, int), a: int, b: int)
    ensures
        removed_pair(ts.push(tr), a, b) == (removed_pair(ts, a, b) || (a == tr.0 && b == tr.2)),
{
    if removed_pair(ts.push(tr), a, b) {
        let k = choose|k: int| 0 <= k < ts.push(tr).len() && ts.push(tr)[k].0 == a && ts.push(
            tr,
        )[k].2 == b;
        if k < ts.len() {
            assert(ts[k].0 == a && ts[k].2 == b);
        } else {
            assert(ts.push(tr)[k] == tr);
        }
    }
    if removed_pair(ts, a, b) {
        let k = choose|k: int| 0 <= k < ts.len() && ts[k].0 == a && ts[k].2 == b;
        assert(ts.push(tr)[k].0 == a && ts.push(tr)[k].2 == b);
    }
    if a == tr.0 && b == tr.2 {
        assert(ts.push(tr)[ts.len() as int].0 == a && ts.push(tr)[ts.len() as int].2 == b);
    }
}

/// Every triple of `triples_q` is a triple with producer `p`, output `j` and
/// a consumer index of at least `q`.
pub proof fn lemma_triples_q_valid(nodes: Seq<NodeV>, p: int, j: int, q: int)
    ensures
        forall|k: int|
            0 <= k < triples_q(nodes, p, j, q).len() ==> {
                let t = #[trigger] triples_q(nodes, p, j, q)[k];
                is_triple(nodes, t) && t.0 == p && t.1 == j && q <= t.2 < nodes.len()
            },
    decreases nodes.len() - q,
{
    if 0 <= q < nodes.len() {
        lemma_triples_q_valid(nodes, p, j, q + 1);
        let s = triples_q(nodes, p, j, q);
        let pre: Seq<(int, int, int)> = if is_triple(nodes, (p, j, q)) {
            seq![(p, j, q)]
        } else {
            Seq::empty()
        };
        let rest = triples_q(nodes, p, j, q + 1);
        assert forall|k: int| 0 <= k < s.len() implies {
            let t = #[trigger] s[k];
            is_triple(nodes, t) && t.0 == p && t.1 == j && q <= t.2 < nodes.len()
        } by {
            if k < pre.len() {
                assert(s[k] == (p, j, q));
            } else {
                assert(s[k] == rest[k - pre.len()]);
            }
        }
    }
}

/// Every triple of `triples_j` is a triple with producer `p` and an output
/// index of at least `j`.
pub proof fn lemma_triples_j_valid(nodes: Seq<NodeV>, p: int, j: int)
    ensures
        forall|k: int|
            0 <= k < triples_j(nodes, p, j).len() ==> {
                let t = #[trigger] triples_j(nodes, p, j)[k];
                is_triple(nodes, t) && t.0 == p && j <= t.1 && 0 <= t.2 < nodes.len()
            },
    decreases (if node_is_task(nodes, p) { task_at(nodes, p).outputs.len() } else { 0 }) - j,
{
    if node_is_task(nodes, p) && 0 <= j < task_at(nodes, p).outputs.len() {
        lemma_triples_q_valid(nodes, p, j, 0);
        lemma_triples_j_valid(nodes, p, j + 1);
        let s = triples_j(nodes, p, j);
        let pre = triples_q(nodes, p, j, 0);
        let rest = triples_j(nodes, p, j + 1);
        assert forall|k: int| 0 <= k < s.len() implies {
            let t = #[trigger] s[k];
            is_triple(nodes, t) && t.0 == p && j <= t.1 && 0 <= t.2 < nodes.len()
        } by {
            if k < pre.len() {
                assert(s[k] == pre[k]);
            } else {
                assert(s[k] == rest[k - pre.len()]);
            }
        }
    }
}

/// Every element of `triples_p` is a valid triple with a producer index of at
/// least `p`.
pub proof fn lemma_triples_p_valid(nodes: Seq<NodeV>, p: int)
    ensures
        forall|k: int|
            0 <= k < triples_p(nodes, p).len() ==> {
                let t = #[trigger] triples_p(nodes, p)[k];
                is_triple(nodes, t) && p <= t.0 < nodes.len() && 0 <= t.2 < nodes.len()
            },
    decreases nodes.len() - p,
{
    if 0 <= p < nodes.len() {
        lemma_triples_j_valid(nodes, p, 0);
        lemma_triples_p_valid(nodes, p + 1);
        let s = triples_p(nodes, p);
        let pre = triples_j(nodes, p, 0);
        let rest = triples_p(nodes, p + 1);
        assert forall|k: int| 0 <= k < s.len() implies {
            let t = #[trigger] s[k];
            is_triple(nodes, t) && p <= t.0 < nodes.len() && 0 <= t.2 < nodes.len()
        } by {
            if k < pre.len() {
                assert(s[k] == pre[k]);
            } else {
                assert(s[k] == rest[k - pre.len()]);
            }
        }
    }
}

/// A directed graph of task and barrier nodes whose edges are labeled with
/// the UID of the resource that induced them.
pub struct TaskGraph {
    pub store: GraphStore,
}

impl View for TaskGraph {
    type V = GraphModel;

    open spec fn view(&self) -> GraphModel {
        model(self.store)
    }
}

/// Well-formedness of a graph model: every edge connects existing nodes.
pub open spec fn wf(m: GraphModel) -> bool {
    edges_bounded(m)
}

impl TaskGraph {
    /// Creates an empty graph.
    pub fn new() -> (r: Self)
        ensures
            r@.nodes.len() == 0,
            forall|p: (int, int)| !r@.edges.dom().contains(p),
            wf(r@),
    {
        TaskGraph { store: new_store() }
    }

    /// The number of nodes in the graph.
    pub fn num_nodes(&self) -> (n: usize)
        ensures
            n == self@.nodes.len(),
    {
        node_count(&self.store)
    }

    /// The node stored under the given index.
    pub fn node(&self, i: usize) -> (r: Result<Node, Error>)
        ensures
            match r {
                Ok(w) => i < self@.nodes.len() && w@ == self@.nodes[i as int],
                Err(e) => i >= self@.nodes.len() && e == Error::NodeNotFound,
            },
    {
        if i < node_count(&self.store) {
            Ok(node_at(&self.store, i))
        } else {
            Err(Error::NodeNotFound)
        }
    }


    /// Whether any task in the graph declares the UID among its outputs.
    pub(crate) fn produces_uid(&self, uid: &String) -> (r: bool)
        ensures
            r == uid_produced(self@.nodes, uid@),
    {
        let n = node_count(&self.store);
        for p in 0..n
            invariant
                n == self@.nodes.len(),
                forall|p2: int|
                    0 <= p2 < p && node_is_task(self@.nodes, p2) ==> !(#[trigger] holds_uid(
                        task_at(self@.nodes, p2).outputs,
                        uid@,
                    )),
        {
            let w = node_at(&self.store, p);
            match &w {
                Node::Task(t) => {
                    if holds_uid_exec(&t.outputs, uid) {
                        proof {
                            assert(node_is_task(self@.nodes, p as int) && holds_uid(
                                task_at(self@.nodes, p as int).outputs,
                                uid@,
                            ));
                        }
                        return true;
                    }
                },
                Node::Barrier(_) => {},
            }
        }
        proof {
            if uid_produced(self@.nodes, uid@) {
                let p2 = choose|p2: int|
                    node_is_task(self@.nodes, p2) && #[trigger] holds_uid(
                        task_at(self@.nodes, p2).outputs,
                        uid@,
                    );
                assert(false);
            }
        }
        false
    }

    /// The label of the edge from `a` to `b`, if the graph holds one.
    pub fn edge(&self, a: usize, b: usize) -> (r: Option<String>)
        ensures
            match r {
                Some(l) => self@.edges.dom().contains((a as int, b as int)) && l@ == self@.edges[
                    (a as int, b as int)
                ],
                None => !self@.edges.dom().contains((a as int, b as int)),
            },
    {
        edge_label(&self.store, a, b)
    }

    /// The resource, if any, whose flow from the task at `parent` to the task
    /// at `child` makes the child depend on the parent.
    pub(crate) fn is_dependent(&self, child: usize, parent: usize) -> (r: Result<
        Option<GpuResource>,
        Error,
    >)
        ensures
            child < self@.nodes.len() && parent < self@.nodes.len() ==> (r matches Ok(d)
                && opt_res_view(d) == node_dep(
                self@.nodes[child as int],
                self@.nodes[parent as int],
            )),
            !(child < self@.nodes.len() && parent < self@.nodes.len()) ==> (r matches Err(e) && e
                == Error::NodeNotFound),
    {
        let n = node_count(&self.store);
        if child >= n || parent >= n {
            return Err(Error::NodeNotFound);
        }
        let cw = node_at(&self.store, child);
        let pw = node_at(&self.store, parent);
        let (ct, pt) = match (&cw, &pw) {
            (Node::Task(c), Node::Task(p)) => (c, p),
            _ => {
                return Ok(None);
            },
        };
        let ghost cv = ct@;
        let ghost pv = pt@;
        proof {
            assert(self@.nodes[child as int] == NodeV::Task(cv));
            assert(self@.nodes[parent as int] == NodeV::Task(pv));
        }
        let ni = ct.inputs.len();
        for i in 0..ni
            invariant
                ni == cv.inputs.len(),
                ct@ == cv,
                pt@ == pv,
                child < self@.nodes.len(),
                parent < self@.nodes.len(),
                self@.nodes[child as int] == NodeV::Task(cv),
                self@.nodes[parent as int] == NodeV::Task(pv),
                crate::task::first_dep_at(cv.inputs, pv.outputs, 0) == crate::task::first_dep_at(
                    cv.inputs,
                    pv.outputs,
                    i as int,
                ),
        {
            if holds_uid_exec(&pt.outputs, ct.inputs[i].uid()) {
                let d = ct.inputs[i].clone();
                proof {
                    assert(crate::task::first_dep_at(cv.inputs, pv.outputs, i as int) == Some(
                        cv.inputs[i as int],
                    ));
                }
                return Ok(Some(d));
            }
        }
        Ok(None)
    }

    /// Adds a task node.  For every node already present, a dependency edge
    /// is inferred in both directions independently, so that a cycle a new
    /// task introduces is detected rather than silently suppressed.  When the
    /// grown graph is cyclic the task stays inserted, the error is returned,
    /// and the graph must be discarded.
    pub fn add_task(&mut self, task: GpuTask) -> (r: Result<(), Error>)
        requires
            wf(old(self)@),
        ensures
            wf(final(self)@),
            final(self)@.nodes == old(self)@.nodes.push(NodeV::Task(task@)),
            final(self)@.edges == added_edges(
                old(self)@.nodes.push(NodeV::Task(task@)),
                old(self)@.edges,
            ),
            (r is Ok) <==> !has_cycle(final(self)@.edges),
            r matches Err(e) ==> e == Error::GraphHasCycle,
    {
        let ghost edges0 = self@.edges;
        let node = add_node(&mut self.store, Node::Task(task));
        let ghost nodes1 = self@.nodes;
        let n = node_count(&self.store);
        proof {
            assert(self@.edges =~= added_edges_upto(nodes1, edges0, node as int, 0));
        }
        for m in 0..n
            invariant
                n == nodes1.len(),
                node == n - 1,
                self@.nodes == nodes1,
                self@.edges == added_edges_upto(nodes1, edges0, node as int, m as int),
                forall|p: (int, int)| #[trigger]
                    edges0.dom().contains(p) ==> 0 <= p.0 < nodes1.len() - 1 && 0 <= p.1
                        < nodes1.len() - 1,
        {
            match self.is_dependent(node, m) {
                Ok(Some(dep)) => {
                    update_edge(&mut self.store, m, node, dep.resource.uid);
                },
                _ => {},
            }
            match self.is_dependent(m, node) {
                Ok(Some(dep)) => {
                    update_edge(&mut self.store, node, m, dep.resource.uid);
                },
                _ => {},
            }
            proof {
                assert(self@.edges =~= added_edges_upto(nodes1, edges0, node as int, m + 1));
            }
        }
        proof {
            assert(added_edges_upto(nodes1, edges0, node as int, n as int) == added_edges(
                nodes1,
                edges0,
            ));
        }
        if is_cyclic(&self.store) {
            Err(Error::GraphHasCycle)
        } else {
            Ok(())
        }
    }

    /// Synthesizes the maximal set of barrier nodes: for each task `p`, each
    /// output resource of `p`, and each task `q` that consumes that
    /// resource's UID, one fresh barrier node `b` with edges `p -> b` and
    /// `b -> q` labeled with the UID; the direct `p -> q` edge, if present,
    /// is removed.  An output no task consumes stays unprotected.  The
    /// barriers are deliberately per-consumer; merging compacts them later.
    pub fn create_barrier_nodes(&mut self)
        requires
            wf(old(self)@),
        ensures
            wf(final(self)@),
            final(self)@.nodes == cbn_nodes(
                old(self)@.nodes,
                barrier_triples(old(self)@.nodes),
            ),
            final(self)@.edges == cbn_edges(
                old(self)@.nodes,
                old(self)@.edges,
                barrier_triples(old(self)@.nodes),
            ),
    {
        let ghost nodes0 = self@.nodes;
        let ghost edges0 = self@.edges;
        let ghost mut ts: Seq<(int, int, int)> = Seq::empty();
        let n0 = node_count(&self.store);
        proof {
            assert(barrier_triples(nodes0) =~= ts + triples_p(nodes0, 0));
            assert(self@.nodes =~= cbn_nodes(nodes0, ts));
            assert(self@.edges =~= cbn_edges(nodes0, edges0, ts));
        }
        for p in 0..n0
            invariant
                n0 == nodes0.len(),
                forall|x: (int, int)| #[trigger]
                    edges0.dom().contains(x) ==> 0 <= x.0 < n0 && 0 <= x.1 < n0,
                forall|k: int|
                    0 <= k < ts.len() ==> is_triple(nodes0, #[trigger] ts[k]),
                self@.nodes == cbn_nodes(nodes0, ts),
                self@.edges == cbn_edges(nodes0, edges0, ts),
                barrier_triples(nodes0) == ts + triples_p(nodes0, p as int),
        {
            let w = node_at(&self.store, p);
            match w {
                Node::Task(t) => {
                    let ghost tv = t@;
                    proof {
                        assert(node_is_task(nodes0, p as int) && task_at(nodes0, p as int) == tv);
                        assert(barrier_triples(nodes0) =~= ts + triples_j(nodes0, p as int, 0)
                            + triples_p(nodes0, p + 1));
                    }
                    let nouts = t.outputs.len();
                    for j in 0..nouts
                        invariant
                            n0 == nodes0.len(),
                            p < n0,
                            forall|x: (int, int)| #[trigger]
                                edges0.dom().contains(x) ==> 0 <= x.0 < n0 && 0 <= x.1 < n0,
                            forall|k: int|
                                0 <= k < ts.len() ==> is_triple(nodes0, #[trigger] ts[k]),
                            t@ == tv,
                            node_is_task(nodes0, p as int),
                            task_at(nodes0, p as int) == tv,
                            nouts == tv.outputs.len(),
                            self@.nodes == cbn_nodes(nodes0, ts),
                            self@.edges == cbn_edges(nodes0, edges0, ts),
                            barrier_triples(nodes0) == ts + triples_j(nodes0, p as int, j as int)
                                + triples_p(nodes0, p + 1),
                    {
                        proof {
                            assert(barrier_triples(nodes0) =~= ts + triples_q(
                                nodes0,
                                p as int,
                                j as int,
                                0,
                            ) + triples_j(nodes0, p as int, j + 1) + triples_p(nodes0, p + 1));
                        }
                        for q in 0..n0
                            invariant
                                n0 == nodes0.len(),
                                p < n0,
                                j < nouts,
                                forall|x: (int, int)| #[trigger]
                                    edges0.dom().contains(x) ==> 0 <= x.0 < n0 && 0 <= x.1 < n0,
                                forall|k: int|
                                    0 <= k < ts.len() ==> is_triple(nodes0, #[trigger] ts[k]),
                                t@ == tv,
                                node_is_task(nodes0, p as int),
                                task_at(nodes0, p as int) == tv,
                                nouts == tv.outputs.len(),
                                self@.nodes == cbn_nodes(nodes0, ts),
                                self@.edges == cbn_edges(nodes0, edges0, ts),
                                barrier_triples(nodes0) == ts + triples_q(
                                    nodes0,
                                    p as int,
                                    j as int,
                                    q as int,
                                ) + triples_j(nodes0, p as int, j + 1) + triples_p(nodes0, p + 1),
                        {
                            let cw = node_at(&self.store, q);
                            let is_consumer = match &cw {
                                Node::Task(ct) => holds_uid_exec(&ct.inputs, t.outputs[j].uid()),
                                Node::Barrier(_) => false,
                            };
                            proof {
                                assert(is_consumer == is_triple(
                                    nodes0,
                                    (p as int, j as int, q as int),
                                ));
                            }
                            if is_consumer {
                                let barrier = GpuBarrier::new(t.outputs[j].clone());
                                let b = add_node(&mut self.store, Node::Barrier(barrier));
                                let uid1 = t.outputs[j].uid().clone();
                                let uid2 = t.outputs[j].uid().clone();
                                update_edge(&mut self.store, p, b, uid1);
                                update_edge(&mut self.store, b, q, uid2);
                                remove_edge(&mut self.store, p, q);
                                proof {
                                    let tr = (p as int, j as int, q as int);
                                    let ts1 = ts.push(tr);
                                    assert(cbn_nodes(nodes0, ts1) =~= cbn_nodes(nodes0, ts).push(
                                        triple_barrier(nodes0, tr),
                                    ));
                                    let e_cur = self@.edges;
                                    let e_target = cbn_edges(nodes0, edges0, ts1);
                                    assert forall|x: (int, int)|
                                        e_cur.dom().contains(x)
                                            == e_target.dom().contains(x) by {
                                        lemma_removed_pair_push(ts, tr, x.0, x.1);
                                    }
                                    assert forall|x: (int, int)|
                                        e_cur.dom().contains(x) implies e_cur[x]
                                        == e_target[x] by {
                                        lemma_removed_pair_push(ts, tr, x.0, x.1);
                                    }
                                    assert(e_cur =~= e_target);
                                    ts = ts1;
                                    assert(barrier_triples(nodes0) =~= ts + triples_q(
                                        nodes0,
                                        p as int,
                                        j as int,
                                        q + 1,
                                    ) + triples_j(nodes0, p as int, j + 1) + triples_p(
                                        nodes0,
                                        p + 1,
                                    ));
                                }
                            } else {
                                proof {
                                    assert(barrier_triples(nodes0) =~= ts + triples_q(
                                        nodes0,
                                        p as int,
                                        j as int,
                                        q + 1,
                                    ) + triples_j(nodes0, p as int, j + 1) + triples_p(
                                        nodes0,
                                        p + 1,
                                    ));
                                }
                            }
                        }
                    }
                },
                Node::Barrier(_) => {
                    proof {
                        assert(!node_is_task(nodes0, p as int));
                        assert(triples_j(nodes0, p as int, 0).len() == 0);
                        assert(barrier_triples(nodes0) =~= ts + triples_p(nodes0, p + 1));
                    }
                },
            }
        }
        proof {
            assert(triples_p(nodes0, n0 as int).len() == 0);
            assert(barrier_triples(nodes0) =~= ts);
            lemma_triples_p_valid(nodes0, 0);
            assert(wf(self@));
        }
    }
}

} // verus!
