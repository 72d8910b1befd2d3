//! The GPU task graph: a task graph with a synthetic source node that
//! produces every original (version-zero) input no pass writes, so that
//! start-of-frame synchronization is represented uniformly while a produced
//! original keeps its real producer.

use vstd::prelude::*;

use crate::error::Error;
use crate::graph::{
    add_node, edges_of, has_cycle, lemma_empty_acyclic, new_store, node_at, node_count, nodes_of,
    set_node, update_edge, GraphModel,
};
use crate::merge::{
    barrier_at, buid, class_access_upto, class_stage_upto, dst_of, rep_of,
    dst_ok, dst_res, is_rep, kept_edges_upto, lemma_merged_nodes_from_index,
    lemma_merged_nodes_from_len, lemma_partial_redirect_full, lemma_partial_redirect_step,
    lemma_surv_count_bounds, lemma_surv_count_split, lemma_survivor_inverse, lemma_survivor_props,
    merge_conflict, merge_pre, merged_edges, merged_len, merged_model, merged_nodes,
    merged_nodes_from,
    merged_weight, node_is_barrier, old_index, partial_redirect, redirect, redirected_edges_upto,
    removed_b, surv_count, survivor_from, usages_conflict, lemma_first_out_unique,
};
use crate::resource::{
    spec_access, spec_is_read, spec_is_source, GpuResource, GpuResourceV, ResourceUsage,
    STAGE_TOP_OF_PIPE,
};
use crate::task::{holds_uid, GpuBarrier, GpuTask, GpuTaskV, Node, NodeV};
use crate::task_graph::{
    added_edges, barrier_triples, cbn_edges, cbn_nodes, is_triple, lemma_triples_p_valid,
    node_is_task, task_at, triple_barrier, triple_uid, uid_produced, wf, TaskGraph,
};

verus! {

/// A pass as a caller declares it: a name and the virtual resources the pass
/// reads and writes.  The recording callback stays with the caller, keyed by
/// the name.
#[derive(Debug)]
pub struct Pass {
    pub name: String,
    pub inputs: Vec<GpuResource>,
    pub outputs: Vec<GpuResource>,
}

impl View for Pass {
    type V = GpuTaskV;

    open spec fn view(&self) -> GpuTaskV {
        GpuTaskV {
            identifier: self.name@,
            inputs: crate::task::resources_view(self.inputs@),
            outputs: crate::task::resources_view(self.outputs@),
        }
    }
}

/// The declaration the synthetic source node produces for one original
/// input: the same UID, used as `Nothing`, available at the top of the pipe.
pub open spec fn source_out(r: GpuResourceV) -> GpuResourceV {
    GpuResourceV { usage: ResourceUsage::Nothing, uid: r.uid, stage: STAGE_TOP_OF_PIPE }
}

/// Whether the source must produce this input: it is an original
/// (version-zero) resource that no task of the graph produces.  An input
/// some pass already writes keeps that pass as its producer.
pub open spec fn needs_source(nodes: Seq<NodeV>, r: GpuResourceV) -> bool {
    spec_is_source(r.uid) && !uid_produced(nodes, r.uid)
}

/// The declarations the source node gains from the first `i` inputs of a
/// pass: one `source_out` per original input without a producer, in order.
pub open spec fn source_additions_upto(
    nodes: Seq<NodeV>,
    inputs: Seq<GpuResourceV>,
    i: int,
) -> Seq<GpuResourceV>
    decreases i,
{
    if i <= 0 {
        Seq::empty()
    } else {
        source_additions_upto(nodes, inputs, i - 1) + (if needs_source(nodes, inputs[i - 1]) {
            seq![source_out(inputs[i - 1])]
        } else {
            Seq::empty()
        })
    }
}

/// The declarations the source node gains from all inputs of a pass.
pub open spec fn source_additions(nodes: Seq<NodeV>, inputs: Seq<GpuResourceV>) -> Seq<
    GpuResourceV,
> {
    source_additions_upto(nodes, inputs, inputs.len() as int)
}

/// The nodes of a model after the source node's outputs grew by `added`.
pub open spec fn with_source_outputs(m: GraphModel, added: Seq<GpuResourceV>) -> Seq<NodeV> {
    let src = m.nodes[0]->Task_0;
    m.nodes.update(
        0,
        NodeV::Task(
            GpuTaskV {
                identifier: src.identifier,
                inputs: src.inputs,
                outputs: src.outputs + added,
            },
        ),
    )
}

/// The nodes of a model after a pass was added: the source node grew one
/// output per original input of the pass, and the pass itself was appended.
pub open spec fn add_pass_nodes(m: GraphModel, p: GpuTaskV) -> Seq<NodeV> {
    with_source_outputs(m, source_additions(m.nodes, p.inputs)).push(NodeV::Task(p))
}




/// Whether another task outputs the given UID with a non-read usage that
/// differs from `u`.
pub open spec fn output_conflicts(
    nodes: Seq<NodeV>,
    p1: int,
    uid: Seq<char>,
    u: ResourceUsage,
) -> bool {
    exists|p2: int, j2: int|
        #![trigger task_at(nodes, p2).outputs[j2]]
        node_is_task(nodes, p2) && p2 != p1 && 0 <= j2 < task_at(nodes, p2).outputs.len()
            && task_at(nodes, p2).outputs[j2].uid == uid && !spec_is_read(
            task_at(nodes, p2).outputs[j2].usage,
        ) && task_at(nodes, p2).outputs[j2].usage != u
}

/// Two tasks write the same resource UID with incompatible, non-read usages:
/// two concurrent writers of one resource identity, which no barrier can
/// serialize.
pub open spec fn producer_conflict(nodes: Seq<NodeV>) -> bool {
    exists|p1: int, j1: int|
        #![trigger task_at(nodes, p1).outputs[j1]]
        node_is_task(nodes, p1) && 0 <= j1 < task_at(nodes, p1).outputs.len() && !spec_is_read(
            task_at(nodes, p1).outputs[j1].usage,
        ) && output_conflicts(
            nodes,
            p1,
            task_at(nodes, p1).outputs[j1].uid,
            task_at(nodes, p1).outputs[j1].usage,
        )
}

/// Every node is a task: the state of a populated graph before `build`.
pub open spec fn all_tasks(m: GraphModel) -> bool {
    forall|i: int| 0 <= i < m.nodes.len() ==> m.nodes[i] is Task
}

/// The model after barrier synthesis.
pub open spec fn cbn_model(m: GraphModel) -> GraphModel {
    GraphModel {
        nodes: cbn_nodes(m.nodes, barrier_triples(m.nodes)),
        edges: cbn_edges(m.nodes, m.edges, barrier_triples(m.nodes)),
    }
}

/// The model after the whole build: barrier synthesis, then merging.
pub open spec fn built_model(m: GraphModel) -> GraphModel {
    merged_model(cbn_model(m))
}

/// Barrier synthesis on a graph of tasks establishes what merging requires:
/// each synthesized barrier has exactly one outgoing edge, it reaches the
/// consumer task of its triple, and that task declares an input with the
/// barrier's UID.
pub proof fn lemma_cbn_merge_pre(m0: GraphModel)
    requires
        wf(m0),
        all_tasks(m0),
    ensures
        merge_pre(cbn_model(m0)),
{
    let m1 = cbn_model(m0);
    let ts = barrier_triples(m0.nodes);
    let n0 = m0.nodes.len() as int;
    lemma_triples_p_valid(m0.nodes, 0);
    assert(m1.nodes.len() == n0 + ts.len());
    assert forall|x: (int, int)| #[trigger]
        m1.edges.dom().contains(x) implies 0 <= x.0 < m1.nodes.len() && 0 <= x.1
        < m1.nodes.len() by {
        if m0.edges.dom().contains(x) {
        }
    }
    assert(wf(m1));
    assert forall|i: int| node_is_barrier(m1.nodes, i) implies {
        let q = #[trigger] dst_of(m1, i);
        &&& q < m1.nodes.len()
        &&& m1.nodes[q] is Task
        &&& holds_uid(task_at(m1.nodes, q).inputs, buid(m1.nodes, i))
    } by {
        assert(i >= n0);
        let k = i - n0;
        let t = ts[k];
        let qq = t.2;
        assert(is_triple(m0.nodes, t));
        assert(m1.nodes[i] == triple_barrier(m0.nodes, t));
        assert(m1.edges.dom().contains((i, qq)));
        assert forall|q: int| #[trigger] m1.edges.dom().contains((i, q)) implies q == qq by {
            assert(!m0.edges.dom().contains((i, q)));
        }
        lemma_first_out_unique(m1, i, qq, 0);
        assert(dst_of(m1, i) == qq);
        assert(m1.nodes[qq] == m0.nodes[qq]);
        assert(task_at(m1.nodes, qq) == task_at(m0.nodes, qq));
        assert(buid(m1.nodes, i) == triple_uid(m0.nodes, t));
    }
}

/// Instantiates, for every in-range pair of new indices, the facts that the
/// compaction mapping is a bijection between survivors and new indices.
proof fn surv_props(m: GraphModel)
    ensures
        forall|x: int|
            0 <= x < merged_len(m) ==> {
                &&& 0 <= #[trigger] old_index(m, x) < m.nodes.len()
                &&& !removed_b(m, old_index(m, x))
                &&& surv_count(m, 0, old_index(m, x)) == x
            },
{
    assert forall|x: int| 0 <= x < merged_len(m) implies {
        &&& 0 <= #[trigger] old_index(m, x) < m.nodes.len()
        &&& !removed_b(m, old_index(m, x))
        &&& surv_count(m, 0, old_index(m, x)) == x
    } by {
        lemma_survivor_props(m, 0, x);
    }
}

/// A scan step of the redirect pass that adds nothing keeps the partial
/// redirects unchanged.
proof fn redirect_skip(m: GraphModel, i: int, k: int)
    requires
        k >= 0,
        !(removed_b(m, k) && buid(m.nodes, k) == buid(m.nodes, i)),
    ensures
        forall|b3: int| partial_redirect(m, i, k + 1, b3) == partial_redirect(m, i, k, b3),
{
    assert forall|b3: int| partial_redirect(m, i, k + 1, b3) == partial_redirect(
        m,
        i,
        k,
        b3,
    ) by {
        lemma_partial_redirect_step(m, i, k, b3);
    }
}

/// A task graph over GPU passes, owning a synthetic source task under a
/// stable index.
pub struct GpuTaskGraph {
    pub(crate) graph: TaskGraph,
    pub(crate) source: usize,
}

impl View for GpuTaskGraph {
    type V = GraphModel;

    closed spec fn view(&self) -> GraphModel {
        self.graph@
    }
}

impl GpuTaskGraph {
    /// The index of the synthetic source node.
    pub closed spec fn source_index(&self) -> int {
        self.source as int
    }

    /// The internal invariant every operation preserves: the model is
    /// well-formed, and the synthetic source sits at index zero and is a
    /// task.  `new` establishes it; each method requires and maintains it.
    pub closed spec fn inv(&self) -> bool {
        &&& wf(self@)
        &&& self.source == 0
        &&& self@.nodes.len() > 0
        &&& self@.nodes[0] is Task
    }

    /// Creates a graph holding only the synthetic source task, named
    /// `_source`, with no inputs and no outputs yet.
    pub fn new() -> (r: Self)
        ensures
            r@.nodes.len() == 1,
            r@.nodes[0] matches NodeV::Task(t) && t.identifier == "_source"@ && t.inputs.len() == 0
                && t.outputs.len() == 0,
            forall|p: (int, int)| !r@.edges.dom().contains(p),
            r.source_index() == 0,
            r.inv(),
    {
        let mut graph = TaskGraph::new();
        let task = GpuTask {
            identifier: String::from_str("_source"),
            inputs: Vec::new(),
            outputs: Vec::new(),
        };
        let ghost tv = task@;
        let res = graph.add_task(task);
        proof {
            assert(graph@.nodes.len() == 1);
            assert forall|p: (int, int)| !graph@.edges.dom().contains(p) by {
                assert(crate::task::task_dep(tv, tv) is None);
            }
            assert(graph@.edges.dom() =~= Set::<(int, int)>::empty());
            lemma_empty_acyclic(graph@.edges);
        }
        match res {
            Ok(_) => GpuTaskGraph { graph, source: 0 },
            Err(_) => {
                proof {
                    assert(false);
                }
                GpuTaskGraph { graph: TaskGraph::new(), source: 0 }
            },
        }
    }

    /// Adds a pass.  Every original (version-zero) input of the pass that no
    /// task yet produces is first pushed onto the source node's outputs,
    /// making the source its producer; the pass is then inserted with
    /// dependency inference.  On a cycle the error is returned and the graph
    /// must be discarded.
    pub fn add_pass(&mut self, pass: Pass) -> (r: Result<(), Error>)
        requires
            old(self).inv(),
        ensures
            final(self).inv(),
            final(self)@.nodes == add_pass_nodes(old(self)@, pass@),
            final(self)@.edges == added_edges(
                add_pass_nodes(old(self)@, pass@),
                old(self)@.edges,
            ),
            (r is Ok) <==> !has_cycle(final(self)@.edges),
            r matches Err(e) ==> e == Error::GraphHasCycle,
            final(self).source_index() == old(self).source_index(),
    {
        let ghost m0 = self@;
        let ghost pv = pass@;
        let src_w = node_at(&self.graph.store, self.source);
        let mut src_task = match src_w {
            Node::Task(t) => t,
            Node::Barrier(_) => {
                proof {
                    assert(false);
                }
                return Err(Error::NodeNotFound);
            },
        };
        let ni = pass.inputs.len();
        for i in 0..ni
            invariant
                self@ == m0,
                ni == pv.inputs.len(),
                pass@ == pv,
                pass.inputs@.len() == ni,
                m0.nodes.len() > 0,
                m0.nodes[0] is Task,
                src_task@.identifier == m0.nodes[0]->Task_0.identifier,
                src_task@.inputs == m0.nodes[0]->Task_0.inputs,
                src_task@.outputs == m0.nodes[0]->Task_0.outputs + source_additions_upto(
                    m0.nodes,
                    pv.inputs,
                    i as int,
                ),
        {
            let is_src = pass.inputs[i].resource.is_source();
            let inject = is_src && !self.graph.produces_uid(pass.inputs[i].uid());
            if inject {
                let vr = pass.inputs[i].resource.clone();
                src_task.outputs.push(
                    GpuResource {
                        usage: ResourceUsage::Nothing,
                        resource: vr,
                        stage: STAGE_TOP_OF_PIPE,
                    },
                );
            }
            proof {
                let before = source_additions_upto(m0.nodes, pv.inputs, i as int);
                let step = if needs_source(m0.nodes, pv.inputs[i as int]) {
                    seq![source_out(pv.inputs[i as int])]
                } else {
                    Seq::<GpuResourceV>::empty()
                };
                assert(source_additions_upto(m0.nodes, pv.inputs, i + 1) == before + step);
                assert(pv.inputs[i as int].uid == pass.inputs@[i as int].resource.uid@);
                assert(inject == needs_source(m0.nodes, pv.inputs[i as int]));
                if inject {
                    assert(src_task@.outputs =~= (m0.nodes[0]->Task_0.outputs + before).push(
                        source_out(pv.inputs[i as int]),
                    ));
                } else {
                    assert(src_task@.outputs == m0.nodes[0]->Task_0.outputs + before);
                }
                assert(src_task@.outputs =~= m0.nodes[0]->Task_0.outputs + source_additions_upto(
                    m0.nodes,
                    pv.inputs,
                    i + 1,
                ));
            }
        }
        set_node(&mut self.graph.store, self.source, Node::Task(src_task));
        proof {
            assert(self@.edges == m0.edges);
            assert(self@.nodes.len() == m0.nodes.len());
            assert(wf(m0));
            assert(self@.nodes =~= with_source_outputs(
                m0,
                source_additions(m0.nodes, pv.inputs),
            ));
            assert(wf(self@));
        }
        let r = self.graph.add_task(
            GpuTask { identifier: pass.name, inputs: pass.inputs, outputs: pass.outputs },
        );
        proof {
            assert(self@.nodes =~= add_pass_nodes(m0, pv));
        }
        r
    }

    /// The task graph built so far, for a recorder or a textual dump.
    pub fn task_graph(&self) -> (r: &TaskGraph)
        ensures
            r@ == self@,
    {
        &self.graph
    }

    /// The number of nodes in the graph.
    pub fn num_nodes(&self) -> (n: usize)
        ensures
            n == self@.nodes.len(),
    {
        self.graph.num_nodes()
    }

    /// The stable index of the synthetic source node.
    pub fn source(&self) -> (i: usize)
        ensures
            i == self.source_index(),
    {
        self.source
    }

    /// Merges barriers that guard the same resource UID.  The first barrier
    /// of each class survives and accumulates, by bitwise OR, the destination
    /// stage and access of every class member's consumer; it gains an edge to
    /// each of those consumers; the other members are removed and the
    /// surviving nodes are compacted in order.  When two members of one class
    /// reach consumers whose usages both write but differ, the graph cannot
    /// be serialized: `IllegalTaskGraph` is returned and nothing changes.
    pub fn merge_identical_barriers(&mut self) -> (r: Result<(), Error>)
        requires
            old(self).inv(),
            merge_pre(old(self)@),
        ensures
            final(self).inv(),
            final(self).source_index() == old(self).source_index(),
            match r {
                Ok(_) => !merge_conflict(old(self)@) && final(self)@ == merged_model(old(self)@),
                Err(e) => e == Error::IllegalTaskGraph && merge_conflict(old(self)@)
                    && final(self)@ == old(self)@,
            },
    {
        let ghost m = self@;
        let n = node_count(&self.graph.store);

        // Conflict detection: every class member is held against the class
        // representative.  Nothing is mutated before this pass completes.
        for i in 0..n
            invariant
                self@ == m,
                old(self).inv(),
                self.inv(),
                merge_pre(m),
                n == m.nodes.len(),
                forall|i2: int, k2: int|
                    0 <= i2 < i && is_rep(m.nodes, i2) && node_is_barrier(m.nodes, k2) && k2 != i2
                        && buid(m.nodes, k2) == buid(m.nodes, i2) ==> !usages_conflict(
                        #[trigger] dst_res(m, i2),
                        #[trigger] dst_res(m, k2),
                    ),
        {
            let w = node_at(&self.graph.store, i);
            match &w {
                Node::Barrier(bi) => {
                    let rep = Self::first_barrier_index(&self.graph, bi.resource.uid());
                    proof {
                        assert(m.nodes[i as int] == NodeV::Barrier(bi@));
                        assert(rep == rep_of(m.nodes, i as int));
                    }
                    if rep == i {
                        proof {
                            assert(is_rep(m.nodes, i as int));
                            assert(dst_ok(m, i as int));
                        }
                        let di = match Self::barrier_dst_resource(&self.graph, i) {
                            Ok(d) => d,
                            Err(_) => {
                                proof {
                                    assert(false);
                                }
                                return Err(Error::NodeNotFound);
                            },
                        };
                        for k in 0..n
                            invariant
                                self@ == m,
                                old(self).inv(),
                                self.inv(),
                                merge_pre(m),
                                n == m.nodes.len(),
                                i < n,
                                is_rep(m.nodes, i as int),
                                m.nodes[i as int] == NodeV::Barrier(bi@),
                                buid(m.nodes, i as int) == bi.resource@.uid,
                                di@ == dst_res(m, i as int),
                                forall|i2: int, k2: int|
                                    0 <= i2 < i && is_rep(m.nodes, i2) && node_is_barrier(
                                        m.nodes,
                                        k2,
                                    ) && k2 != i2 && buid(m.nodes, k2) == buid(m.nodes, i2)
                                        ==> !usages_conflict(
                                        #[trigger] dst_res(m, i2),
                                        #[trigger] dst_res(m, k2),
                                    ),
                                forall|k2: int|
                                    0 <= k2 < k && #[trigger] node_is_barrier(m.nodes, k2) && k2
                                        != i && buid(m.nodes, k2) == buid(m.nodes, i as int)
                                        ==> !usages_conflict(
                                        dst_res(m, i as int),
                                        dst_res(m, k2),
                                    ),
                        {
                            if k != i {
                                let wk = node_at(&self.graph.store, k);
                                match &wk {
                                    Node::Barrier(bk) => {
                                        if bk.resource.uid().eq(bi.resource.uid()) {
                                            proof {
                                                assert(m.nodes[k as int] == NodeV::Barrier(bk@));
                                                assert(buid(m.nodes, k as int) == buid(
                                                    m.nodes,
                                                    i as int,
                                                ));
                                                assert(dst_ok(m, k as int));
                                            }
                                            let dk = match Self::barrier_dst_resource(
                                                &self.graph,
                                                k,
                                            ) {
                                                Ok(d) => d,
                                                Err(_) => {
                                                    proof {
                                                        assert(false);
                                                    }
                                                    return Err(Error::NodeNotFound);
                                                },
                                            };
                                            if !dk.usage.is_read() && !di.usage.is_read()
                                                && !(dk.usage == di.usage) {
                                                proof {
                                                    assert(is_rep(m.nodes, i as int)
                                                        && node_is_barrier(m.nodes, k as int) && k
                                                        != i && buid(m.nodes, k as int) == buid(
                                                        m.nodes,
                                                        i as int,
                                                    ) && usages_conflict(
                                                        dst_res(m, i as int),
                                                        dst_res(m, k as int),
                                                    ));
                                                }
                                                return Err(Error::IllegalTaskGraph);
                                            }
                                        }
                                    },
                                    Node::Task(_) => {},
                                }
                            }
                        }
                    }
                },
                Node::Task(_) => {},
            }
        }
        proof {
            if merge_conflict(m) {
                let (i, k) = choose|i: int, k: int|
                    is_rep(m.nodes, i) && node_is_barrier(m.nodes, k) && k != i && buid(
                        m.nodes,
                        k,
                    ) == buid(m.nodes, i) && usages_conflict(dst_res(m, i), dst_res(m, k));
                assert(0 <= i < n);
                assert(false);
            }
        }

        // Which barriers are folded away: every non-representative.
        let mut removed: Vec<bool> = Vec::new();
        for i in 0..n
            invariant
                self@ == m,
                self.inv(),
                n == m.nodes.len(),
                removed@.len() == i,
                forall|k: int| 0 <= k < i ==> removed@[k] == removed_b(m, k),
        {
            let w = node_at(&self.graph.store, i);
            match &w {
                Node::Barrier(b) => {
                    let rep = Self::first_barrier_index(&self.graph, b.resource.uid());
                    proof {
                        assert(m.nodes[i as int] == NodeV::Barrier(b@));
                        assert(rep == rep_of(m.nodes, i as int));
                    }
                    removed.push(rep != i);
                },
                Node::Task(_) => {
                    proof {
                        assert(!removed_b(m, i as int));
                    }
                    removed.push(false);
                },
            }
        }

        // Rebuild the surviving nodes in order, recording each old node's new
        // index; a representative's destination fields take the accumulated
        // bits of its class.
        let mut ns = new_store();
        let mut remap: Vec<usize> = Vec::new();
        for i in 0..n
            invariant
                self@ == m,
                self.inv(),
                merge_pre(m),
                n == m.nodes.len(),
                removed@.len() == n,
                forall|k: int| 0 <= k < n ==> removed@[k] == removed_b(m, k),
                remap@.len() == i,
                forall|k: int| 0 <= k < i ==> remap@[k] == surv_count(m, 0, k),
                nodes_of(ns).len() == surv_count(m, 0, i as int),
                merged_nodes(m) == nodes_of(ns) + merged_nodes_from(m, i as int),
                forall|x: (int, int)| !edges_of(ns).dom().contains(x),
        {
            let pos = node_count(&ns);
            remap.push(pos);
            proof {
                lemma_surv_count_split(m, 0, i as int, i + 1);
                assert(surv_count(m, i + 1, i + 1) == 0);
                assert(surv_count(m, i as int, i + 1) == (if removed_b(m, i as int) {
                    0int
                } else {
                    1int
                }));
            }
            if !removed[i] {
                let w = node_at(&self.graph.store, i);
                match &w {
                    Node::Task(_) => {
                        add_node(&mut ns, w);
                        proof {
                            assert(merged_weight(m, i as int) == m.nodes[i as int]);
                        }
                    },
                    Node::Barrier(b) => {
                        let ghost uidv = buid(m.nodes, i as int);
                        let mut stage: u64 = 0;
                        let mut access: u64 = 0;
                        for k in 0..n
                            invariant
                                self@ == m,
                                self.inv(),
                                merge_pre(m),
                                n == m.nodes.len(),
                                i < n,
                                m.nodes[i as int] is Barrier,
                                b.resource@ == barrier_at(m.nodes, i as int).resource,
                                uidv == buid(m.nodes, i as int),
                                stage == class_stage_upto(m, uidv, k as int),
                                access == class_access_upto(m, uidv, k as int),
                        {
                            let ghost stage0 = stage;
                            let ghost access0 = access;
                            let wk = node_at(&self.graph.store, k);
                            match &wk {
                                Node::Barrier(bk) => {
                                    if bk.resource.uid().eq(b.resource.uid()) {
                                        proof {
                                            assert(m.nodes[k as int] == NodeV::Barrier(bk@));
                                            assert(buid(m.nodes, k as int) == uidv);
                                            assert(dst_ok(m, k as int));
                                        }
                                        let dk = match Self::barrier_dst_resource(
                                            &self.graph,
                                            k,
                                        ) {
                                            Ok(d) => d,
                                            Err(_) => {
                                                proof {
                                                    assert(false);
                                                }
                                                return Err(Error::NodeNotFound);
                                            },
                                        };
                                        stage = stage | dk.stage;
                                        access = access | dk.usage.access();
                                        proof {
                                            assert(dk@ == dst_res(m, k as int));
                                            assert(class_stage_upto(m, uidv, k + 1) == stage0
                                                | dst_res(m, k as int).stage);
                                            assert(class_access_upto(m, uidv, k + 1) == access0
                                                | spec_access(dst_res(m, k as int).usage));
                                        }
                                    } else {
                                        proof {
                                            assert(m.nodes[k as int] == NodeV::Barrier(bk@));
                                            assert(buid(m.nodes, k as int) != uidv);
                                            assert(class_stage_upto(m, uidv, k + 1) == stage0
                                                | 0u64);
                                            assert(class_access_upto(m, uidv, k + 1) == access0
                                                | 0u64);
                                            assert(stage0 | 0u64 == stage0) by (bit_vector);
                                            assert(access0 | 0u64 == access0) by (bit_vector);
                                        }
                                    }
                                },
                                Node::Task(_) => {
                                    proof {
                                        assert(!node_is_barrier(m.nodes, k as int));
                                        assert(class_stage_upto(m, uidv, k + 1) == stage0 | 0u64);
                                        assert(class_access_upto(m, uidv, k + 1) == access0
                                            | 0u64);
                                        assert(stage0 | 0u64 == stage0) by (bit_vector);
                                        assert(access0 | 0u64 == access0) by (bit_vector);
                                    }
                                },
                            }
                        }
                        let nb = GpuBarrier {
                            resource: b.resource.clone(),
                            src_access: b.src_access,
                            src_stage: b.src_stage,
                            dst_stage: stage,
                            dst_access: access,
                        };
                        add_node(&mut ns, Node::Barrier(nb));
                        proof {
                            assert(Node::Barrier(nb)@ == merged_weight(m, i as int));
                        }
                    },
                }
                proof {
                    assert(merged_nodes_from(m, i as int) == seq![merged_weight(m, i as int)]
                        + merged_nodes_from(m, i + 1));
                    assert(merged_nodes(m) =~= nodes_of(ns) + merged_nodes_from(m, i + 1));
                }
            } else {
                proof {
                    assert(merged_nodes_from(m, i as int) == merged_nodes_from(m, i + 1));
                }
            }
        }
        proof {
            lemma_merged_nodes_from_len(m, 0);
            assert forall|x: (int, int)|
                0 <= x.0 < merged_len(m) && 0 <= x.1 < merged_len(m) implies {
                &&& 0 <= old_index(m, x.0) < n
                &&& 0 <= old_index(m, x.1) < n
                &&& !removed_b(m, old_index(m, x.0))
                &&& !removed_b(m, old_index(m, x.1))
                &&& surv_count(m, 0, old_index(m, x.0)) == x.0
                &&& surv_count(m, 0, old_index(m, x.1)) == x.1
            } by {
                lemma_survivor_props(m, 0, x.0);
                lemma_survivor_props(m, 0, x.1);
            }
            assert(edges_of(ns) =~= kept_edges_upto(m, 0, 0));
        }

        // Copy each edge between two survivors, relocated to the new indices.
        for a in 0..n
            invariant
                self@ == m,
                self.inv(),
                merge_pre(m),
                n == m.nodes.len(),
                removed@.len() == n,
                forall|k: int| 0 <= k < n ==> removed@[k] == removed_b(m, k),
                remap@.len() == n,
                forall|k: int| 0 <= k < n ==> remap@[k] == surv_count(m, 0, k),
                nodes_of(ns) == merged_nodes(m),
                nodes_of(ns).len() == merged_len(m),
                edges_of(ns) == kept_edges_upto(m, a as int, 0),
        {
            proof {
                surv_props(m);
            }
            if !removed[a] {
                for b2 in 0..n
                    invariant
                        self@ == m,
                        self.inv(),
                        merge_pre(m),
                        n == m.nodes.len(),
                        a < n,
                        !removed_b(m, a as int),
                        removed@.len() == n,
                        forall|k: int| 0 <= k < n ==> removed@[k] == removed_b(m, k),
                        remap@.len() == n,
                        forall|k: int| 0 <= k < n ==> remap@[k] == surv_count(m, 0, k),
                        nodes_of(ns) == merged_nodes(m),
                        nodes_of(ns).len() == merged_len(m),
                        edges_of(ns) == kept_edges_upto(m, a as int, b2 as int),
                {
                    proof {
                        surv_props(m);
                        lemma_survivor_inverse(m, 0, a as int);
                        lemma_surv_count_split(m, 0, a as int, n as int);
                        lemma_surv_count_bounds(m, 0, a as int);
                        lemma_surv_count_bounds(m, a + 1, n as int);
                        assert(surv_count(m, a as int, n as int) == 1 + surv_count(
                            m,
                            a + 1,
                            n as int,
                        ));
                    }
                    if !removed[b2] {
                        proof {
                            lemma_survivor_inverse(m, 0, b2 as int);
                            lemma_surv_count_split(m, 0, b2 as int, n as int);
                            lemma_surv_count_bounds(m, 0, b2 as int);
                            lemma_surv_count_bounds(m, b2 + 1, n as int);
                            assert(surv_count(m, b2 as int, n as int) == 1 + surv_count(
                                m,
                                b2 + 1,
                                n as int,
                            ));
                        }
                        match self.graph.edge(a, b2) {
                            Some(l) => {
                                update_edge(&mut ns, remap[a], remap[b2], l);
                                proof {
                                    assert(edges_of(ns) =~= kept_edges_upto(
                                        m,
                                        a as int,
                                        b2 + 1,
                                    ));
                                }
                            },
                            None => {
                                proof {
                                    assert(edges_of(ns) =~= kept_edges_upto(
                                        m,
                                        a as int,
                                        b2 + 1,
                                    ));
                                }
                            },
                        }
                    } else {
                        proof {
                            assert(edges_of(ns) =~= kept_edges_upto(m, a as int, b2 + 1));
                        }
                    }
                }
                proof {
                    surv_props(m);
                    assert(edges_of(ns) =~= kept_edges_upto(m, a + 1, 0));
                }
            } else {
                proof {
                    assert(edges_of(ns) =~= kept_edges_upto(m, a + 1, 0));
                }
            }
        }

        // Redirect: each representative inherits an edge to the consumer of
        // every removed member of its class, labeled with the class UID.
        proof {
            surv_props(m);
            assert(edges_of(ns) =~= redirected_edges_upto(m, 0, 0));
        }
        for i in 0..n
            invariant
                self@ == m,
                self.inv(),
                merge_pre(m),
                n == m.nodes.len(),
                removed@.len() == n,
                forall|k: int| 0 <= k < n ==> removed@[k] == removed_b(m, k),
                remap@.len() == n,
                forall|k: int| 0 <= k < n ==> remap@[k] == surv_count(m, 0, k),
                nodes_of(ns) == merged_nodes(m),
                nodes_of(ns).len() == merged_len(m),
                edges_of(ns) == redirected_edges_upto(m, i as int, 0),
        {
            let w = node_at(&self.graph.store, i);
            match &w {
                Node::Barrier(bi) => {
                    let rep = Self::first_barrier_index(&self.graph, bi.resource.uid());
                    proof {
                        assert(m.nodes[i as int] == NodeV::Barrier(bi@));
                        assert(rep == rep_of(m.nodes, i as int));
                    }
                    if rep == i {
                        for k in 0..n
                            invariant
                                self@ == m,
                                self.inv(),
                                merge_pre(m),
                                n == m.nodes.len(),
                                i < n,
                                is_rep(m.nodes, i as int),
                                m.nodes[i as int] == NodeV::Barrier(bi@),
                                buid(m.nodes, i as int) == bi.resource@.uid,
                                removed@.len() == n,
                                forall|k2: int| 0 <= k2 < n ==> removed@[k2] == removed_b(m, k2),
                                remap@.len() == n,
                                forall|k2: int|
                                    0 <= k2 < n ==> remap@[k2] == surv_count(m, 0, k2),
                                nodes_of(ns) == merged_nodes(m),
                                nodes_of(ns).len() == merged_len(m),
                                edges_of(ns) == redirected_edges_upto(m, i as int, k as int),
                        {
                            if removed[k] {
                                let wk = node_at(&self.graph.store, k);
                                match &wk {
                                    Node::Barrier(bk) => {
                                        if bk.resource.uid().eq(bi.resource.uid()) {
                                            proof {
                                                assert(m.nodes[k as int] == NodeV::Barrier(bk@));
                                                assert(buid(m.nodes, k as int) == buid(
                                                    m.nodes,
                                                    i as int,
                                                ));
                                                assert(dst_ok(m, k as int));
                                            }
                                            let t = Self::barrier_dst_index(&self.graph, k);
                                            proof {
                                                surv_props(m);
                                                assert(t < n && m.nodes[t as int] is Task);
                                                assert(!removed_b(m, t as int));
                                                assert(!removed_b(m, i as int));
                                                lemma_survivor_inverse(m, 0, i as int);
                                                lemma_survivor_inverse(m, 0, t as int);
                                                lemma_surv_count_split(m, 0, i as int, n as int);
                                                lemma_surv_count_bounds(m, 0, i as int);
                                                lemma_surv_count_bounds(m, i + 1, n as int);
                                                assert(surv_count(m, i as int, n as int) == 1
                                                    + surv_count(m, i + 1, n as int));
                                                lemma_surv_count_split(m, 0, t as int, n as int);
                                                lemma_surv_count_bounds(m, 0, t as int);
                                                lemma_surv_count_bounds(m, t + 1, n as int);
                                                assert(surv_count(m, t as int, n as int) == 1
                                                    + surv_count(m, t + 1, n as int));
                                            }
                                            let lab = bk.resource.uid().clone();
                                            update_edge(&mut ns, remap[i], remap[t], lab);
                                            proof {
                                                assert forall|b3: int|
                                                    partial_redirect(m, i as int, k + 1, b3)
                                                        == (partial_redirect(m, i as int, k as int, b3)
                                                        || (removed_b(m, k as int) && buid(
                                                        m.nodes,
                                                        k as int,
                                                    ) == buid(m.nodes, i as int) && dst_of(
                                                        m,
                                                        k as int,
                                                    ) == b3)) by {
                                                    lemma_partial_redirect_step(
                                                        m,
                                                        i as int,
                                                        k as int,
                                                        b3,
                                                    );
                                                }
                                                let e_cur = edges_of(ns);
                                                let e_tgt = redirected_edges_upto(
                                                    m,
                                                    i as int,
                                                    k + 1,
                                                );
                                                let xi = remap@[i as int] as int;
                                                let xt = remap@[t as int] as int;
                                                assert(xi == surv_count(m, 0, i as int));
                                                assert(old_index(m, xi) == i as int);
                                                assert(old_index(m, xt) == t as int);
                                                assert(0 <= xi < merged_len(m));
                                                assert(0 <= xt < merged_len(m));
                                                assert(e_cur.dom().contains((xi, xt)));
                                                assert(removed_b(m, k as int));
                                                assert(buid(m.nodes, k as int) == buid(
                                                    m.nodes,
                                                    i as int,
                                                ));
                                                assert(dst_of(m, k as int) == t as int);
                                                lemma_partial_redirect_step(
                                                    m,
                                                    i as int,
                                                    k as int,
                                                    t as int,
                                                );
                                                assert(partial_redirect(
                                                    m,
                                                    i as int,
                                                    k + 1,
                                                    t as int,
                                                ));
                                                assert(e_tgt.dom().contains((xi, xt)));
                                                assert(e_cur[(xi, xt)] == e_tgt[(xi, xt)]);
                                                assert(e_cur.dom() =~= e_tgt.dom());
                                                assert forall|x: (int, int)|
                                                    e_tgt.dom().contains(x) implies e_cur[x]
                                                    == e_tgt[x] by {
                                                    assert(e_cur.dom().contains(x));
                                                }
                                                assert(e_cur =~= e_tgt);
                                            }
                                        } else {
                                            proof {
                                                assert(m.nodes[k as int] == NodeV::Barrier(bk@));
                                                redirect_skip(m, i as int, k as int);
                                                assert(edges_of(ns) =~= redirected_edges_upto(
                                                    m,
                                                    i as int,
                                                    k + 1,
                                                ));
                                            }
                                        }
                                    },
                                    Node::Task(_) => {
                                        proof {
                                            redirect_skip(m, i as int, k as int);
                                            assert(edges_of(ns) =~= redirected_edges_upto(
                                                m,
                                                i as int,
                                                k + 1,
                                            ));
                                        }
                                    },
                                }
                            } else {
                                proof {
                                    redirect_skip(m, i as int, k as int);
                                    assert(edges_of(ns) =~= redirected_edges_upto(
                                        m,
                                        i as int,
                                        k + 1,
                                    ));
                                }
                            }
                        }
                        proof {
                            surv_props(m);
                            assert forall|b3: int|
                                partial_redirect(m, i as int, n as int, b3) == redirect(
                                m,
                                i as int,
                                b3,
                            ) by {
                                lemma_partial_redirect_full(m, i as int, b3);
                            }
                            assert(edges_of(ns) =~= redirected_edges_upto(m, i + 1, 0));
                        }
                    } else {
                        proof {
                            surv_props(m);
                            assert(!is_rep(m.nodes, i as int));
                            assert(edges_of(ns) =~= redirected_edges_upto(m, i + 1, 0));
                        }
                    }
                },
                Node::Task(_) => {
                    proof {
                        surv_props(m);
                        assert(!is_rep(m.nodes, i as int));
                        assert(edges_of(ns) =~= redirected_edges_upto(m, i + 1, 0));
                    }
                },
            }
        }
        proof {
            surv_props(m);
            assert(edges_of(ns) =~= merged_edges(m));
        }
        self.graph = TaskGraph { store: ns };
        proof {
            assert(!removed_b(m, 0));
            assert(merged_len(m) == surv_count(m, 0, 0) + surv_count(m, 0 as int, n as int)) by {
                lemma_surv_count_split(m, 0, 0, n as int);
            }
            lemma_surv_count_bounds(m, 1, n as int);
            assert(surv_count(m, 0 as int, n as int) == 1 + surv_count(m, 1, n as int));
            assert(merged_nodes(m).len() == merged_len(m)) by {
                lemma_merged_nodes_from_len(m, 0);
            }
            lemma_merged_nodes_from_index(m, 0, 0);
            assert(survivor_from(m, 0, 0) == 0);
            assert(self@.nodes[0] == merged_weight(m, 0));
            assert(wf(self@));
        }
        Ok(())
    }


    /// Whether a task other than `p1` outputs the UID with a non-read usage
    /// different from `usage`.
    fn output_conflict_exists(
        graph: &TaskGraph,
        p1: usize,
        uid: &String,
        usage: ResourceUsage,
    ) -> (r: bool)
        ensures
            r == output_conflicts(graph@.nodes, p1 as int, uid@, usage),
    {
        let n = node_count(&graph.store);
        for p2 in 0..n
            invariant
                n == graph@.nodes.len(),
                forall|p: int, j: int|
                    #![trigger task_at(graph@.nodes, p).outputs[j]]
                    0 <= p < p2 && node_is_task(graph@.nodes, p) && p != p1 && 0 <= j < task_at(
                        graph@.nodes,
                        p,
                    ).outputs.len() ==> !(task_at(graph@.nodes, p).outputs[j].uid == uid@
                        && !spec_is_read(task_at(graph@.nodes, p).outputs[j].usage) && task_at(
                        graph@.nodes,
                        p,
                    ).outputs[j].usage != usage),
        {
            if p2 != p1 {
                let w = node_at(&graph.store, p2);
                match &w {
                    Node::Task(t) => {
                        let ghost tv = t@;
                        let nj = t.outputs.len();
                        for j2 in 0..nj
                            invariant
                                n == graph@.nodes.len(),
                                p2 < n,
                                p2 != p1,
                                t@ == tv,
                                node_is_task(graph@.nodes, p2 as int),
                                task_at(graph@.nodes, p2 as int) == tv,
                                nj == tv.outputs.len(),
                                forall|j: int|
                                    0 <= j < j2 ==> !(#[trigger] tv.outputs[j].uid == uid@
                                        && !spec_is_read(tv.outputs[j].usage) && tv.outputs[j].usage
                                        != usage),
                        {
                            let o = &t.outputs[j2];
                            if o.uid().eq(uid) && !o.usage.is_read() && !(o.usage == usage) {
                                proof {
                                    assert(task_at(graph@.nodes, p2 as int).outputs[j2 as int].uid
                                        == uid@);
                                }
                                return true;
                            }
                        }
                    },
                    Node::Barrier(_) => {},
                }
            }
        }
        proof {
            if output_conflicts(graph@.nodes, p1 as int, uid@, usage) {
                let (p, j) = choose|p: int, j: int|
                    #![trigger task_at(graph@.nodes, p).outputs[j]]
                    node_is_task(graph@.nodes, p) && p != p1 as int && 0 <= j < task_at(
                        graph@.nodes,
                        p,
                    ).outputs.len() && task_at(graph@.nodes, p).outputs[j].uid == uid@
                        && !spec_is_read(task_at(graph@.nodes, p).outputs[j].usage) && task_at(
                        graph@.nodes,
                        p,
                    ).outputs[j].usage != usage;
                assert(false);
            }
        }
        false
    }

    /// Whether two tasks of the graph write one resource UID with
    /// incompatible, non-read usages.
    fn has_producer_conflict(graph: &TaskGraph) -> (r: bool)
        ensures
            r == producer_conflict(graph@.nodes),
    {
        let n = node_count(&graph.store);
        for p1 in 0..n
            invariant
                n == graph@.nodes.len(),
                forall|p: int, j: int|
                    #![trigger task_at(graph@.nodes, p).outputs[j]]
                    0 <= p < p1 && node_is_task(graph@.nodes, p) && 0 <= j < task_at(
                        graph@.nodes,
                        p,
                    ).outputs.len() ==> !(!spec_is_read(task_at(graph@.nodes, p).outputs[j].usage)
                        && output_conflicts(
                        graph@.nodes,
                        p,
                        task_at(graph@.nodes, p).outputs[j].uid,
                        task_at(graph@.nodes, p).outputs[j].usage,
                    )),
        {
            let w = node_at(&graph.store, p1);
            match &w {
                Node::Task(t) => {
                    let ghost tv = t@;
                    let nj = t.outputs.len();
                    for j1 in 0..nj
                        invariant
                            n == graph@.nodes.len(),
                            p1 < n,
                            t@ == tv,
                            node_is_task(graph@.nodes, p1 as int),
                            task_at(graph@.nodes, p1 as int) == tv,
                            nj == tv.outputs.len(),
                            forall|j: int|
                                0 <= j < j1 ==> !(!spec_is_read(#[trigger] tv.outputs[j].usage)
                                    && output_conflicts(
                                    graph@.nodes,
                                    p1 as int,
                                    tv.outputs[j].uid,
                                    tv.outputs[j].usage,
                                )),
                    {
                        let o = &t.outputs[j1];
                        if !o.usage.is_read() {
                            if Self::output_conflict_exists(graph, p1, o.uid(), o.usage) {
                                proof {
                                    assert(task_at(graph@.nodes, p1 as int).outputs[j1 as int]
                                        == tv.outputs[j1 as int]);
                                    assert(node_is_task(graph@.nodes, p1 as int) && (j1 as int)
                                        < task_at(graph@.nodes, p1 as int).outputs.len()
                                        && !spec_is_read(
                                        task_at(graph@.nodes, p1 as int).outputs[j1 as int].usage,
                                    ) && output_conflicts(
                                        graph@.nodes,
                                        p1 as int,
                                        task_at(graph@.nodes, p1 as int).outputs[j1 as int].uid,
                                        task_at(graph@.nodes, p1 as int).outputs[j1 as int].usage,
                                    ));
                                }
                                return true;
                            }
                        }
                    }
                },
                Node::Barrier(_) => {},
            }
        }
        proof {
            if producer_conflict(graph@.nodes) {
                let (p, j) = choose|p: int, j: int|
                    #![trigger task_at(graph@.nodes, p).outputs[j]]
                    node_is_task(graph@.nodes, p) && 0 <= j < task_at(graph@.nodes, p).outputs.len()
                        && !spec_is_read(task_at(graph@.nodes, p).outputs[j].usage)
                        && output_conflicts(
                        graph@.nodes,
                        p,
                        task_at(graph@.nodes, p).outputs[j].uid,
                        task_at(graph@.nodes, p).outputs[j].usage,
                    );
                assert(false);
            }
        }
        false
    }

    /// Finalizes the graph.  Two tasks writing one resource UID with
    /// incompatible, non-read usages are rejected first, with the graph
    /// unchanged; then barrier synthesis and barrier merging run.  When
    /// merging rejects the graph the synthesized barriers stay in place; an
    /// errored graph must be discarded either way.
    pub fn build(&mut self) -> (r: Result<(), Error>)
        requires
            old(self).inv(),
            all_tasks(old(self)@),
        ensures
            final(self).inv(),
            final(self).source_index() == old(self).source_index(),
            match r {
                Ok(_) => !producer_conflict(old(self)@.nodes) && !merge_conflict(
                    cbn_model(old(self)@),
                ) && final(self)@ == built_model(old(self)@),
                Err(e) => e == Error::IllegalTaskGraph && (producer_conflict(old(self)@.nodes)
                    || merge_conflict(cbn_model(old(self)@))) && final(self)@ == (
                if producer_conflict(old(self)@.nodes) {
                    old(self)@
                } else {
                    cbn_model(old(self)@)
                }),
            },
    {
        if Self::has_producer_conflict(&self.graph) {
            return Err(Error::IllegalTaskGraph);
        }
        let ghost m0 = self@;
        self.graph.create_barrier_nodes();
        proof {
            assert(self@ == cbn_model(m0));
            assert(self@.nodes[0] == m0.nodes[0]);
            lemma_cbn_merge_pre(m0);
        }
        self.merge_identical_barriers()
    }

}

} // verus!
