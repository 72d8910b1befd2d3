//! Properties of graph construction that hold beyond the contracts of the
//! individual operations.

use vstd::prelude::*;

use crate::gpu_graph::{
    add_pass_nodes, all_tasks, built_model, cbn_model, needs_source, output_conflicts,
    producer_conflict, source_additions, source_additions_upto,
};
use crate::graph::{has_cycle, lemma_self_loop_cycle, lemma_two_cycle, reaches, GraphModel};
use crate::merge::{
    buid, class_access, class_stage, dst_of, dst_res, first_barrier_with, is_rep,
    lemma_class_fold_uniform, lemma_first_out_props, lemma_first_out_unique,
    lemma_merged_nodes_from_index, lemma_merged_nodes_from_len, lemma_surv_count_bounds,
    lemma_surv_count_split, lemma_survivor_inverse, lemma_survivor_props, merge_conflict,
    merge_pre, merged_edges, merged_len, merged_model, merged_nodes, merged_weight,
    node_is_barrier, old_index, redirect, removed_b, rep_of, surv_count,
};
use crate::resource::GpuResourceV;
use crate::task::{first_dep_at, holds_uid, node_dep, GpuTaskV, NodeV};
use crate::task_graph::{
    added_edges, barrier_triples, is_triple, lemma_triples_p_valid, node_is_task, task_at,
    triple_barrier, triple_uid, triples_j, triples_p, triples_q, uid_produced, wf,
};

verus! {

/// Cycle rejection: when the pass appended to a graph depends on an existing
/// node that in turn depends on it, the inferred edges contain a cycle, so
/// `add_pass` reports `GraphHasCycle` for exactly this graph (its result is
/// `Ok` if and only if the grown edge relation is acyclic).
pub proof fn lemma_cycle_rejection(m: GraphModel, p: GpuTaskV, a: int)
    requires
        m.nodes.len() > 0,
        m.nodes[0] is Task,
        0 <= a < add_pass_nodes(m, p).len() - 1,
        node_dep(
            add_pass_nodes(m, p)[add_pass_nodes(m, p).len() - 1],
            add_pass_nodes(m, p)[a],
        ) is Some,
        node_dep(
            add_pass_nodes(m, p)[a],
            add_pass_nodes(m, p)[add_pass_nodes(m, p).len() - 1],
        ) is Some,
    ensures
        has_cycle(added_edges(add_pass_nodes(m, p), m.edges)),
{
    let nodes1 = add_pass_nodes(m, p);
    let n = nodes1.len() - 1;
    let e = added_edges(nodes1, m.edges);
    assert(e.dom().contains((a, n)));
    assert(e.dom().contains((n, a)));
    lemma_two_cycle(e, a, n);
}


/// A pass that depends on itself (an input UID it also outputs) closes a
/// one-node cycle and is rejected the same way.
pub proof fn lemma_self_dependency_rejected(m: GraphModel, p: GpuTaskV)
    requires
        m.nodes.len() > 0,
        m.nodes[0] is Task,
        node_dep(NodeV::Task(p), NodeV::Task(p)) is Some,
    ensures
        has_cycle(added_edges(add_pass_nodes(m, p), m.edges)),
{
    let nodes1 = add_pass_nodes(m, p);
    let n = nodes1.len() - 1;
    let e = added_edges(nodes1, m.edges);
    assert(nodes1[n] == NodeV::Task(p));
    assert(e.dom().contains((n, n)));
    lemma_self_loop_cycle(e, n);
}

/// Access union correctness: after merging, every surviving barrier's
/// destination stage and access masks are the bitwise OR of the stage and
/// access that each consumer reached over the barrier's resource UID had
/// declared for it.
pub proof fn lemma_access_union(m: GraphModel, x: int)
    requires
        0 <= x < merged_nodes(m).len(),
        merged_nodes(m)[x] is Barrier,
    ensures
        merged_nodes(m)[x]->Barrier_0.dst_stage == class_stage(
            m,
            merged_nodes(m)[x]->Barrier_0.resource.uid,
        ),
        merged_nodes(m)[x]->Barrier_0.dst_access == class_access(
            m,
            merged_nodes(m)[x]->Barrier_0.resource.uid,
        ),
{
    lemma_merged_nodes_from_index(m, 0, x);
    lemma_merged_nodes_from_len(m, 0);
    lemma_survivor_props(m, 0, x);
    let oi = old_index(m, x);
    if !node_is_barrier(m.nodes, oi) {
        assert(merged_nodes(m)[x] == m.nodes[oi]);
        assert(0 <= oi < m.nodes.len() && m.nodes[oi] is Barrier);
    }
    assert(node_is_barrier(m.nodes, oi));
}


/// Each UID is produced, as an output, by at most one task: the discipline
/// the versioning scheme yields, under which barrier coverage is stated.
pub open spec fn unique_producer(nodes: Seq<NodeV>) -> bool {
    forall|p1: int, j1: int, p2: int, j2: int|
        node_is_task(nodes, p1) && node_is_task(nodes, p2) && 0 <= j1 < task_at(
            nodes,
            p1,
        ).outputs.len() && 0 <= j2 < task_at(nodes, p2).outputs.len() && #[trigger] task_at(
            nodes,
            p1,
        ).outputs[j1].uid == #[trigger] task_at(nodes, p2).outputs[j2].uid ==> p1 == p2
}

/// A triple with consumer index at least `q0` occurs in the consumer scan
/// that starts there.
proof fn lemma_triples_q_complete(nodes: Seq<NodeV>, p: int, j: int, q0: int, q: int)
    requires
        0 <= q0 <= q,
        is_triple(nodes, (p, j, q)),
    ensures
        exists|k: int|
            0 <= k < triples_q(nodes, p, j, q0).len() && #[trigger] triples_q(
                nodes,
                p,
                j,
                q0,
            )[k] == (p, j, q),
    decreases q - q0,
{
    let s = triples_q(nodes, p, j, q0);
    let pre: Seq<(int, int, int)> = if is_triple(nodes, (p, j, q0)) {
        seq![(p, j, q0)]
    } else {
        Seq::empty()
    };
    let rest = triples_q(nodes, p, j, q0 + 1);
    if q0 == q {
        assert(s[0] == (p, j, q));
    } else {
        lemma_triples_q_complete(nodes, p, j, q0 + 1, q);
        let k = choose|k: int| 0 <= k < rest.len() && #[trigger] rest[k] == (p, j, q);
        assert(s[pre.len() + k] == (p, j, q));
    }
}

/// A triple with output index at least `j0` occurs in the output scan that
/// starts there.
proof fn lemma_triples_j_complete(nodes: Seq<NodeV>, p: int, j0: int, j: int, q: int)
    requires
        0 <= j0 <= j,
        is_triple(nodes, (p, j, q)),
    ensures
        exists|k: int|
            0 <= k < triples_j(nodes, p, j0).len() && #[trigger] triples_j(nodes, p, j0)[k] == (
            p,
            j,
            q,
            ),
    decreases j - j0,
{
    let s = triples_j(nodes, p, j0);
    let pre = triples_q(nodes, p, j0, 0);
    let rest = triples_j(nodes, p, j0 + 1);
    if j0 == j {
        lemma_triples_q_complete(nodes, p, j, 0, q);
        let k = choose|k: int| 0 <= k < pre.len() && #[trigger] pre[k] == (p, j, q);
        assert(s[k] == (p, j, q));
    } else {
        lemma_triples_j_complete(nodes, p, j0 + 1, j, q);
        let k = choose|k: int| 0 <= k < rest.len() && #[trigger] rest[k] == (p, j, q);
        assert(s[pre.len() + k] == (p, j, q));
    }
}

/// A triple with producer index at least `p0` occurs in the producer scan
/// that starts there.
proof fn lemma_triples_p_complete(nodes: Seq<NodeV>, p0: int, p: int, j: int, q: int)
    requires
        0 <= p0 <= p,
        is_triple(nodes, (p, j, q)),
    ensures
        exists|k: int|
            0 <= k < triples_p(nodes, p0).len() && #[trigger] triples_p(nodes, p0)[k] == (
            p,
            j,
            q,
            ),
    decreases p - p0,
{
    let s = triples_p(nodes, p0);
    let pre = triples_j(nodes, p0, 0);
    let rest = triples_p(nodes, p0 + 1);
    if p0 == p {
        lemma_triples_j_complete(nodes, p, 0, j, q);
        let k = choose|k: int| 0 <= k < pre.len() && #[trigger] pre[k] == (p, j, q);
        assert(s[k] == (p, j, q));
    } else {
        lemma_triples_p_complete(nodes, p0 + 1, p, j, q);
        let k = choose|k: int| 0 <= k < rest.len() && #[trigger] rest[k] == (p, j, q);
        assert(s[pre.len() + k] == (p, j, q));
    }
}

/// Every triple of a graph occurs among its barrier triples.
pub proof fn lemma_triples_complete(nodes: Seq<NodeV>, t: (int, int, int))
    requires
        is_triple(nodes, t),
    ensures
        exists|k: int|
            0 <= k < barrier_triples(nodes).len() && #[trigger] barrier_triples(nodes)[k] == t,
{
    lemma_triples_p_complete(nodes, 0, t.0, t.1, t.2);
    assert(t == (t.0, t.1, t.2));
    let k0 = choose|k: int|
        0 <= k < triples_p(nodes, 0).len() && #[trigger] triples_p(nodes, 0)[k] == t;
    assert(0 <= k0 < barrier_triples(nodes).len() && barrier_triples(nodes)[k0] == t);
}

/// What the scan for the first barrier guarding a UID returns: a barrier
/// guarding it, no later than any other, or the node count when none exists.
pub proof fn lemma_first_barrier_props(nodes: Seq<NodeV>, uid: Seq<char>, i0: int)
    requires
        0 <= i0,
    ensures
        first_barrier_with(nodes, uid, i0) < nodes.len() ==> {
            let f = first_barrier_with(nodes, uid, i0);
            &&& i0 <= f
            &&& nodes[f] is Barrier
            &&& buid(nodes, f) == uid
        },
        forall|w: int|
            i0 <= w < nodes.len() && nodes[w] is Barrier && #[trigger] buid(nodes, w) == uid
                ==> first_barrier_with(nodes, uid, i0) <= w,
    decreases nodes.len() - i0,
{
    if i0 < nodes.len() {
        lemma_first_barrier_props(nodes, uid, i0 + 1);
    }
}

/// In the synthesized graph over a graph of tasks, a barrier's consumer is
/// its triple's consumer.
pub proof fn lemma_cbn_dst(m0: GraphModel, i: int)
    requires
        wf(m0),
        all_tasks(m0),
        node_is_barrier(cbn_model(m0).nodes, i),
    ensures
        ({
            let m1 = cbn_model(m0);
            let ts = barrier_triples(m0.nodes);
            let n0 = m0.nodes.len() as int;
            &&& n0 <= i < n0 + ts.len()
            &&& dst_of(m1, i) == ts[i - n0].2
            &&& buid(m1.nodes, i) == triple_uid(m0.nodes, ts[i - n0])
        }),
{
    let m1 = cbn_model(m0);
    let ts = barrier_triples(m0.nodes);
    let n0 = m0.nodes.len() as int;
    lemma_triples_p_valid(m0.nodes, 0);
    assert(i >= n0);
    let k = i - n0;
    let t = ts[k];
    let qq = t.2;
    assert(is_triple(m0.nodes, t));
    assert(m1.nodes[i] == triple_barrier(m0.nodes, t));
    assert(m1.edges.dom().contains((i, qq)));
    assert forall|q: int| #[trigger] m1.edges.dom().contains((i, q)) implies q == qq by {
        assert(!m0.edges.dom().contains((i, q)));
    }
    lemma_first_out_unique(m1, i, qq, 0);
}

/// Tasks keep their indices through merging: nothing below a task index is
/// removed when the removed nodes are all synthesized barriers.
pub proof fn lemma_tasks_keep_index(m1: GraphModel, p: int)
    requires
        0 <= p <= m1.nodes.len(),
        forall|i: int| 0 <= i < p ==> !removed_b(m1, i),
    ensures
        surv_count(m1, 0, p) == p,
    decreases p,
{
    if p > 0 {
        lemma_surv_count_split(m1, 0, p - 1, p);
        lemma_tasks_keep_index(m1, p - 1);
        assert(surv_count(m1, p, p) == 0);
        assert(surv_count(m1, p - 1, p) == 1);
    }
}


/// A barrier node `c` covers the flow of `uid` from node `a` to node `b`:
/// it guards `uid` and the path `a -> c -> b` exists.
pub open spec fn barrier_covers(m: GraphModel, a: int, c: int, b: int, uid: Seq<char>) -> bool {
    &&& node_is_barrier(m.nodes, c)
    &&& buid(m.nodes, c) == uid
    &&& m.edges.dom().contains((a, c))
    &&& m.edges.dom().contains((c, b))
}

/// Any cover of `uid` in a merged graph is the new index of the class
/// representative.
proof fn lemma_cover_is_rep(m1: GraphModel, uid: Seq<char>, c: int)
    requires
        0 <= c < merged_nodes(m1).len(),
        merged_nodes(m1)[c] is Barrier,
        merged_nodes(m1)[c]->Barrier_0.resource.uid == uid,
    ensures
        old_index(m1, c) == first_barrier_with(m1.nodes, uid, 0),
        c == surv_count(m1, 0, first_barrier_with(m1.nodes, uid, 0)),
{
    lemma_merged_nodes_from_index(m1, 0, c);
    lemma_merged_nodes_from_len(m1, 0);
    lemma_survivor_props(m1, 0, c);
    let oi = old_index(m1, c);
    if !node_is_barrier(m1.nodes, oi) {
        assert(merged_nodes(m1)[c] == m1.nodes[oi]);
        assert(0 <= oi < m1.nodes.len() && m1.nodes[oi] is Barrier);
    }
    assert(node_is_barrier(m1.nodes, oi));
    assert(buid(m1.nodes, oi) == uid);
    assert(!removed_b(m1, oi));
    assert(rep_of(m1.nodes, oi) == oi);
    assert(first_barrier_with(m1.nodes, uid, 0) == oi);
}

/// Barrier coverage: after a successful build of a graph of passes in which
/// every UID has at most one producer, each pair of a producing and a
/// consuming task of one UID is connected by exactly one barrier node that
/// guards that UID.  Task nodes keep their indices through the build.
pub proof fn lemma_barrier_coverage(m0: GraphModel, a: int, j: int, b: int)
    requires
        wf(m0),
        all_tasks(m0),
        unique_producer(m0.nodes),
        !merge_conflict(cbn_model(m0)),
        node_is_task(m0.nodes, a),
        node_is_task(m0.nodes, b),
        0 <= j < task_at(m0.nodes, a).outputs.len(),
        holds_uid(task_at(m0.nodes, b).inputs, task_at(m0.nodes, a).outputs[j].uid),
    ensures
        exists|c: int|
            #[trigger] barrier_covers(
                built_model(m0),
                a,
                c,
                b,
                task_at(m0.nodes, a).outputs[j].uid,
            ),
        forall|c1: int, c2: int|
            #[trigger] barrier_covers(built_model(m0), a, c1, b, task_at(m0.nodes, a).outputs[j].uid)
                && #[trigger] barrier_covers(
                built_model(m0),
                a,
                c2,
                b,
                task_at(m0.nodes, a).outputs[j].uid,
            ) ==> c1 == c2,
{
    let m1 = cbn_model(m0);
    let ts = barrier_triples(m0.nodes);
    let n0 = m0.nodes.len() as int;
    let nn = m1.nodes.len() as int;
    let uid = task_at(m0.nodes, a).outputs[j].uid;
    let m2 = built_model(m0);

    lemma_triples_p_valid(m0.nodes, 0);
    assert(is_triple(m0.nodes, (a, j, b)));
    lemma_triples_complete(m0.nodes, (a, j, b));
    let k = choose|k: int|
        0 <= k < barrier_triples(m0.nodes).len() && #[trigger] barrier_triples(m0.nodes)[k] == (
        a,
        j,
        b,
        );
    let c1 = n0 + k;
    assert(m1.nodes[c1] == triple_barrier(m0.nodes, (a, j, b)));
    assert(node_is_barrier(m1.nodes, c1));
    assert(buid(m1.nodes, c1) == uid);

    // Tasks sit below the synthesized barriers and are never removed.
    assert forall|i: int| 0 <= i < n0 implies !removed_b(m1, i) by {
        assert(m1.nodes[i] == m0.nodes[i]);
        assert(m0.nodes[i] is Task);
    }

    // The class representative of the UID.
    lemma_first_barrier_props(m1.nodes, uid, 0);
    let r = first_barrier_with(m1.nodes, uid, 0);
    assert(r <= c1);
    assert(node_is_barrier(m1.nodes, r) && buid(m1.nodes, r) == uid);
    assert(rep_of(m1.nodes, r) == r);
    assert(!removed_b(m1, r));
    lemma_cbn_dst(m0, r);
    let kr = r - n0;
    let tr = ts[kr];
    assert(is_triple(m0.nodes, tr));
    assert(triple_uid(m0.nodes, tr) == uid);
    assert(task_at(m0.nodes, tr.0).outputs[tr.1].uid == task_at(m0.nodes, a).outputs[j].uid);
    assert(tr.0 == a);

    // New indices: tasks keep theirs, and the representative survives.
    lemma_tasks_keep_index(m1, a);
    lemma_tasks_keep_index(m1, b);
    lemma_survivor_inverse(m1, 0, a);
    lemma_survivor_inverse(m1, 0, b);
    lemma_survivor_inverse(m1, 0, r);
    let c2 = surv_count(m1, 0, r);
    lemma_surv_count_bounds(m1, 0, a);
    lemma_surv_count_bounds(m1, 0, b);
    lemma_surv_count_bounds(m1, 0, r);
    lemma_surv_count_split(m1, 0, a, nn);
    lemma_surv_count_bounds(m1, a + 1, nn);
    assert(surv_count(m1, a, nn) == 1 + surv_count(m1, a + 1, nn));
    lemma_surv_count_split(m1, 0, b, nn);
    lemma_surv_count_bounds(m1, b + 1, nn);
    assert(surv_count(m1, b, nn) == 1 + surv_count(m1, b + 1, nn));
    lemma_surv_count_split(m1, 0, r, nn);
    lemma_surv_count_bounds(m1, r + 1, nn);
    assert(surv_count(m1, r, nn) == 1 + surv_count(m1, r + 1, nn));
    assert(a < merged_len(m1) && b < merged_len(m1) && c2 < merged_len(m1));
    assert(old_index(m1, a) == a);
    assert(old_index(m1, b) == b);
    assert(old_index(m1, c2) == r);

    // The representative's node in the merged graph.
    lemma_merged_nodes_from_len(m1, 0);
    lemma_merged_nodes_from_index(m1, 0, c2);
    assert(m2.nodes[c2] == merged_weight(m1, r));
    assert(node_is_barrier(m2.nodes, c2));
    assert(buid(m2.nodes, c2) == uid);

    // The producer's edge to the representative is kept.
    assert(m1.edges.dom().contains((a, r)));
    assert(m2.edges.dom().contains((a, c2)));

    // The representative reaches the consumer: directly when it is the
    // consumer of the representative's own triple, else by redirection from
    // the removed barrier of the triple (a, j, b).
    if tr.2 == b {
        assert(m1.edges.dom().contains((r, b)));
        assert(m2.edges.dom().contains((c2, b)));
    } else {
        lemma_cbn_dst(m0, c1);
        assert(dst_of(m1, c1) == b);
        assert(dst_of(m1, r) == tr.2);
        assert(c1 != r);
        assert(rep_of(m1.nodes, c1) == r);
        assert(removed_b(m1, c1));
        assert(redirect(m1, r, b));
        assert(is_rep(m1.nodes, r));
        assert(m2.edges.dom().contains((c2, b)));
    }
    assert(barrier_covers(m2, a, c2, b, uid));

    // Uniqueness: every cover of the UID is the representative's new index.
    assert forall|ca: int, cb: int|
        #[trigger] barrier_covers(m2, a, ca, b, uid) && #[trigger] barrier_covers(
            m2,
            a,
            cb,
            b,
            uid,
        ) implies ca == cb by {
        lemma_cover_is_rep(m1, uid, ca);
        lemma_cover_is_rep(m1, uid, cb);
    }
}


/// Each barrier has a single outgoing edge: the shape barrier synthesis
/// leaves behind, in which one barrier guards one producer-consumer link.
pub open spec fn single_outgoing(m: GraphModel) -> bool {
    forall|i: int, q: int|
        node_is_barrier(m.nodes, i) && #[trigger] m.edges.dom().contains((i, q)) ==> q == dst_of(
            m,
            i,
        )
}

/// All consumers of one UID declare the same destination stage and usage for
/// it.  Merging is only idempotent under this agreement: the fold of one
/// class is then the common value, which a second merge reads back off any
/// single consumer.
pub open spec fn uniform_consumers(m: GraphModel) -> bool {
    forall|i: int, k: int|
        node_is_barrier(m.nodes, i) && node_is_barrier(m.nodes, k) && #[trigger] buid(m.nodes, i)
            == #[trigger] buid(m.nodes, k) ==> dst_res(m, i).stage == dst_res(m, k).stage
            && dst_res(m, i).usage == dst_res(m, k).usage
}

/// In a merged graph, a barrier's destination declaration agrees with the
/// destination declaration its old representative read, and its consumer is
/// again a task holding an input with the barrier's UID.
proof fn lemma_merged_flags_stable(m: GraphModel, x: int)
    requires
        merge_pre(m),
        single_outgoing(m),
        uniform_consumers(m),
        0 <= x < merged_len(m),
        node_is_barrier(merged_model(m).nodes, x),
    ensures
        ({
            let m2 = merged_model(m);
            let q2 = dst_of(m2, x);
            &&& q2 < m2.nodes.len()
            &&& m2.nodes[q2] is Task
            &&& holds_uid(task_at(m2.nodes, q2).inputs, buid(m2.nodes, x))
            &&& dst_res(m2, x).stage == dst_res(m, old_index(m, x)).stage
            &&& dst_res(m2, x).usage == dst_res(m, old_index(m, x)).usage
        }),
{
    let m2 = merged_model(m);
    let nn = m.nodes.len() as int;
    lemma_merged_nodes_from_len(m, 0);
    lemma_merged_nodes_from_index(m, 0, x);
    lemma_survivor_props(m, 0, x);
    let ox = old_index(m, x);
    if !node_is_barrier(m.nodes, ox) {
        assert(m2.nodes[x] == m.nodes[ox]);
    }
    assert(node_is_barrier(m.nodes, ox));
    let uid = buid(m.nodes, ox);
    assert(buid(m2.nodes, x) == uid);

    // The kept edge to the representative's own consumer.
    let d = dst_of(m, ox);
    assert(d < nn && m.nodes[d] is Task && holds_uid(task_at(m.nodes, d).inputs, uid));
    lemma_first_out_props(m, ox, 0);
    assert(m.edges.dom().contains((ox, d)));
    assert(!removed_b(m, d));
    lemma_survivor_inverse(m, 0, d);
    let nd = surv_count(m, 0, d);
    lemma_surv_count_bounds(m, 0, d);
    lemma_surv_count_split(m, 0, d, nn);
    lemma_surv_count_bounds(m, d + 1, nn);
    assert(surv_count(m, d, nn) == 1 + surv_count(m, d + 1, nn));
    assert(0 <= nd < merged_len(m));
    assert(old_index(m, nd) == d);
    assert(m2.edges.dom().contains((x, nd)));

    // So the merged barrier has a consumer, and every target it reaches was
    // the consumer of a member of its old class.
    lemma_first_out_props(m2, x, 0);
    assert(m2.nodes.len() == merged_len(m));
    let q2 = dst_of(m2, x);
    assert(q2 <= nd);
    assert(q2 < m2.nodes.len());
    assert(m2.edges.dom().contains((x, q2)));
    let oq = old_index(m, q2);
    lemma_survivor_props(m, 0, q2);
    let kk: int = if m.edges.dom().contains((ox, oq)) {
        ox
    } else {
        choose|k2: int|
            #[trigger] removed_b(m, k2) && buid(m.nodes, k2) == buid(m.nodes, ox) && dst_of(
                m,
                k2,
            ) == oq
    };
    if m.edges.dom().contains((ox, oq)) {
        assert(oq == dst_of(m, ox));
    } else {
        assert(redirect(m, ox, oq));
    }
    assert(node_is_barrier(m.nodes, kk) && buid(m.nodes, kk) == uid && dst_of(m, kk) == oq);
    assert(oq < nn && m.nodes[oq] is Task && holds_uid(task_at(m.nodes, oq).inputs, uid));
    lemma_merged_nodes_from_index(m, 0, q2);
    assert(m2.nodes[q2] == merged_weight(m, oq));
    assert(m2.nodes[q2] == m.nodes[oq]);
    assert(task_at(m2.nodes, q2) == task_at(m.nodes, oq));
    assert(dst_res(m2, x) == dst_res(m, kk));
    assert(dst_res(m, kk).stage == dst_res(m, ox).stage && dst_res(m, kk).usage == dst_res(
        m,
        ox,
    ).usage);
}

/// Merge idempotence: merging a second time changes nothing, provided each
/// barrier guards a single producer-consumer link (as barrier synthesis
/// leaves it) and all consumers of one UID agree on its destination stage
/// and usage.  Without that agreement a second merge would reread the
/// destination fields from one consumer alone and could drop bits that the
/// first merge accumulated.
pub proof fn lemma_merge_idempotent(m: GraphModel)
    requires
        merge_pre(m),
        single_outgoing(m),
        uniform_consumers(m),
    ensures
        !merge_conflict(merged_model(m)),
        merged_model(merged_model(m)) == merged_model(m),
{
    let m2 = merged_model(m);
    let nn = m.nodes.len() as int;
    let n2 = m2.nodes.len() as int;
    lemma_merged_nodes_from_len(m, 0);
    assert(n2 == merged_len(m));

    // Barriers of a merged graph guard pairwise distinct UIDs.
    assert forall|x: int, y: int|
        node_is_barrier(m2.nodes, x) && node_is_barrier(m2.nodes, y) && #[trigger] buid(
            m2.nodes,
            x,
        ) == #[trigger] buid(m2.nodes, y) implies x == y by {
        lemma_cover_is_rep(m, buid(m2.nodes, x), x);
        lemma_cover_is_rep(m, buid(m2.nodes, y), y);
    }

    // Hence a second merge finds no conflict and removes nothing.
    assert(!merge_conflict(m2)) by {
        if merge_conflict(m2) {
            let (i, k) = choose|i: int, k: int|
                is_rep(m2.nodes, i) && node_is_barrier(m2.nodes, k) && k != i && buid(m2.nodes, k)
                    == buid(m2.nodes, i) && crate::merge::usages_conflict(
                    dst_res(m2, i),
                    dst_res(m2, k),
                );
            assert(false);
        }
    }
    assert forall|i: int| !removed_b(m2, i) by {
        if removed_b(m2, i) {
            let uid = buid(m2.nodes, i);
            lemma_first_barrier_props(m2.nodes, uid, 0);
            let rp = rep_of(m2.nodes, i);
            assert(rp <= i && rp < n2);
            assert(node_is_barrier(m2.nodes, rp) && buid(m2.nodes, rp) == uid);
            assert(false);
        }
    }

    // With nothing removed, compaction is the identity.
    assert forall|p: int| 0 <= p <= n2 implies surv_count(m2, 0, p) == p by {
        lemma_tasks_keep_index(m2, p);
    }
    assert(merged_len(m2) == n2);
    assert forall|x: int| 0 <= x < n2 implies #[trigger] old_index(m2, x) == x by {
        lemma_survivor_inverse(m2, 0, x);
    }

    // The second merge keeps every edge and adds none.
    assert forall|x: (int, int)| #[trigger]
        m2.edges.dom().contains(x) implies 0 <= x.0 < n2 && 0 <= x.1 < n2 by {
        lemma_survivor_props(m, 0, x.0);
        lemma_survivor_props(m, 0, x.1);
    }
    assert forall|a2: int, b2: int| !redirect(m2, a2, b2) by {
        if redirect(m2, a2, b2) {
            let k2 = choose|k2: int|
                #[trigger] removed_b(m2, k2) && buid(m2.nodes, k2) == buid(m2.nodes, a2)
                    && dst_of(m2, k2) == b2;
            assert(false);
        }
    }
    assert(merged_edges(m2) =~= m2.edges);

    // The second merge recomputes each barrier's destination fields from its
    // one remaining consumer, whose declaration agrees with the accumulated
    // class fold of the first merge.
    lemma_merged_nodes_from_len(m2, 0);
    assert forall|x: int| 0 <= x < n2 implies #[trigger] merged_nodes(m2)[x] == m2.nodes[x] by {
        lemma_merged_nodes_from_index(m2, 0, x);
        assert(merged_nodes(m2)[x] == merged_weight(m2, x));
        if node_is_barrier(m2.nodes, x) {
            let uid = buid(m2.nodes, x);
            lemma_merged_nodes_from_index(m, 0, x);
            lemma_survivor_props(m, 0, x);
            let ox = old_index(m, x);
            if !node_is_barrier(m.nodes, ox) {
                assert(m2.nodes[x] == m.nodes[ox]);
            }
            assert(node_is_barrier(m.nodes, ox));
            assert(m2.nodes[x] == merged_weight(m, ox));
            assert(buid(m.nodes, ox) == uid);
            // The stored fields are the fold over the old class.
            assert(m2.nodes[x]->Barrier_0.dst_stage == class_stage(m, uid));
            assert(m2.nodes[x]->Barrier_0.dst_access == class_access(m, uid));
            // The old fold equals the representative's own declaration.
            lemma_class_fold_uniform(m, uid, ox, nn);
            assert(class_stage(m, uid) == dst_res(m, ox).stage);
            assert(class_access(m, uid) == crate::resource::spec_access(dst_res(m, ox).usage));
            // The new fold is over the singleton class of `x`.
            assert forall|k: int|
                node_is_barrier(m2.nodes, k) && #[trigger] buid(m2.nodes, k) == uid implies
                dst_res(m2, k).stage == dst_res(m2, x).stage && dst_res(m2, k).usage == dst_res(
                m2,
                x,
            ).usage by {
                lemma_cover_is_rep(m, uid, k);
                lemma_cover_is_rep(m, uid, x);
            }
            lemma_class_fold_uniform(m2, uid, x, n2);
            assert(class_stage(m2, uid) == dst_res(m2, x).stage);
            assert(class_access(m2, uid) == crate::resource::spec_access(dst_res(m2, x).usage));
            // And the single consumer's declaration agrees with the old one.
            lemma_merged_flags_stable(m, x);
            assert(merged_weight(m2, x) == m2.nodes[x]);
        } else {
            assert(merged_weight(m2, x) == m2.nodes[x]);
        }
    }
    assert(merged_nodes(m2) =~= m2.nodes);
    assert(merged_model(m2) == m2);
}



/// Barrier synthesis leaves each barrier with a single outgoing edge, so a
/// built graph meets the shape under which merging is idempotent.
pub proof fn lemma_cbn_single_outgoing(m0: GraphModel)
    requires
        wf(m0),
        all_tasks(m0),
    ensures
        single_outgoing(cbn_model(m0)),
{
    let m1 = cbn_model(m0);
    let ts = barrier_triples(m0.nodes);
    let n0 = m0.nodes.len() as int;
    lemma_triples_p_valid(m0.nodes, 0);
    assert forall|i: int, q: int|
        node_is_barrier(m1.nodes, i) && #[trigger] m1.edges.dom().contains((i, q)) implies q
        == dst_of(m1, i) by {
        lemma_cbn_dst(m0, i);
        assert(!m0.edges.dom().contains((i, q)));
    }
}


/// Write-write rejection: two tasks that output the same resource UID with
/// different non-read usages are two concurrent writers that no barrier can
/// serialize, so `build` reports `IllegalTaskGraph` for exactly such graphs
/// (its result is `Err` if and only if a producer or merge conflict exists)
/// and leaves the graph unchanged.
pub proof fn lemma_producer_write_write_rejection(
    nodes: Seq<NodeV>,
    p1: int,
    j1: int,
    p2: int,
    j2: int,
)
    requires
        node_is_task(nodes, p1),
        node_is_task(nodes, p2),
        p1 != p2,
        0 <= j1 < task_at(nodes, p1).outputs.len(),
        0 <= j2 < task_at(nodes, p2).outputs.len(),
        task_at(nodes, p1).outputs[j1].uid == task_at(nodes, p2).outputs[j2].uid,
        !crate::resource::spec_is_read(task_at(nodes, p1).outputs[j1].usage),
        !crate::resource::spec_is_read(task_at(nodes, p2).outputs[j2].usage),
        task_at(nodes, p1).outputs[j1].usage != task_at(nodes, p2).outputs[j2].usage,
    ensures
        producer_conflict(nodes),
{
    assert(output_conflicts(
        nodes,
        p1,
        task_at(nodes, p1).outputs[j1].uid,
        task_at(nodes, p1).outputs[j1].usage,
    ));
}

/// The declaration under which a consuming task uses a UID: its first input
/// carrying that UID.
pub open spec fn consumer_decl(nodes: Seq<NodeV>, q: int, uid: Seq<char>) -> crate::resource::GpuResourceV {
    let ins = task_at(nodes, q).inputs;
    ins[crate::task::first_uid_at(ins, uid, 0)]
}

/// Every task consuming the UID uses it with a write (non-read) usage.
pub open spec fn all_writers(nodes: Seq<NodeV>, uid: Seq<char>) -> bool {
    forall|q: int|
        node_is_task(nodes, q) && #[trigger] holds_uid(task_at(nodes, q).inputs, uid)
            ==> !crate::resource::spec_is_read(consumer_decl(nodes, q, uid).usage)
}

/// The merge-side companion of write-write rejection: when a produced UID is
/// consumed only through write usages and two consumers write it
/// differently, the barriers of that UID cannot be merged, so `build` fails
/// with `IllegalTaskGraph` on this graph too.
pub proof fn lemma_consumer_write_write_rejection(m0: GraphModel, p: int, j: int, q1: int, q2: int)
    requires
        wf(m0),
        all_tasks(m0),
        node_is_task(m0.nodes, p),
        0 <= j < task_at(m0.nodes, p).outputs.len(),
        node_is_task(m0.nodes, q1),
        node_is_task(m0.nodes, q2),
        q1 != q2,
        holds_uid(task_at(m0.nodes, q1).inputs, task_at(m0.nodes, p).outputs[j].uid),
        holds_uid(task_at(m0.nodes, q2).inputs, task_at(m0.nodes, p).outputs[j].uid),
        all_writers(m0.nodes, task_at(m0.nodes, p).outputs[j].uid),
        consumer_decl(m0.nodes, q1, task_at(m0.nodes, p).outputs[j].uid).usage != consumer_decl(
            m0.nodes,
            q2,
            task_at(m0.nodes, p).outputs[j].uid,
        ).usage,
    ensures
        merge_conflict(cbn_model(m0)),
{
    let m1 = cbn_model(m0);
    let ts = barrier_triples(m0.nodes);
    let n0 = m0.nodes.len() as int;
    let uid = task_at(m0.nodes, p).outputs[j].uid;
    let u1 = consumer_decl(m0.nodes, q1, uid);
    let u2 = consumer_decl(m0.nodes, q2, uid);
    lemma_triples_p_valid(m0.nodes, 0);

    // The two consumers' barriers.
    assert(is_triple(m0.nodes, (p, j, q1)));
    assert(is_triple(m0.nodes, (p, j, q2)));
    lemma_triples_complete(m0.nodes, (p, j, q1));
    lemma_triples_complete(m0.nodes, (p, j, q2));
    let k1 = choose|k: int|
        0 <= k < barrier_triples(m0.nodes).len() && #[trigger] barrier_triples(m0.nodes)[k] == (
        p,
        j,
        q1,
        );
    let k2 = choose|k: int|
        0 <= k < barrier_triples(m0.nodes).len() && #[trigger] barrier_triples(m0.nodes)[k] == (
        p,
        j,
        q2,
        );
    let b1 = n0 + k1;
    let b2 = n0 + k2;
    assert(b1 != b2);
    assert(m1.nodes[b1] == triple_barrier(m0.nodes, (p, j, q1)));
    assert(m1.nodes[b2] == triple_barrier(m0.nodes, (p, j, q2)));
    assert(node_is_barrier(m1.nodes, b1) && buid(m1.nodes, b1) == uid);
    assert(node_is_barrier(m1.nodes, b2) && buid(m1.nodes, b2) == uid);
    lemma_cbn_dst(m0, b1);
    lemma_cbn_dst(m0, b2);
    assert(dst_of(m1, b1) == q1 && dst_of(m1, b2) == q2);
    assert(m1.nodes[q1] == m0.nodes[q1] && m1.nodes[q2] == m0.nodes[q2]);
    assert(dst_res(m1, b1) == u1);
    assert(dst_res(m1, b2) == u2);

    // The class representative's own consumer declaration is a write too.
    lemma_first_barrier_props(m1.nodes, uid, 0);
    let r = first_barrier_with(m1.nodes, uid, 0);
    assert(r <= b1 && r < m1.nodes.len());
    assert(node_is_barrier(m1.nodes, r) && buid(m1.nodes, r) == uid);
    assert(rep_of(m1.nodes, r) == r);
    assert(is_rep(m1.nodes, r));
    lemma_cbn_dst(m0, r);
    let kr = r - n0;
    let tr = ts[kr];
    assert(is_triple(m0.nodes, tr));
    let tq = tr.2;
    assert(dst_of(m1, r) == tq);
    assert(m1.nodes[tq] == m0.nodes[tq]);
    assert(triple_uid(m0.nodes, tr) == uid);
    assert(holds_uid(task_at(m0.nodes, tq).inputs, uid));
    let ur = consumer_decl(m0.nodes, tq, uid);
    assert(dst_res(m1, r) == ur);
    assert(!crate::resource::spec_is_read(ur.usage));
    assert(!crate::resource::spec_is_read(u1.usage));
    assert(!crate::resource::spec_is_read(u2.usage));

    // The representative conflicts with whichever of the two it differs from.
    if ur.usage == u1.usage {
        assert(r != b2);
        assert(crate::merge::usages_conflict(dst_res(m1, r), dst_res(m1, b2)));
    } else {
        assert(r != b1 ==> crate::merge::usages_conflict(dst_res(m1, r), dst_res(m1, b1)));
        if r == b1 {
            assert(ur == u1);
            assert(false);
        }
    }
}


/// Every dependency is drawn: whenever a task consumes a UID another task
/// outputs, the graph holds the direct producer-to-consumer edge.  Graphs
/// populated through `add_pass` have this shape, since insertion infers the
/// edges of every new pass in both directions.
pub open spec fn deps_covered(m: GraphModel) -> bool {
    forall|t: (int, int, int)| #[trigger]
        is_triple(m.nodes, t) ==> m.edges.dom().contains((t.0, t.2))
}

/// The task a built-graph node stands for: a task node stands for itself,
/// and a barrier stands for the producer of its triple.
pub open spec fn task_behind(m0: GraphModel, x: int) -> int {
    let m1 = cbn_model(m0);
    let ox = old_index(m1, x);
    if ox < m0.nodes.len() {
        ox
    } else {
        barrier_triples(m0.nodes)[ox - m0.nodes.len()].0
    }
}

/// What one edge of the built graph means in the graph before the build:
/// task-to-task edges were already there; a task-to-barrier edge comes from
/// the barrier's producer; and a barrier-to-task edge reaches a consumer the
/// producer was directly connected to.
proof fn lemma_built_edge(m0: GraphModel, x: int, z: int)
    requires
        wf(m0),
        all_tasks(m0),
        deps_covered(m0),
        built_model(m0).edges.dom().contains((x, z)),
    ensures
        ({
            let m1 = cbn_model(m0);
            let n0 = m0.nodes.len() as int;
            let ox = old_index(m1, x);
            let oz = old_index(m1, z);
            &&& 0 <= x < merged_len(m1) && 0 <= z < merged_len(m1)
            &&& 0 <= ox < m1.nodes.len() && 0 <= oz < m1.nodes.len()
            &&& (node_is_barrier(built_model(m0).nodes, x) <==> ox >= n0)
            &&& (node_is_barrier(built_model(m0).nodes, z) <==> oz >= n0)
            &&& (ox < n0 && oz < n0 ==> m0.edges.dom().contains((ox, oz)))
            &&& (ox < n0 && oz >= n0 ==> ox == task_behind(m0, z))
            &&& (ox >= n0 ==> oz < n0 && m0.edges.dom().contains((task_behind(m0, x), oz)))
            &&& 0 <= task_behind(m0, x) < n0
            &&& 0 <= task_behind(m0, z) < n0
        }),
{
    let m1 = cbn_model(m0);
    let m2 = built_model(m0);
    let ts = barrier_triples(m0.nodes);
    let n0 = m0.nodes.len() as int;
    lemma_triples_p_valid(m0.nodes, 0);
    lemma_merged_nodes_from_len(m1, 0);
    assert(0 <= x < merged_len(m1) && 0 <= z < merged_len(m1));
    lemma_survivor_props(m1, 0, x);
    lemma_survivor_props(m1, 0, z);
    lemma_merged_nodes_from_index(m1, 0, x);
    lemma_merged_nodes_from_index(m1, 0, z);
    let ox = old_index(m1, x);
    let oz = old_index(m1, z);
    assert(m2.nodes[x] == merged_weight(m1, ox));
    assert(m2.nodes[z] == merged_weight(m1, oz));
    assert(ox < n0 ==> m1.nodes[ox] == m0.nodes[ox] && m0.nodes[ox] is Task);
    assert(oz < n0 ==> m1.nodes[oz] == m0.nodes[oz] && m0.nodes[oz] is Task);
    if m1.edges.dom().contains((ox, oz)) {
        if ox < n0 && oz < n0 {
            assert(m0.edges.dom().contains((ox, oz)));
        }
        if ox < n0 && oz >= n0 {
            assert(ts[oz - n0].0 == ox);
        }
        if ox >= n0 {
            let tr = ts[ox - n0];
            assert(oz == tr.2);
            assert(is_triple(m0.nodes, tr));
            assert(m0.edges.dom().contains((tr.0, tr.2)));
        }
    } else {
        assert(redirect(m1, ox, oz));
        assert(is_rep(m1.nodes, ox));
        assert(ox >= n0);
        let k = choose|k: int|
            #[trigger] removed_b(m1, k) && buid(m1.nodes, k) == buid(m1.nodes, ox) && dst_of(
                m1,
                k,
            ) == oz;
        lemma_cbn_dst(m0, k);
        lemma_cbn_dst(m0, ox);
        let tk = ts[k - n0];
        let tr = ts[ox - n0];
        assert(oz == tk.2);
        assert(is_triple(m0.nodes, tk) && is_triple(m0.nodes, tr));
        assert(triple_uid(m0.nodes, tk) == triple_uid(m0.nodes, tr));
        let t2 = (tr.0, tr.1, oz);
        assert(holds_uid(task_at(m0.nodes, oz).inputs, triple_uid(m0.nodes, tr)));
        assert(is_triple(m0.nodes, t2));
        assert(m0.edges.dom().contains((tr.0, oz)));
    }
}

/// A walk of the built graph projects onto a walk of the graph before the
/// build, between the tasks its endpoints stand for; once the walk has at
/// least two steps, or starts at a barrier, the projection keeps at least
/// one step.
proof fn lemma_built_walk(m0: GraphModel, x: int, y: int, k: nat)
    requires
        wf(m0),
        all_tasks(m0),
        deps_covered(m0),
        reaches(built_model(m0).edges, x, y, k),
    ensures
        exists|k2: nat| reaches(m0.edges, task_behind(m0, x), task_behind(m0, y), k2),
        (k >= 2 || (k >= 1 && node_is_barrier(built_model(m0).nodes, x))) ==> exists|k2: nat|
            k2 >= 1 && reaches(m0.edges, task_behind(m0, x), task_behind(m0, y), k2),
    decreases k,
{
    let e0 = m0.edges;
    let e2 = built_model(m0).edges;
    let px = task_behind(m0, x);
    let py = task_behind(m0, y);
    if k == 0 {
        assert(reaches(e0, px, py, 0));
    } else {
        let z = choose|z: int| e2.dom().contains((x, z)) && reaches(e2, z, y, (k - 1) as nat);
        lemma_built_edge(m0, x, z);
        lemma_built_walk(m0, z, y, (k - 1) as nat);
        let m1 = cbn_model(m0);
        let n0 = m0.nodes.len() as int;
        let ox = old_index(m1, x);
        let oz = old_index(m1, z);
        if ox >= n0 {
            // A barrier's step reaches a consumer its producer is wired to.
            assert(e0.dom().contains((px, oz)));
            assert(oz < n0 && task_behind(m0, z) == oz);
            let k2 = choose|k2: nat| reaches(e0, task_behind(m0, z), py, k2);
            assert(reaches(e0, px, py, k2 + 1));
        } else if oz < n0 {
            // A kept task-to-task edge.
            assert(e0.dom().contains((ox, oz)));
            assert(px == ox && task_behind(m0, z) == oz);
            let k2 = choose|k2: nat| reaches(e0, task_behind(m0, z), py, k2);
            assert(reaches(e0, px, py, k2 + 1));
        } else {
            // A task-to-barrier step stays at the producer.
            assert(px == task_behind(m0, z));
            if k == 1 {
                assert(z == y);
                assert(reaches(e0, px, py, 0));
            } else {
                assert((k - 1) as nat >= 1 && node_is_barrier(built_model(m0).nodes, z));
                let k2 = choose|k2: nat|
                    k2 >= 1 && reaches(e0, task_behind(m0, z), py, k2);
                assert(reaches(e0, px, py, k2));
            }
        }
    }
}

/// A successful build never introduces a cycle: the finished graph of an
/// acyclic dependency graph is again acyclic.  Barrier chains only ever
/// stand in for direct producer-to-consumer edges that were already present.
pub proof fn lemma_build_preserves_acyclicity(m0: GraphModel)
    requires
        wf(m0),
        all_tasks(m0),
        deps_covered(m0),
        !has_cycle(m0.edges),
    ensures
        !has_cycle(built_model(m0).edges),
{
    let e0 = m0.edges;
    let e2 = built_model(m0).edges;
    if has_cycle(e2) {
        let (a, k) = choose|a: int, k: nat| k >= 1 && reaches(e2, a, a, k);
        if k == 1 {
            assert(reaches(e2, a, a, 1));
            assert(exists|z: int| e2.dom().contains((a, z)) && reaches(e2, z, a, (1 - 1) as nat));
            let z = choose|z: int|
                e2.dom().contains((a, z)) && reaches(e2, z, a, (1 - 1) as nat);
            assert(reaches(e2, z, a, 0));
            assert(z == a);
            lemma_built_edge(m0, a, a);
            let m1 = cbn_model(m0);
            let n0 = m0.nodes.len() as int;
            let oa = old_index(m1, a);
            assert(oa < n0);
            assert(e0.dom().contains((oa, oa)));
            assert(reaches(e0, oa, oa, 0));
            assert(reaches(e0, oa, oa, 1));
            assert(has_cycle(e0));
        } else {
            lemma_built_walk(m0, a, a, k);
            let k2 = choose|k2: nat|
                k2 >= 1 && reaches(e0, task_behind(m0, a), task_behind(m0, a), k2);
            assert(has_cycle(e0));
        }
    }
}


/// Every original (version-zero) input of every task has a producer, be it a
/// task or the synthetic source.  `add_pass` maintains this by giving the
/// source an output for exactly the original inputs that lack one.
pub open spec fn source_inputs_covered(nodes: Seq<NodeV>) -> bool {
    forall|q: int, i: int|
        #![trigger task_at(nodes, q).inputs[i]]
        node_is_task(nodes, q) && 0 <= i < task_at(nodes, q).inputs.len()
            && crate::resource::spec_is_source(task_at(nodes, q).inputs[i].uid) ==> uid_produced(
            nodes,
            task_at(nodes, q).inputs[i].uid,
        )
}

/// A graph holding only the bare source task covers its dependencies
/// trivially.
pub proof fn lemma_new_covered(m: GraphModel)
    requires
        m.nodes.len() == 1,
        m.nodes[0] is Task,
        task_at(m.nodes, 0).outputs.len() == 0,
        task_at(m.nodes, 0).inputs.len() == 0,
    ensures
        deps_covered(m),
        source_inputs_covered(m.nodes),
{
    assert forall|t: (int, int, int)| #[trigger]
        is_triple(m.nodes, t) implies m.edges.dom().contains((t.0, t.2)) by {
        assert(t.0 == 0);
    }
}

/// A consumer input matching some producer output makes the dependency scan
/// find one.
proof fn lemma_first_dep_some(
    inputs: Seq<GpuResourceV>,
    outputs: Seq<GpuResourceV>,
    i0: int,
    k: int,
)
    requires
        0 <= i0 <= k < inputs.len(),
        holds_uid(outputs, inputs[k].uid),
    ensures
        first_dep_at(inputs, outputs, i0) is Some,
    decreases k - i0,
{
    if i0 < k && !holds_uid(outputs, inputs[i0].uid) {
        lemma_first_dep_some(inputs, outputs, i0 + 1, k);
    }
}

/// Every declaration the source gains is an original UID without a producer.
proof fn lemma_additions_props(nodes: Seq<NodeV>, inputs: Seq<GpuResourceV>, i: int)
    ensures
        forall|j: int|
            0 <= j < source_additions_upto(nodes, inputs, i).len() ==> {
                let r = #[trigger] source_additions_upto(nodes, inputs, i)[j];
                crate::resource::spec_is_source(r.uid) && !uid_produced(nodes, r.uid)
            },
    decreases i,
{
    if i > 0 {
        lemma_additions_props(nodes, inputs, i - 1);
        let s = source_additions_upto(nodes, inputs, i);
        let pre = source_additions_upto(nodes, inputs, i - 1);
        assert forall|j: int| 0 <= j < s.len() implies {
            let r = #[trigger] s[j];
            crate::resource::spec_is_source(r.uid) && !uid_produced(nodes, r.uid)
        } by {
            if j < pre.len() {
                assert(s[j] == pre[j]);
            }
        }
    }
}

/// Scanning more inputs only appends to the source's gained declarations.
proof fn lemma_additions_prefix(nodes: Seq<NodeV>, inputs: Seq<GpuResourceV>, i: int, j: int)
    requires
        0 <= i <= j,
    ensures
        source_additions_upto(nodes, inputs, i).len() <= source_additions_upto(
            nodes,
            inputs,
            j,
        ).len(),
        forall|k: int|
            0 <= k < source_additions_upto(nodes, inputs, i).len() ==> #[trigger] source_additions_upto(
                nodes,
                inputs,
                j,
            )[k] == source_additions_upto(nodes, inputs, i)[k],
    decreases j - i,
{
    if i < j {
        lemma_additions_prefix(nodes, inputs, i, j - 1);
    }
}

/// An original input without a producer lands among the source's gained
/// declarations.
proof fn lemma_additions_complete(nodes: Seq<NodeV>, inputs: Seq<GpuResourceV>, i: int)
    requires
        0 <= i < inputs.len(),
        needs_source(nodes, inputs[i]),
    ensures
        holds_uid(source_additions(nodes, inputs), inputs[i].uid),
{
    let at = source_additions_upto(nodes, inputs, i).len() as int;
    assert(source_additions_upto(nodes, inputs, i + 1)[at] == crate::gpu_graph::source_out(
        inputs[i],
    ));
    lemma_additions_prefix(nodes, inputs, i + 1, inputs.len() as int);
    assert(source_additions(nodes, inputs)[at].uid == inputs[i].uid);
    assert(0 <= at < source_additions(nodes, inputs).len());
}

/// Adding a pass keeps every dependency drawn and every original input
/// covered: the invariants under which a later build stays acyclic.
pub proof fn lemma_add_pass_preserves_covered(m: GraphModel, p: GpuTaskV)
    requires
        wf(m),
        all_tasks(m),
        m.nodes.len() > 0,
        deps_covered(m),
        source_inputs_covered(m.nodes),
    ensures
        ({
            let nodes1 = add_pass_nodes(m, p);
            let m1 = GraphModel { nodes: nodes1, edges: added_edges(nodes1, m.edges) };
            &&& all_tasks(m1)
            &&& deps_covered(m1)
            &&& source_inputs_covered(nodes1)
        }),
{
    let nodes1 = add_pass_nodes(m, p);
    let e1 = added_edges(nodes1, m.edges);
    let m1 = GraphModel { nodes: nodes1, edges: e1 };
    let n = m.nodes.len() as int;
    let adds = source_additions(m.nodes, p.inputs);
    lemma_additions_props(m.nodes, p.inputs, p.inputs.len() as int);
    assert(nodes1.len() == n + 1);
    assert(nodes1[n] == NodeV::Task(p));
    assert forall|q: int| 0 <= q < nodes1.len() implies nodes1[q] is Task by {
        if q < n && q != 0 {
            assert(nodes1[q] == m.nodes[q]);
        }
    }

    // Producers keep their outputs; the source's grow by the additions.
    assert(task_at(nodes1, 0).outputs =~= task_at(m.nodes, 0).outputs + adds);
    assert forall|q: int| 0 < q < n implies task_at(nodes1, q) == task_at(m.nodes, q) by {}
    assert forall|q: int| 0 <= q < n implies task_at(nodes1, q).inputs == task_at(
        m.nodes,
        q,
    ).inputs by {}

    // A UID produced before is still produced.
    assert forall|uid: Seq<char>| uid_produced(m.nodes, uid) implies #[trigger] uid_produced(
        nodes1,
        uid,
    ) by {
        let p2 = choose|p2: int|
            node_is_task(m.nodes, p2) && #[trigger] holds_uid(task_at(m.nodes, p2).outputs, uid);
        let k = choose|k: int|
            0 <= k < task_at(m.nodes, p2).outputs.len() && task_at(m.nodes, p2).outputs[k].uid
                == uid;
        assert(task_at(nodes1, p2).outputs[k].uid == uid);
        assert(holds_uid(task_at(nodes1, p2).outputs, uid));
    }

    // Every dependency of the grown graph is drawn.
    assert forall|t: (int, int, int)| #[trigger]
        is_triple(nodes1, t) implies e1.dom().contains((t.0, t.2)) by {
        let (a, j, b) = (t.0, t.1, t.2);
        let uid = task_at(nodes1, a).outputs[j].uid;
        if b == n {
            let k = choose|k: int|
                0 <= k < task_at(nodes1, b).inputs.len() && task_at(nodes1, b).inputs[k].uid
                    == uid;
            lemma_first_dep_some(task_at(nodes1, b).inputs, task_at(nodes1, a).outputs, 0, k);
            assert(node_dep(nodes1[b], nodes1[a]) is Some);
            assert(e1.dom().contains((a, n)));
        } else if a == n {
            let k = choose|k: int|
                0 <= k < task_at(nodes1, b).inputs.len() && task_at(nodes1, b).inputs[k].uid
                    == uid;
            lemma_first_dep_some(task_at(nodes1, b).inputs, task_at(nodes1, a).outputs, 0, k);
            assert(node_dep(nodes1[b], nodes1[a]) is Some);
            assert(e1.dom().contains((n, b)));
        } else {
            // Both old.  An old output makes an old triple; a declaration the
            // source just gained has no producer, so no old task consumes it.
            if a != 0 || j < task_at(m.nodes, 0).outputs.len() {
                assert(task_at(nodes1, a).outputs[j] == task_at(m.nodes, a).outputs[j]);
                assert(is_triple(m.nodes, t));
                assert(m.edges.dom().contains((a, b)));
                assert(e1.dom().contains((a, b)));
            } else {
                let jj = j - task_at(m.nodes, 0).outputs.len();
                assert(task_at(nodes1, 0).outputs[j] == adds[jj]);
                assert(!uid_produced(m.nodes, uid));
                let k = choose|k: int|
                    0 <= k < task_at(nodes1, b).inputs.len() && task_at(nodes1, b).inputs[k].uid
                        == uid;
                assert(task_at(m.nodes, b).inputs[k].uid == uid);
                assert(crate::resource::spec_is_source(uid));
                assert(uid_produced(m.nodes, uid));
                assert(false);
            }
        }
    }

    // Every original input of the grown graph has a producer.
    assert forall|q: int, i: int|
        #![trigger task_at(nodes1, q).inputs[i]]
        node_is_task(nodes1, q) && 0 <= i < task_at(nodes1, q).inputs.len()
            && crate::resource::spec_is_source(task_at(nodes1, q).inputs[i].uid) implies
    uid_produced(nodes1, task_at(nodes1, q).inputs[i].uid) by {
        let uid = task_at(nodes1, q).inputs[i].uid;
        if q < n {
            assert(task_at(m.nodes, q).inputs[i].uid == uid);
            assert(uid_produced(m.nodes, uid));
        } else {
            assert(task_at(nodes1, n).inputs == p.inputs);
            if uid_produced(m.nodes, uid) {
            } else {
                assert(needs_source(m.nodes, p.inputs[i]));
                lemma_additions_complete(m.nodes, p.inputs, i);
                let k = choose|k: int|
                    0 <= k < adds.len() && adds[k].uid == uid;
                let k2 = task_at(m.nodes, 0).outputs.len() + k;
                assert(task_at(nodes1, 0).outputs[k2 as int].uid == uid);
                assert(node_is_task(nodes1, 0));
                assert(holds_uid(task_at(nodes1, 0).outputs, uid));
            }
        }
    }
}

} // verus!
