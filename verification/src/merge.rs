//! Barrier merging: barriers that guard the same resource UID are folded
//! into the first one, which accumulates the destination stage and access
//! bits of every consumer, inherits an outgoing edge to each consumer, and
//! survives compaction; consumers that use one resource with two distinct
//! write accesses are rejected.

use vstd::prelude::*;

use crate::error::Error;
use crate::gpu_graph::GpuTaskGraph;
use crate::graph::{node_at, node_count, GraphModel};
use crate::resource::{spec_access, spec_is_read, GpuResource, GpuResourceV};
use crate::task::{first_uid_at, holds_uid, GpuBarrierV, Node, NodeV};
use crate::task_graph::{task_at, wf, TaskGraph};

verus! {

/// Whether index `i` names a barrier node.
pub open spec fn node_is_barrier(nodes: Seq<NodeV>, i: int) -> bool {
    0 <= i < nodes.len() && nodes[i] is Barrier
}

/// The barrier stored at index `i`.
pub open spec fn barrier_at(nodes: Seq<NodeV>, i: int) -> GpuBarrierV {
    nodes[i]->Barrier_0
}

/// The UID the barrier at index `i` guards.
pub open spec fn buid(nodes: Seq<NodeV>, i: int) -> Seq<char> {
    barrier_at(nodes, i).resource.uid
}

/// The least `q` of at least `q0` such that the graph holds an edge
/// `i -> q`; the node count when there is none.
pub open spec fn first_out_at(m: GraphModel, i: int, q0: int) -> int
    decreases m.nodes.len() - q0,
{
    if q0 < 0 || q0 >= m.nodes.len() {
        m.nodes.len() as int
    } else if m.edges.dom().contains((i, q0)) {
        q0
    } else {
        first_out_at(m, i, q0 + 1)
    }
}

/// The consumer a barrier's outgoing edge reaches: the least target of an
/// outgoing edge of `i`.
pub open spec fn dst_of(m: GraphModel, i: int) -> int {
    first_out_at(m, i, 0)
}

/// The destination resource of the barrier at `i`: the first input of the
/// consumer task that carries the barrier's UID.  It supplies the stage and
/// access bits the consumer asks of this barrier.
pub open spec fn dst_res(m: GraphModel, i: int) -> GpuResourceV {
    let q = dst_of(m, i);
    let ins = task_at(m.nodes, q).inputs;
    ins[first_uid_at(ins, buid(m.nodes, i), 0)]
}

/// What merging requires of each barrier: an outgoing edge exists, it leads
/// to a task, and that task declares an input with the barrier's UID.
/// Barrier synthesis establishes this for every barrier it creates.
pub open spec fn merge_pre(m: GraphModel) -> bool {
    &&& wf(m)
    &&& forall|i: int|
        node_is_barrier(m.nodes, i) ==> {
            let q = #[trigger] dst_of(m, i);
            &&& q < m.nodes.len()
            &&& m.nodes[q] is Task
            &&& holds_uid(task_at(m.nodes, q).inputs, buid(m.nodes, i))
        }
}

/// The least barrier index of at least `i0` guarding `uid`; the node count
/// when there is none.
pub open spec fn first_barrier_with(nodes: Seq<NodeV>, uid: Seq<char>, i0: int) -> int
    decreases nodes.len() - i0,
{
    if i0 < 0 || i0 >= nodes.len() {
        nodes.len() as int
    } else if nodes[i0] is Barrier && buid(nodes, i0) == uid {
        i0
    } else {
        first_barrier_with(nodes, uid, i0 + 1)
    }
}

/// The representative of a barrier's merge class: the first barrier guarding
/// the same UID.
pub open spec fn rep_of(nodes: Seq<NodeV>, i: int) -> int {
    first_barrier_with(nodes, buid(nodes, i), 0)
}

/// Whether the barrier at `i` represents its class.
pub open spec fn is_rep(nodes: Seq<NodeV>, i: int) -> bool {
    node_is_barrier(nodes, i) && rep_of(nodes, i) == i
}

/// Whether the barrier at `i` is folded into an earlier one and removed.
pub open spec fn removed_b(m: GraphModel, i: int) -> bool {
    node_is_barrier(m.nodes, i) && rep_of(m.nodes, i) != i
}

/// Two destination usages that cannot be merged: both write, and they write
/// differently.
pub open spec fn usages_conflict(a: GpuResourceV, b: GpuResourceV) -> bool {
    !spec_is_read(a.usage) && !spec_is_read(b.usage) && a.usage != b.usage
}

/// Merging fails exactly when some barrier class holds a member whose
/// destination usage conflicts with the destination usage of the class
/// representative.
pub open spec fn merge_conflict(m: GraphModel) -> bool {
    exists|i: int, k: int|
        is_rep(m.nodes, i) && node_is_barrier(m.nodes, k) && k != i && buid(m.nodes, k) == buid(
            m.nodes,
            i,
        ) && usages_conflict(dst_res(m, i), dst_res(m, k))
}

/// The OR of the destination stage masks of the barriers below `i` that
/// guard `uid`.
pub open spec fn class_stage_upto(m: GraphModel, uid: Seq<char>, i: int) -> u64
    decreases i,
{
    if i <= 0 {
        0u64
    } else {
        class_stage_upto(m, uid, i - 1) | (if node_is_barrier(m.nodes, i - 1) && buid(
            m.nodes,
            i - 1,
        ) == uid {
            dst_res(m, i - 1).stage
        } else {
            0u64
        })
    }
}

/// The OR of the destination stage masks of every barrier guarding `uid`.
pub open spec fn class_stage(m: GraphModel, uid: Seq<char>) -> u64 {
    class_stage_upto(m, uid, m.nodes.len() as int)
}

/// The OR of the destination access masks of the barriers below `i` that
/// guard `uid`.
pub open spec fn class_access_upto(m: GraphModel, uid: Seq<char>, i: int) -> u64
    decreases i,
{
    if i <= 0 {
        0u64
    } else {
        class_access_upto(m, uid, i - 1) | (if node_is_barrier(m.nodes, i - 1) && buid(
            m.nodes,
            i - 1,
        ) == uid {
            spec_access(dst_res(m, i - 1).usage)
        } else {
            0u64
        })
    }
}

/// The OR of the destination access masks of every barrier guarding `uid`.
pub open spec fn class_access(m: GraphModel, uid: Seq<char>) -> u64 {
    class_access_upto(m, uid, m.nodes.len() as int)
}

/// The weight a surviving node carries after merging: tasks are unchanged,
/// and a barrier's destination fields hold the accumulated bits of its class.
pub open spec fn merged_weight(m: GraphModel, i: int) -> NodeV {
    if node_is_barrier(m.nodes, i) {
        let b = barrier_at(m.nodes, i);
        NodeV::Barrier(
            GpuBarrierV {
                resource: b.resource,
                src_access: b.src_access,
                src_stage: b.src_stage,
                dst_stage: class_stage(m, buid(m.nodes, i)),
                dst_access: class_access(m, buid(m.nodes, i)),
            },
        )
    } else {
        m.nodes[i]
    }
}

/// The number of surviving nodes with index in `[i0, i)`.
pub open spec fn surv_count(m: GraphModel, i0: int, i: int) -> int
    decreases i - i0,
{
    if i0 >= i {
        0
    } else {
        (if removed_b(m, i0) {
            0int
        } else {
            1int
        }) + surv_count(m, i0 + 1, i)
    }
}

/// The new index a surviving node moves to: its old index minus the removed
/// nodes before it.  Compaction keeps the relative order of survivors.
pub open spec fn new_index(m: GraphModel, i: int) -> int {
    surv_count(m, 0, i)
}

/// The number of nodes after merging.
pub open spec fn merged_len(m: GraphModel) -> int {
    surv_count(m, 0, m.nodes.len() as int)
}

/// The old index of the `a`-th survivor at or after `i0`; the node count
/// when there are not that many survivors.
pub open spec fn survivor_from(m: GraphModel, i0: int, a: int) -> int
    decreases m.nodes.len() - i0,
{
    if i0 < 0 || i0 >= m.nodes.len() {
        m.nodes.len() as int
    } else if !removed_b(m, i0) {
        if a == 0 {
            i0
        } else {
            survivor_from(m, i0 + 1, a - 1)
        }
    } else {
        survivor_from(m, i0 + 1, a)
    }
}

/// The old index of the node that ends up at new index `a`.
pub open spec fn old_index(m: GraphModel, a: int) -> int {
    survivor_from(m, 0, a)
}

/// The surviving node weights from old index `i0` on, in order.
pub open spec fn merged_nodes_from(m: GraphModel, i0: int) -> Seq<NodeV>
    decreases m.nodes.len() - i0,
{
    if i0 < 0 || i0 >= m.nodes.len() {
        Seq::empty()
    } else if removed_b(m, i0) {
        merged_nodes_from(m, i0 + 1)
    } else {
        seq![merged_weight(m, i0)] + merged_nodes_from(m, i0 + 1)
    }
}

/// The nodes after merging.
pub open spec fn merged_nodes(m: GraphModel) -> Seq<NodeV> {
    merged_nodes_from(m, 0)
}

/// Whether merging adds an edge from old index `a` to old index `b`: `a`
/// represents a class with a removed member whose consumer is `b`, so the
/// member's outgoing edge is redirected to run from the representative.
pub open spec fn redirect(m: GraphModel, a: int, b: int) -> bool {
    is_rep(m.nodes, a) && exists|k: int|
        #[trigger] removed_b(m, k) && buid(m.nodes, k) == buid(m.nodes, a) && dst_of(m, k) == b
}

/// The edges after merging, over new indices: edges between two survivors
/// are kept with their labels, edges incident to a removed barrier disappear
/// with it, and each representative gains a redirected edge, labeled with the
/// class UID, to the consumer of every removed member of its class.
pub open spec fn merged_edges(m: GraphModel) -> Map<(int, int), Seq<char>> {
    Map::new(
        |x: (int, int)|
            0 <= x.0 < merged_len(m) && 0 <= x.1 < merged_len(m) && {
                let a = old_index(m, x.0);
                let b = old_index(m, x.1);
                m.edges.dom().contains((a, b)) || redirect(m, a, b)
            },
        |x: (int, int)|
            {
                let a = old_index(m, x.0);
                let b = old_index(m, x.1);
                if redirect(m, a, b) {
                    buid(m.nodes, a)
                } else {
                    m.edges[(a, b)]
                }
            },
    )
}

/// The whole model after merging.
pub open spec fn merged_model(m: GraphModel) -> GraphModel {
    GraphModel { nodes: merged_nodes(m), edges: merged_edges(m) }
}

/// Counting survivors splits at any midpoint.
pub proof fn lemma_surv_count_split(m: GraphModel, i0: int, mid: int, i: int)
    requires
        i0 <= mid <= i,
    ensures
        surv_count(m, i0, i) == surv_count(m, i0, mid) + surv_count(m, mid, i),
    decreases mid - i0,
{
    if i0 < mid {
        lemma_surv_count_split(m, i0 + 1, mid, i);
    }
}

/// Survivor counts are nonnegative and bounded by the range length.
pub proof fn lemma_surv_count_bounds(m: GraphModel, i0: int, i: int)
    requires
        i0 <= i,
    ensures
        0 <= surv_count(m, i0, i) <= i - i0,
    decreases i - i0,
{
    if i0 < i {
        lemma_surv_count_bounds(m, i0 + 1, i);
    }
}

/// `survivor_from` inverts `surv_count`: the `surv_count(i0, i)`-th survivor
/// at or after `i0` is `i` itself, for a surviving `i`.
pub proof fn lemma_survivor_inverse(m: GraphModel, i0: int, i: int)
    requires
        0 <= i0 <= i < m.nodes.len(),
        !removed_b(m, i),
    ensures
        survivor_from(m, i0, surv_count(m, i0, i)) == i,
    decreases i - i0,
{
    lemma_surv_count_bounds(m, i0, i);
    if i0 < i {
        lemma_survivor_inverse(m, i0 + 1, i);
        if !removed_b(m, i0) {
            lemma_surv_count_bounds(m, i0 + 1, i);
        }
    }
}

/// The suffix of surviving weights indexes by survivor position.
pub proof fn lemma_merged_nodes_from_index(m: GraphModel, i0: int, a: int)
    requires
        0 <= i0,
        0 <= a < merged_nodes_from(m, i0).len(),
    ensures
        survivor_from(m, i0, a) < m.nodes.len(),
        !removed_b(m, survivor_from(m, i0, a)),
        merged_nodes_from(m, i0)[a] == merged_weight(m, survivor_from(m, i0, a)),
    decreases m.nodes.len() - i0,
{
    if i0 < m.nodes.len() {
        if removed_b(m, i0) {
            lemma_merged_nodes_from_index(m, i0 + 1, a);
        } else {
            if a > 0 {
                lemma_merged_nodes_from_index(m, i0 + 1, a - 1);
            }
        }
    }
}

/// The count of surviving weights from `i0` equals the survivor count.
pub proof fn lemma_merged_nodes_from_len(m: GraphModel, i0: int)
    requires
        0 <= i0 <= m.nodes.len(),
    ensures
        merged_nodes_from(m, i0).len() == surv_count(m, i0, m.nodes.len() as int),
    decreases m.nodes.len() - i0,
{
    if i0 < m.nodes.len() {
        lemma_merged_nodes_from_len(m, i0 + 1);
    }
}


/// The least `p` of at least `p0` such that the graph holds an edge
/// `p -> i`; the node count when there is none.
pub open spec fn first_in_at(m: GraphModel, i: int, p0: int) -> int
    decreases m.nodes.len() - p0,
{
    if p0 < 0 || p0 >= m.nodes.len() {
        m.nodes.len() as int
    } else if m.edges.dom().contains((p0, i)) {
        p0
    } else {
        first_in_at(m, i, p0 + 1)
    }
}

/// The producer a barrier's incoming edge comes from: the least source of an
/// incoming edge of `i`.
pub open spec fn src_of(m: GraphModel, i: int) -> int {
    first_in_at(m, i, 0)
}

/// Whether the destination resource of the barrier at `i` can be read off
/// the graph: `i` is a barrier, its consumer exists and is a task, and the
/// task declares an input with the barrier's UID.
pub open spec fn dst_ok(m: GraphModel, i: int) -> bool {
    &&& node_is_barrier(m.nodes, i)
    &&& dst_of(m, i) < m.nodes.len()
    &&& m.nodes[dst_of(m, i)] is Task
    &&& holds_uid(task_at(m.nodes, dst_of(m, i)).inputs, buid(m.nodes, i))
}

/// Whether the source resource of the barrier at `i` can be read off the
/// graph, analogously over the incoming edge and the producing task's
/// declared inputs.
pub open spec fn src_ok(m: GraphModel, i: int) -> bool {
    &&& node_is_barrier(m.nodes, i)
    &&& src_of(m, i) < m.nodes.len()
    &&& m.nodes[src_of(m, i)] is Task
    &&& holds_uid(task_at(m.nodes, src_of(m, i)).inputs, buid(m.nodes, i))
}

/// The source resource of the barrier at `i`: the first input of the
/// producing task that carries the barrier's UID.
pub open spec fn src_res(m: GraphModel, i: int) -> GpuResourceV {
    let p = src_of(m, i);
    let ins = task_at(m.nodes, p).inputs;
    ins[first_uid_at(ins, buid(m.nodes, i), 0)]
}


/// The properties of `survivor_from`: for a position below the survivor
/// count, it yields a survivor whose preceding-survivor count is exactly that
/// position.
pub proof fn lemma_survivor_props(m: GraphModel, i0: int, a: int)
    requires
        0 <= i0 <= m.nodes.len(),
        0 <= a < surv_count(m, i0, m.nodes.len() as int),
    ensures
        i0 <= survivor_from(m, i0, a) < m.nodes.len(),
        !removed_b(m, survivor_from(m, i0, a)),
        surv_count(m, i0, survivor_from(m, i0, a)) == a,
    decreases m.nodes.len() - i0,
{
    let n = m.nodes.len() as int;
    if i0 < n {
        if removed_b(m, i0) {
            lemma_survivor_props(m, i0 + 1, a);
            assert(surv_count(m, i0, survivor_from(m, i0 + 1, a)) == surv_count(
                m,
                i0 + 1,
                survivor_from(m, i0 + 1, a),
            ));
        } else {
            if a == 0 {
                assert(surv_count(m, i0, i0) == 0);
            } else {
                lemma_survivor_props(m, i0 + 1, a - 1);
                assert(surv_count(m, i0, survivor_from(m, i0 + 1, a - 1)) == 1 + surv_count(
                    m,
                    i0 + 1,
                    survivor_from(m, i0 + 1, a - 1),
                ));
            }
        }
    }
}

/// Whether one of the first `k` barriers is a removed member of the class of
/// `i` whose consumer is `b`.
pub open spec fn partial_redirect(m: GraphModel, i: int, k: int, b: int) -> bool {
    exists|k2: int|
        0 <= k2 < k && #[trigger] removed_b(m, k2) && buid(m.nodes, k2) == buid(m.nodes, i)
            && dst_of(m, k2) == b
}

/// Scanning one more barrier extends the partial redirects by at most that
/// barrier's contribution.
pub proof fn lemma_partial_redirect_step(m: GraphModel, i: int, k: int, b: int)
    requires
        k >= 0,
    ensures
        partial_redirect(m, i, k + 1, b) == (partial_redirect(m, i, k, b) || (removed_b(m, k)
            && buid(m.nodes, k) == buid(m.nodes, i) && dst_of(m, k) == b)),
{
    if partial_redirect(m, i, k + 1, b) {
        let k2 = choose|k2: int|
            0 <= k2 < k + 1 && #[trigger] removed_b(m, k2) && buid(m.nodes, k2) == buid(
                m.nodes,
                i,
            ) && dst_of(m, k2) == b;
        if k2 < k {
            assert(partial_redirect(m, i, k, b));
        }
    }
    if removed_b(m, k) && buid(m.nodes, k) == buid(m.nodes, i) && dst_of(m, k) == b {
        assert(0 <= k < k + 1 && removed_b(m, k) && buid(m.nodes, k) == buid(m.nodes, i)
            && dst_of(m, k) == b);
    }
}

/// Having scanned every node, the partial redirects of a representative are
/// exactly its redirects.
pub proof fn lemma_partial_redirect_full(m: GraphModel, i: int, b: int)
    ensures
        is_rep(m.nodes, i) ==> (partial_redirect(m, i, m.nodes.len() as int, b) == redirect(
            m,
            i,
            b,
        )),
{
    let n = m.nodes.len() as int;
    if is_rep(m.nodes, i) {
        if partial_redirect(m, i, n, b) {
            let k2 = choose|k2: int|
                0 <= k2 < n && #[trigger] removed_b(m, k2) && buid(m.nodes, k2) == buid(
                    m.nodes,
                    i,
                ) && dst_of(m, k2) == b;
            assert(redirect(m, i, b));
        }
        if redirect(m, i, b) {
            let k2 = choose|k2: int|
                #[trigger] removed_b(m, k2) && buid(m.nodes, k2) == buid(m.nodes, i) && dst_of(
                    m,
                    k2,
                ) == b;
            assert(0 <= k2 < n);
            assert(partial_redirect(m, i, n, b));
        }
    }
}

/// The edges of the rebuilt graph once the copy pass has processed every
/// ordered pair of survivors with old row index below `arow`, and in row
/// `arow` the old column indices below `bcol`.
pub open spec fn kept_edges_upto(m: GraphModel, arow: int, bcol: int) -> Map<
    (int, int),
    Seq<char>,
> {
    Map::new(
        |x: (int, int)|
            0 <= x.0 < merged_len(m) && 0 <= x.1 < merged_len(m) && {
                let a = old_index(m, x.0);
                let b = old_index(m, x.1);
                m.edges.dom().contains((a, b)) && (a < arow || (a == arow && b < bcol))
            },
        |x: (int, int)| m.edges[(old_index(m, x.0), old_index(m, x.1))],
    )
}

/// The edges of the rebuilt graph once the redirect pass has processed the
/// representatives with old index below `i`, and for `i` itself the removed
/// members with old index below `k`.
pub open spec fn redirected_edges_upto(m: GraphModel, i: int, k: int) -> Map<
    (int, int),
    Seq<char>,
> {
    Map::new(
        |x: (int, int)|
            0 <= x.0 < merged_len(m) && 0 <= x.1 < merged_len(m) && {
                let a = old_index(m, x.0);
                let b = old_index(m, x.1);
                m.edges.dom().contains((a, b)) || (a < i && redirect(m, a, b)) || (a == i
                    && is_rep(m.nodes, i) && partial_redirect(m, i, k, b))
            },
        |x: (int, int)|
            {
                let a = old_index(m, x.0);
                let b = old_index(m, x.1);
                if (a < i && redirect(m, a, b)) || (a == i && is_rep(m.nodes, i)
                    && partial_redirect(m, i, k, b)) {
                    buid(m.nodes, a)
                } else {
                    m.edges[(a, b)]
                }
            },
    )
}


/// When node `i` has exactly one outgoing edge, the scan for its consumer
/// finds that edge's target.
pub proof fn lemma_first_out_unique(m: GraphModel, i: int, t: int, q0: int)
    requires
        0 <= q0 <= t < m.nodes.len(),
        m.edges.dom().contains((i, t)),
        forall|q: int| #[trigger] m.edges.dom().contains((i, q)) ==> q == t,
    ensures
        first_out_at(m, i, q0) == t,
    decreases t - q0,
{
    if q0 < t {
        assert(!m.edges.dom().contains((i, q0)));
        lemma_first_out_unique(m, i, t, q0 + 1);
    }
}


/// What the scan for a node's first outgoing edge returns: an edge target no
/// later than any other, or the node count when there is none.
pub proof fn lemma_first_out_props(m: GraphModel, i: int, q0: int)
    requires
        0 <= q0,
    ensures
        first_out_at(m, i, q0) < m.nodes.len() ==> q0 <= first_out_at(m, i, q0)
            && m.edges.dom().contains((i, first_out_at(m, i, q0))),
        forall|t: int|
            q0 <= t < m.nodes.len() && #[trigger] m.edges.dom().contains((i, t)) ==> first_out_at(
                m,
                i,
                q0,
            ) <= t,
    decreases m.nodes.len() - q0,
{
    if q0 < m.nodes.len() {
        lemma_first_out_props(m, i, q0 + 1);
    }
}

/// The accumulated stage and access of a class whose members all declare the
/// same destination stage and usage: the common values themselves, once any
/// member exists below the scan bound.
pub proof fn lemma_class_fold_uniform(m: GraphModel, uid: Seq<char>, r: int, i: int)
    requires
        0 <= i <= m.nodes.len(),
        node_is_barrier(m.nodes, r),
        buid(m.nodes, r) == uid,
        forall|k: int|
            node_is_barrier(m.nodes, k) && #[trigger] buid(m.nodes, k) == uid ==> dst_res(
                m,
                k,
            ).stage == dst_res(m, r).stage && dst_res(m, k).usage == dst_res(m, r).usage,
    ensures
        class_stage_upto(m, uid, i) == if exists|k: int|
            0 <= k < i && node_is_barrier(m.nodes, k) && #[trigger] buid(m.nodes, k) == uid {
            dst_res(m, r).stage
        } else {
            0u64
        },
        class_access_upto(m, uid, i) == if exists|k: int|
            0 <= k < i && node_is_barrier(m.nodes, k) && #[trigger] buid(m.nodes, k) == uid {
            spec_access(dst_res(m, r).usage)
        } else {
            0u64
        },
    decreases i,
{
    if i > 0 {
        lemma_class_fold_uniform(m, uid, r, i - 1);
        let vs = dst_res(m, r).stage;
        let va = spec_access(dst_res(m, r).usage);
        assert(0u64 | vs == vs && vs | vs == vs && vs | 0u64 == vs) by (bit_vector);
        assert(0u64 | va == va && va | va == va && va | 0u64 == va) by (bit_vector);
        assert(0u64 | 0u64 == 0u64) by (bit_vector);
        if node_is_barrier(m.nodes, i - 1) && buid(m.nodes, i - 1) == uid {
            assert(exists|k: int|
                0 <= k < i && node_is_barrier(m.nodes, k) && #[trigger] buid(m.nodes, k) == uid);
        } else {
            if exists|k: int|
                0 <= k < i && node_is_barrier(m.nodes, k) && #[trigger] buid(m.nodes, k) == uid {
                let k = choose|k: int|
                    0 <= k < i && node_is_barrier(m.nodes, k) && #[trigger] buid(m.nodes, k)
                        == uid;
                assert(k < i - 1);
                assert(exists|k2: int|
                    0 <= k2 < i - 1 && node_is_barrier(m.nodes, k2) && #[trigger] buid(
                        m.nodes,
                        k2,
                    ) == uid);
            }
        }
    }
}

impl GpuTaskGraph {
    /// The least barrier index guarding the given UID, or the node count when
    /// no barrier guards it.
    pub(crate) fn first_barrier_index(graph: &TaskGraph, uid: &String) -> (r: usize)
        ensures
            r == first_barrier_with(graph@.nodes, uid@, 0),
    {
        let n = node_count(&graph.store);
        for i in 0..n
            invariant
                n == graph@.nodes.len(),
                first_barrier_with(graph@.nodes, uid@, 0) == first_barrier_with(
                    graph@.nodes,
                    uid@,
                    i as int,
                ),
        {
            let w = node_at(&graph.store, i);
            match &w {
                Node::Barrier(b) => {
                    if b.resource.uid().eq(uid) {
                        return i;
                    }
                },
                Node::Task(_) => {},
            }
        }
        n
    }

    /// The index of the consumer task reached by the outgoing edge of node
    /// `i`, or the node count when `i` has no outgoing edge.
    pub(crate) fn barrier_dst_index(graph: &TaskGraph, i: usize) -> (r: usize)
        ensures
            r == dst_of(graph@, i as int),
            r <= graph@.nodes.len(),
    {
        let n = node_count(&graph.store);
        for q in 0..n
            invariant
                n == graph@.nodes.len(),
                dst_of(graph@, i as int) == first_out_at(graph@, i as int, q as int),
        {
            if graph.edge(i, q).is_some() {
                return q;
            }
        }
        n
    }

    /// The index of the producing task reached by the incoming edge of node
    /// `i`, or the node count when `i` has no incoming edge.
    pub(crate) fn barrier_src_index(graph: &TaskGraph, i: usize) -> (r: usize)
        ensures
            r == src_of(graph@, i as int),
            r <= graph@.nodes.len(),
    {
        let n = node_count(&graph.store);
        for p in 0..n
            invariant
                n == graph@.nodes.len(),
                src_of(graph@, i as int) == first_in_at(graph@, i as int, p as int),
        {
            if graph.edge(p, i).is_some() {
                return p;
            }
        }
        n
    }

    /// The first input carrying `uid` in a task's declared inputs.
    pub(crate) fn find_input(inputs: &Vec<GpuResource>, uid: &String) -> (r: Option<GpuResource>)
        ensures
            match r {
                Some(res) => holds_uid(crate::task::resources_view(inputs@), uid@) && res@
                    == crate::task::resources_view(inputs@)[first_uid_at(
                    crate::task::resources_view(inputs@),
                    uid@,
                    0,
                )],
                None => !holds_uid(crate::task::resources_view(inputs@), uid@),
            },
    {
        let ghost iv = crate::task::resources_view(inputs@);
        let n = inputs.len();
        for k in 0..n
            invariant
                n == iv.len(),
                iv == crate::task::resources_view(inputs@),
                first_uid_at(iv, uid@, 0) == first_uid_at(iv, uid@, k as int),
                forall|k2: int| 0 <= k2 < k ==> iv[k2].uid != uid@,
        {
            if inputs[k].uid().eq(uid) {
                proof {
                    assert(iv[k as int].uid == uid@);
                    assert(first_uid_at(iv, uid@, k as int) == k);
                }
                return Some(inputs[k].clone());
            }
        }
        None
    }

    /// The destination resource of a barrier: following its outgoing edge to
    /// the consumer task, the consumer's first input with the barrier's UID.
    /// When a barrier has several outgoing edges, the lowest-index consumer
    /// decides; merging has already checked its write usage against the other
    /// consumers', though their read classifications and stages may differ.
    pub fn barrier_dst_resource(graph: &TaskGraph, node: usize) -> (r: Result<GpuResource, Error>)
        ensures
            dst_ok(graph@, node as int) ==> (r matches Ok(res) && res@ == dst_res(
                graph@,
                node as int,
            )),
            !dst_ok(graph@, node as int) ==> (r matches Err(e) && e == Error::NodeNotFound),
    {
        let n = node_count(&graph.store);
        if node >= n {
            return Err(Error::NodeNotFound);
        }
        let w = node_at(&graph.store, node);
        let b = match &w {
            Node::Barrier(b) => b,
            Node::Task(_) => {
                return Err(Error::NodeNotFound);
            },
        };
        let q = Self::barrier_dst_index(graph, node);
        if q >= n {
            return Err(Error::NodeNotFound);
        }
        let cw = node_at(&graph.store, q);
        match &cw {
            Node::Task(t) => {
                match Self::find_input(&t.inputs, b.resource.uid()) {
                    Some(res) => Ok(res),
                    None => Err(Error::NodeNotFound),
                }
            },
            Node::Barrier(_) => Err(Error::NodeNotFound),
        }
    }

    /// The source resource of a barrier: following its incoming edge to the
    /// producing task, the producer's first input with the barrier's UID.
    pub fn barrier_src_resource(graph: &TaskGraph, node: usize) -> (r: Result<GpuResource, Error>)
        ensures
            src_ok(graph@, node as int) ==> (r matches Ok(res) && res@ == src_res(
                graph@,
                node as int,
            )),
            !src_ok(graph@, node as int) ==> (r matches Err(e) && e == Error::NodeNotFound),
    {
        let n = node_count(&graph.store);
        if node >= n {
            return Err(Error::NodeNotFound);
        }
        let w = node_at(&graph.store, node);
        let b = match &w {
            Node::Barrier(b) => b,
            Node::Task(_) => {
                return Err(Error::NodeNotFound);
            },
        };
        let p = Self::barrier_src_index(graph, node);
        if p >= n {
            return Err(Error::NodeNotFound);
        }
        let pw = node_at(&graph.store, p);
        match &pw {
            Node::Task(t) => {
                match Self::find_input(&t.inputs, b.resource.uid()) {
                    Some(res) => Ok(res),
                    None => Err(Error::NodeNotFound),
                }
            },
            Node::Barrier(_) => Err(Error::NodeNotFound),
        }
    }

}

} // verus!
