//! Task and barrier node payloads of the task graph.

use vstd::prelude::*;

use crate::resource::{spec_access, GpuResource, GpuResourceV};

verus! {

/// The view of a declared-resource vector: its elements' views, in order.
pub open spec fn resources_view(v: Seq<GpuResource>) -> Seq<GpuResourceV> {
    v.map_values(|r: GpuResource| r@)
}

/// Clones a declared-resource vector element by element.
fn clone_resources(v: &Vec<GpuResource>) -> (r: Vec<GpuResource>)
    ensures
        r@ == v@,
{
    let mut r: Vec<GpuResource> = Vec::new();
    for i in 0..v.len()
        invariant
            r@ == v@.subrange(0, i as int),
    {
        r.push(v[i].clone());
        proof {
            assert(r@ =~= v@.subrange(0, i + 1));
        }
    }
    proof {
        assert(v@.subrange(0, v@.len() as int) =~= v@);
    }
    r
}

/// A user-defined GPU workload: its name and the virtual resources it reads
/// and writes.  The deferred recording callback stays with the caller, keyed
/// by the identifier, and is invoked only when a recorder walks the finished
/// graph.
#[derive(Debug)]
pub struct GpuTask {
    pub identifier: String,
    pub inputs: Vec<GpuResource>,
    pub outputs: Vec<GpuResource>,
}

/// The mathematical content of a task.
pub struct GpuTaskV {
    pub identifier: Seq<char>,
    pub inputs: Seq<GpuResourceV>,
    pub outputs: Seq<GpuResourceV>,
}

impl View for GpuTask {
    type V = GpuTaskV;

    open spec fn view(&self) -> GpuTaskV {
        GpuTaskV {
            identifier: self.identifier@,
            inputs: resources_view(self.inputs@),
            outputs: resources_view(self.outputs@),
        }
    }
}

impl Clone for GpuTask {
    fn clone(&self) -> (r: Self)
        ensures
            r@ == self@,
    {
        GpuTask {
            identifier: self.identifier.clone(),
            inputs: clone_resources(&self.inputs),
            outputs: clone_resources(&self.outputs),
        }
    }
}

impl GpuTask {
    pub fn inputs(&self) -> (r: &Vec<GpuResource>)
        ensures
            r == &self.inputs,
    {
        &self.inputs
    }

    pub fn outputs(&self) -> (r: &Vec<GpuResource>)
        ensures
            r == &self.outputs,
    {
        &self.outputs
    }
}

/// A stage/access transition for one resource between a producing task and
/// its consumers.  Construction fixes the source side from the producer's
/// declaration; the destination side is accumulated during barrier merging.
#[derive(Debug)]
pub struct GpuBarrier {
    pub resource: GpuResource,
    pub src_access: u64,
    pub dst_access: u64,
    pub src_stage: u64,
    pub dst_stage: u64,
}

/// The mathematical content of a barrier.
pub struct GpuBarrierV {
    pub resource: GpuResourceV,
    pub src_access: u64,
    pub dst_access: u64,
    pub src_stage: u64,
    pub dst_stage: u64,
}

impl View for GpuBarrier {
    type V = GpuBarrierV;

    open spec fn view(&self) -> GpuBarrierV {
        GpuBarrierV {
            resource: self.resource@,
            src_access: self.src_access,
            dst_access: self.dst_access,
            src_stage: self.src_stage,
            dst_stage: self.dst_stage,
        }
    }
}

/// The barrier a freshly produced resource receives: source side taken from
/// the producing declaration, destination side still empty.
pub open spec fn spec_barrier_new(resource: GpuResourceV) -> GpuBarrierV {
    GpuBarrierV {
        src_access: spec_access(resource.usage),
        dst_access: 0,
        src_stage: resource.stage,
        dst_stage: 0,
        resource,
    }
}

impl Clone for GpuBarrier {
    fn clone(&self) -> (r: Self)
        ensures
            r@ == self@,
    {
        GpuBarrier {
            resource: self.resource.clone(),
            src_access: self.src_access,
            dst_access: self.dst_access,
            src_stage: self.src_stage,
            dst_stage: self.dst_stage,
        }
    }
}

impl GpuBarrier {
    pub fn new(resource: GpuResource) -> (r: Self)
        ensures
            r@ == spec_barrier_new(resource@),
    {
        GpuBarrier {
            src_access: resource.usage.access(),
            dst_access: 0,
            src_stage: resource.stage,
            dst_stage: 0,
            resource,
        }
    }

    pub fn resource(&self) -> (r: &GpuResource)
        ensures
            r == &self.resource,
    {
        &self.resource
    }
}

/// A node of the task graph: either a user task or a synthesized barrier.
#[derive(Debug)]
pub enum Node {
    Task(GpuTask),
    Barrier(GpuBarrier),
}

/// The mathematical content of a node.
pub enum NodeV {
    Task(GpuTaskV),
    Barrier(GpuBarrierV),
}

impl View for Node {
    type V = NodeV;

    open spec fn view(&self) -> NodeV {
        match self {
            Node::Task(t) => NodeV::Task(t@),
            Node::Barrier(b) => NodeV::Barrier(b@),
        }
    }
}

impl Clone for Node {
    fn clone(&self) -> (r: Self)
        ensures
            r@ == self@,
    {
        match self {
            Node::Task(t) => Node::Task(t.clone()),
            Node::Barrier(b) => Node::Barrier(b.clone()),
        }
    }
}

/// Whether a sequence of declared resources contains the given UID.
pub open spec fn holds_uid(rs: Seq<GpuResourceV>, uid: Seq<char>) -> bool {
    exists|k: int| 0 <= k < rs.len() && rs[k].uid == uid
}

/// Decides `holds_uid` over a declared-resource vector.
pub(crate) fn holds_uid_exec(rs: &Vec<GpuResource>, uid: &String) -> (r: bool)
    ensures
        r == holds_uid(resources_view(rs@), uid@),
{
    let n = rs.len();
    for k in 0..n
        invariant
            n == rs@.len(),
            forall|k2: int| 0 <= k2 < k ==> resources_view(rs@)[k2].uid != uid@,
    {
        if rs[k].uid().eq(uid) {
            proof {
                assert(resources_view(rs@)[k as int].uid == uid@);
            }
            return true;
        }
    }
    false
}

/// The index of the first declared resource carrying the given UID, starting
/// the search at `i`; the length of the sequence when there is none.
pub open spec fn first_uid_at(rs: Seq<GpuResourceV>, uid: Seq<char>, i: int) -> int
    decreases rs.len() - i,
{
    if i < 0 || i >= rs.len() {
        rs.len() as int
    } else if rs[i].uid == uid {
        i
    } else {
        first_uid_at(rs, uid, i + 1)
    }
}

/// The first input of a consumer whose UID equals the UID of some entry of
/// `outputs`, searching inputs in declaration order: the resource whose flow
/// from producer to consumer induces a dependency edge.
pub open spec fn first_dep_at(
    inputs: Seq<GpuResourceV>,
    outputs: Seq<GpuResourceV>,
    i: int,
) -> Option<GpuResourceV>
    decreases inputs.len() - i,
{
    if i < 0 || i >= inputs.len() {
        None
    } else if holds_uid(outputs, inputs[i].uid) {
        Some(inputs[i])
    } else {
        first_dep_at(inputs, outputs, i + 1)
    }
}

/// The dependency of task `child` on task `parent`, if any.
pub open spec fn task_dep(child: GpuTaskV, parent: GpuTaskV) -> Option<GpuResourceV> {
    first_dep_at(child.inputs, parent.outputs, 0)
}

/// The dependency between two nodes; only task pairs can be dependent.
pub open spec fn node_dep(child: NodeV, parent: NodeV) -> Option<GpuResourceV> {
    match (child, parent) {
        (NodeV::Task(c), NodeV::Task(p)) => task_dep(c, p),
        _ => None,
    }
}

} // verus!
