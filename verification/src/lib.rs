//! A virtual task graph for GPU frame construction.
//!
//! Per-frame GPU work is described as a directed acyclic graph of passes over
//! named virtual resources.  The graph infers dependency edges between passes
//! from the resources they declare, rejects cycles, synthesizes one execution
//! barrier per (producer, resource, consumer) triple, and then merges barriers
//! that guard the same resource so that a recorder can walk the finished graph
//! in topological order and emit a minimal set of pipeline barriers.

pub mod dot;
pub mod error;
pub mod gpu_graph;
pub mod graph;
pub mod laws;
pub mod merge;
pub mod raytracing;
pub mod resource;
pub mod task;
pub mod task_graph;

pub use error::Error;
pub use resource::{GpuResource, ResourceUsage, VirtualResource};
pub use task::{GpuBarrier, GpuTask, Node};
pub use task_graph::TaskGraph;
pub use raytracing::{
    RayTracingPipelineBuilder, RayTracingPipelineCreateInfo, SBTEntry, ShaderCreateInfo,
    ShaderGroup, ShaderIndex,
};
pub use gpu_graph::{GpuTaskGraph, Pass};
