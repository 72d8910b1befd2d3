use phobos::gpu_graph::{GpuTaskGraph, Pass};
use phobos::resource::{ACCESS_COLOR_ATTACHMENT_WRITE, ACCESS_SHADER_READ, STAGE_TOP_OF_PIPE};
use phobos::{Error, GpuResource, Node, ResourceUsage, VirtualResource};

fn res(uid: &str, usage: ResourceUsage, stage: u64) -> GpuResource {
    GpuResource {
        usage,
        resource: VirtualResource::new(uid.to_string()),
        stage,
    }
}

fn pass(name: &str, inputs: Vec<GpuResource>, outputs: Vec<GpuResource>) -> Pass {
    Pass {
        name: name.to_string(),
        inputs,
        outputs,
    }
}

const STAGE_FRAGMENT: u64 = 0x80;
const STAGE_COMPUTE: u64 = 0x800;

fn barrier_nodes(g: &GpuTaskGraph) -> Vec<usize> {
    let tg = g.task_graph();
    let mut out = Vec::new();
    for i in 0..tg.num_nodes() {
        if let Ok(Node::Barrier(_)) = tg.node(i) {
            out.push(i);
        }
    }
    out
}

#[test]
fn new_graph_holds_only_source() {
    let g = GpuTaskGraph::new();
    assert_eq!(g.num_nodes(), 1);
    assert_eq!(g.source(), 0);
    match g.task_graph().node(0).unwrap() {
        Node::Task(t) => {
            assert_eq!(t.identifier, "_source");
            assert!(t.inputs.is_empty());
            assert!(t.outputs.is_empty());
        }
        Node::Barrier(_) => panic!("source must be a task"),
    }
}

#[test]
fn single_pass_single_output() {
    // One pass reading the original "color" and writing its next version.
    let mut g = GpuTaskGraph::new();
    g.add_pass(pass(
        "draw",
        vec![res("color", ResourceUsage::ShaderRead, STAGE_FRAGMENT)],
        vec![res("color+", ResourceUsage::Attachment, STAGE_FRAGMENT)],
    ))
    .unwrap();
    // Source injection happened before insertion.
    match g.task_graph().node(0).unwrap() {
        Node::Task(t) => {
            assert_eq!(t.outputs.len(), 1);
            assert_eq!(t.outputs[0].uid(), "color");
            assert_eq!(t.outputs[0].usage, ResourceUsage::Nothing);
            assert_eq!(t.outputs[0].stage, STAGE_TOP_OF_PIPE);
        }
        Node::Barrier(_) => panic!("source must be a task"),
    }
    g.build().unwrap();
    // Nodes: source, task, and one barrier carrying "color".
    assert_eq!(g.num_nodes(), 3);
    let bars = barrier_nodes(&g);
    assert_eq!(bars, vec![2]);
    match g.task_graph().node(2).unwrap() {
        Node::Barrier(b) => assert_eq!(b.resource.uid(), "color"),
        Node::Task(_) => panic!("expected a barrier"),
    }
    assert!(g.task_graph().edge(0, 2).is_some());
    assert!(g.task_graph().edge(2, 1).is_some());
    assert!(g.task_graph().edge(0, 1).is_none());
    let dot = g.task_graph().dot().unwrap();
    assert!(dot.contains("color"));
    assert!(dot.contains("Task: draw"));
    assert!(dot.contains("Task: _source"));
}

#[test]
fn linear_pipeline_transition() {
    // Pass a writes the versioned "depth+"; pass b reads it from shaders.
    let mut g = GpuTaskGraph::new();
    g.add_pass(pass(
        "a",
        vec![],
        vec![res("depth+", ResourceUsage::Attachment, STAGE_FRAGMENT)],
    ))
    .unwrap();
    g.add_pass(pass(
        "b",
        vec![res("depth+", ResourceUsage::ShaderRead, STAGE_COMPUTE)],
        vec![],
    ))
    .unwrap();
    g.build().unwrap();
    // Nodes: source, a, b, one barrier.
    assert_eq!(g.num_nodes(), 4);
    let bars = barrier_nodes(&g);
    assert_eq!(bars.len(), 1);
    let bi = bars[0];
    match g.task_graph().node(bi).unwrap() {
        Node::Barrier(b) => {
            assert_eq!(b.resource.uid(), "depth+");
            assert_eq!(b.src_access, ACCESS_COLOR_ATTACHMENT_WRITE);
            assert_eq!(b.dst_access, ACCESS_SHADER_READ);
            assert_eq!(b.src_stage, STAGE_FRAGMENT);
            assert_eq!(b.dst_stage, STAGE_COMPUTE);
        }
        Node::Task(_) => panic!("expected a barrier"),
    }
    // The direct edge a -> b was replaced by the barrier chain.
    assert!(g.task_graph().edge(1, 2).is_none());
    assert!(g.task_graph().edge(1, bi).is_some());
    assert!(g.task_graph().edge(bi, 2).is_some());
}

#[test]
fn fan_out_merges_to_one_barrier() {
    // One producer, two shader-read consumers: one barrier with edges to
    // both, and the union of their stage bits.
    let mut g = GpuTaskGraph::new();
    g.add_pass(pass(
        "a",
        vec![],
        vec![res("x+", ResourceUsage::Attachment, STAGE_FRAGMENT)],
    ))
    .unwrap();
    g.add_pass(pass(
        "b",
        vec![res("x+", ResourceUsage::ShaderRead, STAGE_FRAGMENT)],
        vec![],
    ))
    .unwrap();
    g.add_pass(pass(
        "c",
        vec![res("x+", ResourceUsage::ShaderRead, STAGE_COMPUTE)],
        vec![],
    ))
    .unwrap();
    g.build().unwrap();
    // Nodes: source, a, b, c, one surviving barrier.
    assert_eq!(g.num_nodes(), 5);
    let bars = barrier_nodes(&g);
    assert_eq!(bars.len(), 1);
    let bi = bars[0];
    match g.task_graph().node(bi).unwrap() {
        Node::Barrier(b) => {
            assert_eq!(b.resource.uid(), "x+");
            assert_eq!(b.dst_access, ACCESS_SHADER_READ);
            // Access union correctness on concrete values: both consumers'
            // stages are OR-ed into the surviving barrier.
            assert_eq!(b.dst_stage, STAGE_FRAGMENT | STAGE_COMPUTE);
        }
        Node::Task(_) => panic!("expected a barrier"),
    }
    assert!(g.task_graph().edge(1, bi).is_some());
    assert!(g.task_graph().edge(bi, 2).is_some());
    assert!(g.task_graph().edge(bi, 3).is_some());
}

#[test]
fn incompatible_writes_rejected() {
    // Two consumers of one resource whose usages both write but differ
    // cannot share a barrier: build fails with IllegalTaskGraph.
    let mut g = GpuTaskGraph::new();
    g.add_pass(pass(
        "p",
        vec![],
        vec![res("buf+", ResourceUsage::Attachment, STAGE_FRAGMENT)],
    ))
    .unwrap();
    g.add_pass(pass(
        "q1",
        vec![res("buf+", ResourceUsage::Attachment, STAGE_FRAGMENT)],
        vec![],
    ))
    .unwrap();
    g.add_pass(pass(
        "q2",
        vec![res("buf+", ResourceUsage::ShaderWrite, STAGE_COMPUTE)],
        vec![],
    ))
    .unwrap();
    assert_eq!(g.build(), Err(Error::IllegalTaskGraph));
}

#[test]
fn compatible_writers_merge() {
    // Two consumers writing the same way are merged without complaint.
    let mut g = GpuTaskGraph::new();
    g.add_pass(pass(
        "p",
        vec![],
        vec![res("buf+", ResourceUsage::Attachment, STAGE_FRAGMENT)],
    ))
    .unwrap();
    g.add_pass(pass(
        "q1",
        vec![res("buf+", ResourceUsage::Attachment, STAGE_FRAGMENT)],
        vec![],
    ))
    .unwrap();
    g.add_pass(pass(
        "q2",
        vec![res("buf+", ResourceUsage::Attachment, STAGE_FRAGMENT)],
        vec![],
    ))
    .unwrap();
    assert!(g.build().is_ok());
    assert_eq!(barrier_nodes(&g).len(), 1);
}

#[test]
fn cycle_rejected_on_closing_pass() {
    // a consumes v1 and produces v2; b consumes v2 and produces v1: the
    // second insertion closes a cycle and is rejected.
    let mut g = GpuTaskGraph::new();
    g.add_pass(pass(
        "a",
        vec![res("v1", ResourceUsage::ShaderRead, STAGE_COMPUTE)],
        vec![res("v2", ResourceUsage::ShaderWrite, STAGE_COMPUTE)],
    ))
    .unwrap();
    let r = g.add_pass(pass(
        "b",
        vec![res("v2", ResourceUsage::ShaderRead, STAGE_COMPUTE)],
        vec![res("v1", ResourceUsage::ShaderWrite, STAGE_COMPUTE)],
    ));
    assert_eq!(r, Err(Error::GraphHasCycle));
}

#[test]
fn self_dependent_pass_rejected() {
    let mut g = GpuTaskGraph::new();
    let r = g.add_pass(pass(
        "loopy",
        vec![res("t+", ResourceUsage::ShaderRead, STAGE_COMPUTE)],
        vec![res("t+", ResourceUsage::ShaderWrite, STAGE_COMPUTE)],
    ));
    assert_eq!(r, Err(Error::GraphHasCycle));
}

#[test]
fn source_injection() {
    // An original input makes the synthetic source its producer.
    let mut g = GpuTaskGraph::new();
    g.add_pass(pass(
        "p",
        vec![res("img", ResourceUsage::ShaderRead, STAGE_COMPUTE)],
        vec![],
    ))
    .unwrap();
    g.build().unwrap();
    match g.task_graph().node(0).unwrap() {
        Node::Task(t) => {
            assert_eq!(t.identifier, "_source");
            assert_eq!(t.outputs.len(), 1);
            assert_eq!(t.outputs[0].uid(), "img");
            assert_eq!(t.outputs[0].usage, ResourceUsage::Nothing);
            assert_eq!(t.outputs[0].stage, STAGE_TOP_OF_PIPE);
        }
        Node::Barrier(_) => panic!("source must be a task"),
    }
    let bars = barrier_nodes(&g);
    assert_eq!(bars.len(), 1);
    let bi = bars[0];
    match g.task_graph().node(bi).unwrap() {
        Node::Barrier(b) => assert_eq!(b.resource.uid(), "img"),
        Node::Task(_) => panic!("expected a barrier"),
    }
    assert!(g.task_graph().edge(0, bi).is_some());
    assert!(g.task_graph().edge(bi, 1).is_some());
}

#[test]
fn merge_twice_is_idempotent() {
    // Merge idempotence on concrete values: running barrier merging a
    // second time leaves the rendered graph unchanged.
    let mut g = GpuTaskGraph::new();
    g.add_pass(pass(
        "a",
        vec![],
        vec![res("x+", ResourceUsage::Attachment, STAGE_FRAGMENT)],
    ))
    .unwrap();
    g.add_pass(pass(
        "b",
        vec![res("x+", ResourceUsage::ShaderRead, STAGE_COMPUTE)],
        vec![],
    ))
    .unwrap();
    g.add_pass(pass(
        "c",
        vec![res("x+", ResourceUsage::ShaderRead, STAGE_COMPUTE)],
        vec![],
    ))
    .unwrap();
    g.build().unwrap();
    let once = g.task_graph().dot().unwrap();
    g.merge_identical_barriers().unwrap();
    let twice = g.task_graph().dot().unwrap();
    assert_eq!(once, twice);
}

#[test]
fn barrier_coverage_pairs() {
    // Barrier coverage on concrete values: after build, every
    // producer/consumer pair over one UID is connected by exactly one
    // barrier guarding that UID.
    let mut g = GpuTaskGraph::new();
    g.add_pass(pass(
        "a",
        vec![],
        vec![
            res("x+", ResourceUsage::Attachment, STAGE_FRAGMENT),
            res("y+", ResourceUsage::Attachment, STAGE_FRAGMENT),
        ],
    ))
    .unwrap();
    g.add_pass(pass(
        "b",
        vec![
            res("x+", ResourceUsage::ShaderRead, STAGE_COMPUTE),
            res("y+", ResourceUsage::ShaderRead, STAGE_COMPUTE),
        ],
        vec![],
    ))
    .unwrap();
    g.build().unwrap();
    let tg = g.task_graph();
    // Producer a is node 1, consumer b is node 2.
    for uid in ["x+", "y+"] {
        let mut found = 0;
        for c in 0..tg.num_nodes() {
            if let Ok(Node::Barrier(b)) = tg.node(c) {
                if b.resource.uid() == uid
                    && tg.edge(1, c).is_some()
                    && tg.edge(c, 2).is_some()
                {
                    found += 1;
                }
            }
        }
        assert_eq!(found, 1);
    }
}

#[test]
fn node_lookup_out_of_range() {
    let g = GpuTaskGraph::new();
    assert_eq!(
        g.task_graph().node(7).err(),
        Some(Error::NodeNotFound)
    );
}

#[test]
fn barrier_resources_after_build() {
    let mut g = GpuTaskGraph::new();
    g.add_pass(pass(
        "a",
        vec![],
        vec![res("d+", ResourceUsage::Attachment, STAGE_FRAGMENT)],
    ))
    .unwrap();
    g.add_pass(pass(
        "b",
        vec![res("d+", ResourceUsage::ShaderRead, STAGE_COMPUTE)],
        vec![],
    ))
    .unwrap();
    g.build().unwrap();
    let bi = barrier_nodes(&g)[0];
    // The barrier's destination resource is the consumer's declaration.
    let dst = GpuTaskGraph::barrier_dst_resource(g.task_graph(), bi).unwrap();
    assert_eq!(dst.uid(), "d+");
    assert_eq!(dst.usage, ResourceUsage::ShaderRead);
    assert_eq!(dst.stage, STAGE_COMPUTE);
    // Asking for the destination of a task node is an error.
    assert_eq!(
        GpuTaskGraph::barrier_dst_resource(g.task_graph(), 0).err(),
        Some(Error::NodeNotFound)
    );
}

#[test]
fn dot_renders_transitions() {
    let mut g = GpuTaskGraph::new();
    g.add_pass(pass(
        "a",
        vec![],
        vec![res("d+", ResourceUsage::Attachment, STAGE_FRAGMENT)],
    ))
    .unwrap();
    g.add_pass(pass(
        "b",
        vec![res("d+", ResourceUsage::ShaderRead, STAGE_COMPUTE)],
        vec![],
    ))
    .unwrap();
    g.build().unwrap();
    let dot = g.task_graph().dot().unwrap();
    assert!(dot.starts_with("digraph {\n"));
    assert!(dot.ends_with("}\n"));
    // src access 0x100 -> dst access 0x8000, both rendered in decimal.
    assert!(dot.contains("d+ (256 -> 32768)"));
    assert!(dot.contains("shape=box"));
    assert!(dot.contains("3 -> 2 [ label = \"\" ]"));
}

#[test]
fn barrier_src_resource_reads_producer_inputs() {
    // The source-side lookup scans the producing task's declared inputs for
    // the barrier's UID; a producer that does not also declare the resource
    // as an input has no such declaration.
    let mut g = GpuTaskGraph::new();
    g.add_pass(pass(
        "a",
        vec![res("d", ResourceUsage::ShaderRead, STAGE_COMPUTE)],
        vec![res("d+", ResourceUsage::Attachment, STAGE_FRAGMENT)],
    ))
    .unwrap();
    g.add_pass(pass(
        "b",
        vec![res("d+", ResourceUsage::ShaderRead, STAGE_COMPUTE)],
        vec![],
    ))
    .unwrap();
    g.build().unwrap();
    // Find the barrier guarding "d+"; its producer a declares input "d" only.
    let mut checked = false;
    let tg = g.task_graph();
    for i in 0..tg.num_nodes() {
        if let Ok(Node::Barrier(b)) = tg.node(i) {
            if b.resource.uid() == "d+" {
                assert_eq!(
                    GpuTaskGraph::barrier_src_resource(tg, i).err(),
                    Some(Error::NodeNotFound)
                );
                checked = true;
            }
            if b.resource.uid() == "d" {
                // The barrier for "d" runs from the source task, which has
                // no inputs at all.
                assert_eq!(
                    GpuTaskGraph::barrier_src_resource(tg, i).err(),
                    Some(Error::NodeNotFound)
                );
            }
        }
    }
    assert!(checked);
}

#[test]
fn dot_golden_document() {
    let mut g = GpuTaskGraph::new();
    g.add_pass(pass(
        "draw",
        vec![res("color", ResourceUsage::ShaderRead, STAGE_FRAGMENT)],
        vec![res("color+", ResourceUsage::Attachment, STAGE_FRAGMENT)],
    ))
    .unwrap();
    g.build().unwrap();
    let dot = g.task_graph().dot().unwrap();
    let mut expected = String::new();
    expected.push_str("digraph {\n");
    expected.push_str("    0 [ label = \"Task: _source\" fillcolor = \"#5e6df7\" ]\n");
    expected.push_str("    1 [ label = \"Task: draw\" fillcolor = \"#5e6df7\" ]\n");
    expected.push_str(
        "    2 [ label = \"color (0 -> 32768) (1 -> 128)\" fillcolor = \"#f75e70\" shape=box ]\n",
    );
    expected.push_str("    0 -> 2 [ label = \"\" ]\n");
    expected.push_str("    2 -> 1 [ label = \"\" ]\n");
    expected.push_str("}\n");
    assert_eq!(dot, expected);
}

#[test]
fn producer_write_write_rejected() {
    // Two tasks output "buf" with different non-read usages: two concurrent
    // writers that no barrier can serialize, rejected even without a
    // consumer, and the graph is left unchanged.
    let mut g = GpuTaskGraph::new();
    g.add_pass(pass(
        "a",
        vec![],
        vec![res("buf", ResourceUsage::ShaderWrite, STAGE_COMPUTE)],
    ))
    .unwrap();
    g.add_pass(pass(
        "b",
        vec![],
        vec![res("buf", ResourceUsage::Attachment, STAGE_FRAGMENT)],
    ))
    .unwrap();
    assert_eq!(g.build(), Err(Error::IllegalTaskGraph));
    assert_eq!(g.num_nodes(), 3);
    assert!(barrier_nodes(&g).is_empty());
}

#[test]
fn producers_with_equal_usage_accepted() {
    let mut g = GpuTaskGraph::new();
    g.add_pass(pass(
        "a",
        vec![],
        vec![res("buf", ResourceUsage::Attachment, STAGE_FRAGMENT)],
    ))
    .unwrap();
    g.add_pass(pass(
        "b",
        vec![],
        vec![res("buf", ResourceUsage::Attachment, STAGE_FRAGMENT)],
    ))
    .unwrap();
    assert!(g.build().is_ok());
}

#[test]
fn produced_original_input_keeps_its_producer() {
    // a outputs the original "depth"; b reads it.  The source does not
    // become a second producer, so exactly one barrier runs from a to b and
    // carries a's write as its source side.
    let mut g = GpuTaskGraph::new();
    g.add_pass(pass(
        "a",
        vec![],
        vec![res("depth", ResourceUsage::Attachment, STAGE_FRAGMENT)],
    ))
    .unwrap();
    g.add_pass(pass(
        "b",
        vec![res("depth", ResourceUsage::ShaderRead, STAGE_COMPUTE)],
        vec![],
    ))
    .unwrap();
    // No source injection: a already produces "depth".
    match g.task_graph().node(0).unwrap() {
        Node::Task(t) => assert!(t.outputs.is_empty()),
        Node::Barrier(_) => panic!("source must be a task"),
    }
    g.build().unwrap();
    assert_eq!(g.num_nodes(), 4);
    let bars = barrier_nodes(&g);
    assert_eq!(bars.len(), 1);
    let bi = bars[0];
    match g.task_graph().node(bi).unwrap() {
        Node::Barrier(b) => {
            assert_eq!(b.resource.uid(), "depth");
            assert_eq!(b.src_access, ACCESS_COLOR_ATTACHMENT_WRITE);
            assert_eq!(b.src_stage, STAGE_FRAGMENT);
            assert_eq!(b.dst_access, ACCESS_SHADER_READ);
            assert_eq!(b.dst_stage, STAGE_COMPUTE);
        }
        Node::Task(_) => panic!("expected a barrier"),
    }
    assert!(g.task_graph().edge(1, bi).is_some());
    assert!(g.task_graph().edge(bi, 2).is_some());
}
