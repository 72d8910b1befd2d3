//! Deterministic DOT-format rendering of a task graph, for debugging and
//! golden-file tests.  Task nodes are filled in one color; barrier nodes in
//! another and drawn as boxes, labeled with the guarded UID and the access
//! and stage transitions.  Edge labels are empty.

use vstd::prelude::*;

use crate::error::Error;
use crate::graph::GraphModel;
use crate::resource::push_char;
use crate::task::NodeV;
use crate::task_graph::TaskGraph;

verus! {

/// The decimal digit character for a value below ten.
pub open spec fn digit_char(d: nat) -> char {
    if d == 0 {
        '0'
    } else if d == 1 {
        '1'
    } else if d == 2 {
        '2'
    } else if d == 3 {
        '3'
    } else if d == 4 {
        '4'
    } else if d == 5 {
        '5'
    } else if d == 6 {
        '6'
    } else if d == 7 {
        '7'
    } else if d == 8 {
        '8'
    } else {
        '9'
    }
}

/// The decimal rendering of a number, most significant digit first.
pub open spec fn dec_digits(n: nat) -> Seq<char>
    decreases n,
{
    if n < 10 {
        seq![digit_char(n)]
    } else {
        dec_digits(n / 10).push(digit_char(n % 10))
    }
}

/// The digit character of a value below ten.
fn digit_exec(d: u64) -> (c: char)
    requires
        d < 10,
    ensures
        c == digit_char(d as nat),
{
    if d == 0 {
        '0'
    } else if d == 1 {
        '1'
    } else if d == 2 {
        '2'
    } else if d == 3 {
        '3'
    } else if d == 4 {
        '4'
    } else if d == 5 {
        '5'
    } else if d == 6 {
        '6'
    } else if d == 7 {
        '7'
    } else if d == 8 {
        '8'
    } else {
        '9'
    }
}

/// Renders a number in decimal.
fn u64_to_dec(n: u64) -> (r: String)
    ensures
        r@ == dec_digits(n as nat),
    decreases n,
{
    if n < 10 {
        let mut s = String::new();
        push_char(&mut s, digit_exec(n));
        proof {
            assert(s@ =~= seq![digit_char(n as nat)]);
        }
        s
    } else {
        let mut s = u64_to_dec(n / 10);
        push_char(&mut s, digit_exec(n % 10));
        s
    }
}

/// The label of a node: the task identifier, or for a barrier the guarded
/// UID with the access and stage transitions.
pub open spec fn spec_node_label(w: NodeV) -> Seq<char> {
    match w {
        NodeV::Task(t) => "Task: "@ + t.identifier,
        NodeV::Barrier(b) => b.resource.uid + " ("@ + dec_digits(b.src_access as nat) + " -> "@
            + dec_digits(b.dst_access as nat) + ") ("@ + dec_digits(b.src_stage as nat) + " -> "@
            + dec_digits(b.dst_stage as nat) + ")"@,
    }
}

/// The attribute list of a node: tasks and barriers are colored apart, and
/// barriers are drawn as boxes.
pub open spec fn spec_node_attrs(w: NodeV) -> Seq<char> {
    match w {
        NodeV::Task(_) => "fillcolor = \"#5e6df7\""@,
        NodeV::Barrier(_) => "fillcolor = \"#f75e70\" shape=box"@,
    }
}

/// One node statement.
pub open spec fn spec_node_line(m: GraphModel, i: int) -> Seq<char> {
    "    "@ + dec_digits(i as nat) + " [ label = \""@ + spec_node_label(m.nodes[i]) + "\" "@
        + spec_node_attrs(m.nodes[i]) + " ]\n"@
}

/// The node statements for indices from `i` on.
pub open spec fn spec_node_lines(m: GraphModel, i: int) -> Seq<char>
    decreases m.nodes.len() - i,
{
    if i < 0 || i >= m.nodes.len() {
        Seq::empty()
    } else {
        spec_node_line(m, i) + spec_node_lines(m, i + 1)
    }
}

/// One edge statement; edge labels are empty.
pub open spec fn spec_edge_line(a: int, b: int) -> Seq<char> {
    "    "@ + dec_digits(a as nat) + " -> "@ + dec_digits(b as nat) + " [ label = \"\" ]\n"@
}

/// The edge statements of row `a` for targets from `b` on.
pub open spec fn spec_edge_row(m: GraphModel, a: int, b: int) -> Seq<char>
    decreases m.nodes.len() - b,
{
    if b < 0 || b >= m.nodes.len() {
        Seq::empty()
    } else {
        (if m.edges.dom().contains((a, b)) {
            spec_edge_line(a, b)
        } else {
            Seq::empty()
        }) + spec_edge_row(m, a, b + 1)
    }
}

/// The edge statements for source rows from `a` on, each row in target
/// order.
pub open spec fn spec_edge_lines(m: GraphModel, a: int) -> Seq<char>
    decreases m.nodes.len() - a,
{
    if a < 0 || a >= m.nodes.len() {
        Seq::empty()
    } else {
        spec_edge_row(m, a, 0) + spec_edge_lines(m, a + 1)
    }
}

/// The whole DOT document of a graph.
pub open spec fn spec_dot(m: GraphModel) -> Seq<char> {
    "digraph {\n"@ + spec_node_lines(m, 0) + spec_edge_lines(m, 0) + "}\n"@
}

impl TaskGraph {
    /// The label a node carries in the DOT rendering.
    pub fn node_label(&self, i: usize) -> (r: Result<String, Error>)
        ensures
            match r {
                Ok(l) => i < self@.nodes.len() && l@ == spec_node_label(self@.nodes[i as int]),
                Err(e) => i >= self@.nodes.len() && e == Error::NodeNotFound,
            },
    {
        let w = self.node(i)?;
        match w {
            crate::task::Node::Task(t) => {
                let mut s = String::from_str("Task: ");
                s.append(t.identifier.as_str());
                Ok(s)
            },
            crate::task::Node::Barrier(b) => {
                let mut s = b.resource.uid().clone();
                s.append(" (");
                s.append(u64_to_dec(b.src_access).as_str());
                s.append(" -> ");
                s.append(u64_to_dec(b.dst_access).as_str());
                s.append(") (");
                s.append(u64_to_dec(b.src_stage).as_str());
                s.append(" -> ");
                s.append(u64_to_dec(b.dst_stage).as_str());
                s.append(")");
                Ok(s)
            },
        }
    }

    /// Renders the graph as a DOT document.
    pub fn dot(&self) -> (r: Result<String, Error>)
        ensures
            r matches Ok(s) && s@ == spec_dot(self@),
    {
        let n = self.num_nodes();
        let mut out = String::from_str("digraph {\n");
        proof {
            assert(out@ + spec_node_lines(self@, 0) =~= "digraph {\n"@ + spec_node_lines(
                self@,
                0,
            ));
        }
        for i in 0..n
            invariant
                n == self@.nodes.len(),
                out@ + spec_node_lines(self@, i as int) == "digraph {\n"@ + spec_node_lines(
                    self@,
                    0,
                ),
        {
            let w = match self.node(i) {
                Ok(w) => w,
                Err(_) => {
                    proof {
                        assert(false);
                    }
                    return Err(Error::NodeNotFound);
                },
            };
            out.append("    ");
            out.append(u64_to_dec(i as u64).as_str());
            out.append(" [ label = \"");
            let lab = match self.node_label(i) {
                Ok(l) => l,
                Err(_) => {
                    proof {
                        assert(false);
                    }
                    return Err(Error::NodeNotFound);
                },
            };
            out.append(lab.as_str());
            out.append("\" ");
            match &w {
                crate::task::Node::Task(_) => out.append("fillcolor = \"#5e6df7\""),
                crate::task::Node::Barrier(_) => out.append("fillcolor = \"#f75e70\" shape=box"),
            }
            out.append(" ]\n");
            proof {
                assert(spec_node_lines(self@, i as int) == spec_node_line(self@, i as int)
                    + spec_node_lines(self@, i + 1));
                assert(out@ + spec_node_lines(self@, i + 1) =~= "digraph {\n"@ + spec_node_lines(
                    self@,
                    0,
                ));
            }
        }
        let ghost full = "digraph {\n"@ + spec_node_lines(self@, 0) + spec_edge_lines(self@, 0);
        proof {
            assert(spec_node_lines(self@, n as int).len() == 0);
            assert(out@ + spec_edge_lines(self@, 0) =~= full);
        }
        for a in 0..n
            invariant
                n == self@.nodes.len(),
                full == "digraph {\n"@ + spec_node_lines(self@, 0) + spec_edge_lines(self@, 0),
                out@ + spec_edge_lines(self@, a as int) == full,
        {
            proof {
                assert(spec_edge_lines(self@, a as int) == spec_edge_row(self@, a as int, 0)
                    + spec_edge_lines(self@, a + 1));
            }
            for b in 0..n
                invariant
                    n == self@.nodes.len(),
                    a < n,
                    full == "digraph {\n"@ + spec_node_lines(self@, 0) + spec_edge_lines(
                        self@,
                        0,
                    ),
                    out@ + spec_edge_row(self@, a as int, b as int) + spec_edge_lines(
                        self@,
                        a + 1,
                    ) == full,
            {
                if self.edge(a, b).is_some() {
                    out.append("    ");
                    out.append(u64_to_dec(a as u64).as_str());
                    out.append(" -> ");
                    out.append(u64_to_dec(b as u64).as_str());
                    out.append(" [ label = \"\" ]\n");
                }
                proof {
                    assert(spec_edge_row(self@, a as int, b as int) == (if self@.edges.dom()
                        .contains((a as int, b as int)) {
                        spec_edge_line(a as int, b as int)
                    } else {
                        Seq::empty()
                    }) + spec_edge_row(self@, a as int, b + 1));
                    assert(out@ + spec_edge_row(self@, a as int, b + 1) + spec_edge_lines(
                        self@,
                        a + 1,
                    ) =~= full);
                }
            }
            proof {
                assert(spec_edge_row(self@, a as int, n as int).len() == 0);
                assert(out@ + spec_edge_lines(self@, a + 1) =~= full);
            }
        }
        out.append("}\n");
        proof {
            assert(out@ =~= spec_dot(self@));
        }
        Ok(out)
    }
}

} // verus!
