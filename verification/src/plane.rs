//! The plane scheduler: twelve nodes, the 31 edge mailboxes, a per-cycle
//! queue of outgoing writes, and the list of writers to unblock.
//!
//! One call to [`ExecutionPlane::step`] advances the whole plane one
//! cycle: nodes are visited in ascending index order (fetch, pre-read,
//! mailbox delivery, execute, write queuing), then the queued writes are
//! flushed into the mailboxes (faulting on an occupied one), and finally
//! the writers whose values were consumed this cycle are retired.  A
//! value placed in a mailbox in one cycle is first observable to
//! consumers in the next.  Every word store is exclusive: two writers
//! aiming at one edge in the same cycle fault the cycle at the second
//! queuing, just as a flush onto an occupied mailbox does, so no written
//! word is ever dropped.
//!
//! The whole cycle is specified by the functional model [`cycle_spec`],
//! and `step` is proved to compute exactly it.

use vstd::prelude::*;

use crate::grid::{edge_index_spec, map_port, neighbor_node_spec, reverse_map_node,
    EDGES_PER_PLANE, NODES_PER_PLANE};
use crate::instr::{Fault, Instruction, Mode};
use crate::node::{ExecutionNode, INSTRUCTIONS_PER_NODE};

verus! {

/// The mathematical state of a plane: the nodes, both edge-indexed word
/// stores, the writer-unblock list, and the twelve programs.
#[verifier::ext_equal]
pub ghost struct PlaneModel {
    pub nodes: Seq<ExecutionNode>,
    pub ports: Seq<Option<i16>>,
    pub queued_writes: Seq<Option<i16>>,
    pub clear_writes: Seq<u8>,
    pub programs: Seq<Seq<Option<Instruction>>>,
}

/// The view of the program store: each inner vector as a sequence.
pub open spec fn programs_view(instructions: Seq<Vec<Option<Instruction>>>) -> Seq<
    Seq<Option<Instruction>>,
> {
    instructions.map_values(|p: Vec<Option<Instruction>>| p@)
}

impl PlaneModel {
    /// Well-formedness: all five stores have their fixed sizes, every
    /// node is well-formed, and the unblock list names only real nodes.
    pub open spec fn wf(self) -> bool {
        &&& self.nodes.len() == NODES_PER_PLANE as nat
        &&& self.ports.len() == EDGES_PER_PLANE as nat
        &&& self.queued_writes.len() == EDGES_PER_PLANE as nat
        &&& self.programs.len() == NODES_PER_PLANE as nat
        &&& forall|q: int|
            0 <= q < NODES_PER_PLANE as int ==> (#[trigger] self.programs[q]).len()
                == INSTRUCTIONS_PER_NODE as nat
        &&& forall|q: int| 0 <= q < NODES_PER_PLANE as int ==> (#[trigger] self.nodes[q]).wf()
        &&& forall|q: int|
            0 <= q < self.clear_writes.len() ==> (#[trigger] self.clear_writes[q])
                < NODES_PER_PLANE as u8
    }
}

/// The blank plane: zeroed nodes, empty mailboxes and queues, empty
/// programs.
pub open spec fn initial_plane() -> PlaneModel {
    PlaneModel {
        nodes: Seq::new(NODES_PER_PLANE as nat, |q: int| ExecutionNode::initial_spec()),
        ports: Seq::new(EDGES_PER_PLANE as nat, |q: int| None),
        queued_writes: Seq::new(EDGES_PER_PLANE as nat, |q: int| None),
        clear_writes: Seq::empty(),
        programs: Seq::new(
            NODES_PER_PLANE as nat,
            |q: int| Seq::new(INSTRUCTIONS_PER_NODE as nat, |s: int| None),
        ),
    }
}

/// Phase A for node `i`: latch an instruction.
pub open spec fn fetch_phase(m: PlaneModel, i: int) -> PlaneModel {
    PlaneModel { nodes: m.nodes.update(i, m.nodes[i].fetch_spec(m.programs[i])), ..m }
}

/// Phase B for node `i`: announce a port read.
pub open spec fn pre_read_phase(m: PlaneModel, i: int) -> (PlaneModel, Result<(), Fault>) {
    let (n1, r) = m.nodes[i].read_step_spec();
    (PlaneModel { nodes: m.nodes.update(i, n1), ..m }, r)
}

/// Mailbox delivery for node `i`: a node in `Read` takes the value, if
/// present, out of the mailbox at its edge, and the neighbor behind an
/// interior edge is remembered for the writer-unblock sweep.  On a
/// stalled read (empty mailbox) nothing changes and no writer is
/// promoted.
pub open spec fn deliver_phase(m: PlaneModel, i: int) -> PlaneModel {
    let n = m.nodes[i];
    if n.mode is Read {
        match n.direction {
            Some(d) => {
                let e = edge_index_spec(d, i);
                match m.ports[e] {
                    Some(v) => {
                        let m1 = PlaneModel {
                            nodes: m.nodes.update(
                                i,
                                ExecutionNode { port_read_buffer: Some(v), ..n },
                            ),
                            ports: m.ports.update(e, None),
                            ..m
                        };
                        match neighbor_node_spec(d, i) {
                            Some(j) => PlaneModel {
                                clear_writes: m1.clear_writes.push(j as u8),
                                ..m1
                            },
                            None => m1,
                        }
                    },
                    None => m,
                }
            },
            None => m,
        }
    } else {
        m
    }
}

/// Phase C for node `i`: execute the latched instruction.
pub open spec fn exec_phase(m: PlaneModel, i: int) -> (PlaneModel, Result<(), Fault>) {
    let (n1, r) = m.nodes[i].step_spec();
    (PlaneModel { nodes: m.nodes.update(i, n1), ..m }, r)
}

/// Write queuing for node `i`: a node that ended its phases in `Write`
/// with a full write buffer has the value moved into the queued-write
/// slot of its edge.  The queue, not the mailbox, receives it, so that
/// readers later in this cycle still see only the previous cycle's
/// mailbox state.  A queued-write slot holds one word per cycle: a
/// second writer aiming at the same edge in the same cycle is a write
/// deadlock, and the first queued word is left in place, never dropped.
pub open spec fn queue_phase(m: PlaneModel, i: int) -> (PlaneModel, Result<(), Fault>) {
    let n = m.nodes[i];
    if n.mode is Write {
        match n.direction {
            Some(d) => match n.port_write_buffer {
                Some(v) => if m.queued_writes[edge_index_spec(d, i)] is Some {
                    (m, Err(Fault::WriteDeadlock))
                } else {
                    (
                        PlaneModel {
                            queued_writes: m.queued_writes.update(
                                edge_index_spec(d, i),
                                Some(v),
                            ),
                            nodes: m.nodes.update(
                                i,
                                ExecutionNode { port_write_buffer: None, ..n },
                            ),
                            ..m
                        },
                        Ok(()),
                    )
                },
                None => (m, Ok(())),
            },
            None => (m, Ok(())),
        }
    } else {
        (m, Ok(()))
    }
}

/// The full visit of node `i`, stopping at the first fault.
pub open spec fn process_node(m: PlaneModel, i: int) -> (PlaneModel, Result<(), Fault>) {
    let ma = fetch_phase(m, i);
    let (mb, rb) = pre_read_phase(ma, i);
    if rb is Err {
        (mb, rb)
    } else {
        let mc = deliver_phase(mb, i);
        let (md, rd) = exec_phase(mc, i);
        if rd is Err {
            (md, rd)
        } else {
            queue_phase(md, i)
        }
    }
}

/// Visits nodes `i .. 12` in ascending order, stopping at the first
/// fault.
pub open spec fn run_nodes_from(m: PlaneModel, i: int) -> (PlaneModel, Result<(), Fault>)
    decreases NODES_PER_PLANE as int - i,
{
    if i < 0 || i >= NODES_PER_PLANE as int {
        (m, Ok(()))
    } else {
        let (m1, r) = process_node(m, i);
        if r is Err {
            (m1, r)
        } else {
            run_nodes_from(m1, i + 1)
        }
    }
}

/// The write flush over edges `e .. 31`: each queued value moves into its
/// mailbox if that mailbox is empty; a full one is a write deadlock and
/// the sweep stops there.
pub open spec fn flush_from(m: PlaneModel, e: int) -> (PlaneModel, Result<(), Fault>)
    decreases EDGES_PER_PLANE as int - e,
{
    if e < 0 || e >= EDGES_PER_PLANE as int {
        (m, Ok(()))
    } else {
        match m.queued_writes[e] {
            Some(v) => if m.ports[e] is Some {
                (m, Err(Fault::WriteDeadlock))
            } else {
                flush_from(
                    PlaneModel {
                        ports: m.ports.update(e, Some(v)),
                        queued_writes: m.queued_writes.update(e, None),
                        ..m
                    },
                    e + 1,
                )
            },
            None => flush_from(m, e + 1),
        }
    }
}

/// The writer-unblock sweep over entries `k ..` of the clear-writes
/// list: each recorded neighbor goes back to `Run` and its pointer moves
/// past the completed `MOV`.
pub open spec fn unblock_from(m: PlaneModel, k: int) -> PlaneModel
    decreases m.clear_writes.len() - k,
{
    if k < 0 || k >= m.clear_writes.len() {
        m
    } else {
        let j = m.clear_writes[k] as int;
        let m1 = if 0 <= j < m.nodes.len() {
            PlaneModel { nodes: m.nodes.update(j, m.nodes[j].resolve_write_spec()), ..m }
        } else {
            m
        };
        unblock_from(m1, k + 1)
    }
}

/// One full cycle: all twelve node visits, the write flush, the writer
/// unblock, and the clearing of the unblock list.  A fault stops the
/// cycle where it happened and leaves the partial state inspectable.
pub open spec fn cycle_spec(m: PlaneModel) -> (PlaneModel, Result<(), Fault>) {
    let (m1, r1) = run_nodes_from(m, 0);
    if r1 is Err {
        (m1, r1)
    } else {
        let (m2, r2) = flush_from(m1, 0);
        if r2 is Err {
            (m2, r2)
        } else {
            let m3 = unblock_from(m2, 0);
            (PlaneModel { clear_writes: Seq::empty(), ..m3 }, Ok(()))
        }
    }
}

/// Replacing one node by a well-formed one preserves plane
/// well-formedness.
pub proof fn lemma_wf_update_node(m: PlaneModel, i: int, n: ExecutionNode)
    requires
        m.wf(),
        0 <= i < NODES_PER_PLANE as int,
        n.wf(),
    ensures
        (PlaneModel { nodes: m.nodes.update(i, n), ..m }).wf(),
{
    let m2 = PlaneModel { nodes: m.nodes.update(i, n), ..m };
    assert forall|q: int| 0 <= q < NODES_PER_PLANE as int implies (#[trigger] m2.nodes[q]).wf() by {
        if q != i {
            assert(m2.nodes[q] == m.nodes[q]);
        }
    }
}

/// The plane: the twelve nodes, the edge mailboxes, the per-cycle queue
/// of outgoing writes, the writer-unblock list, and the program store.
pub struct ExecutionPlane {
    pub nodes: Vec<ExecutionNode>,
    pub ports: Vec<Option<i16>>,
    pub queued_writes: Vec<Option<i16>>,
    pub clear_writes: Vec<u8>,
    pub instructions: Vec<Vec<Option<Instruction>>>,
}

impl View for ExecutionPlane {
    type V = PlaneModel;

    open spec fn view(&self) -> PlaneModel {
        PlaneModel {
            nodes: self.nodes@,
            ports: self.ports@,
            queued_writes: self.queued_writes@,
            clear_writes: self.clear_writes@,
            programs: programs_view(self.instructions@),
        }
    }
}

impl ExecutionPlane {
    /// Builds the blank plane: every node in its initial state, all
    /// mailboxes and queues empty, every program slot empty.
    pub fn new() -> (p: Self)
        ensures
            p@ == initial_plane(),
            p@.wf(),
    {
        let mut nodes: Vec<ExecutionNode> = Vec::new();
        let mut q: usize = 0;
        while q < NODES_PER_PLANE
            invariant
                q <= NODES_PER_PLANE,
                nodes@.len() == q as nat,
                forall|t: int| 0 <= t < q as int ==> nodes@[t] == ExecutionNode::initial_spec(),
            decreases NODES_PER_PLANE - q,
        {
            nodes.push(ExecutionNode::new());
            q = q + 1;
        }
        let mut ports: Vec<Option<i16>> = Vec::new();
        let mut queued_writes: Vec<Option<i16>> = Vec::new();
        let mut e: usize = 0;
        while e < EDGES_PER_PLANE
            invariant
                e <= EDGES_PER_PLANE,
                ports@.len() == e as nat,
                queued_writes@.len() == e as nat,
                forall|t: int| 0 <= t < e as int ==> (#[trigger] ports@[t]) is None,
                forall|t: int| 0 <= t < e as int ==> (#[trigger] queued_writes@[t]) is None,
            decreases EDGES_PER_PLANE - e,
        {
            ports.push(None);
            queued_writes.push(None);
            e = e + 1;
        }
        let mut instructions: Vec<Vec<Option<Instruction>>> = Vec::new();
        let mut q2: usize = 0;
        while q2 < NODES_PER_PLANE
            invariant
                q2 <= NODES_PER_PLANE,
                instructions@.len() == q2 as nat,
                forall|t: int|
                    0 <= t < q2 as int ==> (#[trigger] instructions@[t])@.len()
                        == INSTRUCTIONS_PER_NODE as nat,
                forall|t: int, s: int|
                    0 <= t < q2 as int && 0 <= s < INSTRUCTIONS_PER_NODE as int ==> (
                    #[trigger] instructions@[t]@[s]) is None,
            decreases NODES_PER_PLANE - q2,
        {
            let mut prog: Vec<Option<Instruction>> = Vec::new();
            let mut s: usize = 0;
            while s < INSTRUCTIONS_PER_NODE
                invariant
                    s <= INSTRUCTIONS_PER_NODE,
                    prog@.len() == s as nat,
                    forall|t: int| 0 <= t < s as int ==> (#[trigger] prog@[t]) is None,
                decreases INSTRUCTIONS_PER_NODE - s,
            {
                prog.push(None);
                s = s + 1;
            }
            instructions.push(prog);
            q2 = q2 + 1;
        }
        let p = ExecutionPlane { nodes, ports, queued_writes, clear_writes: Vec::new(), instructions };
        proof {
            assert(p@.programs =~~= initial_plane().programs);
            assert(p@ =~~= initial_plane());
        }
        p
    }

    /// Writes one instruction slot of one node's program.
    pub fn load(
        &mut self,
        node_index: usize,
        slot_index: usize,
        instruction: Option<Instruction>,
    )
        requires
            node_index < NODES_PER_PLANE,
            slot_index < INSTRUCTIONS_PER_NODE,
            old(self)@.wf(),
        ensures
            final(self)@.wf(),
            final(self)@ == (PlaneModel {
                programs: old(self)@.programs.update(
                    node_index as int,
                    old(self)@.programs[node_index as int].update(slot_index as int, instruction),
                ),
                ..old(self)@
            }),
    {
        let prog: &mut Vec<Option<Instruction>> = &mut self.instructions[node_index];
        proof {
            assert(old(self)@.programs[node_index as int] == old(self).instructions@[node_index as int]@);
        }
        prog[slot_index] = instruction;
        proof {
            assert(final(self)@.programs =~~= (PlaneModel {
                programs: old(self)@.programs.update(
                    node_index as int,
                    old(self)@.programs[node_index as int].update(slot_index as int, instruction),
                ),
                ..old(self)@
            }).programs);
            assert(final(self)@ =~~= (PlaneModel {
                programs: old(self)@.programs.update(
                    node_index as int,
                    old(self)@.programs[node_index as int].update(slot_index as int, instruction),
                ),
                ..old(self)@
            }));
        }
    }

    /// Mutable access to one node's 21-slot program, for loading
    /// programs before stepping.
    pub fn get_node_instructions_mut(&mut self, index: u8) -> (r: &mut Vec<Option<Instruction>>)
        requires
            (index as usize) < NODES_PER_PLANE,
            old(self).instructions@.len() == NODES_PER_PLANE as nat,
        ensures
            *r == old(self).instructions@[index as int],
            final(self).instructions@ == old(self).instructions@.update(
                index as int,
                *final(r),
            ),
            final(self).nodes == old(self).nodes,
            final(self).ports == old(self).ports,
            final(self).queued_writes == old(self).queued_writes,
            final(self).clear_writes == old(self).clear_writes,
    {
        &mut self.instructions[index as usize]
    }

    /// The full visit of node `i` within a cycle, proved equal to the
    /// functional model `process_node`.
    fn process_one(&mut self, i: usize) -> (r: Result<(), Fault>)
        requires
            old(self)@.wf(),
            i < NODES_PER_PLANE,
        ensures
            final(self)@.wf(),
            (final(self)@, r) == process_node(old(self)@, i as int),
    {
        let ghost m0 = self@;
        let mut node = self.nodes[i];
        proof {
            assert(m0.nodes[i as int].wf());
            assert(m0.programs[i as int] == self.instructions@[i as int]@);
        }
        node.fetch(self.instructions[i].as_slice());
        self.nodes[i] = node;
        let ghost ma = self@;
        proof {
            m0.nodes[i as int].lemma_fetch_wf(m0.programs[i as int]);
            assert(ma =~= fetch_phase(m0, i as int));
            lemma_wf_update_node(m0, i as int, node);
        }
        let rb = node.read_step();
        self.nodes[i] = node;
        let ghost mb = self@;
        proof {
            ma.nodes[i as int].lemma_read_step_wf();
            assert(mb =~= pre_read_phase(ma, i as int).0);
            lemma_wf_update_node(ma, i as int, node);
        }
        if let Err(f) = rb {
            return Err(f);
        }
        if node.mode == Mode::Read {
            if let Some(d) = node.direction {
                let e = map_port(d, i);
                if self.ports[e].is_some() {
                    node.port_read_buffer = self.ports[e];
                    self.ports[e] = None;
                    if let Some(j) = reverse_map_node(d, i) {
                        self.clear_writes.push(j);
                    }
                    self.nodes[i] = node;
                }
            }
        }
        let ghost mc = self@;
        proof {
            assert(mc =~= deliver_phase(mb, i as int));
            if mc.nodes != mb.nodes {
                lemma_wf_update_node(mb, i as int, node);
            }
            assert(mc.wf());
        }
        let rd = node.step();
        self.nodes[i] = node;
        let ghost md = self@;
        proof {
            mc.nodes[i as int].lemma_step_wf();
            assert(md =~= exec_phase(mc, i as int).0);
            lemma_wf_update_node(mc, i as int, node);
        }
        if let Err(f) = rd {
            return Err(f);
        }
        if node.mode == Mode::Write {
            if let Some(d) = node.direction {
                if node.port_write_buffer.is_some() {
                    let e = map_port(d, i);
                    if self.queued_writes[e].is_some() {
                        // a second writer aimed at this edge in the same
                        // cycle: write deadlock, first queued word kept
                        proof {
                            assert((self@, Err::<(), Fault>(Fault::WriteDeadlock))
                                == queue_phase(md, i as int));
                        }
                        return Err(Fault::WriteDeadlock);
                    }
                    self.queued_writes[e] = node.port_write_buffer;
                    node.port_write_buffer = None;
                    self.nodes[i] = node;
                }
            }
        }
        proof {
            assert(self@ =~= queue_phase(md, i as int).0);
            if self@.nodes != md.nodes {
                lemma_wf_update_node(md, i as int, node);
            }
            assert(self@.wf());
        }
        Ok(())
    }

    /// Advances the plane exactly one cycle, or reports the fault that
    /// stopped it.  The result is exactly the functional cycle model
    /// applied to the old state.
    pub fn step(&mut self) -> (r: Result<(), Fault>)
        requires
            old(self)@.wf(),
        ensures
            final(self)@.wf(),
            (final(self)@, r) == cycle_spec(old(self)@),
    {
        let ghost m0 = self@;
        let mut i: usize = 0;
        while i < NODES_PER_PLANE
            invariant
                i <= NODES_PER_PLANE,
                self@.wf(),
                m0 == old(self)@,
                run_nodes_from(m0, 0) == run_nodes_from(self@, i as int),
            decreases NODES_PER_PLANE - i,
        {
            let ghost m_pre = self@;
            let r = self.process_one(i);
            if let Err(f) = r {
                proof {
                    assert(run_nodes_from(m_pre, i as int) == (self@, Err::<(), Fault>(f)));
                    assert(cycle_spec(m0) == (self@, Err::<(), Fault>(f)));
                }
                return Err(f);
            }
            i = i + 1;
        }
        let ghost m1 = self@;
        proof {
            assert(run_nodes_from(m1, NODES_PER_PLANE as int) == (m1, Ok::<(), Fault>(())));
            assert(run_nodes_from(m0, 0) == (m1, Ok::<(), Fault>(())));
        }
        let mut e: usize = 0;
        while e < EDGES_PER_PLANE
            invariant
                e <= EDGES_PER_PLANE,
                self@.wf(),
                m0 == old(self)@,
                run_nodes_from(m0, 0) == (m1, Ok::<(), Fault>(())),
                flush_from(m1, 0) == flush_from(self@, e as int),
            decreases EDGES_PER_PLANE - e,
        {
            if self.queued_writes[e].is_some() {
                if self.ports[e].is_some() {
                    proof {
                        assert(flush_from(self@, e as int) == (self@, Err::<(), Fault>(
                            Fault::WriteDeadlock,
                        )));
                        assert(cycle_spec(m0) == (self@, Err::<(), Fault>(Fault::WriteDeadlock)));
                    }
                    return Err(Fault::WriteDeadlock);
                }
                let ghost m_pre = self@;
                self.ports[e] = self.queued_writes[e];
                self.queued_writes[e] = None;
                proof {
                    assert(self@ =~= (PlaneModel {
                        ports: m_pre.ports.update(e as int, m_pre.queued_writes[e as int]),
                        queued_writes: m_pre.queued_writes.update(e as int, None),
                        ..m_pre
                    }));
                    assert(flush_from(m_pre, e as int) == flush_from(self@, e as int + 1));
                }
            }
            e = e + 1;
        }
        let ghost m2 = self@;
        proof {
            assert(flush_from(m1, 0) == (m2, Ok::<(), Fault>(())));
        }
        let mut k: usize = 0;
        while k < self.clear_writes.len()
            invariant
                self@.wf(),
                k <= self.clear_writes@.len(),
                self.clear_writes@ == m2.clear_writes,
                run_nodes_from(m0, 0) == (m1, Ok::<(), Fault>(())),
                flush_from(m1, 0) == (m2, Ok::<(), Fault>(())),
                unblock_from(m2, 0) == unblock_from(self@, k as int),
            decreases self.clear_writes@.len() - k,
        {
            let j = self.clear_writes[k] as usize;
            let ghost m_pre = self@;
            let mut node = self.nodes[j];
            node.resolve_write();
            self.nodes[j] = node;
            proof {
                assert(self@ =~= (PlaneModel {
                    nodes: m_pre.nodes.update(j as int, m_pre.nodes[j as int].resolve_write_spec()),
                    ..m_pre
                }));
                assert(unblock_from(m_pre, k as int) == unblock_from(self@, k as int + 1));
                lemma_wf_update_node(m_pre, j as int, node);
            }
            k = k + 1;
        }
        let ghost m3 = self@;
        proof {
            assert(unblock_from(m2, 0) == m3);
        }
        self.clear_writes.clear();
        proof {
            assert(self@ =~= (PlaneModel { clear_writes: Seq::empty(), ..m3 }));
            assert((self@, Ok::<(), Fault>(())) == cycle_spec(m0));
        }
        Ok(())
    }
}

} // verus!
