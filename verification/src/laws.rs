//! The general laws of the engine, stated over the functional cycle
//! model and proved once and for all: register and pointer bounds,
//! exclusive occupancy of the mailboxes and the queued-write slots, the
//! stalled-node pointer guarantee, exact saturating arithmetic, the
//! involution of `SWP`, and the bit-exact transport of a word across a
//! port.

use vstd::prelude::*;

use crate::grid::{edge_index_spec, EDGES_PER_PLANE, NODES_PER_PLANE};
use crate::instr::{sat_word, Dst, Instruction, Port, Register, Src, TruePort};
use crate::node::{ExecutionNode, INSTRUCTIONS_PER_NODE};
use crate::plane::{cycle_spec, deliver_phase, exec_phase, fetch_phase, flush_from,
    pre_read_phase, process_node, queue_phase, run_nodes_from, unblock_from, PlaneModel};

verus! {

/// On a well-formed plane every node's instruction pointer lies in
/// `[0, 21)`, and `step` keeps the plane well-formed, so this holds
/// after every cycle.
pub proof fn lemma_instruction_pointers_in_range(m: PlaneModel)
    requires
        m.wf(),
    ensures
        forall|j: int|
            0 <= j < NODES_PER_PLANE as int ==> (#[trigger] m.nodes[j]).instruction_pointer
                < INSTRUCTIONS_PER_NODE as u8,
{
    assert forall|j: int|
        0 <= j < NODES_PER_PLANE as int implies (#[trigger] m.nodes[j]).instruction_pointer
        < INSTRUCTIONS_PER_NODE as u8 by {
        assert(m.nodes[j].wf());
    }
}

/// Both registers of every node always lie in the 16-bit word range.
pub proof fn lemma_registers_bounded(n: ExecutionNode)
    ensures
        -32768 <= n.acc as int <= 32767,
        -32768 <= n.bak as int <= 32767,
{
}

/// The write flush never overwrites an occupied mailbox: when the
/// flush completes without fault, every mailbox that already held a
/// value still holds that same value.  (A queued write aimed at an
/// occupied mailbox would instead have stopped the flush with a write
/// deadlock.)
pub proof fn lemma_flush_never_overwrites(m: PlaneModel, e0: int, e: int)
    requires
        flush_from(m, e0).1 is Ok,
        m.ports.len() == EDGES_PER_PLANE as nat,
        m.queued_writes.len() == EDGES_PER_PLANE as nat,
        0 <= e < EDGES_PER_PLANE as int,
        m.ports[e] is Some,
    ensures
        flush_from(m, e0).0.ports[e] == m.ports[e],
    decreases EDGES_PER_PLANE as int - e0,
{
    if e0 < 0 || e0 >= EDGES_PER_PLANE as int {
    } else {
        match m.queued_writes[e0] {
            Some(v) => {
                let m1 = PlaneModel {
                    ports: m.ports.update(e0, Some(v)),
                    queued_writes: m.queued_writes.update(e0, None),
                    ..m
                };
                assert(e != e0);
                assert(m1.ports[e] == m.ports[e]);
                lemma_flush_never_overwrites(m1, e0 + 1, e);
            },
            None => {
                lemma_flush_never_overwrites(m, e0 + 1, e);
            },
        }
    }
}

/// A fault-free visit never replaces an occupied queued-write slot: a
/// second writer aiming at an edge whose slot already holds this
/// cycle's word is a write deadlock, so under `Ok` the first queued
/// word is still there, never dropped.
pub proof fn lemma_queue_never_overwrites(m: PlaneModel, i: int, e: int)
    requires
        m.wf(),
        0 <= i < NODES_PER_PLANE as int,
        0 <= e < EDGES_PER_PLANE as int,
        process_node(m, i).1 is Ok,
        m.queued_writes[e] is Some,
    ensures
        process_node(m, i).0.queued_writes[e] == m.queued_writes[e],
{
    assert(m.nodes[i].wf());
}

/// Over all the node visits of a fault-free cycle, an occupied
/// queued-write slot keeps its word.
pub proof fn lemma_visits_never_overwrite_queued(m: PlaneModel, i: int, e: int)
    requires
        m.wf(),
        0 <= i <= NODES_PER_PLANE as int,
        0 <= e < EDGES_PER_PLANE as int,
        run_nodes_from(m, i).1 is Ok,
        m.queued_writes[e] is Some,
    ensures
        run_nodes_from(m, i).0.queued_writes[e] == m.queued_writes[e],
    decreases NODES_PER_PLANE as int - i,
{
    if i < 0 || i >= NODES_PER_PLANE as int {
    } else {
        lemma_queue_never_overwrites(m, i, e);
        lemma_process_node_wf(m, i);
        let (m1, r) = process_node(m, i);
        lemma_visits_never_overwrite_queued(m1, i + 1, e);
    }
}

/// A fault-free write flush moves every queued word, bit for bit, into
/// the mailbox of its edge.
pub proof fn lemma_flush_delivers(m: PlaneModel, e0: int, e: int, v: i16)
    requires
        flush_from(m, e0).1 is Ok,
        0 <= e0 <= e < EDGES_PER_PLANE as int,
        m.ports.len() == EDGES_PER_PLANE as nat,
        m.queued_writes.len() == EDGES_PER_PLANE as nat,
        m.queued_writes[e] == Some(v),
    ensures
        flush_from(m, e0).0.ports[e] == Some(v),
    decreases EDGES_PER_PLANE as int - e0,
{
    if e0 == e {
        let m1 = PlaneModel {
            ports: m.ports.update(e, Some(v)),
            queued_writes: m.queued_writes.update(e, None),
            ..m
        };
        lemma_flush_never_overwrites(m1, e + 1, e);
    } else {
        match m.queued_writes[e0] {
            Some(w) => {
                let m1 = PlaneModel {
                    ports: m.ports.update(e0, Some(w)),
                    queued_writes: m.queued_writes.update(e0, None),
                    ..m
                };
                lemma_flush_delivers(m1, e0 + 1, e, v);
            },
            None => {
                lemma_flush_delivers(m, e0 + 1, e, v);
            },
        }
    }
}

/// A fault-free flush lands a writer's queued word, bit for bit, in
/// the very mailbox its neighbor reads back through: the edge a node
/// reaches in direction `d` is the edge the neighbor reaches in the
/// reversed direction.
pub proof fn lemma_queued_word_reaches_neighbor(m: PlaneModel, i: int, d: TruePort, j: int, v: i16)
    requires
        0 <= i < NODES_PER_PLANE as int,
        d !is Any,
        crate::grid::neighbor_node_spec(d, i) == Some(j),
        m.ports.len() == EDGES_PER_PLANE as nat,
        m.queued_writes.len() == EDGES_PER_PLANE as nat,
        m.queued_writes[edge_index_spec(d, i)] == Some(v),
        flush_from(m, 0).1 is Ok,
    ensures
        flush_from(m, 0).0.ports[edge_index_spec(d.reverse_spec(), j)] == Some(v),
{
    crate::grid::lemma_edge_shared_with_neighbor(d, i, j);
    lemma_flush_delivers(m, 0, edge_index_spec(d, i), v);
}

/// The delivery phase hands a reading node exactly the word that sat in
/// the mailbox of its edge: the transport from mailbox to read buffer
/// is bit-identical.  Together with `lemma_flush_delivers` this is the
/// round trip over a port: a queued word reaches its mailbox unchanged,
/// and a mailbox word reaches the consuming node unchanged.
pub proof fn lemma_read_takes_mailbox_value(m: PlaneModel, i: int, v: i16)
    requires
        0 <= i < m.nodes.len(),
        m.nodes[i].mode is Read,
        m.nodes[i].direction is Some,
        m.ports[edge_index_spec(m.nodes[i].direction->0, i)] == Some(v),
    ensures
        deliver_phase(m, i).nodes[i].port_read_buffer == Some(v),
{
}

/// During the node visits of a cycle a mailbox can only be emptied,
/// never filled: new values reach the mailboxes only in the write flush,
/// after every node has run.  A word placed in a mailbox in one cycle is
/// therefore first observable to consumers in the next cycle.
pub proof fn lemma_process_node_only_drains(m: PlaneModel, i: int, e: int)
    requires
        m.wf(),
        0 <= i < NODES_PER_PLANE as int,
        0 <= e < EDGES_PER_PLANE as int,
    ensures
        process_node(m, i).0.ports.len() == m.ports.len(),
        process_node(m, i).0.ports[e] == m.ports[e] || process_node(m, i).0.ports[e] is None,
{
    assert(m.nodes[i].wf());
}

/// The whole sweep of node visits only drains mailboxes.
pub proof fn lemma_visits_only_drain_mailboxes(m: PlaneModel, i: int, e: int)
    requires
        m.wf(),
        0 <= i <= NODES_PER_PLANE as int,
        0 <= e < EDGES_PER_PLANE as int,
    ensures
        run_nodes_from(m, i).0.ports.len() == m.ports.len(),
        run_nodes_from(m, i).0.ports[e] == m.ports[e] || run_nodes_from(m, i).0.ports[e] is None,
    decreases NODES_PER_PLANE as int - i,
{
    if i < 0 || i >= NODES_PER_PLANE as int {
    } else {
        lemma_process_node_only_drains(m, i, e);
        lemma_process_node_wf(m, i);
        let (m1, r) = process_node(m, i);
        if !(r is Err) {
            lemma_visits_only_drain_mailboxes(m1, i + 1, e);
        }
    }
}

/// A writer is promoted for unblocking only when a value was actually
/// taken out of a mailbox: a visit that leaves every mailbox as it
/// found it (a stalled or absent read) records no neighbor in the
/// clear-writes list.
pub proof fn lemma_writer_promoted_only_on_taken_value(m: PlaneModel, i: int)
    requires
        m.wf(),
        0 <= i < NODES_PER_PLANE as int,
    ensures
        process_node(m, i).0.ports == m.ports ==> process_node(m, i).0.clear_writes
            == m.clear_writes,
{
    assert(m.nodes[i].wf());
    let mb = pre_read_phase(fetch_phase(m, i), i).0;
    let n = mb.nodes[i];
    if n.mode is Read && n.direction is Some {
        let e = edge_index_spec(n.direction->0, i);
        if mb.ports[e] is Some {
            assert(deliver_phase(mb, i).ports[e] is None);
            assert(deliver_phase(mb, i).ports != m.ports);
        }
    }
}

/// A visit of node `i` leaves the mailbox of any edge it does not own
/// untouched — and even the shared edge toward a reading neighbor `j`,
/// as long as node `i` is mid-write (a node in `Write` never reads).
/// This is the frame that lets a pending read survive the visits of
/// every other node: by `lemma_edge_identifies_endpoints` the only
/// nodes that can drain the mailbox of edge `(j, d)` are `j` itself and
/// the neighbor behind it.
pub proof fn lemma_process_node_keeps_mailbox(m: PlaneModel, i: int, d: TruePort, j: int)
    requires
        m.wf(),
        0 <= i < NODES_PER_PLANE as int,
        0 <= j < NODES_PER_PLANE as int,
        i != j,
        d !is Any,
        crate::grid::neighbor_node_spec(d, j) == Some(i) ==> m.nodes[i].mode is Write,
    ensures
        process_node(m, i).0.ports[edge_index_spec(d, j)] == m.ports[edge_index_spec(d, j)],
{
    assert(m.nodes[i].wf());
    let e = edge_index_spec(d, j);
    m.nodes[i].lemma_fetch_wf(m.programs[i]);
    let ma = fetch_phase(m, i);
    ma.nodes[i].lemma_read_step_wf();
    let (mb, rb) = pre_read_phase(ma, i);
    let nb = mb.nodes[i];
    if rb is Err {
    } else if nb.mode is Read && nb.direction is Some {
        let dprime = nb.direction->0;
        assert(nb.wf());
        if edge_index_spec(dprime, i) == e {
            // only an endpoint of edge (j, d) reaches its mailbox, and
            // the one other than j is a writer, never in Read
            crate::grid::lemma_edge_identifies_endpoints(dprime, i, d, j);
            crate::grid::lemma_edge_shared_with_neighbor(dprime, i, j);
            assert(crate::grid::neighbor_node_spec(d, j) == Some(i));
            assert(m.nodes[i].mode is Write);
            assert(false);
        }
    }
}

/// The writer-unblock sweep never touches a register: it only promotes
/// modes and advances pointers.
pub proof fn lemma_unblock_keeps_registers(m: PlaneModel, k: int, j: int)
    requires
        0 <= j < m.nodes.len(),
    ensures
        unblock_from(m, k).nodes.len() == m.nodes.len(),
        unblock_from(m, k).nodes[j].acc == m.nodes[j].acc,
        unblock_from(m, k).nodes[j].bak == m.nodes[j].bak,
    decreases m.clear_writes.len() - k,
{
    if k < 0 || k >= m.clear_writes.len() {
    } else {
        let t = m.clear_writes[k] as int;
        let m1 = if 0 <= t < m.nodes.len() {
            PlaneModel { nodes: m.nodes.update(t, m.nodes[t].resolve_write_spec()), ..m }
        } else {
            m
        };
        lemma_unblock_keeps_registers(m1, k + 1, j);
    }
}

/// Helper for the round-trip law: over the fault-free visits `i .. 12`,
/// a word `v` waiting in the mailbox of node `j`'s edge survives every
/// visit before `j` (the neighbor, if still ahead, is mid-write and
/// cannot read; no other node owns the edge) and is then consumed by
/// node `j`'s `MOV port -> ACC` bit-identically.
pub proof fn lemma_visits_deliver_to_reader(
    m: PlaneModel,
    i: int,
    j: int,
    d: TruePort,
    psrc: Port,
    v: i16,
)
    requires
        m.wf(),
        0 <= i <= j < NODES_PER_PLANE as int,
        d !is Any,
        m.nodes[j].mode is Read,
        m.nodes[j].direction == Some(d),
        m.programs[j][m.nodes[j].instruction_pointer as int] == Some(
            Instruction::Mov(Src::Port(psrc), Dst::Register(Register::Acc)),
        ),
        m.ports[edge_index_spec(d, j)] == Some(v),
        (match crate::grid::neighbor_node_spec(d, j) {
            Some(k) => i <= k ==> m.nodes[k].mode is Write,
            None => true,
        }),
        run_nodes_from(m, i).1 is Ok,
    ensures
        run_nodes_from(m, i).0.nodes[j].acc == v,
        run_nodes_from(m, i).0.nodes[j].mode is Run,
    decreases NODES_PER_PLANE as int - i,
{
    let e = edge_index_spec(d, j);
    let (m1, r) = process_node(m, i);
    if i < j {
        lemma_process_node_frame(m, i, j);
        lemma_process_node_wf(m, i);
        lemma_process_node_keeps_mailbox(m, i, d, j);
        proof_neighbor_still_writing(m, i, d, j);
        lemma_visits_deliver_to_reader(m1, i + 1, j, d, psrc, v);
    } else {
        // i == j: the visit that completes the read.
        let n0 = m.nodes[j];
        let ip = n0.instruction_pointer as int;
        assert(n0.wf());
        assert(crate::node::first_full_slot(m.programs[j], ip, INSTRUCTIONS_PER_NODE as nat)
            == Some(ip));
        let f = n0.fetch_spec(m.programs[j]);
        assert(f.current_instruction == m.programs[j][ip]);
        let ma = fetch_phase(m, j);
        let (mb, rb) = pre_read_phase(ma, j);
        assert(rb is Ok);
        let nb = f.read_step_spec().0;
        assert(nb == f);
        let mc = deliver_phase(mb, j);
        let nc = mc.nodes[j];
        assert(nc.port_read_buffer == Some(v));
        let (md, rd) = exec_phase(mc, j);
        assert(rd is Ok);
        let nd = nc.step_spec().0;
        assert(nd.acc == v && nd.mode is Run);
        let mq = queue_phase(md, j).0;
        assert(mq.nodes[j] == nd);
        lemma_run_nodes_frame_below(mq, j + 1, j);
    }
}

/// In the inductive step above: the neighbor behind the reader's edge,
/// if not yet visited, is still mid-write after this visit — a node in
/// `Write` never enters `Read` or `Run` during its own visit, and other
/// visits do not touch it.
proof fn proof_neighbor_still_writing(m: PlaneModel, i: int, d: TruePort, j: int)
    requires
        m.wf(),
        0 <= i < NODES_PER_PLANE as int,
        0 <= j < NODES_PER_PLANE as int,
        i != j,
        d !is Any,
        (match crate::grid::neighbor_node_spec(d, j) {
            Some(k) => i <= k ==> m.nodes[k].mode is Write,
            None => true,
        }),
    ensures
        (match crate::grid::neighbor_node_spec(d, j) {
            Some(k) => i + 1 <= k ==> process_node(m, i).0.nodes[k].mode is Write,
            None => true,
        }),
{
    match crate::grid::neighbor_node_spec(d, j) {
        Some(k) => {
            if i + 1 <= k {
                assert(0 <= k < NODES_PER_PLANE as int) by {
                    crate::grid::lemma_edge_shared_with_neighbor(d, j, k);
                }
                assert(k != i);
                lemma_process_node_frame(m, i, k);
            }
        },
        None => {},
    }
}

/// The round trip over a port, over one whole cycle: a word sitting in
/// the mailbox of the edge a node is reading through — placed there by
/// the still-blocked writer on the other side in an earlier cycle — is
/// consumed by that node's `MOV port -> ACC` bit-identically: after a
/// fault-free cycle the reader's accumulator holds exactly that word.
pub proof fn lemma_cycle_round_trip(m: PlaneModel, j: int, d: TruePort, psrc: Port, v: i16)
    requires
        m.wf(),
        0 <= j < NODES_PER_PLANE as int,
        d !is Any,
        m.nodes[j].mode is Read,
        m.nodes[j].direction == Some(d),
        m.programs[j][m.nodes[j].instruction_pointer as int] == Some(
            Instruction::Mov(Src::Port(psrc), Dst::Register(Register::Acc)),
        ),
        m.ports[edge_index_spec(d, j)] == Some(v),
        (match crate::grid::neighbor_node_spec(d, j) {
            Some(k) => m.nodes[k].mode is Write,
            None => true,
        }),
        cycle_spec(m).1 is Ok,
    ensures
        cycle_spec(m).0.nodes[j].acc == v,
{
    let (m1, r1) = run_nodes_from(m, 0);
    assert(r1 is Ok);
    lemma_visits_deliver_to_reader(m, 0, j, d, psrc, v);
    lemma_run_nodes_keeps_len(m, 0);
    lemma_flush_frame(m1, 0);
    let (m2, r2) = flush_from(m1, 0);
    lemma_unblock_keeps_registers(m2, 0, j);
}

/// `ADD` with a literal adds exactly, saturating at the word bounds:
/// for a running node the accumulator after the instruction equals
/// `sat_word(acc + literal)`, and nothing else of the registers moves.
pub proof fn lemma_add_literal_exact(n: ExecutionNode, v: i16)
    requires
        n.mode is Run,
        n.current_instruction == Some(Instruction::Add(Src::Literal(v))),
    ensures
        n.step_spec().0.acc as int == sat_word(n.acc + v),
        n.step_spec().0.bak == n.bak,
        n.step_spec().1 is Ok,
{
}

/// `SUB` with a literal subtracts exactly, saturating at the word
/// bounds.
pub proof fn lemma_sub_literal_exact(n: ExecutionNode, v: i16)
    requires
        n.mode is Run,
        n.current_instruction == Some(Instruction::Sub(Src::Literal(v))),
    ensures
        n.step_spec().0.acc as int == sat_word(n.acc - v),
        n.step_spec().0.bak == n.bak,
        n.step_spec().1 is Ok,
{
}

/// `SWP` is an involution: applying the swap transition twice restores
/// the node exactly, so two consecutive `SWP` instructions leave `acc`
/// and `bak` (and everything else) unchanged.
pub proof fn lemma_swp_swp_identity(n: ExecutionNode)
    ensures
        n.swp_spec().swp_spec() == n,
{
}

/// Executing one instruction never moves the pointer of a node that
/// ends it stalled: if the dispatch completes without fault and leaves
/// the node in `Read` or `Write`, the instruction pointer is unchanged
/// and the same instruction will be retried.  The one latched
/// instruction that can hold a node in `Write` is a `MOV` to a port,
/// which is what the hypothesis on `Write` mode says.
pub proof fn lemma_step_keeps_stalled_ip(n: ExecutionNode)
    requires
        n.step_spec().1 is Ok,
        n.step_spec().0.mode is Read || n.step_spec().0.mode is Write,
        n.mode is Write ==> (n.current_instruction matches Some(
            Instruction::Mov(_, Dst::Port(_)),
        )),
    ensures
        n.step_spec().0.instruction_pointer == n.instruction_pointer,
{
    match n.current_instruction {
        None => {},
        Some(instruction) => {
            match instruction {
                Instruction::Mov(src, dst) => {
                    assert(n.step_spec().0.instruction_pointer == n.instruction_pointer);
                },
                Instruction::Add(src) => {},
                Instruction::Sub(src) => {},
                Instruction::Jro(src) => {},
                Instruction::Jez(src) => {},
                Instruction::Jnz(src) => {},
                Instruction::Jgz(src) => {},
                Instruction::Jlz(src) => {},
                _ => {},
            }
        },
    }
}

/// The other half of the pointer rule: an instruction that completes
/// (no fault, the node ends in `Run`) and did not set the pointer
/// itself — `dispatch_spec` reports that as its jump flag — moves the
/// pointer exactly one slot forward, wrapping past the end of the
/// program store.
pub proof fn lemma_step_advances_completed_ip(n: ExecutionNode, instruction: Instruction)
    requires
        n.current_instruction == Some(instruction),
        n.step_spec().1 is Ok,
        n.step_spec().0.mode is Run,
        !n.dispatch_spec(instruction).2,
    ensures
        n.step_spec().0.instruction_pointer as int == crate::node::next_slot(
            n.instruction_pointer as int,
        ),
{
    match instruction {
        Instruction::Mov(src, dst) => {
            assert(n.mov_spec(src, dst).0.instruction_pointer == n.instruction_pointer);
        },
        _ => {},
    }
}

/// Processing node `i` touches no other node and no program.
pub proof fn lemma_process_node_frame(m: PlaneModel, i: int, j: int)
    requires
        j != i,
        0 <= j < m.nodes.len(),
        0 <= i < m.nodes.len(),
    ensures
        process_node(m, i).0.nodes.len() == m.nodes.len(),
        process_node(m, i).0.nodes[j] == m.nodes[j],
        process_node(m, i).0.programs == m.programs,
{
    let ma = fetch_phase(m, i);
    assert(ma.nodes.len() == m.nodes.len() && ma.nodes[j] == m.nodes[j]);
    let (mb, rb) = pre_read_phase(ma, i);
    assert(mb.nodes.len() == m.nodes.len() && mb.nodes[j] == m.nodes[j]);
    if rb is Err {
    } else {
        let mc = deliver_phase(mb, i);
        assert(mc.nodes.len() == m.nodes.len() && mc.nodes[j] == m.nodes[j]);
        let (md, rd) = exec_phase(mc, i);
        assert(md.nodes.len() == m.nodes.len() && md.nodes[j] == m.nodes[j]);
        if rd is Err {
        } else {
            let mq = queue_phase(md, i).0;
            assert(mq.nodes.len() == m.nodes.len() && mq.nodes[j] == m.nodes[j]);
        }
    }
}

/// Visiting nodes `i ..` leaves every node below `i` untouched, fault
/// or no fault, and never touches the programs.
pub proof fn lemma_run_nodes_frame_below(m: PlaneModel, i: int, j: int)
    requires
        m.nodes.len() == NODES_PER_PLANE as nat,
        0 <= j < m.nodes.len(),
        j < i,
    ensures
        run_nodes_from(m, i).0.nodes.len() == m.nodes.len(),
        run_nodes_from(m, i).0.nodes[j] == m.nodes[j],
        run_nodes_from(m, i).0.programs == m.programs,
    decreases NODES_PER_PLANE as int - i,
{
    if i < 0 || i >= NODES_PER_PLANE as int {
    } else {
        lemma_process_node_frame(m, i, j);
        let (m1, r) = process_node(m, i);
        if !(r is Err) {
            lemma_run_nodes_frame_below(m1, i + 1, j);
        }
    }
}

/// Processing any node keeps the plane well-formed, fault or no fault.
#[verifier::rlimit(50)]
pub proof fn lemma_process_node_wf(m: PlaneModel, i: int)
    requires
        m.wf(),
        0 <= i < NODES_PER_PLANE as int,
    ensures
        process_node(m, i).0.wf(),
{
    let f = m.nodes[i].fetch_spec(m.programs[i]);
    m.nodes[i].lemma_fetch_wf(m.programs[i]);
    crate::plane::lemma_wf_update_node(m, i, f);
    let ma = fetch_phase(m, i);
    ma.nodes[i].lemma_read_step_wf();
    crate::plane::lemma_wf_update_node(ma, i, ma.nodes[i].read_step_spec().0);
    let (mb, rb) = pre_read_phase(ma, i);
    if rb is Err {
    } else {
        let mc = deliver_phase(mb, i);
        assert(mc.wf()) by {
            let n = mb.nodes[i];
            if n.mode is Read && n.direction is Some && mb.ports[edge_index_spec(
                n.direction->0,
                i,
            )] is Some {
                crate::plane::lemma_wf_update_node(
                    mb,
                    i,
                    ExecutionNode {
                        port_read_buffer: mb.ports[edge_index_spec(n.direction->0, i)],
                        ..n
                    },
                );
            }
        }
        mc.nodes[i].lemma_step_wf();
        crate::plane::lemma_wf_update_node(mc, i, mc.nodes[i].step_spec().0);
        let (md, rd) = exec_phase(mc, i);
        if rd is Err {
        } else {
            let mq = queue_phase(md, i).0;
            assert(mq.wf()) by {
                let n = md.nodes[i];
                if n.mode is Write && n.direction is Some && n.port_write_buffer is Some {
                    crate::plane::lemma_wf_update_node(
                        md,
                        i,
                        ExecutionNode { port_write_buffer: None, ..n },
                    );
                }
            }
        }
    }
}

/// The flush touches only the mailboxes and the queue.
pub proof fn lemma_flush_frame(m: PlaneModel, e: int)
    ensures
        flush_from(m, e).0.nodes == m.nodes,
        flush_from(m, e).0.clear_writes == m.clear_writes,
    decreases EDGES_PER_PLANE as int - e,
{
    if e < 0 || e >= EDGES_PER_PLANE as int {
    } else {
        match m.queued_writes[e] {
            Some(v) => {
                if m.ports[e] is Some {
                } else {
                    lemma_flush_frame(
                        PlaneModel {
                            ports: m.ports.update(e, Some(v)),
                            queued_writes: m.queued_writes.update(e, None),
                            ..m
                        },
                        e + 1,
                    );
                }
            },
            None => {
                lemma_flush_frame(m, e + 1);
            },
        }
    }
}

/// The writer-unblock sweep leaves each node either untouched or
/// running: a node it promotes ends the cycle in `Run`.
pub proof fn lemma_unblock_runs_or_keeps(m: PlaneModel, k: int, j: int)
    requires
        0 <= j < m.nodes.len(),
    ensures
        unblock_from(m, k).nodes.len() == m.nodes.len(),
        unblock_from(m, k).nodes[j] == m.nodes[j] || unblock_from(m, k).nodes[j].mode is Run,
    decreases m.clear_writes.len() - k,
{
    if k < 0 || k >= m.clear_writes.len() {
    } else {
        let t = m.clear_writes[k] as int;
        let m1 = if 0 <= t < m.nodes.len() {
            PlaneModel { nodes: m.nodes.update(t, m.nodes[t].resolve_write_spec()), ..m }
        } else {
            m
        };
        lemma_unblock_runs_or_keeps(m1, k + 1, j);
    }
}

/// Helper for the stalled-pointer law: over the node visits `i .. 12`
/// of a fault-free cycle, a node `j >= i` whose slot at the pointer is
/// non-empty (so the fetch does not skip ahead) and which comes out of
/// the visits still in `Read` or `Write` keeps its instruction pointer.
pub proof fn lemma_run_nodes_keeps_stalled_ip(m: PlaneModel, i: int, j: int)
    requires
        m.wf(),
        0 <= i <= NODES_PER_PLANE as int,
        0 <= j < NODES_PER_PLANE as int,
        i <= j,
        m.programs[j][m.nodes[j].instruction_pointer as int] is Some,
        m.nodes[j].mode is Write ==> (m.programs[j][m.nodes[j].instruction_pointer as int]
            matches Some(Instruction::Mov(_, Dst::Port(_)))),
        run_nodes_from(m, i).1 is Ok,
    ensures
        ({
            let mr = run_nodes_from(m, i).0;
            (mr.nodes[j].mode is Read || mr.nodes[j].mode is Write)
                ==> mr.nodes[j].instruction_pointer == m.nodes[j].instruction_pointer
        }),
    decreases NODES_PER_PLANE as int - i,
{
    let mr = run_nodes_from(m, i).0;
    let (m1, r) = process_node(m, i);
    if i < j {
        lemma_process_node_frame(m, i, j);
        lemma_process_node_wf(m, i);
        lemma_run_nodes_keeps_stalled_ip(m1, i + 1, j);
    } else {
        // i == j: the one visit that touches node j.
        let n0 = m.nodes[j];
        let ip = n0.instruction_pointer as int;
        assert(n0.wf());
        // Fetch latches the non-empty slot at the pointer and keeps it.
        let f = n0.fetch_spec(m.programs[j]);
        assert(crate::node::first_full_slot(m.programs[j], ip, INSTRUCTIONS_PER_NODE as nat)
            == Some(ip));
        assert(f.instruction_pointer as int == ip);
        assert(f.current_instruction == m.programs[j][ip]);
        let ma = fetch_phase(m, j);
        let (mb, rb) = pre_read_phase(ma, j);
        assert(rb is Ok);
        let nb = f.read_step_spec().0;
        assert(nb.instruction_pointer as int == ip);
        assert(nb.current_instruction == f.current_instruction);
        assert(nb.mode is Write ==> n0.mode is Write);
        let mc = deliver_phase(mb, j);
        let nc = mc.nodes[j];
        assert(nc.instruction_pointer == nb.instruction_pointer);
        assert(nc.current_instruction == nb.current_instruction);
        assert(nc.mode == nb.mode);
        let (md, rd) = exec_phase(mc, j);
        assert(rd is Ok);
        let nd = nc.step_spec().0;
        let mq = queue_phase(md, j).0;
        let nq = mq.nodes[j];
        assert(nq.instruction_pointer == nd.instruction_pointer);
        assert(nq.mode == nd.mode);
        lemma_run_nodes_frame_below(mq, j + 1, j);
        assert(mr.nodes[j] == nq);
        if mr.nodes[j].mode is Read || mr.nodes[j].mode is Write {
            lemma_step_keeps_stalled_ip(nc);
        }
    }
}

/// The stalled-pointer law for a whole cycle: a node that ends a
/// fault-free cycle still in `Read` or `Write` has the same instruction
/// pointer it started the cycle with — the handshake instruction is
/// retried, never skipped.
///
/// The hypotheses rule out two artificial states that only program
/// reloading mid-handshake can produce: the slot under the pointer must
/// hold an instruction (an emptied slot would make the fetch skip
/// ahead), and a node mid-write must still be looking at its `MOV` to a
/// port.
pub proof fn lemma_stalled_node_keeps_ip(m: PlaneModel, j: int)
    requires
        m.wf(),
        0 <= j < NODES_PER_PLANE as int,
        m.programs[j][m.nodes[j].instruction_pointer as int] is Some,
        m.nodes[j].mode is Write ==> (m.programs[j][m.nodes[j].instruction_pointer as int]
            matches Some(Instruction::Mov(_, Dst::Port(_)))),
        cycle_spec(m).1 is Ok,
        cycle_spec(m).0.nodes[j].mode is Read || cycle_spec(m).0.nodes[j].mode is Write,
    ensures
        cycle_spec(m).0.nodes[j].instruction_pointer == m.nodes[j].instruction_pointer,
{
    let (m1, r1) = run_nodes_from(m, 0);
    assert(r1 is Ok);
    let (m2, r2) = flush_from(m1, 0);
    assert(r2 is Ok);
    lemma_flush_frame(m1, 0);
    assert(m2.nodes == m1.nodes);
    let m3 = unblock_from(m2, 0);
    lemma_run_nodes_frame_below(m, NODES_PER_PLANE as int, j);
    assert(m1.nodes.len() == m.nodes.len()) by {
        lemma_run_nodes_keeps_len(m, 0);
    }
    lemma_unblock_runs_or_keeps(m2, 0, j);
    let mf = cycle_spec(m).0;
    assert(mf.nodes == m3.nodes);
    // The final mode is Read or Write, so the unblock sweep did not
    // touch node j, whose end-of-visits state therefore survives.
    assert(m3.nodes[j] == m2.nodes[j]);
    lemma_run_nodes_keeps_stalled_ip(m, 0, j);
}

/// The node visits keep the number of nodes.
pub proof fn lemma_run_nodes_keeps_len(m: PlaneModel, i: int)
    requires
        m.nodes.len() == NODES_PER_PLANE as nat,
    ensures
        run_nodes_from(m, i).0.nodes.len() == m.nodes.len(),
    decreases NODES_PER_PLANE as int - i,
{
    if i < 0 || i >= NODES_PER_PLANE as int {
    } else {
        let ma = fetch_phase(m, i);
        assert(ma.nodes.len() == m.nodes.len());
        let (mb, rb) = pre_read_phase(ma, i);
        assert(mb.nodes.len() == m.nodes.len());
        let mc = deliver_phase(mb, i);
        assert(mc.nodes.len() == m.nodes.len());
        let (md, rd) = exec_phase(mc, i);
        assert(md.nodes.len() == m.nodes.len());
        let mq = queue_phase(md, i).0;
        assert(mq.nodes.len() == m.nodes.len());
        let (m1, r) = process_node(m, i);
        assert(m1.nodes.len() == m.nodes.len());
        if !(r is Err) {
            lemma_run_nodes_keeps_len(m1, i + 1);
        }
    }
}

} // verus!
