//! Port-grid geometry: the 12 nodes sit in 3 rows of 4 columns, and every
//! node/direction pair resolves to one of 31 edge-indexed mailboxes and,
//! for interior edges, to the neighbor node on the other side.
//!
//! Row `r`, column `c` (node index `i = 4*r + c`) touches the edges
//! `9*r + c` (up), `9*r + 4 + c` (left), `9*r + 5 + c` (right) and
//! `9*r + 9 + c` (down), so a node's down edge is its lower neighbor's up
//! edge and a node's right edge is its right neighbor's left edge.
//! Exterior edges have stable indices but no neighbor behind them.

use vstd::prelude::*;

use crate::instr::TruePort;

verus! {

/// Number of compute nodes in the plane.
pub const NODES_PER_PLANE: usize = 12;

/// Number of edge mailboxes (interior and exterior) in the plane.
pub const EDGES_PER_PLANE: usize = 31;

/// The edge mailbox that node `i` reaches in direction `direction`.
/// Meaningful only for cardinal directions and `0 <= i < 12`.
pub open spec fn edge_index_spec(direction: TruePort, i: int) -> int {
    let row = i / 4;
    let col = i % 4;
    match direction {
        TruePort::Up => 9 * row + col,
        TruePort::Left => 9 * row + 4 + col,
        TruePort::Right => 9 * row + 5 + col,
        TruePort::Down => 9 * row + 9 + col,
        TruePort::Any => 0,
    }
}

/// The node on the other side of node `i`'s edge in direction `direction`,
/// or `None` on the exterior boundary.
pub open spec fn neighbor_node_spec(direction: TruePort, i: int) -> Option<int> {
    let row = i / 4;
    let col = i % 4;
    match direction {
        TruePort::Up => if row > 0 {
            Some(i - 4)
        } else {
            None
        },
        TruePort::Left => if col > 0 {
            Some(i - 1)
        } else {
            None
        },
        TruePort::Right => if col < 3 {
            Some(i + 1)
        } else {
            None
        },
        TruePort::Down => if row < 2 {
            Some(i + 4)
        } else {
            None
        },
        TruePort::Any => None,
    }
}

/// Resolves (node, cardinal direction) to the index of the shared edge
/// mailbox.
pub fn map_port(direction: TruePort, i: usize) -> (r: usize)
    requires
        i < NODES_PER_PLANE,
        direction !is Any,
    ensures
        r == edge_index_spec(direction, i as int),
        r < EDGES_PER_PLANE,
{
    let row = i / 4;
    let col = i % 4;
    match direction {
        TruePort::Up => 9 * row + col,
        TruePort::Left => 9 * row + 4 + col,
        TruePort::Right => 9 * row + 5 + col,
        TruePort::Down => 9 * row + 9 + col,
        TruePort::Any => 0,
    }
}

/// Resolves (node, cardinal direction) to the neighbor node on the other
/// side of the shared edge, or `None` on the exterior boundary.
pub fn reverse_map_node(direction: TruePort, i: usize) -> (r: Option<u8>)
    requires
        i < NODES_PER_PLANE,
        direction !is Any,
    ensures
        match r {
            Some(j) => neighbor_node_spec(direction, i as int) == Some(j as int) && j
                < NODES_PER_PLANE as u8,
            None => neighbor_node_spec(direction, i as int) is None,
        },
{
    let row = i / 4;
    let col = i % 4;
    match direction {
        TruePort::Up => if row > 0 {
            Some((i - 4) as u8)
        } else {
            None
        },
        TruePort::Left => if col > 0 {
            Some((i - 1) as u8)
        } else {
            None
        },
        TruePort::Right => if col < 3 {
            Some((i + 1) as u8)
        } else {
            None
        },
        TruePort::Down => if row < 2 {
            Some((i + 4) as u8)
        } else {
            None
        },
        TruePort::Any => None,
    }
}

/// Seen from the neighbor, the same edge lies in the reversed direction:
/// the mailbox a node reaches through an interior edge is exactly the
/// mailbox its neighbor reaches back through.
pub proof fn lemma_edge_shared_with_neighbor(direction: TruePort, i: int, j: int)
    requires
        0 <= i < NODES_PER_PLANE,
        direction !is Any,
        neighbor_node_spec(direction, i) == Some(j),
    ensures
        0 <= j < NODES_PER_PLANE,
        edge_index_spec(direction.reverse_spec(), j) == edge_index_spec(direction, i),
        neighbor_node_spec(direction.reverse_spec(), j) == Some(i),
{
    match direction {
        TruePort::Up => {
            assert(j == i - 4);
            assert(j / 4 == i / 4 - 1 && j % 4 == i % 4) by (nonlinear_arith)
                requires
                    0 <= i < 12,
                    i / 4 > 0,
                    j == i - 4,
            ;
        },
        TruePort::Down => {
            assert(j == i + 4);
            assert(j / 4 == i / 4 + 1 && j % 4 == i % 4) by (nonlinear_arith)
                requires
                    0 <= i < 12,
                    i / 4 < 2,
                    j == i + 4,
            ;
        },
        TruePort::Left => {
            assert(j == i - 1);
            assert(j / 4 == i / 4 && j % 4 == i % 4 - 1) by (nonlinear_arith)
                requires
                    0 <= i < 12,
                    i % 4 > 0,
                    j == i - 1,
            ;
        },
        TruePort::Right => {
            assert(j == i + 1);
            assert(j / 4 == i / 4 && j % 4 == i % 4 + 1) by (nonlinear_arith)
                requires
                    0 <= i < 12,
                    i % 4 < 3,
                    j == i + 1,
            ;
        },
        TruePort::Any => {},
    }
}

/// An edge pins down its endpoints: two node/direction pairs reach the
/// same edge mailbox only if they are the same pair, or the two ends of
/// one interior edge (neighbors looking back at each other).
pub proof fn lemma_edge_identifies_endpoints(d1: TruePort, i1: int, d2: TruePort, i2: int)
    requires
        0 <= i1 < NODES_PER_PLANE,
        0 <= i2 < NODES_PER_PLANE,
        d1 !is Any,
        d2 !is Any,
        edge_index_spec(d1, i1) == edge_index_spec(d2, i2),
        !(i1 == i2 && d1 == d2),
    ensures
        neighbor_node_spec(d1, i1) == Some(i2),
        d2 == d1.reverse_spec(),
{
    assert(i1 == 4 * (i1 / 4) + (i1 % 4) && 0 <= i1 % 4 < 4 && 0 <= i1 / 4 < 3)
        by (nonlinear_arith)
        requires
            0 <= i1 < 12,
    ;
    assert(i2 == 4 * (i2 / 4) + (i2 % 4) && 0 <= i2 % 4 < 4 && 0 <= i2 / 4 < 3)
        by (nonlinear_arith)
        requires
            0 <= i2 < 12,
    ;
}

} // verus!
