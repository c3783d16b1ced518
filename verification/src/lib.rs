//! A lockstep emulator for a 3 x 4 plane of tiny stream-processing
//! nodes, in the spirit of the TIS-100 puzzle machine.
//!
//! Twelve register machines each run a short straight-line program and
//! exchange 16-bit words with their neighbors through one-slot mailboxes
//! sitting on the shared edges of the grid.  The scheduler advances the
//! whole plane one cycle at a time and resolves the read/write
//! handshakes that arise when several nodes communicate in the same
//! cycle: nodes block in `Read` or `Write` until their counterpart is
//! ready, fused `MOV port, port` instructions read one cycle and write
//! the next, and two writes meeting at one edge — in the same cycle or
//! across cycles — are a fatal write deadlock: no written word is ever
//! dropped.
//!
//! Every executable function carries a contract stating exactly what it
//! computes; the plane's [`plane::ExecutionPlane::step`] is proved equal
//! to a functional model of one full cycle, and the general laws of the
//! engine (register and pointer bounds, exclusive mailbox occupancy, the
//! stalled-node pointer guarantee, bit-exact port transport) are proved
//! in [`laws`].

pub mod grid;
pub mod instr;
pub mod laws;
pub mod node;
pub mod plane;
