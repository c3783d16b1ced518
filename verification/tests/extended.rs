//! Boundary behaviors, jumps, faults, and the handshake guarantees:
//! saturation at both word bounds, empty-slot skipping, stalled nodes
//! keeping their instruction pointer, port words arriving bit-identical,
//! and every fault kind surfaced to the caller.

use nodeplane::instr::{Dst, Fault, Instruction, Mode, Port, Register, Src, TruePort};
use nodeplane::plane::ExecutionPlane;

#[test]
fn sub_literal() {
    let mut plane = ExecutionPlane::new();
    plane.load(0, 0, Some(Instruction::Sub(Src::Literal(10))));
    plane.step().unwrap();
    assert_eq!(-10, plane.nodes[0].acc);
}

#[test]
fn sub_saturating() {
    let mut plane = ExecutionPlane::new();
    plane.load(0, 0, Some(Instruction::Sub(Src::Literal(32767))));
    plane.load(0, 1, Some(Instruction::Sub(Src::Literal(32767))));
    plane.step().unwrap();
    assert_eq!(-32767, plane.nodes[0].acc);
    plane.step().unwrap();
    assert_eq!(-32768, plane.nodes[0].acc);
}

#[test]
fn negate_saturating() {
    let mut plane = ExecutionPlane::new();
    plane.load(0, 0, Some(Instruction::Sub(Src::Literal(32767))));
    plane.load(0, 1, Some(Instruction::Sub(Src::Literal(1))));
    plane.load(0, 2, Some(Instruction::Neg));
    plane.step().unwrap();
    plane.step().unwrap();
    assert_eq!(-32768, plane.nodes[0].acc);
    plane.step().unwrap();
    assert_eq!(32767, plane.nodes[0].acc);
}

#[test]
fn add_nil_reads_zero() {
    let mut plane = ExecutionPlane::new();
    plane.load(0, 0, Some(Instruction::Add(Src::Register(Register::Nil))));
    plane.step().unwrap();
    assert_eq!(0, plane.nodes[0].acc);
    assert_eq!(1, plane.nodes[0].instruction_pointer);
}

#[test]
fn mov_to_nil_discards() {
    let mut plane = ExecutionPlane::new();
    plane.load(
        0,
        0,
        Some(Instruction::Mov(Src::Literal(42), Dst::Register(Register::Nil))),
    );
    plane.step().unwrap();
    assert_eq!(0, plane.nodes[0].acc);
    assert_eq!(Mode::Run, plane.nodes[0].mode);
    assert_eq!(1, plane.nodes[0].instruction_pointer);
}

#[test]
fn swp_twice_restores() {
    let mut plane = ExecutionPlane::new();
    plane.load(0, 0, Some(Instruction::Add(Src::Literal(9))));
    plane.load(0, 1, Some(Instruction::Sav));
    plane.load(0, 2, Some(Instruction::Add(Src::Literal(1))));
    plane.load(0, 3, Some(Instruction::Swp));
    plane.load(0, 4, Some(Instruction::Swp));
    for _ in 0..4 {
        plane.step().unwrap();
    }
    assert_eq!(9, plane.nodes[0].acc);
    assert_eq!(10, plane.nodes[0].bak);
    plane.step().unwrap();
    assert_eq!(10, plane.nodes[0].acc);
    assert_eq!(9, plane.nodes[0].bak);
}

#[test]
fn skip_empty_slots() {
    let mut plane = ExecutionPlane::new();
    plane.load(0, 0, Some(Instruction::Add(Src::Literal(1))));
    plane.load(0, 2, Some(Instruction::Add(Src::Literal(10))));
    plane.step().unwrap();
    assert_eq!(1, plane.nodes[0].acc);
    plane.step().unwrap();
    // slot 1 is empty: the fetch skips it and runs slot 2 this cycle
    assert_eq!(11, plane.nodes[0].acc);
    plane.step().unwrap();
    // past the last filled slot the pointer wraps back to slot 0
    assert_eq!(12, plane.nodes[0].acc);
    plane.step().unwrap();
    assert_eq!(22, plane.nodes[0].acc);
}

#[test]
fn empty_plane_idles() {
    let mut plane = ExecutionPlane::new();
    for _ in 0..3 {
        plane.step().unwrap();
    }
    for j in 0..12 {
        assert_eq!(0, plane.nodes[j].acc);
        assert_eq!(0, plane.nodes[j].instruction_pointer);
        assert_eq!(Mode::Run, plane.nodes[j].mode);
    }
    for e in 0..31 {
        assert_eq!(None, plane.ports[e]);
    }
}

#[test]
fn jro_relative_jump() {
    let mut plane = ExecutionPlane::new();
    plane.load(0, 0, Some(Instruction::Add(Src::Literal(1))));
    plane.load(0, 1, Some(Instruction::Jro(Src::Literal(-1))));
    for _ in 0..4 {
        plane.step().unwrap();
    }
    assert_eq!(2, plane.nodes[0].acc);
    assert_eq!(0, plane.nodes[0].instruction_pointer);
}

#[test]
fn jez_taken_and_not_taken() {
    let mut plane = ExecutionPlane::new();
    plane.load(0, 0, Some(Instruction::Jez(Src::Literal(2))));
    plane.load(0, 1, Some(Instruction::Add(Src::Literal(5))));
    plane.load(0, 2, Some(Instruction::Add(Src::Literal(7))));
    plane.step().unwrap();
    // acc == 0: jump to slot 2, skipping the ADD 5
    assert_eq!(2, plane.nodes[0].instruction_pointer);
    plane.step().unwrap();
    assert_eq!(7, plane.nodes[0].acc);
    plane.step().unwrap();
    // wrapped back to the JEZ; acc != 0 now, so it falls through
    assert_eq!(1, plane.nodes[0].instruction_pointer);
    plane.step().unwrap();
    assert_eq!(12, plane.nodes[0].acc);
}

#[test]
fn jump_targets_are_clamped() {
    let mut plane = ExecutionPlane::new();
    plane.load(0, 0, Some(Instruction::Jro(Src::Literal(100))));
    plane.step().unwrap();
    // the relative jump lands past the program store and is clamped
    assert_eq!(20, plane.nodes[0].instruction_pointer);
    plane.load(1, 0, Some(Instruction::Jez(Src::Literal(-5))));
    plane.step().unwrap();
    assert_eq!(0, plane.nodes[1].instruction_pointer);
}

#[test]
fn jnz_loops_until_jump() {
    let mut plane = ExecutionPlane::new();
    plane.load(0, 0, Some(Instruction::Add(Src::Literal(1))));
    plane.load(0, 1, Some(Instruction::Jnz(Src::Literal(0))));
    for _ in 0..5 {
        plane.step().unwrap();
    }
    assert_eq!(3, plane.nodes[0].acc);
}

#[test]
fn jgz_jumps_on_positive() {
    let mut plane = ExecutionPlane::new();
    plane.load(0, 0, Some(Instruction::Add(Src::Literal(5))));
    plane.load(0, 1, Some(Instruction::Jgz(Src::Literal(3))));
    plane.load(0, 2, Some(Instruction::Add(Src::Literal(1))));
    plane.load(0, 3, Some(Instruction::Add(Src::Literal(100))));
    plane.step().unwrap();
    plane.step().unwrap();
    assert_eq!(3, plane.nodes[0].instruction_pointer);
    plane.step().unwrap();
    assert_eq!(105, plane.nodes[0].acc);
}

#[test]
fn jlz_jumps_on_negative() {
    let mut plane = ExecutionPlane::new();
    plane.load(0, 0, Some(Instruction::Sub(Src::Literal(5))));
    plane.load(0, 1, Some(Instruction::Jlz(Src::Literal(3))));
    plane.load(0, 2, Some(Instruction::Add(Src::Literal(1))));
    plane.load(0, 3, Some(Instruction::Add(Src::Literal(100))));
    plane.step().unwrap();
    plane.step().unwrap();
    assert_eq!(3, plane.nodes[0].instruction_pointer);
    plane.step().unwrap();
    assert_eq!(95, plane.nodes[0].acc);
}

#[test]
fn hcf_faults_the_plane() {
    let mut plane = ExecutionPlane::new();
    plane.load(0, 0, Some(Instruction::Hcf));
    assert_eq!(Err(Fault::Hcf), plane.step());
    // the faulting node is left inspectable, unchanged
    assert_eq!(0, plane.nodes[0].instruction_pointer);
    assert_eq!(Mode::Run, plane.nodes[0].mode);
}

#[test]
fn any_port_faults() {
    let mut plane = ExecutionPlane::new();
    plane.load(
        0,
        0,
        Some(Instruction::Add(Src::Port(Port::True(TruePort::Any)))),
    );
    assert_eq!(Err(Fault::InvalidPort), plane.step());
}

#[test]
fn last_before_any_port_use_faults() {
    let mut plane = ExecutionPlane::new();
    plane.load(0, 0, Some(Instruction::Add(Src::Port(Port::Last))));
    assert_eq!(Err(Fault::InvalidPort), plane.step());
}

#[test]
fn last_port_resolves_to_most_recent() {
    let mut plane = ExecutionPlane::new();
    plane.load(
        0,
        0,
        Some(Instruction::Mov(Src::Literal(5), Dst::Port(Port::True(TruePort::Right)))),
    );
    plane.load(0, 1, Some(Instruction::Mov(Src::Literal(6), Dst::Port(Port::Last))));
    plane.load(
        1,
        0,
        Some(Instruction::Mov(
            Src::Port(Port::True(TruePort::Left)),
            Dst::Register(Register::Acc),
        )),
    );
    plane.load(
        1,
        1,
        Some(Instruction::Mov(
            Src::Port(Port::True(TruePort::Left)),
            Dst::Register(Register::Acc),
        )),
    );
    plane.step().unwrap();
    plane.step().unwrap();
    assert_eq!(5, plane.nodes[1].acc);
    plane.step().unwrap();
    plane.step().unwrap();
    // the second MOV went out over LAST, which resolved to RIGHT again
    assert_eq!(6, plane.nodes[1].acc);
}

#[test]
fn write_deadlock() {
    let mut plane = ExecutionPlane::new();
    plane.load(
        0,
        0,
        Some(Instruction::Mov(Src::Literal(1), Dst::Port(Port::True(TruePort::Right)))),
    );
    plane.load(1, 0, Some(Instruction::Add(Src::Literal(0))));
    plane.load(
        1,
        1,
        Some(Instruction::Mov(Src::Literal(2), Dst::Port(Port::True(TruePort::Left)))),
    );
    plane.step().unwrap();
    // node 1's write is flushed onto the mailbox node 0 already filled
    assert_eq!(Err(Fault::WriteDeadlock), plane.step());
}

#[test]
fn write_deadlock_same_cycle() {
    let mut plane = ExecutionPlane::new();
    // both writers aim at the edge shared by nodes 0 and 1, same cycle
    plane.load(
        0,
        0,
        Some(Instruction::Mov(Src::Literal(1), Dst::Port(Port::True(TruePort::Right)))),
    );
    plane.load(
        1,
        0,
        Some(Instruction::Mov(Src::Literal(2), Dst::Port(Port::True(TruePort::Left)))),
    );
    assert_eq!(Err(Fault::WriteDeadlock), plane.step());
    // the first queued word is kept, and the state stays inspectable:
    // the second writer still holds its word in its write buffer
    assert_eq!(Some(1), plane.queued_writes[5]);
    assert_eq!(Mode::Write, plane.nodes[0].mode);
    assert_eq!(None, plane.nodes[0].port_write_buffer);
    assert_eq!(Mode::Write, plane.nodes[1].mode);
    assert_eq!(Some(2), plane.nodes[1].port_write_buffer);
}

#[test]
fn stalled_writer_keeps_pointer() {
    let mut plane = ExecutionPlane::new();
    // the up edge of node 0 is exterior: nothing ever picks the word up
    plane.load(
        0,
        0,
        Some(Instruction::Mov(Src::Literal(42), Dst::Port(Port::True(TruePort::Up)))),
    );
    plane.step().unwrap();
    // the word sits in the exterior mailbox, bit-identical
    assert_eq!(Some(42), plane.ports[0]);
    for _ in 0..3 {
        plane.step().unwrap();
        assert_eq!(Mode::Write, plane.nodes[0].mode);
        assert_eq!(0, plane.nodes[0].instruction_pointer);
        assert_eq!(Some(42), plane.ports[0]);
    }
}

#[test]
fn stalled_reader_keeps_pointer() {
    let mut plane = ExecutionPlane::new();
    // the left edge of node 0 is exterior: the value never arrives
    plane.load(
        0,
        0,
        Some(Instruction::Add(Src::Port(Port::True(TruePort::Left)))),
    );
    for _ in 0..3 {
        plane.step().unwrap();
        assert_eq!(Mode::Read, plane.nodes[0].mode);
        assert_eq!(0, plane.nodes[0].instruction_pointer);
        assert_eq!(0, plane.nodes[0].acc);
    }
}

#[test]
fn load_clears_and_fills_slots() {
    let mut plane = ExecutionPlane::new();
    plane.load(11, 0, Some(Instruction::Add(Src::Literal(3))));
    plane.load(11, 1, Some(Instruction::Add(Src::Literal(4))));
    plane.load(11, 1, None);
    plane.step().unwrap();
    assert_eq!(3, plane.nodes[11].acc);
    plane.step().unwrap();
    // slot 1 was emptied again, so the wrap finds slot 0 once more
    assert_eq!(6, plane.nodes[11].acc);
}

#[test]
fn vertical_port_round_trip() {
    let mut plane = ExecutionPlane::new();
    plane.load(
        4,
        0,
        Some(Instruction::Mov(Src::Literal(-1234), Dst::Port(Port::True(TruePort::Down)))),
    );
    plane.load(
        8,
        0,
        Some(Instruction::Mov(
            Src::Port(Port::True(TruePort::Up)),
            Dst::Register(Register::Acc),
        )),
    );
    plane.step().unwrap();
    plane.step().unwrap();
    // the word crosses the shared edge bit-identical
    assert_eq!(-1234, plane.nodes[8].acc);
    assert_eq!(Mode::Run, plane.nodes[4].mode);
    assert_eq!(1, plane.nodes[4].instruction_pointer);
}
