//! The core scenarios: arithmetic, register moves, pointer wraparound,
//! and the port handshakes between neighboring nodes.

use nodeplane::instr::{Dst, Instruction, Mode, Port, Register, Src, TruePort};
use nodeplane::plane::ExecutionPlane;

#[test]
fn basic_add() {
    let mut plane = ExecutionPlane::new();
    let node_1_instructions = plane.get_node_instructions_mut(0);
    node_1_instructions[0] = Some(Instruction::Add(Src::Literal(42)));
    node_1_instructions[1] = Some(Instruction::Add(Src::Register(Register::Acc)));
    plane.step().unwrap();
    assert_eq!(42, plane.nodes[0].acc);
    plane.step().unwrap();
    assert_eq!(84, plane.nodes[0].acc);
}

#[test]
fn read_add() {
    let mut plane = ExecutionPlane::new();
    let node_1_instructions = plane.get_node_instructions_mut(0);
    node_1_instructions[0] = Some(Instruction::Add(Src::Port(Port::True(TruePort::Right))));
    let node_2_instructions = plane.get_node_instructions_mut(1);
    node_2_instructions[0] = Some(Instruction::Mov(
        Src::Literal(5000),
        Dst::Port(Port::True(TruePort::Left)),
    ));
    plane.step().unwrap();
    plane.step().unwrap();
    assert_eq!(5000, plane.nodes[0].acc);
}

#[test]
fn add_negative() {
    let mut plane = ExecutionPlane::new();
    let node_1_instructions = plane.get_node_instructions_mut(0);
    node_1_instructions[0] = Some(Instruction::Add(Src::Literal(-42)));
    plane.step().unwrap();
    assert_eq!(-42, plane.nodes[0].acc);
}

#[test]
fn add_saturating() {
    let max = 32767;
    let mut plane = ExecutionPlane::new();
    let node_1_instructions = plane.get_node_instructions_mut(0);
    node_1_instructions[0] = Some(Instruction::Add(Src::Literal(max)));
    node_1_instructions[1] = Some(Instruction::Add(Src::Literal(1)));
    plane.step().unwrap();
    plane.step().unwrap();
    assert_eq!(max, plane.nodes[0].acc);
}

#[test]
fn add_instruction_wraparound() {
    let mut plane = ExecutionPlane::new();
    let node_1_instructions = plane.get_node_instructions_mut(0);
    node_1_instructions[0] = Some(Instruction::Add(Src::Literal(1)));
    assert_eq!(0, plane.nodes[0].acc);
    plane.step().unwrap();
    assert_eq!(1, plane.nodes[0].acc);
    plane.step().unwrap();
    assert_eq!(2, plane.nodes[0].acc);
    plane.step().unwrap();
    assert_eq!(3, plane.nodes[0].acc);
}

#[test]
fn negate() {
    let mut plane = ExecutionPlane::new();
    let node_1_instructions = plane.get_node_instructions_mut(0);
    node_1_instructions[0] = Some(Instruction::Add(Src::Literal(-42)));
    node_1_instructions[1] = Some(Instruction::Neg);
    node_1_instructions[2] = Some(Instruction::Neg);
    plane.step().unwrap();
    plane.step().unwrap();
    assert_eq!(42, plane.nodes[0].acc);
    plane.step().unwrap();
    assert_eq!(-42, plane.nodes[0].acc);
}

#[test]
fn negate_zero() {
    let mut plane = ExecutionPlane::new();
    let node_1_instructions = plane.get_node_instructions_mut(0);
    node_1_instructions[0] = Some(Instruction::Neg);
    plane.step().unwrap();
    assert_eq!(0, plane.nodes[0].acc);
}

#[test]
fn basic_sav() {
    let mut plane = ExecutionPlane::new();
    let node_1_instructions = plane.get_node_instructions_mut(0);
    node_1_instructions[0] = Some(Instruction::Add(Src::Literal(42)));
    node_1_instructions[1] = Some(Instruction::Sav);
    plane.step().unwrap();
    plane.step().unwrap();
    assert_eq!(42, plane.nodes[0].bak);
}

#[test]
fn basic_swp() {
    let mut plane = ExecutionPlane::new();
    let node_1_instructions = plane.get_node_instructions_mut(0);
    node_1_instructions[0] = Some(Instruction::Add(Src::Literal(42)));
    node_1_instructions[1] = Some(Instruction::Sav);
    node_1_instructions[2] = Some(Instruction::Mov(
        Src::Literal(13),
        Dst::Register(Register::Acc),
    ));
    node_1_instructions[3] = Some(Instruction::Swp);
    plane.step().unwrap();
    plane.step().unwrap();
    plane.step().unwrap();
    plane.step().unwrap();
    assert_eq!(13, plane.nodes[0].bak);
    assert_eq!(42, plane.nodes[0].acc);
}

#[test]
fn basic_port_mov() {
    let mut plane = ExecutionPlane::new();
    let node_1_instructions = plane.get_node_instructions_mut(0);
    node_1_instructions[0] = Some(Instruction::Mov(
        Src::Literal(42),
        Dst::Port(Port::True(TruePort::Right)),
    ));
    node_1_instructions[1] = Some(Instruction::Mov(
        Src::Port(Port::True(TruePort::Right)),
        Dst::Register(Register::Acc),
    ));
    let node_2_instructions = plane.get_node_instructions_mut(1);
    node_2_instructions[0] = Some(Instruction::Mov(
        Src::Port(Port::True(TruePort::Left)),
        Dst::Register(Register::Acc),
    ));
    node_2_instructions[1] = Some(Instruction::Mov(
        Src::Literal(13),
        Dst::Port(Port::True(TruePort::Left)),
    ));
    plane.step().unwrap();
    assert_eq!(Mode::Write, plane.nodes[0].mode);
    assert_eq!(Mode::Read, plane.nodes[1].mode);
    assert_eq!(0, plane.nodes[1].acc);
    assert_eq!(TruePort::Right, plane.nodes[0].last_port.unwrap());
    assert_eq!(TruePort::Left, plane.nodes[1].last_port.unwrap());
    plane.step().unwrap();
    assert_eq!(Mode::Run, plane.nodes[0].mode);
    assert_eq!(Mode::Run, plane.nodes[1].mode);
    assert_eq!(42, plane.nodes[1].acc);
    plane.step().unwrap();
    assert_eq!(Mode::Read, plane.nodes[0].mode);
    assert_eq!(Mode::Write, plane.nodes[1].mode);
    plane.step().unwrap();
    assert_eq!(Mode::Run, plane.nodes[0].mode);
    assert_eq!(Mode::Run, plane.nodes[1].mode);
    assert_eq!(13, plane.nodes[0].acc);
}

#[test]
fn nop_then_port_mov() {
    let mut plane = ExecutionPlane::new();
    let node_1_instructions = plane.get_node_instructions_mut(0);
    node_1_instructions[0] = Some(Instruction::Mov(
        Src::Literal(42),
        Dst::Port(Port::True(TruePort::Right)),
    ));
    let node_2_instructions = plane.get_node_instructions_mut(1);
    node_2_instructions[0] = Some(Instruction::Add(Src::Register(Register::Acc)));
    node_2_instructions[1] = Some(Instruction::Mov(
        Src::Port(Port::True(TruePort::Left)),
        Dst::Register(Register::Acc),
    ));
    plane.step().unwrap();
    assert_eq!(Mode::Write, plane.nodes[0].mode);
    assert_eq!(Mode::Run, plane.nodes[1].mode);
    plane.step().unwrap();
    // note that the Read was instant
    assert_eq!(Mode::Run, plane.nodes[0].mode);
    assert_eq!(Mode::Run, plane.nodes[1].mode);
    assert_eq!(42, plane.nodes[1].acc);
}

#[test]
fn port_mov_back() {
    let mut plane = ExecutionPlane::new();
    let node_1_instructions = plane.get_node_instructions_mut(0);
    node_1_instructions[0] = Some(Instruction::Mov(
        Src::Literal(13),
        Dst::Port(Port::True(TruePort::Right)),
    ));
    node_1_instructions[1] = Some(Instruction::Mov(
        Src::Port(Port::True(TruePort::Right)),
        Dst::Register(Register::Acc),
    ));

    let node_2_instructions = plane.get_node_instructions_mut(1);
    node_2_instructions[0] = Some(Instruction::Mov(
        Src::Port(Port::True(TruePort::Left)),
        Dst::Port(Port::True(TruePort::Left)),
    ));

    plane.step().unwrap();
    assert_eq!(Mode::Write, plane.nodes[0].mode);
    assert_eq!(Mode::Read, plane.nodes[1].mode);
    plane.step().unwrap();
    assert_eq!(Mode::Run, plane.nodes[0].mode);
    assert_eq!(Mode::Write, plane.nodes[1].mode);
    plane.step().unwrap();
    assert_eq!(Mode::Run, plane.nodes[0].mode);
    assert_eq!(Mode::Run, plane.nodes[1].mode);
    assert_eq!(13, plane.nodes[0].acc);
}
