//! The instruction set: registers, ports, operands, instructions, node
//! modes, faults, and the saturating 16-bit word arithmetic that every
//! arithmetic instruction uses.

use vstd::prelude::*;

verus! {

/// Largest value a word can hold.
pub const WORD_MAX: i16 = 32767;

/// Smallest value a word can hold.
pub const WORD_MIN: i16 = -32768;

/// An addressable register.  `BAK` also exists on every node but is not
/// addressable; it is reached only through `SAV` and `SWP`.
#[derive(Clone, Copy, Debug, PartialEq, Eq, Structural)]
pub enum Register {
    Acc,
    Nil,
}

/// A concrete port direction.  `Any` is accepted by the data model but the
/// engine declines to resolve it: using it faults the node.
#[derive(Clone, Copy, Debug, PartialEq, Eq, Structural)]
pub enum TruePort {
    Up,
    Down,
    Left,
    Right,
    Any,
}

impl TruePort {
    /// The direction seen from the other side of a shared edge.
    pub open spec fn reverse_spec(self) -> TruePort {
        match self {
            TruePort::Left => TruePort::Right,
            TruePort::Up => TruePort::Down,
            TruePort::Right => TruePort::Left,
            TruePort::Down => TruePort::Up,
            TruePort::Any => TruePort::Any,
        }
    }

    pub fn reverse(&self) -> (r: Self)
        requires
            *self !is Any,
        ensures
            r == self.reverse_spec(),
    {
        match self {
            TruePort::Left => TruePort::Right,
            TruePort::Up => TruePort::Down,
            TruePort::Right => TruePort::Left,
            TruePort::Down => TruePort::Up,
            TruePort::Any => TruePort::Any,
        }
    }
}

/// A port operand: a concrete direction, or `Last`, which resolves at use
/// time to the most recently used cardinal direction.
#[derive(Clone, Copy, Debug, PartialEq, Eq, Structural)]
pub enum Port {
    True(TruePort),
    Last,
}

/// A source operand.
#[derive(Clone, Copy, Debug, PartialEq, Eq, Structural)]
pub enum Src {
    Port(Port),
    Register(Register),
    Literal(i16),
}

/// A destination operand.
#[derive(Clone, Copy, Debug, PartialEq, Eq, Structural)]
pub enum Dst {
    Port(Port),
    Register(Register),
}

/// A node's execution mode: running, awaiting a port read, or awaiting the
/// pickup of a written value.
#[derive(Clone, Copy, Debug, PartialEq, Eq, Structural)]
pub enum Mode {
    Run,
    Read,
    Write,
}

/// One pre-decoded instruction.  Jump targets are already-resolved slot
/// indices; `Jro` jumps by a relative offset.
#[derive(Clone, Copy, Debug, PartialEq, Eq, Structural)]
pub enum Instruction {
    Add(Src),
    Sub(Src),
    Mov(Src, Dst),
    Sav,
    Swp,
    Neg,
    Jro(Src),
    Jez(Src),
    Jnz(Src),
    Jgz(Src),
    Jlz(Src),
    Hcf,
}

impl Instruction {
    /// The source operand of an instruction, if it has one.
    pub open spec fn get_src_spec(self) -> Option<Src> {
        match self {
            Instruction::Mov(s, _) => Some(s),
            Instruction::Sub(s) => Some(s),
            Instruction::Add(s) => Some(s),
            Instruction::Jro(s) => Some(s),
            Instruction::Jez(s) => Some(s),
            Instruction::Jnz(s) => Some(s),
            Instruction::Jgz(s) => Some(s),
            Instruction::Jlz(s) => Some(s),
            _ => None,
        }
    }

    pub fn get_src(&self) -> (r: Option<Src>)
        ensures
            r == self.get_src_spec(),
    {
        match self {
            Instruction::Mov(s, _) => Some(*s),
            Instruction::Sub(s) => Some(*s),
            Instruction::Add(s) => Some(*s),
            Instruction::Jro(s) => Some(*s),
            Instruction::Jez(s) => Some(*s),
            Instruction::Jnz(s) => Some(*s),
            Instruction::Jgz(s) => Some(*s),
            Instruction::Jlz(s) => Some(*s),
            _ => None,
        }
    }
}

/// The ways a cycle can go wrong.  All are surfaced to the caller and halt
/// the session; node state stays inspectable for diagnostics.
#[derive(Clone, Copy, Debug, PartialEq, Eq, Structural)]
pub enum Fault {
    /// `HCF` was executed.
    Hcf,
    /// A port operand could not be resolved to a cardinal direction:
    /// either `Any`, or `Last` before any port had been used.
    InvalidPort,
    /// A queued write was flushed onto an already occupied mailbox.
    WriteDeadlock,
}

/// Clamps an unbounded result into the word range.
pub open spec fn sat_word(v: int) -> int {
    if v > WORD_MAX as int {
        WORD_MAX as int
    } else if v < WORD_MIN as int {
        WORD_MIN as int
    } else {
        v
    }
}

/// Saturating addition of two words.
pub fn sat_add(a: i16, b: i16) -> (r: i16)
    ensures
        r as int == sat_word(a as int + b as int),
{
    match a.checked_add(b) {
        Some(v) => v,
        None => if b >= 0 {
            WORD_MAX
        } else {
            WORD_MIN
        },
    }
}

/// Saturating subtraction of two words.
pub fn sat_sub(a: i16, b: i16) -> (r: i16)
    ensures
        r as int == sat_word(a as int - b as int),
{
    match a.checked_sub(b) {
        Some(v) => v,
        None => if b <= 0 {
            WORD_MAX
        } else {
            WORD_MIN
        },
    }
}

/// Saturating negation: the one word without a 16-bit negation, `-32768`,
/// saturates to `32767`; every other word negates exactly.
pub fn sat_neg(a: i16) -> (r: i16)
    ensures
        r as int == sat_word(-(a as int)),
{
    if a == WORD_MIN {
        WORD_MAX
    } else {
        -a
    }
}

} // verus!
