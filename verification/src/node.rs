//! One execution node: a register machine with a saturating 16-bit
//! accumulator and backup register, a 21-slot program store, an
//! instruction pointer, buffers for pending port traffic, and a
//! three-valued mode (`Run` / `Read` / `Write`).
//!
//! Every mutating method is proved equal to a functional model of the
//! transition it performs; the scheduler's cycle model is built from the
//! same spec functions.

use vstd::prelude::*;

use crate::instr::{sat_add, sat_neg, sat_sub, sat_word, Dst, Fault, Instruction, Mode, Port,
    Register, Src, TruePort};

verus! {

/// Number of instruction slots in each node's program store.
pub const INSTRUCTIONS_PER_NODE: usize = 21;

/// The slot that follows `i`, wrapping to 0 past the end of the program
/// store.
pub open spec fn next_slot(i: int) -> int {
    if i + 1 >= INSTRUCTIONS_PER_NODE as int {
        0
    } else {
        i + 1
    }
}

/// Clamps a jump target into the valid slot range `[0, 21)`.
pub open spec fn clamp_slot(v: int) -> int {
    if v < 0 {
        0
    } else if v > INSTRUCTIONS_PER_NODE as int - 1 {
        INSTRUCTIONS_PER_NODE as int - 1
    } else {
        v
    }
}

/// The first non-empty slot reached from `start` in wrapping order,
/// looking at no more than `k` slots.
pub open spec fn first_full_slot(prog: Seq<Option<Instruction>>, start: int, k: nat) -> Option<
    int,
>
    decreases k,
{
    if k == 0 {
        None
    } else if prog[start] is Some {
        Some(start)
    } else {
        first_full_slot(prog, next_slot(start), (k - 1) as nat)
    }
}

/// A found slot lies in the valid range.
pub proof fn lemma_first_full_slot_in_range(prog: Seq<Option<Instruction>>, start: int, k: nat)
    requires
        0 <= start < INSTRUCTIONS_PER_NODE as int,
    ensures
        first_full_slot(prog, start, k) matches Some(j) ==> 0 <= j
            < INSTRUCTIONS_PER_NODE as int,
    decreases k,
{
    if k > 0 && !(prog[start] is Some) {
        lemma_first_full_slot_in_range(prog, next_slot(start), (k - 1) as nat);
    }
}

/// One compute node of the plane.  It knows nothing of geometry: the
/// scheduler resolves directions to edges and moves words between the
/// buffers here and the mailboxes out there.
#[derive(Clone, Copy, Debug)]
pub struct ExecutionNode {
    /// Accumulator.
    pub acc: i16,
    /// Backup register, reached only through `SAV` and `SWP`.
    pub bak: i16,
    /// Next slot to execute; always in `[0, 21)` on a well-formed node.
    pub instruction_pointer: u8,
    /// Instruction latched by the last fetch.
    pub current_instruction: Option<Instruction>,
    /// Word received from a port, awaiting consumption.
    pub port_read_buffer: Option<i16>,
    /// Word offered to a port, awaiting pickup by the scheduler.
    pub port_write_buffer: Option<i16>,
    /// Cardinal direction of the pending transfer while in `Read`/`Write`.
    pub direction: Option<TruePort>,
    /// Most recently used cardinal direction, for resolving `LAST`.
    pub last_port: Option<TruePort>,
    /// Execution mode.
    pub mode: Mode,
}

impl ExecutionNode {
    /// The state every node starts in: registers zeroed, buffers empty,
    /// mode `Run`.
    pub open spec fn initial_spec() -> ExecutionNode {
        ExecutionNode {
            acc: 0,
            bak: 0,
            instruction_pointer: 0,
            current_instruction: None,
            port_read_buffer: None,
            port_write_buffer: None,
            direction: None,
            last_port: None,
            mode: Mode::Run,
        }
    }

    pub fn new() -> (n: Self)
        ensures
            n == Self::initial_spec(),
    {
        ExecutionNode {
            acc: 0,
            bak: 0,
            instruction_pointer: 0,
            current_instruction: None,
            port_read_buffer: None,
            port_write_buffer: None,
            direction: None,
            last_port: None,
            mode: Mode::Run,
        }
    }

    /// Well-formedness: the instruction pointer is a valid slot, and a
    /// node mid-handshake knows the cardinal direction of its transfer.
    pub open spec fn wf(self) -> bool {
        &&& self.instruction_pointer < INSTRUCTIONS_PER_NODE as u8
        &&& (self.mode is Read || self.mode is Write) ==> (self.direction matches Some(d) && d
            !is Any)
        &&& (self.last_port matches Some(p) ==> p !is Any)
    }

    /// Resolution of a port operand to a cardinal direction: `Last` takes
    /// the most recently used direction, and `Any` (or `Last` before any
    /// port was used) does not resolve.
    pub open spec fn resolve_port_spec(self, port: Port) -> Option<TruePort> {
        match port {
            Port::True(p) => if p is Any {
                None
            } else {
                Some(p)
            },
            Port::Last => match self.last_port {
                Some(p) => if p is Any {
                    None
                } else {
                    Some(p)
                },
                None => None,
            },
        }
    }

    /// Resolves a port operand, or reports that it has no cardinal form.
    pub fn map_port(&self, port: Port) -> (r: Option<TruePort>)
        ensures
            r == self.resolve_port_spec(port),
    {
        match port {
            Port::True(p) => match p {
                TruePort::Any => None,
                _ => Some(p),
            },
            Port::Last => match self.last_port {
                Some(p) => match p {
                    TruePort::Any => None,
                    _ => Some(p),
                },
                None => None,
            },
        }
    }

    /// Phase A: latch the instruction at `ip`, skipping empty slots in
    /// wrapping order; with a fully empty program the node idles.
    pub open spec fn fetch_spec(self, prog: Seq<Option<Instruction>>) -> ExecutionNode {
        match first_full_slot(prog, self.instruction_pointer as int, INSTRUCTIONS_PER_NODE as nat) {
            Some(j) => ExecutionNode {
                instruction_pointer: j as u8,
                current_instruction: prog[j],
                ..self
            },
            None => ExecutionNode { current_instruction: None, ..self },
        }
    }

    pub fn fetch(&mut self, instructions: &[Option<Instruction>])
        requires
            old(self).instruction_pointer < INSTRUCTIONS_PER_NODE as u8,
            instructions@.len() == INSTRUCTIONS_PER_NODE as nat,
        ensures
            *final(self) == old(self).fetch_spec(instructions@),
    {
        let mut idx: usize = self.instruction_pointer as usize;
        let mut k: usize = 0;
        while k < INSTRUCTIONS_PER_NODE
            invariant
                idx < INSTRUCTIONS_PER_NODE,
                k <= INSTRUCTIONS_PER_NODE,
                instructions@.len() == INSTRUCTIONS_PER_NODE as nat,
                *self == *old(self),
                old(self).instruction_pointer < INSTRUCTIONS_PER_NODE as u8,
                first_full_slot(
                    instructions@,
                    old(self).instruction_pointer as int,
                    INSTRUCTIONS_PER_NODE as nat,
                ) == first_full_slot(
                    instructions@,
                    idx as int,
                    (INSTRUCTIONS_PER_NODE - k) as nat,
                ),
            decreases INSTRUCTIONS_PER_NODE - k,
        {
            if instructions[idx].is_some() {
                self.instruction_pointer = idx as u8;
                self.current_instruction = instructions[idx];
                return ;
            }
            idx = if idx + 1 >= INSTRUCTIONS_PER_NODE {
                0
            } else {
                idx + 1
            };
            k = k + 1;
        }
        self.current_instruction = None;
    }

    /// The instruction pointer after a completed instruction: one slot
    /// further, wrapping to 0 past the end of the program store.
    pub open spec fn advance_spec(self) -> ExecutionNode {
        ExecutionNode {
            instruction_pointer: next_slot(self.instruction_pointer as int) as u8,
            ..self
        }
    }

    pub fn increment_instruction_pointer(&mut self)
        ensures
            *final(self) == old(self).advance_spec(),
    {
        self.instruction_pointer = if self.instruction_pointer >= (INSTRUCTIONS_PER_NODE - 1)
            as u8 {
            0
        } else {
            self.instruction_pointer + 1
        };
    }

    /// The retirement of a completed port write: back to `Run`, and the
    /// instruction pointer moves past the `MOV`.
    pub open spec fn resolve_write_spec(self) -> ExecutionNode {
        (ExecutionNode { mode: Mode::Run, ..self }).advance_spec()
    }

    pub fn resolve_write(&mut self)
        ensures
            *final(self) == old(self).resolve_write_spec(),
    {
        self.mode = Mode::Run;
        self.increment_instruction_pointer();
    }

    /// Phase B: a running node whose latched instruction reads from a
    /// port announces the read: mode becomes `Read`, the resolved
    /// cardinal direction is recorded, and `last_port` is updated.  The
    /// value itself arrives later, from the scheduler.  A port operand
    /// with no cardinal form faults and leaves the node unchanged.
    pub open spec fn read_step_spec(self) -> (ExecutionNode, Result<(), Fault>) {
        if self.mode is Read || self.mode is Write {
            (self, Ok(()))
        } else {
            match self.current_instruction {
                Some(instruction) => match instruction.get_src_spec() {
                    Some(Src::Port(port)) => match self.resolve_port_spec(port) {
                        Some(p) => (
                            ExecutionNode {
                                mode: Mode::Read,
                                direction: Some(p),
                                last_port: Some(p),
                                ..self
                            },
                            Ok(()),
                        ),
                        None => (self, Err(Fault::InvalidPort)),
                    },
                    _ => (self, Ok(())),
                },
                None => (self, Ok(())),
            }
        }
    }

    pub fn read_step(&mut self) -> (r: Result<(), Fault>)
        ensures
            (*final(self), r) == old(self).read_step_spec(),
    {
        if self.mode == Mode::Read || self.mode == Mode::Write {
            return Ok(());
        }
        let cur = self.current_instruction;
        if let Some(instruction) = cur {
            if let Some(src) = instruction.get_src() {
                if let Src::Port(port) = src {
                    match self.map_port(port) {
                        Some(p) => {
                            self.mode = Mode::Read;
                            self.direction = Some(p);
                            self.last_port = Some(p);
                        },
                        None => {
                            return Err(Fault::InvalidPort);
                        },
                    }
                }
            }
        }
        Ok(())
    }

    /// The value a non-`MOV` instruction reads, together with the node
    /// after taking it.  In `Read` mode the pending port value is
    /// consumed (buffer cleared, back to `Run`) if it has arrived, and
    /// `None` means the read is still outstanding.  Otherwise a register
    /// or literal yields its value immediately; `NIL` reads as zero.
    pub open spec fn src_value_spec(self, src: Src) -> Option<(ExecutionNode, i16)> {
        if self.mode is Read {
            match self.port_read_buffer {
                Some(v) => Some(
                    (ExecutionNode { mode: Mode::Run, port_read_buffer: None, ..self }, v),
                ),
                None => None,
            }
        } else {
            match src {
                Src::Literal(v) => Some((self, v)),
                Src::Register(Register::Acc) => Some((self, self.acc)),
                Src::Register(Register::Nil) => Some((self, 0i16)),
                Src::Port(_) => None,
            }
        }
    }

    fn take_src_value(&mut self, src: Src) -> (r: Option<i16>)
        ensures
            match r {
                Some(v) => old(self).src_value_spec(src) == Some((*final(self), v)),
                None => old(self).src_value_spec(src) is None && *final(self) == *old(self),
            },
    {
        if self.mode == Mode::Read {
            match self.port_read_buffer {
                Some(v) => {
                    self.port_read_buffer = None;
                    self.mode = Mode::Run;
                    Some(v)
                },
                None => None,
            }
        } else {
            match src {
                Src::Literal(v) => Some(v),
                Src::Register(Register::Acc) => Some(self.acc),
                Src::Register(Register::Nil) => Some(0i16),
                Src::Port(_) => None,
            }
        }
    }

    /// `ADD`: the source value is added to `acc`, saturating at the word
    /// bounds.  An outstanding port read makes no progress.
    pub open spec fn add_spec(self, src: Src) -> ExecutionNode {
        match self.src_value_spec(src) {
            Some((n1, v)) => ExecutionNode { acc: sat_word(n1.acc + v) as i16, ..n1 },
            None => self,
        }
    }

    pub fn add(&mut self, src: Src)
        ensures
            *final(self) == old(self).add_spec(src),
    {
        match self.take_src_value(src) {
            Some(v) => {
                self.acc = sat_add(self.acc, v);
            },
            None => {},
        }
    }

    /// `SUB`: symmetric to `ADD`.
    pub open spec fn sub_spec(self, src: Src) -> ExecutionNode {
        match self.src_value_spec(src) {
            Some((n1, v)) => ExecutionNode { acc: sat_word(n1.acc - v) as i16, ..n1 },
            None => self,
        }
    }

    pub fn sub(&mut self, src: Src)
        ensures
            *final(self) == old(self).sub_spec(src),
    {
        match self.take_src_value(src) {
            Some(v) => {
                self.acc = sat_sub(self.acc, v);
            },
            None => {},
        }
    }

    /// `SAV`: `bak := acc`.
    pub open spec fn sav_spec(self) -> ExecutionNode {
        ExecutionNode { bak: self.acc, ..self }
    }

    pub fn sav(&mut self)
        ensures
            *final(self) == old(self).sav_spec(),
    {
        self.bak = self.acc;
    }

    /// `SWP`: exchange `acc` and `bak`.
    pub open spec fn swp_spec(self) -> ExecutionNode {
        ExecutionNode { acc: self.bak, bak: self.acc, ..self }
    }

    pub fn swp(&mut self)
        ensures
            *final(self) == old(self).swp_spec(),
    {
        let a = self.acc;
        self.acc = self.bak;
        self.bak = a;
    }

    /// `NEG`: `acc := -acc`, with `-32768` saturating to `32767`.
    pub open spec fn neg_spec(self) -> ExecutionNode {
        ExecutionNode { acc: sat_word(-(self.acc as int)) as i16, ..self }
    }

    pub fn neg(&mut self)
        ensures
            *final(self) == old(self).neg_spec(),
    {
        self.acc = sat_neg(self.acc);
    }

    /// `MOV`: resolve the source to a value (an outstanding port read
    /// makes no progress), then deliver it: a port destination publishes
    /// the value into the write buffer and enters `Write` (unless a write
    /// is already pending), `ACC` assigns, `NIL` discards.  A port
    /// operand with no cardinal form faults and leaves the node
    /// unchanged.
    pub open spec fn mov_spec(self, src: Src, dst: Dst) -> (ExecutionNode, Result<(), Fault>) {
        let taken: Option<(ExecutionNode, i16)> = match src {
            Src::Port(_) => match self.port_read_buffer {
                Some(v) => if self.mode is Write {
                    Some((self, v))
                } else {
                    Some((ExecutionNode { mode: Mode::Run, port_read_buffer: None, ..self }, v))
                },
                None => None,
            },
            Src::Register(Register::Acc) => Some((self, self.acc)),
            Src::Register(Register::Nil) => Some((self, 0i16)),
            Src::Literal(v) => Some((self, v)),
        };
        match taken {
            None => (self, Ok(())),
            Some((n1, v)) => match dst {
                Dst::Port(port) => if n1.mode is Write {
                    (n1, Ok(()))
                } else {
                    match n1.resolve_port_spec(port) {
                        Some(p) => (
                            ExecutionNode {
                                mode: Mode::Write,
                                port_write_buffer: Some(v),
                                direction: Some(p),
                                last_port: Some(p),
                                ..n1
                            },
                            Ok(()),
                        ),
                        None => (self, Err(Fault::InvalidPort)),
                    }
                },
                Dst::Register(Register::Acc) => (ExecutionNode { acc: v, ..n1 }, Ok(())),
                Dst::Register(Register::Nil) => (n1, Ok(())),
            },
        }
    }

    pub fn mov(&mut self, src: Src, dst: Dst) -> (r: Result<(), Fault>)
        ensures
            (*final(self), r) == old(self).mov_spec(src, dst),
    {
        let saved = *self;
        let value: Option<i16> = match src {
            Src::Port(_) => {
                let v = self.port_read_buffer;
                if v.is_some() && self.mode != Mode::Write {
                    self.mode = Mode::Run;
                    self.port_read_buffer = None;
                }
                v
            },
            Src::Register(register) => match register {
                Register::Acc => Some(self.acc),
                Register::Nil => Some(0i16),
            },
            Src::Literal(v) => Some(v),
        };
        let value = match value {
            None => {
                return Ok(());
            },
            Some(v) => v,
        };
        match dst {
            Dst::Port(port) => {
                if self.mode != Mode::Write {
                    match self.map_port(port) {
                        Some(p) => {
                            self.mode = Mode::Write;
                            self.port_write_buffer = Some(value);
                            self.direction = Some(p);
                            self.last_port = Some(p);
                        },
                        None => {
                            *self = saved;
                            return Err(Fault::InvalidPort);
                        },
                    }
                }
            },
            Dst::Register(register) => match register {
                Register::Acc => {
                    self.acc = value;
                },
                Register::Nil => {},
            },
        }
        Ok(())
    }

    /// `JRO`: jump by the source value relative to the current slot,
    /// clamped into the valid slot range.
    pub open spec fn jro_spec(self, src: Src) -> (ExecutionNode, bool) {
        match self.src_value_spec(src) {
            Some((n1, v)) => (
                ExecutionNode {
                    instruction_pointer: clamp_slot(n1.instruction_pointer + v) as u8,
                    ..n1
                },
                true,
            ),
            None => (self, false),
        }
    }

    pub fn jro(&mut self, src: Src) -> (jumped: bool)
        ensures
            (*final(self), jumped) == old(self).jro_spec(src),
    {
        match self.take_src_value(src) {
            Some(v) => {
                let target: i32 = self.instruction_pointer as i32 + v as i32;
                self.instruction_pointer = if target < 0 {
                    0
                } else if target > (INSTRUCTIONS_PER_NODE - 1) as i32 {
                    (INSTRUCTIONS_PER_NODE - 1) as u8
                } else {
                    target as u8
                };
                true
            },
            None => false,
        }
    }

    /// A conditional jump: when `taken`, the source value is the absolute
    /// target slot, clamped into the valid slot range; otherwise the
    /// instruction completes and the pointer advances normally.
    pub open spec fn jump_if_spec(self, src: Src, taken: bool) -> (ExecutionNode, bool) {
        match self.src_value_spec(src) {
            Some((n1, v)) => if taken {
                (ExecutionNode { instruction_pointer: clamp_slot(v as int) as u8, ..n1 }, true)
            } else {
                (n1, false)
            },
            None => (self, false),
        }
    }

    pub fn jump_if(&mut self, src: Src, taken: bool) -> (jumped: bool)
        ensures
            (*final(self), jumped) == old(self).jump_if_spec(src, taken),
    {
        match self.take_src_value(src) {
            Some(v) => {
                if taken {
                    self.instruction_pointer = if v < 0 {
                        0
                    } else if v > (INSTRUCTIONS_PER_NODE - 1) as i16 {
                        (INSTRUCTIONS_PER_NODE - 1) as u8
                    } else {
                        v as u8
                    };
                    true
                } else {
                    false
                }
            },
            None => false,
        }
    }

    /// Phase C, the dispatch: the node after the latched instruction, the
    /// fault it raised if any, and whether it set the instruction pointer
    /// itself.  `HCF` faults and leaves the node unchanged.
    pub open spec fn dispatch_spec(self, instruction: Instruction) -> (
        ExecutionNode,
        Result<(), Fault>,
        bool,
    ) {
        match instruction {
            Instruction::Mov(src, dst) => {
                let (n1, r) = self.mov_spec(src, dst);
                (n1, r, false)
            },
            Instruction::Add(src) => (self.add_spec(src), Ok(()), false),
            Instruction::Sub(src) => (self.sub_spec(src), Ok(()), false),
            Instruction::Sav => (self.sav_spec(), Ok(()), false),
            Instruction::Swp => (self.swp_spec(), Ok(()), false),
            Instruction::Neg => (self.neg_spec(), Ok(()), false),
            Instruction::Jro(src) => {
                let (n1, jumped) = self.jro_spec(src);
                (n1, Ok(()), jumped)
            },
            Instruction::Jez(src) => {
                let (n1, jumped) = self.jump_if_spec(src, self.acc == 0);
                (n1, Ok(()), jumped)
            },
            Instruction::Jnz(src) => {
                let (n1, jumped) = self.jump_if_spec(src, self.acc != 0);
                (n1, Ok(()), jumped)
            },
            Instruction::Jgz(src) => {
                let (n1, jumped) = self.jump_if_spec(src, self.acc > 0);
                (n1, Ok(()), jumped)
            },
            Instruction::Jlz(src) => {
                let (n1, jumped) = self.jump_if_spec(src, self.acc < 0);
                (n1, Ok(()), jumped)
            },
            Instruction::Hcf => (self, Err(Fault::Hcf), false),
        }
    }

    /// Fetching preserves well-formedness: the pointer only moves to a
    /// slot a non-empty instruction was found in.
    pub proof fn lemma_fetch_wf(self, prog: Seq<Option<Instruction>>)
        requires
            self.wf(),
        ensures
            self.fetch_spec(prog).wf(),
    {
        lemma_first_full_slot_in_range(
            prog,
            self.instruction_pointer as int,
            INSTRUCTIONS_PER_NODE as nat,
        );
    }

    /// Announcing a read preserves well-formedness: the recorded
    /// direction is always cardinal.
    pub proof fn lemma_read_step_wf(self)
        requires
            self.wf(),
        ensures
            self.read_step_spec().0.wf(),
    {
    }

    /// Phase C with the instruction-pointer rule: after a fault-free
    /// dispatch that ends in `Run` and was not a jump, the pointer
    /// advances by one slot (wrapping); a node stalled in `Read` or
    /// `Write` keeps its pointer and will retry the same instruction.
    /// An idle node (no latched instruction) does nothing.
    pub open spec fn step_spec(self) -> (ExecutionNode, Result<(), Fault>) {
        match self.current_instruction {
            None => (self, Ok(())),
            Some(instruction) => {
                let (n1, r, jumped) = self.dispatch_spec(instruction);
                if r is Ok && n1.mode is Run && !jumped {
                    (n1.advance_spec(), r)
                } else {
                    (n1, r)
                }
            },
        }
    }

    /// Executing one instruction preserves well-formedness: jump targets
    /// are clamped into the slot range, the wrapping advance stays in it,
    /// and a node entering `Write` records a cardinal direction.
    #[verifier::rlimit(50)]
    pub proof fn lemma_step_wf(self)
        requires
            self.wf(),
        ensures
            self.step_spec().0.wf(),
    {
        match self.current_instruction {
            None => {},
            Some(instruction) => {
                match instruction {
                    Instruction::Mov(src, dst) => {
                        assert(self.mov_spec(src, dst).0.wf());
                    },
                    Instruction::Add(src) => {
                        assert(self.add_spec(src).wf());
                    },
                    Instruction::Sub(src) => {
                        assert(self.sub_spec(src).wf());
                    },
                    Instruction::Jro(src) => {
                        assert(self.jro_spec(src).0.wf());
                    },
                    Instruction::Jez(src) => {
                        assert(self.jump_if_spec(src, self.acc == 0).0.wf());
                    },
                    Instruction::Jnz(src) => {
                        assert(self.jump_if_spec(src, self.acc != 0).0.wf());
                    },
                    Instruction::Jgz(src) => {
                        assert(self.jump_if_spec(src, self.acc > 0).0.wf());
                    },
                    Instruction::Jlz(src) => {
                        assert(self.jump_if_spec(src, self.acc < 0).0.wf());
                    },
                    _ => {},
                }
            },
        }
    }

    pub fn step(&mut self) -> (r: Result<(), Fault>)
        ensures
            (*final(self), r) == old(self).step_spec(),
    {
        let cur = self.current_instruction;
        match cur {
            None => Ok(()),
            Some(instruction) => {
                let mut jumped = false;
                let r: Result<(), Fault> = match instruction {
                    Instruction::Mov(src, dst) => self.mov(src, dst),
                    Instruction::Add(src) => {
                        self.add(src);
                        Ok(())
                    },
                    Instruction::Sub(src) => {
                        self.sub(src);
                        Ok(())
                    },
                    Instruction::Sav => {
                        self.sav();
                        Ok(())
                    },
                    Instruction::Swp => {
                        self.swp();
                        Ok(())
                    },
                    Instruction::Neg => {
                        self.neg();
                        Ok(())
                    },
                    Instruction::Jro(src) => {
                        jumped = self.jro(src);
                        Ok(())
                    },
                    Instruction::Jez(src) => {
                        let taken = self.acc == 0;
                        jumped = self.jump_if(src, taken);
                        Ok(())
                    },
                    Instruction::Jnz(src) => {
                        let taken = self.acc != 0;
                        jumped = self.jump_if(src, taken);
                        Ok(())
                    },
                    Instruction::Jgz(src) => {
                        let taken = self.acc > 0;
                        jumped = self.jump_if(src, taken);
                        Ok(())
                    },
                    Instruction::Jlz(src) => {
                        let taken = self.acc < 0;
                        jumped = self.jump_if(src, taken);
                        Ok(())
                    },
                    Instruction::Hcf => Err(Fault::Hcf),
                };
                if r.is_ok() && self.mode == Mode::Run && !jumped {
                    self.increment_instruction_pointer();
                }
                r
            },
        }
    }
}

} // verus!
