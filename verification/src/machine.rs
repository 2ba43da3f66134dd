//! The machine: a tape of cells, a data pointer, an instruction pointer, and
//! what one instruction does to them.

use vstd::prelude::*;
use crate::error::InterpError;
use crate::token::Token;

verus! {

/// The number of cells on the tape.
pub const MEMORY_SIZE: usize = 30000;

/// A machine as a mathematical value.
pub struct State {
    /// The index of the instruction that is executed next.
    pub pc: nat,
    /// The index of the current cell.
    pub dataptr: nat,
    /// The tape.
    pub memory: Seq<u8>,
}

impl State {
    /// The state in which every run starts: both pointers at zero, every
    /// cell zero.
    pub open spec fn initial() -> State {
        State { pc: 0, dataptr: 0, memory: Seq::new(MEMORY_SIZE as nat, |i: int| 0u8) }
    }

    /// The tape has its full length and the data pointer is on it.
    pub open spec fn wf(self) -> bool {
        &&& self.memory.len() == MEMORY_SIZE
        &&& self.dataptr < MEMORY_SIZE
    }

    /// The value of the current cell.
    pub open spec fn cell(self) -> u8 {
        self.memory[self.dataptr as int]
    }
}

/// A table can be used with a program: it has one entry for each
/// instruction, and each entry is an index into the program.
pub open spec fn table_fits(program: Seq<Token>, table: Seq<usize>) -> bool {
    &&& table.len() == program.len()
    &&& forall|i: int| 0 <= i < table.len() ==> #[trigger] table[i] < program.len()
}

/// The instruction pointer has run past the end of the program.
pub open spec fn halted(program: Seq<Token>, state: State) -> bool {
    state.pc >= program.len()
}

/// The next instruction asks for input.
pub open spec fn awaits_input(program: Seq<Token>, state: State) -> bool {
    state.pc < program.len() && program[state.pc as int] == Token::Read
}

/// What the next instruction emits: the current cell, if the instruction is
/// an output instruction.
pub open spec fn emitted(program: Seq<Token>, state: State) -> Option<u8> {
    if state.pc < program.len() && program[state.pc as int] == Token::Put {
        Some(state.cell())
    } else {
        None
    }
}

/// A cell's value after one is added to it, 255 giving 0.
pub open spec fn cell_up(value: u8) -> u8 {
    ((value + 1) % 256) as u8
}

/// A cell's value after one is taken from it, 0 giving 255.
pub open spec fn cell_down(value: u8) -> u8 {
    ((value + 255) % 256) as u8
}

/// The data pointer one cell to the right, the last cell leading to the
/// first.
pub open spec fn pointer_right(dataptr: nat) -> nat {
    (dataptr + 1) % (MEMORY_SIZE as nat)
}

/// The data pointer one cell to the left, the first cell leading to the
/// last.
pub open spec fn pointer_left(dataptr: nat) -> nat {
    ((dataptr + MEMORY_SIZE - 1) % (MEMORY_SIZE as int)) as nat
}

/// The state after the next instruction. A halted machine and one that
/// awaits input stay as they are.
///
/// A bracket that jumps sets the instruction pointer to its table entry;
/// like every instruction it then advances by one, so that a jump lands
/// just behind the partner.
pub open spec fn next_state(program: Seq<Token>, table: Seq<usize>, state: State) -> State {
    if halted(program, state) {
        state
    } else {
        match program[state.pc as int] {
            Token::IncDP => State { pc: state.pc + 1, dataptr: pointer_right(state.dataptr), ..state },
            Token::DecDP => State { pc: state.pc + 1, dataptr: pointer_left(state.dataptr), ..state },
            Token::IncMemory => State {
                pc: state.pc + 1,
                memory: state.memory.update(state.dataptr as int, cell_up(state.cell())),
                ..state
            },
            Token::DecMemory => State {
                pc: state.pc + 1,
                memory: state.memory.update(state.dataptr as int, cell_down(state.cell())),
                ..state
            },
            Token::Put => State { pc: state.pc + 1, ..state },
            Token::Read => state,
            Token::While => if state.cell() == 0 {
                State { pc: (table[state.pc as int] + 1) as nat, ..state }
            } else {
                State { pc: state.pc + 1, ..state }
            },
            Token::EndWhile => if state.cell() != 0 {
                State { pc: (table[state.pc as int] + 1) as nat, ..state }
            } else {
                State { pc: state.pc + 1, ..state }
            },
        }
    }
}

/// A step keeps the tape's length, the data pointer on the tape and the
/// instruction pointer within one past the program's end.
pub proof fn lemma_next_state_wf(program: Seq<Token>, table: Seq<usize>, state: State)
    requires
        table_fits(program, table),
        state.wf(),
        state.pc <= program.len(),
    ensures
        next_state(program, table, state).wf(),
        next_state(program, table, state).pc <= program.len(),
{
}

/// Cells and the data pointer wrap around: one more than 255 is 0, one less
/// than 0 is 255, and left of the first cell is the last.
pub proof fn lemma_wraparound()
    ensures
        cell_up(255) == 0,
        cell_down(0) == 255,
        pointer_left(0) == MEMORY_SIZE - 1,
        pointer_right((MEMORY_SIZE - 1) as nat) == 0,
{
}

/// A running machine.
#[derive(Debug)]
pub struct Machine {
    pc: usize,
    dataptr: usize,
    memory: Vec<u8>,
}

impl View for Machine {
    type V = State;

    closed spec fn view(&self) -> State {
        State { pc: self.pc as nat, dataptr: self.dataptr as nat, memory: self.memory@ }
    }
}

impl Machine {
    /// Holds of every machine: the tape has its full length and the data
    /// pointer is on it.
    #[verifier::type_invariant]
    spec fn inv(self) -> bool {
        &&& self.memory@.len() == MEMORY_SIZE
        &&& self.dataptr < MEMORY_SIZE
    }

    /// A machine at the start of a run.
    pub fn new() -> (machine: Machine)
        ensures
            machine@ == State::initial(),
    {
        let mut memory: Vec<u8> = Vec::new();
        while memory.len() < MEMORY_SIZE
            invariant
                memory.len() <= MEMORY_SIZE,
                forall|i: int| 0 <= i < memory.len() ==> memory[i] == 0,
            decreases MEMORY_SIZE - memory.len(),
        {
            memory.push(0);
        }
        assert(memory@ =~= State::initial().memory);
        Machine { pc: 0, dataptr: 0, memory }
    }

    /// The index of the instruction that is executed next.
    pub fn pc(&self) -> (pc: usize)
        ensures
            pc == self@.pc,
    {
        self.pc
    }

    /// The index of the current cell.
    pub fn dataptr(&self) -> (dataptr: usize)
        ensures
            dataptr == self@.dataptr,
            dataptr < MEMORY_SIZE,
    {
        proof {
            use_type_invariant(self);
        }
        self.dataptr
    }

    /// The value of the current cell.
    pub fn cell(&self) -> (value: u8)
        ensures
            value == self@.cell(),
    {
        proof {
            use_type_invariant(self);
        }
        self.memory[self.dataptr]
    }

    /// The tape.
    pub fn memory(&self) -> (memory: &Vec<u8>)
        ensures
            memory@ == self@.memory,
            memory@.len() == MEMORY_SIZE,
    {
        proof {
            use_type_invariant(self);
        }
        &self.memory
    }

    /// Whether the instruction pointer has run past the end of the program.
    pub fn halted(&self, program: &Vec<Token>) -> (done: bool)
        ensures
            done == halted(program@, self@),
    {
        self.pc >= program.len()
    }

    /// Whether the next instruction asks for input.
    pub fn awaits_input(&self, program: &Vec<Token>) -> (waiting: bool)
        ensures
            waiting == awaits_input(program@, self@),
    {
        self.pc < program.len() && program[self.pc] == Token::Read
    }

    /// Executes the next instruction.
    ///
    /// Returns the byte that the instruction emitted, if it emitted one. An
    /// input instruction fails and leaves the machine as it was; so does a
    /// step of a halted machine, without failing.
    pub fn step(&mut self, program: &Vec<Token>, table: &Vec<usize>) -> (result: Result<
        Option<u8>,
        InterpError,
    >)
        requires
            table_fits(program@, table@),
        ensures
            final(self)@ == next_state(program@, table@, old(self)@),
            old(self)@.wf(),
            final(self)@.wf(),
            awaits_input(program@, old(self)@) ==> result == Err::<Option<u8>, InterpError>(
                InterpError::UnimplementedInput { index: old(self)@.pc as usize },
            ),
            !awaits_input(program@, old(self)@) ==> result == Ok::<Option<u8>, InterpError>(
                emitted(program@, old(self)@),
            ),
    {
        proof {
            use_type_invariant(&*self);
        }
        if self.pc >= program.len() {
            return Ok(None);
        }
        let mut out: Option<u8> = None;
        match program[self.pc] {
            Token::IncDP => {
                self.dataptr = (self.dataptr + 1) % MEMORY_SIZE;
            },
            Token::DecDP => {
                self.dataptr = (self.dataptr + MEMORY_SIZE - 1) % MEMORY_SIZE;
            },
            Token::IncMemory => {
                let value: u8 = self.memory[self.dataptr].wrapping_add(1);
                self.memory[self.dataptr] = value;
            },
            Token::DecMemory => {
                let value: u8 = self.memory[self.dataptr].wrapping_sub(1);
                self.memory[self.dataptr] = value;
            },
            Token::Put => {
                out = Some(self.memory[self.dataptr]);
            },
            Token::Read => {
                return Err(InterpError::UnimplementedInput { index: self.pc });
            },
            Token::While => {
                if self.memory[self.dataptr] == 0 {
                    self.pc = table[self.pc];
                }
            },
            Token::EndWhile => {
                if self.memory[self.dataptr] != 0 {
                    self.pc = table[self.pc];
                }
            },
        }
        self.pc += 1;
        Ok(out)
    }
}

} // verus!
