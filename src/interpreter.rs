use crate::errors::InterpreterError;
use crate::machine::{
    lemma_load_wf, lemma_step_wf, load_result, next_index, prev_index,
    wrapping_dec, wrapping_inc, zero_tape, Machine, STEP_LIMIT, TAPE_LEN,
};
use crate::resolver::map_loops;
use std::collections::HashMap;
use std::collections::VecDeque;
use vstd::prelude::*;

verus! {

/// An interpreter over a circular tape of byte cells. The tape and the pointer persist
/// from one program to the next until `reset`.
pub struct BrainfuckInterpreter {
    memory: Vec<u8>,
    memory_index: usize,
    loops: HashMap<usize, usize>,
    pc: usize,
    program: Vec<char>,
    input: VecDeque<u8>,
    output: Vec<u8>,
}

impl View for BrainfuckInterpreter {
    type V = Machine;

    closed spec fn view(&self) -> Machine {
        Machine {
            tape: self.memory@,
            pointer: self.memory_index as int,
            pc: self.pc as int,
            program: self.program@,
            jumps: self.loops@,
            input: self.input@,
            output: self.output@,
        }
    }
}

/// A tape of zero cells.
fn zeroed_memory() -> (r: Vec<u8>)
    ensures
        r@ == zero_tape(),
{
    let mut memory: Vec<u8> = Vec::new();
    while memory.len() < TAPE_LEN
        invariant
            memory.len() <= TAPE_LEN,
            forall|i: int| 0 <= i < memory.len() ==> memory@[i] == 0u8,
        decreases TAPE_LEN - memory.len(),
    {
        memory.push(0u8);
    }
    assert(memory@ =~= zero_tape());
    memory
}

/// The characters of `code`, in order.
fn chars_of(code: &String) -> (r: Vec<char>)
    ensures
        r@ == code@,
{
    let text = code.as_str();
    let n = text.unicode_len();
    let mut operands: Vec<char> = Vec::new();
    let mut i: usize = 0;
    while i < n
        invariant
            n == text@.len(),
            text@ == code@,
            i <= n,
            operands@ == text@.subrange(0, i as int),
        decreases n - i,
    {
        operands.push(text.get_char(i));
        i = i + 1;
        assert(operands@ =~= text@.subrange(0, i as int));
    }
    assert(operands@ =~= text@);
    operands
}

impl BrainfuckInterpreter {
    /// The interpreter's state is well formed (see `Machine::wf`).
    pub closed spec fn wf(&self) -> bool {
        self@.wf()
    }

    /// A fresh interpreter: every cell zero, the pointer on the first cell.
    pub fn new() -> (r: BrainfuckInterpreter)
        ensures
            r.wf(),
            r@ == Machine::initial(),
    {
        BrainfuckInterpreter {
            memory: zeroed_memory(),
            memory_index: 0,
            loops: HashMap::new(),
            pc: 0,
            program: Vec::new(),
            input: VecDeque::new(),
            output: Vec::new(),
        }
    }

    /// Resolves the brackets of `code` and runs it to its end against the current tape.
    /// Fails, with nothing run, exactly when a bracket has no partner.
    pub fn execute(&mut self, code: &String) -> (r: Result<(), InterpreterError>)
        requires
            old(self).wf(),
        ensures
            final(self).wf(),
            r == load_result(code@),
            final(self)@ == old(self)@.execute(code@),
    {
        let loaded = self.load(code);
        self.run_code(STEP_LIMIT);
        loaded
    }

    /// Every cell back to zero, the pointer to the first cell, nothing loaded.
    pub fn reset(&mut self)
        requires
            old(self).wf(),
        ensures
            final(self).wf(),
            final(self)@ == old(self)@.reset(),
    {
        self.memory = zeroed_memory();
        self.memory_index = 0;
        self.loops = HashMap::new();
        self.pc = 0;
        self.program = Vec::new();
    }

    fn execution_reset(&mut self)
        requires
            old(self).wf(),
        ensures
            final(self).wf(),
            final(self)@ == (Machine {
                pc: 0,
                program: Seq::empty(),
                jumps: Map::empty(),
                ..old(self)@
            }),
    {
        self.pc = 0;
        self.loops = HashMap::new();
        self.program = Vec::new();
    }

    /// Loads `code` for stepping: the counter goes back to the start and the jump table
    /// is rebuilt; the tape and the pointer stay. On a bracket without a partner nothing
    /// is loaded.
    pub fn load(&mut self, code: &String) -> (r: Result<(), InterpreterError>)
        requires
            old(self).wf(),
        ensures
            final(self).wf(),
            r == load_result(code@),
            final(self)@ == old(self)@.load(code@),
    {
        self.execution_reset();
        let operands = chars_of(code);
        proof {
            assert(code@.len() == operands.len());
            lemma_load_wf(old(self)@, code@);
        }
        match map_loops(&operands) {
            Ok(loops) => {
                self.loops = loops;
                self.program = operands;
                Ok(())
            },
            Err(e) => Err(e),
        }
    }

    fn run_code(&mut self, fuel: u64)
        requires
            old(self).wf(),
        ensures
            final(self).wf(),
            final(self)@ == old(self)@.run(fuel as nat),
    {
        let ghost target = self@.run(fuel as nat);
        let mut left: u64 = fuel;
        while self.pc < self.program.len() && left > 0
            invariant
                self.wf(),
                self@.run(left as nat) == target,
            decreases left,
        {
            self.step();
            left = left - 1;
        }
    }

    /// Whether the loaded program has run to its end.
    pub fn is_finished(&self) -> (r: bool)
        requires
            self.wf(),
        ensures
            r == self@.halted(),
    {
        self.pc >= self.program.len()
    }

    /// Whether the next instruction reads input and none has arrived; a step taken then
    /// reads end of input.
    pub fn needs_input(&self) -> (r: bool)
        requires
            self.wf(),
        ensures
            r == (!self@.halted() && self@.program[self@.pc] == ',' && self@.input.len() == 0),
    {
        self.pc < self.program.len() && self.program[self.pc] == ',' && self.input.len() == 0
    }

    /// Carries out the next instruction of the loaded program.
    pub fn step(&mut self)
        requires
            old(self).wf(),
            !old(self)@.halted(),
        ensures
            final(self).wf(),
            final(self)@ == old(self)@.step(),
    {
        proof {
            lemma_step_wf(self@);
        }
        let ch = self.program[self.pc];
        self.process_operand(ch);
        self.pc = self.pc + 1;
    }

    fn process_operand(&mut self, ch: char)
        requires
            old(self).wf(),
            !old(self)@.halted(),
            ch == old(self)@.program[old(self)@.pc],
        ensures
            final(self)@ == old(self)@.operate(),
            final(self).pc < final(self).program.len(),
    {
        if ch == '>' {
            self.next_byte();
        } else if ch == '<' {
            self.prev_byte();
        } else if ch == '+' {
            self.increment_byte();
        } else if ch == '-' {
            self.decrement_byte();
        } else if ch == ']' {
            self.resolve_loop();
        } else if ch == '.' {
            self.print();
        } else if ch == ',' {
            self.read();
        }
    }

    fn next_byte(&mut self)
        requires
            old(self).wf(),
        ensures
            final(self)@ == (Machine { pointer: next_index(old(self)@.pointer), ..old(self)@ }),
    {
        self.memory_index = self.memory_index + 1;
        if self.memory_index == self.memory.len() {
            self.memory_index = 0;
        }
    }

    fn prev_byte(&mut self)
        requires
            old(self).wf(),
        ensures
            final(self)@ == (Machine { pointer: prev_index(old(self)@.pointer), ..old(self)@ }),
    {
        if self.memory_index == 0 {
            self.memory_index = self.memory.len() - 1;
            return;
        }
        self.memory_index = self.memory_index - 1;
    }

    fn increment_byte(&mut self)
        requires
            old(self).wf(),
        ensures
            final(self)@ == old(self)@.with_cell(wrapping_inc(old(self)@.cell())),
    {
        let i = self.memory_index;
        if self.memory[i] == u8::MAX {
            self.memory.set(i, u8::MIN);
            return;
        }
        let v = self.memory[i] + 1;
        self.memory.set(i, v);
    }

    fn decrement_byte(&mut self)
        requires
            old(self).wf(),
        ensures
            final(self)@ == old(self)@.with_cell(wrapping_dec(old(self)@.cell())),
    {
        let i = self.memory_index;
        if self.memory[i] == u8::MIN {
            self.memory.set(i, u8::MAX);
            return;
        }
        let v = self.memory[i] - 1;
        self.memory.set(i, v);
    }

    fn resolve_loop(&mut self)
        requires
            old(self).wf(),
            !old(self)@.halted(),
            old(self)@.program[old(self)@.pc] == ']',
        ensures
            final(self)@ == (if old(self)@.cell() != 0 {
                Machine { pc: old(self)@.jumps[old(self)@.pc as usize] as int, ..old(self)@ }
            } else {
                old(self)@
            }),
    {
        if self.memory[self.memory_index] > 0 {
            match self.loops.get(&self.pc) {
                Some(start) => {
                    self.pc = *start;
                },
                None => {},
            }
        }
    }

    /// `.`: the current cell goes to the output stream.
    fn print(&mut self)
        requires
            old(self).wf(),
        ensures
            final(self)@ == (Machine { output: old(self)@.output.push(old(self)@.cell()), ..old(self)@ }),
    {
        let v = self.memory[self.memory_index];
        self.output.push(v);
    }

    /// `,`: the next input byte goes to the current cell, or zero at end of input.
    fn read(&mut self)
        requires
            old(self).wf(),
        ensures
            final(self)@ == (if old(self)@.input.len() > 0 {
                Machine { input: old(self)@.input.drop_first(), ..old(self)@.with_cell(old(self)@.input[0]) }
            } else {
                old(self)@.with_cell(0)
            }),
    {
        let i = self.memory_index;
        match self.input.pop_front() {
            Some(b) => {
                self.memory.set(i, b);
            },
            None => {
                self.memory.set(i, 0);
            },
        }
    }

    /// Hands one byte of input to the interpreter.
    pub fn push_input(&mut self, byte: u8)
        requires
            old(self).wf(),
        ensures
            final(self).wf(),
            final(self)@ == (Machine { input: old(self)@.input.push(byte), ..old(self)@ }),
    {
        self.input.push_back(byte);
    }

    /// Takes the bytes written so far, leaving the output stream empty.
    pub fn take_output(&mut self) -> (r: Vec<u8>)
        requires
            old(self).wf(),
        ensures
            final(self).wf(),
            r@ == old(self)@.output,
            final(self)@ == (Machine { output: Seq::empty(), ..old(self)@ }),
    {
        let mut out: Vec<u8> = Vec::new();
        std::mem::swap(&mut out, &mut self.output);
        out
    }

    /// The index of the current cell.
    pub fn memory_index(&self) -> (r: usize)
        ensures
            r == self@.pointer,
    {
        self.memory_index
    }

    /// Moves the pointer to `index`.
    pub fn set_memory_index(&mut self, index: usize)
        requires
            old(self).wf(),
            index < TAPE_LEN,
        ensures
            final(self).wf(),
            final(self)@ == (Machine { pointer: index as int, ..old(self)@ }),
    {
        self.memory_index = index;
    }

    /// The number of cells.
    pub fn memory_len(&self) -> (r: usize)
        requires
            self.wf(),
        ensures
            r == TAPE_LEN,
    {
        self.memory.len()
    }

    /// The cell at `index`.
    pub fn memory_cell(&self, index: usize) -> (r: u8)
        requires
            self.wf(),
            index < TAPE_LEN,
        ensures
            r == self@.tape[index as int],
    {
        self.memory[index]
    }

    /// Writes `value` into the cell at `index`.
    pub fn set_memory_cell(&mut self, index: usize, value: u8)
        requires
            old(self).wf(),
            index < TAPE_LEN,
        ensures
            final(self).wf(),
            final(self)@ == (Machine { tape: old(self)@.tape.update(index as int, value), ..old(self)@ }),
    {
        self.memory.set(index, value);
    }
}

} // verus!
