use crate::errors::InterpreterError;
use crate::resolver::{lemma_resolved_table, resolve, scan};
use vstd::prelude::*;

verus! {

/// Number of cells on the tape.
pub const TAPE_LEN: usize = 30000;

/// Most instructions that one call of `execute` carries out.
pub const STEP_LIMIT: u64 = 0xffff_ffff_ffff_ffff;

/// The abstract state of an interpreter.
pub struct Machine {
    /// The cells.
    pub tape: Seq<u8>,
    /// The index of the current cell.
    pub pointer: int,
    /// The index of the next instruction.
    pub pc: int,
    /// The loaded source, one instruction per character.
    pub program: Seq<char>,
    /// For each `]` of the program, the position of its `[`.
    pub jumps: Map<usize, usize>,
    /// Input bytes that have arrived and not yet been read.
    pub input: Seq<u8>,
    /// Output bytes written and not yet taken.
    pub output: Seq<u8>,
}

/// The pointer after `>`: one to the right, from the last cell back to the first.
pub open spec fn next_index(p: int) -> int {
    if p + 1 == TAPE_LEN {
        0
    } else {
        p + 1
    }
}

/// The pointer after `<`: one to the left, from the first cell round to the last.
pub open spec fn prev_index(p: int) -> int {
    if p == 0 {
        TAPE_LEN - 1
    } else {
        p - 1
    }
}

/// A cell after `+`: 255 wraps to 0.
pub open spec fn wrapping_inc(v: u8) -> u8 {
    if v == 255 {
        0
    } else {
        (v + 1) as u8
    }
}

/// A cell after `-`: 0 wraps to 255.
pub open spec fn wrapping_dec(v: u8) -> u8 {
    if v == 0 {
        255
    } else {
        (v - 1) as u8
    }
}

/// A tape of zeros.
pub open spec fn zero_tape() -> Seq<u8> {
    Seq::new(TAPE_LEN as nat, |i: int| 0u8)
}

/// What a load reports: failure exactly when the brackets do not resolve.
pub open spec fn load_result(code: Seq<char>) -> Result<(), InterpreterError> {
    match resolve(code) {
        Ok(_) => Ok(()),
        Err(e) => Err(e),
    }
}

impl Machine {
    /// A fresh interpreter: zero tape, pointer and counter at 0, nothing loaded.
    pub open spec fn initial() -> Machine {
        Machine {
            tape: zero_tape(),
            pointer: 0,
            pc: 0,
            program: Seq::empty(),
            jumps: Map::empty(),
            input: Seq::empty(),
            output: Seq::empty(),
        }
    }

    /// A full tape, a pointer on it, a counter within the program, and a jump target
    /// inside the program for every `]`.
    pub open spec fn wf(self) -> bool {
        &&& self.tape.len() == TAPE_LEN
        &&& 0 <= self.pointer < TAPE_LEN
        &&& 0 <= self.pc <= self.program.len()
        &&& self.program.len() <= usize::MAX
        &&& forall|j: int|
            0 <= j < self.program.len() && #[trigger] self.program[j] == ']' ==> {
                &&& self.jumps.contains_key(j as usize)
                &&& self.jumps[j as usize] < self.program.len()
            }
    }

    /// The current cell.
    pub open spec fn cell(self) -> u8 {
        self.tape[self.pointer]
    }

    /// The program has run to its end.
    pub open spec fn halted(self) -> bool {
        self.pc >= self.program.len()
    }

    /// The current cell set to `v`.
    pub open spec fn with_cell(self, v: u8) -> Machine {
        Machine { tape: self.tape.update(self.pointer, v), ..self }
    }

    /// The effect of the instruction at `pc`, before the counter moves on.
    pub open spec fn operate(self) -> Machine {
        let ch = self.program[self.pc];
        if ch == '>' {
            Machine { pointer: next_index(self.pointer), ..self }
        } else if ch == '<' {
            Machine { pointer: prev_index(self.pointer), ..self }
        } else if ch == '+' {
            self.with_cell(wrapping_inc(self.cell()))
        } else if ch == '-' {
            self.with_cell(wrapping_dec(self.cell()))
        } else if ch == ']' {
            if self.cell() != 0 {
                Machine { pc: self.jumps[self.pc as usize] as int, ..self }
            } else {
                self
            }
        } else if ch == '.' {
            Machine { output: self.output.push(self.cell()), ..self }
        } else if ch == ',' {
            if self.input.len() > 0 {
                Machine { input: self.input.drop_first(), ..self.with_cell(self.input[0]) }
            } else {
                self.with_cell(0)
            }
        } else {
            self
        }
    }

    /// One instruction: its effect, then the counter moves on by one.
    pub open spec fn step(self) -> Machine {
        Machine { pc: self.operate().pc + 1, ..self.operate() }
    }

    /// At most `fuel` instructions, stopping early at the end of the program.
    pub open spec fn run(self, fuel: nat) -> Machine
        decreases fuel,
    {
        if fuel == 0 || self.halted() {
            self
        } else {
            self.step().run((fuel - 1) as nat)
        }
    }

    /// The full reset: zero tape, pointer and counter at 0, nothing loaded; the input
    /// and output streams are left as they are.
    pub open spec fn reset(self) -> Machine {
        Machine {
            tape: zero_tape(),
            pointer: 0,
            pc: 0,
            program: Seq::empty(),
            jumps: Map::empty(),
            ..self
        }
    }

    /// Loading a source: the counter goes back to 0 and the jump table is rebuilt; the
    /// tape and the pointer stay. A source whose brackets do not resolve leaves nothing
    /// loaded.
    pub open spec fn load(self, code: Seq<char>) -> Machine {
        match resolve(code) {
            Ok(table) => Machine { pc: 0, program: code, jumps: table, ..self },
            Err(_) => Machine { pc: 0, program: Seq::empty(), jumps: Map::empty(), ..self },
        }
    }

    /// Loading a source and running it to its end, within the step limit.
    pub open spec fn execute(self, code: Seq<char>) -> Machine {
        self.load(code).run(STEP_LIMIT as nat)
    }
}

/// One instruction keeps the state well formed.
pub proof fn lemma_step_wf(m: Machine)
    requires
        m.wf(),
        !m.halted(),
    ensures
        m.step().wf(),
{
}

/// Every state that running reaches is well formed.
pub proof fn lemma_run_wf(m: Machine, fuel: nat)
    requires
        m.wf(),
    ensures
        m.run(fuel).wf(),
    decreases fuel,
{
    if fuel > 0 && !m.halted() {
        lemma_step_wf(m);
        lemma_run_wf(m.step(), (fuel - 1) as nat);
    }
}

/// Loading any source, resolved or not, keeps the state well formed.
pub proof fn lemma_load_wf(m: Machine, code: Seq<char>)
    requires
        m.wf(),
        code.len() <= usize::MAX,
    ensures
        m.load(code).wf(),
{
    if resolve(code) is Ok {
        lemma_resolved_table(code);
    }
}

/// The machine with its output stream emptied.
pub open spec fn without_output(m: Machine) -> Machine {
    Machine { output: Seq::empty(), ..m }
}

/// Pointer motion is circular: `<` on the first cell moves to the last one, and `>` on
/// the last cell moves to the first one.
pub proof fn lemma_pointer_wraps(m: Machine)
    requires
        m.wf(),
        !m.halted(),
    ensures
        m.program[m.pc] == '<' && m.pointer == 0 ==> m.step().pointer == TAPE_LEN - 1,
        m.program[m.pc] == '>' && m.pointer == TAPE_LEN - 1 ==> m.step().pointer == 0,
{
}

/// Cell arithmetic wraps: `+` on 255 gives 0, and `-` on 0 gives 255.
pub proof fn lemma_cell_wraps(m: Machine)
    requires
        m.wf(),
        !m.halted(),
    ensures
        m.program[m.pc] == '+' && m.cell() == 255 ==> m.step().cell() == 0,
        m.program[m.pc] == '-' && m.cell() == 0 ==> m.step().cell() == 255,
{
}

/// Running `+` and then `-` on the same interpreter gives back the tape and the pointer
/// it started with.
pub proof fn lemma_increment_then_decrement(m: Machine)
    requires
        m.wf(),
    ensures
        m.execute(seq!['+']).execute(seq!['-']).tape == m.tape,
        m.execute(seq!['+']).execute(seq!['-']).pointer == m.pointer,
{
    let plus = seq!['+'];
    let minus = seq!['-'];
    assert(scan(plus, 0) == Ok::<_, InterpreterError>((Seq::<usize>::empty(), Map::<usize, usize>::empty())));
    assert(scan(plus, 1) == scan(plus, 0));
    assert(scan(minus, 1) == scan(minus, 0));
    let a = m.load(plus);
    assert(a.step().halted());
    assert(a.run(STEP_LIMIT as nat) == a.step().run((STEP_LIMIT - 1) as nat));
    let b = m.execute(plus).load(minus);
    assert(b.step().halted());
    assert(b.run(STEP_LIMIT as nat) == b.step().run((STEP_LIMIT - 1) as nat));
    assert(m.execute(plus).execute(minus).tape =~= m.tape);
}

/// One instruction appends to the output stream and does nothing else with it.
proof fn lemma_step_output(m: Machine)
    requires
        !m.halted(),
    ensures
        m.step().output == m.output + without_output(m).step().output,
        without_output(m.step()) == without_output(without_output(m).step()),
{
    assert(m.step().output =~= m.output + without_output(m).step().output);
}

/// Running appends to the output stream and is otherwise blind to what it held.
proof fn lemma_run_output(m: Machine, fuel: nat)
    ensures
        m.run(fuel).output == m.output + without_output(m).run(fuel).output,
        without_output(m.run(fuel)) == without_output(without_output(m).run(fuel)),
    decreases fuel,
{
    let w = without_output(m);
    if fuel == 0 || m.halted() {
        assert(m.output =~= m.output + w.output);
    } else {
        let f = (fuel - 1) as nat;
        lemma_step_output(m);
        lemma_run_output(m.step(), f);
        lemma_run_output(w.step(), f);
        assert(m.run(fuel).output =~= m.output + w.run(fuel).output);
    }
}

/// Running a source on a freshly reset interpreter writes the same bytes and leaves the
/// same state, whatever the interpreter held before, as long as the input that waits is
/// the same.
pub proof fn lemma_rerun_after_reset(m1: Machine, m2: Machine, code: Seq<char>)
    requires
        m1.input == m2.input,
    ensures
        without_output(m1.reset().execute(code)) == without_output(m2.reset().execute(code)),
        m1.reset().execute(code).output.subrange(0, m1.output.len() as int) == m1.output,
        m1.reset().execute(code).output.skip(m1.output.len() as int) == m2.reset().execute(
            code,
        ).output.skip(m2.output.len() as int),
{
    let a = m1.reset().load(code);
    let b = m2.reset().load(code);
    assert(without_output(a) == without_output(b));
    lemma_run_output(a, STEP_LIMIT as nat);
    lemma_run_output(b, STEP_LIMIT as nat);
    let ra = a.run(STEP_LIMIT as nat);
    let rb = b.run(STEP_LIMIT as nat);
    let out = without_output(a).run(STEP_LIMIT as nat).output;
    assert(ra.output.subrange(0, m1.output.len() as int) =~= m1.output);
    assert(ra.output.skip(m1.output.len() as int) =~= out);
    assert(rb.output.skip(m2.output.len() as int) =~= out);
}

} // verus!
