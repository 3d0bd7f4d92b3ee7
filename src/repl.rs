use crate::errors::InterpreterError;
use crate::interpreter::BrainfuckInterpreter;
use crate::machine::{load_result, Machine};
use vstd::prelude::*;

verus! {

/// What the session did with one line, and what is left for the caller to do.
#[derive(Debug, Clone, Copy, PartialEq, Eq, Structural)]
pub enum CommandResult {
    /// `.exit`: the session is over.
    Exit,
    /// `.reset`: the interpreter was reset.
    Reset,
    /// `.help`: the caller shows the list of commands.
    Help,
    /// A program was loaded; the caller steps it to its end.
    Loaded,
    /// A program was refused for a bracket without a partner.
    Failed(InterpreterError),
}

/// What a line asks of the session.
pub open spec fn command_of(m: Machine, line: Seq<char>) -> (Machine, CommandResult) {
    if line == ".exit"@ {
        (m, CommandResult::Exit)
    } else if line == ".reset"@ {
        (m.reset(), CommandResult::Reset)
    } else if line == ".help"@ {
        (m, CommandResult::Help)
    } else {
        (
            m.load(line),
            match load_result(line) {
                Ok(_) => CommandResult::Loaded,
                Err(e) => CommandResult::Failed(e),
            },
        )
    }
}

/// Whether two strings hold the same characters.
fn same_text(a: &str, b: &str) -> (r: bool)
    ensures
        r == (a@ == b@),
{
    let n = a.unicode_len();
    if n != b.unicode_len() {
        return false;
    }
    let mut i: usize = 0;
    while i < n
        invariant
            n == a@.len(),
            n == b@.len(),
            i <= n,
            a@.subrange(0, i as int) == b@.subrange(0, i as int),
        decreases n - i,
    {
        if a.get_char(i) != b.get_char(i) {
            assert(a@[i as int] != b@[i as int]);
            return false;
        }
        assert(a@.subrange(0, i + 1) =~= a@.subrange(0, i as int).push(a@[i as int]));
        assert(b@.subrange(0, i + 1) =~= b@.subrange(0, i as int).push(b@[i as int]));
        i = i + 1;
    }
    assert(a@ =~= a@.subrange(0, n as int));
    assert(b@ =~= b@.subrange(0, n as int));
    true
}

/// An interactive session: one interpreter whose tape persists from line to line.
pub struct ReplSession {
    interpreter: BrainfuckInterpreter,
}

impl View for ReplSession {
    type V = Machine;

    closed spec fn view(&self) -> Machine {
        self.interpreter@
    }
}

impl ReplSession {
    /// The session's interpreter is well formed.
    pub closed spec fn wf(&self) -> bool {
        self.interpreter.wf()
    }

    /// A session over a fresh interpreter.
    pub fn new() -> (r: ReplSession)
        ensures
            r.wf(),
            r@ == Machine::initial(),
    {
        ReplSession { interpreter: BrainfuckInterpreter::new() }
    }

    /// Acts on one line: `.exit`, `.reset` and `.help` are commands; any other line is
    /// a program, loaded against the session's tape.
    pub fn process_command(&mut self, cmd: &str) -> (r: CommandResult)
        requires
            old(self).wf(),
        ensures
            final(self).wf(),
            (final(self)@, r) == command_of(old(self)@, cmd@),
    {
        if same_text(cmd, ".exit") {
            return CommandResult::Exit;
        }
        if same_text(cmd, ".reset") {
            self.interpreter.reset();
            return CommandResult::Reset;
        }
        if same_text(cmd, ".help") {
            return CommandResult::Help;
        }
        let line = cmd.to_owned();
        match self.interpreter.load(&line) {
            Ok(()) => CommandResult::Loaded,
            Err(e) => CommandResult::Failed(e),
        }
    }

    /// The session's interpreter, for stepping a loaded program.
    pub fn interpreter(&mut self) -> (r: &mut BrainfuckInterpreter)
        ensures
            (*r)@ == old(self)@,
            old(self).wf() ==> r.wf(),
            final(self)@ == (*final(r))@,
            final(r).wf() ==> final(self).wf(),
    {
        &mut self.interpreter
    }
}

} // verus!
