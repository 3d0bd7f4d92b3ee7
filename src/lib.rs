mod errors;
mod interpreter;
mod machine;
mod repl;
mod resolver;

pub use errors::InterpreterError;
pub use interpreter::BrainfuckInterpreter;
pub use repl::{command_of, CommandResult, ReplSession};
pub use machine::{
    lemma_cell_wraps, lemma_increment_then_decrement, lemma_load_wf, lemma_pointer_wraps,
    lemma_rerun_after_reset, lemma_run_wf, lemma_step_wf, load_result, next_index, prev_index,
    without_output, wrapping_dec, wrapping_inc, zero_tape, Machine, STEP_LIMIT, TAPE_LEN,
};
pub use resolver::{
    balanced, closing_count, depth, lemma_balanced_resolves, lemma_dangling_open,
    lemma_resolved_table, lemma_unmatched_close, map_loops, matched, resolve, scan,
};
