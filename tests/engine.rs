use brainfuck::{map_loops, BrainfuckInterpreter, CommandResult, InterpreterError, ReplSession, TAPE_LEN};

fn chars(s: &str) -> Vec<char> {
    s.chars().collect()
}

#[test]
fn tape_has_thirty_thousand_zero_cells() {
    let i = BrainfuckInterpreter::new();
    assert_eq!(i.memory_len(), 30000);
    assert_eq!(TAPE_LEN, 30000);
    assert_eq!(i.memory_cell(0), 0);
    assert_eq!(i.memory_cell(29999), 0);
    assert_eq!(i.memory_index(), 0);
}

#[test]
fn nested_brackets_map_each_close_to_its_open() {
    let table = map_loops(&chars("[[]]")).unwrap();
    assert_eq!(table.len(), 2);
    assert_eq!(table.get(&2), Some(&1));
    assert_eq!(table.get(&3), Some(&0));
}

#[test]
fn sibling_loops_and_comments_map_correctly() {
    let table = map_loops(&chars("a[b]c[d[e]f]")).unwrap();
    assert_eq!(table.len(), 3);
    assert_eq!(table.get(&3), Some(&1));
    assert_eq!(table.get(&9), Some(&7));
    assert_eq!(table.get(&11), Some(&5));
}

#[test]
fn source_without_brackets_has_empty_table() {
    assert_eq!(map_loops(&chars("+-<>.,")).unwrap().len(), 0);
    assert_eq!(map_loops(&chars("")).unwrap().len(), 0);
}

#[test]
fn first_stray_close_is_reported() {
    assert_eq!(map_loops(&chars("[]]]")), Err(InterpreterError::NoMatchingOpenLoop(2)));
    assert_eq!(map_loops(&chars("][")), Err(InterpreterError::NoMatchingOpenLoop(0)));
}

#[test]
fn innermost_dangling_open_is_reported() {
    assert_eq!(map_loops(&chars("[[]")), Err(InterpreterError::NoMatchingCloseLoop(0)));
    assert_eq!(map_loops(&chars("[][[")), Err(InterpreterError::NoMatchingCloseLoop(3)));
    assert_eq!(map_loops(&chars("[[+[]")), Err(InterpreterError::NoMatchingCloseLoop(1)));
}

#[test]
fn failed_resolution_runs_nothing() {
    let mut i = BrainfuckInterpreter::new();
    assert_eq!(i.execute(&String::from("+++>]")), Err(InterpreterError::NoMatchingOpenLoop(4)));
    assert_eq!(i.memory_cell(0), 0);
    assert_eq!(i.memory_index(), 0);
    assert_eq!(i.execute(&String::from("+")), Ok(()));
    assert_eq!(i.memory_cell(0), 1);
}

#[test]
fn doubling_loop_runs_twice() {
    let mut i = BrainfuckInterpreter::new();
    i.execute(&String::from(">++[<++>-]")).unwrap();
    assert_eq!(i.memory_cell(0), 4);
    assert_eq!(i.memory_cell(1), 0);
    assert_eq!(i.memory_index(), 1);
}

#[test]
fn loop_body_runs_once_on_zero_cell() {
    let mut i = BrainfuckInterpreter::new();
    i.execute(&String::from("[+>]")).unwrap();
    assert_eq!(i.memory_cell(0), 1);
    assert_eq!(i.memory_index(), 1);
}

#[test]
fn plus_then_minus_restores_cell() {
    let mut i = BrainfuckInterpreter::new();
    i.execute(&String::from("+")).unwrap();
    i.execute(&String::from("-")).unwrap();
    assert_eq!(i.memory_cell(0), 0);
    assert_eq!(i.memory_index(), 0);
}

#[test]
fn tape_persists_between_programs() {
    let mut i = BrainfuckInterpreter::new();
    i.execute(&String::from("+++>")).unwrap();
    i.execute(&String::from("++")).unwrap();
    assert_eq!(i.memory_cell(0), 3);
    assert_eq!(i.memory_cell(1), 2);
    assert_eq!(i.memory_index(), 1);
}

#[test]
fn reset_zeroes_tape_and_pointer() {
    let mut i = BrainfuckInterpreter::new();
    i.execute(&String::from("+++>++>-<<<")).unwrap();
    assert_eq!(i.memory_index(), TAPE_LEN - 1);
    i.reset();
    assert_eq!(i.memory_index(), 0);
    assert_eq!(i.memory_cell(0), 0);
    assert_eq!(i.memory_cell(1), 0);
    assert_eq!(i.memory_cell(2), 0);
    assert_eq!(i.memory_cell(TAPE_LEN - 1), 0);
}

#[test]
fn dot_writes_current_cell() {
    let mut i = BrainfuckInterpreter::new();
    i.execute(&String::from("++++++++[>++++++++<-]>+.+.")).unwrap();
    assert_eq!(i.take_output(), vec![65u8, 66u8]);
    assert_eq!(i.take_output(), Vec::<u8>::new());
}

#[test]
fn comma_reads_input_then_zero_at_end() {
    let mut i = BrainfuckInterpreter::new();
    i.push_input(7);
    i.execute(&String::from(",>+,")).unwrap();
    assert_eq!(i.memory_cell(0), 7);
    assert_eq!(i.memory_cell(1), 0);
}

#[test]
fn rerun_after_reset_writes_same_output() {
    let program = String::from("+++[>++++<-]>.<,.");
    let mut i = BrainfuckInterpreter::new();
    i.execute(&String::from("+++>>>-")).unwrap();
    i.reset();
    i.push_input(9);
    i.execute(&program).unwrap();
    let first = i.take_output();
    i.reset();
    i.push_input(9);
    i.execute(&program).unwrap();
    let second = i.take_output();
    assert_eq!(first, vec![12u8, 9u8]);
    assert_eq!(first, second);
}

#[test]
fn stepping_matches_execute() {
    let program = String::from(">++[<+++>-]<.");
    let mut stepped = BrainfuckInterpreter::new();
    stepped.load(&program).unwrap();
    let mut steps = 0u32;
    while !stepped.is_finished() {
        assert!(!stepped.needs_input());
        stepped.step();
        steps += 1;
    }
    let mut whole = BrainfuckInterpreter::new();
    whole.execute(&program).unwrap();
    assert_eq!(stepped.memory_cell(0), whole.memory_cell(0));
    assert_eq!(stepped.take_output(), whole.take_output());
    assert_eq!(steps, 20);
}

#[test]
fn needs_input_only_before_unanswered_comma() {
    let mut i = BrainfuckInterpreter::new();
    i.load(&String::from("+,")).unwrap();
    assert!(!i.needs_input());
    i.step();
    assert!(i.needs_input());
    i.push_input(5);
    assert!(!i.needs_input());
    i.step();
    assert!(i.is_finished());
    assert_eq!(i.memory_cell(0), 5);
}

#[test]
fn session_commands() {
    let mut s = ReplSession::new();
    assert_eq!(s.process_command("+++"), CommandResult::Loaded);
    while !s.interpreter().is_finished() {
        s.interpreter().step();
    }
    assert_eq!(s.interpreter().memory_cell(0), 3);
    assert_eq!(s.process_command(".help"), CommandResult::Help);
    assert_eq!(s.interpreter().memory_cell(0), 3);
    assert_eq!(s.process_command(".reset"), CommandResult::Reset);
    assert_eq!(s.interpreter().memory_cell(0), 0);
    assert_eq!(s.process_command("[["), CommandResult::Failed(InterpreterError::NoMatchingCloseLoop(1)));
    assert_eq!(s.process_command(".exit"), CommandResult::Exit);
    assert_eq!(s.process_command(".exits"), CommandResult::Loaded);
}
