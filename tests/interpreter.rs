use brainfuck::{BrainfuckInterpreter, InterpreterError};

#[test]
fn should_return_error_when_not_closing_loop() {
    let mut i = BrainfuckInterpreter::new();
    let r = i.execute(&String::from("["));
    assert!(matches!(r, Err(InterpreterError::NoMatchingCloseLoop(0))));
}

#[test]
fn should_return_error_when_not_opening_loop() {
    let mut i = BrainfuckInterpreter::new();
    let r = i.execute(&String::from("]"));
    assert!(matches!(r, Err(InterpreterError::NoMatchingOpenLoop(0))));
}

#[test]
fn should_execute() {
    let mut i = BrainfuckInterpreter::new();
    let r = i.execute(&String::from(">++[<++>-]"));
    assert!(matches!(r, Ok(())));
}

#[test]
fn should_increment_byte_index() {
    let mut i = BrainfuckInterpreter::new();
    i.execute(&String::from(">")).unwrap();
    assert_eq!(i.memory_index(), 1);
}

#[test]
fn should_wrap_while_incrementing_byte_index() {
    let mut i = BrainfuckInterpreter::new();
    let last = i.memory_len() - 1;
    i.set_memory_index(last);
    i.execute(&String::from(">")).unwrap();
    assert_eq!(i.memory_index(), 0);
}

#[test]
fn should_decrement_byte_index() {
    let mut i = BrainfuckInterpreter::new();
    i.set_memory_index(3);
    i.execute(&String::from("<")).unwrap();
    assert_eq!(i.memory_index(), 2);
}

#[test]
fn should_wrap_while_decrementing_byte_index() {
    let mut i = BrainfuckInterpreter::new();
    i.execute(&String::from("<")).unwrap();
    assert_eq!(i.memory_index(), i.memory_len() - 1);
}

#[test]
fn should_increment_byte() {
    let mut i = BrainfuckInterpreter::new();
    i.execute(&String::from("+")).unwrap();
    assert_eq!(i.memory_cell(0), 1);
}

#[test]
fn should_decrement_byte() {
    let mut i = BrainfuckInterpreter::new();
    i.set_memory_cell(0, 1);
    i.execute(&String::from("-")).unwrap();
    assert_eq!(i.memory_cell(0), 0);
}

#[test]
fn should_run_loop() {
    let mut i = BrainfuckInterpreter::new();
    i.execute(&String::from(">++[<+>-]")).unwrap();
    assert_eq!(i.memory_cell(0), 2);
}

#[test]
fn should_wrap_while_incrementing_byte_value() {
    let mut i = BrainfuckInterpreter::new();
    i.execute(&String::from("-")).unwrap();
    assert_eq!(i.memory_cell(0), u8::MAX);
}

#[test]
fn should_wrap_while_decrementing_byte_value() {
    let mut i = BrainfuckInterpreter::new();
    i.set_memory_cell(0, u8::MAX);
    i.execute(&String::from("+")).unwrap();
    assert_eq!(i.memory_cell(0), u8::MIN);
}
