use brainfuck::Interpreter;

// prepares the interpreter with a test program and
// returns the interpreter with an already executed program
fn prepare_executed_program(program_code: &str) -> Interpreter {
    let mut interpreter = Interpreter::new(64);
    interpreter.load_program(program_code);
    interpreter.run();

    interpreter
}

#[test]
fn addition() {
    let result = prepare_executed_program("++++++++").memory()[0];
    assert_eq!(result, 8);
}

#[test]
fn subtraction() {
    let result = prepare_executed_program("--------").memory()[0];
    assert_eq!(result, 0xf8);
}

#[test]
fn move_left() {
    let result = prepare_executed_program(">>>>").memory_pointer();
    assert_eq!(result, 4);
}

#[test]
fn move_right() {
    let result = prepare_executed_program(">>>><<").memory_pointer();
    assert_eq!(result, 2);
}

#[test]
fn looping() {
    let result = prepare_executed_program("+++[>+++++<-]").memory()[1];
    assert_eq!(result, 15);
}

#[test]
fn over_and_underflow() {
    let result = prepare_executed_program("+[+]-[-]").memory()[0];
    assert_eq!(result, 0);
}

// cell arithmetic wraps modulo 256: 300 increments end at 300 - 256
#[test]
fn increment_wraps_modulo_256() {
    let program = "+".repeat(300);
    let interpreter = prepare_executed_program(&program);
    assert_eq!(interpreter.memory()[0], 44);
}

// 256 decrements from zero wrap all the way back to zero
#[test]
fn decrement_wraps_modulo_256() {
    let program = "-".repeat(256);
    let interpreter = prepare_executed_program(&program);
    assert_eq!(interpreter.memory()[0], 0);
}

// the cursor wraps to the move count modulo the tape length
#[test]
fn cursor_wraps_modulo_tape_length() {
    let mut interpreter = Interpreter::new(3);
    interpreter.load_program(">>>>");
    interpreter.run();
    assert_eq!(interpreter.memory_pointer(), 1);
}

// moving left from cell 0 wraps the cursor to the last cell
#[test]
fn cursor_wraps_left_from_zero() {
    let interpreter = prepare_executed_program("<");
    assert_eq!(interpreter.memory_pointer(), 63);
}

// the multiplication loop leaves the counter cleared, the product in cell 1
// and the cursor back at 0
#[test]
fn looping_full_state() {
    let interpreter = prepare_executed_program("+++[>+++++<-]");
    assert_eq!(interpreter.memory()[0], 0);
    assert_eq!(interpreter.memory()[1], 15);
    assert_eq!(interpreter.memory_pointer(), 0);
}

// a halted machine answers false to step, again and again, without moving
#[test]
fn step_after_halt_is_idle() {
    let mut interpreter = prepare_executed_program("+++");
    let counter = interpreter.program_counter();
    assert!(!interpreter.step());
    assert!(!interpreter.step());
    assert_eq!(interpreter.program_counter(), counter);
    assert_eq!(interpreter.memory()[0], 3);
    assert_eq!(interpreter.memory_pointer(), 0);
}

// loading a second program resets the program counter but keeps the tape
#[test]
fn reload_preserves_tape() {
    let mut interpreter = Interpreter::new(64);
    interpreter.load_program("+++++");
    interpreter.run();
    interpreter.load_program(">>");
    assert_eq!(interpreter.program_counter(), 0);
    assert_eq!(interpreter.memory()[0], 5);
    interpreter.run();
    assert_eq!(interpreter.memory()[0], 5);
    assert_eq!(interpreter.memory_pointer(), 2);
}

// an unmatched open bracket over a zero cell skips nothing and the program
// halts normally at its end
#[test]
fn unmatched_open_bracket_halts() {
    let mut interpreter = Interpreter::new(8);
    interpreter.load_program("[++");
    interpreter.run();
    assert_eq!(interpreter.program_counter(), 3);
    assert_eq!(interpreter.memory()[0], 2);
}

// an unmatched close bracket never touches a loop stack that is empty
#[test]
fn unmatched_close_bracket_halts() {
    let mut interpreter = Interpreter::new(8);
    interpreter.load_program("]+]+");
    interpreter.run();
    assert_eq!(interpreter.program_counter(), 4);
    assert_eq!(interpreter.memory()[0], 2);
}

// console print records one byte per dot, in program order
#[test]
fn console_print_records_output() {
    let interpreter = prepare_executed_program("+.+.+.");
    assert_eq!(interpreter.output(), &vec![1u8, 2, 3]);
}

// console input is a declared unsupported operation and leaves the machine
// unchanged instead of crashing it
#[test]
fn console_read_is_noop() {
    let interpreter = prepare_executed_program(",+,");
    assert_eq!(interpreter.memory()[0], 1);
    assert_eq!(interpreter.program_counter(), 3);
}

// unrecognized characters are skipped
#[test]
fn unknown_characters_are_skipped() {
    let interpreter = prepare_executed_program("a +b! +?");
    assert_eq!(interpreter.memory()[0], 2);
}

// a nested loop: the outer loop runs the inner clearing loop each pass
#[test]
fn nested_loops() {
    let interpreter = prepare_executed_program("++[>++[-]<-]");
    assert_eq!(interpreter.memory()[0], 0);
    assert_eq!(interpreter.memory()[1], 0);
    assert_eq!(interpreter.memory_pointer(), 0);
}

// the classic greeting program, run through the whole engine
#[test]
fn hello_world_output() {
    let mut interpreter = Interpreter::new(256);
    interpreter.load_program(
        "++++++++[>++++[>++>+++>+++>+<<<<-]>+>+>->>+[<]<-]>>.>---.+++++++..+++.>>.<-.<.+++.------.--------.>>+.>++.",
    );
    interpreter.run();
    let text: Vec<u8> = interpreter.output().clone();
    assert_eq!(text, b"Hello World!\n".to_vec());
}

// an empty program halts at once, leaving the fresh machine untouched
#[test]
fn empty_program() {
    let mut interpreter = Interpreter::new(4);
    interpreter.load_program("");
    interpreter.run();
    assert_eq!(interpreter.program_counter(), 0);
    assert_eq!(interpreter.memory_pointer(), 0);
    assert_eq!(interpreter.memory(), &vec![0u8; 4]);
    assert!(!interpreter.step());
}

// the smallest tape: every move wraps onto the same single cell
#[test]
fn single_cell_tape() {
    let mut interpreter = Interpreter::new(1);
    interpreter.load_program(">+<+>+");
    interpreter.run();
    assert_eq!(interpreter.memory_pointer(), 0);
    assert_eq!(interpreter.memory()[0], 3);
}
