//! The executable engine: a fixed-size byte tape with a wrapping cursor, a
//! loaded program with its counter, a stack of open-loop positions, and an
//! output buffer. Every operation is proved to follow the model in `state`
//! step for step.

use vstd::pervasive::VecAdditionalExecFns;
use vstd::prelude::*;

use crate::state::{
    decode, find_match, halted, halts, halt_time, is_halt_time, lemma_halt_time_exists,
    lemma_halt_time_step, lemma_steps_succ, loaded, spec_close_loop, spec_decrement, spec_emit,
    spec_execute, spec_increment, spec_move_left, spec_move_right, spec_open_loop, spec_step,
    spec_steps, Operation, State,
};

verus! {

impl From<char> for Operation {
    /// The executable decoding of a source character.
    fn from(command: char) -> (op: Operation) {
        match command {
            '<' => Operation::MoveLeft,
            '>' => Operation::MoveRight,
            '+' => Operation::Increment,
            '-' => Operation::Decrement,
            '.' => Operation::ConsolePrint,
            ',' => Operation::ConsoleRead,
            '[' => Operation::OpenLoop,
            ']' => Operation::CloseLoop,
            _ => Operation::Skip,
        }
    }
}

impl vstd::std_specs::convert::FromSpecImpl<char> for Operation {
    open spec fn obeys_from_spec() -> bool {
        true
    }

    open spec fn from_spec(v: char) -> Operation {
        decode(v)
    }
}

/// The interpreter: one tape, one program, one loop-start stack, and the
/// output emitted so far. The output collects the characters that console
/// print produces, in program order, for the host to forward to its sink;
/// console input is a declared unsupported operation and leaves the machine
/// unchanged.
pub struct Interpreter {
    memory_pointer: usize,
    memory: Vec<u8>,
    program_counter: usize,
    program_code: Vec<char>,
    loops: Vec<usize>,
    output: Vec<u8>,
}

impl View for Interpreter {
    type V = State;

    closed spec fn view(&self) -> State {
        State {
            mem: self.memory@,
            ptr: self.memory_pointer,
            code: self.program_code@,
            pc: self.program_counter,
            loops: self.loops@,
            out: self.output@,
        }
    }
}

impl Interpreter {
    /// The interpreter is in a state the model admits.
    pub open spec fn wf(self) -> bool {
        crate::state::wf(self@)
    }

    /// Builds an interpreter with `memory_size` zeroed cells, both cursors at
    /// zero, no program, no open loops and no output. The tape length is
    /// fixed for the instance's lifetime.
    pub fn new(memory_size: usize) -> (interpreter: Interpreter)
        requires
            memory_size >= 1,
        ensures
            interpreter.wf(),
            interpreter@ == loaded(memory_size, Seq::<char>::empty()),
    {
        let interpreter = Interpreter {
            memory_pointer: 0,
            memory: vec![0u8; memory_size],
            program_counter: 0,
            program_code: Vec::new(),
            loops: Vec::new(),
            output: Vec::new(),
        };
        proof {
            assert(interpreter@.mem =~= loaded(memory_size, Seq::<char>::empty()).mem);
            assert(interpreter@ =~= loaded(memory_size, Seq::<char>::empty()));
        }
        interpreter
    }

    /// Replaces the program and resets the program counter to zero. The tape,
    /// its cursor, the loop-start stack and the output are deliberately kept:
    /// loading is a defined, re-enterable operation on a used machine.
    pub fn load_program(&mut self, program: &str)
        requires
            old(self).wf(),
        ensures
            final(self).wf(),
            final(self)@.code == program@,
            final(self)@.pc == 0,
            final(self)@.mem == old(self)@.mem,
            final(self)@.ptr == old(self)@.ptr,
            final(self)@.loops == old(self)@.loops,
            final(self)@.out == old(self)@.out,
    {
        let length = program.unicode_len();
        let mut code: Vec<char> = Vec::new();
        let mut i: usize = 0;
        while i < length
            invariant
                i <= length,
                length == program@.len(),
                code@ == program@.subrange(0, i as int),
            decreases length - i,
        {
            code.push(program.get_char(i));
            proof {
                assert(code@ =~= program@.subrange(0, i + 1));
            }
            i = i + 1;
        }
        proof {
            assert(code@ =~= program@);
        }
        self.program_code = code;
        self.program_counter = 0;
    }

    /// Moves the tape cursor one cell to the left, wrapping from cell 0 to
    /// the last cell.
    fn move_left(&mut self)
        requires
            old(self).wf(),
        ensures
            final(self).wf(),
            final(self)@ == spec_move_left(old(self)@),
    {
        if self.memory_pointer > 0 {
            self.memory_pointer = self.memory_pointer - 1;
        } else {
            self.memory_pointer = self.memory.len() - 1;
        }
    }

    /// Moves the tape cursor one cell to the right, wrapping from the last
    /// cell to cell 0.
    fn move_right(&mut self)
        requires
            old(self).wf(),
        ensures
            final(self).wf(),
            final(self)@ == spec_move_right(old(self)@),
    {
        if self.memory_pointer < self.memory.len() - 1 {
            self.memory_pointer = self.memory_pointer + 1;
        } else {
            self.memory_pointer = 0;
        }
    }

    /// Increments the current cell, wrapping modulo 256.
    fn increment(&mut self)
        requires
            old(self).wf(),
        ensures
            final(self).wf(),
            final(self)@ == spec_increment(old(self)@),
    {
        let value = self.memory[self.memory_pointer];
        self.memory.set(self.memory_pointer, value.wrapping_add(1));
        proof {
            assert(self@ =~= spec_increment(old(self)@));
        }
    }

    /// Decrements the current cell, wrapping modulo 256.
    fn decrement(&mut self)
        requires
            old(self).wf(),
        ensures
            final(self).wf(),
            final(self)@ == spec_decrement(old(self)@),
    {
        let value = self.memory[self.memory_pointer];
        self.memory.set(self.memory_pointer, value.wrapping_sub(1));
        proof {
            assert(self@ =~= spec_decrement(old(self)@));
        }
    }

    /// Records the current cell in the output, for the host to emit.
    fn emit(&mut self)
        requires
            old(self).wf(),
        ensures
            final(self).wf(),
            final(self)@ == spec_emit(old(self)@),
    {
        let value = self.memory[self.memory_pointer];
        self.output.push(value);
        proof {
            assert(self@ =~= spec_emit(old(self)@));
        }
    }

    /// Loop entry. With a nonzero current cell the loop is entered and its
    /// start recorded. With a zero cell the whole loop is skipped: a forward
    /// scan with a depth counter finds the matching close bracket and the
    /// program counter jumps there; when the scan runs off the end of the
    /// program (an unmatched open bracket) the counter stays put.
    fn open_loop(&mut self)
        requires
            old(self).wf(),
            !halted(old(self)@),
            old(self)@.code[old(self)@.pc as int] == '[',
        ensures
            final(self).wf(),
            final(self)@ == spec_open_loop(old(self)@),
            (final(self)@.pc as int) < usize::MAX,
    {
        let ghost s0: State = self@;
        if self.memory[self.memory_pointer] != 0 {
            self.loops.push(self.program_counter);
            proof {
                assert(self@ =~= spec_open_loop(s0));
            }
        } else {
            let length = self.program_code.len();
            let mut i: usize = self.program_counter + 1;
            let mut depth: usize = 1;
            while i < length
                invariant
                    self@ == s0,
                    s0 == old(self)@,
                    crate::state::wf(s0),
                    !halted(s0),
                    length == s0.code.len(),
                    (s0.pc as int) < i <= length,
                    1 <= depth <= i - s0.pc,
                    find_match(s0.code, s0.pc as int, 0) == find_match(
                        s0.code,
                        i as int,
                        depth as int,
                    ),
                    s0.mem[s0.ptr as int] == 0,
                decreases length - i,
            {
                let c = self.program_code[i];
                if c == '[' {
                    depth = depth + 1;
                } else if c == ']' {
                    depth = depth - 1;
                    if depth == 0 {
                        self.program_counter = i;
                        proof {
                            assert(self@ =~= spec_open_loop(s0));
                        }
                        return ;
                    }
                }
                i = i + 1;
            }
            proof {
                assert(find_match(s0.code, length as int, depth as int) is None);
                assert(self@ =~= spec_open_loop(s0));
            }
        }
    }

    /// Loop exit. With a nonzero current cell the program counter jumps back
    /// to the most recent loop start, which stays recorded so the loop can
    /// repeat; with a zero cell that loop start is discarded and execution
    /// falls through. An unmatched close bracket finds no loop start recorded
    /// and does nothing either way.
    fn close_loop(&mut self)
        requires
            old(self).wf(),
            !halted(old(self)@),
        ensures
            final(self).wf(),
            final(self)@ == spec_close_loop(old(self)@),
            (final(self)@.pc as int) < usize::MAX,
    {
        let ghost s0: State = self@;
        if self.memory[self.memory_pointer] != 0 {
            if self.loops.len() > 0 {
                self.program_counter = self.loops[self.loops.len() - 1];
            }
        } else {
            if self.loops.len() > 0 {
                self.loops.pop();
                proof {
                    assert(self@ =~= spec_close_loop(s0));
                }
            }
        }
    }

    /// One step of the machine. A halted machine (program counter at or past
    /// the end of the program) is left untouched and `false` comes back.
    /// Otherwise the character at the program counter is decoded and
    /// executed, the counter advances by one on top of any jump the
    /// operation performed, and `true` comes back.
    pub fn step(&mut self) -> (more: bool)
        requires
            old(self).wf(),
        ensures
            final(self).wf(),
            final(self)@ == spec_step(old(self)@),
            more == !halted(old(self)@),
            halted(old(self)@) ==> final(self)@ == old(self)@,
    {
        if self.program_counter >= self.program_code.len() {
            return false;
        }
        let ghost s0: State = self@;
        let ch = self.program_code[self.program_counter];
        match Operation::from(ch) {
            Operation::MoveLeft => self.move_left(),
            Operation::MoveRight => self.move_right(),
            Operation::Increment => self.increment(),
            Operation::Decrement => self.decrement(),
            Operation::ConsolePrint => self.emit(),
            Operation::ConsoleRead => {},
            Operation::OpenLoop => self.open_loop(),
            Operation::CloseLoop => self.close_loop(),
            Operation::Skip => {},
        }
        proof {
            assert(self@ == spec_execute(decode(s0.code[s0.pc as int]), s0));
            assert((self@.pc as int) < usize::MAX);
        }
        self.program_counter = self.program_counter + 1;
        proof {
            assert(self@ =~= spec_step(s0));
        }
        true
    }

    /// Steps the machine until it halts: the iterative driver the language
    /// needs, since loop bodies may run arbitrarily many times and recursing
    /// per step would exhaust the call stack. The contract covers the
    /// programs that do halt, and for them pins the result down to the state
    /// after exactly the machine's running time; a program that never halts
    /// keeps `run` from returning, which is the program author's
    /// responsibility. A caller wanting bounded execution drives `step`
    /// itself instead.
    pub fn run(&mut self)
        requires
            old(self).wf(),
            halts(old(self)@),
        ensures
            final(self).wf(),
            halted(final(self)@),
            final(self)@ == spec_steps(old(self)@, halt_time(old(self)@)),
    {
        let ghost s0: State = self@;
        let ghost mut n: nat = 0nat;
        proof {
            assert(spec_steps(s0, 0) == s0);
        }
        loop
            invariant
                self.wf(),
                s0 == old(self)@,
                self@ == spec_steps(s0, n),
                halts(self@),
                forall|m: nat| m < n ==> !halted(#[trigger] spec_steps(s0, m)),
            ensures
                self.wf(),
                halted(self@),
                self@ == spec_steps(s0, halt_time(s0)),
            decreases halt_time(self@),
        {
            let ghost pre: State = self@;
            let more = self.step();
            if !more {
                proof {
                    lemma_halt_time_exists(s0, n);
                    assert(is_halt_time(s0, n));
                    assert(halt_time(s0) == n);
                }
                break ;
            }
            proof {
                lemma_steps_succ(s0, n);
                lemma_halt_time_step(pre);
                n = n + 1nat;
            }
        }
    }

    /// Read-only view of the tape contents.
    pub fn memory(&self) -> (memory: &Vec<u8>)
        ensures
            memory@ == self@.mem,
    {
        &self.memory
    }

    /// Read-only view of the tape cursor.
    pub fn memory_pointer(&self) -> (pointer: usize)
        ensures
            pointer == self@.ptr,
    {
        self.memory_pointer
    }

    /// Read-only view of the program counter.
    pub fn program_counter(&self) -> (counter: usize)
        ensures
            counter == self@.pc,
    {
        self.program_counter
    }

    /// Read-only view of the loaded program.
    pub fn program_code(&self) -> (code: &Vec<char>)
        ensures
            code@ == self@.code,
    {
        &self.program_code
    }

    /// Read-only view of the output emitted so far.
    pub fn output(&self) -> (output: &Vec<u8>)
        ensures
            output@ == self@.out,
    {
        &self.output
    }
}

} // verus!
