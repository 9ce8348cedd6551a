//! The mathematical model of the machine: an abstract state, the decoding of
//! source characters into operations, and the meaning of one execution step.

use vstd::prelude::*;

verus! {

/// The nine operations of the language: eight recognized characters plus a
/// catch-all no-op for any other character.
pub enum Operation {
    MoveLeft,
    MoveRight,
    Increment,
    Decrement,
    ConsolePrint,
    ConsoleRead,
    OpenLoop,
    CloseLoop,
    Skip,
}

/// Which operation a source character stands for.
pub open spec fn decode(c: char) -> Operation {
    match c {
        '<' => Operation::MoveLeft,
        '>' => Operation::MoveRight,
        '+' => Operation::Increment,
        '-' => Operation::Decrement,
        '.' => Operation::ConsolePrint,
        ',' => Operation::ConsoleRead,
        '[' => Operation::OpenLoop,
        ']' => Operation::CloseLoop,
        _ => Operation::Skip,
    }
}

/// The abstract state of the machine: the tape with its cursor, the program
/// with its counter, the stack of open-loop positions, and the characters
/// emitted so far.
#[verifier::ext_equal]
pub struct State {
    pub mem: Seq<u8>,
    pub ptr: usize,
    pub code: Seq<char>,
    pub pc: usize,
    pub loops: Seq<usize>,
    pub out: Seq<u8>,
}

/// Every recorded loop start is small enough that the counter can move one
/// past it without leaving `usize`.
pub open spec fn loops_bounded(loops: Seq<usize>) -> bool {
    forall|k: int| 0 <= k < loops.len() ==> (loops[k] as int) < usize::MAX
}

/// A state the machine can actually be in: a nonempty tape with the cursor on
/// it, and every recorded loop start small enough that the counter can move
/// one past it. The tape and the program fit in memory.
pub open spec fn wf(s: State) -> bool {
    &&& 1 <= s.mem.len() <= usize::MAX
    &&& (s.ptr as int) < s.mem.len()
    &&& s.code.len() <= usize::MAX
    &&& loops_bounded(s.loops)
}

/// The state of a freshly built machine with `size` zeroed cells and the
/// program `code` loaded: both cursors at zero, no open loops, no output.
pub open spec fn loaded(size: usize, code: Seq<char>) -> State {
    State {
        mem: Seq::new(size as nat, |i: int| 0u8),
        ptr: 0usize,
        code: code,
        pc: 0usize,
        loops: Seq::empty(),
        out: Seq::empty(),
    }
}

/// The machine halts exactly when the program counter has run off the end of
/// the program.
pub open spec fn halted(s: State) -> bool {
    s.pc >= s.code.len()
}

/// A byte incremented modulo 256.
pub open spec fn wrap_inc(b: u8) -> u8 {
    if b == 255 {
        0u8
    } else {
        (b + 1) as u8
    }
}

/// A byte decremented modulo 256.
pub open spec fn wrap_dec(b: u8) -> u8 {
    if b == 0 {
        255u8
    } else {
        (b - 1) as u8
    }
}

/// Moving the cursor left, wrapping from 0 to the last cell.
pub open spec fn spec_move_left(s: State) -> State {
    if s.ptr > 0 {
        State { ptr: (s.ptr - 1) as usize, ..s }
    } else {
        State { ptr: (s.mem.len() - 1) as usize, ..s }
    }
}

/// Moving the cursor right, wrapping from the last cell to 0.
pub open spec fn spec_move_right(s: State) -> State {
    if s.ptr + 1 < s.mem.len() {
        State { ptr: (s.ptr + 1) as usize, ..s }
    } else {
        State { ptr: 0usize, ..s }
    }
}

/// Incrementing the current cell modulo 256.
pub open spec fn spec_increment(s: State) -> State {
    State { mem: s.mem.update(s.ptr as int, wrap_inc(s.mem[s.ptr as int])), ..s }
}

/// Decrementing the current cell modulo 256.
pub open spec fn spec_decrement(s: State) -> State {
    State { mem: s.mem.update(s.ptr as int, wrap_dec(s.mem[s.ptr as int])), ..s }
}

/// Emitting the current cell to the output.
pub open spec fn spec_emit(s: State) -> State {
    State { out: s.out.push(s.mem[s.ptr as int]), ..s }
}

/// How a character moves the bracket depth of a forward scan.
pub open spec fn bracket_delta(c: char) -> int {
    if c == '[' {
        1
    } else if c == ']' {
        -1
    } else {
        0
    }
}

/// The forward scan that resolves a loop skip: starting at position `i` with
/// accumulated depth `depth`, the position of the first closing bracket that
/// returns the depth to zero, or `None` when the program ends first.
pub open spec fn find_match(code: Seq<char>, i: int, depth: int) -> Option<int>
    decreases code.len() - i,
{
    if i < 0 || i >= code.len() {
        None
    } else {
        let d = depth + bracket_delta(code[i]);
        if d == 0 {
            Some(i)
        } else {
            find_match(code, i + 1, d)
        }
    }
}

/// Loop entry: with a nonzero cell the loop start is recorded; with a zero
/// cell the counter jumps to the matching close bracket, or stays put when
/// there is none (the unmatched-bracket edge case).
pub open spec fn spec_open_loop(s: State) -> State {
    if s.mem[s.ptr as int] != 0 {
        State { loops: s.loops.push(s.pc), ..s }
    } else {
        match find_match(s.code, s.pc as int, 0) {
            Some(j) => State { pc: j as usize, ..s },
            None => s,
        }
    }
}

/// Loop exit: with a nonzero cell the counter jumps back to the most recent
/// loop start, which stays recorded; with a zero cell that loop start is
/// discarded. With no open loop recorded (an unmatched close bracket) nothing
/// happens either way.
pub open spec fn spec_close_loop(s: State) -> State {
    if s.mem[s.ptr as int] != 0 {
        if s.loops.len() > 0 {
            State { pc: s.loops.last(), ..s }
        } else {
            s
        }
    } else {
        if s.loops.len() > 0 {
            State { loops: s.loops.drop_last(), ..s }
        } else {
            s
        }
    }
}

/// The effect of one operation on the state, the program counter's uniform
/// advance left aside. Console input is a declared unsupported operation: it
/// leaves the state unchanged rather than crash the engine.
pub open spec fn spec_execute(op: Operation, s: State) -> State {
    match op {
        Operation::MoveLeft => spec_move_left(s),
        Operation::MoveRight => spec_move_right(s),
        Operation::Increment => spec_increment(s),
        Operation::Decrement => spec_decrement(s),
        Operation::ConsolePrint => spec_emit(s),
        Operation::ConsoleRead => s,
        Operation::OpenLoop => spec_open_loop(s),
        Operation::CloseLoop => spec_close_loop(s),
        Operation::Skip => s,
    }
}

/// One step of the machine: a halted state is left unchanged; otherwise the
/// operation at the program counter is executed and the counter advances by
/// one on top of any jump the operation performed.
pub open spec fn spec_step(s: State) -> State {
    if halted(s) {
        s
    } else {
        let t = spec_execute(decode(s.code[s.pc as int]), s);
        State { pc: (t.pc + 1) as usize, ..t }
    }
}

/// `n` steps of the machine.
pub open spec fn spec_steps(s: State, n: nat) -> State
    decreases n,
{
    if n == 0 {
        s
    } else {
        spec_steps(spec_step(s), (n - 1) as nat)
    }
}

/// The machine halts from `s` after some number of steps.
pub open spec fn halts(s: State) -> bool {
    exists|n: nat| halted(spec_steps(s, n))
}

/// `n` is the exact running time from `s`: the first step count at which the
/// machine is halted.
pub open spec fn is_halt_time(s: State, n: nat) -> bool {
    &&& halted(spec_steps(s, n))
    &&& forall|m: nat| m < n ==> !halted(#[trigger] spec_steps(s, m))
}

/// The exact running time from `s`; meaningful only when the machine halts
/// from `s`.
pub open spec fn halt_time(s: State) -> nat {
    choose|n: nat| is_halt_time(s, n)
}

/// When the machine is halted after some `n` steps, it has an exact running
/// time, and `halt_time` denotes it.
pub proof fn lemma_halt_time_exists(s: State, n: nat)
    requires
        halted(spec_steps(s, n)),
    ensures
        is_halt_time(s, halt_time(s)),
    decreases n,
{
    if exists|m: nat| m < n && halted(#[trigger] spec_steps(s, m)) {
        let m = choose|m: nat| m < n && halted(#[trigger] spec_steps(s, m));
        lemma_halt_time_exists(s, m);
    } else {
        assert(is_halt_time(s, n));
    }
}

/// The exact running time is unique: a machine first halted after `n` steps
/// has `halt_time` equal to `n`.
pub proof fn lemma_halt_time_unique(s: State, n: nat)
    requires
        is_halt_time(s, n),
    ensures
        halts(s),
        halt_time(s) == n,
{
    lemma_halt_time_exists(s, n);
}

/// A step taken by a running machine that halts brings its running time down
/// by exactly one.
pub proof fn lemma_halt_time_step(s: State)
    requires
        halts(s),
        !halted(s),
    ensures
        halts(spec_step(s)),
        halt_time(spec_step(s)) + 1 == halt_time(s),
{
    let n = choose|n: nat| halted(#[trigger] spec_steps(s, n));
    lemma_halt_time_exists(s, n);
    let t = halt_time(s);
    assert(spec_steps(s, 0) == s);
    assert(t != 0);
    assert(spec_steps(s, t) == spec_steps(spec_step(s), (t - 1) as nat));
    lemma_halt_time_exists(spec_step(s), (t - 1) as nat);
    let u = halt_time(spec_step(s));
    assert(u <= t - 1);
    if u < t - 1 {
        assert(spec_steps(s, u + 1) == spec_steps(spec_step(s), u));
        assert(halted(spec_steps(s, u + 1)));
        assert(!halted(spec_steps(s, u + 1)));
    }
}

/// A successful forward scan lands on a position of the program at or past its
/// start.
pub proof fn lemma_find_match_bounds(code: Seq<char>, i: int, depth: int, j: int)
    requires
        find_match(code, i, depth) == Some(j),
    ensures
        i <= j < code.len(),
    decreases code.len() - i,
{
    if !(i < 0 || i >= code.len()) {
        let d = depth + bracket_delta(code[i]);
        if d != 0 {
            lemma_find_match_bounds(code, i + 1, d, j);
        }
    }
}

/// Unrolling the step iteration from the back: `n + 1` steps are `n` steps
/// followed by one.
pub proof fn lemma_steps_succ(s: State, n: nat)
    ensures
        spec_steps(s, n + 1) == spec_step(spec_steps(s, n)),
    decreases n,
{
    assert(spec_steps(s, n + 1) == spec_steps(spec_step(s), n));
    if n > 0 {
        lemma_steps_succ(spec_step(s), (n - 1) as nat);
        assert(spec_steps(s, n) == spec_steps(spec_step(s), (n - 1) as nat));
    }
}

} // verus!
