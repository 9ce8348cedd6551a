//! The guarantees of the machine, stated and proved against the model in
//! `state`: counting programs reach exact cell values modulo 256, cursor
//! moves wrap modulo the tape length, a halted machine is a fixed point of
//! stepping, and an unmatched open bracket degrades to a plain advance.

use vstd::arithmetic::div_mod::{lemma_add_mod_noop, lemma_mod_bound, lemma_small_mod};
use vstd::prelude::*;

use crate::state::{
    decode, find_match, halted, halt_time, is_halt_time, lemma_find_match_bounds,
    lemma_halt_time_unique, lemma_steps_succ, loaded, spec_execute, spec_step, spec_steps, wf,
    Operation, State,
};

verus! {

/// The tape's length and the loaded program are fixed during a run: a step
/// never touches either, and it keeps the state well formed.
pub proof fn lemma_step_preserves_wf(s: State)
    requires
        wf(s),
    ensures
        wf(spec_step(s)),
        spec_step(s).mem.len() == s.mem.len(),
        spec_step(s).code == s.code,
{
    if !halted(s) {
        let op = decode(s.code[s.pc as int]);
        let t = spec_execute(op, s);
        if op is OpenLoop && s.mem[s.ptr as int] == 0 {
            if let Some(j) = find_match(s.code, s.pc as int, 0) {
                lemma_find_match_bounds(s.code, s.pc as int, 0, j);
            }
        }
        assert((t.pc as int) < usize::MAX);
    }
}

/// The program made of `count` copies of the character `c`.
pub open spec fn repeated(c: char, count: nat) -> Seq<char> {
    Seq::new(count, |i: int| c)
}

/// A machine that has halted never changes again, however often it is
/// stepped.
pub proof fn lemma_halted_is_stable(s: State, n: nat)
    requires
        halted(s),
    ensures
        spec_steps(s, n) == s,
    decreases n,
{
    if n > 0 {
        lemma_halted_is_stable(s, (n - 1) as nat);
    }
}

/// An unmatched open bracket over a zero cell is no error: the skip scan
/// finds no matching close bracket and the step only advances the program
/// counter by one.
pub proof fn lemma_unmatched_open_loop(s: State)
    requires
        wf(s),
        !halted(s),
        s.code[s.pc as int] == '[',
        s.mem[s.ptr as int] == 0,
        find_match(s.code, s.pc as int, 0) is None,
    ensures
        spec_step(s) == (State { pc: (s.pc + 1) as usize, ..s }),
{
}

/// Moving left with the cursor at cell 0 wraps it to the last cell of the
/// tape.
pub proof fn lemma_move_left_wraps(s: State)
    requires
        wf(s),
        !halted(s),
        s.code[s.pc as int] == '<',
        s.ptr == 0,
    ensures
        spec_step(s).ptr == s.mem.len() - 1,
{
}

/// After `k` steps of a program of `count` plus signs, cell 0 holds `k`
/// modulo 256 and nothing else has happened.
proof fn lemma_increment_prefix(size: usize, count: usize, k: usize)
    requires
        1 <= size,
        k <= count,
    ensures
        spec_steps(loaded(size, repeated('+', count as nat)), k as nat) == (State {
            mem: Seq::new(size as nat, |i: int| 0u8).update(0, ((k as int) % 256) as u8),
            ptr: 0usize,
            code: repeated('+', count as nat),
            pc: k,
            loops: Seq::<usize>::empty(),
            out: Seq::<u8>::empty(),
        }),
    decreases k,
{
    let code = repeated('+', count as nat);
    let zeros = Seq::new(size as nat, |i: int| 0u8);
    let start = loaded(size, code);
    if k == 0 {
        assert(spec_steps(start, 0) == start);
        assert(zeros.update(0, 0u8) =~= zeros);
        assert(start =~= (State {
            mem: zeros.update(0, ((0int) % 256) as u8),
            ptr: 0usize,
            code: code,
            pc: 0usize,
            loops: Seq::<usize>::empty(),
            out: Seq::<u8>::empty(),
        }));
    } else {
        lemma_increment_prefix(size, count, (k - 1) as usize);
        lemma_steps_succ(start, (k - 1) as nat);
        let prev = spec_steps(start, (k - 1) as nat);
        let m = (k - 1) as int % 256;
        assert(0 <= m < 256) by {
            lemma_mod_bound((k - 1) as int, 256);
        }
        assert((m + 1) % 256 == (k as int) % 256) by {
            lemma_add_mod_noop((k - 1) as int, 1, 256);
            lemma_small_mod(1nat, 256nat);
        }
        if m == 255 {
            assert((k as int) % 256 == 0);
        } else {
            assert((k as int) % 256 == m + 1) by {
                lemma_small_mod((m + 1) as nat, 256nat);
            }
        }
        assert(zeros.update(0, (m as u8)).update(0, (((k as int) % 256) as u8)) =~= zeros.update(
            0,
            (((k as int) % 256) as u8),
        ));
        assert(spec_steps(start, k as nat) == spec_step(prev));
        assert(spec_step(prev) =~= (State {
            mem: zeros.update(0, ((k as int) % 256) as u8),
            ptr: 0usize,
            code: code,
            pc: k,
            loops: Seq::<usize>::empty(),
            out: Seq::<u8>::empty(),
        }));
    }
}

/// After `k` steps of a program of `count` minus signs, cell 0 holds
/// `256 - k` modulo 256 and nothing else has happened.
proof fn lemma_decrement_prefix(size: usize, count: usize, k: usize)
    requires
        1 <= size,
        k <= count,
    ensures
        spec_steps(loaded(size, repeated('-', count as nat)), k as nat) == (State {
            mem: Seq::new(size as nat, |i: int| 0u8).update(
                0,
                (((256 - (k as int) % 256) % 256) as u8),
            ),
            ptr: 0usize,
            code: repeated('-', count as nat),
            pc: k,
            loops: Seq::<usize>::empty(),
            out: Seq::<u8>::empty(),
        }),
    decreases k,
{
    let code = repeated('-', count as nat);
    let zeros = Seq::new(size as nat, |i: int| 0u8);
    let start = loaded(size, code);
    if k == 0 {
        assert(spec_steps(start, 0) == start);
        assert(zeros.update(0, 0u8) =~= zeros);
        assert(start =~= (State {
            mem: zeros.update(0, (((256 - (0int) % 256) % 256) as u8)),
            ptr: 0usize,
            code: code,
            pc: 0usize,
            loops: Seq::<usize>::empty(),
            out: Seq::<u8>::empty(),
        }));
    } else {
        lemma_decrement_prefix(size, count, (k - 1) as usize);
        lemma_steps_succ(start, (k - 1) as nat);
        let prev = spec_steps(start, (k - 1) as nat);
        let m = (k - 1) as int % 256;
        let v = (256 - m) % 256;
        let w = (256 - (k as int) % 256) % 256;
        assert(0 <= m < 256) by {
            lemma_mod_bound((k - 1) as int, 256);
        }
        assert((m + 1) % 256 == (k as int) % 256) by {
            lemma_add_mod_noop((k - 1) as int, 1, 256);
            lemma_small_mod(1nat, 256nat);
        }
        if m == 0 {
            assert(v == 0);
            assert((k as int) % 256 == 1) by {
                lemma_small_mod(1nat, 256nat);
            }
            assert(w == 255) by {
                lemma_small_mod(255nat, 256nat);
            }
        } else {
            assert(v == 256 - m) by {
                lemma_small_mod((256 - m) as nat, 256nat);
            }
            if m == 255 {
                assert((k as int) % 256 == 0);
                assert(w == 0);
                assert(v == 1);
            } else {
                assert((k as int) % 256 == m + 1) by {
                    lemma_small_mod((m + 1) as nat, 256nat);
                }
                assert(w == 256 - m - 1) by {
                    lemma_small_mod((256 - m - 1) as nat, 256nat);
                }
            }
        }
        assert(zeros.update(0, (v as u8)).update(0, (w as u8)) =~= zeros.update(0, (w as u8)));
        assert(spec_steps(start, k as nat) == spec_step(prev));
        assert(spec_step(prev) =~= (State {
            mem: zeros.update(0, (w as u8)),
            ptr: 0usize,
            code: code,
            pc: k,
            loops: Seq::<usize>::empty(),
            out: Seq::<u8>::empty(),
        }));
    }
}

/// After `k` steps of a program of `count` right moves, the cursor stands at
/// `k` modulo the tape length and nothing else has happened.
proof fn lemma_move_right_prefix(size: usize, count: usize, k: usize)
    requires
        1 <= size,
        k <= count,
    ensures
        spec_steps(loaded(size, repeated('>', count as nat)), k as nat) == (State {
            mem: Seq::new(size as nat, |i: int| 0u8),
            ptr: (((k as int) % (size as int)) as usize),
            code: repeated('>', count as nat),
            pc: k,
            loops: Seq::<usize>::empty(),
            out: Seq::<u8>::empty(),
        }),
    decreases k,
{
    let code = repeated('>', count as nat);
    let start = loaded(size, code);
    if k == 0 {
        assert(spec_steps(start, 0) == start);
        assert(start =~= (State {
            mem: Seq::new(size as nat, |i: int| 0u8),
            ptr: (((0int) % (size as int)) as usize),
            code: code,
            pc: 0usize,
            loops: Seq::<usize>::empty(),
            out: Seq::<u8>::empty(),
        }));
    } else {
        lemma_move_right_prefix(size, count, (k - 1) as usize);
        lemma_steps_succ(start, (k - 1) as nat);
        let prev = spec_steps(start, (k - 1) as nat);
        let m = (k - 1) as int % (size as int);
        assert(0 <= m < size) by {
            lemma_mod_bound((k - 1) as int, size as int);
        }
        assert((m + 1) % (size as int) == (k as int) % (size as int)) by {
            lemma_add_mod_noop((k - 1) as int, 1, size as int);
            lemma_mod_bound(1, size as int);
            lemma_mod_bound(m + 1, size as int);
            if size >= 2 {
                lemma_small_mod(1nat, size as nat);
            }
        }
        if m + 1 == size {
            assert((k as int) % (size as int) == 0) by {
                vstd::arithmetic::div_mod::lemma_mod_self_0(size as int);
            }
        } else {
            assert((k as int) % (size as int) == m + 1) by {
                lemma_small_mod((m + 1) as nat, size as nat);
            }
        }
        assert(spec_steps(start, k as nat) == spec_step(prev));
        assert(spec_step(prev) =~= (State {
            mem: Seq::new(size as nat, |i: int| 0u8),
            ptr: (((k as int) % (size as int)) as usize),
            code: code,
            pc: k,
            loops: Seq::<usize>::empty(),
            out: Seq::<u8>::empty(),
        }));
    }
}

/// Running a program of `count` plus signs on a fresh machine takes exactly
/// `count` steps and leaves cell 0 holding `count` modulo 256, the cursor
/// still at 0 and the tape otherwise untouched.
pub proof fn lemma_repeated_increment(size: usize, count: usize)
    requires
        1 <= size,
    ensures
        is_halt_time(loaded(size, repeated('+', count as nat)), count as nat),
        halt_time(loaded(size, repeated('+', count as nat))) == count,
        ({
            let end = spec_steps(loaded(size, repeated('+', count as nat)), count as nat);
            &&& halted(end)
            &&& end.mem[0] as int == (count as int) % 256
            &&& end.ptr == 0
            &&& forall|i: int| 1 <= i < size ==> end.mem[i] == 0u8
        }),
{
    lemma_increment_prefix(size, count, count);
    assert forall|j: nat| j < count implies !halted(#[trigger] spec_steps(
        loaded(size, repeated('+', count as nat)),
        j,
    )) by {
        lemma_increment_prefix(size, count, j as usize);
    }
    lemma_halt_time_unique(loaded(size, repeated('+', count as nat)), count as nat);
    assert(0 <= (count as int) % 256 < 256) by {
        lemma_mod_bound(count as int, 256);
    }
}

/// Running a program of `count` minus signs on a fresh machine takes exactly
/// `count` steps and leaves cell 0 holding `256 - count` modulo 256, the
/// cursor still at 0 and the tape otherwise untouched.
pub proof fn lemma_repeated_decrement(size: usize, count: usize)
    requires
        1 <= size,
    ensures
        is_halt_time(loaded(size, repeated('-', count as nat)), count as nat),
        halt_time(loaded(size, repeated('-', count as nat))) == count,
        ({
            let end = spec_steps(loaded(size, repeated('-', count as nat)), count as nat);
            &&& halted(end)
            &&& end.mem[0] as int == (256 - (count as int) % 256) % 256
            &&& end.ptr == 0
            &&& forall|i: int| 1 <= i < size ==> end.mem[i] == 0u8
        }),
{
    lemma_decrement_prefix(size, count, count);
    assert forall|j: nat| j < count implies !halted(#[trigger] spec_steps(
        loaded(size, repeated('-', count as nat)),
        j,
    )) by {
        lemma_decrement_prefix(size, count, j as usize);
    }
    lemma_halt_time_unique(loaded(size, repeated('-', count as nat)), count as nat);
    assert(0 <= (256 - (count as int) % 256) % 256 < 256) by {
        lemma_mod_bound(count as int, 256);
        lemma_mod_bound(256 - (count as int) % 256, 256);
    }
}

/// Running a program of `count` right moves on a fresh machine takes exactly
/// `count` steps and wraps the cursor to `count` modulo the tape length,
/// leaving the tape all zero.
pub proof fn lemma_repeated_move_right(size: usize, count: usize)
    requires
        1 <= size,
    ensures
        is_halt_time(loaded(size, repeated('>', count as nat)), count as nat),
        halt_time(loaded(size, repeated('>', count as nat))) == count,
        ({
            let end = spec_steps(loaded(size, repeated('>', count as nat)), count as nat);
            &&& halted(end)
            &&& end.ptr as int == (count as int) % (size as int)
            &&& end.mem == Seq::new(size as nat, |i: int| 0u8)
        }),
{
    lemma_move_right_prefix(size, count, count);
    assert forall|j: nat| j < count implies !halted(#[trigger] spec_steps(
        loaded(size, repeated('>', count as nat)),
        j,
    )) by {
        lemma_move_right_prefix(size, count, j as usize);
    }
    lemma_halt_time_unique(loaded(size, repeated('>', count as nat)), count as nat);
    assert(0 <= (count as int) % (size as int) < size) by {
        lemma_mod_bound(count as int, size as int);
    }
}

} // verus!
