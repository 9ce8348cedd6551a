//! A verified interpreter for a minimal eight-instruction tape language.
//!
//! The machine owns a fixed-size byte tape with a wrapping data cursor, an
//! immutable program (a sequence of characters) with a program counter, and a
//! stack of open-loop positions. `state` holds the mathematical model of the
//! machine and the specification of a single execution step; `interpreter`
//! holds the executable engine, proved to follow that model step for step;
//! `laws` states and proves the properties the machine guarantees.

pub mod interpreter;
pub mod laws;
pub mod state;

pub use interpreter::Interpreter;

