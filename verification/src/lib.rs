//! A verified CHIP-8 virtual machine with a time-travel debugger.
//!
//! The interpreter owns a 4096-byte memory, sixteen 8-bit registers, a
//! 64x32 display, timers and a call stack, and executes one instruction
//! per step. The debugger wraps it with snapshot capture, undo and
//! speed control. Scheduling is driven by an injected microsecond clock
//! so that every transition is a pure function of its inputs.

pub mod chip8;
pub mod debugger;
pub mod laws;
pub mod mesh;
pub mod opcode;
