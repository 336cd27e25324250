//! A minimal stack virtual machine.
//!
//! The crate has two components, run in sequence:
//! - a decoder (`decode::tokenize`) that turns raw program text into a
//!   sequence of instructions, and
//! - an execution engine (`exec::Vm`) that interprets that sequence against
//!   two integer stacks, a flat word memory and an instruction pointer.
//!
//! Both are specified against mathematical models: the decoder against a
//! recursive specification over the byte sequence, the engine against a
//! small-step transition function on abstract machine states.

pub mod decode;
pub mod exec;
pub mod instr;
pub mod laws;
