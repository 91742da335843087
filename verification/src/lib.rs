//! A real-time audio synthesis virtual machine.
//!
//! A host sends compact big-endian bytecode describing signal-processing
//! programs ("expressions"); once per fixed-size audio block the engine
//! decodes, validates, schedules and executes them. All sample buffers and
//! stores are pre-sized at construction and fail closed rather than grow,
//! so the per-block work is bounded.
//!
//! Samples are fixed-width integer words ([`types::Sample`]); the numeric
//! signal kernels of individual unit types (oscillators, envelopes) are
//! plug-ins behind [`unit::UnitBackend`] and are not part of the engine.

pub mod channel_stack;
pub mod constants;
pub mod errors;
pub mod expression;
pub mod graph;
pub mod leap;
pub mod opcode;
pub mod operators;
pub mod options;
pub mod parameter;
pub mod unit;
pub mod unit_factory;
pub mod opcode_reader;
pub mod table;
pub mod types;
pub mod util;
pub mod validator;
pub mod vm_inner;
