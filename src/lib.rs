//! Interception of gRPC-framed HTTP bodies: frame codec, message transforms,
//! body accumulation and the per-stream flow-control state machine.

pub mod frame;
pub mod message;
pub mod transform;
pub mod accumulator;
pub mod context;
