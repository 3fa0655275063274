//! Runtime core of a map-evaluating client library: the value model, the
//! host message encoding, the security engine, the interpreter's pure
//! capabilities and the lifecycle of the process-wide engine.

pub mod bridge;
pub mod codec;
pub mod events;
pub mod http;
pub mod json;
pub mod lifecycle;
pub mod mock;
pub mod perform;
pub mod security;
pub mod text;
pub mod value;
