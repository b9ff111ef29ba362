//! Deterministic host environment for a Go program compiled to 32-bit wasm.
//!
//! The guest sees time, randomness, timers and output only through host
//! calls. Every call is served from one [`gostack::WasmEnv`] record and from
//! the guest's linear memory, so that two sessions fed the same calls agree
//! on every byte they hand back.

pub mod encoding;
pub mod gostack;
pub mod rng;
pub mod runtime;
pub mod timeout;
