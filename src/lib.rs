//! Sending one file over a TCP connection with a small self-describing
//! header: the handshake codec, the admission gate, and the accounting of a
//! transfer session and its copy workers.

pub mod admission;
pub mod codec;
pub mod engine;
pub mod gate;
pub mod naming;
pub mod progress;
pub mod session;
