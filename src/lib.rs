//! Client building blocks for the RESP wire protocol: frame model, codec,
//! typed commands, the in-flight response queue and the AUTH handshake.
pub mod client;
pub mod cmd;
pub mod codec;
pub mod connector;
pub mod errors;
pub mod resp;
pub mod transport;
