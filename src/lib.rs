//! A small request/response service: message types, their binary encoding,
//! the per-connection dispatch step and the per-address server registry.

pub mod message;
pub mod registry;
pub mod wire;
pub mod codec;
pub mod connection;
