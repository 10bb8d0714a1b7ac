//! Client-side engine for a sharded, compressed, binary-framed gateway protocol.

pub mod client;
pub mod codec;
pub mod display;
pub mod eventemitter;
pub mod frame;
pub mod gatewaymessage;
pub mod jsvalue;
pub mod manager;
pub mod rest;
pub mod shard;
pub mod term;
pub mod text;
pub mod zlib;
