//! Utilities shared by the mad-rust drivers and their user interface: the
//! macro tokenizer, the framing of messages over UDP, the commands exchanged
//! between a driver and the interface, and lock results read with poisoning
//! ignored.

pub mod tokenizer;
pub mod connection;
pub mod command;
pub mod encoding;
pub mod dispatch;
pub mod thread;
pub mod config;
