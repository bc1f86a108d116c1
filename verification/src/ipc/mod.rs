//! One local daemon connection: its messages, its endpoint, and its byte pump.

pub mod endpoint;
pub mod handshake;
pub mod pump;
pub mod unix;
pub mod windows;
