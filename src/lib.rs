//! Wire encoding and decoding of the four core BGP messages.
pub mod errors;
pub mod wire;
pub mod prefix;
pub mod path_attribute;
pub mod header;
pub mod keepalive;
pub mod notification;
pub mod open;
pub mod update;
pub mod message;
pub mod framer;
