//! Relay server core for a small multiplayer racing game.
//!
//! The library has two parts: a binary protocol codec (`packets` for the
//! message types and their encoding, `parser` for decoding), and the session
//! relay state machine (`relay`) that turns each decoded message into state
//! transitions and a list of outbound messages. The transport around it —
//! binding a socket, receiving datagrams, sending the produced messages —
//! stays outside.

pub mod packets;
pub mod parser;
pub mod relay;
