//! Two-party encrypted chat: Diffie–Hellman key agreement over a fixed
//! 64-bit group, a keystream seeded from the agreed secret, and the
//! role-asymmetric session that XORs application bytes with that keystream.
//!
//! The library holds the decisions and the arithmetic; sockets and the
//! terminal belong to the program that drives it.
//!
//! Beside the chat stand the working parts of three small tools: a
//! hexadecimal file tool, a word counter and a greeter.

pub mod modexp;
pub mod wire;
pub mod keystream;
pub mod exchange;
pub mod session;
pub mod numeral;
pub mod hex_tool;
pub mod word_order;
pub mod word_frequency;
pub mod greeting;
