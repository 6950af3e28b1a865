//! Tolerant parsing of network endpoints: an IP address with an optional port,
//! written in any of the loose forms that configuration files, logs and URLs
//! use, is turned into a typed address and port.
//!
//! [`parse`] is the entry point. It ignores white space, takes a protocol
//! scheme and a socket-notation tag off the front, and reads what is left as
//! an address with a port, a bracketed IPv6 address, a scoped IPv6 address or
//! a bare address. Its contract says for every input what comes back, the
//! error message included.
//!
//! The modules, from the ground up:
//! - [`chars`]: the character classes of the grammar;
//! - [`text`]: searching, cutting and splitting sequences of characters;
//! - [`number`]: numbers in digits, read and written;
//! - [`addr`]: the address values;
//! - [`ipv4`], [`ipv6`]: the two notations, read and written;
//! - [`socket`]: addresses of either family, alone and with a port;
//! - [`endpoint`]: the stages of the parser and the parser itself;
//! - [`canonical`], [`shape`], [`stages`]: proofs about the text of addresses
//!   and about what the stages do to it;
//! - [`laws`]: what holds of the parser on every input.

pub mod chars;
pub mod text;
pub mod number;
pub mod addr;
pub mod ipv4;
pub mod ipv6;
pub mod socket;
pub mod endpoint;
pub mod canonical;
pub mod shape;
pub mod stages;
pub mod laws;

pub use addr::{IpAddr, Ipv4Addr, Ipv6Addr};
pub use endpoint::{parse, IpVersion};
