//! A small DNS message engine: wire-format encoding and decoding of headers,
//! domain names (with compression pointers), questions and resource records,
//! and the strategies that turn a parsed request into answer records.
use vstd::prelude::*;

pub mod cli;
pub mod header;
pub mod message;
pub mod name;
pub mod proofs;
pub mod record;
pub mod resolver;
pub mod server;
pub mod wire;

verus! {

} // verus!
