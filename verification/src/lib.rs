//! Core of a dataflow runtime that executes "schematics": directed graphs of
//! typed components whose edges carry discrete packets. The crate holds the
//! packet codec, the per-invocation port router, the schematic scheduler,
//! the provider registry with the built-in native providers, the wire framing
//! of the RPC transport, and claims issuance and verification for signed
//! WebAssembly modules.
use vstd::prelude::*;

pub mod assoc;
pub mod signature;
pub mod providers;
pub mod schematic;
pub mod scheduler;
pub mod claims;
pub mod wasm_module;
pub mod wire;
pub mod network;
pub mod keys;
pub mod packet;
pub mod router;
pub mod codec;

verus! {

/// Reserved node slot that feeds the invocation payload into a schematic.
pub const SCHEMATIC_INPUT: usize = 0;

/// Reserved node slot that collects a schematic's external outputs.
pub const SCHEMATIC_OUTPUT: usize = 1;

} // verus!
