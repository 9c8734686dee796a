//! A typed embedding for constructing arithmetic circuits over the
//! Goldilocks field: typed variables compile to field-element wires with
//! defined arithmetic, equality, and ordering semantics; a builder records
//! the constraint graph; a compiled circuit is proved against concrete
//! public inputs and verified, with derived public outputs and a canonical
//! byte codec for externally-verifiable interfaces.

use vstd::prelude::*;

pub mod builder;
pub mod circuit;
pub mod codec;
pub mod comparator;
pub mod evm;
pub mod field;
pub mod gate;
pub mod prover;
pub mod vars;

verus! {

} // verus!
