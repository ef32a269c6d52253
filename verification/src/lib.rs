//! A minimal Ethereum-compatible contract-call client core.
//!
//! The crate derives function selectors, encodes and decodes the static
//! subset of the contract ABI, assembles the calldata for a
//! decentralized-exchange swap, and drives the read-only call sequence
//! that collects the on-chain state the swap needs.  All byte-level
//! logic is verified; the network transport and the signing service
//! live outside the crate and are reached only through plain values.

pub mod abi;
pub mod address;
pub mod amount;
pub mod errors;
pub mod flow;
pub mod selector;
pub mod swap;
pub mod text;
pub mod uint256;
