//! Verified core of the Midnight ledger: its versioned binary format, coins and
//! their commitments, contract state values, the stack values and result modes
//! of the on-chain virtual machine, Schnorr keys, the privileged system
//! transactions that mint native tokens and pay out of the treasury, and the
//! signed maintenance updates that change a deployed contract.
#![allow(unused_imports)]

pub use vstd::prelude::DeepView;

// The binary format.
pub mod bytes;
pub mod versioned;
pub mod codec;
pub mod primitives;
pub mod containers;
pub mod tuples;
pub mod strings;
pub mod tags;
pub mod entry;
pub mod compact;
pub mod util;

// Hashes, keys, coins and contracts.
pub mod hash;
pub mod signatures;
pub mod coin;
pub mod transfer;
pub mod contract;

// Contract state, the virtual machine's values and a query's context.
pub mod keymap;
pub mod state;
pub mod maintenance;
pub mod contract_state;
pub mod vm;
pub mod context;

// The ledger state, privileged transactions, checks and maintenance.
pub mod ledger;
pub mod malformed;
pub mod semantics;
pub mod section;
pub mod partition;
pub mod claims;
