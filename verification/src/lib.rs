//! Core of a blockchain node's peer-to-peer plumbing: a registry of
//! connected peers with bounded per-topic subscription channels, a block
//! intake router, and a fragment selection engine that drains the mempool
//! under ledger validation.

pub mod address;
pub mod blockcfg;
pub mod comm;
pub mod fragment;
pub mod peer_map;
pub mod process;
pub mod selection;
pub mod topology;

use vstd::prelude::*;

verus! {

/// Number of items a subscription channel buffers before a send overflows.
pub const BUFFER_LEN: usize = 8;

} // verus!
