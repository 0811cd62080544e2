//! Chain management for a blockchain node: block types and their encoding, a content-addressed
//! block store with its parent/child index, fork choice over candidate branches, and the
//! state-sync task that fetches missing tree nodes from peers.

pub mod account_address;
pub mod account_config;
pub mod block;
pub mod block_store;
pub mod chain;
pub mod chain_service;
pub mod codec;
pub mod column;
pub mod consensus;
pub mod hash;
pub mod output_format;
pub mod script;
pub mod state_sync;
pub mod storage;
pub mod sync_task;
pub mod u256;
