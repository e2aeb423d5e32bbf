//! Chain-state backend of a light client.
//!
//! Only a recent window of headers is kept locally. Older headers are pruned and
//! summarised by canonical hash trie (CHT) roots, one per fixed-size range of
//! block numbers; a pruned header is fetched from a remote peer and checked
//! against the root of its range.
pub mod types;
pub mod cht;
pub mod storage;
pub mod memory;
pub mod blockchain;
pub mod consensus;
