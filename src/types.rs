//! Plain data shared by the storage, the fetcher and the chain facade.
use vstd::prelude::*;

verus! {

/// A 256-bit block hash, as its high and low 128 bits.
#[derive(Clone, Copy, Debug, PartialEq, Eq, Structural)]
pub struct BlockHash {
    pub high: u128,
    pub low: u128,
}

/// A reference to a block, by hash or by number.
#[derive(Clone, Copy, Debug, PartialEq, Eq, Structural)]
pub enum BlockId {
    Hash(BlockHash),
    Number(u64),
}

/// Block metadata. Immutable once imported.
#[derive(Clone, Copy, Debug, PartialEq, Eq, Structural)]
pub struct Header {
    pub number: u64,
    pub hash: BlockHash,
    pub parent_hash: BlockHash,
    pub state_root: BlockHash,
    pub extrinsics_root: BlockHash,
}

/// Whether a block is known on the canonical chain.
#[derive(Clone, Copy, Debug, PartialEq, Eq, Structural)]
pub enum BlockStatus {
    InChain,
    Unknown,
}

/// How an imported header affects the best and finalized pointers.
#[derive(Clone, Copy, Debug, PartialEq, Eq, Structural)]
pub enum NewBlockState {
    Normal,
    Best,
    Final,
}

/// A snapshot of the chain pointers.
#[derive(Clone, Copy, Debug, PartialEq, Eq, Structural)]
pub struct ChainInfo {
    pub best_hash: BlockHash,
    pub best_number: u64,
    pub genesis_hash: BlockHash,
    pub finalized_hash: BlockHash,
    pub finalized_number: u64,
}

/// The unit of work handed to a remote fetcher: a header to retrieve and the
/// CHT root it must be proven against.
#[derive(Clone, Copy, Debug, PartialEq, Eq, Structural)]
pub struct RemoteHeaderRequest {
    pub cht_root: BlockHash,
    pub block: u64,
    /// `None`: the fetcher's own retry policy; `Some(n)`: at most `n` retries.
    pub retry_count: Option<u32>,
}

/// Why a block number has no CHT number.
#[derive(Clone, Copy, Debug, PartialEq, Eq, Structural)]
pub enum AddressingError {
    /// Genesis is covered by no range.
    ZeroBlock,
    /// Ranges must hold at least one block.
    ZeroRangeSize,
}

/// Errors of the light chain.
#[derive(Clone, Copy, Debug, PartialEq, Eq, Structural)]
pub enum ClientError {
    /// A remote operation is needed but no live fetcher is attached.
    NotAvailableOnLightClient,
    /// The block number has no CHT number.
    Addressing(AddressingError),
    /// No CHT root is stored for the range: it is still retained, or not yet complete.
    ChtRootNotFound { cht_size: u64, cht_number: u64 },
    /// A range can be pruned only once all its blocks are finalized.
    RangeNotFinalized { cht_size: u64, cht_number: u64 },
    /// A root is already stored for the range.
    DuplicateChtRoot { cht_size: u64, cht_number: u64 },
    /// The operation would remove a finalized block from the canonical chain.
    CannotRevertFinalized,
    /// The block is not known to the storage.
    UnknownBlock(BlockId),
    /// A best or final header whose parent is not the canonical block below it.
    NonCanonicalParent(BlockHash),
    /// A header with the hash is already stored.
    DuplicateHeader(BlockHash),
    /// The header's number does not fit the chain (a gap, or past the largest number).
    InvalidNumber(u64),
    /// The remote fetcher gave up, or returned a header that did not verify.
    RemoteFetchFailed,
    /// Any other failure of a storage engine.
    Backend,
}

pub(crate) fn hash_eq(a: &BlockHash, b: &BlockHash) -> (r: bool)
    ensures
        r == (*a == *b),
{
    a == b
}

} // verus!
