//! What the light chain requires of a persistence backend.
use vstd::prelude::*;
use crate::consensus::AuthorityId;
use crate::types::{BlockHash, BlockId, BlockStatus, ChainInfo, ClientError, Header, NewBlockState};

verus! {

/// A read-only lookup of the authority set at a block.
pub trait AuthorityCache {
    fn authorities_at(&self, block: BlockId) -> Option<Vec<AuthorityId>>;
}

/// Persistence required by the light chain.
///
/// Every read is an exact function of the storage's state, named by the
/// matching `spec_` function, so that callers can reason about what they read.
pub trait Storage: Sized {
    /// The invariant that every operation relies on and preserves.
    spec fn inv(&self) -> bool;

    spec fn spec_header(&self, id: BlockId) -> Result<Option<Header>, ClientError>;

    spec fn spec_number(&self, hash: BlockHash) -> Result<Option<u64>, ClientError>;

    spec fn spec_hash(&self, number: u64) -> Result<Option<BlockHash>, ClientError>;

    spec fn spec_status(&self, id: BlockId) -> Result<BlockStatus, ClientError>;

    spec fn spec_info(&self) -> Result<ChainInfo, ClientError>;

    spec fn spec_last_finalized(&self) -> Result<BlockHash, ClientError>;

    spec fn spec_header_cht_root(&self, cht_size: u64, block: u64) -> Result<BlockHash, ClientError>;

    spec fn spec_changes_trie_cht_root(&self, cht_size: u64, block: u64) -> Result<BlockHash, ClientError>;

    spec fn spec_aux(&self, key: Seq<u8>) -> Result<Option<Seq<u8>>, ClientError>;

    /// The storage's authority cache, if it has one.
    spec fn spec_cache(&self) -> Option<Self::Cache>;

    /// The authority cache of this storage.
    type Cache: AuthorityCache;

    /// The header of a locally retained block.
    fn header(&self, id: BlockId) -> (r: Result<Option<Header>, ClientError>)
        requires
            self.inv(),
        ensures
            r == self.spec_header(id),
    ;

    /// The number of the block with the given hash, if it is known.
    fn number(&self, hash: BlockHash) -> (r: Result<Option<u64>, ClientError>)
        requires
            self.inv(),
        ensures
            r == self.spec_number(hash),
    ;

    /// The hash of the canonical block with the given number.
    fn hash(&self, number: u64) -> (r: Result<Option<BlockHash>, ClientError>)
        requires
            self.inv(),
        ensures
            r == self.spec_hash(number),
    ;

    /// Whether the block is on a known chain.
    fn status(&self, id: BlockId) -> (r: Result<BlockStatus, ClientError>)
        requires
            self.inv(),
        ensures
            r == self.spec_status(id),
    ;

    /// A snapshot of the chain pointers.
    fn info(&self) -> (r: Result<ChainInfo, ClientError>)
        requires
            self.inv(),
        ensures
            r == self.spec_info(),
    ;

    /// The hash of the last finalized block.
    fn last_finalized(&self) -> (r: Result<BlockHash, ClientError>)
        requires
            self.inv(),
        ensures
            r == self.spec_last_finalized(),
    ;

    /// The root of the header CHT whose range covers `block`. Fails while the
    /// range is not pruned.
    fn header_cht_root(&self, cht_size: u64, block: u64) -> (r: Result<BlockHash, ClientError>)
        requires
            self.inv(),
        ensures
            r == self.spec_header_cht_root(cht_size, block),
    ;

    /// The root of the changes-trie CHT whose range covers `block`. Fails while
    /// the range is not pruned.
    fn changes_trie_cht_root(&self, cht_size: u64, block: u64) -> (r: Result<BlockHash, ClientError>)
        requires
            self.inv(),
        ensures
            r == self.spec_changes_trie_cht_root(cht_size, block),
    ;

    /// The authority cache, where the storage has one; having none is no error.
    fn cache(&self) -> (r: Option<&Self::Cache>)
        requires
            self.inv(),
        ensures
            match r {
                Some(c) => self.spec_cache() == Some(*c),
                None => self.spec_cache() is None,
            },
    ;

    /// The value of the auxiliary store under `key`.
    fn get_aux(&self, key: &[u8]) -> (r: Result<Option<Vec<u8>>, ClientError>)
        requires
            self.inv(),
        ensures
            match r {
                Ok(v) => self.spec_aux(key@) == Ok::<Option<Seq<u8>>, ClientError>(bytes_of(v)),
                Err(e) => self.spec_aux(key@) == Err::<Option<Seq<u8>>, ClientError>(e),
            },
    ;

    /// Writes `inserts`, then removes the keys of `deletes`, in the auxiliary
    /// store; a failure changes nothing.
    fn insert_aux(&mut self, inserts: &Vec<(Vec<u8>, Vec<u8>)>, deletes: &Vec<Vec<u8>>) -> (r: Result<(), ClientError>)
        requires
            old(self).inv(),
        ensures
            final(self).inv(),
            r is Err ==> *final(self) == *old(self),
    ;

    /// Stores a header with the authority set that starts at it, moves the
    /// best and finalized pointers as `state` says, and applies `aux_ops` to the auxiliary store in the same step
    /// (`None` deletes). Refuses to revert a finalized block; a failure
    /// changes nothing.
    fn import_header(
        &mut self,
        header: Header,
        authorities: Option<Vec<AuthorityId>>,
        state: NewBlockState,
        aux_ops: Vec<AuxEntry>,
    ) -> (r: Result<(), ClientError>)
        requires
            old(self).inv(),
        ensures
            final(self).inv(),
            r is Err ==> *final(self) == *old(self),
            // a best or final header at or below the finalized number would
            // take the finalized block off the canonical chain
            state != NewBlockState::Normal && header.number <= old(self).spec_info()->Ok_0.finalized_number ==> r is Err,
            r is Ok ==> final(self).spec_number(header.hash) == Ok::<Option<u64>, ClientError>(Some(header.number)),
            r is Ok && state != NewBlockState::Normal ==> {
                &&& final(self).spec_info() is Ok
                &&& final(self).spec_info()->Ok_0.best_hash == header.hash
                &&& final(self).spec_info()->Ok_0.best_number == header.number
                &&& final(self).spec_hash(header.number) == Ok::<Option<BlockHash>, ClientError>(Some(header.hash))
            },
            r is Ok && state == NewBlockState::Final ==> {
                &&& final(self).spec_last_finalized() == Ok::<BlockHash, ClientError>(header.hash)
                &&& final(self).spec_status(BlockId::Hash(header.hash)) == Ok::<BlockStatus, ClientError>(BlockStatus::InChain)
                &&& final(self).spec_status(BlockId::Number(header.number)) == Ok::<BlockStatus, ClientError>(BlockStatus::InChain)
            },
            r is Ok ==> {
                &&& final(self).spec_info() is Ok
                &&& final(self).spec_info()->Ok_0.finalized_number >= old(self).spec_info()->Ok_0.finalized_number
                &&& old(self).spec_info() is Ok ==> final(self).spec_hash(old(self).spec_info()->Ok_0.finalized_number) == Ok::<Option<BlockHash>, ClientError>(
                    Some(old(self).spec_info()->Ok_0.finalized_hash),
                )
            },
    ;

    /// Marks a canonical block as finalized. Refuses to move finality
    /// backwards; a failure changes nothing.
    fn finalize_header(&mut self, id: BlockId) -> (r: Result<(), ClientError>)
        requires
            old(self).inv(),
        ensures
            final(self).inv(),
            r is Err ==> *final(self) == *old(self),
            // an unknown or non-canonical block, or one below the finalized number, is refused
            match id {
                BlockId::Number(n) => old(self).spec_hash(n) matches Ok(None),
                BlockId::Hash(h) => !(old(self).spec_number(h) matches Ok(Some(n)) && old(self).spec_hash(n) == Ok::<Option<BlockHash>, ClientError>(Some(h))),
            } ==> r is Err,
            match id {
                BlockId::Number(n) => n < old(self).spec_info()->Ok_0.finalized_number,
                BlockId::Hash(h) => old(self).spec_number(h) matches Ok(Some(n)) && n < old(self).spec_info()->Ok_0.finalized_number,
            } ==> r is Err,
            r is Ok ==> match id {
                BlockId::Number(n) => {
                    &&& old(self).spec_hash(n) matches Ok(Some(h))
                    &&& final(self).spec_last_finalized() == Ok::<BlockHash, ClientError>(old(self).spec_hash(n)->Ok_0->Some_0)
                    &&& final(self).spec_info() is Ok
                    &&& final(self).spec_info()->Ok_0.finalized_number == n
                },
                BlockId::Hash(h) => {
                    &&& old(self).spec_number(h) matches Ok(Some(n))
                    &&& final(self).spec_last_finalized() == Ok::<BlockHash, ClientError>(h)
                    &&& final(self).spec_info() is Ok
                    &&& final(self).spec_hash(final(self).spec_info()->Ok_0.finalized_number) == Ok::<Option<BlockHash>, ClientError>(Some(h))
                    &&& old(self).spec_number(h) == Ok::<Option<u64>, ClientError>(Some(final(self).spec_info()->Ok_0.finalized_number))
                },
            },
            r is Ok ==> forall|k: u64| #[trigger] final(self).spec_hash(k) == old(self).spec_hash(k),
            r is Ok ==> {
                &&& final(self).spec_info() is Ok
                &&& final(self).spec_info()->Ok_0.finalized_number >= old(self).spec_info()->Ok_0.finalized_number
                &&& old(self).spec_info() is Ok ==> final(self).spec_hash(old(self).spec_info()->Ok_0.finalized_number) == Ok::<Option<BlockHash>, ClientError>(
                    Some(old(self).spec_info()->Ok_0.finalized_hash),
                )
            },
    ;
}

/// A key of the auxiliary store and its value; a `None` value deletes the key.
pub type AuxEntry = (Vec<u8>, Option<Vec<u8>>);

/// The bytes of an optional value.
pub open spec fn bytes_of(v: Option<Vec<u8>>) -> Option<Seq<u8>> {
    match v {
        Some(v) => Some(v@),
        None => None,
    }
}

} // verus!
