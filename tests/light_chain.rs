use std::sync::{Arc, Mutex};

use light_chain::blockchain::{Blockchain, Fetcher, Resolution};
use light_chain::cht::{accumulator_number, SIZE};
use light_chain::consensus::AuthorityId;
use light_chain::memory::MemoryStorage;
use light_chain::storage::{AuthorityCache, Storage};
use light_chain::types::{
    AddressingError, BlockHash, BlockId, BlockStatus, ClientError, Header, NewBlockState,
    RemoteHeaderRequest,
};

fn h(n: u128) -> BlockHash {
    BlockHash { high: 7, low: n }
}

fn header(number: u64, hash: BlockHash, parent: BlockHash) -> Header {
    Header {
        number,
        hash,
        parent_hash: parent,
        state_root: BlockHash { high: 1, low: number as u128 },
        extrinsics_root: BlockHash { high: 2, low: number as u128 },
    }
}

fn genesis() -> Header {
    header(0, h(0), BlockHash { high: 0, low: 0 })
}

/// A chain whose blocks 1..=n are imported as final, block i having hash h(i).
fn chain(n: u64) -> MemoryStorage {
    let mut s = MemoryStorage::new(genesis());
    for i in 1..=n {
        let hd = header(i, h(i as u128), h(i as u128 - 1));
        assert_eq!(s.import_header(hd, None, NewBlockState::Final, Vec::new()), Ok(()));
    }
    s
}

struct RecordingFetcher {
    requests: Mutex<Vec<RemoteHeaderRequest>>,
    reply: Result<Header, ClientError>,
}

impl RecordingFetcher {
    fn new(reply: Result<Header, ClientError>) -> Self {
        RecordingFetcher { requests: Mutex::new(Vec::new()), reply }
    }

    fn requests(&self) -> Vec<RemoteHeaderRequest> {
        self.requests.lock().unwrap().clone()
    }
}

impl Fetcher for RecordingFetcher {
    fn remote_header(&self, request: RemoteHeaderRequest) -> Result<Header, ClientError> {
        self.requests.lock().unwrap().push(request);
        self.reply
    }
}

type Chain = Blockchain<MemoryStorage, RecordingFetcher>;

#[test]
fn accumulator_number_partitions_ranges() {
    assert_eq!(accumulator_number(2048, 1), Ok(0));
    assert_eq!(accumulator_number(2048, 2048), Ok(0));
    assert_eq!(accumulator_number(2048, 2049), Ok(1));
    assert_eq!(accumulator_number(2048, 4096), Ok(1));
    assert_eq!(accumulator_number(2048, 4097), Ok(2));
    assert_eq!(accumulator_number(2048, 5000), Ok(2));
    assert_eq!(accumulator_number(1, 1), Ok(0));
    assert_eq!(accumulator_number(1, 9), Ok(8));
    assert_eq!(accumulator_number(3, u64::MAX), Ok((u64::MAX - 1) / 3));
}

#[test]
fn accumulator_number_rejects_genesis_and_empty_ranges() {
    assert_eq!(accumulator_number(2048, 0), Err(AddressingError::ZeroBlock));
    assert_eq!(accumulator_number(1, 0), Err(AddressingError::ZeroBlock));
    assert_eq!(accumulator_number(0, 5), Err(AddressingError::ZeroRangeSize));
}

#[test]
fn genesis_only_unknown_block_is_none() {
    let chain: Chain = Blockchain::new(MemoryStorage::new(genesis()));
    assert_eq!(chain.status(BlockId::Number(5)), Ok(BlockStatus::Unknown));
    assert_eq!(chain.header(BlockId::Number(5)), Ok(None));
    assert_eq!(chain.header(BlockId::Hash(h(5))), Ok(None));
}

#[test]
fn unknown_block_does_not_consult_fetcher() {
    let chain: Chain = Blockchain::new(chain(3));
    let fetcher = Arc::new(RecordingFetcher::new(Err(ClientError::RemoteFetchFailed)));
    chain.set_fetcher(&fetcher);
    assert_eq!(chain.header(BlockId::Number(4)), Ok(None));
    assert_eq!(chain.header(BlockId::Hash(h(99))), Ok(None));
    assert!(fetcher.requests().is_empty());
}

#[test]
fn genesis_is_never_fetched() {
    let chain: Chain = Blockchain::new(MemoryStorage::new(genesis()));
    let fetcher = Arc::new(RecordingFetcher::new(Err(ClientError::RemoteFetchFailed)));
    chain.set_fetcher(&fetcher);
    assert_eq!(chain.header(BlockId::Number(0)), Ok(Some(genesis())));
    assert!(fetcher.requests().is_empty());
    assert_eq!(chain.resolve(BlockId::Number(0), true), Ok(Resolution::Local(Some(genesis()))));
}

#[test]
fn retained_header_is_local() {
    let chain: Chain = Blockchain::new(chain(3));
    let expected = header(2, h(2), h(1));
    assert_eq!(chain.header(BlockId::Number(2)), Ok(Some(expected)));
    assert_eq!(chain.header(BlockId::Hash(h(2))), Ok(Some(expected)));
}

#[test]
fn pruned_block_without_fetcher_is_not_available() {
    let mut s = chain(6);
    assert_eq!(s.prune_headers(4, 0, h(1000)), Ok(()));
    let chain: Chain = Blockchain::new(s);
    assert_eq!(chain.status(BlockId::Number(3)), Ok(BlockStatus::InChain));
    assert_eq!(chain.header(BlockId::Number(3)), Err(ClientError::NotAvailableOnLightClient));
    // blocks outside the pruned range are still local
    assert_eq!(chain.header(BlockId::Number(5)), Ok(Some(header(5, h(5), h(4)))));
    assert_eq!(chain.header(BlockId::Number(0)), Ok(Some(genesis())));
}

#[test]
fn pruned_block_with_dropped_fetcher_is_not_available() {
    let mut s = chain(6);
    assert_eq!(s.prune_headers(4, 0, h(1000)), Ok(()));
    let chain: Chain = Blockchain::new(s);
    let fetcher = Arc::new(RecordingFetcher::new(Err(ClientError::RemoteFetchFailed)));
    chain.set_fetcher(&fetcher);
    assert!(chain.fetcher().is_some());
    drop(fetcher);
    assert!(chain.fetcher().is_none());
    assert_eq!(chain.header(BlockId::Number(3)), Err(ClientError::NotAvailableOnLightClient));
}

#[test]
fn pruned_block_without_root_of_agreed_size_fails() {
    let mut s = chain(6);
    assert_eq!(s.prune_headers(4, 0, h(1000)), Ok(()));
    let chain: Chain = Blockchain::new(s);
    let fetcher = Arc::new(RecordingFetcher::new(Err(ClientError::RemoteFetchFailed)));
    chain.set_fetcher(&fetcher);
    assert_eq!(
        chain.header(BlockId::Number(3)),
        Err(ClientError::ChtRootNotFound { cht_size: SIZE, cht_number: 0 })
    );
    assert!(fetcher.requests().is_empty());
}

#[test]
fn pruned_block_is_fetched_with_one_request() {
    let mut s = chain(SIZE + 1);
    assert_eq!(s.prune_headers(SIZE, 0, h(4242)), Ok(()));
    assert_eq!(s.header_cht_root(SIZE, 100), Ok(h(4242)));
    let chain: Chain = Blockchain::new(s);
    let remote = header(100, h(100), h(99));
    let fetcher = Arc::new(RecordingFetcher::new(Ok(remote)));
    chain.set_fetcher(&fetcher);
    assert_eq!(chain.header(BlockId::Number(100)), Ok(Some(remote)));
    assert_eq!(
        fetcher.requests(),
        vec![RemoteHeaderRequest { cht_root: h(4242), block: 100, retry_count: None }]
    );
    // the block past the range is still retained
    assert_eq!(chain.header(BlockId::Number(SIZE + 1)), Ok(Some(header(SIZE + 1, h(SIZE as u128 + 1), h(SIZE as u128)))));
    assert_eq!(fetcher.requests().len(), 1);
}

#[test]
fn fetch_failure_is_surfaced() {
    let mut s = chain(SIZE);
    assert_eq!(s.prune_headers(SIZE, 0, h(4242)), Ok(()));
    let chain: Chain = Blockchain::new(s);
    let fetcher = Arc::new(RecordingFetcher::new(Err(ClientError::RemoteFetchFailed)));
    chain.set_fetcher(&fetcher);
    assert_eq!(chain.header(BlockId::Number(SIZE)), Err(ClientError::RemoteFetchFailed));
    assert_eq!(fetcher.requests().len(), 1);
}

#[test]
fn resolve_gives_the_request() {
    let mut s = chain(SIZE);
    assert_eq!(s.prune_headers(SIZE, 0, h(4242)), Ok(()));
    let chain: Chain = Blockchain::new(s);
    assert_eq!(
        chain.resolve(BlockId::Number(7), true),
        Ok(Resolution::Remote(RemoteHeaderRequest { cht_root: h(4242), block: 7, retry_count: None }))
    );
    assert_eq!(chain.resolve(BlockId::Number(7), false), Err(ClientError::NotAvailableOnLightClient));
    assert_eq!(chain.header_with(BlockId::Number(7), None), Err(ClientError::NotAvailableOnLightClient));
}

#[test]
fn import_refuses_to_revert_finalized() {
    let mut s = chain(3);
    // a fork at block 2 would drop finalized blocks 2 and 3
    let fork = header(2, h(200), h(1));
    assert_eq!(s.import_header(fork, None, NewBlockState::Best, Vec::new()), Err(ClientError::CannotRevertFinalized));
    assert_eq!(s.import_header(fork, None, NewBlockState::Final, Vec::new()), Err(ClientError::CannotRevertFinalized));
    assert_eq!(s.hash(2), Ok(Some(h(2))));
    assert_eq!(s.last_finalized(), Ok(h(3)));
    // as a non-best block it is kept aside
    assert_eq!(s.import_header(fork, None, NewBlockState::Normal, Vec::new()), Ok(()));
    assert_eq!(s.hash(2), Ok(Some(h(2))));
    assert_eq!(s.number(h(200)), Ok(Some(2)));
}

#[test]
fn reorg_above_finalized_is_accepted() {
    let mut s = MemoryStorage::new(genesis());
    assert_eq!(s.import_header(header(1, h(1), h(0)), None, NewBlockState::Final, Vec::new()), Ok(()));
    assert_eq!(s.import_header(header(2, h(2), h(1)), None, NewBlockState::Best, Vec::new()), Ok(()));
    assert_eq!(s.import_header(header(3, h(3), h(2)), None, NewBlockState::Best, Vec::new()), Ok(()));
    assert_eq!(s.import_header(header(2, h(20), h(1)), None, NewBlockState::Best, Vec::new()), Ok(()));
    let info = s.info().unwrap();
    assert_eq!(info.best_hash, h(20));
    assert_eq!(info.best_number, 2);
    assert_eq!(info.finalized_hash, h(1));
    assert_eq!(s.hash(3), Ok(None));
    assert_eq!(s.status(BlockId::Number(3)), Ok(BlockStatus::Unknown));
}

#[test]
fn final_import_round_trip() {
    let mut s = MemoryStorage::new(genesis());
    let hd = header(1, h(1), h(0));
    assert_eq!(s.import_header(hd, None, NewBlockState::Final, Vec::new()), Ok(()));
    assert_eq!(s.last_finalized(), Ok(h(1)));
    assert_eq!(s.status(BlockId::Hash(h(1))), Ok(BlockStatus::InChain));
    assert_eq!(s.status(BlockId::Number(1)), Ok(BlockStatus::InChain));
    let chain: Chain = Blockchain::new(s);
    assert_eq!(chain.last_finalized(), Ok(h(1)));
    assert_eq!(chain.header(BlockId::Hash(h(1))), Ok(Some(hd)));
}

#[test]
fn import_errors() {
    let mut s = chain(2);
    assert_eq!(
        s.import_header(header(1, h(1), h(0)), None, NewBlockState::Normal, Vec::new()),
        Err(ClientError::DuplicateHeader(h(1)))
    );
    assert_eq!(
        s.import_header(header(5, h(5), h(4)), None, NewBlockState::Best, Vec::new()),
        Err(ClientError::InvalidNumber(5))
    );
    assert_eq!(
        s.import_header(header(0, h(50), h(0)), None, NewBlockState::Best, Vec::new()),
        Err(ClientError::InvalidNumber(0))
    );
    assert_eq!(
        s.import_header(header(3, h(3), h(77)), None, NewBlockState::Best, Vec::new()),
        Err(ClientError::NonCanonicalParent(h(77)))
    );
    assert_eq!(s.info().unwrap().best_number, 2);
}

#[test]
fn finalize_header_moves_forward_only() {
    let mut s = MemoryStorage::new(genesis());
    assert_eq!(s.import_header(header(1, h(1), h(0)), None, NewBlockState::Best, Vec::new()), Ok(()));
    assert_eq!(s.import_header(header(2, h(2), h(1)), None, NewBlockState::Best, Vec::new()), Ok(()));
    assert_eq!(s.last_finalized(), Ok(h(0)));
    assert_eq!(s.finalize_header(BlockId::Hash(h(2))), Ok(()));
    assert_eq!(s.last_finalized(), Ok(h(2)));
    assert_eq!(s.finalize_header(BlockId::Number(1)), Err(ClientError::CannotRevertFinalized));
    assert_eq!(s.finalize_header(BlockId::Number(9)), Err(ClientError::UnknownBlock(BlockId::Number(9))));
    assert_eq!(
        s.finalize_header(BlockId::Hash(h(9))),
        Err(ClientError::UnknownBlock(BlockId::Hash(h(9))))
    );
    assert_eq!(s.finalize_header(BlockId::Number(2)), Ok(()));
}

#[test]
fn prune_errors() {
    let mut s = chain(6);
    assert_eq!(
        s.prune_headers(0, 0, h(1)),
        Err(ClientError::Addressing(AddressingError::ZeroRangeSize))
    );
    assert_eq!(
        s.prune_headers(4, 1, h(1)),
        Err(ClientError::RangeNotFinalized { cht_size: 4, cht_number: 1 })
    );
    assert_eq!(
        s.prune_headers(u64::MAX, u64::MAX, h(1)),
        Err(ClientError::RangeNotFinalized { cht_size: u64::MAX, cht_number: u64::MAX })
    );
    assert_eq!(s.prune_headers(3, 0, h(1)), Ok(()));
    assert_eq!(
        s.prune_headers(3, 0, h(1)),
        Err(ClientError::DuplicateChtRoot { cht_size: 3, cht_number: 0 })
    );
    assert_eq!(s.header(BlockId::Number(2)), Ok(None));
    assert_eq!(s.header(BlockId::Number(4)), Ok(Some(header(4, h(4), h(3)))));
    assert_eq!(s.header_cht_root(3, 3), Ok(h(1)));
    assert_eq!(s.header_cht_root(3, 4), Err(ClientError::ChtRootNotFound { cht_size: 3, cht_number: 1 }));
    assert_eq!(s.header_cht_root(3, 0), Err(ClientError::Addressing(AddressingError::ZeroBlock)));
}

#[test]
fn changes_trie_root_not_found_is_distinguished() {
    let mut s = MemoryStorage::new(genesis());
    assert_eq!(
        s.changes_trie_cht_root(2048, 5000),
        Err(ClientError::ChtRootNotFound { cht_size: 2048, cht_number: 2 })
    );
    assert_eq!(s.insert_changes_trie_cht_root(2048, 2, h(31)), Ok(()));
    assert_eq!(s.changes_trie_cht_root(2048, 5000), Ok(h(31)));
    assert_eq!(s.changes_trie_cht_root(2048, 4097), Ok(h(31)));
    assert_eq!(
        s.changes_trie_cht_root(2048, 4096),
        Err(ClientError::ChtRootNotFound { cht_size: 2048, cht_number: 1 })
    );
    assert_eq!(
        s.insert_changes_trie_cht_root(2048, 2, h(32)),
        Err(ClientError::DuplicateChtRoot { cht_size: 2048, cht_number: 2 })
    );
    assert_eq!(
        s.insert_changes_trie_cht_root(0, 2, h(32)),
        Err(ClientError::Addressing(AddressingError::ZeroRangeSize))
    );
    assert_eq!(
        s.changes_trie_cht_root(2048, 0),
        Err(ClientError::Addressing(AddressingError::ZeroBlock))
    );
}

#[test]
fn facade_delegates_reads() {
    let chain: Chain = Blockchain::new(chain(2));
    let info = chain.info().unwrap();
    assert_eq!(info.best_hash, h(2));
    assert_eq!(info.best_number, 2);
    assert_eq!(info.genesis_hash, h(0));
    assert_eq!(info.finalized_hash, h(2));
    assert_eq!(info.finalized_number, 2);
    assert_eq!(chain.number(h(1)), Ok(Some(1)));
    assert_eq!(chain.number(h(9)), Ok(None));
    assert_eq!(chain.hash(1), Ok(Some(h(1))));
    assert_eq!(chain.hash(3), Ok(None));
    assert_eq!(chain.status(BlockId::Hash(h(9))), Ok(BlockStatus::Unknown));
    assert_eq!(chain.body(BlockId::Number(1)), Ok(None));
    assert_eq!(chain.justification(BlockId::Number(1)), Ok(None));
    assert_eq!(chain.storage().hash(2), Ok(Some(h(2))));
}

fn key(k: &str) -> Vec<u8> {
    k.as_bytes().to_vec()
}

#[test]
fn aux_ops_are_applied_with_the_header() {
    let mut s = MemoryStorage::new(genesis());
    assert_eq!(s.get_aux(b"a"), Ok(None));
    let ops = vec![(key("a"), Some(key("1"))), (key("b"), Some(key("2"))), (key("a"), Some(key("3")))];
    assert_eq!(s.import_header(header(1, h(1), h(0)), None, NewBlockState::Best, ops), Ok(()));
    assert_eq!(s.get_aux(b"a"), Ok(Some(key("3"))));
    assert_eq!(s.get_aux(b"b"), Ok(Some(key("2"))));
    let ops = vec![(key("b"), None), (key("c"), Some(Vec::new()))];
    assert_eq!(s.import_header(header(2, h(2), h(1)), None, NewBlockState::Normal, ops), Ok(()));
    assert_eq!(s.get_aux(b"b"), Ok(None));
    assert_eq!(s.get_aux(b"c"), Ok(Some(Vec::new())));
    assert_eq!(s.get_aux(b"a"), Ok(Some(key("3"))));
}

#[test]
fn failed_import_leaves_aux_untouched() {
    let mut s = chain(2);
    let ops = vec![(key("a"), Some(key("1")))];
    assert_eq!(
        s.import_header(header(1, h(100), h(0)), None, NewBlockState::Best, ops),
        Err(ClientError::CannotRevertFinalized)
    );
    assert_eq!(s.get_aux(b"a"), Ok(None));
    assert_eq!(s.number(h(100)), Ok(None));
}

#[test]
fn insert_aux_writes_then_deletes() {
    let mut s = MemoryStorage::new(genesis());
    let inserts = vec![(key("x"), key("1")), (key("y"), key("2")), (key("x"), key("4"))];
    let deletes = vec![key("y"), key("z")];
    assert_eq!(s.insert_aux(&inserts, &deletes), Ok(()));
    assert_eq!(s.get_aux(b"x"), Ok(Some(key("4"))));
    assert_eq!(s.get_aux(b"y"), Ok(None));
    assert_eq!(s.get_aux(b"z"), Ok(None));
    assert_eq!(s.insert_aux(&vec![(key("y"), key("5"))], &Vec::new()), Ok(()));
    assert_eq!(s.get_aux(b"y"), Ok(Some(key("5"))));
    assert_eq!(s.get_aux(b"xy"), Ok(None));
}

fn authority(n: u128) -> AuthorityId {
    AuthorityId { high: 3, low: n }
}

#[test]
fn authorities_are_recorded_per_block() {
    let mut s = MemoryStorage::new(genesis());
    let set = vec![authority(1), authority(2)];
    assert_eq!(s.import_header(header(1, h(1), h(0)), Some(set.clone()), NewBlockState::Final, Vec::new()), Ok(()));
    assert_eq!(s.import_header(header(2, h(2), h(1)), None, NewBlockState::Final, Vec::new()), Ok(()));
    let chain: Chain = Blockchain::new(s);
    let cache = chain.cache().expect("the in-memory storage has a cache");
    assert_eq!(cache.authorities_at(BlockId::Number(1)), Some(set.clone()));
    assert_eq!(cache.authorities_at(BlockId::Hash(h(1))), Some(set));
    assert_eq!(cache.authorities_at(BlockId::Number(2)), None);
    assert_eq!(cache.authorities_at(BlockId::Number(7)), None);
}

#[test]
fn imports_go_on_while_the_chain_is_in_use() {
    let mut chain: Chain = Blockchain::new(MemoryStorage::new(genesis()));
    let hd = header(1, h(1), h(0));
    assert_eq!(chain.header(BlockId::Number(1)), Ok(None));
    assert_eq!(chain.storage_mut().import_header(hd, None, NewBlockState::Best, Vec::new()), Ok(()));
    assert_eq!(chain.header(BlockId::Number(1)), Ok(Some(hd)));
    assert_eq!(chain.info().unwrap().best_hash, h(1));
    assert_eq!(chain.last_finalized(), Ok(h(0)));
    assert_eq!(chain.storage_mut().finalize_header(BlockId::Number(1)), Ok(()));
    assert_eq!(chain.last_finalized(), Ok(h(1)));
    let s = chain.into_storage();
    assert_eq!(s.last_finalized(), Ok(h(1)));
}

#[test]
fn pruning_through_the_chain_sends_fetches() {
    let mut chain: Chain = Blockchain::new(chain(SIZE));
    let remote = header(9, h(9), h(8));
    let fetcher = Arc::new(RecordingFetcher::new(Ok(remote)));
    chain.set_fetcher(&fetcher);
    assert_eq!(chain.header(BlockId::Number(9)), Ok(Some(header(9, h(9), h(8)))));
    assert!(fetcher.requests().is_empty());
    assert_eq!(chain.storage_mut().prune_headers(SIZE, 0, h(5555)), Ok(()));
    assert_eq!(chain.header(BlockId::Number(9)), Ok(Some(remote)));
    assert_eq!(
        fetcher.requests(),
        vec![RemoteHeaderRequest { cht_root: h(5555), block: 9, retry_count: None }]
    );
}

#[test]
fn cleared_fetcher_is_not_available() {
    let mut s = chain(SIZE);
    assert_eq!(s.prune_headers(SIZE, 0, h(4242)), Ok(()));
    let chain: Chain = Blockchain::new(s);
    let fetcher = Arc::new(RecordingFetcher::new(Ok(header(3, h(3), h(2)))));
    chain.set_fetcher(&fetcher);
    assert_eq!(chain.header(BlockId::Number(3)), Ok(Some(header(3, h(3), h(2)))));
    chain.clear_fetcher();
    assert!(chain.fetcher().is_none());
    assert_eq!(chain.header(BlockId::Number(3)), Err(ClientError::NotAvailableOnLightClient));
    assert_eq!(fetcher.requests().len(), 1);
}
