//! The light chain: answers from local storage where it can, and fetches a
//! pruned header from a remote peer, proven against the CHT root of its range.
use vstd::prelude::*;
use std::sync::Arc;
use crate::cht::SIZE;
use crate::storage::Storage;
use crate::types::{BlockHash, BlockId, BlockStatus, ChainInfo, ClientError, Header, RemoteHeaderRequest};

verus! {

/// A remote source of pruned headers.
///
/// `remote_header` retrieves the header of `request.block`, checks it against
/// `request.cht_root`, and returns once that has succeeded or failed; a header
/// that does not verify is a failure.
pub trait Fetcher {
    /// What the fetcher may answer to `request`. An implementation narrows it
    /// to what it promises; by default it promises nothing beyond answering.
    closed spec fn fetched(&self, request: RemoteHeaderRequest, r: Result<Header, ClientError>) -> bool {
        true
    }

    fn remote_header(&self, request: RemoteHeaderRequest) -> (r: Result<Header, ClientError>)
        ensures
            self.fetched(request, r),
    ;
}

/// What `header` makes of the fetcher's answer: a header is returned as found,
/// an error unchanged.
pub open spec fn from_fetch(x: Result<Header, ClientError>) -> Result<Option<Header>, ClientError> {
    match x {
        Ok(h) => Ok(Some(h)),
        Err(e) => Err(e),
    }
}

/// A replaceable, non-owning reference to the fetcher, behind a lock that is
/// held only to read or replace it. Hidden from verification: `std::sync::Weak`
/// cannot be named in verified signatures.
#[verifier::external_body]
#[verifier::reject_recursive_types(F)]
struct FetcherSlot<F> {
    slot: parking_lot::Mutex<std::sync::Weak<F>>,
}

/// Relies on parking_lot's `Mutex::new` and std's `Weak::new`: a slot whose
/// `Weak` refers to nothing.
#[verifier::external_body]
fn empty_slot<F>() -> FetcherSlot<F> {
    FetcherSlot { slot: parking_lot::Mutex::new(std::sync::Weak::new()) }
}

/// Relies on parking_lot's `Mutex::lock` and std's `Arc::downgrade`: the slot
/// now holds a `Weak` of `fetcher`.
#[verifier::external_body]
fn store_fetcher<F>(slot: &FetcherSlot<F>, fetcher: &Arc<F>) {
    *slot.slot.lock() = Arc::downgrade(fetcher);
}

/// Relies on parking_lot's `Mutex::lock` and std's `Weak::new`: the slot now
/// holds a `Weak` that refers to nothing.
#[verifier::external_body]
fn clear_slot<F>(slot: &FetcherSlot<F>) {
    *slot.slot.lock() = std::sync::Weak::new();
}

/// Relies on parking_lot's `Mutex::lock` and std's `Weak::upgrade`: `None` when
/// no fetcher was set or its owner has dropped it. The lock is released on
/// return, so it is never held during a fetch.
#[verifier::external_body]
fn live_fetcher<F>(slot: &FetcherSlot<F>) -> Option<Arc<F>> {
    slot.slot.lock().upgrade()
}

/// Where a header is to be found.
#[derive(Clone, Copy, Debug, PartialEq, Eq, Structural)]
pub enum Resolution {
    /// Answered by local storage: the header, or `None` when the block is unknown.
    Local(Option<Header>),
    /// Pruned locally: to be fetched with this request.
    Remote(RemoteHeaderRequest),
}

/// How `header(id)` is answered from the storage `s`, given whether a fetcher
/// is attached.
pub open spec fn resolution<S: Storage>(s: S, id: BlockId, attached: bool) -> Result<Resolution, ClientError> {
    match s.spec_header(id) {
        Err(e) => Err(e),
        Ok(Some(h)) => Ok(Resolution::Local(Some(h))),
        Ok(None) => match number_of(s, id) {
            Err(e) => Err(e),
            Ok(None) => Ok(Resolution::Local(None)),
            Ok(Some(n)) => if n == 0 {
                Ok(Resolution::Local(None))
            } else {
                match s.spec_status(BlockId::Number(n)) {
                    Err(e) => Err(e),
                    Ok(BlockStatus::Unknown) => Ok(Resolution::Local(None)),
                    Ok(BlockStatus::InChain) => if !attached {
                        Err(ClientError::NotAvailableOnLightClient)
                    } else {
                        match s.spec_header_cht_root(SIZE, n) {
                            Err(e) => Err(e),
                            Ok(root) => Ok(
                                Resolution::Remote(
                                    RemoteHeaderRequest { cht_root: root, block: n, retry_count: None },
                                ),
                            ),
                        }
                    },
                }
            },
        },
    }
}

/// The number that `id` names, as the storage knows it.
pub open spec fn number_of<S: Storage>(s: S, id: BlockId) -> Result<Option<u64>, ClientError> {
    match id {
        BlockId::Hash(h) => s.spec_number(h),
        BlockId::Number(n) => Ok(Some(n)),
    }
}

/// What `header` returns for a resolution: exact when local; when remote, the
/// answer of `fetcher` to that very request, passed on by `from_fetch`.
pub open spec fn answers<F: Fetcher>(
    res: Result<Resolution, ClientError>,
    fetcher: Option<F>,
    r: Result<Option<Header>, ClientError>,
) -> bool {
    match res {
        Err(e) => r == Err::<Option<Header>, ClientError>(e),
        Ok(Resolution::Local(o)) => r == Ok::<Option<Header>, ClientError>(o),
        Ok(Resolution::Remote(request)) => match fetcher {
            Some(f) => exists|x: Result<Header, ClientError>| #[trigger] f.fetched(request, x) && r == from_fetch(x),
            None => false,
        },
    }
}

pub open spec fn deref_fetcher<F>(fetcher: Option<&F>) -> Option<F> {
    match fetcher {
        Some(f) => Some(*f),
        None => None,
    }
}

/// The light chain: a storage, and a fetcher for what the storage has pruned.
#[verifier::reject_recursive_types(F)]
pub struct Blockchain<S, F> {
    fetcher: FetcherSlot<F>,
    storage: S,
}

impl<S: Storage, F: Fetcher> Blockchain<S, F> {
    /// The storage the chain reads from.
    pub closed spec fn store(self) -> S {
        self.storage
    }

    /// A chain over `storage`, with no fetcher attached.
    pub fn new(storage: S) -> (r: Self)
        ensures
            r.store() == storage,
    {
        Blockchain { fetcher: empty_slot(), storage }
    }

    /// Attaches `fetcher` without owning it: once its owner drops it, remote
    /// fetches fail with `NotAvailableOnLightClient`.
    pub fn set_fetcher(&self, fetcher: &Arc<F>) {
        store_fetcher(&self.fetcher, fetcher)
    }

    /// Detaches the fetcher: remote fetches fail with `NotAvailableOnLightClient`
    /// until another is set.
    pub fn clear_fetcher(&self) {
        clear_slot(&self.fetcher)
    }

    /// The attached fetcher, while it lives.
    pub fn fetcher(&self) -> Option<Arc<F>> {
        live_fetcher(&self.fetcher)
    }

    /// The storage the chain reads from.
    pub fn storage(&self) -> (r: &S)
        ensures
            *r == self.store(),
    {
        &self.storage
    }

    /// The storage, to import, finalize or prune through while the chain is in use.
    pub fn storage_mut(&mut self) -> (r: &mut S)
        ensures
            *r == old(self).store(),
            final(self).store() == *final(r),
    {
        &mut self.storage
    }

    /// Gives the storage back, dropping the chain.
    pub fn into_storage(self) -> (r: S)
        ensures
            r == self.store(),
    {
        self.storage
    }

    /// Works out where the header of `id` is, given whether a fetcher is attached.
    pub fn resolve(&self, id: BlockId, attached: bool) -> (r: Result<Resolution, ClientError>)
        requires
            self.store().inv(),
        ensures
            r == resolution(self.store(), id, attached),
    {
        match self.storage.header(id) {
            Err(e) => Err(e),
            Ok(Some(h)) => Ok(Resolution::Local(Some(h))),
            Ok(None) => {
                let number = match id {
                    BlockId::Hash(hash) => match self.storage.number(hash) {
                        Err(e) => {
                            return Err(e);
                        },
                        Ok(None) => {
                            return Ok(Resolution::Local(None));
                        },
                        Ok(Some(n)) => n,
                    },
                    BlockId::Number(n) => n,
                };
                // genesis is never pruned, so never fetched
                if number == 0 {
                    return Ok(Resolution::Local(None));
                }
                match self.storage.status(BlockId::Number(number)) {
                    Err(e) => Err(e),
                    Ok(BlockStatus::Unknown) => Ok(Resolution::Local(None)),
                    Ok(BlockStatus::InChain) => if !attached {
                        Err(ClientError::NotAvailableOnLightClient)
                    } else {
                        match self.storage.header_cht_root(SIZE, number) {
                            Err(e) => Err(e),
                            Ok(root) => Ok(
                                Resolution::Remote(
                                    RemoteHeaderRequest { cht_root: root, block: number, retry_count: None },
                                ),
                            ),
                        }
                    },
                }
            },
        }
    }

    /// The header of `id`, fetched through `fetcher` when it is pruned locally.
    pub fn header_with(&self, id: BlockId, fetcher: Option<&F>) -> (r: Result<Option<Header>, ClientError>)
        requires
            self.store().inv(),
        ensures
            answers(resolution(self.store(), id, fetcher is Some), deref_fetcher(fetcher), r),
    {
        match self.resolve(id, fetcher.is_some()) {
            Err(e) => Err(e),
            Ok(Resolution::Local(o)) => Ok(o),
            Ok(Resolution::Remote(request)) => match fetcher {
                Some(f) => {
                    let fetched = f.remote_header(request);
                    let r = match fetched {
                        Ok(h) => Ok(Some(h)),
                        Err(e) => Err(e),
                    };
                    proof {
                        assert(f.fetched(request, fetched) && r == from_fetch(fetched));
                        assert(deref_fetcher(fetcher) == Some(*f));
                        assert(resolution(self.store(), id, fetcher is Some) == Ok::<Resolution, ClientError>(Resolution::Remote(request)));
                        let g = deref_fetcher(fetcher)->Some_0;
                        assert(g.fetched(request, fetched));
                    }
                    r
                },
                None => Err(ClientError::NotAvailableOnLightClient),
            },
        }
    }

    /// The header of `id`: from storage when retained, fetched through the
    /// attached fetcher when pruned, `None` when the block is unknown.
    pub fn header(&self, id: BlockId) -> (r: Result<Option<Header>, ClientError>)
        requires
            self.store().inv(),
        ensures
            answers(resolution(self.store(), id, false), None::<F>, r) || exists|f: F|
                answers(resolution(self.store(), id, true), Some(f), r),
    {
        let fetcher = self.fetcher();
        match &fetcher {
            Some(f) => {
                let fr: &F = &**f;
                let r = self.header_with(id, Some(fr));
                proof {
                    assert(answers(resolution(self.store(), id, true), Some(*fr), r));
                }
                r
            },
            None => self.header_with(id, None),
        }
    }

    /// A snapshot of the chain pointers, from storage.
    pub fn info(&self) -> (r: Result<ChainInfo, ClientError>)
        requires
            self.store().inv(),
        ensures
            r == self.store().spec_info(),
    {
        self.storage.info()
    }

    /// Whether the block is on a known chain, from storage.
    pub fn status(&self, id: BlockId) -> (r: Result<BlockStatus, ClientError>)
        requires
            self.store().inv(),
        ensures
            r == self.store().spec_status(id),
    {
        self.storage.status(id)
    }

    /// The number of the block with the given hash, from storage.
    pub fn number(&self, hash: BlockHash) -> (r: Result<Option<u64>, ClientError>)
        requires
            self.store().inv(),
        ensures
            r == self.store().spec_number(hash),
    {
        self.storage.number(hash)
    }

    /// The hash of the canonical block with the given number, from storage.
    pub fn hash(&self, number: u64) -> (r: Result<Option<BlockHash>, ClientError>)
        requires
            self.store().inv(),
        ensures
            r == self.store().spec_hash(number),
    {
        self.storage.hash(number)
    }

    /// The hash of the last finalized block, from storage.
    pub fn last_finalized(&self) -> (r: Result<BlockHash, ClientError>)
        requires
            self.store().inv(),
        ensures
            r == self.store().spec_last_finalized(),
    {
        self.storage.last_finalized()
    }

    /// The storage's authority cache, if it has one.
    pub fn cache(&self) -> (r: Option<&S::Cache>)
        requires
            self.store().inv(),
        ensures
            match r {
                Some(c) => self.store().spec_cache() == Some(*c),
                None => self.store().spec_cache() is None,
            },
    {
        self.storage.cache()
    }

    /// Block bodies are never kept by the light chain.
    pub fn body(&self, _id: BlockId) -> (r: Result<Option<Vec<Vec<u8>>>, ClientError>)
        ensures
            r is Ok && r->Ok_0 is None,
    {
        Ok(None)
    }

    /// Justifications are never kept by the light chain.
    pub fn justification(&self, _id: BlockId) -> (r: Result<Option<Vec<u8>>, ClientError>)
        ensures
            r is Ok && r->Ok_0 is None,
    {
        Ok(None)
    }
}

/// Genesis is never fetched: when storage holds no genesis header, `header`
/// of block number 0 resolves to `None`, whether or not a fetcher is attached.
pub proof fn lemma_genesis_never_fetched<S: Storage>(s: S, attached: bool)
    requires
        s.spec_header(BlockId::Number(0)) == Ok::<Option<Header>, ClientError>(None),
    ensures
        resolution(s, BlockId::Number(0), attached) == Ok::<Resolution, ClientError>(Resolution::Local(None)),
{
}

/// A block that storage lacks and reports `Unknown` resolves to `None`, and
/// the fetcher is not consulted.
pub proof fn lemma_unknown_never_fetched<S: Storage>(s: S, id: BlockId, number: u64, attached: bool)
    requires
        s.spec_header(id) == Ok::<Option<Header>, ClientError>(None),
        number_of(s, id) == Ok::<Option<u64>, ClientError>(Some(number)),
        s.spec_status(BlockId::Number(number)) == Ok::<BlockStatus, ClientError>(BlockStatus::Unknown),
    ensures
        resolution(s, id, attached) == Ok::<Resolution, ClientError>(Resolution::Local(None)),
{
}

/// A pruned block (missing locally, reported `InChain`, not genesis) cannot be
/// had without a fetcher: the answer is `NotAvailableOnLightClient`.
pub proof fn lemma_pruned_needs_fetcher<S: Storage>(s: S, id: BlockId, number: u64)
    requires
        s.spec_header(id) == Ok::<Option<Header>, ClientError>(None),
        number_of(s, id) == Ok::<Option<u64>, ClientError>(Some(number)),
        number != 0,
        s.spec_status(BlockId::Number(number)) == Ok::<BlockStatus, ClientError>(BlockStatus::InChain),
    ensures
        resolution(s, id, false) == Err::<Resolution, ClientError>(ClientError::NotAvailableOnLightClient),
{
}

/// With a fetcher attached, a pruned block is fetched by one request, for its
/// number and against the header CHT root that storage gives for it.
pub proof fn lemma_pruned_fetch_request<S: Storage>(s: S, id: BlockId, number: u64, root: BlockHash)
    requires
        s.spec_header(id) == Ok::<Option<Header>, ClientError>(None),
        number_of(s, id) == Ok::<Option<u64>, ClientError>(Some(number)),
        number != 0,
        s.spec_status(BlockId::Number(number)) == Ok::<BlockStatus, ClientError>(BlockStatus::InChain),
        s.spec_header_cht_root(SIZE, number) == Ok::<BlockHash, ClientError>(root),
    ensures
        resolution(s, id, true) == Ok::<Resolution, ClientError>(
            Resolution::Remote((RemoteHeaderRequest { cht_root: root, block: number, retry_count: None })),
        ),
{
}

} // verus!
