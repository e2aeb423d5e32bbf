//! An in-memory backend: a window of retained headers, the hashes of the
//! canonical chain, the CHT roots of pruned ranges, authority sets and an
//! auxiliary key/value store.
use vstd::prelude::*;
use crate::cht::{accumulator_number, cht_number_of};
use crate::consensus::AuthorityId;
use crate::storage::{AuthorityCache, AuxEntry, Storage, bytes_of};
use crate::types::{
    AddressingError, BlockHash, BlockId, BlockStatus, ChainInfo, ClientError, Header, NewBlockState,
    hash_eq,
};

verus! {

/// The root of one pruned range of blocks.
#[derive(Clone, Copy, Debug, PartialEq, Eq, Structural)]
pub struct ChtRoot {
    pub cht_size: u64,
    pub cht_number: u64,
    pub root: BlockHash,
}

pub open spec fn has_header(hs: Seq<Header>, hash: BlockHash) -> bool {
    exists|i: int| 0 <= i < hs.len() && hs[i].hash == hash
}

/// The header with the given hash among `hs`, if there is one.
pub open spec fn header_with_hash(hs: Seq<Header>, hash: BlockHash) -> Option<Header> {
    if has_header(hs, hash) {
        Some(hs[choose|i: int| 0 <= i < hs.len() && hs[i].hash == hash])
    } else {
        None
    }
}

/// Whether `h` is among the first `i` of `hs`.
pub open spec fn occurs_before(hs: Seq<Header>, h: Header, i: int) -> bool {
    exists|j: int| 0 <= j < i && hs[j] == h
}

pub open spec fn unique_hashes(hs: Seq<Header>) -> bool {
    forall|i: int, j: int|
        0 <= i < hs.len() && 0 <= j < hs.len() && #[trigger] hs[i].hash == #[trigger] hs[j].hash ==> i == j
}

pub open spec fn has_root(rs: Seq<ChtRoot>, cht_size: u64, cht_number: u64) -> bool {
    exists|i: int| 0 <= i < rs.len() && rs[i].cht_size == cht_size && rs[i].cht_number == cht_number
}

pub open spec fn unique_roots(rs: Seq<ChtRoot>) -> bool {
    forall|i: int, j: int|
        0 <= i < rs.len() && 0 <= j < rs.len() && (#[trigger] rs[i]).cht_size == (#[trigger] rs[j]).cht_size
            && rs[i].cht_number == rs[j].cht_number ==> i == j
}

/// The root stored for a range, if there is one.
pub open spec fn root_of(rs: Seq<ChtRoot>, cht_size: u64, cht_number: u64) -> Option<BlockHash> {
    if has_root(rs, cht_size, cht_number) {
        Some(
            rs[choose|i: int|
                0 <= i < rs.len() && rs[i].cht_size == cht_size && rs[i].cht_number == cht_number].root,
        )
    } else {
        None
    }
}

/// The root covering `block` among `rs`, or why there is none.
pub open spec fn cht_root_lookup(rs: Seq<ChtRoot>, cht_size: u64, block: u64) -> Result<BlockHash, ClientError> {
    if block == 0 {
        Err(ClientError::Addressing(AddressingError::ZeroBlock))
    } else if cht_size == 0 {
        Err(ClientError::Addressing(AddressingError::ZeroRangeSize))
    } else {
        let k = cht_number_of(cht_size, block) as u64;
        match root_of(rs, cht_size, k) {
            Some(root) => Ok(root),
            None => Err(ClientError::ChtRootNotFound { cht_size, cht_number: k }),
        }
    }
}

/// The canonical chain after `header` becomes its head: the blocks below it
/// are kept, those from its number on are replaced by it.
pub open spec fn chain_with_head(canon: Seq<BlockHash>, header: Header) -> Seq<BlockHash> {
    canon.subrange(0, header.number as int).push(header.hash)
}

/// Whether a header lies in a range that is pruned.
pub open spec fn in_range(cht_size: u64, cht_number: u64, number: u64) -> bool {
    cht_number * cht_size < number && number <= (cht_number + 1) * cht_size
}

pub open spec fn unique_keys(es: Seq<AuxEntry>) -> bool {
    forall|i: int, j: int| 0 <= i < es.len() && 0 <= j < es.len() && (#[trigger] es[i]).0@ == (#[trigger] es[j]).0@ ==> i == j
}

pub open spec fn has_key(es: Seq<AuxEntry>, key: Seq<u8>) -> bool {
    exists|i: int| 0 <= i < es.len() && es[i].0@ == key
}

/// The value stored under `key` among `es`.
pub open spec fn value_in(es: Seq<AuxEntry>, key: Seq<u8>) -> Option<Seq<u8>> {
    if has_key(es, key) {
        bytes_of(es[choose|i: int| 0 <= i < es.len() && es[i].0@ == key].1)
    } else {
        None
    }
}

/// The value under `key` once `ops` are applied in order to a store holding
/// `before` there: the last operation on `key` decides; `None` deletes.
pub open spec fn value_after_ops(ops: Seq<AuxEntry>, key: Seq<u8>, before: Option<Seq<u8>>) -> Option<Seq<u8>>
    decreases ops.len(),
{
    if ops.len() == 0 {
        before
    } else if ops.last().0@ == key {
        bytes_of(ops.last().1)
    } else {
        value_after_ops(ops.drop_last(), key, before)
    }
}

/// The value under `key` once the `inserts` are written in order.
pub open spec fn value_after_inserts(
    inserts: Seq<(Vec<u8>, Vec<u8>)>,
    key: Seq<u8>,
    before: Option<Seq<u8>>,
) -> Option<Seq<u8>>
    decreases inserts.len(),
{
    if inserts.len() == 0 {
        before
    } else if inserts.last().0@ == key {
        Some(inserts.last().1@)
    } else {
        value_after_inserts(inserts.drop_last(), key, before)
    }
}

/// The value under `key` once the keys in `deletes` are removed.
pub open spec fn value_after_deletes(deletes: Seq<Vec<u8>>, key: Seq<u8>, before: Option<Seq<u8>>) -> Option<Seq<u8>> {
    if exists|i: int| 0 <= i < deletes.len() && deletes[i]@ == key {
        None
    } else {
        before
    }
}

fn bytes_eq(a: &[u8], b: &[u8]) -> (r: bool)
    ensures
        r == (a@ == b@),
{
    if a.len() != b.len() {
        return false;
    }
    let mut i: usize = 0;
    while i < a.len()
        invariant
            a@.len() == b@.len(),
            0 <= i <= a@.len(),
            forall|j: int| 0 <= j < i ==> a@[j] == b@[j],
        decreases a@.len() - i,
    {
        if a[i] != b[i] {
            return false;
        }
        i = i + 1;
    }
    assert(a@ =~= b@);
    true
}

fn copy_bytes(v: &[u8]) -> (r: Vec<u8>)
    ensures
        r@ == v@,
{
    let mut out: Vec<u8> = Vec::new();
    let mut i: usize = 0;
    while i < v.len()
        invariant
            0 <= i <= v@.len(),
            out@ == v@.subrange(0, i as int),
        decreases v@.len() - i,
    {
        out.push(v[i]);
        i = i + 1;
        assert(out@ =~= v@.subrange(0, i as int));
    }
    assert(out@ =~= v@);
    out
}

fn copy_value(v: &Option<Vec<u8>>) -> (r: Option<Vec<u8>>)
    ensures
        bytes_of(r) == bytes_of(*v),
{
    match v {
        Some(v) => Some(copy_bytes(v.as_slice())),
        None => None,
    }
}

/// The authority set of the last entry for `hash` among `es`.
pub open spec fn last_authorities(es: Seq<(BlockHash, Vec<AuthorityId>)>, hash: BlockHash) -> Option<Seq<AuthorityId>>
    decreases es.len(),
{
    if es.len() == 0 {
        None
    } else if es.last().0 == hash {
        Some(es.last().1@)
    } else {
        last_authorities(es.drop_last(), hash)
    }
}

fn copy_authorities(v: &Vec<AuthorityId>) -> (r: Vec<AuthorityId>)
    ensures
        r@ == v@,
{
    let mut out: Vec<AuthorityId> = Vec::new();
    let mut i: usize = 0;
    while i < v.len()
        invariant
            0 <= i <= v@.len(),
            out@ == v@.subrange(0, i as int),
        decreases v@.len() - i,
    {
        out.push(v[i]);
        i = i + 1;
        assert(out@ =~= v@.subrange(0, i as int));
    }
    assert(out@ =~= v@);
    out
}

/// Headers kept in memory: a window of retained headers (genesis always among
/// them), the hashes of the canonical chain (kept after pruning), the
/// finalized number, the roots of pruned ranges, the authority sets recorded
/// at imported blocks, and an auxiliary key/value store.
pub struct MemoryStorage {
    headers: Vec<Header>,
    canon: Vec<BlockHash>,
    finalized: u64,
    header_roots: Vec<ChtRoot>,
    changes_roots: Vec<ChtRoot>,
    aux: Vec<AuxEntry>,
    authorities: Vec<(BlockHash, Vec<AuthorityId>)>,
}

impl MemoryStorage {
    /// The storage's invariant.
    pub closed spec fn well_formed(self) -> bool {
        &&& 1 <= self.canon@.len() <= u64::MAX as int + 1
        &&& self.finalized < self.canon@.len()
        &&& unique_hashes(self.headers@)
        &&& unique_roots(self.header_roots@)
        &&& unique_roots(self.changes_roots@)
        &&& unique_keys(self.aux@)
        &&& self.headers@.len() > 0
        &&& self.headers@[0].hash == self.canon@[0]
        &&& self.headers@[0].number == 0
    }

    /// The authority set recorded at the block with hash `hash`.
    pub closed spec fn authorities_of(self, hash: BlockHash) -> Option<Seq<AuthorityId>> {
        last_authorities(self.authorities@, hash)
    }

    /// The value of the auxiliary store under `key`.
    pub closed spec fn aux_value(self, key: Seq<u8>) -> Option<Seq<u8>> {
        value_in(self.aux@, key)
    }

    /// The headers retained locally.
    pub closed spec fn retained(self) -> Seq<Header> {
        self.headers@
    }

    /// The hashes of the canonical chain, indexed by number; genesis first.
    pub closed spec fn canonical(self) -> Seq<BlockHash> {
        self.canon@
    }

    /// The number of the last finalized block.
    pub closed spec fn finalized_number(self) -> u64 {
        self.finalized
    }

    /// The roots of the pruned ranges of the header CHT.
    pub closed spec fn header_roots(self) -> Seq<ChtRoot> {
        self.header_roots@
    }

    /// The roots of the pruned ranges of the changes-trie CHT.
    pub closed spec fn changes_roots(self) -> Seq<ChtRoot> {
        self.changes_roots@
    }

    pub open spec fn is_canonical(self, header: Header) -> bool {
        header.number < self.canonical().len() && self.canonical()[header.number as int] == header.hash
    }

    /// Why `import_header(header, state)` is refused, if it is.
    pub open spec fn import_error(self, header: Header, state: NewBlockState) -> Option<ClientError> {
        if has_header(self.retained(), header.hash) {
            Some(ClientError::DuplicateHeader(header.hash))
        } else if state == NewBlockState::Normal {
            None
        } else if header.number == 0 || header.number > self.canonical().len() {
            Some(ClientError::InvalidNumber(header.number))
        } else if header.number <= self.finalized_number() {
            Some(ClientError::CannotRevertFinalized)
        } else if self.canonical()[header.number - 1] != header.parent_hash {
            Some(ClientError::NonCanonicalParent(header.parent_hash))
        } else {
            None
        }
    }

    /// What a successful `import_header(header, state)` makes of `self`.
    pub open spec fn imported(self, next: Self, header: Header, state: NewBlockState) -> bool {
        &&& next.retained() == self.retained().push(header)
        &&& next.header_roots() == self.header_roots()
        &&& next.changes_roots() == self.changes_roots()
        &&& next.canonical() == if state == NewBlockState::Normal {
            self.canonical()
        } else {
            chain_with_head(self.canonical(), header)
        }
        &&& next.finalized_number() == if state == NewBlockState::Final {
            header.number
        } else {
            self.finalized_number()
        }
    }

    /// The number that `finalize_header(id)` would finalize, or why it fails.
    pub open spec fn finalize_target(self, id: BlockId) -> Result<u64, ClientError> {
        let target = match id {
            BlockId::Number(n) => if n < self.canonical().len() {
                Some(n)
            } else {
                None
            },
            BlockId::Hash(h) => match header_with_hash(self.retained(), h) {
                Some(header) => if self.is_canonical(header) {
                    Some(header.number)
                } else {
                    None
                },
                None => None,
            },
        };
        match target {
            None => Err(ClientError::UnknownBlock(id)),
            Some(n) => if n < self.finalized_number() {
                Err(ClientError::CannotRevertFinalized)
            } else {
                Ok(n)
            },
        }
    }

    /// Why `prune_headers(cht_size, cht_number, root)` is refused, if it is.
    pub open spec fn prune_error(self, cht_size: u64, cht_number: u64) -> Option<ClientError> {
        if cht_size == 0 {
            Some(ClientError::Addressing(AddressingError::ZeroRangeSize))
        } else if (cht_number + 1) * cht_size > self.finalized_number() {
            Some(ClientError::RangeNotFinalized { cht_size, cht_number })
        } else if has_root(self.header_roots(), cht_size, cht_number) {
            Some(ClientError::DuplicateChtRoot { cht_size, cht_number })
        } else {
            None
        }
    }

    /// Why `insert_changes_trie_cht_root(cht_size, cht_number, root)` is refused, if it is.
    pub open spec fn changes_root_error(self, cht_size: u64, cht_number: u64) -> Option<ClientError> {
        if cht_size == 0 {
            Some(ClientError::Addressing(AddressingError::ZeroRangeSize))
        } else if has_root(self.changes_roots(), cht_size, cht_number) {
            Some(ClientError::DuplicateChtRoot { cht_size, cht_number })
        } else {
            None
        }
    }

    /// A storage holding only the genesis header, which is final.
    pub fn new(genesis: Header) -> (r: Self)
        requires
            genesis.number == 0,
        ensures
            r.retained() == seq![genesis],
            r.canonical() == seq![genesis.hash],
            r.finalized_number() == 0,
            r.header_roots() == Seq::<ChtRoot>::empty(),
            r.changes_roots() == Seq::<ChtRoot>::empty(),
            r.well_formed(),
            forall|k: Seq<u8>| r.aux_value(k) is None,
    {
        let headers = vec![genesis];
        let canon = vec![genesis.hash];
        MemoryStorage {
            headers,
            canon,
            finalized: 0,
            header_roots: Vec::new(),
            changes_roots: Vec::new(),
            aux: Vec::new(),
            authorities: Vec::new(),
        }
    }

    fn find_header(&self, hash: &BlockHash) -> (r: Option<Header>)
        requires
            self.well_formed(),
        ensures
            r == header_with_hash(self.retained(), *hash),
    {
        let mut i: usize = 0;
        while i < self.headers.len()
            invariant
                0 <= i <= self.headers@.len(),
                unique_hashes(self.headers@),
                forall|j: int| 0 <= j < i ==> self.headers@[j].hash != *hash,
            decreases self.headers@.len() - i,
        {
            if hash_eq(&self.headers[i].hash, hash) {
                let ghost hs = self.headers@;
                proof {
                    assert(hs[i as int].hash == *hash);
                    assert(has_header(hs, *hash));
                    let c = choose|j: int| 0 <= j < hs.len() && hs[j].hash == *hash;
                    assert(hs[c].hash == hs[i as int].hash);
                }
                return Some(self.headers[i]);
            }
            i = i + 1;
        }
        None
    }

    fn find_root(rs: &Vec<ChtRoot>, cht_size: u64, block: u64) -> (r: Result<BlockHash, ClientError>)
        requires
            unique_roots(rs@),
        ensures
            r == cht_root_lookup(rs@, cht_size, block),
    {
        let k = match accumulator_number(cht_size, block) {
            Ok(k) => k,
            Err(e) => {
                return Err(ClientError::Addressing(e));
            },
        };
        let mut i: usize = 0;
        while i < rs.len()
            invariant
                0 <= i <= rs@.len(),
                unique_roots(rs@),
                block != 0,
                cht_size != 0,
                k == cht_number_of(cht_size, block) as u64,
                forall|j: int| 0 <= j < i ==> !(rs@[j].cht_size == cht_size && rs@[j].cht_number == k),
            decreases rs@.len() - i,
        {
            if rs[i].cht_size == cht_size && rs[i].cht_number == k {
                proof {
                    assert(has_root(rs@, cht_size, k));
                    let c = choose|j: int|
                        0 <= j < rs@.len() && rs@[j].cht_size == cht_size && rs@[j].cht_number == k;
                    assert(rs@[c].cht_size == rs@[i as int].cht_size);
                }
                return Ok(rs[i].root);
            }
            i = i + 1;
        }
        Err(ClientError::ChtRootNotFound { cht_size, cht_number: k })
    }
}

impl MemoryStorage {
    fn is_below_tip(&self, number: u64) -> (r: bool)
        ensures
            r == (number < self.canonical().len()),
    {
        (number as u128) < (self.canon.len() as u128)
    }

    fn canonical_at(&self, number: u64) -> (r: BlockHash)
        requires
            number < self.canonical().len(),
        ensures
            r == self.canonical()[number as int],
    {
        // the length is a usize, so the index fits one
        let len = self.canon.len();
        assert(number < len);
        self.canon[number as usize]
    }
}

impl MemoryStorage {
    /// Whether a header stays when range `cht_number` of `cht_size` blocks is pruned.
    pub open spec fn survives_pruning(self, cht_size: u64, cht_number: u64, header: Header) -> bool {
        !(self.is_canonical(header) && in_range(cht_size, cht_number, header.number))
    }

    fn contains_root(rs: &Vec<ChtRoot>, cht_size: u64, cht_number: u64) -> (r: bool)
        ensures
            r == has_root(rs@, cht_size, cht_number),
    {
        let mut i: usize = 0;
        while i < rs.len()
            invariant
                0 <= i <= rs@.len(),
                forall|j: int| 0 <= j < i ==> !(rs@[j].cht_size == cht_size && rs@[j].cht_number == cht_number),
            decreases rs@.len() - i,
        {
            if rs[i].cht_size == cht_size && rs[i].cht_number == cht_number {
                return true;
            }
            i = i + 1;
        }
        false
    }

    fn find_aux(&self, key: &[u8]) -> (r: Option<usize>)
        requires
            self.well_formed(),
        ensures
            match r {
                Some(i) => i < self.aux@.len() && self.aux@[i as int].0@ == key@,
                None => !has_key(self.aux@, key@),
            },
    {
        let mut i: usize = 0;
        while i < self.aux.len()
            invariant
                0 <= i <= self.aux@.len(),
                forall|j: int| 0 <= j < i ==> self.aux@[j].0@ != key@,
            decreases self.aux@.len() - i,
        {
            if bytes_eq(self.aux[i].0.as_slice(), key) {
                return Some(i);
            }
            i = i + 1;
        }
        None
    }

    fn get_aux_value(&self, key: &[u8]) -> (r: Option<Vec<u8>>)
        requires
            self.well_formed(),
        ensures
            bytes_of(r) == self.aux_value(key@),
    {
        match self.find_aux(key) {
            Some(i) => {
                proof {
                    let es = self.aux@;
                    assert(has_key(es, key@));
                    let c = choose|j: int| 0 <= j < es.len() && es[j].0@ == key@;
                    assert(es[c].0@ == es[i as int].0@);
                }
                copy_value(&self.aux[i].1)
            },
            None => None,
        }
    }

    /// Writes `value` under `key`; `None` deletes.
    fn set_aux(&mut self, key: &[u8], value: &Option<Vec<u8>>)
        requires
            old(self).well_formed(),
        ensures
            final(self).well_formed(),
            forall|k: Seq<u8>| #[trigger] final(self).aux_value(k) == if k == key@ {
                bytes_of(*value)
            } else {
                old(self).aux_value(k)
            },
            final(self).retained() == old(self).retained(),
            final(self).canonical() == old(self).canonical(),
            final(self).finalized_number() == old(self).finalized_number(),
            final(self).header_roots() == old(self).header_roots(),
            final(self).changes_roots() == old(self).changes_roots(),
            final(self).authorities@ == old(self).authorities@,
    {
        let ghost before = self.aux@;
        let entry = (copy_bytes(key), copy_value(value));
        match self.find_aux(key) {
            Some(i) => {
                self.aux.set(i, entry);
                proof {
                    let es = self.aux@;
                    assert forall|a: int, b: int|
                        0 <= a < es.len() && 0 <= b < es.len() && (#[trigger] es[a]).0@ == (#[trigger] es[b]).0@
                        implies a == b by {
                        if a != i && b != i {
                            assert(before[a] == es[a] && before[b] == es[b]);
                        } else if a == i && b != i {
                            assert(before[b] == es[b]);
                            assert(before[b].0@ == before[i as int].0@);
                        } else if b == i && a != i {
                            assert(before[a] == es[a]);
                            assert(before[a].0@ == before[i as int].0@);
                        }
                    }
                    assert forall|k: Seq<u8>| #[trigger] value_in(es, k) == if k == key@ {
                        bytes_of(*value)
                    } else {
                        value_in(before, k)
                    } by {
                        if k == key@ {
                            assert(es[i as int].0@ == k);
                            assert(has_key(es, k));
                            let c = choose|j: int| 0 <= j < es.len() && es[j].0@ == k;
                            assert(es[c].0@ == es[i as int].0@);
                        } else {
                            if has_key(es, k) {
                                let c = choose|j: int| 0 <= j < es.len() && es[j].0@ == k;
                                assert(before[c] == es[c]);
                                assert(has_key(before, k));
                                let d = choose|j: int| 0 <= j < before.len() && before[j].0@ == k;
                                assert(before[d] == es[d]);
                                assert(es[c].0@ == es[d].0@);
                            } else if has_key(before, k) {
                                let d = choose|j: int| 0 <= j < before.len() && before[j].0@ == k;
                                assert(before[d] == es[d]);
                            }
                        }
                    }
                }
            },
            None => {
                self.aux.push(entry);
                proof {
                    let es = self.aux@;
                    let n = before.len() as int;
                    assert forall|a: int, b: int|
                        0 <= a < es.len() && 0 <= b < es.len() && (#[trigger] es[a]).0@ == (#[trigger] es[b]).0@
                        implies a == b by {
                        if a < n && b == n {
                            assert(before[a] == es[a]);
                        } else if b < n && a == n {
                            assert(before[b] == es[b]);
                        } else if a < n && b < n {
                            assert(before[a] == es[a] && before[b] == es[b]);
                        }
                    }
                    assert forall|k: Seq<u8>| #[trigger] value_in(es, k) == if k == key@ {
                        bytes_of(*value)
                    } else {
                        value_in(before, k)
                    } by {
                        if k == key@ {
                            assert(es[n].0@ == k);
                            assert(has_key(es, k));
                            let c = choose|j: int| 0 <= j < es.len() && es[j].0@ == k;
                            assert(es[c].0@ == es[n].0@);
                        } else {
                            if has_key(es, k) {
                                let c = choose|j: int| 0 <= j < es.len() && es[j].0@ == k;
                                assert(c != n);
                                assert(before[c] == es[c]);
                                assert(has_key(before, k));
                                let d = choose|j: int| 0 <= j < before.len() && before[j].0@ == k;
                                assert(before[d] == es[d]);
                                assert(es[c].0@ == es[d].0@);
                            } else if has_key(before, k) {
                                let d = choose|j: int| 0 <= j < before.len() && before[j].0@ == k;
                                assert(before[d] == es[d]);
                            }
                        }
                    }
                }
            },
        }
    }

    fn apply_aux_ops(&mut self, ops: &Vec<AuxEntry>)
        requires
            old(self).well_formed(),
        ensures
            final(self).well_formed(),
            forall|k: Seq<u8>| #[trigger] final(self).aux_value(k) == value_after_ops(ops@, k, old(self).aux_value(k)),
            final(self).retained() == old(self).retained(),
            final(self).canonical() == old(self).canonical(),
            final(self).finalized_number() == old(self).finalized_number(),
            final(self).header_roots() == old(self).header_roots(),
            final(self).changes_roots() == old(self).changes_roots(),
            final(self).authorities@ == old(self).authorities@,
    {
        let ghost start = *self;
        let mut i: usize = 0;
        while i < ops.len()
            invariant
                0 <= i <= ops@.len(),
                self.well_formed(),
                forall|k: Seq<u8>| #[trigger] self.aux_value(k) == value_after_ops(ops@.subrange(0, i as int), k, start.aux_value(k)),
                self.retained() == start.retained(),
                self.canonical() == start.canonical(),
                self.finalized_number() == start.finalized_number(),
                self.header_roots() == start.header_roots(),
                self.changes_roots() == start.changes_roots(),
                self.authorities@ == start.authorities@,
            decreases ops@.len() - i,
        {
            self.set_aux(ops[i].0.as_slice(), &ops[i].1);
            proof {
                let sub = ops@.subrange(0, i as int + 1);
                assert(sub.drop_last() =~= ops@.subrange(0, i as int));
                assert(sub.last() == ops@[i as int]);
            }
            i = i + 1;
        }
        proof {
            assert(ops@.subrange(0, ops@.len() as int) =~= ops@);
        }
    }

    /// Drops the retained canonical headers of range `cht_number` of
    /// `cht_size` blocks and keeps `root` in their place. Only a range whose
    /// blocks are all finalized can be pruned; a failure changes nothing.
    pub fn prune_headers(&mut self, cht_size: u64, cht_number: u64, root: BlockHash) -> (r: Result<(), ClientError>)
        requires
            old(self).well_formed(),
        ensures
            final(self).well_formed(),
            r == match old(self).prune_error(cht_size, cht_number) {
                Some(e) => Err(e),
                None => Ok(()),
            },
            r is Err ==> *final(self) == *old(self),
            r is Ok ==> final(self).retained() == old(self).retained().filter(
                |h: Header| old(self).survives_pruning(cht_size, cht_number, h),
            ),
            r is Ok ==> final(self).header_roots() == old(self).header_roots().push(
                (ChtRoot { cht_size, cht_number, root }),
            ),
            r is Ok ==> final(self).canonical() == old(self).canonical(),
            r is Ok ==> final(self).finalized_number() == old(self).finalized_number(),
            r is Ok ==> final(self).changes_roots() == old(self).changes_roots(),
            forall|k: Seq<u8>| #[trigger] final(self).aux_value(k) == old(self).aux_value(k),
            forall|h: BlockHash| #[trigger] final(self).authorities_of(h) == old(self).authorities_of(h),
    {
        if cht_size == 0 {
            return Err(ClientError::Addressing(AddressingError::ZeroRangeSize));
        }
        let next = match cht_number.checked_add(1) {
            Some(next) => next,
            None => {
                assert((cht_number + 1) * cht_size > self.finalized) by (nonlinear_arith)
                    requires
                        cht_number + 1 > u64::MAX,
                        cht_size >= 1,
                        self.finalized <= u64::MAX,
                ;
                return Err(ClientError::RangeNotFinalized { cht_size, cht_number });
            },
        };
        let end = match next.checked_mul(cht_size) {
            Some(end) => end,
            None => {
                assert((cht_number + 1) * cht_size > self.finalized);
                return Err(ClientError::RangeNotFinalized { cht_size, cht_number });
            },
        };
        if end > self.finalized {
            return Err(ClientError::RangeNotFinalized { cht_size, cht_number });
        }
        assert(end >= cht_size) by (nonlinear_arith)
            requires
                end == next * cht_size,
                next >= 1,
        ;
        if MemoryStorage::contains_root(&self.header_roots, cht_size, cht_number) {
            return Err(ClientError::DuplicateChtRoot { cht_size, cht_number });
        }
        let start = end - cht_size;
        assert(start == cht_number * cht_size) by (nonlinear_arith)
            requires
                end == (cht_number + 1) * cht_size,
                start == end - cht_size,
        ;
        let ghost old_self = *self;
        let ghost pred = |h: Header| old_self.survives_pruning(cht_size, cht_number, h);
        let mut kept: Vec<Header> = Vec::new();
        let mut i: usize = 0;
        while i < self.headers.len()
            invariant
                *self == old_self,
                old_self.well_formed(),
                0 <= i <= self.headers@.len(),
                start == cht_number * cht_size,
                end == (cht_number + 1) * cht_size,
                pred == (|h: Header| old_self.survives_pruning(cht_size, cht_number, h)),
                kept@ == self.headers@.subrange(0, i as int).filter(pred),
                unique_hashes(kept@),
                i > 0 ==> kept@.len() > 0 && kept@[0] == self.headers@[0],
                forall|a: int| 0 <= a < kept@.len() ==> occurs_before(self.headers@, #[trigger] kept@[a], i as int),
            decreases self.headers@.len() - i,
        {
            let h = self.headers[i];
            let canonical = self.is_below_tip(h.number) && hash_eq(&self.canonical_at(h.number), &h.hash);
            let pruned = canonical && start < h.number && h.number <= end;
            let ghost before = kept@;
            proof {
                let sub = self.headers@.subrange(0, i as int + 1);
                assert(sub.drop_last() =~= self.headers@.subrange(0, i as int));
                reveal(Seq::filter);
                assert(sub.last() == h);
            }
            if !pruned {
                kept.push(h);
                proof {
                    assert forall|a: int, b: int|
                        0 <= a < kept@.len() && 0 <= b < kept@.len() && #[trigger] kept@[a].hash
                            == #[trigger] kept@[b].hash implies a == b by {
                        if a < before.len() && b == before.len() {
                            let j = choose|j: int| 0 <= j < i && self.headers@[j] == before[a];
                            assert(self.headers@[j].hash == self.headers@[i as int].hash);
                        } else if b < before.len() && a == before.len() {
                            let j = choose|j: int| 0 <= j < i && self.headers@[j] == before[b];
                            assert(self.headers@[j].hash == self.headers@[i as int].hash);
                        }
                    }
                    assert forall|a: int| 0 <= a < kept@.len() implies occurs_before(
                        self.headers@,
                        #[trigger] kept@[a],
                        i + 1,
                    ) by {
                        if a == before.len() {
                            assert(kept@[a] == self.headers@[i as int]);
                        } else {
                            assert(kept@[a] == before[a]);
                            assert(occurs_before(self.headers@, before[a], i as int));
                        }
                    }
                }
            }
            i = i + 1;
        }
        proof {
            assert(self.headers@.subrange(0, self.headers@.len() as int) =~= self.headers@);
        }
        self.headers = kept;
        self.header_roots.push(ChtRoot { cht_size, cht_number, root });
        proof {
            let rs = self.header_roots@;
            assert forall|a: int, b: int|
                0 <= a < rs.len() && 0 <= b < rs.len() && (#[trigger] rs[a]).cht_size == (#[trigger] rs[b]).cht_size
                    && rs[a].cht_number == rs[b].cht_number implies a == b by {
                if a < rs.len() - 1 && b == rs.len() - 1 {
                    assert(has_root(old_self.header_roots(), cht_size, cht_number));
                } else if b < rs.len() - 1 && a == rs.len() - 1 {
                    assert(has_root(old_self.header_roots(), cht_size, cht_number));
                }
            }
        }
        Ok(())
    }

    /// Keeps `root` as the root of range `cht_number` of the changes-trie CHT.
    /// A failure changes nothing.
    pub fn insert_changes_trie_cht_root(&mut self, cht_size: u64, cht_number: u64, root: BlockHash) -> (r: Result<
        (),
        ClientError,
    >)
        requires
            old(self).well_formed(),
        ensures
            final(self).well_formed(),
            r == match old(self).changes_root_error(cht_size, cht_number) {
                Some(e) => Err(e),
                None => Ok(()),
            },
            r is Err ==> *final(self) == *old(self),
            r is Ok ==> final(self).changes_roots() == old(self).changes_roots().push(
                (ChtRoot { cht_size, cht_number, root }),
            ),
            r is Ok ==> final(self).retained() == old(self).retained(),
            r is Ok ==> final(self).canonical() == old(self).canonical(),
            r is Ok ==> final(self).finalized_number() == old(self).finalized_number(),
            r is Ok ==> final(self).header_roots() == old(self).header_roots(),
            forall|k: Seq<u8>| #[trigger] final(self).aux_value(k) == old(self).aux_value(k),
            forall|h: BlockHash| #[trigger] final(self).authorities_of(h) == old(self).authorities_of(h),
    {
        if cht_size == 0 {
            return Err(ClientError::Addressing(AddressingError::ZeroRangeSize));
        }
        if MemoryStorage::contains_root(&self.changes_roots, cht_size, cht_number) {
            return Err(ClientError::DuplicateChtRoot { cht_size, cht_number });
        }
        let ghost old_roots = self.changes_roots@;
        self.changes_roots.push(ChtRoot { cht_size, cht_number, root });
        proof {
            let rs = self.changes_roots@;
            assert forall|a: int, b: int|
                0 <= a < rs.len() && 0 <= b < rs.len() && (#[trigger] rs[a]).cht_size == (#[trigger] rs[b]).cht_size
                    && rs[a].cht_number == rs[b].cht_number implies a == b by {
                if a < rs.len() - 1 && b == rs.len() - 1 {
                    assert(old_roots[a] == rs[a]);
                } else if b < rs.len() - 1 && a == rs.len() - 1 {
                    assert(old_roots[b] == rs[b]);
                }
            }
        }
        Ok(())
    }
}

impl MemoryStorage {
    /// The authority set that `authorities_at(block)` gives.
    pub open spec fn authorities_at_block(self, block: BlockId) -> Option<Seq<AuthorityId>> {
        match block {
            BlockId::Hash(h) => self.authorities_of(h),
            BlockId::Number(n) => if n < self.canonical().len() {
                self.authorities_of(self.canonical()[n as int])
            } else {
                None
            },
        }
    }

    fn find_authorities(&self, hash: &BlockHash) -> (r: Option<Vec<AuthorityId>>)
        ensures
            match r {
                Some(a) => self.authorities_of(*hash) == Some(a@),
                None => self.authorities_of(*hash) is None,
            },
    {
        let mut i: usize = self.authorities.len();
        proof {
            assert(self.authorities@.subrange(0, i as int) =~= self.authorities@);
        }
        while i > 0
            invariant
                0 <= i <= self.authorities@.len(),
                last_authorities(self.authorities@, *hash) == last_authorities(self.authorities@.subrange(0, i as int), *hash),
            decreases i,
        {
            let ghost sub = self.authorities@.subrange(0, i as int);
            if hash_eq(&self.authorities[i - 1].0, hash) {
                return Some(copy_authorities(&self.authorities[i - 1].1));
            }
            proof {
                assert(sub.drop_last() =~= self.authorities@.subrange(0, i - 1));
            }
            i = i - 1;
        }
        None
    }
}

impl AuthorityCache for MemoryStorage {
    fn authorities_at(&self, block: BlockId) -> (r: Option<Vec<AuthorityId>>)
        ensures
            match r {
                Some(a) => self.authorities_at_block(block) == Some(a@),
                None => self.authorities_at_block(block) is None,
            },
    {
        match block {
            BlockId::Hash(h) => self.find_authorities(&h),
            BlockId::Number(n) => if self.is_below_tip(n) {
                let h = self.canonical_at(n);
                self.find_authorities(&h)
            } else {
                None
            },
        }
    }
}

impl Storage for MemoryStorage {
    open spec fn inv(&self) -> bool {
        self.well_formed()
    }

    type Cache = MemoryStorage;

    open spec fn spec_cache(&self) -> Option<MemoryStorage> {
        Some(*self)
    }

    fn cache(&self) -> (r: Option<&MemoryStorage>) {
        Some(self)
    }

    open spec fn spec_aux(&self, key: Seq<u8>) -> Result<Option<Seq<u8>>, ClientError> {
        Ok(self.aux_value(key))
    }

    fn get_aux(&self, key: &[u8]) -> (r: Result<Option<Vec<u8>>, ClientError>) {
        Ok(self.get_aux_value(key))
    }

    fn insert_aux(&mut self, inserts: &Vec<(Vec<u8>, Vec<u8>)>, deletes: &Vec<Vec<u8>>) -> (r: Result<(), ClientError>)
        ensures
            r is Ok,
            forall|k: Seq<u8>| #[trigger] final(self).aux_value(k) == value_after_deletes(
                deletes@,
                k,
                value_after_inserts(inserts@, k, old(self).aux_value(k)),
            ),
            final(self).retained() == old(self).retained(),
            final(self).canonical() == old(self).canonical(),
            final(self).finalized_number() == old(self).finalized_number(),
            final(self).header_roots() == old(self).header_roots(),
            final(self).changes_roots() == old(self).changes_roots(),
    {
        let ghost start = *self;
        let mut i: usize = 0;
        while i < inserts.len()
            invariant
                0 <= i <= inserts@.len(),
                self.well_formed(),
                forall|k: Seq<u8>| #[trigger] self.aux_value(k) == value_after_inserts(inserts@.subrange(0, i as int), k, start.aux_value(k)),
                self.retained() == start.retained(),
                self.canonical() == start.canonical(),
                self.finalized_number() == start.finalized_number(),
                self.header_roots() == start.header_roots(),
                self.changes_roots() == start.changes_roots(),
            decreases inserts@.len() - i,
        {
            let value = Some(copy_bytes(inserts[i].1.as_slice()));
            self.set_aux(inserts[i].0.as_slice(), &value);
            proof {
                let sub = inserts@.subrange(0, i as int + 1);
                assert(sub.drop_last() =~= inserts@.subrange(0, i as int));
                assert(sub.last() == inserts@[i as int]);
            }
            i = i + 1;
        }
        proof {
            assert(inserts@.subrange(0, inserts@.len() as int) =~= inserts@);
        }
        let ghost middle = *self;
        let mut i: usize = 0;
        while i < deletes.len()
            invariant
                0 <= i <= deletes@.len(),
                self.well_formed(),
                forall|k: Seq<u8>| #[trigger] self.aux_value(k) == value_after_deletes(deletes@.subrange(0, i as int), k, middle.aux_value(k)),
                self.retained() == start.retained(),
                self.canonical() == start.canonical(),
                self.finalized_number() == start.finalized_number(),
                self.header_roots() == start.header_roots(),
                self.changes_roots() == start.changes_roots(),
            decreases deletes@.len() - i,
        {
            let ghost prev = *self;
            self.set_aux(deletes[i].as_slice(), &None);
            proof {
                let old_sub = deletes@.subrange(0, i as int);
                let sub = deletes@.subrange(0, i as int + 1);
                assert forall|k: Seq<u8>| #[trigger] self.aux_value(k) == value_after_deletes(sub, k, middle.aux_value(k)) by {
                    if k == deletes@[i as int]@ {
                        assert(sub[i as int]@ == k);
                    } else {
                        if exists|j: int| 0 <= j < sub.len() && sub[j]@ == k {
                            let j = choose|j: int| 0 <= j < sub.len() && sub[j]@ == k;
                            assert(old_sub[j]@ == k);
                        }
                        if exists|j: int| 0 <= j < old_sub.len() && old_sub[j]@ == k {
                            let j = choose|j: int| 0 <= j < old_sub.len() && old_sub[j]@ == k;
                            assert(sub[j]@ == k);
                        }
                    }
                }
            }
            i = i + 1;
        }
        proof {
            assert(deletes@.subrange(0, deletes@.len() as int) =~= deletes@);
        }
        Ok(())
    }

    open spec fn spec_header(&self, id: BlockId) -> Result<Option<Header>, ClientError> {
        match id {
            BlockId::Hash(h) => Ok(header_with_hash(self.retained(), h)),
            BlockId::Number(n) => if n < self.canonical().len() {
                Ok(header_with_hash(self.retained(), self.canonical()[n as int]))
            } else {
                Ok(None)
            },
        }
    }

    open spec fn spec_number(&self, hash: BlockHash) -> Result<Option<u64>, ClientError> {
        match header_with_hash(self.retained(), hash) {
            Some(h) => Ok(Some(h.number)),
            None => Ok(None),
        }
    }

    open spec fn spec_hash(&self, number: u64) -> Result<Option<BlockHash>, ClientError> {
        if number < self.canonical().len() {
            Ok(Some(self.canonical()[number as int]))
        } else {
            Ok(None)
        }
    }

    open spec fn spec_status(&self, id: BlockId) -> Result<BlockStatus, ClientError> {
        let known = match id {
            BlockId::Hash(h) => has_header(self.retained(), h),
            BlockId::Number(n) => n < self.canonical().len(),
        };
        if known {
            Ok(BlockStatus::InChain)
        } else {
            Ok(BlockStatus::Unknown)
        }
    }

    open spec fn spec_info(&self) -> Result<ChainInfo, ClientError> {
        Ok(
            ChainInfo {
                best_hash: self.canonical().last(),
                best_number: (self.canonical().len() - 1) as u64,
                genesis_hash: self.canonical()[0],
                finalized_hash: self.canonical()[self.finalized_number() as int],
                finalized_number: self.finalized_number(),
            },
        )
    }

    open spec fn spec_last_finalized(&self) -> Result<BlockHash, ClientError> {
        Ok(self.canonical()[self.finalized_number() as int])
    }

    open spec fn spec_header_cht_root(&self, cht_size: u64, block: u64) -> Result<BlockHash, ClientError> {
        cht_root_lookup(self.header_roots(), cht_size, block)
    }

    open spec fn spec_changes_trie_cht_root(&self, cht_size: u64, block: u64) -> Result<BlockHash, ClientError> {
        cht_root_lookup(self.changes_roots(), cht_size, block)
    }

    fn header(&self, id: BlockId) -> (r: Result<Option<Header>, ClientError>) {
        match id {
            BlockId::Hash(h) => Ok(self.find_header(&h)),
            BlockId::Number(n) => if self.is_below_tip(n) {
                let h = self.canonical_at(n);
                Ok(self.find_header(&h))
            } else {
                Ok(None)
            },
        }
    }

    fn number(&self, hash: BlockHash) -> (r: Result<Option<u64>, ClientError>) {
        match self.find_header(&hash) {
            Some(h) => Ok(Some(h.number)),
            None => Ok(None),
        }
    }

    fn hash(&self, number: u64) -> (r: Result<Option<BlockHash>, ClientError>) {
        if self.is_below_tip(number) {
            Ok(Some(self.canonical_at(number)))
        } else {
            Ok(None)
        }
    }

    fn status(&self, id: BlockId) -> (r: Result<BlockStatus, ClientError>) {
        let known = match id {
            BlockId::Hash(h) => self.find_header(&h).is_some(),
            BlockId::Number(n) => self.is_below_tip(n),
        };
        if known {
            Ok(BlockStatus::InChain)
        } else {
            Ok(BlockStatus::Unknown)
        }
    }

    fn info(&self) -> (r: Result<ChainInfo, ClientError>) {
        let last = self.canon.len() - 1;
        Ok(
            ChainInfo {
                best_hash: self.canon[last],
                best_number: last as u64,
                genesis_hash: self.canon[0],
                finalized_hash: self.canonical_at(self.finalized),
                finalized_number: self.finalized,
            },
        )
    }

    fn last_finalized(&self) -> (r: Result<BlockHash, ClientError>) {
        Ok(self.canonical_at(self.finalized))
    }

    fn header_cht_root(&self, cht_size: u64, block: u64) -> (r: Result<BlockHash, ClientError>) {
        MemoryStorage::find_root(&self.header_roots, cht_size, block)
    }

    fn changes_trie_cht_root(&self, cht_size: u64, block: u64) -> (r: Result<BlockHash, ClientError>) {
        MemoryStorage::find_root(&self.changes_roots, cht_size, block)
    }

    fn import_header(
        &mut self,
        header: Header,
        authorities: Option<Vec<AuthorityId>>,
        state: NewBlockState,
        aux_ops: Vec<AuxEntry>,
    ) -> (r: Result<(), ClientError>)
        ensures
            r == match old(self).import_error(header, state) {
                Some(e) => Err(e),
                None => Ok(()),
            },
            r is Ok ==> old(self).imported(*final(self), header, state),
            r is Ok ==> forall|k: Seq<u8>| #[trigger] final(self).aux_value(k) == value_after_ops(aux_ops@, k, old(self).aux_value(k)),
            r is Ok ==> forall|h: BlockHash| #[trigger] final(self).authorities_of(h) == match authorities {
                Some(a) => if h == header.hash {
                    Some(a@)
                } else {
                    old(self).authorities_of(h)
                },
                None => old(self).authorities_of(h),
            },
    {
        if self.find_header(&header.hash).is_some() {
            return Err(ClientError::DuplicateHeader(header.hash));
        }
        if state != NewBlockState::Normal {
            let n = header.number;
            if n == 0 || !(self.is_below_tip(n - 1)) {
                return Err(ClientError::InvalidNumber(n));
            }
            if n <= self.finalized {
                return Err(ClientError::CannotRevertFinalized);
            }
            if !hash_eq(&self.canonical_at(n - 1), &header.parent_hash) {
                return Err(ClientError::NonCanonicalParent(header.parent_hash));
            }
        }
        self.apply_aux_ops(&aux_ops);
        let ghost after_aux = *self;
        let ghost before_authorities = self.authorities@;
        if let Some(a) = authorities {
            self.authorities.push((header.hash, a));
            proof {
                assert(self.authorities@.drop_last() =~= before_authorities);
            }
        }
        let ghost applied = *self;
        if state != NewBlockState::Normal {
            let n = header.number;
            self.canon.truncate(n as usize);
            self.canon.push(header.hash);
            if state == NewBlockState::Final {
                self.finalized = n;
            }
        }
        let ghost hs = self.headers@;
        self.headers.push(header);
        proof {
            assert forall|i: int, j: int|
                0 <= i < self.headers@.len() && 0 <= j < self.headers@.len()
                    && #[trigger] self.headers@[i].hash == #[trigger] self.headers@[j].hash implies i == j by {
                if i < hs.len() && j == hs.len() {
                    assert(hs[i].hash == header.hash);
                } else if j < hs.len() && i == hs.len() {
                    assert(hs[j].hash == header.hash);
                }
            }
        }
        proof {
            assert(self.aux@ == applied.aux@);
            assert(self.aux@ == after_aux.aux@);
            assert forall|k: Seq<u8>| #[trigger] self.aux_value(k) == after_aux.aux_value(k) by {}
            assert(self.authorities@ == applied.authorities@);
            let last = self.headers@.len() - 1;
            assert(self.headers@[last] == header);
            assert(has_header(self.headers@, header.hash));
            let c = choose|j: int| 0 <= j < self.headers@.len() && self.headers@[j].hash == header.hash;
            assert(self.headers@[c].hash == self.headers@[last].hash);
            assert(header_with_hash(self.headers@, header.hash) == Some(header));
        }
        Ok(())
    }

    fn finalize_header(&mut self, id: BlockId) -> (r: Result<(), ClientError>)
        ensures
            r == match old(self).finalize_target(id) {
                Ok(_) => Ok::<(), ClientError>(()),
                Err(e) => Err(e),
            },
            r is Ok ==> final(self).finalized_number() == old(self).finalize_target(id)->Ok_0,
            final(self).retained() == old(self).retained(),
            final(self).canonical() == old(self).canonical(),
            final(self).header_roots() == old(self).header_roots(),
            final(self).changes_roots() == old(self).changes_roots(),
            forall|k: Seq<u8>| #[trigger] final(self).aux_value(k) == old(self).aux_value(k),
            forall|h: BlockHash| #[trigger] final(self).authorities_of(h) == old(self).authorities_of(h),
    {
        let target = match id {
            BlockId::Number(n) => if self.is_below_tip(n) {
                Some(n)
            } else {
                None
            },
            BlockId::Hash(h) => match self.find_header(&h) {
                Some(header) => if self.is_below_tip(header.number) && hash_eq(
                    &self.canonical_at(header.number),
                    &header.hash,
                ) {
                    Some(header.number)
                } else {
                    None
                },
                None => None,
            },
        };
        match target {
            None => Err(ClientError::UnknownBlock(id)),
            Some(n) => if n < self.finalized {
                Err(ClientError::CannotRevertFinalized)
            } else {
                self.finalized = n;
                Ok(())
            },
        }
    }
}

/// A best or final header is refused whenever making it the head would take
/// the last finalized block off the canonical chain.
pub proof fn lemma_finalized_never_reverted(s: MemoryStorage, header: Header, state: NewBlockState)
    requires
        s.well_formed(),
        state != NewBlockState::Normal,
        !({
            let c = chain_with_head(s.canonical(), header);
            header.number <= s.canonical().len() && s.finalized_number() < c.len()
                && c[s.finalized_number() as int] == s.canonical()[s.finalized_number() as int]
        }),
    ensures
        s.import_error(header, state) is Some,
{
    if s.import_error(header, state) is None {
        let c = chain_with_head(s.canonical(), header);
        assert(c[s.finalized_number() as int] == s.canonical()[s.finalized_number() as int]);
    }
}

/// A header imported as final becomes the last finalized block, and is then
/// in the chain both by its hash and by its number.
pub proof fn lemma_final_import_round_trip(s: MemoryStorage, next: MemoryStorage, header: Header)
    requires
        s.well_formed(),
        s.import_error(header, NewBlockState::Final) is None,
        s.imported(next, header, NewBlockState::Final),
    ensures
        next.spec_last_finalized() == Ok::<BlockHash, ClientError>(header.hash),
        next.spec_status(BlockId::Hash(header.hash)) == Ok::<BlockStatus, ClientError>(BlockStatus::InChain),
        next.spec_status(BlockId::Number(header.number)) == Ok::<BlockStatus, ClientError>(BlockStatus::InChain),
{
    let hs = next.retained();
    assert(hs[hs.len() - 1].hash == header.hash);
    assert(has_header(hs, header.hash));
}

/// Genesis is always retained: block number 0 is answered locally.
pub proof fn lemma_genesis_retained(s: MemoryStorage)
    requires
        s.well_formed(),
    ensures
        s.spec_header(BlockId::Number(0)) is Ok,
        s.spec_header(BlockId::Number(0))->Ok_0 is Some,
        s.spec_header(BlockId::Number(0))->Ok_0->Some_0.number == 0,
{
    let hs = s.retained();
    let g = s.canonical()[0];
    assert(hs[0].hash == g);
    assert(has_header(hs, g));
    let c = choose|j: int| 0 <= j < hs.len() && hs[j].hash == g;
    assert(hs[c].hash == hs[0].hash);
}

} // verus!
