//! Interfaces between the chain and consensus: importing blocks and looking up
//! the authorities at a block.
use vstd::prelude::*;
use crate::types::{BlockId, ClientError};

verus! {

/// An ed25519 public key of an authority.
#[derive(Clone, Copy, Debug, PartialEq, Eq, Structural)]
pub struct AuthorityId {
    pub high: u128,
    pub low: u128,
}

/// Block import.
pub trait BlockImport<B> {
    /// Imports a block alongside its justification; true when it was imported.
    fn import_block(&self, block: B, justification: Vec<u8>, authorities: &[AuthorityId]) -> bool;
}

/// The authorities at a given block.
pub trait Authorities {
    fn authorities(&self, at: &BlockId) -> Result<Vec<AuthorityId>, ClientError>;
}

} // verus!
