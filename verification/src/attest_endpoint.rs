//! The open retrieval of redemption attestations.
//!
//! An attestation is a merchant signature, so serving it to anyone gives nothing
//! away. It is served under its entry and nonce until the entry's windows have
//! passed.

use vstd::prelude::*;

use crate::bytes::{copy_bytes, same_array};
use crate::table::{Key, Table};

verus! {

/// What an attestation is addressed by.
#[derive(Debug, Clone, Copy, PartialEq, Eq)]
pub struct AttestKey {
    pub entry_id: [u8; 32],
    pub nonce: [u8; 32],
}

impl Key for AttestKey {
    fn same(&self, other: &Self) -> (r: bool) {
        same_array(&self.entry_id, &other.entry_id) && same_array(&self.nonce, &other.nonce)
    }
}

/// The attestations that are served.
pub struct AttestationEndpoint {
    by_key: Table<AttestKey, Vec<u8>>,
}

impl View for AttestationEndpoint {
    type V = Map<AttestKey, Seq<u8>>;

    closed spec fn view(&self) -> Map<AttestKey, Seq<u8>> {
        self.by_key@
    }
}

impl AttestationEndpoint {
    /// An endpoint that serves nothing.
    pub fn new() -> (ep: AttestationEndpoint)
        ensures
            ep@ == Map::<AttestKey, Seq<u8>>::empty(),
    {
        AttestationEndpoint { by_key: Table::new() }
    }

    /// Publishes an attestation, by its encoding.
    pub fn post(&mut self, entry_id: &[u8; 32], nonce: &[u8; 32], encoded: Vec<u8>)
        ensures
            final(self)@ == old(self)@.insert(
                (AttestKey { entry_id: *entry_id, nonce: *nonce }),
                encoded@,
            ),
    {
        self.by_key.insert(AttestKey { entry_id: *entry_id, nonce: *nonce }, encoded);
    }

    /// The attestation of an entry and nonce; `None` while there is none.
    pub fn get(&self, entry_id: &[u8; 32], nonce: &[u8; 32]) -> (r: Option<Vec<u8>>)
        ensures
            ({
                let key = AttestKey { entry_id: *entry_id, nonce: *nonce };
                match r {
                    Some(bytes) => self@.dom().contains(key) && bytes@ == self@[key],
                    None => !self@.dom().contains(key),
                }
            }),
    {
        match self.by_key.get(&AttestKey { entry_id: *entry_id, nonce: *nonce }) {
            Some(bytes) => Some(copy_bytes(bytes.as_slice())),
            None => None,
        }
    }

    /// Stops serving an attestation.
    pub fn prune(&mut self, entry_id: &[u8; 32], nonce: &[u8; 32])
        ensures
            final(self)@ == old(self)@.remove((AttestKey { entry_id: *entry_id, nonce: *nonce })),
    {
        let _ = self.by_key.remove(&AttestKey { entry_id: *entry_id, nonce: *nonce });
    }
}

/// An attestation is served from when it is posted until it is pruned, under its own
/// key alone.
pub proof fn law_served_until_pruned(
    served: Map<AttestKey, Seq<u8>>,
    key: AttestKey,
    encoded: Seq<u8>,
    other: AttestKey,
)
    requires
        other != key,
    ensures
        served.insert(key, encoded)[key] == encoded,
        !served.insert(key, encoded).remove(key).dom().contains(key),
        served.insert(key, encoded).dom().contains(other) == served.dom().contains(other),
        served.insert(key, encoded).remove(key).dom().contains(other) == served.dom().contains(other),
{
}

} // verus!
