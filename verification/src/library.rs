//! The loaded library aggregate and the sync-event forwarding rule.

use vstd::prelude::*;
use crate::config::LibraryConfig;
use crate::db::LibraryDb;
use crate::keys::KeyManager;
use crate::orphan::OrphanRemoverActor;

verus! {

/// One loaded library: its identity, config, keystore, record store and
/// orphan-reclamation actor. Identity is the id; everything else is the
/// state the handles of a running system share.
#[derive(Debug)]
pub struct Library {
    /// The globally unique library id.
    pub id: u128,
    /// The library-local id of the owning node, from the node upsert at load.
    pub local_id: i64,
    /// The mutable config persisted beside the database.
    pub config: LibraryConfig,
    /// The in-memory keystore, populated once at load.
    pub key_manager: KeyManager,
    /// The record store.
    pub db: LibraryDb,
    /// The orphan-reclamation actor bound to this store.
    pub orphan_remover: OrphanRemoverActor,
    /// Same node id, as recorded for location ownership.
    pub node_local_id: i64,
}

impl Library {
    /// A library is well-formed when its record store is.
    pub open spec fn wf(self) -> bool {
        self.db.wf()
    }
}

/// One change record emitted by a library's local mutations, carried to peer
/// replication as an opaque payload.
#[derive(Debug)]
pub struct SyncOp {
    pub payload: Vec<u8>,
}

/// A message from a library's sync channel. Only creations are forwarded to
/// peers; every other kind is ignored by the forwarding task.
#[derive(Debug)]
pub enum SyncMessage {
    Created(SyncOp),
    Updated(SyncOp),
    Deleted(SyncOp),
}

/// The forwarding rule of the per-library sync task: a `Created` event is
/// handed on for broadcast, any other event kind is dropped without error.
pub fn sync_event_to_broadcast(msg: SyncMessage) -> (r: Option<SyncOp>)
    ensures
        match msg {
            SyncMessage::Created(op) => r matches Some(fwd) && fwd.payload@ == op.payload@,
            _ => r is None,
        },
{
    match msg {
        SyncMessage::Created(op) => Some(op),
        SyncMessage::Updated(_) => None,
        SyncMessage::Deleted(_) => None,
    }
}

} // verus!
