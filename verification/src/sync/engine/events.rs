//! Events reported to the engine, and the actions it asks for.
use vstd::prelude::*;

use crate::peers::{PeerKey, PeerSet};

verus! {

/// An event that the engine reacts to.
#[derive(Debug)]
pub enum SyncEvent {
    /// A peer connected to the local node.
    PeerConnected(PeerKey),
    /// A connection attempt to a peer failed.
    PeerConnectionFailed(PeerKey),
    /// A result of a DHT query.
    DhtQueryResult {
        /// The id of the query.
        query_id: u64,
        /// The result.
        result: DhtQueryResult,
    },
}

/// The result of a DHT provider query.
#[derive(Debug)]
pub enum DhtQueryResult {
    /// Providers for the key were found.
    ProvidersFound {
        /// The providers found.
        providers: PeerSet,
        /// Whether this is the last result of the query.
        finished: bool,
    },
    /// The query failed.
    QueryFailed {
        /// What went wrong.
        error: String,
    },
}

/// Work that the engine asks its driver to do, in order.
#[derive(Debug)]
pub enum SyncAction {
    /// Discover mailbox providers if needed (always when `force`).
    DiscoverMailboxesIfNeeded {
        /// Discover even when enough mailboxes are known or discovery ran recently.
        force: bool,
    },
    /// Retry the pending outbox messages addressed to the peer. An error here
    /// ends the handling of the event.
    RetryOutboxForPeer(PeerKey),
    /// Fetch messages from the mailbox at the peer.
    FetchFromMailbox(PeerKey),
    /// Save a newly discovered mailbox provider in the known-mailboxes store.
    SaveKnownMailbox(PeerKey),
    /// Retry all pending outbox messages.
    RetryOutbox,
}

impl SyncAction {
    /// The peer that the action is about, if any.
    pub open spec fn peer(self) -> Option<Seq<u8>> {
        match self {
            SyncAction::RetryOutboxForPeer(p) => Some(p@),
            SyncAction::FetchFromMailbox(p) => Some(p@),
            SyncAction::SaveKnownMailbox(p) => Some(p@),
            _ => None,
        }
    }
}

} // verus!
