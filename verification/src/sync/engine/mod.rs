//! The decisions of the synchronization engine.
//!
//! `SyncEngine` holds what the engine decides with: the discovered mailbox
//! providers, their performance records and backoff, and the pending DHT
//! queries. The network, the stores and the notification channels are driven
//! by the caller, which asks the engine what to do and reports what happened.
use vstd::prelude::*;

use crate::peers::{PeerMap, PeerSet};
use crate::sync::backoff::BackoffManager;

pub mod discovery;
pub mod events;
pub mod mailbox;
pub mod outbox;
pub mod performance;
pub mod queries;
pub mod ranking;
pub mod reliability;

use performance::MailboxPerformance;
use queries::QueryTable;

verus! {

/// The sync interval (ms) used when none is given.
pub const DEFAULT_SYNC_INTERVAL_MS: u64 = 5000;

/// The decision state of the synchronization engine.
#[derive(Debug)]
pub struct SyncEngine {
    /// The interval (ms) between sync cycles.
    pub interval: u64,
    /// The discovered mailbox providers.
    pub discovered_mailboxes: PeerSet,
    /// Performance records of mailbox providers.
    pub mailbox_performance: PeerMap<MailboxPerformance>,
    /// Backoff of failing peers.
    pub backoff_manager: BackoffManager,
    /// The pending DHT queries, by query id.
    pub pending_dht_queries: QueryTable,
    /// When (clock reading, ms) mailboxes were last discovered.
    pub last_discovery_time: Option<u64>,
}

/// The stores the engine's caller works with: friends, outbox, message
/// history, seen messages and known mailboxes.
#[derive(Clone)]
pub struct SyncStores<F, O, H, S, K> {
    pub friends: F,
    pub outbox: O,
    pub history: H,
    pub seen: S,
    pub known_mailboxes: K,
}

impl<F, O, H, S, K> SyncStores<F, O, H, S, K> {
    /// Gathers the stores.
    pub fn new(friends: F, outbox: O, history: H, seen: S, known_mailboxes: K) -> (s: Self)
        ensures
            s.friends == friends,
            s.outbox == outbox,
            s.history == history,
            s.seen == seen,
            s.known_mailboxes == known_mailboxes,
    {
        SyncStores { friends, outbox, history, seen, known_mailboxes }
    }
}

/// The counters of every performance record can be compared and counted on:
/// the interactions fit in 32 bits, and the consecutive failures are among
/// the failures.
pub open spec fn perf_counters_ok(m: Map<Seq<u8>, MailboxPerformance>) -> bool {
    forall|k: Seq<u8>| #[trigger]
        m.dom().contains(k) ==> m[k].success_count + m[k].failure_count <= u32::MAX
            && m[k].consecutive_failures <= m[k].failure_count
}

impl SyncEngine {
    /// The state is well formed.
    pub open spec fn wf(&self) -> bool {
        &&& self.discovered_mailboxes.wf()
        &&& self.mailbox_performance.wf()
        &&& self.backoff_manager.wf()
        &&& self.pending_dht_queries.wf()
        &&& discovery::query_keys_distinct(self.pending_dht_queries@)
        &&& perf_counters_ok(self.mailbox_performance@)
    }

    /// A new engine with the given sync interval (ms); an interval of zero
    /// becomes five seconds.
    pub fn new(interval: u64) -> (e: Self)
        ensures
            e.wf(),
            e.interval == (if interval == 0 {
                DEFAULT_SYNC_INTERVAL_MS
            } else {
                interval
            }),
            e.discovered_mailboxes@ == Set::<Seq<u8>>::empty(),
            e.mailbox_performance@ == Map::<Seq<u8>, MailboxPerformance>::empty(),
            e.backoff_manager@ == Map::<Seq<u8>, crate::sync::backoff::BackoffEntry>::empty(),
            e.pending_dht_queries@ == Map::<u64, queries::QueryInfo>::empty(),
            e.last_discovery_time is None,
    {
        SyncEngine {
            interval: if interval == 0 {
                DEFAULT_SYNC_INTERVAL_MS
            } else {
                interval
            },
            discovered_mailboxes: PeerSet::new(),
            mailbox_performance: PeerMap::new(),
            backoff_manager: BackoffManager::new(),
            pending_dht_queries: QueryTable::new(),
            last_discovery_time: None,
        }
    }

    /// The discovered mailbox providers.
    pub fn get_mailbox_providers(&self) -> (s: &PeerSet)
        ensures
            s@ == self.discovered_mailboxes@,
    {
        &self.discovered_mailboxes
    }
}

} // verus!
