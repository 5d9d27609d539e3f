//! Discovering mailbox providers through DHT provider queries, and handling
//! the events reported to the engine.
use vstd::prelude::*;

use crate::peers::{copy_key, key_views, position_of, PeerKey, PeerMap, PeerSet};
use crate::sync::backoff::{can_count_attempt_for, entry_or_fresh, spec_can_attempt, BackoffEntry, BackoffManager};

use super::events::{DhtQueryResult, SyncAction, SyncEvent};
use super::performance::MailboxPerformance;
use super::queries::{is_stale, DhtQueryState, QueryInfo};
use super::reliability::{can_count_interaction, spec_should_forget_mailbox};
use super::SyncEngine;

verus! {

/// The least time (ms) between two discoveries that are not forced.
pub const DISCOVERY_MIN_INTERVAL_MS: u64 = 30_000;

/// The number of available mailboxes above which discovery is skipped.
pub const ENOUGH_MAILBOXES: usize = 2;

/// How long (ms) a DHT query may stay pending.
pub const DHT_QUERY_TIMEOUT_MS: u64 = 60_000;

/// How long (ms) a backoff entry is kept after its last attempt.
pub const BACKOFF_ENTRY_MAX_AGE_MS: u64 = 3_600_000;

/// The response time (ms) charged for a failed connection to a mailbox.
pub const CONNECTION_FAILURE_RESPONSE_MS: u64 = 2000;

/// `new` is `old` after a success of each of `peers`.
pub open spec fn successes_recorded(
    old: Map<Seq<u8>, BackoffEntry>,
    new: Map<Seq<u8>, BackoffEntry>,
    peers: Set<Seq<u8>>,
) -> bool {
    &&& new.dom() == old.dom()
    &&& forall|k: Seq<u8>| #[trigger]
        new.dom().contains(k) ==> new[k] == (if peers.contains(k) {
            old[k].after_success()
        } else {
            old[k]
        })
}

/// The first `n` attempts of `peer` can be counted, starting from its entry in `m`.
pub open spec fn room_for_attempts(m: Map<Seq<u8>, BackoffEntry>, peer: Seq<u8>, n: nat) -> bool {
    m.dom().contains(peer) ==> forall|i: nat| #![trigger (m[peer].attempt_count + i)] i < n ==> {
        let c = m[peer].attempt_count + i;
        c != 0x7fff_ffff && c != u32::MAX
    }
}

impl SyncEngine {
    /// The discovered mailboxes that may be attempted at `now`.
    pub open spec fn spec_available(&self, now: u64) -> Set<Seq<u8>> {
        self.discovered_mailboxes@.filter(|p: Seq<u8>| spec_can_attempt(self.backoff_manager@, p, now))
    }

    /// A discovery is due at `now`: it is forced, or fewer than two mailboxes
    /// are available and the last discovery is at least 30 s old.
    pub open spec fn spec_discovery_due(&self, force: bool, now: u64) -> bool {
        ||| force
        ||| self.spec_available(now).len() < ENOUGH_MAILBOXES && match self.last_discovery_time {
            Some(t) => !((if now >= t {
                now - t
            } else {
                0
            }) < DISCOVERY_MIN_INTERVAL_MS),
            None => true,
        }
    }

    /// Whether a discovery is due at clock reading `now`: it is forced, or
    /// fewer than two mailboxes are available and the last discovery is at
    /// least 30 s old.
    pub fn discovery_due(&self, force: bool, now: u64) -> (r: bool)
        requires
            self.wf(),
        ensures
            r == self.spec_discovery_due(force, now),
    {
        if force {
            return true;
        }
        let available = self.get_available_mailboxes_at(now, &PeerMap::new());
        proof {
            key_views(available@).unique_seq_to_set();
        }
        if available.len() >= ENOUGH_MAILBOXES {
            return false;
        }
        match self.last_discovery_time {
            Some(t) => !(now.saturating_sub(t) < DISCOVERY_MIN_INTERVAL_MS),
            None => true,
        }
    }

    /// Starts a discovery at clock reading `now` if one is due and a network
    /// is there (`has_network`); returns whether it started. A started
    /// discovery records `now` as the time of the last discovery; the driver
    /// then starts a provider query for each record key for which
    /// `has_pending_query_for` is false, reporting each started query with
    /// `record_query_started`.
    pub fn discover_mailboxes_if_needed(&mut self, force: bool, now: u64, has_network: bool) -> (r: bool)
        requires
            old(self).wf(),
        ensures
            final(self).wf(),
            r == (old(self).spec_discovery_due(force, now) && has_network),
            final(self).last_discovery_time == (if r {
                Some(now)
            } else {
                old(self).last_discovery_time
            }),
            final(self).discovered_mailboxes == old(self).discovered_mailboxes,
            final(self).mailbox_performance == old(self).mailbox_performance,
            final(self).backoff_manager == old(self).backoff_manager,
            final(self).pending_dht_queries == old(self).pending_dht_queries,
            final(self).interval == old(self).interval,
    {
        if !self.discovery_due(force, now) {
            return false;
        }
        if !has_network {
            return false;
        }
        self.last_discovery_time = Some(now);
        true
    }

    /// Starts a discovery at clock reading `now` if one is due without
    /// forcing it and a network is there; returns whether it started.
    pub fn discover_mailboxes(&mut self, now: u64, has_network: bool) -> (r: bool)
        requires
            old(self).wf(),
        ensures
            final(self).wf(),
            r == (old(self).spec_discovery_due(false, now) && has_network),
            final(self).last_discovery_time == (if r {
                Some(now)
            } else {
                old(self).last_discovery_time
            }),
            final(self).discovered_mailboxes == old(self).discovered_mailboxes,
            final(self).mailbox_performance == old(self).mailbox_performance,
            final(self).backoff_manager == old(self).backoff_manager,
            final(self).pending_dht_queries == old(self).pending_dht_queries,
            final(self).interval == old(self).interval,
    {
        self.discover_mailboxes_if_needed(false, now, has_network)
    }

    /// Whether a query for record key `key` is pending.
    pub fn has_pending_query_for(&self, key: &Vec<u8>) -> (r: bool)
        requires
            self.wf(),
        ensures
            r == exists|id: u64| #[trigger]
                self.pending_dht_queries@.dom().contains(id) && self.pending_dht_queries@[id].key
                    == key@,
    {
        self.pending_dht_queries.has_query_for(key)
    }

    /// The record keys of `keys` to start a provider query for: those that
    /// no pending query has, each once, in order.
    pub fn queries_to_start(&self, keys: &Vec<Vec<u8>>) -> (r: Vec<Vec<u8>>)
        requires
            self.wf(),
        ensures
            key_views(r@) == unqueried(key_views(keys@), self.pending_dht_queries@),
    {
        let mut out: Vec<Vec<u8>> = Vec::new();
        let mut i: usize = 0;
        while i < keys.len()
            invariant
                self.wf(),
                i <= keys.len(),
                key_views(out@) == unqueried(key_views(keys@).take(i as int), self.pending_dht_queries@),
            decreases keys.len() - i,
        {
            proof {
                assert(key_views(keys@).take(i + 1).drop_last() =~= key_views(keys@).take(i as int));
                assert(key_views(keys@).take(i + 1).last() == keys@[i as int]@);
            }
            if !self.has_pending_query_for(&keys[i]) && position_of(&out, &keys[i]).is_none() {
                let ghost before = key_views(out@);
                out.push(copy_key(&keys[i]));
                assert(key_views(out@) =~= before.push(keys@[i as int]@));
            }
            i += 1;
        }
        assert(key_views(keys@).take(i as int) =~= key_views(keys@));
        out
    }

    /// Records that query `query_id` for record key `key` started at clock
    /// reading `now`. Queries are started only for keys that no pending query
    /// has (see `queries_to_start`), so the pending queries keep distinct keys.
    pub fn record_query_started(&mut self, query_id: u64, key: Vec<u8>, now: u64)
        requires
            old(self).wf(),
            !(exists|id: u64| #[trigger]
                old(self).pending_dht_queries@.dom().contains(id) && old(self).pending_dht_queries@[id].key
                    == key@),
        ensures
            final(self).wf(),
            final(self).pending_dht_queries@ == old(self).pending_dht_queries@.insert(
                query_id,
                QueryInfo { key: key@, started_at: now, received_results: false },
            ),
            final(self).discovered_mailboxes == old(self).discovered_mailboxes,
            final(self).mailbox_performance == old(self).mailbox_performance,
            final(self).backoff_manager == old(self).backoff_manager,
            final(self).last_discovery_time == old(self).last_discovery_time,
            final(self).interval == old(self).interval,
    {
        let ghost m = self.pending_dht_queries@;
        let ghost kv = key@;
        let state = DhtQueryState { key, started_at: now, received_results: false };
        self.pending_dht_queries.insert(query_id, state);
        proof {
            law_query_keys_stay_distinct(m, query_id, kv, now, Set::empty());
        }
    }

    /// The providers of `providers` that join the pool at `now`: those that
    /// may be attempted and were not discovered yet.
    pub open spec fn spec_admitted(&self, providers: Set<Seq<u8>>, now: u64) -> Set<Seq<u8>> {
        providers.filter(
            |p: Seq<u8>|
                spec_can_attempt(self.backoff_manager@, p, now) && !self.discovered_mailboxes@.contains(p),
        )
    }

    /// Adds the providers found by a DHT query at clock reading `now`: each
    /// provider that may be attempted joins the discovered mailboxes, and each
    /// one that is new has its backoff reset. Returns the new ones, in the
    /// order of `providers`.
    pub fn add_found_providers(&mut self, providers: &PeerSet, now: u64) -> (added: Vec<PeerKey>)
        requires
            old(self).wf(),
            providers.wf(),
        ensures
            final(self).wf(),
            key_views(added@).no_duplicates(),
            key_views(added@).to_set() == old(self).spec_admitted(providers@, now),
            final(self).discovered_mailboxes@ == old(self).discovered_mailboxes@.union(
                old(self).spec_admitted(providers@, now),
            ),
            successes_recorded(
                old(self).backoff_manager@,
                final(self).backoff_manager@,
                old(self).spec_admitted(providers@, now),
            ),
            final(self).mailbox_performance == old(self).mailbox_performance,
            final(self).pending_dht_queries == old(self).pending_dht_queries,
            final(self).last_discovery_time == old(self).last_discovery_time,
            final(self).interval == old(self).interval,
    {
        let ghost disc0 = self.discovered_mailboxes@;
        let ghost bo0 = self.backoff_manager@;
        let ghost adm = |p: Seq<u8>| spec_can_attempt(bo0, p, now) && !disc0.contains(p);
        let all = providers.to_vec();
        let mut added: Vec<PeerKey> = Vec::new();
        let mut i: usize = 0;
        proof {
            assert(key_views(all@).take(0).to_set().filter(adm) =~= Set::<Seq<u8>>::empty());
            assert(key_views(added@).to_set() =~= Set::<Seq<u8>>::empty());
            assert(disc0.union(Set::<Seq<u8>>::empty()) =~= disc0);
        }
        while i < all.len()
            invariant
                self.wf(),
                disc0 == old(self).discovered_mailboxes@,
                bo0 == old(self).backoff_manager@,
                adm == (|p: Seq<u8>| spec_can_attempt(bo0, p, now) && !disc0.contains(p)),
                self.mailbox_performance == old(self).mailbox_performance,
                self.pending_dht_queries == old(self).pending_dht_queries,
                self.last_discovery_time == old(self).last_discovery_time,
                self.interval == old(self).interval,
                key_views(all@) == providers.seq(),
                key_views(all@).no_duplicates(),
                i <= all.len(),
                key_views(added@).no_duplicates(),
                key_views(added@).to_set() == key_views(all@).take(i as int).to_set().filter(adm),
                self.discovered_mailboxes@ == disc0.union(key_views(added@).to_set()),
                successes_recorded(bo0, self.backoff_manager@, key_views(added@).to_set()),
            decreases all.len() - i,
        {
            let peer = &all[i];
            let ghost pv = peer@;
            let ghost done = key_views(added@).to_set();
            assert(pv == key_views(all@)[i as int]);
            assert(!done.contains(pv)) by {
                if done.contains(pv) {
                    let t = choose|t: int| 0 <= t < i && key_views(all@).take(i as int)[t] == pv;
                    assert(key_views(all@)[t] == key_views(all@)[i as int]);
                }
            }
            let ghost bo_now = self.backoff_manager@;
            assert(spec_can_attempt(bo_now, pv, now) == spec_can_attempt(bo0, pv, now)) by {
                if bo0.dom().contains(pv) {
                    assert(bo_now[pv] == bo0[pv]);
                }
            }
            if self.backoff_manager.can_attempt_at(peer, now) {
                let ghost disc_now = self.discovered_mailboxes@;
                if self.discovered_mailboxes.insert(copy_key(peer)) {
                    self.backoff_manager.record_success(peer);
                    let ghost prev = key_views(added@);
                    added.push(copy_key(peer));
                    proof {
                        assert(key_views(added@) =~= prev.push(pv));
                        lemma_push_no_dup(prev, pv);
                        lemma_push_to_set(prev, pv);
                        let new_done = done.insert(pv);
                        assert(self.discovered_mailboxes@ =~= disc0.union(new_done));
                        let nb = self.backoff_manager@;
                        assert(nb.dom() =~= bo0.dom());
                        assert forall|k: Seq<u8>| #[trigger] nb.dom().contains(k) implies nb[k] == (if new_done.contains(k) {
                            bo0[k].after_success()
                        } else {
                            bo0[k]
                        }) by {
                            if k != pv {
                                assert(bo_now[k] == nb[k]);
                            }
                        }
                    }
                } else {
                    proof {
                        assert(disc0.contains(pv));
                        assert(!adm(pv));
                    }
                }
            }
            proof {
                let t1 = key_views(all@).take(i + 1);
                assert(t1 =~= key_views(all@).take(i as int).push(pv));
                super::ranking::lemma_to_set_filter_push(key_views(all@).take(i as int), pv, adm);
            }
            i += 1;
        }
        proof {
            assert(key_views(all@).take(all.len() as int) =~= key_views(all@));
            assert(key_views(all@).to_set() == providers@);
            assert(providers@.filter(adm) =~= old(self).spec_admitted(providers@, now));
        }
        added
    }

    /// Handles the result of a DHT query at clock reading `now`: found
    /// providers join the pool; the driver then saves each new one and, if
    /// there is any, retries the outbox. A failed query asks for nothing.
    pub fn handle_dht_query_result(&mut self, result: &DhtQueryResult, now: u64) -> (actions: Vec<SyncAction>)
        requires
            old(self).wf(),
            result matches DhtQueryResult::ProvidersFound { providers, .. } ==> providers.wf(),
        ensures
            final(self).wf(),
            match result {
                DhtQueryResult::ProvidersFound { providers, .. } => {
                    let admitted = old(self).spec_admitted(providers@, now);
                    &&& final(self).discovered_mailboxes@ == old(self).discovered_mailboxes@.union(admitted)
                    &&& successes_recorded(old(self).backoff_manager@, final(self).backoff_manager@, admitted)
                    &&& saves_then_retry(actions@, admitted)
                },
                DhtQueryResult::QueryFailed { .. } => {
                    &&& final(self).discovered_mailboxes == old(self).discovered_mailboxes
                    &&& final(self).backoff_manager == old(self).backoff_manager
                    &&& actions@.len() == 0
                },
            },
            final(self).mailbox_performance == old(self).mailbox_performance,
            final(self).pending_dht_queries == old(self).pending_dht_queries,
            final(self).last_discovery_time == old(self).last_discovery_time,
            final(self).interval == old(self).interval,
    {
        match result {
            DhtQueryResult::ProvidersFound { providers, .. } => {
                let added = self.add_found_providers(providers, now);
                let actions = save_then_retry_actions(&added);
                actions
            },
            DhtQueryResult::QueryFailed { .. } => Vec::new(),
        }
    }

    /// Removes the queries pending for more than a minute at clock reading
    /// `now`, and drops backoff entries whose last attempt is more than an
    /// hour old.
    pub fn cleanup_stale_dht_queries(&mut self, now: u64)
        requires
            old(self).wf(),
            BACKOFF_ENTRY_MAX_AGE_MS <= now,
        ensures
            final(self).wf(),
            final(self).pending_dht_queries@ == old(self).pending_dht_queries@.restrict(
                Set::new(
                    |id: u64|
                        old(self).pending_dht_queries@.dom().contains(id) && !is_stale(
                            old(self).pending_dht_queries@[id],
                            DHT_QUERY_TIMEOUT_MS,
                            now,
                        ),
                ),
            ),
            final(self).backoff_manager@ == crate::sync::backoff::spec_cleanup(
                old(self).backoff_manager@,
                BACKOFF_ENTRY_MAX_AGE_MS,
                now,
            ),
            final(self).discovered_mailboxes == old(self).discovered_mailboxes,
            final(self).mailbox_performance == old(self).mailbox_performance,
            final(self).last_discovery_time == old(self).last_discovery_time,
            final(self).interval == old(self).interval,
    {
        let _removed = self.pending_dht_queries.remove_stale(DHT_QUERY_TIMEOUT_MS, now);
        self.backoff_manager.cleanup_old_entries_at(BACKOFF_ENTRY_MAX_AGE_MS, now);
    }

    /// Handles `event` at clock reading `now` and returns the work for the
    /// driver, in order.
    ///
    /// A connected peer: discover if needed, retry its outbox messages, and
    /// fetch from it if it is a known mailbox. A failed connection to a known
    /// mailbox: count a failure, with `failure_average` as its new average
    /// response time (the caller weights it with a response time of
    /// `CONNECTION_FAILURE_RESPONSE_MS`, see `performance`), and forget the
    /// mailbox if it fails too often. A DHT query result for a pending query: mark the query
    /// as answered, drop it when the result is final (the query finished or
    /// failed), and handle the result; a result for an unknown query is
    /// ignored.
    pub fn handle_event(&mut self, event: &SyncEvent, now: u64, failure_average: u64) -> (actions: Vec<SyncAction>)
        requires
            old(self).wf(),
            event matches SyncEvent::PeerConnectionFailed(p) ==> {
                &&& can_count_interaction(old(self).mailbox_performance@, p@)
                &&& room_for_attempts(old(self).backoff_manager@, p@, 2)
            },
            event matches SyncEvent::DhtQueryResult { result: DhtQueryResult::ProvidersFound { providers, .. }, .. } ==> providers.wf(),
        ensures
            final(self).wf(),
            final(self).interval == old(self).interval,
            final(self).last_discovery_time == old(self).last_discovery_time,
            match event {
                SyncEvent::PeerConnected(p) => {
                    &&& actions@.len() == (if old(self).discovered_mailboxes@.contains(p@) { 3int } else { 2int })
                    &&& actions@[0] == SyncAction::DiscoverMailboxesIfNeeded { force: false }
                    &&& actions@[1] is RetryOutboxForPeer && actions@[1].peer() == Some(p@)
                    &&& old(self).discovered_mailboxes@.contains(p@) ==> (actions@[2] is FetchFromMailbox && actions@[2].peer() == Some(p@))
                    &&& final(self).discovered_mailboxes == old(self).discovered_mailboxes
                    &&& final(self).mailbox_performance == old(self).mailbox_performance
                    &&& final(self).backoff_manager == old(self).backoff_manager
                    &&& final(self).pending_dht_queries == old(self).pending_dht_queries
                },
                SyncEvent::PeerConnectionFailed(p) => {
                    &&& actions@.len() == 0
                    &&& final(self).pending_dht_queries == old(self).pending_dht_queries
                    &&& if old(self).discovered_mailboxes@.contains(p@) {
                        let perf = final(self).mailbox_performance@;
                        &&& super::reliability::perf_updated(
                            old(self).mailbox_performance@,
                            perf,
                            p@,
                            super::reliability::perf_or_new(old(self).mailbox_performance@, p@).after_interaction(
                                false,
                                failure_average,
                                now,
                            ),
                        )
                        &&& final(self).discovered_mailboxes@ == (if spec_should_forget_mailbox(perf, p@, now) {
                            old(self).discovered_mailboxes@.remove(p@)
                        } else {
                            old(self).discovered_mailboxes@
                        })
                        &&& crate::sync::backoff::attempts_recorded(
                            old(self).backoff_manager@,
                            final(self).backoff_manager@,
                            p@,
                            now,
                            if spec_should_forget_mailbox(perf, p@, now) {
                                2
                            } else {
                                1
                            },
                        )
                    } else {
                        &&& final(self).discovered_mailboxes == old(self).discovered_mailboxes
                        &&& final(self).mailbox_performance == old(self).mailbox_performance
                        &&& final(self).backoff_manager == old(self).backoff_manager
                    }
                },
                SyncEvent::DhtQueryResult { query_id, result } => {
                    if old(self).pending_dht_queries@.dom().contains(*query_id) {
                        let finished = match result {
                            DhtQueryResult::ProvidersFound { finished, .. } => *finished,
                            DhtQueryResult::QueryFailed { .. } => true,
                        };
                        &&& final(self).pending_dht_queries@ == (if finished {
                            old(self).pending_dht_queries@.remove(*query_id)
                        } else {
                            old(self).pending_dht_queries@.insert(
                                *query_id,
                                QueryInfo { received_results: true, ..old(self).pending_dht_queries@[*query_id] },
                            )
                        })
                        &&& match result {
                            DhtQueryResult::ProvidersFound { providers, .. } => {
                                let admitted = old(self).spec_admitted(providers@, now);
                                &&& final(self).discovered_mailboxes@ == old(self).discovered_mailboxes@.union(admitted)
                                &&& successes_recorded(old(self).backoff_manager@, final(self).backoff_manager@, admitted)
                                &&& saves_then_retry(actions@, admitted)
                            },
                            DhtQueryResult::QueryFailed { .. } => {
                                &&& final(self).discovered_mailboxes == old(self).discovered_mailboxes
                                &&& final(self).backoff_manager == old(self).backoff_manager
                                &&& actions@.len() == 0
                            },
                        }
                        &&& final(self).mailbox_performance == old(self).mailbox_performance
                    } else {
                        &&& actions@.len() == 0
                        &&& final(self).discovered_mailboxes == old(self).discovered_mailboxes
                        &&& final(self).mailbox_performance == old(self).mailbox_performance
                        &&& final(self).backoff_manager == old(self).backoff_manager
                        &&& final(self).pending_dht_queries@ == old(self).pending_dht_queries@
                    }
                },
            },
    {
        match event {
            SyncEvent::PeerConnected(p) => {
                let mut actions: Vec<SyncAction> = Vec::new();
                actions.push(SyncAction::DiscoverMailboxesIfNeeded { force: false });
                actions.push(SyncAction::RetryOutboxForPeer(copy_key(p)));
                if self.discovered_mailboxes.contains(p) {
                    actions.push(SyncAction::FetchFromMailbox(copy_key(p)));
                }
                actions
            },
            SyncEvent::PeerConnectionFailed(p) => {
                if self.discovered_mailboxes.contains(p) {
                    proof {
                        if old(self).backoff_manager@.dom().contains(p@) {
                            let c = old(self).backoff_manager@[p@].attempt_count;
                            assert(c + 0nat != 0x7fff_ffff && c + 0nat != u32::MAX);
                        }
                    }
                    self.update_mailbox_performance(copy_key(p), false, failure_average, now);
                    let ghost mid = self.backoff_manager@;
                    proof {
                        let bo = old(self).backoff_manager@;
                        assert(crate::sync::backoff::attempts_recorded(bo, bo, p@, now, 0));
                        crate::sync::backoff::lemma_attempts_step(bo, bo, mid, p@, now, 0);
                    }
                    if self.should_forget_mailbox(p, now) {
                        proof {
                            let bo = old(self).backoff_manager@;
                            let nb = self.backoff_manager@;
                            assert(nb.dom().contains(p@));
                            let e = entry_or_fresh(bo, p@, now);
                            let j = choose|j: i64| crate::sync::backoff::valid_jitter(j) && nb[p@] == #[trigger] e.after_attempt(now, j);
                            if bo.dom().contains(p@) {
                                let c = bo[p@].attempt_count;
                                assert(c + 1nat != 0x7fff_ffff && c + 1nat != u32::MAX);
                            }
                            assert(can_count_attempt_for(nb, p@));
                        }
                        self.forget_failing_mailbox(p, now);
                        proof {
                            let bo = old(self).backoff_manager@;
                            if bo.dom().contains(p@) {
                                let c = bo[p@].attempt_count;
                                assert(c + 0nat != 0x7fff_ffff && c + 0nat != u32::MAX);
                                assert(c + 1nat != 0x7fff_ffff && c + 1nat != u32::MAX);
                            }
                            crate::sync::backoff::lemma_attempts_step(bo, mid, self.backoff_manager@, p@, now, 1);
                        }
                    }
                }
                Vec::new()
            },
            SyncEvent::DhtQueryResult { query_id, result } => {
                match self.pending_dht_queries.mark_received(*query_id) {
                    None => Vec::new(),
                    Some(_key) => {
                        let finished = match result {
                            DhtQueryResult::ProvidersFound { finished, .. } => *finished,
                            DhtQueryResult::QueryFailed { .. } => true,
                        };
                        if finished {
                            self.pending_dht_queries.remove(*query_id);
                            proof {
                                assert(self.pending_dht_queries@ =~= old(self).pending_dht_queries@.remove(*query_id));
                            }
                        }
                        self.handle_dht_query_result(result, now)
                    },
                }
            },
        }
    }
}

/// The actions ask to save each provider of `admitted` once and then, if
/// there was any, to retry the outbox.
pub open spec fn saves_then_retry(actions: Seq<SyncAction>, admitted: Set<Seq<u8>>) -> bool {
    let n = admitted.len();
    &&& actions.len() == (if n > 0 { n + 1 } else { 0 })
    &&& forall|i: int| 0 <= i < n ==> #[trigger] actions[i] is SaveKnownMailbox
    &&& forall|i: int, j: int| 0 <= i < j < n ==> #[trigger] actions[i].peer() != #[trigger] actions[j].peer()
    &&& forall|i: int| 0 <= i < n ==> admitted.contains(#[trigger] actions[i].peer()->0)
    &&& forall|p: Seq<u8>| #[trigger] admitted.contains(p) ==> exists|i: int| 0 <= i < n && #[trigger] actions[i].peer() == Some(p)
    &&& n > 0 ==> actions[n as int] is RetryOutbox
}

fn save_then_retry_actions(added: &Vec<PeerKey>) -> (actions: Vec<SyncAction>)
    requires
        key_views(added@).no_duplicates(),
    ensures
        saves_then_retry(actions@, key_views(added@).to_set()),
{
    let mut actions: Vec<SyncAction> = Vec::new();
    let mut i: usize = 0;
    while i < added.len()
        invariant
            i <= added.len(),
            actions.len() == i,
            forall|j: int| 0 <= j < i ==> #[trigger] actions@[j] is SaveKnownMailbox,
            forall|j: int| 0 <= j < i ==> #[trigger] actions@[j].peer() == Some(key_views(added@)[j]),
        decreases added.len() - i,
    {
        actions.push(SyncAction::SaveKnownMailbox(copy_key(&added[i])));
        i += 1;
    }
    let ghost s = key_views(added@);
    proof {
        s.unique_seq_to_set();
    }
    if added.len() > 0 {
        actions.push(SyncAction::RetryOutbox);
    }
    proof {
        let n = s.to_set().len();
        assert(n == added.len());
        assert forall|i: int| 0 <= i < n implies s.to_set().contains(#[trigger] actions@[i].peer()->0) by {
            assert(actions@[i].peer() == Some(s[i]));
            assert(s.contains(s[i]));
        }
        assert forall|p: Seq<u8>| #[trigger] s.to_set().contains(p) implies exists|i: int| 0 <= i < n && #[trigger] actions@[i].peer() == Some(p) by {
            let i = choose|i: int| 0 <= i < s.len() && s[i] == p;
            assert(actions@[i].peer() == Some(p));
        }
        assert forall|i: int, j: int| 0 <= i < j < n implies #[trigger] actions@[i].peer() != #[trigger] actions@[j].peer() by {
            assert(actions@[i].peer() == Some(s[i]));
            assert(actions@[j].peer() == Some(s[j]));
        }
    }
    actions
}

proof fn lemma_push_no_dup(s: Seq<Seq<u8>>, x: Seq<u8>)
    requires
        s.no_duplicates(),
        !s.to_set().contains(x),
    ensures
        s.push(x).no_duplicates(),
{
    let t = s.push(x);
    assert forall|a: int, b: int| 0 <= a < t.len() && 0 <= b < t.len() && a != b implies t[a] != t[b] by {
        if a == s.len() {
            assert(s.contains(t[b]));
        } else if b == s.len() {
            assert(s.contains(t[a]));
        }
    }
}

pub(crate) proof fn lemma_push_to_set(s: Seq<Seq<u8>>, x: Seq<u8>)
    ensures
        s.push(x).to_set() == s.to_set().insert(x),
{
    super::ranking::lemma_to_set_insert(s, s.len() as int, x);
    assert(s.insert(s.len() as int, x) =~= s.push(x));
}

/// No two pending queries in `m` are for the same record key.
pub open spec fn query_keys_distinct(m: Map<u64, QueryInfo>) -> bool {
    forall|a: u64, b: u64|
        #![trigger m[a], m[b]]
        m.dom().contains(a) && m.dom().contains(b) && a != b ==> m[a].key != m[b].key
}

/// Pending queries never share a record key: starting a query only for a key
/// that has none (as `has_pending_query_for` tells), marking a query as
/// answered, and dropping queries (a final result, or the stale ones) all
/// keep the keys distinct.
pub proof fn law_query_keys_stay_distinct(m: Map<u64, QueryInfo>, id: u64, key: Seq<u8>, now: u64, kept: Set<u64>)
    requires
        query_keys_distinct(m),
    ensures
        !(exists|i: u64| #[trigger] m.dom().contains(i) && m[i].key == key) ==> query_keys_distinct(
            m.insert(id, QueryInfo { key, started_at: now, received_results: false }),
        ),
        m.dom().contains(id) ==> query_keys_distinct(m.insert(id, QueryInfo { received_results: true, ..m[id] })),
        query_keys_distinct(m.remove(id)),
        query_keys_distinct(m.restrict(kept)),
{
    if !(exists|i: u64| #[trigger] m.dom().contains(i) && m[i].key == key) {
        let n = m.insert(id, QueryInfo { key, started_at: now, received_results: false });
        assert forall|a: u64, b: u64|
            #![trigger n[a], n[b]]
            n.dom().contains(a) && n.dom().contains(b) && a != b implies n[a].key != n[b].key by {
            if a == id {
                assert(m.dom().contains(b) && m[b] == n[b]);
            } else if b == id {
                assert(m.dom().contains(a) && m[a] == n[a]);
            } else {
                assert(m[a] == n[a] && m[b] == n[b]);
            }
        }
    }
    if m.dom().contains(id) {
        let n = m.insert(id, QueryInfo { received_results: true, ..m[id] });
        assert forall|a: u64, b: u64|
            #![trigger n[a], n[b]]
            n.dom().contains(a) && n.dom().contains(b) && a != b implies n[a].key != n[b].key by {
            assert(n[a].key == m[a].key && n[b].key == m[b].key);
        }
    }
    let r = m.remove(id);
    assert forall|a: u64, b: u64|
        #![trigger r[a], r[b]]
        r.dom().contains(a) && r.dom().contains(b) && a != b implies r[a].key != r[b].key by {
        assert(r[a] == m[a] && r[b] == m[b]);
    }
    let k = m.restrict(kept);
    assert forall|a: u64, b: u64|
        #![trigger k[a], k[b]]
        k.dom().contains(a) && k.dom().contains(b) && a != b implies k[a].key != k[b].key by {
        assert(k[a] == m[a] && k[b] == m[b]);
    }
}

/// The keys of `keys` that no query of `pending` has, each once, in order.
pub open spec fn unqueried(keys: Seq<Seq<u8>>, pending: Map<u64, QueryInfo>) -> Seq<Seq<u8>>
    decreases keys.len(),
{
    if keys.len() == 0 {
        Seq::empty()
    } else {
        let r = unqueried(keys.drop_last(), pending);
        if (exists|id: u64| #[trigger] pending.dom().contains(id) && pending[id].key == keys.last()) || r.contains(
            keys.last(),
        ) {
            r
        } else {
            r.push(keys.last())
        }
    }
}

/// The keys chosen for new queries are pending nowhere and distinct, so
/// starting and recording a query for each, in turn, keeps the keys of the
/// pending queries distinct.
pub proof fn law_chosen_keys_are_fresh(keys: Seq<Seq<u8>>, pending: Map<u64, QueryInfo>)
    ensures
        unqueried(keys, pending).no_duplicates(),
        forall|i: int| #![trigger unqueried(keys, pending)[i]]
            0 <= i < unqueried(keys, pending).len() ==> !(exists|id: u64| #[trigger]
                pending.dom().contains(id) && pending[id].key == unqueried(keys, pending)[i]),
    decreases keys.len(),
{
    if keys.len() > 0 {
        law_chosen_keys_are_fresh(keys.drop_last(), pending);
        let r = unqueried(keys.drop_last(), pending);
        let u = unqueried(keys, pending);
        if u != r {
            assert(u == r.push(keys.last()));
            assert forall|i: int| #![trigger u[i]] 0 <= i < u.len() implies !(exists|id: u64| #[trigger]
                pending.dom().contains(id) && pending[id].key == u[i]) by {
                if i < r.len() {
                    assert(u[i] == r[i]);
                }
            }
            assert forall|a: int, b: int| 0 <= a < u.len() && 0 <= b < u.len() && a != b implies u[a] != u[b] by {
                if a < r.len() && b < r.len() {
                    assert(u[a] == r[a] && u[b] == r[b]);
                } else if a == r.len() {
                    assert(u[b] == r[b]);
                    assert(r.contains(r[b]));
                } else {
                    assert(u[a] == r[a]);
                    assert(r.contains(r[a]));
                }
            }
        }
    }
}

/// Without forcing, a discovery is due exactly when fewer than two of the
/// discovered mailboxes may be attempted at `now` (backed-off ones do not
/// count) and the last discovery, if any, is at least 30 s before `now`. So
/// when every discovered mailbox is backed off, a discovery runs once the
/// rate limit allows, and two attemptable mailboxes always skip it.
pub proof fn law_discovery_counts_attemptable_mailboxes(e: SyncEngine, now: u64)
    ensures
        ({
            let attemptable = e.discovered_mailboxes@.filter(
                |p: Seq<u8>| spec_can_attempt(e.backoff_manager@, p, now),
            );
            let rested = match e.last_discovery_time {
                Some(t) => now >= t && now - t >= 30_000,
                None => true,
            };
            &&& e.spec_discovery_due(false, now) <==> (attemptable.len() < 2 && rested)
            &&& (forall|p: Seq<u8>| #[trigger] e.discovered_mailboxes@.contains(p) ==> !spec_can_attempt(
                e.backoff_manager@,
                p,
                now,
            )) && rested ==> e.spec_discovery_due(false, now)
        }),
{
    let attemptable = e.discovered_mailboxes@.filter(|p: Seq<u8>| spec_can_attempt(e.backoff_manager@, p, now));
    assert(attemptable == e.spec_available(now));
    if forall|p: Seq<u8>| #[trigger] e.discovered_mailboxes@.contains(p) ==> !spec_can_attempt(
        e.backoff_manager@,
        p,
        now,
    ) {
        assert(attemptable =~= Set::<Seq<u8>>::empty());
    }
}

} // verus!
