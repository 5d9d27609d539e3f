//! Tracking how reliable mailbox providers are, and forgetting failing ones.
use vstd::prelude::*;

use crate::peers::{copy_key, key_views, PeerKey};
use crate::sync::backoff::{after_peer_success, can_count_attempt_for, entry_or_fresh, peer_attempt_recorded, BackoffEntry};

use super::performance::{
    MailboxPerformance, MAX_CONSECUTIVE_FAILURES, MAX_FAILURES_IN_WINDOW,
};
use super::{perf_counters_ok, SyncEngine};

verus! {

/// A mailbox with record `p` is to be forgotten at `now`: three consecutive
/// failures, or five failures within the last minute.
pub open spec fn spec_should_forget(p: MailboxPerformance, now: u64) -> bool {
    ||| p.consecutive_failures >= MAX_CONSECUTIVE_FAILURES
    ||| p.recent_failures.count_in_window(now) >= MAX_FAILURES_IN_WINDOW
}

/// `peer` is to be forgotten at `now`, given the performance records.
pub open spec fn spec_should_forget_mailbox(
    perf: Map<Seq<u8>, MailboxPerformance>,
    peer: Seq<u8>,
    now: u64,
) -> bool {
    perf.dom().contains(peer) && spec_should_forget(perf[peer], now)
}

/// The record that an interaction of `peer` starts from.
pub open spec fn perf_or_new(perf: Map<Seq<u8>, MailboxPerformance>, peer: Seq<u8>) -> MailboxPerformance {
    if perf.dom().contains(peer) {
        perf[peer]
    } else {
        MailboxPerformance::spec_new()
    }
}

/// `new` is `old` with the record of `peer` set to `expected`.
pub open spec fn perf_updated(
    old: Map<Seq<u8>, MailboxPerformance>,
    new: Map<Seq<u8>, MailboxPerformance>,
    peer: Seq<u8>,
    expected: MailboxPerformance,
) -> bool {
    new == old.insert(peer, expected)
}

/// An interaction of `peer` can be counted: its counters have room.
pub open spec fn can_count_interaction(perf: Map<Seq<u8>, MailboxPerformance>, peer: Seq<u8>) -> bool {
    perf.dom().contains(peer) ==> perf[peer].success_count + perf[peer].failure_count < u32::MAX
}

/// `new` is `old` after a failure was recorded at `now` for each of the peers
/// in `peers`.
pub open spec fn failures_recorded(
    old: Map<Seq<u8>, BackoffEntry>,
    new: Map<Seq<u8>, BackoffEntry>,
    peers: Set<Seq<u8>>,
    now: u64,
) -> bool {
    &&& new.dom() == old.dom().union(peers)
    &&& forall|k: Seq<u8>| #[trigger] new.dom().contains(k) && !peers.contains(k) ==> new[k] == old[k]
    &&& forall|k: Seq<u8>| #[trigger]
        peers.contains(k) ==> entry_or_fresh(old, k, now).attempt_recorded(new[k], now)
}

impl SyncEngine {
    /// Whether `peer` is to be forgotten at clock reading `now`: three
    /// consecutive failures, or five failures within the last minute.
    pub fn should_forget_mailbox(&self, peer: &PeerKey, now: u64) -> (r: bool)
        requires
            self.wf(),
        ensures
            r == spec_should_forget_mailbox(self.mailbox_performance@, peer@, now),
    {
        match self.mailbox_performance.get(peer) {
            None => false,
            Some(p) => {
                if p.consecutive_failures >= MAX_CONSECUTIVE_FAILURES {
                    return true;
                }
                p.recent_failures.in_window_at(now) >= MAX_FAILURES_IN_WINDOW as u64
            },
        }
    }

    /// Records an interaction of `peer` at clock reading `now` that succeeded
    /// or failed, with `average` as its new average response time (the
    /// caller weights it, see `performance`): the performance record moves,
    /// and the backoff of `peer` is reset on a success and counts an attempt
    /// on a failure.
    pub fn update_mailbox_performance(&mut self, peer: PeerKey, success: bool, average: u64, now: u64)
        requires
            old(self).wf(),
            can_count_interaction(old(self).mailbox_performance@, peer@),
            !success ==> can_count_attempt_for(old(self).backoff_manager@, peer@),
        ensures
            final(self).wf(),
            perf_updated(
                old(self).mailbox_performance@,
                final(self).mailbox_performance@,
                peer@,
                perf_or_new(old(self).mailbox_performance@, peer@).after_interaction(success, average, now),
            ),
            success ==> final(self).backoff_manager@ == after_peer_success(
                old(self).backoff_manager@,
                peer@,
            ),
            !success ==> peer_attempt_recorded(
                old(self).backoff_manager@,
                final(self).backoff_manager@,
                peer@,
                now,
            ),
            final(self).discovered_mailboxes == old(self).discovered_mailboxes,
            final(self).pending_dht_queries == old(self).pending_dht_queries,
            final(self).last_discovery_time == old(self).last_discovery_time,
            final(self).interval == old(self).interval,
    {
        let mut perf = match self.mailbox_performance.get(&peer) {
            Some(p) => *p,
            None => MailboxPerformance::new(),
        };
        perf.record_interaction(success, average, now);
        self.mailbox_performance.set(copy_key(&peer), perf);
        if success {
            self.backoff_manager.record_success(&peer);
        } else {
            self.backoff_manager.record_failure_at(peer, now);
        }
        proof {
            let m = self.mailbox_performance@;
            assert forall|k: Seq<u8>| #[trigger] m.dom().contains(k) implies m[k].success_count
                + m[k].failure_count <= u32::MAX && m[k].consecutive_failures <= m[k].failure_count by {
                if k != peer@ {
                    assert(old(self).mailbox_performance@.dom().contains(k));
                }
            }
        }
    }

    /// Forgets `peer` as a mailbox provider if it was one, counting a failure
    /// in its backoff at clock reading `now`.
    pub fn forget_failing_mailbox(&mut self, peer: &PeerKey, now: u64)
        requires
            old(self).wf(),
            old(self).discovered_mailboxes@.contains(peer@) ==> can_count_attempt_for(
                old(self).backoff_manager@,
                peer@,
            ),
        ensures
            final(self).wf(),
            final(self).discovered_mailboxes@ == old(self).discovered_mailboxes@.remove(peer@),
            old(self).discovered_mailboxes@.contains(peer@) ==> peer_attempt_recorded(
                old(self).backoff_manager@,
                final(self).backoff_manager@,
                peer@,
                now,
            ),
            !old(self).discovered_mailboxes@.contains(peer@) ==> final(self).backoff_manager@
                == old(self).backoff_manager@,
            final(self).mailbox_performance@ == old(self).mailbox_performance@,
            final(self).pending_dht_queries == old(self).pending_dht_queries,
            final(self).last_discovery_time == old(self).last_discovery_time,
            final(self).interval == old(self).interval,
    {
        if self.discovered_mailboxes.remove(peer) {
            self.backoff_manager.record_failure_at(copy_key(peer), now);
        }
    }

    /// Forgets every discovered mailbox that is to be forgotten at clock
    /// reading `now`, counting a failure in the backoff of each.
    pub fn cleanup_failing_mailboxes(&mut self, now: u64)
        requires
            old(self).wf(),
            forall|p: Seq<u8>|
                old(self).discovered_mailboxes@.contains(p) && spec_should_forget_mailbox(
                    old(self).mailbox_performance@,
                    p,
                    now,
                ) ==> #[trigger] can_count_attempt_for(old(self).backoff_manager@, p),
        ensures
            final(self).wf(),
            final(self).discovered_mailboxes@ == old(self).discovered_mailboxes@.filter(
                |p: Seq<u8>| !spec_should_forget_mailbox(old(self).mailbox_performance@, p, now),
            ),
            failures_recorded(
                old(self).backoff_manager@,
                final(self).backoff_manager@,
                old(self).discovered_mailboxes@.filter(
                    |p: Seq<u8>| spec_should_forget_mailbox(old(self).mailbox_performance@, p, now),
                ),
                now,
            ),
            final(self).mailbox_performance@ == old(self).mailbox_performance@,
            final(self).pending_dht_queries == old(self).pending_dht_queries,
            final(self).last_discovery_time == old(self).last_discovery_time,
            final(self).interval == old(self).interval,
    {
        let ghost perf = self.mailbox_performance@;
        let ghost disc = self.discovered_mailboxes@;
        let ghost bo = self.backoff_manager@;
        let ghost forget = |p: Seq<u8>| spec_should_forget_mailbox(perf, p, now);
        let all = self.discovered_mailboxes.to_vec();
        let mut i: usize = 0;
        let ghost mut done: Set<Seq<u8>> = Set::empty();
        proof {
            assert(key_views(all@).to_set() == disc);
            assert(bo.dom().union(done) =~= bo.dom());
            assert(key_views(all@).take(0).to_set().filter(forget) =~= done);
            assert(disc.filter(|p: Seq<u8>| !done.contains(p)) =~= disc);
        }
        while i < all.len()
            invariant
                self.wf(),
                self.mailbox_performance@ == perf,
                self.pending_dht_queries == old(self).pending_dht_queries,
                self.last_discovery_time == old(self).last_discovery_time,
                self.interval == old(self).interval,
                disc == old(self).discovered_mailboxes@,
                bo == old(self).backoff_manager@,
                perf == old(self).mailbox_performance@,
                forget == (|p: Seq<u8>| spec_should_forget_mailbox(perf, p, now)),
                key_views(all@).to_set() == disc,
                key_views(all@).no_duplicates(),
                i <= all.len(),
                done == key_views(all@).take(i as int).to_set().filter(forget),
                self.discovered_mailboxes@ == disc.filter(|p: Seq<u8>| !done.contains(p)),
                failures_recorded(bo, self.backoff_manager@, done, now),
                forall|p: Seq<u8>|
                    disc.contains(p) && spec_should_forget_mailbox(perf, p, now)
                        ==> #[trigger] can_count_attempt_for(bo, p),
            decreases all.len() - i,
        {
            let peer = &all[i];
            let ghost pv = peer@;
            assert(pv == key_views(all@)[i as int]);
            assert(disc.contains(pv)) by {
                assert(key_views(all@).contains(pv));
            }
            assert(!done.contains(pv)) by {
                if done.contains(pv) {
                    let t = choose|t: int| 0 <= t < i && key_views(all@).take(i as int)[t] == pv;
                    assert(key_views(all@)[t] == key_views(all@)[i as int]);
                }
            }
            let ghost before_bo = self.backoff_manager@;
            if self.should_forget_mailbox(peer, now) {
                assert(can_count_attempt_for(before_bo, pv)) by {
                    assert(can_count_attempt_for(bo, pv));
                    if before_bo.dom().contains(pv) {
                        if !done.contains(pv) && before_bo.dom().contains(pv) {
                            assert(before_bo[pv] == bo[pv]);
                        }
                    }
                }
                self.forget_failing_mailbox(peer, now);
                proof {
                    let new_done = done.insert(pv);
                    let nb = self.backoff_manager@;
                    assert(nb.dom() =~= bo.dom().union(new_done));
                    assert forall|k: Seq<u8>| #[trigger] nb.dom().contains(k) && !new_done.contains(k) implies nb[k] == bo[k] by {
                        assert(k != pv);
                        assert(before_bo.dom().contains(k));
                    }
                    assert forall|k: Seq<u8>| #[trigger] new_done.contains(k) implies entry_or_fresh(bo, k, now).attempt_recorded(nb[k], now) by {
                        if k == pv {
                            assert(entry_or_fresh(before_bo, k, now) == entry_or_fresh(bo, k, now));
                        } else {
                            assert(done.contains(k));
                            assert(before_bo.dom().contains(k));
                            assert(nb.dom().contains(k));
                            assert(nb[k] == before_bo[k]);
                        }
                    }
                    assert(self.discovered_mailboxes@ =~= disc.filter(|p: Seq<u8>| !new_done.contains(p)));
                    done = new_done;
                }
            } else {
                proof {
                    assert(!forget(pv));
                }
            }
            proof {
                let t1 = key_views(all@).take(i + 1);
                assert(t1 =~= key_views(all@).take(i as int).push(pv));
                crate::sync::engine::ranking::lemma_to_set_filter_push(key_views(all@).take(i as int), pv, forget);
            }
            i += 1;
        }
        proof {
            assert(key_views(all@).take(all.len() as int) =~= key_views(all@));
            assert(done == disc.filter(forget));
            assert(self.discovered_mailboxes@ =~= disc.filter(
                |p: Seq<u8>| !spec_should_forget_mailbox(perf, p, now),
            ));
        }
    }
}

} // verus!
