//! Decisions for delivering the messages waiting in the outbox: a direct
//! attempt to the recipient unless it is backed off, then a forward to the
//! best mailboxes.
use vstd::prelude::*;

use crate::peers::{copy_key, key_views, PeerKey, PeerMap};
use crate::sync::backoff::{after_peer_success, can_count_attempt_for, entry_or_fresh, peer_attempt_recorded, spec_can_attempt};

use super::reliability::{can_count_interaction, failures_recorded, perf_or_new, perf_updated, spec_should_forget_mailbox};
use super::ranking::ranked_at;
use super::SyncEngine;

verus! {

/// A message forwarded to this many mailboxes is stored well enough.
pub const MIN_REPLICAS: usize = 2;

/// The most mailboxes a message is offered to.
pub const MAX_FORWARD_ATTEMPTS: usize = 4;

/// What to do before retrying the outbox.
#[derive(Debug)]
pub struct OutboxRetryPlan {
    /// Whether to go through the pending messages.
    pub proceed: bool,
    /// Whether to force a mailbox discovery first.
    pub force_discovery: bool,
}

/// An ongoing forward of one message to the best mailboxes.
#[derive(Debug)]
pub struct ForwardRun {
    /// The mailboxes to offer the message to, best first.
    pub candidates: Vec<PeerKey>,
    /// How many candidates may be offered the message.
    pub limit: usize,
    /// How many candidates have been looked at.
    pub next: usize,
    /// How many mailboxes stored the message.
    pub forwarded: usize,
    /// The mailboxes to forget when the run ends.
    pub to_forget: Vec<PeerKey>,
}

impl ForwardRun {
    /// The run is consistent.
    pub open spec fn wf(&self) -> bool {
        &&& self.limit <= self.candidates.len()
        &&& self.limit <= MAX_FORWARD_ATTEMPTS
        &&& self.next <= self.limit
        &&& self.forwarded <= self.next
    }

    /// Whether the run has stored the message in at least one mailbox.
    pub fn succeeded(&self) -> (r: bool)
        ensures
            r == (self.forwarded > 0),
    {
        self.forwarded > 0
    }

    /// The next mailbox to offer the message to: the next candidate that is
    /// still discovered, unless the message is already stored in two
    /// mailboxes or the candidates allowed are used up.
    pub fn next_target(&mut self, engine: &SyncEngine) -> (r: Option<PeerKey>)
        requires
            old(self).wf(),
            engine.wf(),
        ensures
            final(self).wf(),
            final(self).candidates == old(self).candidates,
            final(self).limit == old(self).limit,
            final(self).forwarded == old(self).forwarded,
            final(self).to_forget == old(self).to_forget,
            old(self).forwarded >= MIN_REPLICAS ==> r is None && final(self).next == old(self).next,
            match r {
                Some(p) => {
                    &&& old(self).forwarded < MIN_REPLICAS
                    &&& old(self).next < final(self).next <= old(self).limit
                    &&& p@ == final(self).candidates@[final(self).next - 1]@
                    &&& engine.discovered_mailboxes@.contains(p@)
                    &&& forall|i: int| old(self).next <= i < final(self).next - 1
                        ==> !engine.discovered_mailboxes@.contains(#[trigger] final(self).candidates@[i]@)
                },
                None => {
                    &&& old(self).forwarded < MIN_REPLICAS ==> final(self).next == old(self).limit
                    &&& forall|i: int| old(self).next <= i < final(self).next
                        ==> !engine.discovered_mailboxes@.contains(#[trigger] final(self).candidates@[i]@)
                },
            },
    {
        if self.forwarded >= MIN_REPLICAS {
            return None;
        }
        while self.next < self.limit
            invariant
                self.wf(),
                self.candidates == old(self).candidates,
                self.limit == old(self).limit,
                self.forwarded == old(self).forwarded,
                self.forwarded < MIN_REPLICAS,
                self.to_forget == old(self).to_forget,
                old(self).next <= self.next,
                forall|i: int| old(self).next <= i < self.next
                    ==> !engine.discovered_mailboxes@.contains(#[trigger] self.candidates@[i]@),
            decreases self.limit - self.next,
        {
            let i = self.next;
            self.next = self.next + 1;
            if engine.discovered_mailboxes.contains(&self.candidates[i]) {
                return Some(copy_key(&self.candidates[i]));
            }
        }
        None
    }

    /// Reports the outcome of offering the message to `peer` at clock reading
    /// `now`: whether the mailbox stored it, and the mailbox's new average
    /// response time after the time the offer took (weighted by the caller,
    /// see `performance`). The mailbox's performance is updated, and a
    /// mailbox that refused and is to be forgotten is noted for the end of the
    /// run.
    pub fn record_result(&mut self, engine: &mut SyncEngine, peer: &PeerKey, stored: bool, average: u64, now: u64)
        requires
            old(self).wf(),
            old(self).forwarded < old(self).next,
            old(engine).wf(),
            can_count_interaction(old(engine).mailbox_performance@, peer@),
            !stored ==> can_count_attempt_for(old(engine).backoff_manager@, peer@),
        ensures
            final(self).wf(),
            final(engine).wf(),
            final(self).candidates == old(self).candidates,
            final(self).limit == old(self).limit,
            final(self).next == old(self).next,
            final(self).forwarded == (if stored {
                old(self).forwarded + 1
            } else {
                old(self).forwarded as int
            }),
            perf_updated(
                old(engine).mailbox_performance@,
                final(engine).mailbox_performance@,
                peer@,
                perf_or_new(old(engine).mailbox_performance@, peer@).after_interaction(stored, average, now),
            ),
            stored ==> final(engine).backoff_manager@ == after_peer_success(old(engine).backoff_manager@, peer@),
            !stored ==> peer_attempt_recorded(
                old(engine).backoff_manager@,
                final(engine).backoff_manager@,
                peer@,
                now,
            ),
            key_views(final(self).to_forget@) == (if !stored && spec_should_forget_mailbox(
                final(engine).mailbox_performance@,
                peer@,
                now,
            ) {
                key_views(old(self).to_forget@).push(peer@)
            } else {
                key_views(old(self).to_forget@)
            }),
            final(engine).discovered_mailboxes == old(engine).discovered_mailboxes,
            final(engine).pending_dht_queries == old(engine).pending_dht_queries,
            final(engine).last_discovery_time == old(engine).last_discovery_time,
            final(engine).interval == old(engine).interval,
    {
        engine.update_mailbox_performance(copy_key(peer), stored, average, now);
        if stored {
            self.forwarded = self.forwarded + 1;
        } else if engine.should_forget_mailbox(peer, now) {
            let ghost prev = key_views(self.to_forget@);
            self.to_forget.push(copy_key(peer));
            assert(key_views(self.to_forget@) =~= prev.push(peer@));
        }
    }
}

/// A forward offers a message to at most four mailboxes, counts no more
/// stored copies than offers, and offers none once two mailboxes stored it.
pub proof fn law_forward_bounded(run: ForwardRun)
    requires
        run.wf(),
    ensures
        run.next <= MAX_FORWARD_ATTEMPTS,
        run.forwarded <= run.next,
        run.next <= run.candidates.len(),
{
}

impl SyncEngine {
    /// What to do before retrying `pending` outbox messages: nothing when
    /// there are none or there is no network; otherwise go through them, after
    /// a forced discovery when no mailbox is known.
    pub fn plan_outbox_retry(&self, pending: usize, has_network: bool) -> (plan: OutboxRetryPlan)
        requires
            self.wf(),
        ensures
            plan.proceed == (pending > 0 && has_network),
            plan.force_discovery == (plan.proceed && self.discovered_mailboxes@.len() == 0),
    {
        if pending == 0 || !has_network {
            return OutboxRetryPlan { proceed: false, force_discovery: false };
        }
        OutboxRetryPlan { proceed: true, force_discovery: self.discovered_mailboxes.is_empty() }
    }

    /// Whether a direct delivery to `recipient` is tried at clock reading
    /// `now`: only when it is not backed off; a tried delivery is counted as
    /// an attempt in its backoff.
    pub fn begin_direct_delivery(&mut self, recipient: &PeerKey, now: u64) -> (tried: bool)
        requires
            old(self).wf(),
            can_count_attempt_for(old(self).backoff_manager@, recipient@),
        ensures
            final(self).wf(),
            tried == spec_can_attempt(old(self).backoff_manager@, recipient@, now),
            tried ==> peer_attempt_recorded(
                old(self).backoff_manager@,
                final(self).backoff_manager@,
                recipient@,
                now,
            ),
            !tried ==> final(self).backoff_manager == old(self).backoff_manager,
            final(self).discovered_mailboxes == old(self).discovered_mailboxes,
            final(self).mailbox_performance == old(self).mailbox_performance,
            final(self).pending_dht_queries == old(self).pending_dht_queries,
            final(self).last_discovery_time == old(self).last_discovery_time,
            final(self).interval == old(self).interval,
    {
        if self.backoff_manager.can_attempt_at(recipient, now) {
            self.backoff_manager.record_attempt_at(copy_key(recipient), now);
            true
        } else {
            false
        }
    }

    /// Reports the outcome of a direct delivery to `recipient` at clock
    /// reading `now`: a tried delivery resets the backoff on success and
    /// counts a failure otherwise. Returns whether the message was delivered.
    pub fn finish_direct_delivery(&mut self, recipient: &PeerKey, tried: bool, delivered: bool, now: u64) -> (r: bool)
        requires
            old(self).wf(),
            tried && !delivered ==> can_count_attempt_for(old(self).backoff_manager@, recipient@),
        ensures
            final(self).wf(),
            r == (tried && delivered),
            tried && delivered ==> final(self).backoff_manager@ == after_peer_success(
                old(self).backoff_manager@,
                recipient@,
            ),
            tried && !delivered ==> peer_attempt_recorded(
                old(self).backoff_manager@,
                final(self).backoff_manager@,
                recipient@,
                now,
            ),
            !tried ==> final(self).backoff_manager == old(self).backoff_manager,
            final(self).discovered_mailboxes == old(self).discovered_mailboxes,
            final(self).mailbox_performance == old(self).mailbox_performance,
            final(self).pending_dht_queries == old(self).pending_dht_queries,
            final(self).last_discovery_time == old(self).last_discovery_time,
            final(self).interval == old(self).interval,
    {
        if !tried {
            return false;
        }
        if delivered {
            self.backoff_manager.record_success(recipient);
            true
        } else {
            self.backoff_manager.record_failure_at(copy_key(recipient), now);
            false
        }
    }

    /// Starts forwarding a message at clock reading `now`: the candidates are
    /// the discovered mailboxes that may be attempted, best score in `scores`
    /// first, of which at most four are offered the message.
    pub fn begin_forward(&self, now: u64, scores: &PeerMap<u64>) -> (run: ForwardRun)
        requires
            self.wf(),
            scores.wf(),
        ensures
            run.wf(),
            key_views(run.candidates@).no_duplicates(),
            key_views(run.candidates@).to_set() == self.spec_available(now),
            ranked_at(self.backoff_manager@, scores@, self.discovered_mailboxes@, key_views(run.candidates@), now),
            run.limit == (if run.candidates.len() < MAX_FORWARD_ATTEMPTS {
                run.candidates.len()
            } else {
                MAX_FORWARD_ATTEMPTS
            }),
            run.next == 0,
            run.forwarded == 0,
            run.to_forget@.len() == 0,
    {
        let candidates = self.rank_mailboxes_subset_at(&self.discovered_mailboxes, now, scores);
        let limit = if candidates.len() < MAX_FORWARD_ATTEMPTS {
            candidates.len()
        } else {
            MAX_FORWARD_ATTEMPTS
        };
        ForwardRun { candidates, limit, next: 0, forwarded: 0, to_forget: Vec::new() }
    }

    /// Ends a forward at clock reading `now`: the mailboxes noted during the
    /// run are forgotten, each still discovered one counting a failure in its
    /// backoff. Returns whether some mailbox stored the message.
    pub fn finish_forward(&mut self, run: ForwardRun, now: u64) -> (r: bool)
        requires
            old(self).wf(),
            forall|p: Seq<u8>|
                key_views(run.to_forget@).contains(p) && old(self).discovered_mailboxes@.contains(p)
                    ==> #[trigger] can_count_attempt_for(old(self).backoff_manager@, p),
        ensures
            final(self).wf(),
            r == (run.forwarded > 0),
            final(self).discovered_mailboxes@ == old(self).discovered_mailboxes@.difference(
                key_views(run.to_forget@).to_set(),
            ),
            failures_recorded(
                old(self).backoff_manager@,
                final(self).backoff_manager@,
                old(self).discovered_mailboxes@.intersect(key_views(run.to_forget@).to_set()),
                now,
            ),
            final(self).mailbox_performance@ == old(self).mailbox_performance@,
            final(self).pending_dht_queries == old(self).pending_dht_queries,
            final(self).last_discovery_time == old(self).last_discovery_time,
            final(self).interval == old(self).interval,
    {
        let ghost forget = key_views(run.to_forget@);
        let ghost bo0 = old(self).backoff_manager@;
        let ghost disc0 = old(self).discovered_mailboxes@;
        let ghost known = |p: Seq<u8>| disc0.contains(p);
        let ghost mut done: Set<Seq<u8>> = Set::empty();
        proof {
            assert(forget.take(0).to_set() =~= Set::<Seq<u8>>::empty());
            assert(forget.take(0).to_set().filter(known) =~= done);
            assert(bo0.dom().union(done) =~= bo0.dom());
            assert(disc0.difference(forget.take(0).to_set()) =~= disc0);
        }
        let mut i: usize = 0;
        while i < run.to_forget.len()
            invariant
                self.wf(),
                forget == key_views(run.to_forget@),
                bo0 == old(self).backoff_manager@,
                disc0 == old(self).discovered_mailboxes@,
                known == (|p: Seq<u8>| disc0.contains(p)),
                i <= run.to_forget.len(),
                done == forget.take(i as int).to_set().filter(known),
                self.discovered_mailboxes@ == disc0.difference(forget.take(i as int).to_set()),
                failures_recorded(bo0, self.backoff_manager@, done, now),
                self.mailbox_performance@ == old(self).mailbox_performance@,
                self.pending_dht_queries == old(self).pending_dht_queries,
                self.last_discovery_time == old(self).last_discovery_time,
                self.interval == old(self).interval,
                forall|p: Seq<u8>|
                    forget.contains(p) && disc0.contains(p) ==> #[trigger] can_count_attempt_for(bo0, p),
            decreases run.to_forget.len() - i,
        {
            let peer = &run.to_forget[i];
            let ghost pv = peer@;
            let ghost bo_now = self.backoff_manager@;
            proof {
                assert(forget[i as int] == pv);
                assert(forget.contains(pv));
                assert(forget.take(i + 1) =~= forget.take(i as int).push(pv));
                super::discovery::lemma_push_to_set(forget.take(i as int), pv);
                crate::sync::engine::ranking::lemma_to_set_filter_push(forget.take(i as int), pv, known);
            }
            if self.discovered_mailboxes.contains(peer) {
                proof {
                    assert(disc0.contains(pv));
                    assert(!forget.take(i as int).to_set().contains(pv));
                    assert(!done.contains(pv));
                    assert(can_count_attempt_for(bo0, pv));
                    assert(can_count_attempt_for(bo_now, pv)) by {
                        if bo_now.dom().contains(pv) {
                            assert(bo0.dom().contains(pv));
                            assert(bo_now[pv] == bo0[pv]);
                        }
                    }
                }
                self.forget_failing_mailbox(peer, now);
                proof {
                    let new_done = done.insert(pv);
                    let nb = self.backoff_manager@;
                    assert(nb.dom() =~= bo0.dom().union(new_done));
                    assert forall|k: Seq<u8>| #[trigger] nb.dom().contains(k) && !new_done.contains(k)
                        implies nb[k] == bo0[k] by {
                        assert(bo_now.dom().contains(k));
                    }
                    assert forall|k: Seq<u8>| #[trigger] new_done.contains(k)
                        implies entry_or_fresh(bo0, k, now).attempt_recorded(nb[k], now) by {
                        if k == pv {
                            assert(entry_or_fresh(bo_now, k, now) == entry_or_fresh(bo0, k, now));
                        } else {
                            assert(done.contains(k));
                            assert(bo_now.dom().contains(k));
                            assert(nb.dom().contains(k));
                            assert(nb[k] == bo_now[k]);
                        }
                    }
                    assert(self.discovered_mailboxes@ =~= disc0.difference(forget.take(i + 1).to_set()));
                    done = new_done;
                }
            } else {
                proof {
                    assert(self.discovered_mailboxes@ =~= disc0.difference(forget.take(i + 1).to_set()));
                    if known(pv) {
                        assert(forget.take(i as int).to_set().contains(pv));
                        assert(done.contains(pv));
                        assert(done.insert(pv) =~= done);
                    }
                }
            }
            i += 1;
        }
        proof {
            assert(forget.take(run.to_forget.len() as int) =~= forget);
            assert(done =~= disc0.intersect(forget.to_set()));
        }
        run.forwarded > 0
    }
}

} // verus!
