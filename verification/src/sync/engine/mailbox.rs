//! Decisions for fetching from mailboxes: which mailboxes to ask, what a
//! failed fetch costs a mailbox, and how a fetched message is rebuilt.
use vstd::prelude::*;
use vstd::utf8::valid_utf8;

use crate::peers::{copy_key, PeerKey};
use crate::sync::backoff::{attempts_recorded, entry_or_fresh, lemma_attempts_step, spec_can_attempt};
use crate::sync::retry::RetryPolicy;
use crate::types::{DeliveryStatus, EncryptedMessage, Message, MessageView};

use super::discovery::room_for_attempts;
use super::performance::MailboxPerformance;
use super::reliability::{perf_or_new, perf_updated, spec_should_forget_mailbox};
use super::SyncEngine;

verus! {

/// The most messages asked of a mailbox in one fetch.
pub const FETCH_LIMIT: usize = 100;

/// The record `p` after `n` failures at `now`, the `i`-th of them leaving
/// `averages[i]` as the average response time.
pub open spec fn perf_after_failures(p: MailboxPerformance, averages: Seq<u64>, now: u64, n: nat) -> MailboxPerformance
    decreases n,
{
    if n == 0 {
        p
    } else {
        perf_after_failures(p, averages, now, (n - 1) as nat).after_interaction(false, averages[n - 1], now)
    }
}

/// The record of `peer` can take `n` more interactions.
pub open spec fn room_for_interactions(perf: Map<Seq<u8>, MailboxPerformance>, peer: Seq<u8>, n: nat) -> bool {
    perf.dom().contains(peer) ==> perf[peer].success_count + perf[peer].failure_count + n <= u32::MAX
}

/// The message rebuilt from `encrypted`, whose content decrypted to
/// `plaintext`, as received by `own_peer`.
pub open spec fn rebuilt_message(encrypted: EncryptedMessage, own_peer: Seq<u8>, plaintext: Seq<u8>) -> MessageView {
    MessageView {
        id: encrypted.id,
        sender: encrypted.sender@,
        recipient: own_peer,
        timestamp: encrypted.timestamp,
        content: plaintext,
        nonce: encrypted.nonce,
        delivery_status: DeliveryStatus::Delivered,
    }
}

/// Why a fetched message could not be rebuilt.
#[derive(Debug, Clone, Copy, PartialEq, Eq, Structural)]
pub enum ReconstructError {
    /// The decrypted content is not UTF-8 text.
    InvalidUtf8,
}

/// Whether `bytes` are UTF-8 text.
///
/// Calls `std::str::from_utf8`, which succeeds exactly on valid UTF-8; the
/// contract states it with vstd's definition of valid UTF-8.
#[verifier::external_body]
fn is_utf8(bytes: &[u8]) -> (r: bool)
    ensures
        r == valid_utf8(bytes@),
{
    std::str::from_utf8(bytes).is_ok()
}

/// Whether a fetched message is acknowledged to the mailboxes: when it had
/// been seen before, or when it was stored in the history now.
pub fn acknowledge_fetched(already_seen: bool, stored: bool) -> (r: bool)
    ensures
        r == (already_seen || stored),
{
    already_seen || stored
}

/// Whether acknowledging fetched messages failed: when it failed with
/// every one of the `mailboxes` known mailboxes (`failed` of them failed).
pub fn acknowledge_failed(failed: usize, mailboxes: usize) -> (r: bool)
    ensures
        r == (failed > 0 && failed == mailboxes),
{
    failed > 0 && failed == mailboxes
}

impl SyncEngine {
    /// Rebuilds the message fetched as `encrypted_msg`, whose content decrypted to
    /// `plaintext`, as received by `own_peer`: the content must be UTF-8 text, and
    /// the message counts as delivered.
    pub fn reconstruct_message_from_mailbox(
        encrypted_msg: &EncryptedMessage,
        own_peer: &PeerKey,
        plaintext: Vec<u8>,
    ) -> (r: Result<Message, ReconstructError>)
        ensures
            r is Ok <==> valid_utf8(plaintext@),
            r matches Ok(m) ==> m@ == rebuilt_message(*encrypted_msg, own_peer@, plaintext@),
            r matches Err(e) ==> e == ReconstructError::InvalidUtf8,
    {
        if !is_utf8(plaintext.as_slice()) {
            return Err(ReconstructError::InvalidUtf8);
        }
        Ok(Message {
            id: encrypted_msg.id,
            sender: copy_key(&encrypted_msg.sender),
            recipient: copy_key(own_peer),
            timestamp: encrypted_msg.timestamp,
            content: plaintext,
            nonce: encrypted_msg.nonce,
            delivery_status: DeliveryStatus::Delivered,
        })
    }

    /// Whether to fetch from `peer` when its turn comes at clock reading
    /// `now`: it must still be discovered and not backed off.
    pub fn should_fetch_from(&self, peer: &PeerKey, now: u64) -> (r: bool)
        requires
            self.wf(),
        ensures
            r == (self.discovered_mailboxes@.contains(peer@) && spec_can_attempt(
                self.backoff_manager@,
                peer@,
                now,
            )),
    {
        self.discovered_mailboxes.contains(peer) && self.backoff_manager.can_attempt_at(peer, now)
    }

    /// Reports that fetching from `peer` failed at clock reading `now` after
    /// every retry: a failure is counted for each of the four attempts, the
    /// `i`-th leaving `averages[i]` as the average response time (the caller
    /// weights each with a quarter of the time the fetch took, see
    /// `performance`), and the mailbox is forgotten if it is to be. Returns
    /// whether it was forgotten.
    pub fn record_fetch_failure(&mut self, peer: &PeerKey, averages: &Vec<u64>, now: u64) -> (forgotten: bool)
        requires
            old(self).wf(),
            averages@.len() == 4,
            room_for_interactions(old(self).mailbox_performance@, peer@, 4),
            room_for_attempts(old(self).backoff_manager@, peer@, 5),
        ensures
            final(self).wf(),
            perf_updated(
                old(self).mailbox_performance@,
                final(self).mailbox_performance@,
                peer@,
                perf_after_failures(perf_or_new(old(self).mailbox_performance@, peer@), averages@, now, 4),
            ),
            forgotten == (old(self).discovered_mailboxes@.contains(peer@) && spec_should_forget_mailbox(
                final(self).mailbox_performance@,
                peer@,
                now,
            )),
            forgotten == old(self).discovered_mailboxes@.contains(peer@),
            final(self).discovered_mailboxes@ == (if forgotten {
                old(self).discovered_mailboxes@.remove(peer@)
            } else {
                old(self).discovered_mailboxes@
            }),
            attempts_recorded(
                old(self).backoff_manager@,
                final(self).backoff_manager@,
                peer@,
                now,
                if forgotten { 5 } else { 4 },
            ),
            final(self).pending_dht_queries == old(self).pending_dht_queries,
            final(self).last_discovery_time == old(self).last_discovery_time,
            final(self).interval == old(self).interval,
    {
        let policy = RetryPolicy::fast_mailbox();
        let ghost perf0 = old(self).mailbox_performance@;
        let ghost bo0 = old(self).backoff_manager@;
        let ghost p0 = perf_or_new(perf0, peer@);
        let ghost base = entry_or_fresh(bo0, peer@, now).attempt_count;
        let mut k: u32 = 0;
        while k < policy.max_attempts
            invariant
                self.wf(),
                policy.max_attempts == 4,
                k <= 4,
                perf0 == old(self).mailbox_performance@,
                bo0 == old(self).backoff_manager@,
                p0 == perf_or_new(perf0, peer@),
                base == entry_or_fresh(bo0, peer@, now).attempt_count,
                room_for_interactions(perf0, peer@, 4),
                room_for_attempts(bo0, peer@, 5),
                k == 0 ==> self.mailbox_performance@ == perf0,
                averages@.len() == 4,
                k > 0 ==> perf_updated(perf0, self.mailbox_performance@, peer@, perf_after_failures(p0, averages@, now, k as nat)),
                perf_after_failures(p0, averages@, now, k as nat).success_count + perf_after_failures(
                    p0,
                    averages@,
                    now,
                    k as nat,
                ).failure_count == p0.success_count + p0.failure_count + k,
                attempts_recorded(bo0, self.backoff_manager@, peer@, now, k as nat),
                k > 0 ==> self.backoff_manager@.dom().contains(peer@)
                    && self.backoff_manager@[peer@].attempt_count == base + k,
                self.discovered_mailboxes@ == old(self).discovered_mailboxes@,
                self.pending_dht_queries == old(self).pending_dht_queries,
                self.last_discovery_time == old(self).last_discovery_time,
                self.interval == old(self).interval,
            decreases 4 - k,
        {
            let ghost bo_before = self.backoff_manager@;
            proof {
                assert(perf_or_new(self.mailbox_performance@, peer@) == perf_after_failures(p0, averages@, now, k as nat));
                if bo_before.dom().contains(peer@) {
                    if k == 0 {
                        assert(bo_before == bo0);
                        assert(room_for_attempts(bo0, peer@, 5));
                        let c = bo0[peer@].attempt_count + 0nat;
                        assert(c != 0x7fff_ffff && c != u32::MAX);
                    } else if bo0.dom().contains(peer@) {
                        let c = bo0[peer@].attempt_count + (k as nat);
                        assert(c != 0x7fff_ffff && c != u32::MAX);
                    }
                }
            }
            self.update_mailbox_performance(copy_key(peer), false, averages[k as usize], now);
            proof {
                let nb = self.backoff_manager@;
                let e = entry_or_fresh(bo_before, peer@, now);
                let j = choose|j: i64| crate::sync::backoff::valid_jitter(j) && nb[peer@] == #[trigger] e.after_attempt(now, j);
                assert(nb[peer@].attempt_count == e.attempt_count + 1);
                lemma_attempts_step(bo0, bo_before, nb, peer@, now, k as nat);
                assert(self.mailbox_performance@ =~= perf0.insert(peer@, self.mailbox_performance@[peer@]));
            }
            k = k + 1;
        }
        proof {
            law_failed_fetch_forgets(p0, averages@, now);
        }
        if self.should_forget_mailbox(peer, now) && self.discovered_mailboxes.contains(peer) {
            let ghost bo_mid = self.backoff_manager@;
            proof {
                if bo0.dom().contains(peer@) {
                    let c = bo0[peer@].attempt_count + 4nat;
                    assert(c != 0x7fff_ffff && c != u32::MAX);
                }
            }
            self.forget_failing_mailbox(peer, now);
            proof {
                lemma_attempts_step(bo0, bo_mid, self.backoff_manager@, peer@, now, 4);
            }
            true
        } else {
            false
        }
    }
}

/// Each failure adds one to the failures and to the consecutive failures.
proof fn lemma_failures_count(p: MailboxPerformance, averages: Seq<u64>, now: u64, n: nat)
    requires
        p.failure_count + n <= u32::MAX,
        p.consecutive_failures + n <= u32::MAX,
    ensures
        perf_after_failures(p, averages, now, n).failure_count == p.failure_count + n,
        perf_after_failures(p, averages, now, n).consecutive_failures == p.consecutive_failures + n,
        perf_after_failures(p, averages, now, n).success_count == p.success_count,
    decreases n,
{
    if n > 0 {
        lemma_failures_count(p, averages, now, (n - 1) as nat);
    }
}

/// A fetch that failed after every retry makes a mailbox one to forget: its
/// four failures are more than the three consecutive failures tolerated.
pub proof fn law_failed_fetch_forgets(p: MailboxPerformance, averages: Seq<u64>, now: u64)
    requires
        p.failure_count + 4 <= u32::MAX,
        p.consecutive_failures + 4 <= u32::MAX,
    ensures
        super::reliability::spec_should_forget(perf_after_failures(p, averages, now, 4), now),
{
    lemma_failures_count(p, averages, now, 4);
}

/// A success clears the consecutive failures: a mailbox is then forgotten
/// exactly when five of its failures lie within the last minute.
pub proof fn law_success_clears_consecutive_failures(p: MailboxPerformance, average: u64, now: u64)
    ensures
        p.after_interaction(true, average, now).consecutive_failures == 0,
        super::reliability::spec_should_forget(p.after_interaction(true, average, now), now) <==> p.recent_failures.count_in_window(
            now,
        ) >= super::performance::MAX_FAILURES_IN_WINDOW,
{
}

} // verus!
