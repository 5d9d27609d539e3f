//! Ranking of mailbox providers.
//!
//! A provider's score is a floating-point number between 0 and 1: 70% of its
//! success rate, plus 20% of a recency bonus of at most 0.3, plus 10% of its
//! speed (3 s or slower counts as 0), minus 0.1 per consecutive failure (at
//! most 0.3); 0.5 without interactions; a tenth of that while backed off.
//! Floating point is not held by this library: the caller computes the
//! scores and hands them in as integers that order the providers as their
//! scores do (the bits of a non-negative `f64` do), and the ranking here
//! sorts by them.
use vstd::prelude::*;

use crate::peers::{copy_key, key_views, PeerKey, PeerMap, PeerSet};
use crate::sync::backoff::spec_can_attempt;

use super::SyncEngine;

verus! {

/// The score of `peer` in `scores`; 0 for a peer without one.
pub open spec fn score_of(scores: Map<Seq<u8>, u64>, peer: Seq<u8>) -> u64 {
    if scores.dom().contains(peer) {
        scores[peer]
    } else {
        0
    }
}

/// The scores of `s` never increase along it.
pub open spec fn ranked(scores: Seq<u64>) -> bool {
    forall|i: int, j: int| 0 <= i < j < scores.len() ==> scores[i] >= scores[j]
}

/// `ks` holds the providers of `providers` that may be attempted at `now`
/// given the backoff entries `backoff`, best score in `scores` first.
pub open spec fn ranked_at(
    backoff: Map<Seq<u8>, crate::sync::backoff::BackoffEntry>,
    scores: Map<Seq<u8>, u64>,
    providers: Set<Seq<u8>>,
    ks: Seq<Seq<u8>>,
    now: u64,
) -> bool {
    &&& ks.to_set() == providers.filter(|p: Seq<u8>| spec_can_attempt(backoff, p, now))
    &&& forall|i: int, j: int| 0 <= i < j < ks.len() ==> score_of(scores, ks[i]) >= score_of(scores, ks[j])
}

impl SyncEngine {
    /// The candidates that may be attempted at clock reading `now`, best
    /// score in `scores` first.
    pub fn rank_mailboxes(&self, candidates: &Vec<PeerKey>, now: u64, scores: &PeerMap<u64>) -> (r: Vec<PeerKey>)
        requires
            self.wf(),
            scores.wf(),
            key_views(candidates@).no_duplicates(),
        ensures
            key_views(r@).no_duplicates(),
            ranked_at(self.backoff_manager@, scores@, key_views(candidates@).to_set(), key_views(r@), now),
    {
        let ghost cands = key_views(candidates@);
        let ghost can = |p: Seq<u8>| spec_can_attempt(self.backoff_manager@, p, now);
        let mut out: Vec<PeerKey> = Vec::new();
        let mut keys: Vec<u64> = Vec::new();
        let mut k: usize = 0;
        while k < candidates.len()
            invariant
                self.wf(),
                cands == key_views(candidates@),
                can == (|p: Seq<u8>| spec_can_attempt(self.backoff_manager@, p, now)),
                cands.no_duplicates(),
                scores.wf(),
                k <= candidates.len(),
                out.len() == keys.len(),
                ranked(keys@),
                forall|i: int| 0 <= i < out.len() ==> keys@[i] == score_of(scores@, #[trigger] out@[i]@),
                key_views(out@).no_duplicates(),
                key_views(out@).to_set() == cands.take(k as int).to_set().filter(can),
            decreases candidates.len() - k,
        {
            let ghost before = key_views(out@);
            let peer = crate::peers::copy_key(&candidates[k]);
            assert(peer@ == cands[k as int]);
            if self.backoff_manager.can_attempt_at(&peer, now) {
                let score = match scores.get(&peer) {
                    Some(v) => *v,
                    None => 0,
                };
                let ghost pv = peer@;
                let p = insert_ranked(&mut out, &mut keys, peer, score);
                proof {
                    assert(key_views(out@) =~= before.insert(p as int, pv));
                    assert(!before.contains(pv)) by {
                        if before.contains(pv) {
                            let j = choose|j: int| 0 <= j < before.len() && before[j] == pv;
                            assert(before.to_set().contains(pv));
                            assert(cands.take(k as int).contains(pv));
                            let t = choose|t: int| 0 <= t < k && cands.take(k as int)[t] == pv;
                            assert(cands[t] == cands[k as int]);
                        }
                    }
                    let after = key_views(out@);
                    assert(after.no_duplicates()) by {
                        assert forall|a: int, b: int| 0 <= a < after.len() && 0 <= b < after.len() && a != b implies after[a] != after[b] by {
                            let ia = if a < p { a } else if a == p { -1 } else { a - 1 };
                            let ib = if b < p { b } else if b == p { -1 } else { b - 1 };
                            if ia >= 0 {
                                assert(after[a] == before[ia]);
                            }
                            if ib >= 0 {
                                assert(after[b] == before[ib]);
                            }
                            if ia == -1 {
                                assert(after[a] == pv);
                                assert(before.contains(after[b]) ==> after[b] != pv);
                            }
                            if ib == -1 {
                                assert(after[b] == pv);
                                assert(before.contains(after[a]) ==> after[a] != pv);
                            }
                        }
                    }
                    assert forall|i: int| 0 <= i < out.len() implies keys@[i] == score_of(scores@, #[trigger] out@[i]@) by {
                        assert(out@[i]@ == after[i]);
                    }
                    let t1 = cands.take(k + 1);
                    assert(t1 =~= cands.take(k as int).push(pv));
                    lemma_to_set_filter_push(cands.take(k as int), pv, can);
                    lemma_to_set_insert(before, p as int, pv);
                    assert(after.to_set() == t1.to_set().filter(can));
                }
            } else {
                proof {
                    let t1 = cands.take(k + 1);
                    assert(t1 =~= cands.take(k as int).push(peer@));
                    lemma_to_set_filter_push(cands.take(k as int), peer@, can);
                    assert(before.to_set() == t1.to_set().filter(can));
                }
            }
            k += 1;
        }
        proof {
            assert(cands.take(candidates.len() as int) =~= cands);
            assert forall|i: int, j: int| 0 <= i < j < out.len() implies score_of(scores@, out@[i]@) >= score_of(scores@, out@[j]@) by {
                assert(keys@[i] == score_of(scores@, out@[i]@));
                assert(keys@[j] == score_of(scores@, out@[j]@));
            }
        }
        out
    }

    /// The discovered providers that may be attempted at clock reading `now`,
    /// best score in `scores` first.
    pub fn get_available_mailboxes_at(&self, now: u64, scores: &PeerMap<u64>) -> (r: Vec<PeerKey>)
        requires
            self.wf(),
            scores.wf(),
        ensures
            key_views(r@).no_duplicates(),
            ranked_at(self.backoff_manager@, scores@, self.discovered_mailboxes@, key_views(r@), now),
    {
        let all = self.discovered_mailboxes.to_vec();
        self.rank_mailboxes(&all, now, scores)
    }

    /// The discovered providers that may be attempted now, best score in
    /// `scores` first.
    pub fn get_available_mailboxes(&self, scores: &PeerMap<u64>) -> (r: Vec<PeerKey>)
        requires
            self.wf(),
            scores.wf(),
        ensures
            key_views(r@).no_duplicates(),
            exists|now: u64|
                #[trigger] ranked_at(self.backoff_manager@, scores@, self.discovered_mailboxes@, key_views(r@), now),
    {
        let now = crate::clock::now_ms();
        let r = self.get_available_mailboxes_at(now, scores);
        assert(ranked_at(self.backoff_manager@, scores@, self.discovered_mailboxes@, key_views(r@), now));
        r
    }

    /// The given providers that may be attempted now, best score in `scores`
    /// first.
    pub fn rank_mailboxes_subset(&self, providers: &PeerSet, scores: &PeerMap<u64>) -> (r: Vec<PeerKey>)
        requires
            self.wf(),
            scores.wf(),
            providers.wf(),
        ensures
            key_views(r@).no_duplicates(),
            exists|now: u64| #[trigger] ranked_at(self.backoff_manager@, scores@, providers@, key_views(r@), now),
    {
        let now = crate::clock::now_ms();
        let r = self.rank_mailboxes_subset_at(providers, now, scores);
        assert(ranked_at(self.backoff_manager@, scores@, providers@, key_views(r@), now));
        r
    }

    /// The given providers that may be attempted at clock reading `now`, best
    /// score in `scores` first.
    pub fn rank_mailboxes_subset_at(&self, providers: &PeerSet, now: u64, scores: &PeerMap<u64>) -> (r: Vec<PeerKey>)
        requires
            self.wf(),
            scores.wf(),
            providers.wf(),
        ensures
            key_views(r@).no_duplicates(),
            ranked_at(self.backoff_manager@, scores@, providers@, key_views(r@), now),
    {
        let all = providers.to_vec();
        self.rank_mailboxes(&all, now, scores)
    }
}

/// The peers of `keys` that are in `disc`, in order.
pub open spec fn within(keys: Seq<Seq<u8>>, disc: Set<Seq<u8>>) -> Seq<Seq<u8>>
    decreases keys.len(),
{
    if keys.len() == 0 {
        Seq::empty()
    } else {
        let r = within(keys.drop_last(), disc);
        if disc.contains(keys.last()) {
            r.push(keys.last())
        } else {
            r
        }
    }
}

impl SyncEngine {
    /// The connected peers that are discovered mailbox providers, in the
    /// order given: the mailboxes to fall back on when none is otherwise
    /// available.
    pub fn get_emergency_mailboxes(&self, connected: &Vec<PeerKey>) -> (r: Vec<PeerKey>)
        requires
            self.wf(),
        ensures
            key_views(r@) == within(key_views(connected@), self.discovered_mailboxes@),
    {
        let mut out: Vec<PeerKey> = Vec::new();
        let mut i: usize = 0;
        while i < connected.len()
            invariant
                i <= connected.len(),
                key_views(out@) == within(key_views(connected@).take(i as int), self.discovered_mailboxes@),
            decreases connected.len() - i,
        {
            proof {
                assert(key_views(connected@).take(i + 1).drop_last() =~= key_views(connected@).take(i as int));
                assert(key_views(connected@).take(i + 1).last() == connected@[i as int]@);
            }
            if self.discovered_mailboxes.contains(&connected[i]) {
                out.push(copy_key(&connected[i]));
                assert(key_views(out@) =~= within(key_views(connected@).take(i as int), self.discovered_mailboxes@).push(
                    connected@[i as int]@,
                ));
            }
            i += 1;
        }
        assert(key_views(connected@).take(i as int) =~= key_views(connected@));
        out
    }
}

pub proof fn lemma_to_set_filter_push(s: Seq<Seq<u8>>, x: Seq<u8>, f: spec_fn(Seq<u8>) -> bool)
    ensures
        s.push(x).to_set().filter(f) == (if f(x) {
            s.to_set().filter(f).insert(x)
        } else {
            s.to_set().filter(f)
        }),
{
    let t = s.push(x);
    let lhs = t.to_set().filter(f);
    let rhs = if f(x) {
        s.to_set().filter(f).insert(x)
    } else {
        s.to_set().filter(f)
    };
    assert forall|y: Seq<u8>| lhs.contains(y) <==> rhs.contains(y) by {
        if t.contains(y) {
            let i = choose|i: int| 0 <= i < t.len() && t[i] == y;
            if i < s.len() {
                assert(s[i] == y);
                assert(s.contains(y));
            }
        }
        if s.contains(y) {
            let i = choose|i: int| 0 <= i < s.len() && s[i] == y;
            assert(t[i] == y);
            assert(t.contains(y));
        }
        if y == x {
            assert(t[s.len() as int] == y);
            assert(t.contains(y));
        }
    }
    assert(lhs =~= rhs);
}

pub proof fn lemma_to_set_insert(s: Seq<Seq<u8>>, p: int, x: Seq<u8>)
    requires
        0 <= p <= s.len(),
    ensures
        s.insert(p, x).to_set() == s.to_set().insert(x),
{
    let t = s.insert(p, x);
    assert forall|y: Seq<u8>| t.to_set().contains(y) <==> s.to_set().insert(x).contains(y) by {
        if t.contains(y) {
            let i = choose|i: int| 0 <= i < t.len() && t[i] == y;
            if i < p {
                assert(s[i] == y);
                assert(s.contains(y));
            } else if i > p {
                assert(s[i - 1] == y);
                assert(s.contains(y));
            }
        }
        if s.contains(y) {
            let i = choose|i: int| 0 <= i < s.len() && s[i] == y;
            if i < p {
                assert(t[i] == y);
            } else {
                assert(t[i + 1] == y);
            }
            assert(t.contains(y));
        }
        if y == x {
            assert(t[p] == y);
            assert(t.contains(y));
        }
    }
    assert(t.to_set() =~= s.to_set().insert(x));
}

/// Inserts `peer` with score `score` after every entry with a score at least
/// as high; returns the position.
fn insert_ranked(out: &mut Vec<PeerKey>, scores: &mut Vec<u64>, peer: PeerKey, score: u64) -> (p: usize)
    requires
        old(out).len() == old(scores).len(),
        ranked(old(scores)@),
    ensures
        p <= old(out).len(),
        final(out)@ == old(out)@.insert(p as int, peer),
        final(scores)@ == old(scores)@.insert(p as int, score),
        ranked(final(scores)@),
{
    let mut p: usize = 0;
    while p < scores.len() && scores[p] >= score
        invariant
            p <= scores.len(),
            forall|i: int| 0 <= i < p ==> scores@[i] >= score,
        decreases scores.len() - p,
    {
        p += 1;
    }
    let ghost before = scores@;
    out.insert(p, peer);
    scores.insert(p, score);
    proof {
        let after = scores@;
        assert forall|i: int, j: int| 0 <= i < j < after.len() implies after[i] >= after[j] by {
            if j < p {
                assert(after[i] == before[i] && after[j] == before[j]);
            } else if j == p {
                assert(after[i] == before[i]);
            } else if i < p {
                assert(after[i] == before[i] && after[j] == before[j - 1]);
                assert(before[i] >= score);
                assert(before[p as int] < score);
                assert(before[p as int] >= before[j - 1] || j - 1 == p);
            } else if i == p {
                assert(after[j] == before[j - 1]);
                assert(before[p as int] < score);
            } else {
                assert(after[i] == before[i - 1] && after[j] == before[j - 1]);
            }
        }
    }
    p
}

} // verus!
