//! Exponential backoff with jitter for retrying operations.
//!
//! `BackoffEntry` tracks the backoff of one peer or operation, and
//! `BackoffManager` holds one entry per peer. Times are clock readings in
//! milliseconds and durations are milliseconds.
use vstd::prelude::*;

use crate::clock::now_ms;
use crate::peers::{PeerKey, PeerMap};
use crate::random::random_in_range;

verus! {

/// The backoff after the first attempt (one second).
pub const MIN_BACKOFF_MS: u64 = 1000;

/// The longest backoff before jitter (five minutes).
pub const MAX_BACKOFF_MS: u64 = 300_000;

/// Half-width of the jitter band, in thousandths of the backoff (10%).
pub const JITTER_PERMILLE: i64 = 100;

/// The number of attempts after which an entry gives up.
pub const GIVE_UP_ATTEMPTS: u32 = 10;

/// `MIN_BACKOFF_MS` doubled `e` times.
pub open spec fn doubled_backoff(e: nat) -> nat
    decreases e,
{
    if e == 0 {
        MIN_BACKOFF_MS as nat
    } else {
        2 * doubled_backoff((e - 1) as nat)
    }
}

/// `MIN_BACKOFF_MS` halved `k` times, rounding down.
pub open spec fn halved_backoff(k: nat) -> nat
    decreases k,
{
    if k == 0 {
        MIN_BACKOFF_MS as nat
    } else {
        halved_backoff((k - 1) as nat) / 2
    }
}

/// The exponent of the base backoff after the `n`-th attempt: the 32-bit
/// signed value of `n`, minus one.
pub open spec fn backoff_exponent(n: u32) -> int {
    if n < 0x8000_0000 {
        n - 1
    } else {
        n - 0x1_0000_0000 - 1
    }
}

/// The backoff before jitter after the `n`-th attempt:
/// `MIN_BACKOFF_MS * 2^e` for the exponent `e`, at most `MAX_BACKOFF_MS`.
pub open spec fn clamped_backoff(n: u32) -> nat {
    let e = backoff_exponent(n);
    if e >= 0 {
        if doubled_backoff(e as nat) > MAX_BACKOFF_MS {
            MAX_BACKOFF_MS as nat
        } else {
            doubled_backoff(e as nat)
        }
    } else {
        halved_backoff((-e) as nat)
    }
}

/// A backoff `c` with a jitter of `j` thousandths added, rounded down.
pub open spec fn jittered(c: nat, j: int) -> nat {
    ((c * (1000 + j)) / 1000) as nat
}

/// The jitter values that can be drawn.
pub open spec fn valid_jitter(j: i64) -> bool {
    -JITTER_PERMILLE <= j < JITTER_PERMILLE
}

proof fn lemma_doubled_grows(a: nat, b: nat)
    requires
        a <= b,
    ensures
        doubled_backoff(a) <= doubled_backoff(b),
    decreases b - a,
{
    if a < b {
        lemma_doubled_grows(a, (b - 1) as nat);
    }
}

proof fn lemma_halved_shrinks(a: nat, b: nat)
    requires
        a <= b,
    ensures
        halved_backoff(b) <= halved_backoff(a),
    decreases b - a,
{
    if a < b {
        lemma_halved_shrinks(a, (b - 1) as nat);
    }
}

proof fn lemma_doubled_cap(e: nat)
    requires
        e >= 9,
    ensures
        doubled_backoff(e) > MAX_BACKOFF_MS,
{
    reveal_with_fuel(doubled_backoff, 10);
    lemma_doubled_grows(9, e);
}

proof fn lemma_halved_vanishes(k: nat)
    requires
        k >= 10,
    ensures
        halved_backoff(k) == 0,
{
    reveal_with_fuel(halved_backoff, 11);
    lemma_halved_shrinks(10, k);
}

/// Computes `clamped_backoff(n)`.
fn clamped_backoff_ms(n: u32) -> (ms: u64)
    requires
        n >= 1,
        n != 0x8000_0000,
    ensures
        ms == clamped_backoff(n),
        ms <= MAX_BACKOFF_MS,
{
    if n < 0x8000_0000 {
        let e: u32 = n - 1;
        if e >= 9 {
            proof {
                lemma_doubled_cap(e as nat);
            }
            MAX_BACKOFF_MS
        } else {
            let mut v: u64 = MIN_BACKOFF_MS;
            let mut i: u32 = 0;
            while i < e
                invariant
                    i <= e,
                    e < 9,
                    v == doubled_backoff(i as nat),
                    v <= 256_000,
                decreases e - i,
            {
                proof {
                    lemma_doubled_grows((i + 1) as nat, 8);
                    reveal_with_fuel(doubled_backoff, 9);
                }
                v = v * 2;
                i += 1;
            }
            v
        }
    } else {
        let k: u64 = (0x1_0000_0000u64 - n as u64) + 1;
        if k >= 10 {
            proof {
                lemma_halved_vanishes(k as nat);
            }
            0
        } else {
            let mut v: u64 = MIN_BACKOFF_MS;
            let mut i: u64 = 0;
            while i < k
                invariant
                    i <= k,
                    v == halved_backoff(i as nat),
                    v <= MIN_BACKOFF_MS,
                decreases k - i,
            {
                v = v / 2;
                i += 1;
            }
            v
        }
    }
}

/// The backoff state of a single peer or operation.
#[derive(Clone, Copy, Debug)]
pub struct BackoffEntry {
    /// The number of attempts made so far.
    pub attempt_count: u32,
    /// The clock reading (ms) of the last attempt.
    pub last_attempt: u64,
    /// How long (ms) after the last attempt the next one may be made.
    pub next_attempt_after: u64,
}

impl BackoffEntry {
    /// The time passed since the last attempt at clock reading `now`
    /// (none if the reading is earlier).
    pub open spec fn elapsed_at(&self, now: u64) -> nat {
        if now >= self.last_attempt {
            (now - self.last_attempt) as nat
        } else {
            0
        }
    }

    /// A retry is allowed at `now`.
    pub open spec fn spec_can_retry_at(&self, now: u64) -> bool {
        self.elapsed_at(now) >= self.next_attempt_after
    }

    /// The time left at `now` until a retry is allowed.
    pub open spec fn spec_time_until_retry_at(&self, now: u64) -> nat {
        if self.next_attempt_after >= self.elapsed_at(now) {
            (self.next_attempt_after - self.elapsed_at(now)) as nat
        } else {
            0
        }
    }

    /// Further retries are given up.
    pub open spec fn spec_should_give_up(&self) -> bool {
        self.attempt_count >= GIVE_UP_ATTEMPTS || self.next_attempt_after >= MAX_BACKOFF_MS
    }

    /// Another attempt can be counted (the counting neither overflows nor
    /// reaches the one count whose exponent overflows).
    pub open spec fn can_count_attempt(&self) -> bool {
        self.attempt_count != 0x7fff_ffff && self.attempt_count != u32::MAX
    }

    /// The entry after an attempt at `now` with jitter `j`.
    pub open spec fn after_attempt(self, now: u64, j: i64) -> BackoffEntry {
        BackoffEntry {
            attempt_count: (self.attempt_count + 1) as u32,
            last_attempt: now,
            next_attempt_after: jittered(clamped_backoff((self.attempt_count + 1) as u32), j as int)
                as u64,
        }
    }

    /// The entry after a success.
    pub open spec fn after_success(self) -> BackoffEntry {
        BackoffEntry { attempt_count: 0, next_attempt_after: MIN_BACKOFF_MS, ..self }
    }

    /// `new` is the entry after an attempt at `now` with some allowed jitter.
    pub open spec fn attempt_recorded(self, new: BackoffEntry, now: u64) -> bool {
        exists|j: i64| valid_jitter(j) && new == #[trigger] self.after_attempt(now, j)
    }

    /// A fresh entry whose last attempt is at clock reading `now`.
    pub fn new_at(now: u64) -> (e: Self)
        ensures
            e == (BackoffEntry { attempt_count: 0, last_attempt: now, next_attempt_after: MIN_BACKOFF_MS }),
    {
        BackoffEntry { attempt_count: 0, last_attempt: now, next_attempt_after: MIN_BACKOFF_MS }
    }

    /// A fresh entry whose last attempt is now: the clock reading that
    /// `now_ms` gives.
    pub fn new() -> (e: Self)
        ensures
            e.attempt_count == 0,
            e.next_attempt_after == MIN_BACKOFF_MS,
            exists|t: i64| e.last_attempt == crate::clock::reading_ms(t),
    {
        Self::new_at(now_ms())
    }

    /// Whether a retry is allowed at clock reading `now`.
    pub fn can_retry_at(&self, now: u64) -> (r: bool)
        ensures
            r == self.spec_can_retry_at(now),
    {
        let elapsed = now.saturating_sub(self.last_attempt);
        elapsed >= self.next_attempt_after
    }

    /// Whether a retry is allowed now.
    pub fn can_retry(&self) -> (r: bool)
        ensures
            exists|now: u64| r == #[trigger] self.spec_can_retry_at(now),
    {
        let now = now_ms();
        self.can_retry_at(now)
    }

    /// The time (ms) left at clock reading `now` until a retry is allowed.
    pub fn time_until_retry_at(&self, now: u64) -> (d: u64)
        ensures
            d == self.spec_time_until_retry_at(now),
    {
        let elapsed = now.saturating_sub(self.last_attempt);
        self.next_attempt_after.saturating_sub(elapsed)
    }

    /// The time (ms) left until a retry is allowed.
    pub fn time_until_retry(&self) -> (d: u64)
        ensures
            exists|now: u64| d == #[trigger] self.spec_time_until_retry_at(now),
    {
        let now = now_ms();
        self.time_until_retry_at(now)
    }

    /// Records an attempt at clock reading `now` with the jitter `jitter`
    /// (thousandths of the backoff).
    pub fn record_attempt_with(&mut self, now: u64, jitter: i64)
        requires
            old(self).can_count_attempt(),
            valid_jitter(jitter),
        ensures
            *final(self) == old(self).after_attempt(now, jitter),
    {
        self.attempt_count = self.attempt_count + 1;
        self.last_attempt = now;
        let c = clamped_backoff_ms(self.attempt_count);
        let factor: u64 = (1000 + jitter) as u64;
        assert(c * factor <= 300_000 * 1100) by (nonlinear_arith)
            requires
                c <= 300_000,
                factor <= 1100,
        ;
        self.next_attempt_after = c * factor / 1000;
    }

    /// Records an attempt at clock reading `now`, with a jitter drawn at random.
    pub fn record_attempt_at(&mut self, now: u64)
        requires
            old(self).can_count_attempt(),
        ensures
            old(self).attempt_recorded(*final(self), now),
    {
        let jitter = random_in_range(-JITTER_PERMILLE, JITTER_PERMILLE);
        self.record_attempt_with(now, jitter);
    }

    /// Records an attempt now, with a jitter drawn at random.
    pub fn record_attempt(&mut self)
        requires
            old(self).can_count_attempt(),
        ensures
            exists|now: u64| #[trigger] old(self).attempt_recorded(*final(self), now),
    {
        let now = now_ms();
        self.record_attempt_at(now);
    }

    /// Resets the backoff after a successful operation.
    pub fn record_success(&mut self)
        ensures
            *final(self) == old(self).after_success(),
    {
        self.attempt_count = 0;
        self.next_attempt_after = MIN_BACKOFF_MS;
    }

    /// Whether further retries should be given up: after ten attempts, or once
    /// the backoff has reached five minutes.
    pub fn should_give_up(&self) -> (r: bool)
        ensures
            r == self.spec_should_give_up(),
    {
        self.attempt_count >= GIVE_UP_ATTEMPTS || self.next_attempt_after >= MAX_BACKOFF_MS
    }
}

/// Whether a peer may be attempted at `now`, given the backoff entries `m`:
/// an unknown peer always may; a known one when its retry is due and it has
/// not given up.
pub open spec fn spec_can_attempt(m: Map<Seq<u8>, BackoffEntry>, peer: Seq<u8>, now: u64) -> bool {
    if m.dom().contains(peer) {
        m[peer].spec_can_retry_at(now) && !m[peer].spec_should_give_up()
    } else {
        true
    }
}

/// The entry that an attempt starts from: the existing one, or a fresh one
/// made at `now`.
pub open spec fn entry_or_fresh(m: Map<Seq<u8>, BackoffEntry>, peer: Seq<u8>, now: u64) -> BackoffEntry {
    if m.dom().contains(peer) {
        m[peer]
    } else {
        BackoffEntry { attempt_count: 0, last_attempt: now, next_attempt_after: MIN_BACKOFF_MS }
    }
}

/// An attempt on `peer` can be counted in `m`.
pub open spec fn can_count_attempt_for(m: Map<Seq<u8>, BackoffEntry>, peer: Seq<u8>) -> bool {
    m.dom().contains(peer) ==> m[peer].can_count_attempt()
}

/// The entries after a success of `peer`: its entry, if any, is reset.
pub open spec fn after_peer_success(m: Map<Seq<u8>, BackoffEntry>, peer: Seq<u8>) -> Map<Seq<u8>, BackoffEntry> {
    if m.dom().contains(peer) {
        m.insert(peer, m[peer].after_success())
    } else {
        m
    }
}

/// `new` is `old` after an attempt of `peer` at `now` with some allowed jitter.
pub open spec fn peer_attempt_recorded(
    old: Map<Seq<u8>, BackoffEntry>,
    new: Map<Seq<u8>, BackoffEntry>,
    peer: Seq<u8>,
    now: u64,
) -> bool {
    &&& new.dom() == old.dom().insert(peer)
    &&& forall|k: Seq<u8>| #[trigger] new.dom().contains(k) && k != peer ==> new[k] == old[k]
    &&& entry_or_fresh(old, peer, now).attempt_recorded(new[peer], now)
}

/// `new` is `old` after `n` attempts of `peer` at `now`, each with some
/// allowed jitter. All of them happen at `now`, so the entry of `peer` ends
/// as one more attempt after `n - 1` of them: only the last jitter shows.
pub open spec fn attempts_recorded(
    old: Map<Seq<u8>, BackoffEntry>,
    new: Map<Seq<u8>, BackoffEntry>,
    peer: Seq<u8>,
    now: u64,
    n: nat,
) -> bool {
    if n == 0 {
        new == old
    } else {
        let e = entry_or_fresh(old, peer, now);
        &&& new.dom() == old.dom().insert(peer)
        &&& forall|k: Seq<u8>| #[trigger] new.dom().contains(k) && k != peer ==> new[k] == old[k]
        &&& (BackoffEntry { attempt_count: (e.attempt_count + n - 1) as u32, ..e }).attempt_recorded(
            new[peer],
            now,
        )
    }
}

/// One more attempt extends a run of recorded attempts.
pub proof fn lemma_attempts_step(
    old: Map<Seq<u8>, BackoffEntry>,
    mid: Map<Seq<u8>, BackoffEntry>,
    new: Map<Seq<u8>, BackoffEntry>,
    peer: Seq<u8>,
    now: u64,
    n: nat,
)
    requires
        attempts_recorded(old, mid, peer, now, n),
        peer_attempt_recorded(mid, new, peer, now),
        entry_or_fresh(old, peer, now).attempt_count + n < u32::MAX,
    ensures
        attempts_recorded(old, new, peer, now, n + 1),
{
    let e = entry_or_fresh(old, peer, now);
    if n == 0 {
        assert(BackoffEntry { attempt_count: (e.attempt_count + 0) as u32, ..e } == e);
    } else {
        let em = entry_or_fresh(mid, peer, now);
        assert(em == mid[peer]);
        let prev = BackoffEntry { attempt_count: (e.attempt_count + n - 1) as u32, ..e };
        let j1 = choose|j: i64| valid_jitter(j) && mid[peer] == #[trigger] prev.after_attempt(now, j);
        let j2 = choose|j: i64| valid_jitter(j) && new[peer] == #[trigger] em.after_attempt(now, j);
        let cur = BackoffEntry { attempt_count: (e.attempt_count + n) as u32, ..e };
        assert(new[peer] == cur.after_attempt(now, j2));
        assert(new.dom() =~= old.dom().insert(peer));
        assert forall|k: Seq<u8>| #[trigger] new.dom().contains(k) && k != peer implies new[k] == old[k] by {
            assert(mid.dom().contains(k));
        }
    }
}

/// The entries of `m` whose last attempt is at or after `now - max_age`
/// (all of them when `now < max_age`).
pub open spec fn spec_cleanup(m: Map<Seq<u8>, BackoffEntry>, max_age: u64, now: u64) -> Map<Seq<u8>, BackoffEntry> {
    if max_age <= now {
        m.restrict(Set::new(|k: Seq<u8>| m.dom().contains(k) && m[k].last_attempt >= now - max_age))
    } else {
        m
    }
}

/// Backoff states of many peers.
#[derive(Debug)]
pub struct BackoffManager {
    entries: PeerMap<BackoffEntry>,
}

impl View for BackoffManager {
    type V = Map<Seq<u8>, BackoffEntry>;

    closed spec fn view(&self) -> Map<Seq<u8>, BackoffEntry> {
        self.entries@
    }
}

impl BackoffManager {
    /// The internal table is well formed.
    pub closed spec fn wf(&self) -> bool {
        self.entries.wf()
    }

    /// A manager without entries.
    pub fn new() -> (m: Self)
        ensures
            m.wf(),
            m@ == Map::<Seq<u8>, BackoffEntry>::empty(),
    {
        BackoffManager { entries: PeerMap::new() }
    }

    /// The number of peers with an entry.
    pub fn len(&self) -> (n: usize)
        requires
            self.wf(),
        ensures
            n == self@.dom().len(),
    {
        self.entries.len()
    }

    /// The entry of `peer`, if any.
    pub fn entry(&self, peer: &PeerKey) -> (r: Option<BackoffEntry>)
        requires
            self.wf(),
        ensures
            r == (if self@.dom().contains(peer@) {
                Some(self@[peer@])
            } else {
                None
            }),
    {
        match self.entries.get(peer) {
            Some(e) => Some(*e),
            None => None,
        }
    }

    /// Whether `peer` may be attempted at clock reading `now`.
    pub fn can_attempt_at(&self, peer: &PeerKey, now: u64) -> (r: bool)
        requires
            self.wf(),
        ensures
            r == spec_can_attempt(self@, peer@, now),
    {
        match self.entries.get(peer) {
            Some(entry) => entry.can_retry_at(now) && !entry.should_give_up(),
            None => true,
        }
    }

    /// Whether `peer` may be attempted now.
    pub fn can_attempt(&self, peer: &PeerKey) -> (r: bool)
        requires
            self.wf(),
        ensures
            exists|now: u64| r == #[trigger] spec_can_attempt(self@, peer@, now),
    {
        let now = now_ms();
        self.can_attempt_at(peer, now)
    }

    /// The time (ms) left at clock reading `now` until `peer` may be retried,
    /// if it has an entry.
    pub fn time_until_retry_at(&self, peer: &PeerKey, now: u64) -> (r: Option<u64>)
        requires
            self.wf(),
        ensures
            r == (if self@.dom().contains(peer@) {
                Some(self@[peer@].spec_time_until_retry_at(now) as u64)
            } else {
                None
            }),
    {
        match self.entries.get(peer) {
            Some(entry) => Some(entry.time_until_retry_at(now)),
            None => None,
        }
    }

    /// The time (ms) left until `peer` may be retried, if it has an entry.
    pub fn time_until_retry(&self, peer: &PeerKey) -> (r: Option<u64>)
        requires
            self.wf(),
        ensures
            r is Some == self@.dom().contains(peer@),
            r matches Some(d) ==> exists|now: u64|
                d == #[trigger] self@[peer@].spec_time_until_retry_at(now) as u64,
    {
        let now = now_ms();
        self.time_until_retry_at(peer, now)
    }

    /// Records an attempt of `peer` at clock reading `now` with the jitter
    /// `jitter`; a peer without an entry gets a fresh one first.
    pub fn record_attempt_with(&mut self, peer: PeerKey, now: u64, jitter: i64)
        requires
            old(self).wf(),
            can_count_attempt_for(old(self)@, peer@),
            valid_jitter(jitter),
        ensures
            final(self).wf(),
            final(self)@ == old(self)@.insert(
                peer@,
                entry_or_fresh(old(self)@, peer@, now).after_attempt(now, jitter),
            ),
    {
        let mut entry = match self.entries.get(&peer) {
            Some(e) => *e,
            None => BackoffEntry::new_at(now),
        };
        entry.record_attempt_with(now, jitter);
        self.entries.set(peer, entry);
    }

    /// Records an attempt of `peer` at clock reading `now`, with a random jitter.
    pub fn record_attempt_at(&mut self, peer: PeerKey, now: u64)
        requires
            old(self).wf(),
            can_count_attempt_for(old(self)@, peer@),
        ensures
            final(self).wf(),
            peer_attempt_recorded(old(self)@, final(self)@, peer@, now),
    {
        let ghost p = peer@;
        let jitter = random_in_range(-JITTER_PERMILLE, JITTER_PERMILLE);
        self.record_attempt_with(peer, now, jitter);
        proof {
            let e = entry_or_fresh(old(self)@, p, now);
            assert(self@[p] == e.after_attempt(now, jitter));
            assert(self@.dom() =~= old(self)@.dom().insert(p));
        }
    }

    /// Records an attempt of `peer` now, with a random jitter.
    pub fn record_attempt(&mut self, peer: PeerKey)
        requires
            old(self).wf(),
            can_count_attempt_for(old(self)@, peer@),
        ensures
            final(self).wf(),
            exists|now: u64| #[trigger] peer_attempt_recorded(old(self)@, final(self)@, peer@, now),
    {
        let now = now_ms();
        self.record_attempt_at(peer, now);
    }

    /// Resets the entry of `peer`, if it has one, after a success.
    pub fn record_success(&mut self, peer: &PeerKey)
        requires
            old(self).wf(),
        ensures
            final(self).wf(),
            final(self)@ == after_peer_success(old(self)@, peer@),
    {
        match self.entries.get(peer) {
            Some(e) => {
                let mut entry = *e;
                entry.record_success();
                self.entries.set(copy_peer(peer), entry);
            },
            None => {},
        }
    }

    /// Records a failure of `peer` at clock reading `now`: the same as an attempt.
    pub fn record_failure_at(&mut self, peer: PeerKey, now: u64)
        requires
            old(self).wf(),
            can_count_attempt_for(old(self)@, peer@),
        ensures
            final(self).wf(),
            peer_attempt_recorded(old(self)@, final(self)@, peer@, now),
    {
        self.record_attempt_at(peer, now);
    }

    /// Records a failure of `peer` now: the same as an attempt.
    pub fn record_failure(&mut self, peer: PeerKey)
        requires
            old(self).wf(),
            can_count_attempt_for(old(self)@, peer@),
        ensures
            final(self).wf(),
            exists|now: u64| #[trigger] peer_attempt_recorded(old(self)@, final(self)@, peer@, now),
    {
        self.record_attempt(peer);
    }

    /// Drops the entries whose last attempt is older than `max_age` (ms) at
    /// clock reading `now`: an entry stays when its last attempt is at or after
    /// `now - max_age`.
    pub fn cleanup_old_entries_at(&mut self, max_age: u64, now: u64)
        requires
            old(self).wf(),
            max_age <= now,
        ensures
            final(self).wf(),
            final(self)@ == spec_cleanup(old(self)@, max_age, now),
    {
        let cutoff = now - max_age;
        let n = self.entries.len();
        let mut keep: Vec<bool> = Vec::new();
        let mut i: usize = 0;
        while i < n
            invariant
                self.entries.wf(),
                n == self.entries.key_seq().len(),
                i <= n,
                keep.len() == i,
                forall|j: int|
                    0 <= j < i ==> keep@[j] == (self.entries.val_seq()[j].last_attempt >= cutoff),
            decreases n - i,
        {
            let e = self.entries.value_at(i);
            keep.push(e.last_attempt >= cutoff);
            i += 1;
        }
        let ghost before = self.entries;
        self.entries.retain_mask(&keep);
        proof {
            let target = before@.restrict(
                Set::new(|k: Seq<u8>| before@.dom().contains(k) && before@[k].last_attempt >= cutoff),
            );
            assert forall|k: Seq<u8>| self@.dom().contains(k) <==> target.dom().contains(k) by {
                if before@.dom().contains(k) {
                    before.lemma_index_of(k);
                    assert(keep@[before.index_of_key(k)] == (before@[k].last_attempt >= cutoff));
                }
            }
            assert forall|k: Seq<u8>| #[trigger] self@.dom().contains(k) implies self@[k] == target[k] by {
                assert(target.dom().contains(k));
            }
            assert(self@ =~= target);
        }
    }

    /// Drops the entries whose last attempt is older than `max_age` (ms). A
    /// clock reading below `max_age` leaves the entries as they are.
    pub fn cleanup_old_entries(&mut self, max_age: u64)
        requires
            old(self).wf(),
        ensures
            final(self).wf(),
            exists|now: u64| final(self)@ == #[trigger] spec_cleanup(old(self)@, max_age, now),
    {
        let now = now_ms();
        if max_age <= now {
            self.cleanup_old_entries_at(max_age, now);
        }
        assert(self@ == spec_cleanup(old(self)@, max_age, now));
    }
}

impl Default for BackoffManager {
    fn default() -> (m: Self)
        ensures
            m.wf(),
            m@ == Map::<Seq<u8>, BackoffEntry>::empty(),
    {
        Self::new()
    }
}


proof fn lemma_doubled_at_least_min(e: nat)
    ensures
        doubled_backoff(e) >= MIN_BACKOFF_MS,
{
    lemma_doubled_grows(0, e);
}

/// A retry is allowed exactly when no time is left to wait for it.
pub proof fn law_can_retry_iff_no_wait_left(e: BackoffEntry, now: u64)
    ensures
        e.spec_can_retry_at(now) <==> e.spec_time_until_retry_at(now) == 0,
{
}

/// A success right after an attempt at `now` leaves the same entry as a fresh
/// one made at `now`: a success undoes every attempt before it.
pub proof fn law_success_after_attempt_is_fresh(e: BackoffEntry, now: u64, j: i64)
    ensures
        e.after_attempt(now, j).after_success() == (BackoffEntry {
            attempt_count: 0,
            last_attempt: now,
            next_attempt_after: MIN_BACKOFF_MS,
        }),
{
}

/// The backoff starts at one second and doubles with each attempt up to five
/// minutes: after the `n`-th attempt (for `n` below 2^31) it is
/// `min(2^(n-1) s, 300 s)` before jitter, and the jitter moves it by at most 10%.
pub proof fn law_backoff_window(e: BackoffEntry, now: u64, j: i64)
    requires
        valid_jitter(j),
        e.attempt_count + 1 < 0x8000_0000,
    ensures
        ({
            let n = (e.attempt_count + 1) as u32;
            let c = clamped_backoff(n);
            let next = e.after_attempt(now, j).next_attempt_after;
            &&& c == (if doubled_backoff((n - 1) as nat) > MAX_BACKOFF_MS {
                MAX_BACKOFF_MS as nat
            } else {
                doubled_backoff((n - 1) as nat)
            })
            &&& MIN_BACKOFF_MS <= c <= MAX_BACKOFF_MS
            &&& c * 9 / 10 <= next <= c * 11 / 10
        }),
{
    let n = (e.attempt_count + 1) as u32;
    let c = clamped_backoff(n);
    lemma_doubled_at_least_min((n - 1) as nat);
    let f = 1000 + j;
    assert(c * 900 <= c * f && c * f < c * 1100 + 1) by (nonlinear_arith)
        requires
            900 <= f < 1100,
            c >= 0,
    ;
}

/// The backoff never shrinks from one attempt to a later one (below 2^31
/// attempts).
pub proof fn law_backoff_never_shrinks(a: u32, b: u32)
    requires
        1 <= a <= b < 0x8000_0000,
    ensures
        clamped_backoff(a) <= clamped_backoff(b),
{
    lemma_doubled_grows((a - 1) as nat, (b - 1) as nat);
}

/// After the tenth attempt an entry gives up.
pub proof fn law_gives_up_after_ten_attempts(e: BackoffEntry, now: u64, j: i64)
    requires
        e.attempt_count >= GIVE_UP_ATTEMPTS - 1,
        e.can_count_attempt(),
    ensures
        e.after_attempt(now, j).spec_should_give_up(),
{
}

/// A peer without an entry may always be attempted.
pub proof fn law_unknown_peer_may_be_attempted(m: Map<Seq<u8>, BackoffEntry>, peer: Seq<u8>, now: u64)
    requires
        !m.dom().contains(peer),
    ensures
        spec_can_attempt(m, peer, now),
{
}

/// Right after an attempt is recorded at `now`, the peer may not be attempted
/// again at `now` (below 2^31 attempts).
pub proof fn law_attempt_blocks_immediate_retry(
    old: Map<Seq<u8>, BackoffEntry>,
    new: Map<Seq<u8>, BackoffEntry>,
    peer: Seq<u8>,
    now: u64,
)
    requires
        peer_attempt_recorded(old, new, peer, now),
        entry_or_fresh(old, peer, now).attempt_count + 1 < 0x8000_0000,
    ensures
        !spec_can_attempt(new, peer, now),
{
    let e = entry_or_fresh(old, peer, now);
    let j = choose|j: i64| valid_jitter(j) && new[peer] == #[trigger] e.after_attempt(now, j);
    law_backoff_window(e, now, j);
    assert(new.dom().contains(peer));
}

/// After a success, a peer that was attempted at `now` may be attempted again
/// one second later.
pub proof fn law_success_reopens_after_min_backoff(
    old: Map<Seq<u8>, BackoffEntry>,
    new: Map<Seq<u8>, BackoffEntry>,
    peer: Seq<u8>,
    now: u64,
)
    requires
        peer_attempt_recorded(old, new, peer, now),
        now + MIN_BACKOFF_MS <= u64::MAX,
    ensures
        spec_can_attempt(after_peer_success(new, peer), peer, (now + MIN_BACKOFF_MS) as u64),
{
    assert(new.dom().contains(peer));
}

fn copy_peer(p: &PeerKey) -> (r: PeerKey)
    ensures
        r@ == p@,
{
    crate::peers::copy_key(p)
}

} // verus!
