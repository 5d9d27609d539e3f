//! Peer identities and the small collections keyed by them.
//!
//! A peer is known by the bytes of its identity (the multihash bytes of a
//! libp2p peer id). Sets and maps of peers are kept in vectors whose keys are
//! pairwise distinct; their views are the mathematical set and map.
use vstd::prelude::*;

verus! {

/// The bytes that identify a peer.
pub type PeerKey = Vec<u8>;

/// Compares two byte strings.
pub fn same_key(a: &Vec<u8>, b: &Vec<u8>) -> (r: bool)
    ensures
        r == (a@ == b@),
{
    if a.len() != b.len() {
        return false;
    }
    let mut i: usize = 0;
    while i < a.len()
        invariant
            i <= a.len(),
            a.len() == b.len(),
            forall|j: int| 0 <= j < i ==> a@[j] == b@[j],
        decreases a.len() - i,
    {
        if a[i] != b[i] {
            return false;
        }
        i += 1;
    }
    assert(a@ =~= b@);
    true
}

/// Copies a byte string.
pub fn copy_key(a: &Vec<u8>) -> (r: Vec<u8>)
    ensures
        r@ == a@,
{
    a.clone()
}

/// The views of a vector of keys.
pub open spec fn key_views(v: Seq<Vec<u8>>) -> Seq<Seq<u8>> {
    v.map_values(|k: Vec<u8>| k@)
}

/// Position of `k` in a vector of keys, if it occurs.
pub fn position_of(keys: &Vec<Vec<u8>>, k: &Vec<u8>) -> (r: Option<usize>)
    ensures
        match r {
            Some(i) => i < keys.len() && key_views(keys@)[i as int] == k@,
            None => !key_views(keys@).contains(k@),
        },
{
    let mut i: usize = 0;
    while i < keys.len()
        invariant
            i <= keys.len(),
            forall|j: int| 0 <= j < i ==> key_views(keys@)[j] != k@,
        decreases keys.len() - i,
    {
        if same_key(&keys[i], k) {
            return Some(i);
        }
        i += 1;
    }
    None
}

/// A set of peers.
#[derive(Debug)]
pub struct PeerSet {
    items: Vec<PeerKey>,
}

impl PeerSet {
    /// The members in the order in which they were added.
    pub closed spec fn seq(&self) -> Seq<Seq<u8>> {
        key_views(self.items@)
    }

    /// No peer occurs twice.
    pub open spec fn wf(&self) -> bool {
        self.seq().no_duplicates()
    }

    /// An empty set.
    pub fn new() -> (s: Self)
        ensures
            s.wf(),
            s@ == Set::<Seq<u8>>::empty(),
            s.seq() == Seq::<Seq<u8>>::empty(),
    {
        let s = PeerSet { items: Vec::new() };
        assert(s.seq() =~= Seq::<Seq<u8>>::empty());
        assert(s@ =~= Set::<Seq<u8>>::empty());
        s
    }

    /// The number of peers.
    pub fn len(&self) -> (n: usize)
        requires
            self.wf(),
        ensures
            n == self@.len(),
            n == self.seq().len(),
    {
        proof {
            self.seq().unique_seq_to_set();
        }
        self.items.len()
    }

    /// Whether the set has no peer.
    pub fn is_empty(&self) -> (r: bool)
        requires
            self.wf(),
        ensures
            r == (self@.len() == 0),
            r == (self@ == Set::<Seq<u8>>::empty()),
    {
        proof {
            self.seq().unique_seq_to_set();
            if self.items.len() > 0 {
                assert(self@.contains(self.seq()[0]));
            } else {
                assert(self@ =~= Set::<Seq<u8>>::empty());
            }
        }
        self.items.len() == 0
    }

    /// Whether `k` is a member.
    pub fn contains(&self, k: &Vec<u8>) -> (r: bool)
        ensures
            r == self@.contains(k@),
    {
        position_of(&self.items, k).is_some()
    }

    /// Adds `k`; returns whether it was new.
    pub fn insert(&mut self, k: PeerKey) -> (r: bool)
        requires
            old(self).wf(),
        ensures
            final(self).wf(),
            r == !old(self)@.contains(k@),
            final(self)@ == old(self)@.insert(k@),
            r ==> final(self).seq() == old(self).seq().push(k@),
            !r ==> final(self).seq() == old(self).seq(),
    {
        match position_of(&self.items, &k) {
            Some(_) => {
                assert(self@ =~= old(self)@.insert(k@));
                false
            },
            None => {
                let ghost kv = k@;
                self.items.push(k);
                assert(self.seq() =~= old(self).seq().push(kv));
                assert(self@ =~= old(self)@.insert(kv)) by {
                    assert forall|x: Seq<u8>| self@.contains(x) <==> old(self)@.insert(kv).contains(
                        x,
                    ) by {
                        if x == kv {
                            assert(self.seq()[self.seq().len() - 1] == kv);
                        }
                        if old(self)@.contains(x) {
                            let j = choose|j: int| 0 <= j < old(self).seq().len() && old(self).seq()[j] == x;
                            assert(self.seq()[j] == x);
                        }
                    }
                }
                true
            },
        }
    }

    /// Removes `k`; returns whether it was a member.
    pub fn remove(&mut self, k: &Vec<u8>) -> (r: bool)
        requires
            old(self).wf(),
        ensures
            final(self).wf(),
            r == old(self)@.contains(k@),
            final(self)@ == old(self)@.remove(k@),
    {
        match position_of(&self.items, k) {
            None => {
                assert(self@ =~= old(self)@.remove(k@));
                false
            },
            Some(i) => {
                let ghost old_seq = self.seq();
                self.items.remove(i);
                assert(self.seq() =~= old_seq.remove(i as int));
                assert(self@ =~= old(self)@.remove(k@)) by {
                    assert forall|x: Seq<u8>| self@.contains(x) <==> old(self)@.remove(k@).contains(
                        x,
                    ) by {
                        if self@.contains(x) {
                            let j = choose|j: int| 0 <= j < self.seq().len() && self.seq()[j] == x;
                            if j < i {
                                assert(old_seq[j] == x);
                            } else {
                                assert(old_seq[j + 1] == x);
                            }
                        }
                        if old(self)@.contains(x) && x != k@ {
                            let j = choose|j: int| 0 <= j < old_seq.len() && old_seq[j] == x;
                            if j < i {
                                assert(self.seq()[j] == x);
                            } else {
                                assert(self.seq()[j - 1] == x);
                            }
                        }
                    }
                }
                true
            },
        }
    }

    /// The members, in the order in which they were added.
    pub fn to_vec(&self) -> (v: Vec<PeerKey>)
        ensures
            key_views(v@) == self.seq(),
    {
        let mut v: Vec<PeerKey> = Vec::new();
        let mut i: usize = 0;
        while i < self.items.len()
            invariant
                i <= self.items.len(),
                key_views(v@) =~= self.seq().take(i as int),
            decreases self.items.len() - i,
        {
            let k = copy_key(&self.items[i]);
            assert(k@ == self.seq()[i as int]);
            v.push(k);
            assert(key_views(v@) =~= self.seq().take(i as int).push(k@));
            assert(self.seq().take(i + 1) =~= self.seq().take(i as int).push(k@));
            i += 1;
        }
        assert(self.seq().take(i as int) =~= self.seq());
        v
    }

    /// The set of the given peers (a peer given twice is kept once).
    pub fn from_vec(v: &Vec<PeerKey>) -> (s: Self)
        ensures
            s.wf(),
            s@ == key_views(v@).to_set(),
    {
        let mut s = PeerSet::new();
        let mut i: usize = 0;
        while i < v.len()
            invariant
                i <= v.len(),
                s.wf(),
                s@ =~= key_views(v@).take(i as int).to_set(),
            decreases v.len() - i,
        {
            s.insert(copy_key(&v[i]));
            proof {
                let t = key_views(v@).take(i + 1);
                assert(t =~= key_views(v@).take(i as int).push(v@[i as int]@));
                assert forall|x: Seq<u8>| s@.contains(x) <==> t.to_set().contains(x) by {
                    if t.contains(x) {
                        let j = choose|j: int| 0 <= j < t.len() && t[j] == x;
                        if j < i {
                            assert(key_views(v@).take(i as int)[j] == x);
                        }
                    }
                    if key_views(v@).take(i as int).contains(x) {
                        let j = choose|j: int| 0 <= j < i && key_views(v@).take(i as int)[j] == x;
                        assert(t[j] == x);
                    }
                    if x == v@[i as int]@ {
                        assert(t[i as int] == x);
                    }
                }
            }
            i += 1;
        }
        assert(key_views(v@).take(v.len() as int) =~= key_views(v@));
        s
    }
}

impl View for PeerSet {
    type V = Set<Seq<u8>>;

    open spec fn view(&self) -> Set<Seq<u8>> {
        self.seq().to_set()
    }
}

/// A map from peers to values.
#[derive(Debug)]
pub struct PeerMap<V> {
    keys: Vec<PeerKey>,
    vals: Vec<V>,
}

impl<V> PeerMap<V> {
    /// The keys in the order in which they were added.
    pub closed spec fn key_seq(&self) -> Seq<Seq<u8>> {
        key_views(self.keys@)
    }

    /// The values, aligned with `key_seq`.
    pub closed spec fn val_seq(&self) -> Seq<V> {
        self.vals@
    }

    /// No key occurs twice, and each key has its value.
    pub open spec fn wf(&self) -> bool {
        &&& self.key_seq().no_duplicates()
        &&& self.key_seq().len() == self.val_seq().len()
    }

    /// The position of key `k`.
    pub closed spec fn index_of_key(&self, k: Seq<u8>) -> int {
        choose|i: int| 0 <= i < self.key_seq().len() && self.key_seq()[i] == k
    }

    /// The entry at position `i` is in the map.
    pub proof fn lemma_entry_at(&self, i: int)
        requires
            self.wf(),
            0 <= i < self.key_seq().len(),
        ensures
            self@.dom().contains(self.key_seq()[i]),
            self@[self.key_seq()[i]] == self.val_seq()[i],
            self.index_of_key(self.key_seq()[i]) == i,
    {
        let k = self.key_seq()[i];
        assert(self.key_seq().contains(k));
        let j = self.index_of_key(k);
        assert(self.key_seq()[j] == k);
    }

    /// A key of the map sits at its position.
    pub proof fn lemma_index_of(&self, k: Seq<u8>)
        requires
            self.wf(),
            self@.dom().contains(k),
        ensures
            0 <= self.index_of_key(k) < self.key_seq().len(),
            self.key_seq()[self.index_of_key(k)] == k,
            self.val_seq()[self.index_of_key(k)] == self@[k],
    {
    }

    /// The domain is the set of keys.
    pub proof fn lemma_dom(&self)
        requires
            self.wf(),
        ensures
            self@.dom() == self.key_seq().to_set(),
            self@.dom().len() == self.key_seq().len(),
            self@.dom().finite(),
    {
        assert(self@.dom() =~= self.key_seq().to_set());
        self.key_seq().unique_seq_to_set();
    }

    /// An empty map.
    pub fn new() -> (m: Self)
        ensures
            m.wf(),
            m@ == Map::<Seq<u8>, V>::empty(),
    {
        let m = PeerMap { keys: Vec::new(), vals: Vec::new() };
        assert(m.key_seq() =~= Seq::<Seq<u8>>::empty());
        assert(m@ =~= Map::<Seq<u8>, V>::empty());
        m
    }

    /// The number of entries.
    pub fn len(&self) -> (n: usize)
        requires
            self.wf(),
        ensures
            n == self@.dom().len(),
            n == self.key_seq().len(),
    {
        proof {
            self.lemma_dom();
        }
        self.keys.len()
    }

    /// The key at position `i`.
    pub fn key_at(&self, i: usize) -> (k: PeerKey)
        requires
            self.wf(),
            i < self.key_seq().len(),
        ensures
            k@ == self.key_seq()[i as int],
    {
        copy_key(&self.keys[i])
    }

    /// The value at position `i`.
    pub fn value_at(&self, i: usize) -> (v: &V)
        requires
            self.wf(),
            i < self.key_seq().len(),
        ensures
            *v == self.val_seq()[i as int],
    {
        &self.vals[i]
    }

    /// Whether `k` has an entry.
    pub fn contains_key(&self, k: &Vec<u8>) -> (r: bool)
        requires
            self.wf(),
        ensures
            r == self@.dom().contains(k@),
    {
        position_of(&self.keys, k).is_some()
    }

    /// The value of `k`, if any.
    pub fn get(&self, k: &Vec<u8>) -> (r: Option<&V>)
        requires
            self.wf(),
        ensures
            match r {
                Some(v) => self@.dom().contains(k@) && *v == self@[k@],
                None => !self@.dom().contains(k@),
            },
    {
        match position_of(&self.keys, k) {
            Some(i) => {
                proof {
                    self.lemma_entry_at(i as int);
                }
                Some(&self.vals[i])
            },
            None => None,
        }
    }

    /// Sets the value of `k`.
    pub fn set(&mut self, k: PeerKey, v: V)
        requires
            old(self).wf(),
        ensures
            final(self).wf(),
            final(self)@ == old(self)@.insert(k@, v),
    {
        let ghost kv = k@;
        match position_of(&self.keys, &k) {
            Some(i) => {
                self.vals.set(i, v);
                assert(self.key_seq() == old(self).key_seq());
                assert(self@ =~= old(self)@.insert(kv, v)) by {
                    assert forall|x: Seq<u8>| #[trigger]
                        self@.dom().contains(x) implies self@[x] == old(self)@.insert(kv, v)[x] by {
                        let j = self.index_of_key(x);
                        assert(self.key_seq()[j] == x);
                        if x == kv {
                            assert(j == i);
                        } else {
                            old(self).lemma_entry_at(j);
                        }
                    }
                }
            },
            None => {
                self.keys.push(k);
                self.vals.push(v);
                assert(self.key_seq() =~= old(self).key_seq().push(kv));
                assert(self.val_seq() =~= old(self).val_seq().push(v));
                assert(self@ =~= old(self)@.insert(kv, v)) by {
                    let n: int = old(self).key_seq().len() as int;
                    assert forall|x: Seq<u8>|
                        self@.dom().contains(x) <==> old(self)@.insert(kv, v).dom().contains(x) by {
                        if x == kv {
                            assert(self.key_seq()[n] == kv);
                        }
                        if old(self)@.dom().contains(x) {
                            let j = old(self).index_of_key(x);
                            assert(old(self).key_seq()[j] == x);
                            assert(self.key_seq()[j] == x);
                        }
                        if self@.dom().contains(x) && x != kv {
                            let j = self.index_of_key(x);
                            assert(self.key_seq()[j] == x);
                            assert(j < n);
                            assert(old(self).key_seq()[j] == x);
                        }
                    }
                    assert forall|x: Seq<u8>| #[trigger]
                        self@.dom().contains(x) implies self@[x] == old(self)@.insert(kv, v)[x] by {
                        let j = self.index_of_key(x);
                        assert(self.key_seq()[j] == x);
                        if x == kv {
                            assert(self.key_seq()[n] == kv);
                            assert(j == n);
                        } else {
                            assert(j < n);
                            assert(old(self).key_seq()[j] == x);
                            old(self).lemma_entry_at(j);
                        }
                    }
                }
            },
        }
    }

    /// Removes the entry of `k`; returns whether there was one.
    pub fn remove(&mut self, k: &Vec<u8>) -> (r: bool)
        requires
            old(self).wf(),
        ensures
            final(self).wf(),
            r == old(self)@.dom().contains(k@),
            final(self)@ == old(self)@.remove(k@),
    {
        match position_of(&self.keys, k) {
            None => {
                assert(self@ =~= old(self)@.remove(k@));
                false
            },
            Some(i) => {
                let ghost ks = self.key_seq();
                let ghost vs = self.val_seq();
                self.keys.remove(i);
                self.vals.remove(i);
                assert(self.key_seq() =~= ks.remove(i as int));
                assert(self.val_seq() =~= vs.remove(i as int));
                assert(self@ =~= old(self)@.remove(k@)) by {
                    assert forall|x: Seq<u8>|
                        self@.dom().contains(x) <==> old(self)@.remove(k@).dom().contains(x) by {
                        if self@.dom().contains(x) {
                            let j = self.index_of_key(x);
                            assert(self.key_seq()[j] == x);
                            if j < i {
                                assert(ks[j] == x);
                            } else {
                                assert(ks[j + 1] == x);
                            }
                        }
                        if old(self)@.dom().contains(x) && x != k@ {
                            let j = old(self).index_of_key(x);
                            assert(ks[j] == x);
                            if j < i {
                                assert(self.key_seq()[j] == x);
                            } else {
                                assert(self.key_seq()[j - 1] == x);
                            }
                        }
                    }
                    assert forall|x: Seq<u8>| #[trigger]
                        self@.dom().contains(x) implies self@[x] == old(self)@.remove(k@)[x] by {
                        let j = self.index_of_key(x);
                        assert(self.key_seq()[j] == x);
                        if j < i {
                            assert(ks[j] == x);
                            old(self).lemma_entry_at(j);
                        } else {
                            assert(ks[j + 1] == x);
                            old(self).lemma_entry_at(j + 1);
                        }
                    }
                }
                true
            },
        }
    }

}

impl<V: Copy> PeerMap<V> {
    /// Keeps the entries at the positions where `keep` holds.
    pub fn retain_mask(&mut self, keep: &Vec<bool>)
        requires
            old(self).wf(),
            keep.len() == old(self).key_seq().len(),
        ensures
            final(self).wf(),
            forall|x: Seq<u8>| #[trigger]
                final(self)@.dom().contains(x) <==> (old(self)@.dom().contains(x)
                    && keep@[old(self).index_of_key(x)]),
            forall|x: Seq<u8>| #[trigger]
                final(self)@.dom().contains(x) ==> final(self)@[x] == old(self)@[x],
    {
        let ghost ks = self.key_seq();
        let ghost vs = self.val_seq();
        let mut new_keys: Vec<PeerKey> = Vec::new();
        let mut new_vals: Vec<V> = Vec::new();
        let ghost mut origin: Seq<int> = Seq::empty();
        let mut i: usize = 0;
        while i < self.keys.len()
            invariant
                self.key_seq() == ks,
                self.val_seq() == vs,
                ks.len() == vs.len(),
                ks.no_duplicates(),
                keep.len() == ks.len(),
                i <= ks.len(),
                new_keys.len() == origin.len(),
                new_vals.len() == origin.len(),
                forall|j: int| 0 <= j < origin.len() ==> 0 <= #[trigger] origin[j] < i,
                forall|j: int, l: int| 0 <= j < l < origin.len() ==> origin[j] < origin[l],
                forall|j: int| 0 <= j < origin.len() ==> keep@[#[trigger] origin[j]],
                forall|j: int|
                    0 <= j < origin.len() ==> #[trigger] key_views(new_keys@)[j] == ks[origin[j]],
                forall|j: int| 0 <= j < origin.len() ==> #[trigger] new_vals@[j] == vs[origin[j]],
                forall|t: int|
                    0 <= t < i && keep@[t] ==> exists|j: int|
                        0 <= j < origin.len() && #[trigger] origin[j] == t,
            decreases ks.len() - i,
        {
            if keep[i] {
                let ghost ii: int = i as int;
                let k = copy_key(&self.keys[i]);
                assert(k@ == ks[i as int]);
                let v = self.vals[i];
                let ghost prev = new_keys@;
                new_keys.push(k);
                assert(key_views(new_keys@) =~= key_views(prev).push(k@));
                new_vals.push(v);
                proof {
                    let old_origin = origin;
                    origin = origin.push(ii);
                    assert forall|t: int| 0 <= t < i + 1 && keep@[t] implies exists|j: int|
                        0 <= j < origin.len() && #[trigger] origin[j] == t by {
                        if t == i {
                            assert(origin[old_origin.len() as int] == t);
                        } else {
                            let j = choose|j: int| 0 <= j < old_origin.len() && #[trigger] old_origin[j] == t;
                            assert(origin[j] == t);
                        }
                    }
                }
            }
            i += 1;
        }
        self.keys = new_keys;
        self.vals = new_vals;
        proof {
            let nk = self.key_seq();
            assert(nk.no_duplicates()) by {
                assert forall|a: int, b: int| 0 <= a < nk.len() && 0 <= b < nk.len() && a != b implies nk[a] != nk[b] by {
                    if a < b {
                        assert(origin[a] < origin[b]);
                    } else {
                        assert(origin[b] < origin[a]);
                    }
                }
            }
            assert forall|x: Seq<u8>|
                self@.dom().contains(x) <==> (old(self)@.dom().contains(x) && keep@[old(self).index_of_key(x)]) by {
                if self@.dom().contains(x) {
                    let j = self.index_of_key(x);
                    assert(nk[j] == x);
                    let t: int = origin[j];
                    assert(ks[t] == x);
                    old(self).lemma_entry_at(t);
                }
                if old(self)@.dom().contains(x) && keep@[old(self).index_of_key(x)] {
                    let t = old(self).index_of_key(x);
                    assert(ks[t] == x);
                    let j = choose|j: int| 0 <= j < origin.len() && #[trigger] origin[j] == t;
                    assert(nk[j] == x);
                }
            }
            assert forall|x: Seq<u8>| #[trigger] self@.dom().contains(x) implies self@[x] == old(self)@[x] by {
                let j = self.index_of_key(x);
                assert(nk[j] == x);
                let t: int = origin[j];
                assert(ks[t] == x);
                old(self).lemma_entry_at(t);
            }
        }
    }
}

impl<V> View for PeerMap<V> {
    type V = Map<Seq<u8>, V>;

    closed spec fn view(&self) -> Map<Seq<u8>, V> {
        Map::new(
            |k: Seq<u8>| self.key_seq().contains(k),
            |k: Seq<u8>| self.val_seq()[self.index_of_key(k)],
        )
    }
}

} // verus!
