//! The table of pending DHT queries.
use vstd::prelude::*;

use crate::peers::{copy_key, same_key};

verus! {

/// The state of a pending DHT provider query.
#[derive(Debug)]
pub struct DhtQueryState {
    /// The record key being queried.
    pub key: Vec<u8>,
    /// When (clock reading, ms) the query was started.
    pub started_at: u64,
    /// Whether any result has arrived for the query.
    pub received_results: bool,
}

/// What a query state holds.
pub struct QueryInfo {
    pub key: Seq<u8>,
    pub started_at: u64,
    pub received_results: bool,
}

impl View for DhtQueryState {
    type V = QueryInfo;

    open spec fn view(&self) -> QueryInfo {
        QueryInfo {
            key: self.key@,
            started_at: self.started_at,
            received_results: self.received_results,
        }
    }
}

/// Pending queries by query id.
#[derive(Debug)]
pub struct QueryTable {
    ids: Vec<u64>,
    states: Vec<DhtQueryState>,
}

impl QueryTable {
    /// The query ids in the order in which they were added.
    pub closed spec fn id_seq(&self) -> Seq<u64> {
        self.ids@
    }

    /// The states, aligned with `id_seq`.
    pub closed spec fn info_seq(&self) -> Seq<QueryInfo> {
        self.states@.map_values(|s: DhtQueryState| s@)
    }

    /// No id occurs twice, and each id has its state.
    pub open spec fn wf(&self) -> bool {
        &&& self.id_seq().no_duplicates()
        &&& self.id_seq().len() == self.info_seq().len()
    }

    /// The position of query `id`.
    pub closed spec fn index_of_id(&self, id: u64) -> int {
        choose|i: int| 0 <= i < self.id_seq().len() && self.id_seq()[i] == id
    }

    /// A query of the table sits at its position.
    pub proof fn lemma_index_of(&self, id: u64)
        requires
            self.wf(),
            self@.dom().contains(id),
        ensures
            0 <= self.index_of_id(id) < self.id_seq().len(),
            self.id_seq()[self.index_of_id(id)] == id,
            self.info_seq()[self.index_of_id(id)] == self@[id],
    {
    }

    /// The entry at position `i` is in the table.
    pub proof fn lemma_entry_at(&self, i: int)
        requires
            self.wf(),
            0 <= i < self.id_seq().len(),
        ensures
            self@.dom().contains(self.id_seq()[i]),
            self@[self.id_seq()[i]] == self.info_seq()[i],
            self.index_of_id(self.id_seq()[i]) == i,
    {
        let id = self.id_seq()[i];
        assert(self.id_seq().contains(id));
        let j = self.index_of_id(id);
        assert(self.id_seq()[j] == id);
    }

    /// An empty table.
    pub fn new() -> (t: Self)
        ensures
            t.wf(),
            t@ == Map::<u64, QueryInfo>::empty(),
    {
        let t = QueryTable { ids: Vec::new(), states: Vec::new() };
        assert(t.info_seq() =~= Seq::<QueryInfo>::empty());
        assert(t@ =~= Map::<u64, QueryInfo>::empty());
        t
    }

    /// The number of pending queries.
    pub fn len(&self) -> (n: usize)
        requires
            self.wf(),
        ensures
            n == self@.dom().len(),
    {
        proof {
            assert(self@.dom() =~= self.id_seq().to_set());
            self.id_seq().unique_seq_to_set();
        }
        self.ids.len()
    }

    fn position(&self, id: u64) -> (r: Option<usize>)
        requires
            self.wf(),
        ensures
            match r {
                Some(i) => i < self.id_seq().len() && self.id_seq()[i as int] == id,
                None => !self@.dom().contains(id),
            },
    {
        let mut i: usize = 0;
        while i < self.ids.len()
            invariant
                i <= self.ids.len(),
                forall|j: int| 0 <= j < i ==> self.id_seq()[j] != id,
            decreases self.ids.len() - i,
        {
            if self.ids[i] == id {
                return Some(i);
            }
            i += 1;
        }
        None
    }

    /// Whether query `id` is pending.
    pub fn contains(&self, id: u64) -> (r: bool)
        requires
            self.wf(),
        ensures
            r == self@.dom().contains(id),
    {
        match self.position(id) {
            Some(i) => {
                proof {
                    self.lemma_entry_at(i as int);
                }
                true
            },
            None => false,
        }
    }

    /// Adds (or replaces) the state of query `id`.
    pub fn insert(&mut self, id: u64, state: DhtQueryState)
        requires
            old(self).wf(),
        ensures
            final(self).wf(),
            final(self)@ == old(self)@.insert(id, state@),
    {
        let ghost sv = state@;
        match self.position(id) {
            Some(i) => {
                self.states.set(i, state);
                assert(self.info_seq() =~= old(self).info_seq().update(i as int, sv));
                assert(self@ =~= old(self)@.insert(id, sv)) by {
                    assert forall|x: u64| #[trigger]
                        self@.dom().contains(x) implies self@[x] == old(self)@.insert(id, sv)[x] by {
                        let j = self.index_of_id(x);
                        assert(self.id_seq()[j] == x);
                        if x == id {
                            assert(j == i);
                        } else {
                            old(self).lemma_entry_at(j);
                        }
                    }
                }
            },
            None => {
                self.ids.push(id);
                self.states.push(state);
                let ghost n: int = old(self).id_seq().len() as int;
                assert(self.id_seq() =~= old(self).id_seq().push(id));
                assert(self.info_seq() =~= old(self).info_seq().push(sv));
                assert(self@ =~= old(self)@.insert(id, sv)) by {
                    assert forall|x: u64|
                        self@.dom().contains(x) <==> old(self)@.insert(id, sv).dom().contains(x) by {
                        if x == id {
                            assert(self.id_seq()[n] == id);
                        }
                        if old(self)@.dom().contains(x) {
                            old(self).lemma_index_of(x);
                            assert(self.id_seq()[old(self).index_of_id(x)] == x);
                        }
                        if self@.dom().contains(x) && x != id {
                            let j = self.index_of_id(x);
                            assert(self.id_seq()[j] == x);
                            assert(old(self).id_seq()[j] == x);
                        }
                    }
                    assert forall|x: u64| #[trigger]
                        self@.dom().contains(x) implies self@[x] == old(self)@.insert(id, sv)[x] by {
                        let j = self.index_of_id(x);
                        assert(self.id_seq()[j] == x);
                        if x == id {
                            assert(self.id_seq()[n] == id);
                            assert(j == n);
                        } else {
                            assert(old(self).id_seq()[j] == x);
                            old(self).lemma_entry_at(j);
                        }
                    }
                }
            },
        }
    }

    /// Marks query `id` as having received results and returns its key; `None`
    /// when the query is not pending.
    pub fn mark_received(&mut self, id: u64) -> (r: Option<Vec<u8>>)
        requires
            old(self).wf(),
        ensures
            final(self).wf(),
            match r {
                Some(k) => old(self)@.dom().contains(id) && k@ == old(self)@[id].key && final(self)@
                    == old(self)@.insert(
                    id,
                    QueryInfo { received_results: true, ..old(self)@[id] },
                ),
                None => !old(self)@.dom().contains(id) && final(self)@ == old(self)@,
            },
    {
        match self.position(id) {
            None => None,
            Some(i) => {
                proof {
                    old(self).lemma_entry_at(i as int);
                }
                let key = copy_key(&self.states[i].key);
                let started_at = self.states[i].started_at;
                let state = DhtQueryState { key: copy_key(&key), started_at, received_results: true };
                self.insert(id, state);
                Some(key)
            },
        }
    }

    /// Removes query `id`; returns whether it was pending.
    pub fn remove(&mut self, id: u64) -> (r: bool)
        requires
            old(self).wf(),
        ensures
            final(self).wf(),
            r == old(self)@.dom().contains(id),
            final(self)@ == old(self)@.remove(id),
    {
        match self.position(id) {
            None => {
                assert(self@ =~= old(self)@.remove(id));
                false
            },
            Some(i) => {
                let ghost ids = self.id_seq();
                let ghost infos = self.info_seq();
                self.ids.remove(i);
                self.states.remove(i);
                assert(self.id_seq() =~= ids.remove(i as int));
                assert(self.info_seq() =~= infos.remove(i as int));
                assert(self@ =~= old(self)@.remove(id)) by {
                    assert forall|x: u64|
                        self@.dom().contains(x) <==> old(self)@.remove(id).dom().contains(x) by {
                        if self@.dom().contains(x) {
                            let j = self.index_of_id(x);
                            assert(self.id_seq()[j] == x);
                            if j < i {
                                assert(ids[j] == x);
                            } else {
                                assert(ids[j + 1] == x);
                            }
                        }
                        if old(self)@.dom().contains(x) && x != id {
                            old(self).lemma_index_of(x);
                            let j = old(self).index_of_id(x);
                            if j < i {
                                assert(self.id_seq()[j] == x);
                            } else {
                                assert(self.id_seq()[j - 1] == x);
                            }
                        }
                    }
                    assert forall|x: u64| #[trigger]
                        self@.dom().contains(x) implies self@[x] == old(self)@.remove(id)[x] by {
                        let j = self.index_of_id(x);
                        assert(self.id_seq()[j] == x);
                        if j < i {
                            assert(ids[j] == x);
                            old(self).lemma_entry_at(j);
                        } else {
                            assert(ids[j + 1] == x);
                            old(self).lemma_entry_at(j + 1);
                        }
                    }
                }
                true
            },
        }
    }

    /// Whether some pending query is for record key `key`.
    pub fn has_query_for(&self, key: &Vec<u8>) -> (r: bool)
        requires
            self.wf(),
        ensures
            r == exists|id: u64| #[trigger] self@.dom().contains(id) && self@[id].key == key@,
    {
        let mut i: usize = 0;
        while i < self.ids.len()
            invariant
                self.wf(),
                i <= self.ids.len(),
                forall|j: int| 0 <= j < i ==> self.info_seq()[j].key != key@,
            decreases self.ids.len() - i,
        {
            if same_key(&self.states[i].key, key) {
                proof {
                    self.lemma_entry_at(i as int);
                }
                return true;
            }
            i += 1;
        }
        proof {
            assert forall|id: u64| #[trigger] self@.dom().contains(id) implies self@[id].key != key@ by {
                self.lemma_index_of(id);
            }
        }
        false
    }

    /// Removes the queries started more than `timeout` ms before clock
    /// reading `now`; returns how many were removed.
    pub fn remove_stale(&mut self, timeout: u64, now: u64) -> (removed: usize)
        requires
            old(self).wf(),
        ensures
            final(self).wf(),
            final(self)@ == old(self)@.restrict(
                Set::new(
                    |id: u64|
                        old(self)@.dom().contains(id) && !is_stale(old(self)@[id], timeout, now),
                ),
            ),
    {
        let ghost ids = self.id_seq();
        let ghost infos = self.info_seq();
        let mut new_ids: Vec<u64> = Vec::new();
        let mut new_states: Vec<DhtQueryState> = Vec::new();
        let ghost mut origin: Seq<int> = Seq::empty();
        let mut removed: usize = 0;
        let mut i: usize = 0;
        while i < self.ids.len()
            invariant
                self.id_seq() == ids,
                self.info_seq() == infos,
                ids.len() == infos.len(),
                ids.no_duplicates(),
                i <= ids.len(),
                removed <= i,
                new_ids.len() == origin.len(),
                new_states.len() == origin.len(),
                forall|j: int| 0 <= j < origin.len() ==> 0 <= #[trigger] origin[j] < i,
                forall|j: int, l: int| 0 <= j < l < origin.len() ==> origin[j] < origin[l],
                forall|j: int| 0 <= j < origin.len() ==> !is_stale(infos[#[trigger] origin[j]], timeout, now),
                forall|j: int| 0 <= j < origin.len() ==> #[trigger] new_ids@[j] == ids[origin[j]],
                forall|j: int| 0 <= j < origin.len() ==> #[trigger] new_states@[j]@ == infos[origin[j]],
                forall|t: int|
                    0 <= t < i && !is_stale(infos[t], timeout, now) ==> exists|j: int|
                        0 <= j < origin.len() && #[trigger] origin[j] == t,
            decreases ids.len() - i,
        {
            let elapsed = now.saturating_sub(self.states[i].started_at);
            assert(infos[i as int] == self.states@[i as int]@);
            if elapsed > timeout {
                removed = removed + 1;
            } else {
                let st = DhtQueryState {
                    key: copy_key(&self.states[i].key),
                    started_at: self.states[i].started_at,
                    received_results: self.states[i].received_results,
                };
                new_ids.push(self.ids[i]);
                new_states.push(st);
                proof {
                    let ii: int = i as int;
                    let old_origin = origin;
                    origin = origin.push(ii);
                    assert forall|t: int| 0 <= t < i + 1 && !is_stale(infos[t], timeout, now) implies exists|j: int|
                        0 <= j < origin.len() && #[trigger] origin[j] == t by {
                        if t == ii {
                            assert(origin[old_origin.len() as int] == t);
                        } else {
                            let j = choose|j: int| 0 <= j < old_origin.len() && #[trigger] old_origin[j] == t;
                            assert(origin[j] == t);
                        }
                    }
                }
            }
            i += 1;
        }
        self.ids = new_ids;
        self.states = new_states;
        proof {
            let ni = self.id_seq();
            assert(self.info_seq().len() == ni.len());
            assert(ni.no_duplicates()) by {
                assert forall|a: int, b: int| 0 <= a < ni.len() && 0 <= b < ni.len() && a != b implies ni[a] != ni[b] by {
                    if a < b {
                        assert(origin[a] < origin[b]);
                    } else {
                        assert(origin[b] < origin[a]);
                    }
                }
            }
            let target = old(self)@.restrict(
                Set::new(|id: u64| old(self)@.dom().contains(id) && !is_stale(old(self)@[id], timeout, now)),
            );
            assert forall|x: u64| self@.dom().contains(x) <==> target.dom().contains(x) by {
                if self@.dom().contains(x) {
                    self.lemma_index_of(x);
                    let t: int = origin[self.index_of_id(x)];
                    assert(ids[t] == x);
                    old(self).lemma_entry_at(t);
                }
                if target.dom().contains(x) {
                    old(self).lemma_index_of(x);
                    let t = old(self).index_of_id(x);
                    let j = choose|j: int| 0 <= j < origin.len() && #[trigger] origin[j] == t;
                    assert(ni[j] == x);
                    assert(self.id_seq().contains(x));
                }
            }
            assert forall|x: u64| #[trigger] self@.dom().contains(x) implies self@[x] == target[x] by {
                self.lemma_index_of(x);
                let j = self.index_of_id(x);
                let t: int = origin[j];
                assert(ids[t] == x);
                old(self).lemma_entry_at(t);
                assert(self.info_seq()[j] == new_states@[j]@);
            }
            assert(self@ =~= target);
        }
        removed
    }
}

/// A query started at `q.started_at` is stale at `now` when more than
/// `timeout` ms have passed.
pub open spec fn is_stale(q: QueryInfo, timeout: u64, now: u64) -> bool {
    now >= q.started_at && now - q.started_at > timeout
}

impl View for QueryTable {
    type V = Map<u64, QueryInfo>;

    closed spec fn view(&self) -> Map<u64, QueryInfo> {
        Map::new(
            |id: u64| self.id_seq().contains(id),
            |id: u64| self.info_seq()[self.index_of_id(id)],
        )
    }
}

} // verus!
