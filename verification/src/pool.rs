//! A connection pool: the mapping from peer address to live connection for
//! one population (clients or nodes). Addresses and connection tokens are
//! plain integers; the caller owning the real sockets keeps its own table
//! from token to socket. The two pools of the relay are independent values
//! of this type, so membership is keyed per pool.

use vstd::prelude::*;

verus! {

/// The pool is empty, so there is no member whose readiness could be waited
/// for.
#[derive(Debug)]
pub struct NoConnectionsError;

/// The abstract content of an entry list: later entries override earlier
/// ones, though a well-formed pool never holds a key twice.
pub closed spec fn map_of(s: Seq<(u64, u64)>) -> Map<u64, u64>
    decreases s.len(),
{
    if s.len() == 0 {
        Map::empty()
    } else {
        map_of(s.drop_last()).insert(s.last().0, s.last().1)
    }
}

/// Whether some entry of `s` carries the key `k`.
pub open spec fn has_key(s: Seq<(u64, u64)>, k: u64) -> bool {
    exists|i: int| 0 <= i < s.len() && s[i].0 == k
}

/// Whether no key appears twice in `s`.
pub open spec fn distinct_keys(s: Seq<(u64, u64)>) -> bool {
    forall|p: int, q: int| 0 <= p < q < s.len() ==> s[p].0 != s[q].0
}

proof fn lemma_map_of_key(s: Seq<(u64, u64)>, k: u64)
    ensures
        map_of(s).contains_key(k) <==> has_key(s, k),
    decreases s.len(),
{
    if s.len() > 0 {
        lemma_map_of_key(s.drop_last(), k);
        if s.last().0 == k {
            assert(s[s.len() - 1].0 == k);
        } else {
            if has_key(s.drop_last(), k) {
                let i = choose|i: int| 0 <= i < s.drop_last().len() && s.drop_last()[i].0 == k;
                assert(s[i].0 == k);
            }
            if has_key(s, k) {
                let i = choose|i: int| 0 <= i < s.len() && s[i].0 == k;
                assert(s.drop_last()[i].0 == k);
            }
        }
    }
}

proof fn lemma_map_of_value(s: Seq<(u64, u64)>, i: int)
    requires
        distinct_keys(s),
        0 <= i < s.len(),
    ensures
        map_of(s).contains_key(s[i].0),
        map_of(s)[s[i].0] == s[i].1,
    decreases s.len(),
{
    if i == s.len() - 1 {
    } else {
        assert(s.drop_last()[i] == s[i]);
        lemma_map_of_value(s.drop_last(), i);
        assert(s[i].0 != s.last().0);
    }
}

proof fn lemma_map_of_push(s: Seq<(u64, u64)>, k: u64, v: u64)
    ensures
        map_of(s.push((k, v))) == map_of(s).insert(k, v),
{
    assert(s.push((k, v)).drop_last() =~= s);
    assert(s.push((k, v)).last() == (k, v));
}

proof fn lemma_map_of_update(s: Seq<(u64, u64)>, i: int, v: u64)
    requires
        distinct_keys(s),
        0 <= i < s.len(),
    ensures
        map_of(s.update(i, (s[i].0, v))) =~= map_of(s).insert(s[i].0, v),
    decreases s.len(),
{
    let k = s[i].0;
    let t = s.update(i, (k, v));
    if i == s.len() - 1 {
        assert(t.drop_last() =~= s.drop_last());
        assert(t.last() == (k, v));
    } else {
        assert(t.drop_last() =~= s.drop_last().update(i, (k, v)));
        assert(s.drop_last()[i] == s[i]);
        lemma_map_of_update(s.drop_last(), i, v);
        assert(t.last() == s.last());
        assert(k != s.last().0);
        assert(map_of(s.drop_last()).insert(k, v).insert(s.last().0, s.last().1) =~= map_of(
            s.drop_last(),
        ).insert(s.last().0, s.last().1).insert(k, v));
    }
}

proof fn lemma_map_of_remove(s: Seq<(u64, u64)>, i: int)
    requires
        distinct_keys(s),
        0 <= i < s.len(),
    ensures
        map_of(s.remove(i)) =~= map_of(s).remove(s[i].0),
    decreases s.len(),
{
    let k = s[i].0;
    if i == s.len() - 1 {
        assert(s.remove(i) =~= s.drop_last());
        lemma_map_of_key(s.drop_last(), k);
        assert(!has_key(s.drop_last(), k)) by {
            if has_key(s.drop_last(), k) {
                let j = choose|j: int| 0 <= j < s.drop_last().len() && s.drop_last()[j].0 == k;
                assert(s[j].0 == s[i].0);
            }
        }
        assert(map_of(s.drop_last()).insert(k, s[i].1).remove(k) =~= map_of(s.drop_last()));
    } else {
        assert(s.remove(i).drop_last() =~= s.drop_last().remove(i));
        assert(s.remove(i).last() == s.last());
        assert(s.drop_last()[i] == s[i]);
        lemma_map_of_remove(s.drop_last(), i);
        assert(k != s.last().0);
        assert(map_of(s.drop_last()).remove(k).insert(s.last().0, s.last().1) =~= map_of(
            s.drop_last(),
        ).insert(s.last().0, s.last().1).remove(k));
    }
}

proof fn lemma_map_of_len(s: Seq<(u64, u64)>)
    requires
        distinct_keys(s),
    ensures
        map_of(s).dom().finite(),
        map_of(s).dom().len() == s.len(),
    decreases s.len(),
{
    if s.len() > 0 {
        lemma_map_of_len(s.drop_last());
        lemma_map_of_key(s.drop_last(), s.last().0);
        assert(!has_key(s.drop_last(), s.last().0)) by {
            if has_key(s.drop_last(), s.last().0) {
                let j = choose|j: int|
                    0 <= j < s.drop_last().len() && s.drop_last()[j].0 == s.last().0;
                assert(s[j].0 == s[s.len() - 1].0);
            }
        }
    }
}

/// Dropping an address that is absent from a pool is a no-op: the pool's
/// content is unchanged.
pub proof fn lemma_remove_absent_is_noop(m: Map<u64, u64>, a: u64)
    requires
        !m.contains_key(a),
    ensures
        m.remove(a) == m,
{
    assert(m.remove(a) =~= m);
}

/// Dropping one address never affects an unrelated address: every other
/// key keeps its binding.
pub proof fn lemma_remove_leaves_others(m: Map<u64, u64>, a: u64, b: u64)
    requires
        a != b,
    ensures
        m.remove(a).contains_key(b) <==> m.contains_key(b),
        m.contains_key(b) ==> m.remove(a)[b] == m[b],
{
}

/// The set of live connections of one population, keyed by peer address.
/// The value bound to an address is the caller's token for the socket.
pub struct Pool {
    entries: Vec<(u64, u64)>,
}

impl View for Pool {
    type V = Map<u64, u64>;

    closed spec fn view(&self) -> Map<u64, u64> {
        map_of(self.entries@)
    }
}

impl Pool {
    /// The pool's internal invariant: no address is keyed twice.
    pub closed spec fn wf(&self) -> bool {
        distinct_keys(self.entries@)
    }

    /// An empty pool.
    pub fn new() -> (r: Self)
        ensures
            r.wf(),
            r@ == Map::<u64, u64>::empty(),
    {
        Pool { entries: Vec::new() }
    }

    /// The position of the entry keyed by `addr`, if present.
    fn find_key(&self, addr: u64) -> (r: Option<usize>)
        ensures
            match r {
                Some(i) => i < self.entries@.len() && self.entries@[i as int].0 == addr,
                None => !has_key(self.entries@, addr),
            },
    {
        let n = self.entries.len();
        let mut j: usize = 0;
        while j < n
            invariant
                j <= n,
                n == self.entries@.len(),
                forall|k: int| 0 <= k < j ==> self.entries@[k].0 != addr,
            decreases n - j,
        {
            if self.entries[j].0 == addr {
                return Some(j);
            }
            j = j + 1;
        }
        None
    }

    /// Whether `addr` is a member of the pool.
    pub fn contains(&self, addr: u64) -> (r: bool)
        ensures
            r <==> self@.contains_key(addr),
    {
        proof {
            lemma_map_of_key(self.entries@, addr);
        }
        match self.find_key(addr) {
            Some(_) => true,
            None => false,
        }
    }

    /// The connection token bound to `addr`, if any.
    pub fn get(&self, addr: u64) -> (r: Option<u64>)
        requires
            self.wf(),
        ensures
            match r {
                Some(c) => self@.contains_key(addr) && self@[addr] == c,
                None => !self@.contains_key(addr),
            },
    {
        proof {
            lemma_map_of_key(self.entries@, addr);
        }
        match self.find_key(addr) {
            Some(i) => {
                proof {
                    lemma_map_of_value(self.entries@, i as int);
                }
                Some(self.entries[i].1)
            },
            None => None,
        }
    }

    /// Bind `addr` to a connection token, returning the token it replaces
    /// when the address was already a member.
    pub fn insert(&mut self, addr: u64, conn: u64) -> (prior: Option<u64>)
        requires
            old(self).wf(),
        ensures
            final(self).wf(),
            final(self)@ == old(self)@.insert(addr, conn),
            match prior {
                Some(c) => old(self)@.contains_key(addr) && old(self)@[addr] == c,
                None => !old(self)@.contains_key(addr),
            },
    {
        proof {
            lemma_map_of_key(self.entries@, addr);
        }
        match self.find_key(addr) {
            Some(i) => {
                let prior = self.entries[i].1;
                proof {
                    lemma_map_of_value(self.entries@, i as int);
                    lemma_map_of_update(self.entries@, i as int, conn);
                }
                let ghost pre = self.entries@;
                self.entries.set(i, (addr, conn));
                proof {
                    assert(self.entries@ =~= pre.update(i as int, (addr, conn)));
                    assert forall|p: int, q: int|
                        0 <= p < q < self.entries@.len() implies self.entries@[p].0
                        != self.entries@[q].0 by {
                        assert(pre[p].0 != pre[q].0);
                        assert(pre[q].0 == addr ==> q == i);
                        assert(pre[p].0 == addr ==> p == i);
                    }
                }
                Some(prior)
            },
            None => {
                proof {
                    lemma_map_of_push(self.entries@, addr, conn);
                }
                let ghost pre = self.entries@;
                self.entries.push((addr, conn));
                proof {
                    assert forall|p: int, q: int|
                        0 <= p < q < self.entries@.len() implies self.entries@[p].0
                        != self.entries@[q].0 by {
                        if q < self.entries@.len() - 1 {
                            assert(pre[p].0 != pre[q].0);
                        } else {
                            assert(self.entries@[p] == pre[p]);
                        }
                    }
                }
                None
            },
        }
    }

    /// Unbind `addr`, returning the token it was bound to. Removing an
    /// absent address leaves the pool unchanged and is not an error.
    pub fn remove(&mut self, addr: u64) -> (removed: Option<u64>)
        requires
            old(self).wf(),
        ensures
            final(self).wf(),
            final(self)@ == old(self)@.remove(addr),
            match removed {
                Some(c) => old(self)@.contains_key(addr) && old(self)@[addr] == c,
                None => !old(self)@.contains_key(addr) && final(self)@ == old(self)@,
            },
    {
        proof {
            lemma_map_of_key(self.entries@, addr);
        }
        match self.find_key(addr) {
            Some(i) => {
                proof {
                    lemma_map_of_value(self.entries@, i as int);
                    lemma_map_of_remove(self.entries@, i as int);
                }
                let ghost pre = self.entries@;
                let entry = self.entries.remove(i);
                proof {
                    pre.remove_ensures(i as int);
                    assert forall|p: int, q: int|
                        0 <= p < q < self.entries@.len() implies self.entries@[p].0
                        != self.entries@[q].0 by {
                        let p0: int = if p < i { p } else { p + 1 };
                        let q0: int = if q < i { q } else { q + 1 };
                        assert(self.entries@[p] == pre[p0]);
                        assert(self.entries@[q] == pre[q0]);
                        assert(pre[p0].0 != pre[q0].0);
                    }
                }
                Some(entry.1)
            },
            None => {
                proof {
                    lemma_remove_absent_is_noop(self@, addr);
                }
                None
            },
        }
    }

    /// How many connections the pool holds.
    pub fn len(&self) -> (r: usize)
        requires
            self.wf(),
        ensures
            r == self@.dom().len(),
    {
        proof {
            lemma_map_of_len(self.entries@);
        }
        self.entries.len()
    }

    /// Whether the pool holds no connection at all; an empty pool has no
    /// member whose readiness could be raced.
    pub fn is_empty(&self) -> (r: bool)
        requires
            self.wf(),
        ensures
            r <==> self@ == Map::<u64, u64>::empty(),
    {
        let n = self.entries.len();
        if n == 0 {
            proof {
                assert(self@ =~= Map::<u64, u64>::empty());
            }
            true
        } else {
            proof {
                lemma_map_of_value(self.entries@, 0);
                assert(self@.contains_key(self.entries@[0].0));
            }
            false
        }
    }

    /// The decision half of "suspend until any member becomes readable":
    /// an empty pool fails at once, so its race arm is excluded for the
    /// iteration; otherwise the caller races readiness over exactly the
    /// members returned, rebuilt from current membership on every call.
    pub fn readable_candidates(&self) -> (r: Result<Vec<(u64, u64)>, NoConnectionsError>)
        requires
            self.wf(),
        ensures
            match r {
                Ok(v) => {
                    &&& self@ != Map::<u64, u64>::empty()
                    &&& v@.len() == self@.dom().len()
                    &&& forall|i: int|
                        0 <= i < v@.len() ==> #[trigger] self@.contains_key(v@[i].0)
                            && self@[v@[i].0] == v@[i].1
                    &&& forall|k: u64| self@.contains_key(k) ==> exists|i: int|
                        0 <= i < v@.len() && v@[i].0 == k
                },
                Err(_) => self@ == Map::<u64, u64>::empty(),
            },
    {
        if self.is_empty() {
            Err(NoConnectionsError)
        } else {
            Ok(self.members())
        }
    }

    /// Every member of the pool, as address and connection token pairs; each
    /// address appears exactly once.
    pub fn members(&self) -> (r: Vec<(u64, u64)>)
        requires
            self.wf(),
        ensures
            r@.len() == self@.dom().len(),
            forall|i: int|
                0 <= i < r@.len() ==> #[trigger] self@.contains_key(r@[i].0) && self@[r@[i].0]
                    == r@[i].1,
            forall|k: u64| self@.contains_key(k) ==> exists|i: int|
                0 <= i < r@.len() && r@[i].0 == k,
            distinct_keys(r@),
    {
        let n = self.entries.len();
        let mut r: Vec<(u64, u64)> = Vec::new();
        let mut j: usize = 0;
        while j < n
            invariant
                j <= n,
                n == self.entries@.len(),
                r@ == self.entries@.subrange(0, j as int),
            decreases n - j,
        {
            r.push(self.entries[j]);
            proof {
                assert(r@ =~= self.entries@.subrange(0, j + 1));
            }
            j = j + 1;
        }
        proof {
            assert(r@ =~= self.entries@);
            lemma_map_of_len(self.entries@);
            assert forall|i: int| 0 <= i < r@.len() implies #[trigger] self@.contains_key(r@[i].0)
                && self@[r@[i].0] == r@[i].1 by {
                lemma_map_of_value(self.entries@, i);
            }
            assert forall|k: u64| self@.contains_key(k) implies exists|i: int|
                0 <= i < r@.len() && r@[i].0 == k by {
                lemma_map_of_key(self.entries@, k);
            }
        }
        r
    }
}

} // verus!
