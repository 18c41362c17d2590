//! A map from device identifiers to values, backed by a vector of entries
//! with pairwise distinct keys. It stands in for the hash maps that carry
//! per-neighbour data: exports in a context, messages in a mailbox, states
//! handed to a round.

use vstd::prelude::*;

verus! {

/// The map of a sequence of keyed entries: later entries overwrite earlier
/// ones.
pub open spec fn id_entries_map<V>(s: Seq<(i32, V)>) -> Map<int, V>
    decreases s.len(),
{
    if s.len() == 0 {
        Map::empty()
    } else {
        id_entries_map(s.drop_last()).insert(s.last().0 as int, s.last().1)
    }
}

/// Entry sequences without two entries under one key.
pub open spec fn distinct_ids<V>(s: Seq<(i32, V)>) -> bool {
    forall|i: int, j: int| 0 <= i < j < s.len() ==> s[i].0 != s[j].0
}

pub(crate) proof fn lemma_id_entries_map<V>(s: Seq<(i32, V)>)
    ensures
        forall|k: int|
            #[trigger] id_entries_map(s).contains_key(k) <==> exists|i: int|
                0 <= i < s.len() && s[i].0 == k,
    decreases s.len(),
{
    if s.len() > 0 {
        lemma_id_entries_map(s.drop_last());
        assert forall|k: int| #[trigger]
            id_entries_map(s).contains_key(k) implies exists|i: int|
            0 <= i < s.len() && s[i].0 == k by {
            if s.last().0 == k {
                assert(s[s.len() - 1].0 == k);
            } else {
                assert(id_entries_map(s.drop_last()).contains_key(k));
                let i = choose|i: int| 0 <= i < s.drop_last().len() && s.drop_last()[i].0 == k;
                assert(s.drop_last()[i] == s[i]);
                assert(s[i].0 == k);
            }
        }
        assert forall|k: int|
            (exists|i: int| 0 <= i < s.len() && s[i].0 == k) implies #[trigger] id_entries_map(
            s,
        ).contains_key(k) by {
            let i = choose|i: int| 0 <= i < s.len() && s[i].0 == k;
            if i < s.len() - 1 {
                assert(s.drop_last()[i] == s[i]);
                assert(exists|j: int| 0 <= j < s.drop_last().len() && s.drop_last()[j].0 == k) by {
                    assert(s.drop_last()[i].0 == k);
                }
                assert(id_entries_map(s.drop_last()).contains_key(k));
            } else {
                assert(s.last().0 == k);
            }
        }
    }
}

pub(crate) proof fn lemma_id_entries_map_at<V>(s: Seq<(i32, V)>, i: int)
    requires
        distinct_ids(s),
        0 <= i < s.len(),
    ensures
        id_entries_map(s).contains_key(s[i].0 as int),
        id_entries_map(s)[s[i].0 as int] == s[i].1,
    decreases s.len(),
{
    lemma_id_entries_map(s);
    if i == s.len() - 1 {
    } else {
        assert(distinct_ids(s.drop_last())) by {
            assert(forall|x: int, y: int|
                0 <= x < y < s.len() - 1 ==> s.drop_last()[x] == s[x] && s.drop_last()[y] == s[y]);
        }
        lemma_id_entries_map_at(s.drop_last(), i);
        assert(s.drop_last()[i] == s[i]);
        assert(s[i].0 != s.last().0);
    }
}

pub(crate) proof fn lemma_id_entries_map_len<V>(s: Seq<(i32, V)>)
    requires
        distinct_ids(s),
    ensures
        id_entries_map(s).dom().finite(),
        id_entries_map(s).dom().len() == s.len(),
    decreases s.len(),
{
    if s.len() > 0 {
        assert(distinct_ids(s.drop_last())) by {
            assert(forall|x: int, y: int|
                0 <= x < y < s.len() - 1 ==> s.drop_last()[x] == s[x] && s.drop_last()[y] == s[y]);
        }
        lemma_id_entries_map_len(s.drop_last());
        lemma_id_entries_map(s.drop_last());
        assert(!id_entries_map(s.drop_last()).contains_key(s.last().0 as int)) by {
            if id_entries_map(s.drop_last()).contains_key(s.last().0 as int) {
                let i = choose|i: int|
                    0 <= i < s.len() - 1 && s.drop_last()[i].0 == s.last().0;
                assert(s[i].0 == s[s.len() - 1].0);
            }
        }
    }
}

/// Removing one entry keeps the keys distinct and leaves the map unchanged
/// under every other key.
pub(crate) proof fn lemma_id_remove_others<V>(s: Seq<(i32, V)>, i: int)
    requires
        distinct_ids(s),
        0 <= i < s.len(),
    ensures
        distinct_ids(s.remove(i)),
        forall|k: int|
            k != s[i].0 as int ==> (#[trigger] id_entries_map(s.remove(i)).contains_key(k)
                <==> id_entries_map(s).contains_key(k)),
        forall|k: int|
            k != s[i].0 as int && #[trigger] id_entries_map(s).contains_key(k) ==> id_entries_map(
                s.remove(i),
            )[k] == id_entries_map(s)[k],
{
    let m = s.remove(i);
    assert forall|x: int, y: int| 0 <= x < y < m.len() implies m[x].0 != m[y].0 by {
        assert(m[x] == if x < i { s[x] } else { s[x + 1] });
        assert(m[y] == if y < i { s[y] } else { s[y + 1] });
    }
    lemma_id_entries_map(s);
    lemma_id_entries_map(m);
    assert forall|k: int|
        k != s[i].0 as int implies (#[trigger] id_entries_map(m).contains_key(k)
        <==> id_entries_map(s).contains_key(k)) by {
        if id_entries_map(m).contains_key(k) {
            let j = choose|j: int| 0 <= j < m.len() && m[j].0 == k;
            assert(m[j] == if j < i { s[j] } else { s[j + 1] });
        }
        if id_entries_map(s).contains_key(k) {
            let j = choose|j: int| 0 <= j < s.len() && s[j].0 == k;
            assert(j != i);
            if j < i {
                assert(m[j] == s[j]);
            } else {
                assert(m[j - 1] == s[j]);
            }
        }
    }
    assert forall|k: int|
        k != s[i].0 as int && #[trigger] id_entries_map(s).contains_key(k) implies id_entries_map(
        m,
    )[k] == id_entries_map(s)[k] by {
        let j = choose|j: int| 0 <= j < s.len() && s[j].0 == k;
        lemma_id_entries_map_at(s, j);
        if j < i {
            assert(m[j] == s[j]);
            lemma_id_entries_map_at(m, j);
        } else {
            assert(m[j - 1] == s[j]);
            lemma_id_entries_map_at(m, j - 1);
        }
    }
}

/// A map from device ids to values. The view is the mapping itself.
#[derive(Debug)]
pub struct IdMap<V> {
    entries: Vec<(i32, V)>,
}

impl<V> View for IdMap<V> {
    type V = Map<int, V>;

    closed spec fn view(&self) -> Map<int, V> {
        id_entries_map(self.entries@)
    }
}

impl<V> IdMap<V> {
    #[verifier::type_invariant]
    closed spec fn wf(self) -> bool {
        distinct_ids(self.entries@)
    }

    /// The keys of the map, in held order.
    pub closed spec fn key_seq(&self) -> Seq<i32> {
        Seq::new(self.entries@.len(), |i: int| self.entries@[i].0)
    }

    /// A new, empty map.
    pub fn new() -> (r: Self)
        ensures
            r@ == Map::<int, V>::empty(),
            r.key_seq() == Seq::<i32>::empty(),
    {
        let r = IdMap { entries: Vec::new() };
        proof {
            assert(r.key_seq() =~= Seq::<i32>::empty());
        }
        r
    }

    /// The position of `id` among the entries, if present.
    fn position(&self, id: i32) -> (r: Option<usize>)
        ensures
            match r {
                Some(i) => i < self.entries@.len() && self.entries@[i as int].0 == id,
                None => forall|i: int| 0 <= i < self.entries@.len() ==> self.entries@[i].0 != id,
            },
    {
        let n = self.entries.len();
        let mut i: usize = 0;
        while i < n
            invariant
                0 <= i <= n,
                n == self.entries@.len(),
                forall|j: int| 0 <= j < i ==> self.entries@[j].0 != id,
            decreases n - i,
        {
            if self.entries[i].0 == id {
                return Some(i);
            }
            i += 1;
        }
        None
    }

    /// Bind `id` to `v`, overwriting any previous binding.
    pub fn insert(&mut self, id: i32, v: V)
        ensures
            final(self)@ == old(self)@.insert(id as int, v),
    {
        proof {
            use_type_invariant(&*self);
        }
        let ghost before = self.entries@;
        let pos = self.position(id);
        let mut es: Vec<(i32, V)> = Vec::new();
        core::mem::swap(&mut es, &mut self.entries);
        match pos {
            Some(i) => {
                let _ = es.remove(i);
                proof {
                    lemma_id_remove_others(before, i as int);
                }
                es.push((id, v));
                core::mem::swap(&mut es, &mut self.entries);
                proof {
                    let mid = before.remove(i as int);
                    let after = self.entries@;
                    assert(after.drop_last() =~= mid);
                    assert(distinct_ids(after)) by {
                        assert forall|x: int| 0 <= x < mid.len() implies mid[x].0 != id by {
                            if x < i {
                                assert(mid[x] == before[x]);
                            } else {
                                assert(mid[x] == before[x + 1]);
                            }
                            assert(before[i as int].0 == id);
                        }
                        assert(forall|x: int, y: int|
                            0 <= x < y < after.len() - 1 ==> after[x] == mid[x] && after[y]
                                == mid[y]);
                    }
                    assert(id_entries_map(after) =~= id_entries_map(before).insert(id as int, v))
                        by {
                        lemma_id_entries_map(mid);
                        lemma_id_entries_map(before);
                        assert(id_entries_map(after) == id_entries_map(mid).insert(id as int, v));
                        assert forall|k: int|
                            id_entries_map(mid).insert(id as int, v).contains_key(k)
                                <==> id_entries_map(before).insert(id as int, v).contains_key(
                                k,
                            ) by {
                            if k != id as int {
                                lemma_id_remove_others(before, i as int);
                            }
                        }
                        assert forall|k: int|
                            k != id as int && id_entries_map(before).insert(
                                id as int,
                                v,
                            ).contains_key(k) implies id_entries_map(mid).insert(id as int, v)[k]
                            == id_entries_map(before).insert(id as int, v)[k] by {
                            lemma_id_remove_others(before, i as int);
                        }
                    }
                }
            },
            None => {
                es.push((id, v));
                core::mem::swap(&mut es, &mut self.entries);
                proof {
                    let after = self.entries@;
                    assert(after.drop_last() =~= before);
                    assert(distinct_ids(after)) by {
                        assert(forall|x: int| 0 <= x < before.len() ==> after[x] == before[x]);
                    }
                    assert(id_entries_map(after) =~= id_entries_map(before).insert(id as int, v));
                }
            },
        }
    }

    /// The value bound to `id`, if any.
    pub fn get(&self, id: i32) -> (r: Option<&V>)
        ensures
            match r {
                Some(v) => self@.contains_key(id as int) && *v == self@[id as int],
                None => !self@.contains_key(id as int),
            },
    {
        proof {
            use_type_invariant(&*self);
            lemma_id_entries_map(self.entries@);
        }
        match self.position(id) {
            Some(i) => {
                proof {
                    lemma_id_entries_map_at(self.entries@, i as int);
                }
                Some(&self.entries[i].1)
            },
            None => None,
        }
    }

    /// Whether `id` is bound.
    pub fn contains(&self, id: i32) -> (r: bool)
        ensures
            r == self@.contains_key(id as int),
    {
        self.get(id).is_some()
    }

    /// How many ids are bound.
    pub fn len(&self) -> (r: usize)
        ensures
            r == self@.dom().len(),
    {
        proof {
            use_type_invariant(&*self);
            lemma_id_entries_map_len(self.entries@);
        }
        self.entries.len()
    }

    /// The bound ids, in held order.
    pub fn keys(&self) -> (r: Vec<i32>)
        ensures
            r@.len() == self@.dom().len(),
            r@ == self.key_seq(),
            forall|i: int| 0 <= i < r@.len() ==> self@.contains_key(#[trigger] r@[i] as int),
            forall|k: int| self@.contains_key(k) ==> exists|i: int|
                0 <= i < r@.len() && #[trigger] r@[i] as int == k,
            forall|i: int, j: int| 0 <= i < j < r@.len() ==> r@[i] != r@[j],
    {
        proof {
            use_type_invariant(&*self);
            lemma_id_entries_map(self.entries@);
            lemma_id_entries_map_len(self.entries@);
        }
        let n = self.entries.len();
        let mut r: Vec<i32> = Vec::new();
        let mut i: usize = 0;
        while i < n
            invariant
                0 <= i <= n,
                n == self.entries@.len(),
                r@.len() == i,
                forall|j: int| 0 <= j < i ==> #[trigger] r@[j] == self.entries@[j].0,
            decreases n - i,
        {
            r.push(self.entries[i].0);
            i += 1;
        }
        proof {
            assert(r@ =~= self.key_seq());
            assert forall|k: int| self@.contains_key(k) implies exists|j: int|
                0 <= j < r@.len() && #[trigger] r@[j] as int == k by {
                let j = choose|j: int| 0 <= j < self.entries@.len() && self.entries@[j].0 == k;
                assert(r@[j] as int == k);
            }
            assert forall|j: int| 0 <= j < r@.len() implies self@.contains_key(
                #[trigger] r@[j] as int,
            ) by {
                assert(self.entries@[j].0 == r@[j]);
            }
        }
        r
    }
}

impl<V: Clone> Clone for IdMap<V> {
    /// A clone binds the same ids, each to a clone of its value.
    fn clone(&self) -> (res: Self)
        ensures
            res@.dom() == self@.dom(),
            res.key_seq() == self.key_seq(),
            forall|k: int|
                self@.contains_key(k) ==> vstd::pervasive::cloned::<V>(
                    self@[k],
                    #[trigger] res@[k],
                ),
    {
        proof {
            use_type_invariant(&*self);
        }
        let n = self.entries.len();
        let mut entries: Vec<(i32, V)> = Vec::new();
        let mut i: usize = 0;
        while i < n
            invariant
                0 <= i <= n,
                n == self.entries@.len(),
                entries@.len() == i,
                forall|j: int|
                    0 <= j < i ==> #[trigger] entries@[j].0 == self.entries@[j].0
                        && vstd::pervasive::cloned::<V>(self.entries@[j].1, entries@[j].1),
            decreases n - i,
        {
            let id = self.entries[i].0;
            let v = self.entries[i].1.clone();
            entries.push((id, v));
            i += 1;
        }
        proof {
            assert(distinct_ids(entries@));
        }
        let res = IdMap { entries };
        proof {
            lemma_id_entries_map(res.entries@);
            lemma_id_entries_map(self.entries@);
            assert(res.key_seq() =~= self.key_seq());
            assert forall|k: int| res@.contains_key(k) implies self@.contains_key(k) by {
                let j = choose|j: int| 0 <= j < res.entries@.len() && res.entries@[j].0 == k;
                assert(self.entries@[j].0 == k);
            }
            assert forall|k: int| self@.contains_key(k) implies res@.contains_key(k) by {
                let j = choose|j: int| 0 <= j < self.entries@.len() && self.entries@[j].0 == k;
                assert(res.entries@[j].0 == k);
            }
            assert(res@.dom() =~= self@.dom());
            assert forall|k: int| self@.contains_key(k) implies vstd::pervasive::cloned::<V>(
                self@[k],
                #[trigger] res@[k],
            ) by {
                let j = choose|j: int| 0 <= j < self.entries@.len() && self.entries@[j].0 == k;
                lemma_id_entries_map_at(self.entries@, j);
                lemma_id_entries_map_at(res.entries@, j);
            }
        }
        res
    }
}

} // verus!
