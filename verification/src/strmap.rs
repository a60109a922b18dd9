//! A string-keyed map backed by a vector of entries with unique keys,
//! modelled as a `Map<Seq<char>, V>`.

use vstd::prelude::*;
use crate::text::str_eq;

verus! {

/// A map from strings to values; later insertions of the same key replace
/// the earlier value.
pub struct StringMap<V> {
    pub entries: Vec<(String, V)>,
}

impl<V> StringMap<V> {
    /// The stored keys, in storage order.
    pub open spec fn keys_seq(&self) -> Seq<Seq<char>> {
        self.entries@.map_values(|e: (String, V)| e.0@)
    }

    /// No key is stored twice.
    pub open spec fn wf(&self) -> bool {
        self.keys_seq().no_duplicates()
    }

    /// The index at which a key is stored.
    pub open spec fn key_index(&self, k: Seq<char>) -> int {
        choose|i: int| 0 <= i < self.entries@.len() && self.entries@[i].0@ == k
    }

    /// The map this value represents.
    pub open spec fn as_map(&self) -> Map<Seq<char>, V> {
        Map::new(
            |k: Seq<char>| self.keys_seq().contains(k),
            |k: Seq<char>| self.entries@[self.key_index(k)].1,
        )
    }

    /// With unique keys, the entry at each index is the map's value for its
    /// key.
    pub proof fn lemma_entry_is_value(&self, i: int)
        requires
            self.wf(),
            0 <= i < self.entries@.len(),
        ensures
            self.as_map().dom().contains(self.entries@[i].0@),
            self.as_map()[self.entries@[i].0@] == self.entries@[i].1,
    {
        broadcast use vstd::set::group_set_axioms;

        let k = self.entries@[i].0@;
        assert(self.keys_seq()[i] == k);
        assert(self.keys_seq().contains(k));
        let j = self.key_index(k);
        assert(self.entries@[j].0@ == k) by {
            assert(0 <= i < self.entries@.len() && self.entries@[i].0@ == k);
        }
        assert(self.keys_seq()[j] == k);
        if i != j {
            assert(false);
        }
        assert(self.as_map()[k] == self.entries@[j].1);
    }

    /// The value at a present key is one of the stored entries.
    pub proof fn lemma_value_at_key(&self, k: Seq<char>)
        requires
            self.wf(),
            self.as_map().dom().contains(k),
        ensures
            exists|i: int|
                0 <= i < self.entries@.len() && (#[trigger] self.entries@[i]).0@ == k
                    && self.entries@[i].1 == self.as_map()[k],
    {
        assert(self.keys_seq().contains(k));
        let j = choose|j: int| 0 <= j < self.keys_seq().len() && self.keys_seq()[j] == k;
        assert(self.entries@[j].0@ == k);
        self.lemma_entry_is_value(j);
    }

    /// An empty map.
    pub fn new() -> (m: Self)
        ensures
            m.wf(),
            m.as_map() =~= Map::<Seq<char>, V>::empty(),
            m.entries@.len() == 0,
    {
        let m = StringMap { entries: Vec::new() };
        proof {
            assert(m.keys_seq() =~= Seq::<Seq<char>>::empty());
            assert forall|k: Seq<char>| !m.as_map().dom().contains(k) by {
                assert(!m.keys_seq().contains(k));
            }
        }
        m
    }

    /// How many entries are stored.
    pub fn len(&self) -> (n: usize)
        ensures
            n == self.entries@.len(),
    {
        self.entries.len()
    }

    /// The index of `key`, when present.
    fn index_of(&self, key: &str) -> (r: Option<usize>)
        ensures
            r is Some ==> 0 <= r->0 < self.entries@.len() && self.entries@[r->0 as int].0@
                == key@,
            r is None ==> !self.keys_seq().contains(key@),
    {
        let n = self.entries.len();
        let mut i: usize = 0;
        loop
            invariant
                0 <= i <= n,
                n == self.entries@.len(),
                forall|m: int| 0 <= m < i ==> self.entries@[m].0@ != key@,
            ensures
                i <= n,
                forall|m: int| 0 <= m < i ==> self.entries@[m].0@ != key@,
                i < n ==> self.entries@[i as int].0@ == key@,
            decreases n - i,
        {
            if i >= n {
                break;
            }
            if str_eq(self.entries[i].0.as_str(), key) {
                break;
            }
            i = i + 1;
        }
        if i < n {
            Some(i)
        } else {
            proof {
                if self.keys_seq().contains(key@) {
                    let j = choose|j: int|
                        0 <= j < self.keys_seq().len() && self.keys_seq()[j] == key@;
                    assert(self.entries@[j].0@ == key@);
                }
            }
            None
        }
    }

    /// Whether `key` is present.
    pub fn contains_key(&self, key: &str) -> (r: bool)
        requires
            self.wf(),
        ensures
            r == self.as_map().dom().contains(key@),
    {
        let r = self.index_of(key);
        proof {
            if r is Some {
                assert(self.keys_seq()[r->0 as int] == key@);
                assert(self.keys_seq().contains(key@));
            }
        }
        match r {
            Some(_) => true,
            None => false,
        }
    }

    /// The value stored for `key`, if any.
    pub fn get(&self, key: &str) -> (r: Option<&V>)
        requires
            self.wf(),
        ensures
            r is Some <==> self.as_map().dom().contains(key@),
            r is Some ==> *r->0 == self.as_map()[key@],
    {
        match self.index_of(key) {
            Some(i) => {
                proof {
                    self.lemma_entry_is_value(i as int);
                }
                Some(&self.entries[i].1)
            },
            None => {
                proof {
                    if self.as_map().dom().contains(key@) {
                        assert(self.keys_seq().contains(key@));
                    }
                }
                None
            },
        }
    }

    /// Stores `value` under `key`, returning the value it replaced.
    pub fn insert(&mut self, key: String, value: V) -> (displaced: Option<V>)
        requires
            old(self).wf(),
        ensures
            final(self).wf(),
            final(self).as_map() =~= old(self).as_map().insert(key@, value),
            displaced is Some <==> old(self).as_map().dom().contains(key@),
            displaced is Some ==> displaced->0 == old(self).as_map()[key@],
    {
        let ghost pre = self.entries@;
        let found = self.index_of(key.as_str());
        let displaced = match found {
            Some(i) => {
                proof {
                    self.lemma_entry_is_value(i as int);
                }
                let (_, v) = self.entries.remove(i);
                proof {
                    assert(self.entries@ =~= pre.remove(i as int));
                }
                Some(v)
            },
            None => {
                proof {
                    if old(self).as_map().dom().contains(key@) {
                        assert(old(self).keys_seq().contains(key@));
                    }
                }
                None
            },
        };
        let ghost mid = self.entries@;
        let ghost removed_at: int = if found is Some {
            found->0 as int
        } else {
            pre.len() as int
        };
        self.entries.push((key, value));
        proof {
            let post = self.entries@;
            let klen = pre.len() as int;
            // relate the middle sequence to the entries before the removal
            assert forall|m: int| 0 <= m < mid.len() implies mid[m] == pre[if m < removed_at {
                m
            } else {
                m + 1
            }] by {}
            // uniqueness of the new key sequence
            assert forall|m: int, l: int|
                0 <= m < l < post.len() implies #[trigger] post[m].0@ != #[trigger] post[l].0@ by {
                if l < post.len() - 1 {
                    let m0 = if m < removed_at {
                        m
                    } else {
                        m + 1
                    };
                    let l0 = if l < removed_at {
                        l
                    } else {
                        l + 1
                    };
                    assert(old(self).keys_seq()[m0] == post[m].0@);
                    assert(old(self).keys_seq()[l0] == post[l].0@);
                } else {
                    let m0 = if m < removed_at {
                        m
                    } else {
                        m + 1
                    };
                    if post[m].0@ == key@ {
                        assert(old(self).keys_seq()[m0] == post[m].0@);
                        assert(old(self).keys_seq().contains(key@));
                        assert(found is Some);
                        assert(m0 != removed_at);
                        assert(old(self).keys_seq()[removed_at] == key@);
                        assert(false);
                    }
                }
            }
            assert(final(self).wf()) by {
                assert forall|m: int, l: int|
                    0 <= m < l < final(self).keys_seq().len() implies final(self).keys_seq()[m]
                    != final(self).keys_seq()[l] by {
                    assert(final(self).keys_seq()[m] == post[m].0@);
                    assert(final(self).keys_seq()[l] == post[l].0@);
                }
            }
            // the maps agree key by key
            assert forall|q: Seq<char>|
                final(self).as_map().dom().contains(q)
                    == old(self).as_map().insert(key@, value).dom().contains(q) by {
                if q == key@ {
                    assert(final(self).keys_seq()[post.len() - 1] == key@);
                    assert(final(self).keys_seq().contains(q));
                } else {
                    if final(self).keys_seq().contains(q) {
                        let j = choose|j: int|
                            0 <= j < final(self).keys_seq().len() && final(self).keys_seq()[j]
                                == q;
                        assert(post[j].0@ == q);
                        assert(j < post.len() - 1);
                        let j0 = if j < removed_at {
                            j
                        } else {
                            j + 1
                        };
                        assert(old(self).keys_seq()[j0] == q);
                        assert(old(self).keys_seq().contains(q));
                    }
                    if old(self).keys_seq().contains(q) {
                        let j = choose|j: int|
                            0 <= j < old(self).keys_seq().len() && old(self).keys_seq()[j] == q;
                        assert(j != removed_at);
                        let j1 = if j < removed_at {
                            j
                        } else {
                            j - 1
                        };
                        assert(post[j1].0@ == q);
                        assert(final(self).keys_seq()[j1] == q);
                        assert(final(self).keys_seq().contains(q));
                    }
                }
            }
            assert forall|q: Seq<char>|
                final(self).as_map().dom().contains(q) implies final(self).as_map()[q] == old(self).as_map().insert(key@, value)[q] by {
                if q == key@ {
                    final(self).lemma_entry_is_value(post.len() - 1);
                } else {
                    let j = choose|j: int|
                        0 <= j < final(self).keys_seq().len() && final(self).keys_seq()[j] == q;
                    assert(post[j].0@ == q);
                    assert(j < post.len() - 1);
                    let j0 = if j < removed_at {
                        j
                    } else {
                        j + 1
                    };
                    assert(pre[j0].0@ == q && pre[j0].1 == post[j].1);
                    final(self).lemma_entry_is_value(j);
                    old(self).lemma_entry_is_value(j0);
                }
            }
            assert(final(self).as_map() =~= old(self).as_map().insert(key@, value));
        }
        displaced
    }

    /// Removes `key`, returning its value when it was present.
    pub fn remove(&mut self, key: &str) -> (removed: Option<V>)
        requires
            old(self).wf(),
        ensures
            final(self).wf(),
            final(self).as_map() =~= old(self).as_map().remove(key@),
            removed is Some <==> old(self).as_map().dom().contains(key@),
            removed is Some ==> removed->0 == old(self).as_map()[key@],
    {
        let ghost pre = self.entries@;
        let found = self.index_of(key);
        match found {
            None => {
                proof {
                    if old(self).as_map().dom().contains(key@) {
                        assert(old(self).keys_seq().contains(key@));
                    }
                    assert(final(self).as_map() =~= old(self).as_map().remove(key@)) by {
                        assert(!old(self).keys_seq().contains(key@));
                    }
                }
                None
            },
            Some(i) => {
                proof {
                    self.lemma_entry_is_value(i as int);
                }
                let (_, v) = self.entries.remove(i);
                proof {
                    let post = self.entries@;
                    let ri = i as int;
                    assert(post =~= pre.remove(ri));
                    assert forall|m: int| 0 <= m < post.len() implies post[m] == pre[if m < ri {
                        m
                    } else {
                        m + 1
                    }] by {}
                    assert(final(self).wf()) by {
                        assert forall|m: int, l: int|
                            0 <= m < l < post.len() implies final(self).keys_seq()[m] != final(self).keys_seq()[l] by {
                            let m0 = if m < ri {
                                m
                            } else {
                                m + 1
                            };
                            let l0 = if l < ri {
                                l
                            } else {
                                l + 1
                            };
                            assert(old(self).keys_seq()[m0] == post[m].0@);
                            assert(old(self).keys_seq()[l0] == post[l].0@);
                        }
                    }
                    assert forall|q: Seq<char>|
                        final(self).as_map().dom().contains(q) == old(self).as_map().remove(
                            key@,
                        ).dom().contains(q) by {
                        if final(self).keys_seq().contains(q) {
                            let j = choose|j: int|
                                0 <= j < final(self).keys_seq().len() && final(self).keys_seq()[j] == q;
                            let j0 = if j < ri {
                                j
                            } else {
                                j + 1
                            };
                            assert(old(self).keys_seq()[j0] == q);
                            assert(old(self).keys_seq().contains(q));
                            assert(q != key@) by {
                                if q == key@ {
                                    assert(old(self).keys_seq()[ri] == key@);
                                    assert(j0 != ri);
                                    assert(false);
                                }
                            }
                        }
                        if old(self).keys_seq().contains(q) && q != key@ {
                            let j = choose|j: int|
                                0 <= j < old(self).keys_seq().len() && old(self).keys_seq()[j]
                                    == q;
                            assert(j != ri);
                            let j1 = if j < ri {
                                j
                            } else {
                                j - 1
                            };
                            assert(post[j1].0@ == q);
                            assert(final(self).keys_seq()[j1] == q);
                            assert(final(self).keys_seq().contains(q));
                        }
                    }
                    assert forall|q: Seq<char>|
                        final(self).as_map().dom().contains(q) implies final(self).as_map()[q]
                        == old(self).as_map().remove(key@)[q] by {
                        let j = choose|j: int|
                            0 <= j < final(self).keys_seq().len() && final(self).keys_seq()[j]
                                == q;
                        let j0 = if j < ri {
                            j
                        } else {
                            j + 1
                        };
                        assert(pre[j0].0@ == q && pre[j0].1 == post[j].1);
                        final(self).lemma_entry_is_value(j);
                        old(self).lemma_entry_is_value(j0);
                    }
                    assert(final(self).as_map() =~= old(self).as_map().remove(key@));
                }
                Some(v)
            },
        }
    }
}

/// The map of views of a string map's values.
pub open spec fn view_map<V: View>(m: StringMap<V>) -> Map<Seq<char>, V::V> {
    m.as_map().map_values(|v: V| v@)
}

/// The view map of the first `i` entries, later entries replacing earlier
/// ones.
pub open spec fn prefix_view_map<V: View>(entries: Seq<(String, V)>, i: int) -> Map<
    Seq<char>,
    V::V,
>
    decreases i,
{
    if i <= 0 {
        Map::empty()
    } else {
        prefix_view_map(entries, i - 1).insert(entries[i - 1].0@, entries[i - 1].1@)
    }
}

/// The prefix view map of all entries is the map's view map.
pub proof fn lemma_prefix_view_map_full<V: View>(m: StringMap<V>)
    requires
        m.wf(),
    ensures
        prefix_view_map(m.entries@, m.entries@.len() as int) =~= view_map(m),
{
    let n = m.entries@.len() as int;
    lemma_prefix_view_map_props(m, n);
    assert forall|k: Seq<char>|
        prefix_view_map(m.entries@, n).dom().contains(k) == view_map(m).dom().contains(k) by {
        if view_map(m).dom().contains(k) {
            assert(m.keys_seq().contains(k));
            let j = choose|j: int| 0 <= j < m.keys_seq().len() && m.keys_seq()[j] == k;
            assert(m.entries@[j].0@ == k);
        }
        if prefix_view_map(m.entries@, n).dom().contains(k) {
            let j = choose|j: int| 0 <= j < n && (#[trigger] m.entries@[j]).0@ == k;
            assert(m.keys_seq()[j] == k);
            assert(m.keys_seq().contains(k));
        }
    }
    assert forall|k: Seq<char>|
        prefix_view_map(m.entries@, n).dom().contains(k) implies prefix_view_map(m.entries@, n)[k]
        == view_map(m)[k] by {
        let j = choose|j: int| 0 <= j < n && m.entries@[j].0@ == k;
        m.lemma_entry_is_value(j);
    }
}

/// Within a duplicate-free entry list, the prefix view map holds exactly
/// the first `i` keys, each at its entry's value.
proof fn lemma_prefix_view_map_props<V: View>(m: StringMap<V>, i: int)
    requires
        m.wf(),
        0 <= i <= m.entries@.len(),
    ensures
        forall|k: Seq<char>|
            prefix_view_map(m.entries@, i).dom().contains(k) <==> (exists|j: int|
                0 <= j < i && (#[trigger] m.entries@[j]).0@ == k),
        forall|j: int|
            0 <= j < i ==> prefix_view_map(m.entries@, i)[(#[trigger] m.entries@[j]).0@]
                == m.entries@[j].1@,
    decreases i,
{
    if i > 0 {
        lemma_prefix_view_map_props(m, i - 1);
        assert forall|j: int|
            0 <= j < i implies prefix_view_map(m.entries@, i)[(#[trigger] m.entries@[j]).0@]
            == m.entries@[j].1@ by {
            if j < i - 1 {
                assert(m.keys_seq()[j] == m.entries@[j].0@);
                assert(m.keys_seq()[i - 1] == m.entries@[i - 1].0@);
                assert(m.entries@[j].0@ != m.entries@[i - 1].0@);
            }
        }
        assert forall|k: Seq<char>|
            prefix_view_map(m.entries@, i).dom().contains(k) <==> (exists|j: int|
                0 <= j < i && (#[trigger] m.entries@[j]).0@ == k) by {
            if prefix_view_map(m.entries@, i).dom().contains(k) {
                if k == m.entries@[i - 1].0@ {
                    assert(0 <= i - 1 < i && m.entries@[i - 1].0@ == k);
                } else {
                    assert(prefix_view_map(m.entries@, i - 1).dom().contains(k));
                }
            }
            if exists|j: int| 0 <= j < i && (#[trigger] m.entries@[j]).0@ == k {
                let j = choose|j: int| 0 <= j < i && (#[trigger] m.entries@[j]).0@ == k;
                if j < i - 1 {
                    assert(prefix_view_map(m.entries@, i - 1).dom().contains(k));
                }
            }
        }
    }
}

/// Inserting into the right side of a prefer-right union is inserting into
/// the union.
pub proof fn lemma_union_insert_right<K, W>(a: Map<K, W>, b: Map<K, W>, k: K, v: W)
    ensures
        a.union_prefer_right(b).insert(k, v) =~= a.union_prefer_right(b.insert(k, v)),
{
}

/// Unioning the same right side twice changes nothing.
pub proof fn lemma_union_prefer_right_idempotent<K, W>(a: Map<K, W>, b: Map<K, W>)
    ensures
        a.union_prefer_right(b).union_prefer_right(b) =~= a.union_prefer_right(b),
{
}

} // verus!
