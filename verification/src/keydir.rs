//! The keydir: an in-memory index from each live key to the offset of
//! its most recent set record in the log.  Keys are unique; the index
//! abstracts to a map from key text to offset.

use vstd::prelude::*;

verus! {

/// One keydir entry: a live key and the offset of its latest set
/// record.
pub struct KeydirEntry {
    pub key: String,
    pub off: u64,
}

/// No two entries carry the same key.
pub open spec fn unique_keys(s: Seq<(Seq<char>, u64)>) -> bool {
    forall|i: int, j: int| 0 <= i < j < s.len() ==> (#[trigger] s[i]).0 != (#[trigger] s[j]).0
}

/// The map an entry sequence denotes, later entries winning.
pub open spec fn map_of(s: Seq<(Seq<char>, u64)>) -> Map<Seq<char>, u64>
    decreases s.len(),
{
    if s.len() == 0 {
        Map::empty()
    } else {
        map_of(s.drop_last()).insert(s.last().0, s.last().1)
    }
}

/// A key is in the map exactly when some entry carries it.
pub proof fn lemma_map_of_contains(s: Seq<(Seq<char>, u64)>, k: Seq<char>)
    ensures
        map_of(s).contains_key(k) <==> exists|i: int| 0 <= i < s.len() && (#[trigger] s[i]).0 == k,
    decreases s.len(),
{
    if s.len() > 0 {
        lemma_map_of_contains(s.drop_last(), k);
        if map_of(s).contains_key(k) {
            if k == s.last().0 {
                assert(s[s.len() - 1].0 == k);
            } else {
                let t = s.drop_last();
                let i = choose|i: int| 0 <= i < t.len() && (#[trigger] t[i]).0 == k;
                assert(s[i].0 == k);
            }
        }
        if exists|i: int| 0 <= i < s.len() && (#[trigger] s[i]).0 == k {
            let i = choose|i: int| 0 <= i < s.len() && (#[trigger] s[i]).0 == k;
            if i < s.len() - 1 {
                assert(s.drop_last()[i].0 == k);
            }
        }
    }
}

/// With unique keys, the map sends each entry's key to its offset.
pub proof fn lemma_map_of_index(s: Seq<(Seq<char>, u64)>, i: int)
    requires
        unique_keys(s),
        0 <= i < s.len(),
    ensures
        map_of(s).contains_key(s[i].0),
        map_of(s)[s[i].0] == s[i].1,
    decreases s.len(),
{
    if i == s.len() - 1 {
    } else {
        assert(unique_keys(s.drop_last())) by {
            assert(forall|x: int, y: int|
                0 <= x < y < s.drop_last().len() ==> (#[trigger] s.drop_last()[x]).0 != (
                #[trigger] s.drop_last()[y]).0) by {
                assert(forall|x: int|
                    0 <= x < s.drop_last().len() ==> (#[trigger] s.drop_last()[x]) == s[x]);
            }
        }
        assert(s.drop_last()[i] == s[i]);
        lemma_map_of_index(s.drop_last(), i);
        assert(s[i].0 != s.last().0);
    }
}

/// In-memory index from live key to the offset of the most recent set
/// record for that key.
pub struct Keydir {
    entries: Vec<KeydirEntry>,
}

impl View for Keydir {
    type V = Map<Seq<char>, u64>;

    open spec fn view(&self) -> Map<Seq<char>, u64> {
        map_of(self.entry_seq())
    }
}

impl Keydir {
    /// The entries as (key text, offset) pairs, in storage order.
    pub closed spec fn entry_seq(&self) -> Seq<(Seq<char>, u64)> {
        Seq::new(self.entries@.len(), |i: int| (self.entries@[i].key@, self.entries@[i].off))
    }

    /// Entries carry pairwise distinct keys.
    pub open spec fn wf(&self) -> bool {
        unique_keys(self.entry_seq())
    }

    /// An empty keydir.
    pub fn new() -> (r: Keydir)
        ensures
            r.wf(),
            r@ == Map::<Seq<char>, u64>::empty(),
            r.entry_seq().len() == 0,
    {
        let r = Keydir { entries: Vec::new() };
        proof {
            assert(r.entry_seq().len() == 0);
        }
        r
    }

    /// How many live keys the index holds.
    pub fn len(&self) -> (r: usize)
        ensures
            r == self.entry_seq().len(),
    {
        self.entries.len()
    }

    /// The entry at a storage position, for iteration.
    pub fn entry_at(&self, i: usize) -> (r: (&String, u64))
        requires
            i < self.entry_seq().len(),
        ensures
            r.0@ == self.entry_seq()[i as int].0,
            r.1 == self.entry_seq()[i as int].1,
    {
        (&self.entries[i].key, self.entries[i].off)
    }

    /// Find the storage position of a key, if the key is live.
    fn position(&self, key: &String) -> (r: Option<usize>)
        ensures
            match r {
                Some(i) => i < self.entry_seq().len() && self.entry_seq()[i as int].0 == key@,
                None => forall|i: int|
                    0 <= i < self.entry_seq().len() ==> (#[trigger] self.entry_seq()[i]).0 != key@,
            },
    {
        let mut i: usize = 0;
        while i < self.entries.len()
            invariant
                i <= self.entry_seq().len(),
                forall|j: int| 0 <= j < i ==> (#[trigger] self.entry_seq()[j]).0 != key@,
            decreases self.entries@.len() - i,
        {
            if self.entries[i].key.eq(key) {
                return Some(i);
            }
            i = i + 1;
        }
        None
    }

    /// Look a key up.
    pub fn get(&self, key: &String) -> (r: Option<u64>)
        requires
            self.wf(),
        ensures
            match r {
                Some(off) => self@.contains_key(key@) && self@[key@] == off,
                None => !self@.contains_key(key@),
            },
    {
        proof {
            lemma_map_of_contains(self.entry_seq(), key@);
        }
        match self.position(key) {
            Some(i) => {
                proof {
                    lemma_map_of_index(self.entry_seq(), i as int);
                }
                Some(self.entries[i].off)
            },
            None => None,
        }
    }

    /// Bind a key to an offset, overwriting any prior binding.
    pub fn insert(&mut self, key: String, off: u64)
        requires
            old(self).wf(),
        ensures
            final(self).wf(),
            final(self)@ == old(self)@.insert(key@, off),
            !old(self)@.contains_key(key@) ==> final(self).entry_seq() == old(
                self,
            ).entry_seq().push((key@, off)),
    {
        let ghost s0 = self.entry_seq();
        match self.position(&key) {
            Some(i) => {
                self.entries.remove(i);
                self.entries.push(KeydirEntry { key, off });
                proof {
                    let s1 = self.entry_seq();
                    assert(s1.drop_last() =~= s0.remove(i as int));
                    assert(s1.last() == (key@, off));
                    lemma_map_of_index(s0, i as int);
                    lemma_insert_shape(s0, i as int, key@, off);
                    assert(s1 =~= s0.remove(i as int).push((key@, off)));
                    assert(unique_keys(s1));
                    assert(map_of(s1) =~= map_of(s0).insert(key@, off));
                }
            },
            None => {
                self.entries.push(KeydirEntry { key, off });
                proof {
                    let s1 = self.entry_seq();
                    assert(s1.drop_last() =~= s0);
                    assert(s1.last() == (key@, off));
                    assert forall|x: int, y: int| 0 <= x < y < s1.len() implies (
                    #[trigger] s1[x]).0 != (#[trigger] s1[y]).0 by {
                        if y < s1.len() - 1 {
                            assert(s1[x] == s0[x] && s1[y] == s0[y]);
                        } else {
                            assert(s1[x] == s0[x]);
                            assert(s1[y] == (key@, off));
                        }
                    }
                    assert(map_of(s1) == map_of(s0).insert(key@, off));
                }
            },
        }
    }

    /// Drop a key's binding, if any.
    pub fn remove(&mut self, key: &String)
        requires
            old(self).wf(),
        ensures
            final(self).wf(),
            final(self)@ == old(self)@.remove(key@),
    {
        let ghost s0 = self.entry_seq();
        match self.position(key) {
            Some(i) => {
                self.entries.remove(i);
                proof {
                    let s1 = self.entry_seq();
                    assert(s1 =~= s0.remove(i as int));
                    lemma_remove_shape(s0, i as int);
                    assert(map_of(s1) =~= map_of(s0).remove(key@));
                }
            },
            None => {
                proof {
                    lemma_map_of_contains(s0, key@);
                    assert(map_of(s0) =~= map_of(s0).remove(key@));
                }
            },
        }
    }
}

/// Removing the entry at `i` removes exactly its key from the map.
proof fn lemma_remove_shape(s: Seq<(Seq<char>, u64)>, i: int)
    requires
        unique_keys(s),
        0 <= i < s.len(),
    ensures
        unique_keys(s.remove(i)),
        map_of(s.remove(i)) =~= map_of(s).remove(s[i].0),
{
    let t = s.remove(i);
    assert forall|x: int, y: int| 0 <= x < y < t.len() implies (#[trigger] t[x]).0 != (
    #[trigger] t[y]).0 by {
        let x0 = if x < i {
            x
        } else {
            x + 1
        };
        let y0 = if y < i {
            y
        } else {
            y + 1
        };
        assert(t[x] == s[x0] && t[y] == s[y0]);
    }
    assert forall|k: Seq<char>| #[trigger]
        map_of(t).contains_key(k) == map_of(s).remove(s[i].0).contains_key(k) by {
        lemma_map_of_contains(t, k);
        lemma_map_of_contains(s, k);
        if k == s[i].0 {
            if exists|x: int| 0 <= x < t.len() && (#[trigger] t[x]).0 == k {
                let x = choose|x: int| 0 <= x < t.len() && (#[trigger] t[x]).0 == k;
                let x0 = if x < i {
                    x
                } else {
                    x + 1
                };
                assert(t[x] == s[x0]);
                assert(false);
            }
        } else {
            if exists|x: int| 0 <= x < s.len() && (#[trigger] s[x]).0 == k {
                let x = choose|x: int| 0 <= x < s.len() && (#[trigger] s[x]).0 == k;
                let x1 = if x < i {
                    x
                } else {
                    x - 1
                };
                assert(x != i);
                assert(t[x1] == s[x]);
            }
            if exists|x: int| 0 <= x < t.len() && (#[trigger] t[x]).0 == k {
                let x = choose|x: int| 0 <= x < t.len() && (#[trigger] t[x]).0 == k;
                let x0 = if x < i {
                    x
                } else {
                    x + 1
                };
                assert(t[x] == s[x0]);
            }
        }
    }
    assert forall|k: Seq<char>|
        map_of(t).contains_key(k) && map_of(s).remove(s[i].0).contains_key(k) implies #[trigger] map_of(
        t,
    )[k] == map_of(s).remove(s[i].0)[k] by {
        lemma_map_of_contains(t, k);
        let x = choose|x: int| 0 <= x < t.len() && (#[trigger] t[x]).0 == k;
        let x0 = if x < i {
            x
        } else {
            x + 1
        };
        assert(t[x] == s[x0]);
        lemma_map_of_index(t, x);
        lemma_map_of_index(s, x0);
    }
}

/// Replacing the entry at `i` with a fresh binding of the same key at
/// the end keeps the keys unique.
proof fn lemma_insert_shape(s: Seq<(Seq<char>, u64)>, i: int, k: Seq<char>, off: u64)
    requires
        unique_keys(s),
        0 <= i < s.len(),
        s[i].0 == k,
    ensures
        unique_keys(s.remove(i).push((k, off))),
        map_of(s.remove(i).push((k, off))) =~= map_of(s).insert(k, off),
{
    lemma_remove_shape(s, i);
    let t = s.remove(i);
    let u = t.push((k, off));
    assert forall|x: int, y: int| 0 <= x < y < u.len() implies (#[trigger] u[x]).0 != (
    #[trigger] u[y]).0 by {
        if y < u.len() - 1 {
            assert(u[x] == t[x] && u[y] == t[y]);
        } else {
            assert(u[y] == (k, off));
            assert(u[x] == t[x]);
            let x0 = if x < i {
                x
            } else {
                x + 1
            };
            assert(t[x] == s[x0]);
            assert(x0 != i);
        }
    }
    assert(u.drop_last() =~= t);
    assert(map_of(u) == map_of(t).insert(k, off));
    assert(map_of(t) =~= map_of(s).remove(k));
    assert(map_of(u) =~= map_of(s).insert(k, off));
}

} // verus!
