//! The state accessor: records of one kind kept in container buckets, one
//! bucket per state address, each bucket sorted by primary key.
use vstd::prelude::*;
use crate::codec::{encode_container, list_enc, views, Codec};
use crate::order::{key_less, key_lt, lemma_key_lt_irreflexive, lemma_key_lt_total, lemma_key_lt_transitive};

verus! {

/// A record that can be kept in a container bucket.
pub trait Keyed: View + Sized {
    /// The primary key of the record.
    spec fn spec_key(&self) -> Seq<char>;

    /// The state address of a key.
    spec fn spec_address(key: Seq<char>) -> Seq<char>;

    /// The primary key of a record's value.
    spec fn view_key(v: Self::V) -> Seq<char>;

    proof fn lemma_view_key(e: &Self)
        ensures
            Self::view_key(e@) == e.spec_key(),
    ;

    fn key(&self) -> (r: &String)
        ensures
            r@ == self.spec_key(),
    ;

    fn address(key: &str) -> (r: String)
        ensures
            r@ == Self::spec_address(key@),
    ;

    fn copy_entry(&self) -> (r: Self)
        ensures
            r@ == self@,
    ;

    /// Records with the same value have the same key.
    proof fn lemma_key_of_view(a: &Self, b: &Self)
        requires
            a@ == b@,
        ensures
            a.spec_key() == b.spec_key(),
    ;
}

/// All records of one kind that share a state address.
pub struct Bucket<T> {
    pub address: String,
    pub entries: Vec<T>,
}

/// A map from primary key to record, laid out as container buckets.
pub struct BucketStore<T: Keyed> {
    buckets: Vec<Bucket<T>>,
    contents: Ghost<Map<Seq<char>, T::V>>,
}

impl<T: Keyed> BucketStore<T> {
    /// The records, by primary key.
    pub closed spec fn view_map(&self) -> Map<Seq<char>, T::V> {
        self.contents@
    }

    pub closed spec fn wf(&self) -> bool {
        let b = self.buckets@;
        &&& forall|i: int, j: int|
            0 <= i < j < b.len() ==> (#[trigger] b[i]).address@ != (#[trigger] b[j]).address@
        &&& forall|i: int, j: int|
            0 <= i < b.len() && 0 <= j < b[i].entries@.len() ==> {
                let e = #[trigger] b[i].entries@[j];
                &&& T::spec_address(e.spec_key()) == b[i].address@
                &&& self.contents@.contains_key(e.spec_key())
                &&& self.contents@[e.spec_key()] == e@
            }
        &&& forall|i: int, j: int, k: int|
            0 <= i < b.len() && 0 <= j < k < b[i].entries@.len() ==> key_lt(
                (#[trigger] b[i].entries@[j]).spec_key(),
                (#[trigger] b[i].entries@[k]).spec_key(),
            )
        &&& forall|key: Seq<char>|
            #[trigger] self.contents@.contains_key(key) ==> exists|i: int, j: int|
                0 <= i < b.len() && 0 <= j < b[i].entries@.len() && (#[trigger] b[i].entries@[j]).spec_key() == key
    }

    /// The entries of the bucket at index `i`, sorted by key.
    pub closed spec fn bucket_keys(&self, i: int) -> Seq<Seq<char>> {
        self.buckets@[i].entries@.map_values(|e: T| e.spec_key())
    }

    pub fn new() -> (r: Self)
        ensures
            r.wf(),
            r.view_map() == Map::<Seq<char>, T::V>::empty(),
    {
        BucketStore { buckets: Vec::new(), contents: Ghost(Map::empty()) }
    }

    /// Index of the bucket at `address`, if there is one.
    fn find_bucket(&self, address: &String) -> (r: Option<usize>)
        ensures
            match r {
                Some(i) => i < self.buckets@.len() && self.buckets@[i as int].address@ == address@,
                None => forall|i: int|
                    0 <= i < self.buckets@.len() ==> (#[trigger] self.buckets@[i]).address@ != address@,
            },
    {
        let mut i: usize = 0;
        while i < self.buckets.len()
            invariant
                i <= self.buckets@.len(),
                forall|j: int| 0 <= j < i ==> (#[trigger] self.buckets@[j]).address@ != address@,
            decreases self.buckets@.len() - i,
        {
            if self.buckets[i].address == *address {
                return Some(i);
            }
            i += 1;
        }
        None
    }

    /// Index of the entry with key `key` in a list of entries, if there is one.
    fn find_entry(entries: &Vec<T>, key: &String) -> (r: Option<usize>)
        ensures
            match r {
                Some(j) => j < entries@.len() && entries@[j as int].spec_key() == key@,
                None => forall|j: int|
                    0 <= j < entries@.len() ==> (#[trigger] entries@[j]).spec_key() != key@,
            },
    {
        let mut j: usize = 0;
        while j < entries.len()
            invariant
                j <= entries@.len(),
                forall|k: int| 0 <= k < j ==> (#[trigger] entries@[k]).spec_key() != key@,
            decreases entries@.len() - j,
        {
            if *entries[j].key() == *key {
                return Some(j);
            }
            j += 1;
        }
        None
    }

    /// Where `key` goes in a sorted list of entries that lacks it.
    fn insert_position(entries: &Vec<T>, key: &String) -> (r: usize)
        requires
            forall|j: int, k: int|
                0 <= j < k < entries@.len() ==> key_lt(
                    (#[trigger] entries@[j]).spec_key(),
                    (#[trigger] entries@[k]).spec_key(),
                ),
            forall|j: int| 0 <= j < entries@.len() ==> (#[trigger] entries@[j]).spec_key() != key@,
        ensures
            r <= entries@.len(),
            forall|j: int| 0 <= j < r ==> key_lt((#[trigger] entries@[j]).spec_key(), key@),
            forall|j: int| r <= j < entries@.len() ==> key_lt(key@, (#[trigger] entries@[j]).spec_key()),
    {
        let mut p: usize = 0;
        while p < entries.len()
            invariant
                p <= entries@.len(),
                forall|j: int, k: int|
                    0 <= j < k < entries@.len() ==> key_lt(
                        (#[trigger] entries@[j]).spec_key(),
                        (#[trigger] entries@[k]).spec_key(),
                    ),
                forall|j: int| 0 <= j < entries@.len() ==> (#[trigger] entries@[j]).spec_key() != key@,
                forall|j: int| 0 <= j < p ==> key_lt((#[trigger] entries@[j]).spec_key(), key@),
            decreases entries@.len() - p,
        {
            if !key_less(entries[p].key(), key) {
                proof {
                    lemma_key_lt_total(entries@[p as int].spec_key(), key@);
                    assert forall|j: int| p <= j < entries@.len() implies key_lt(
                        key@,
                        (#[trigger] entries@[j]).spec_key(),
                    ) by {
                        if j > p {
                            lemma_key_lt_transitive(
                                key@,
                                entries@[p as int].spec_key(),
                                entries@[j].spec_key(),
                            );
                        }
                    }
                }
                return p;
            }
            p += 1;
        }
        p
    }

    /// Writes `entry` under its key, replacing the record that had that key.
    pub fn set(&mut self, entry: T)
        requires
            old(self).wf(),
        ensures
            final(self).wf(),
            final(self).view_map() == old(self).view_map().insert(entry.spec_key(), entry@),
    {
        let ghost key = entry.spec_key();
        let ghost ev = entry@;
        let ghost old_b = self.buckets@;
        let address = T::address(entry.key().as_str());
        match self.find_bucket(&address) {
            None => {
                let mut entries: Vec<T> = Vec::new();
                entries.push(entry);
                self.buckets.push(Bucket { address, entries });
                self.contents = Ghost(self.contents@.insert(key, ev));
                proof {
                    let b = self.buckets@;
                    let n = old_b.len() as int;
                    assert(b[n].entries@[0].spec_key() == key);
                    assert forall|k: Seq<char>| #[trigger] self.contents@.contains_key(k) implies exists|i: int, j: int|
                        0 <= i < b.len() && 0 <= j < b[i].entries@.len() && (#[trigger] b[i].entries@[j]).spec_key() == k by {
                        if k != key {
                            let (i, j) = choose|i: int, j: int|
                                0 <= i < old_b.len() && 0 <= j < old_b[i].entries@.len() && (#[trigger] old_b[i].entries@[j]).spec_key() == k;
                            assert(b[i] == old_b[i]);
                            assert(b[i].entries@[j].spec_key() == k);
                        } else {
                            assert(b[n].entries@[0].spec_key() == k);
                        }
                    }
                    assert forall|i: int, j: int|
                        0 <= i < b.len() && 0 <= j < b[i].entries@.len() implies {
                            let e = #[trigger] b[i].entries@[j];
                            &&& T::spec_address(e.spec_key()) == b[i].address@
                            &&& self.contents@.contains_key(e.spec_key())
                            &&& self.contents@[e.spec_key()] == e@
                        } by {
                        if i < n {
                            assert(b[i] == old_b[i]);
                            let e = old_b[i].entries@[j];
                            if e.spec_key() == key {
                                assert(T::spec_address(key) == old_b[i].address@);
                                assert(old_b[i].address@ != address@);
                            }
                        }
                    }
                    assert forall|i: int, j: int, k: int|
                        0 <= i < b.len() && 0 <= j < k < b[i].entries@.len() implies key_lt(
                            (#[trigger] b[i].entries@[j]).spec_key(),
                            (#[trigger] b[i].entries@[k]).spec_key(),
                        ) by {
                        assert(i < n);
                        assert(b[i] == old_b[i]);
                    }
                    assert forall|i: int, j: int|
                        0 <= i < j < b.len() implies (#[trigger] b[i]).address@ != (#[trigger] b[j]).address@ by {
                        if j == n {
                            assert(b[i] == old_b[i]);
                        } else {
                            assert(b[i] == old_b[i]);
                            assert(b[j] == old_b[j]);
                        }
                    }
                }
            },
            Some(i) => {
                let mut bucket = self.buckets.remove(i);
                let ghost old_entries = bucket.entries@;
                assert(old_entries == old_b[i as int].entries@);
                match Self::find_entry(&bucket.entries, entry.key()) {
                    Some(j) => {
                        bucket.entries.set(j, entry);
                        self.buckets.insert(i, bucket);
                        self.contents = Ghost(self.contents@.insert(key, ev));
                        proof {
                            let pos = j as int;
                            let new_index = |x: int| x;

                    let b = self.buckets@;
                    let ii = i as int;
                    let ne = b[ii].entries@;
                    assert(b =~= old_b.update(ii, b[ii]));
                    assert(old_b[ii].address@ == address@);
                    assert forall|i1: int, j1: int|
                        0 <= i1 < j1 < b.len() implies (#[trigger] b[i1]).address@ != (#[trigger] b[j1]).address@ by {
                        assert(b[i1].address@ == old_b[i1].address@);
                        assert(b[j1].address@ == old_b[j1].address@);
                    }
                    assert forall|i1: int, j1: int|
                        0 <= i1 < b.len() && 0 <= j1 < b[i1].entries@.len() && i1 != ii implies {
                            let e = #[trigger] b[i1].entries@[j1];
                            &&& T::spec_address(e.spec_key()) == b[i1].address@
                            &&& self.contents@.contains_key(e.spec_key())
                            &&& self.contents@[e.spec_key()] == e@
                        } by {
                        assert(b[i1] == old_b[i1]);
                        let e = old_b[i1].entries@[j1];
                        if e.spec_key() == key {
                            assert(old_b[i1].address@ == old_b[ii].address@);
                            if i1 < ii {
                                assert(old_b[i1].address@ != old_b[ii].address@);
                            } else {
                                assert(old_b[ii].address@ != old_b[i1].address@);
                            }
                        }
                    }
                    assert forall|i1: int, j1: int, k1: int|
                        0 <= i1 < b.len() && 0 <= j1 < k1 < b[i1].entries@.len() && i1 != ii implies key_lt(
                            (#[trigger] b[i1].entries@[j1]).spec_key(),
                            (#[trigger] b[i1].entries@[k1]).spec_key(),
                        ) by {
                        assert(b[i1] == old_b[i1]);
                    }

                            assert(ne =~= old_entries.update(pos, ne[pos]));
                            assert forall|j1: int| 0 <= j1 < ne.len() && j1 != pos implies #[trigger] ne[j1].spec_key() != key by {
                                if j1 < pos {
                                    assert(key_lt(old_entries[j1].spec_key(), old_entries[pos].spec_key()));
                                } else {
                                    assert(key_lt(old_entries[pos].spec_key(), old_entries[j1].spec_key()));
                                }
                                lemma_key_lt_irreflexive(key);
                            }
                            assert forall|j1: int|
                                0 <= j1 < ne.len() implies {
                                    let e = #[trigger] b[ii].entries@[j1];
                                    &&& T::spec_address(e.spec_key()) == b[ii].address@
                                    &&& self.contents@.contains_key(e.spec_key())
                                    &&& self.contents@[e.spec_key()] == e@
                                } by {
                                if j1 != pos {
                                    assert(ne[j1] == old_b[ii].entries@[j1]);
                                }
                            }
                            assert forall|j1: int, k1: int|
                                0 <= j1 < k1 < ne.len() implies key_lt(
                                    (#[trigger] b[ii].entries@[j1]).spec_key(),
                                    (#[trigger] b[ii].entries@[k1]).spec_key(),
                                ) by {
                                assert(key_lt(old_entries[j1].spec_key(), old_entries[k1].spec_key()));
                            }

                            assert forall|k: Seq<char>| #[trigger] self.contents@.contains_key(k) implies exists|i1: int, j1: int|
                                0 <= i1 < b.len() && 0 <= j1 < b[i1].entries@.len() && (#[trigger] b[i1].entries@[j1]).spec_key() == k by {
                                if k == key {
                                    assert(b[ii].entries@[pos].spec_key() == k);
                                } else {
                                    let (i1, j1) = choose|i1: int, j1: int|
                                        0 <= i1 < old_b.len() && 0 <= j1 < old_b[i1].entries@.len() && (#[trigger] old_b[i1].entries@[j1]).spec_key() == k;
                                    if i1 != ii {
                                        assert(b[i1] == old_b[i1]);
                                        assert(b[i1].entries@[j1].spec_key() == k);
                                    } else {
                                        let nj = new_index(j1);
                                        assert(b[ii].entries@[nj].spec_key() == k);
                                    }
                                }
                            }

                        }
                    },
                    None => {
                        let p = Self::insert_position(&bucket.entries, entry.key());
                        bucket.entries.insert(p, entry);
                        self.buckets.insert(i, bucket);
                        self.contents = Ghost(self.contents@.insert(key, ev));
                        proof {
                            let pos = p as int;
                            let new_index = |x: int| if x < pos { x } else { x + 1 };

                    let b = self.buckets@;
                    let ii = i as int;
                    let ne = b[ii].entries@;
                    assert(b =~= old_b.update(ii, b[ii]));
                    assert(old_b[ii].address@ == address@);
                    assert forall|i1: int, j1: int|
                        0 <= i1 < j1 < b.len() implies (#[trigger] b[i1]).address@ != (#[trigger] b[j1]).address@ by {
                        assert(b[i1].address@ == old_b[i1].address@);
                        assert(b[j1].address@ == old_b[j1].address@);
                    }
                    assert forall|i1: int, j1: int|
                        0 <= i1 < b.len() && 0 <= j1 < b[i1].entries@.len() && i1 != ii implies {
                            let e = #[trigger] b[i1].entries@[j1];
                            &&& T::spec_address(e.spec_key()) == b[i1].address@
                            &&& self.contents@.contains_key(e.spec_key())
                            &&& self.contents@[e.spec_key()] == e@
                        } by {
                        assert(b[i1] == old_b[i1]);
                        let e = old_b[i1].entries@[j1];
                        if e.spec_key() == key {
                            assert(old_b[i1].address@ == old_b[ii].address@);
                            if i1 < ii {
                                assert(old_b[i1].address@ != old_b[ii].address@);
                            } else {
                                assert(old_b[ii].address@ != old_b[i1].address@);
                            }
                        }
                    }
                    assert forall|i1: int, j1: int, k1: int|
                        0 <= i1 < b.len() && 0 <= j1 < k1 < b[i1].entries@.len() && i1 != ii implies key_lt(
                            (#[trigger] b[i1].entries@[j1]).spec_key(),
                            (#[trigger] b[i1].entries@[k1]).spec_key(),
                        ) by {
                        assert(b[i1] == old_b[i1]);
                    }

                            assert(ne =~= old_entries.insert(pos, ne[pos]));
                            assert forall|j1: int|
                                0 <= j1 < ne.len() implies {
                                    let e = #[trigger] b[ii].entries@[j1];
                                    &&& T::spec_address(e.spec_key()) == b[ii].address@
                                    &&& self.contents@.contains_key(e.spec_key())
                                    &&& self.contents@[e.spec_key()] == e@
                                } by {
                                if j1 < pos {
                                    assert(ne[j1] == old_b[ii].entries@[j1]);
                                } else if j1 > pos {
                                    assert(ne[j1] == old_b[ii].entries@[j1 - 1]);
                                }
                            }
                            assert forall|j1: int, k1: int|
                                0 <= j1 < k1 < ne.len() implies key_lt(
                                    (#[trigger] b[ii].entries@[j1]).spec_key(),
                                    (#[trigger] b[ii].entries@[k1]).spec_key(),
                                ) by {
                                if k1 < pos {
                                    assert(key_lt(old_entries[j1].spec_key(), old_entries[k1].spec_key()));
                                } else if j1 > pos {
                                    assert(key_lt(old_entries[j1 - 1].spec_key(), old_entries[k1 - 1].spec_key()));
                                } else if j1 == pos {
                                    assert(key_lt(key, old_entries[k1 - 1].spec_key()));
                                } else if k1 == pos {
                                    assert(key_lt(old_entries[j1].spec_key(), key));
                                } else {
                                    lemma_key_lt_transitive(old_entries[j1].spec_key(), key, old_entries[k1 - 1].spec_key());
                                }
                            }

                            assert forall|k: Seq<char>| #[trigger] self.contents@.contains_key(k) implies exists|i1: int, j1: int|
                                0 <= i1 < b.len() && 0 <= j1 < b[i1].entries@.len() && (#[trigger] b[i1].entries@[j1]).spec_key() == k by {
                                if k == key {
                                    assert(b[ii].entries@[pos].spec_key() == k);
                                } else {
                                    let (i1, j1) = choose|i1: int, j1: int|
                                        0 <= i1 < old_b.len() && 0 <= j1 < old_b[i1].entries@.len() && (#[trigger] old_b[i1].entries@[j1]).spec_key() == k;
                                    if i1 != ii {
                                        assert(b[i1] == old_b[i1]);
                                        assert(b[i1].entries@[j1].spec_key() == k);
                                    } else {
                                        let nj = new_index(j1);
                                        assert(b[ii].entries@[nj].spec_key() == k);
                                    }
                                }
                            }

                        }
                    },
                }
            },
        }
    }

    /// Removes the record with key `key`; a bucket left empty is dropped.
    pub fn delete(&mut self, key: &String)
        requires
            old(self).wf(),
        ensures
            final(self).wf(),
            final(self).view_map() == old(self).view_map().remove(key@),
    {
        let ghost old_b = self.buckets@;
        let address = T::address(key.as_str());
        let i = match self.find_bucket(&address) {
            Some(i) => i,
            None => {
                proof {
                    if self.contents@.contains_key(key@) {
                        let b = self.buckets@;
                        let (i, j) = choose|i: int, j: int|
                            0 <= i < b.len() && 0 <= j < b[i].entries@.len() && (#[trigger] b[i].entries@[j]).spec_key() == key@;
                        assert(b[i].entries@[j].spec_key() == key@);
                    }
                    assert(self.contents@.remove(key@) =~= self.contents@);
                }
                return;
            },
        };
        let j = match Self::find_entry(&self.buckets[i].entries, key) {
            Some(j) => j,
            None => {
                proof {
                    if self.contents@.contains_key(key@) {
                        let b = self.buckets@;
                        let (i2, j2) = choose|i2: int, j2: int|
                            0 <= i2 < b.len() && 0 <= j2 < b[i2].entries@.len() && (#[trigger] b[i2].entries@[j2]).spec_key() == key@;
                        assert(b[i2].entries@[j2].spec_key() == key@);
                        assert(i2 == i);
                    }
                    assert(self.contents@.remove(key@) =~= self.contents@);
                }
                return;
            },
        };
        let mut bucket = self.buckets.remove(i);
        let ghost old_entries = bucket.entries@;
        assert(old_entries == old_b[i as int].entries@);
        let _gone = bucket.entries.remove(j);
        let ghost ne = bucket.entries@;
        let ghost ii = i as int;
        let ghost jj = j as int;
        proof {
            assert(ne =~= old_entries.remove(jj));
            assert forall|x: int| 0 <= x < ne.len() implies (#[trigger] ne[x]).spec_key() != key@ by {
                if x < jj {
                    assert(ne[x] == old_entries[x]);
                    assert(key_lt(old_entries[x].spec_key(), old_entries[jj].spec_key()));
                } else {
                    assert(ne[x] == old_entries[x + 1]);
                    assert(key_lt(old_entries[jj].spec_key(), old_entries[x + 1].spec_key()));
                }
                lemma_key_lt_irreflexive(key@);
            }
        }
        let keep = bucket.entries.len() > 0;
        if keep {
            self.buckets.insert(i, bucket);
        }
        self.contents = Ghost(self.contents@.remove(key@));
        proof {
            let b = self.buckets@;
            // where each surviving bucket of the old list now stands
            let pos = |x: int| if keep || x < ii { x } else { x - 1 };
            assert forall|x: int| 0 <= x < old_b.len() && x != ii implies 0 <= pos(x) < b.len() && #[trigger] b[pos(x)] == old_b[x] by {
            }
            if keep {
                assert(b[ii].entries@ == ne);
                assert(b[ii].address@ == old_b[ii].address@);
            }
            assert forall|x: int, y: int| 0 <= x < y < b.len() implies (#[trigger] b[x]).address@ != (#[trigger] b[y]).address@ by {
                let ox = if keep || x < ii { x } else { x + 1 };
                let oy = if keep || y < ii { y } else { y + 1 };
                assert(b[x].address@ == old_b[ox].address@);
                assert(b[y].address@ == old_b[oy].address@);
            }
            assert forall|x: int, y: int|
                0 <= x < b.len() && 0 <= y < b[x].entries@.len() implies {
                    let e = #[trigger] b[x].entries@[y];
                    &&& T::spec_address(e.spec_key()) == b[x].address@
                    &&& self.contents@.contains_key(e.spec_key())
                    &&& self.contents@[e.spec_key()] == e@
                } by {
                if keep && x == ii {
                    let e = ne[y];
                    if y < jj {
                        assert(e == old_b[ii].entries@[y]);
                    } else {
                        assert(e == old_b[ii].entries@[y + 1]);
                    }
                } else {
                    let ox = if keep || x < ii { x } else { x + 1 };
                    assert(b[x] == old_b[ox]);
                    let e = old_b[ox].entries@[y];
                    if e.spec_key() == key@ {
                        if ox < ii {
                            assert(old_b[ox].address@ != old_b[ii].address@);
                        } else {
                            assert(old_b[ii].address@ != old_b[ox].address@);
                        }
                    }
                }
            }
            assert forall|x: int, y: int, z: int|
                0 <= x < b.len() && 0 <= y < z < b[x].entries@.len() implies key_lt(
                    (#[trigger] b[x].entries@[y]).spec_key(),
                    (#[trigger] b[x].entries@[z]).spec_key(),
                ) by {
                if keep && x == ii {
                    let oy = if y < jj { y } else { y + 1 };
                    let oz = if z < jj { z } else { z + 1 };
                    assert(ne[y] == old_entries[oy]);
                    assert(ne[z] == old_entries[oz]);
                } else {
                    let ox = if keep || x < ii { x } else { x + 1 };
                    assert(b[x] == old_b[ox]);
                }
            }
            assert forall|k: Seq<char>| #[trigger] self.contents@.contains_key(k) implies exists|x: int, y: int|
                0 <= x < b.len() && 0 <= y < b[x].entries@.len() && (#[trigger] b[x].entries@[y]).spec_key() == k by {
                let (ox, oy) = choose|ox: int, oy: int|
                    0 <= ox < old_b.len() && 0 <= oy < old_b[ox].entries@.len() && (#[trigger] old_b[ox].entries@[oy]).spec_key() == k;
                if ox != ii {
                    assert(b[pos(ox)] == old_b[ox]);
                    assert(b[pos(ox)].entries@[oy].spec_key() == k);
                } else {
                    assert(oy != jj);
                    let ny = if oy < jj { oy } else { oy - 1 };
                    assert(ne[ny] == old_entries[oy]);
                    assert(ne.len() > 0);
                    assert(b[ii].entries@[ny].spec_key() == k);
                }
            }
        }
    }

    /// Reads the record with key `key`.
    pub fn get(&self, key: &String) -> (r: Option<T>)
        requires
            self.wf(),
        ensures
            match r {
                Some(e) => self.view_map().contains_key(key@) && self.view_map()[key@] == e@
                    && e.spec_key() == key@,
                None => !self.view_map().contains_key(key@),
            },
    {
        let address = T::address(key.as_str());
        match self.find_bucket(&address) {
            None => {
                proof {
                    if self.contents@.contains_key(key@) {
                        let b = self.buckets@;
                        let (i, j) = choose|i: int, j: int|
                            0 <= i < b.len() && 0 <= j < b[i].entries@.len() && (#[trigger] b[i].entries@[j]).spec_key() == key@;
                        assert(b[i].entries@[j].spec_key() == key@);
                    }
                }
                None
            },
            Some(i) => {
                match Self::find_entry(&self.buckets[i].entries, key) {
                    Some(j) => {
                        let e = &self.buckets[i].entries[j];
                        assert(self.buckets@[i as int].entries@[j as int] == *e);
                        let c = e.copy_entry();
                        proof {
                            T::lemma_key_of_view(&c, e);
                        }
                        Some(c)
                    },
                    None => {
                        proof {
                            if self.contents@.contains_key(key@) {
                                let b = self.buckets@;
                                let (i2, j2) = choose|i2: int, j2: int|
                                    0 <= i2 < b.len() && 0 <= j2 < b[i2].entries@.len() && (#[trigger] b[i2].entries@[j2]).spec_key() == key@;
                                assert(b[i2].entries@[j2].spec_key() == key@);
                                assert(i2 == i);
                            }
                        }
                        None
                    },
                }
            },
        }
    }
}

/// `s` lists, in key order, exactly the records of `contents` whose keys
/// have state address `address`.
pub open spec fn is_bucket_of<T: Keyed>(contents: Map<Seq<char>, T::V>, address: Seq<char>, s: Seq<T::V>) -> bool {
    &&& forall|i: int, j: int|
        0 <= i < j < s.len() ==> key_lt(T::view_key(#[trigger] s[i]), T::view_key(#[trigger] s[j]))
    &&& forall|i: int|
        0 <= i < s.len() ==> {
            let k = T::view_key(#[trigger] s[i]);
            &&& contents.contains_key(k)
            &&& contents[k] == s[i]
            &&& T::spec_address(k) == address
        }
    &&& forall|k: Seq<char>|
        #[trigger] contents.contains_key(k) && T::spec_address(k) == address ==> exists|i: int|
            0 <= i < s.len() && T::view_key(#[trigger] s[i]) == k
}

/// The bucket at `address`, as the records of `contents` determine it.
pub open spec fn bucket_of<T: Keyed>(contents: Map<Seq<char>, T::V>, address: Seq<char>) -> Seq<T::V> {
    choose|s: Seq<T::V>| is_bucket_of::<T>(contents, address, s)
}

/// Two key-ordered lists of the same records are the same list.
pub proof fn lemma_bucket_unique<T: Keyed>(
    contents: Map<Seq<char>, T::V>,
    address: Seq<char>,
    s1: Seq<T::V>,
    s2: Seq<T::V>,
)
    requires
        is_bucket_of::<T>(contents, address, s1),
        is_bucket_of::<T>(contents, address, s2),
    ensures
        s1 == s2,
    decreases s1.len() + s2.len(),
{
    if s1.len() == 0 && s2.len() > 0 {
        assert(contents.contains_key(T::view_key(s2[0])));
    } else if s2.len() == 0 && s1.len() > 0 {
        assert(contents.contains_key(T::view_key(s1[0])));
    } else if s1.len() > 0 && s2.len() > 0 {
        let k1 = T::view_key(s1[0]);
        let k2 = T::view_key(s2[0]);
        assert(contents.contains_key(k1));
        assert(contents.contains_key(k2));
        let j2 = choose|i: int| 0 <= i < s2.len() && T::view_key(#[trigger] s2[i]) == k1;
        let j1 = choose|i: int| 0 <= i < s1.len() && T::view_key(#[trigger] s1[i]) == k2;
        if k1 != k2 {
            assert(j1 > 0);
            assert(j2 > 0);
            assert(key_lt(k1, k2));
            assert(key_lt(k2, k1));
            lemma_key_lt_transitive(k1, k2, k1);
            lemma_key_lt_irreflexive(k1);
        }
        let c = contents.remove(k1);
        let t1 = s1.drop_first();
        let t2 = s2.drop_first();
        assert forall|i: int| 0 <= i < t1.len() implies T::view_key(#[trigger] t1[i]) != k1 by {
            assert(key_lt(k1, T::view_key(s1[i + 1])));
            lemma_key_lt_irreflexive(k1);
        }
        assert forall|i: int| 0 <= i < t2.len() implies T::view_key(#[trigger] t2[i]) != k1 by {
            assert(key_lt(k2, T::view_key(s2[i + 1])));
            lemma_key_lt_irreflexive(k1);
        }
        assert(is_bucket_of::<T>(c, address, t1)) by {
            assert forall|k: Seq<char>| #[trigger] c.contains_key(k) && T::spec_address(k) == address implies exists|i: int|
                0 <= i < t1.len() && T::view_key(#[trigger] t1[i]) == k by {
                let i = choose|i: int| 0 <= i < s1.len() && T::view_key(#[trigger] s1[i]) == k;
                assert(i > 0);
                assert(T::view_key(t1[i - 1]) == k);
            }
        }
        assert(is_bucket_of::<T>(c, address, t2)) by {
            assert forall|k: Seq<char>| #[trigger] c.contains_key(k) && T::spec_address(k) == address implies exists|i: int|
                0 <= i < t2.len() && T::view_key(#[trigger] t2[i]) == k by {
                let i = choose|i: int| 0 <= i < s2.len() && T::view_key(#[trigger] s2[i]) == k;
                assert(i > 0);
                assert(T::view_key(t2[i - 1]) == k);
            }
        }
        lemma_bucket_unique::<T>(c, address, t1, t2);
        assert(s1 =~= seq![s1[0]] + t1);
        assert(s2 =~= seq![s2[0]] + t2);
    }
}

impl<T: Keyed + Codec> BucketStore<T> {
    /// The bytes of the container bucket at `address`: the records there,
    /// in key order; an empty container where there are none. They depend
    /// on the records alone, not on the order of the writes.
    pub fn encoded_bucket(&self, address: &String) -> (r: Vec<u8>)
        requires
            self.wf(),
        ensures
            r@ == list_enc::<T>(bucket_of::<T>(self.view_map(), address@)),
    {
        match self.find_bucket(address) {
            None => {
                let empty: Vec<T> = Vec::new();
                proof {
                    let e = views(empty@);
                    assert(e =~= Seq::<<T as View>::V>::empty());
                    assert forall|k: Seq<char>| #[trigger] self.contents@.contains_key(k) && T::spec_address(k) == address@ implies exists|i: int|
                        0 <= i < e.len() && T::view_key(#[trigger] e[i]) == k by {
                        let b = self.buckets@;
                        let (i, j) = choose|i: int, j: int|
                            0 <= i < b.len() && 0 <= j < b[i].entries@.len() && (#[trigger] b[i].entries@[j]).spec_key() == k;
                        assert(b[i].entries@[j].spec_key() == k);
                    }
                    assert(is_bucket_of::<T>(self.contents@, address@, e));
                    lemma_bucket_unique::<T>(self.contents@, address@, e, bucket_of::<T>(self.contents@, address@));
                }
                encode_container(&empty)
            },
            Some(i) => {
                let entries = &self.buckets[i].entries;
                proof {
                    let b = self.buckets@;
                    let e = views(entries@);
                    assert forall|x: int| 0 <= x < entries@.len() implies T::view_key(#[trigger] e[x]) == entries@[x].spec_key() by {
                        T::lemma_view_key(&entries@[x]);
                    }
                    assert forall|x: int, y: int| 0 <= x < y < e.len() implies key_lt(T::view_key(#[trigger] e[x]), T::view_key(#[trigger] e[y])) by {
                        assert(T::view_key(e[x]) == entries@[x].spec_key());
                        assert(T::view_key(e[y]) == entries@[y].spec_key());
                        assert(b[i as int].entries@[x] == entries@[x]);
                        assert(b[i as int].entries@[y] == entries@[y]);
                    }
                    assert forall|x: int| 0 <= x < e.len() implies {
                        let k = T::view_key(#[trigger] e[x]);
                        &&& self.contents@.contains_key(k)
                        &&& self.contents@[k] == e[x]
                        &&& T::spec_address(k) == address@
                    } by {
                        assert(T::view_key(e[x]) == entries@[x].spec_key());
                        assert(b[i as int].entries@[x] == entries@[x]);
                    }
                    assert forall|k: Seq<char>| #[trigger] self.contents@.contains_key(k) && T::spec_address(k) == address@ implies exists|x: int|
                        0 <= x < e.len() && T::view_key(#[trigger] e[x]) == k by {
                        let (i2, j2) = choose|i2: int, j2: int|
                            0 <= i2 < b.len() && 0 <= j2 < b[i2].entries@.len() && (#[trigger] b[i2].entries@[j2]).spec_key() == k;
                        assert(b[i2].entries@[j2].spec_key() == k);
                        if i2 != i {
                            if i2 < i {
                                assert(b[i2].address@ != b[i as int].address@);
                            } else {
                                assert(b[i as int].address@ != b[i2].address@);
                            }
                        }
                        assert(T::view_key(e[j2]) == entries@[j2].spec_key());
                    }
                    assert(is_bucket_of::<T>(self.contents@, address@, e));
                    lemma_bucket_unique::<T>(self.contents@, address@, e, bucket_of::<T>(self.contents@, address@));
                }
                encode_container(entries)
            },
        }
    }
}

} // verus!
