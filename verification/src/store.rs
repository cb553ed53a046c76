//! Content-addressed storage.
//!
//! A [`Store`] keeps one value per checksum.  The cache uses it for the
//! durable tier's state: one store holds raw bytecode — the source of
//! truth — and one holds serialized compiled artifacts, a disposable
//! derivative.  Writing the state out to disk and reading it back at
//! start-up is the embedding application's concern; the decisions about
//! what the tier holds are made here.

use vstd::prelude::*;

use crate::checksum::Checksum;

verus! {

/// A duplicate-free association of checksums to values.
pub struct Store<T> {
    entries: Vec<(Checksum, T)>,
}

/// The map an entry list denotes; a later entry would win, though a
/// well-formed store never repeats a key.
pub open spec fn map_of<T: View>(entries: Seq<(Checksum, T)>) -> Map<Seq<u8>, T::V>
    decreases entries.len(),
{
    if entries.len() == 0 {
        Map::empty()
    } else {
        map_of(entries.drop_last()).insert(entries.last().0@, entries.last().1@)
    }
}

impl<T: View> View for Store<T> {
    type V = Map<Seq<u8>, T::V>;

    closed spec fn view(&self) -> Map<Seq<u8>, T::V> {
        map_of(self.entries@)
    }
}

/// The keyed lookup a linear scan of the entries performs.
proof fn lemma_map_of_membership<T: View>(entries: Seq<(Checksum, T)>, k: Seq<u8>)
    ensures
        map_of(entries).contains_key(k) <==> exists|i: int|
            0 <= i < entries.len() && entries[i].0@ == k,
        forall|i: int|
            (0 <= i < entries.len() && entries[i].0@ == k && (forall|j: int|
                i < j < entries.len() ==> entries[j].0@ != k)) ==> map_of(entries)[k]
                == entries[i].1@,
    decreases entries.len(),
{
    if entries.len() > 0 {
        lemma_map_of_membership(entries.drop_last(), k);
        assert forall|i: int|
            0 <= i < entries.len() && entries[i].0@ == k implies map_of(entries).contains_key(
            k,
        ) by {
            if i < entries.len() - 1 {
                assert(entries.drop_last()[i].0@ == k);
            }
        }
        assert forall|i: int|
            (0 <= i < entries.len() && entries[i].0@ == k && (forall|j: int|
                i < j < entries.len() ==> entries[j].0@ != k)) implies map_of(entries)[k]
            == entries[i].1@ by {
            if i == entries.len() - 1 {
            } else {
                assert(entries.last().0@ != k);
                assert(entries.drop_last()[i].0@ == k);
                assert(forall|j: int|
                    i < j < entries.drop_last().len() ==> entries.drop_last()[j].0@ != k);
            }
        }
        if map_of(entries).contains_key(k) {
            if entries.last().0@ == k {
                assert(entries[entries.len() - 1].0@ == k);
            } else {
                let i = choose|i: int|
                    0 <= i < entries.drop_last().len() && entries.drop_last()[i].0@ == k;
                assert(entries[i].0@ == k);
            }
        }
    }
}

/// Removing the only entry for a key removes exactly that key from the
/// denoted map.
proof fn lemma_map_of_remove<T: View>(s: Seq<(Checksum, T)>, i: int)
    requires
        0 <= i < s.len(),
        forall|a: int, b: int| 0 <= a < b < s.len() ==> s[a].0@ != s[b].0@,
    ensures
        map_of(s.remove(i)) == map_of(s).remove(s[i].0@),
        forall|a: int, b: int|
            0 <= a < b < s.remove(i).len() ==> s.remove(i)[a].0@ != s.remove(i)[b].0@,
        forall|j: int| 0 <= j < s.remove(i).len() ==> s.remove(i)[j].0@ != s[i].0@,
    decreases s.len(),
{
    let k = s[i].0@;
    let t = s.remove(i);
    assert forall|a: int, b: int| 0 <= a < b < t.len() implies t[a].0@ != t[b].0@ by {
        if a < i {
            if b < i {
                assert(s[a].0@ != s[b].0@);
            } else {
                assert(s[a].0@ != s[b + 1].0@);
            }
        } else {
            assert(s[a + 1].0@ != s[b + 1].0@);
        }
    }
    assert forall|j: int| 0 <= j < t.len() implies t[j].0@ != k by {
        if j < i {
            assert(s[j].0@ != s[i].0@);
        } else {
            assert(s[j + 1].0@ != s[i].0@);
        }
    }
    if i == s.len() - 1 {
        assert(t =~= s.drop_last());
        lemma_map_of_membership(s.drop_last(), k);
        assert(map_of(t) =~= map_of(s).remove(k));
    } else {
        lemma_map_of_remove(s.drop_last(), i);
        assert(t.drop_last() =~= s.drop_last().remove(i));
        assert(t.last() == s.last());
        assert(s.drop_last()[i] == s[i]);
        assert(map_of(t) =~= map_of(s).remove(k));
    }
}

impl<T: View> Store<T> {
    /// No key is stored twice.
    pub closed spec fn wf(&self) -> bool {
        forall|i: int, j: int|
            0 <= i < j < self.entries@.len() ==> self.entries@[i].0@ != self.entries@[j].0@
    }

    /// An empty store.
    pub fn new() -> (r: Store<T>)
        ensures
            r.wf(),
            r@ == Map::<Seq<u8>, T::V>::empty(),
    {
        Store { entries: Vec::new() }
    }

    /// Whether a value is stored under `checksum`.
    pub fn has(&self, checksum: &Checksum) -> (r: bool)
        ensures
            r == self@.contains_key(checksum@),
    {
        proof {
            lemma_map_of_membership(self.entries@, checksum@);
        }
        let mut i: usize = 0;
        while i < self.entries.len()
            invariant
                0 <= i <= self.entries@.len(),
                forall|j: int| 0 <= j < i ==> self.entries@[j].0@ != checksum@,
            decreases self.entries@.len() - i,
        {
            if self.entries[i].0 == *checksum {
                proof {
                    lemma_map_of_membership(self.entries@, checksum@);
                }
                return true;
            }
            i += 1;
        }
        false
    }

    /// The value stored under `checksum`, if any.
    pub fn read(&self, checksum: &Checksum) -> (r: Option<&T>)
        requires
            self.wf(),
        ensures
            r is Some <==> self@.contains_key(checksum@),
            r matches Some(v) ==> v@ == self@[checksum@],
    {
        proof {
            lemma_map_of_membership(self.entries@, checksum@);
        }
        let mut i: usize = 0;
        while i < self.entries.len()
            invariant
                0 <= i <= self.entries@.len(),
                self.wf(),
                forall|j: int| 0 <= j < i ==> self.entries@[j].0@ != checksum@,
            decreases self.entries@.len() - i,
        {
            if self.entries[i].0 == *checksum {
                proof {
                    lemma_map_of_membership(self.entries@, checksum@);
                }
                return Some(&self.entries[i].1);
            }
            i += 1;
        }
        None
    }

    /// Stores `value` under `checksum`, replacing whatever was there.
    pub fn put(&mut self, checksum: Checksum, value: T)
        requires
            old(self).wf(),
        ensures
            final(self).wf(),
            final(self)@ == old(self)@.insert(checksum@, value@),
    {
        proof {
            lemma_map_of_membership(self.entries@, checksum@);
        }
        let mut i: usize = 0;
        while i < self.entries.len()
            invariant
                0 <= i <= self.entries@.len(),
                forall|j: int| 0 <= j < i ==> self.entries@[j].0@ != checksum@,
                self.entries@ == old(self).entries@,
                old(self).wf(),
            decreases self.entries@.len() - i,
        {
            if self.entries[i].0 == checksum {
                let ghost pre = self.entries@;
                self.entries.remove(i);
                proof {
                    lemma_map_of_remove(pre, i as int);
                }
                let ghost mid = self.entries@;
                self.entries.push((checksum, value));
                proof {
                    assert(mid =~= pre.remove(i as int));
                    assert(self.entries@.drop_last() =~= mid);
                    assert(map_of(self.entries@) == map_of(mid).insert(checksum@, value@));
                    assert(map_of(mid) == map_of(pre).remove(pre[i as int].0@));
                    assert(map_of(self.entries@) =~= map_of(pre).insert(checksum@, value@));
                    lemma_map_of_membership(mid, checksum@);
                }
                return ;
            }
            i += 1;
        }
        self.entries.push((checksum, value));
        proof {
            assert(self.entries@.drop_last() =~= old(self).entries@);
        }
    }

    /// Stores `value` under `checksum`, which must be fresh.
    pub fn insert(&mut self, checksum: Checksum, value: T)
        requires
            old(self).wf(),
            !old(self)@.contains_key(checksum@),
        ensures
            final(self).wf(),
            final(self)@ == old(self)@.insert(checksum@, value@),
    {
        proof {
            lemma_map_of_membership(self.entries@, checksum@);
        }
        self.entries.push((checksum, value));
        proof {
            assert(self.entries@.drop_last() =~= old(self).entries@);
        }
    }
}

} // verus!
