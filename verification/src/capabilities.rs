//! Sets of host capabilities.
//!
//! A capability is an optional host feature, named by a byte string
//! (for example `b"iterator"` or `b"staking"`).  A contract declares the
//! capabilities it requires; the host configures the set it supports; a
//! contract is admissible only if its requirements are a subset of the
//! host's set.

use vstd::prelude::*;

use crate::bytes_eq;

verus! {

/// An unordered, duplicate-free collection of capability names.
#[derive(Debug)]
pub struct CapabilitySet {
    names: Vec<Vec<u8>>,
}

impl View for CapabilitySet {
    type V = Set<Seq<u8>>;

    closed spec fn view(&self) -> Set<Seq<u8>> {
        Set::new(|s: Seq<u8>| exists|i: int| 0 <= i < self.names@.len() && self.names@[i]@ == s)
    }
}

impl CapabilitySet {
    /// No two stored names are equal.
    pub closed spec fn wf(&self) -> bool {
        forall|i: int, j: int|
            0 <= i < j < self.names@.len() ==> self.names@[i]@ != self.names@[j]@
    }

    /// The empty capability set.
    pub fn new() -> (r: CapabilitySet)
        ensures
            r.wf(),
            r@ == Set::<Seq<u8>>::empty(),
    {
        let r = CapabilitySet { names: Vec::new() };
        proof {
            assert(r@ =~= Set::<Seq<u8>>::empty());
        }
        r
    }

    /// Whether `name` is in the set.
    pub fn contains(&self, name: &[u8]) -> (r: bool)
        ensures
            r == self@.contains(name@),
    {
        let mut i: usize = 0;
        while i < self.names.len()
            invariant
                0 <= i <= self.names@.len(),
                forall|j: int| 0 <= j < i ==> self.names@[j]@ != name@,
            decreases self.names@.len() - i,
        {
            if bytes_eq(self.names[i].as_slice(), name) {
                return true;
            }
            i += 1;
        }
        false
    }

    /// Adds `name`; a name already present is kept once.
    pub fn insert(&mut self, name: Vec<u8>)
        requires
            old(self).wf(),
        ensures
            final(self).wf(),
            final(self)@ == old(self)@.insert(name@),
    {
        if !self.contains(name.as_slice()) {
            let ghost n = self.names@.len();
            self.names.push(name);
            proof {
                assert forall|s: Seq<u8>| old(self)@.insert(name@).contains(s)
                    implies self@.contains(s) by {
                    if s == name@ {
                        assert(self.names@[n as int]@ == s);
                    } else {
                        let i = choose|i: int|
                            0 <= i < old(self).names@.len() && old(self).names@[i]@ == s;
                        assert(self.names@[i]@ == s);
                    }
                }
                assert(self@ =~= old(self)@.insert(name@));
            }
        } else {
            proof {
                assert(self@ =~= old(self)@.insert(name@));
            }
        }
    }

    /// Whether every name of `self` is also in `other`.
    pub fn is_subset_of(&self, other: &CapabilitySet) -> (r: bool)
        ensures
            r == self@.subset_of(other@),
    {
        let mut i: usize = 0;
        while i < self.names.len()
            invariant
                0 <= i <= self.names@.len(),
                forall|j: int| 0 <= j < i ==> other@.contains(self.names@[j]@),
            decreases self.names@.len() - i,
        {
            if !other.contains(self.names[i].as_slice()) {
                return false;
            }
            i += 1;
        }
        true
    }

    /// The names of `self` that are absent from `other`: for a contract's
    /// required set, every capability the host is missing.
    pub fn difference(&self, other: &CapabilitySet) -> (r: CapabilitySet)
        requires
            self.wf(),
        ensures
            r.wf(),
            r@ == self@.difference(other@),
    {
        let mut out = CapabilitySet::new();
        let mut i: usize = 0;
        while i < self.names.len()
            invariant
                0 <= i <= self.names@.len(),
                self.wf(),
                out.wf(),
                forall|s: Seq<u8>| out@.contains(s) <==> ((exists|j: int|
                    0 <= j < i && self.names@[j]@ == s) && !other@.contains(s)),
            decreases self.names@.len() - i,
        {
            let present = other.contains(self.names[i].as_slice());
            if !present {
                let name = vstd::slice::slice_to_vec(self.names[i].as_slice());
                out.insert(name);
            }
            i += 1;
        }
        proof {
            assert(out@ =~= self@.difference(other@));
        }
        out
    }

    /// Whether the set has no names.
    pub fn is_empty(&self) -> (r: bool)
        ensures
            r == (self@ == Set::<Seq<u8>>::empty()),
    {
        let r = self.names.len() == 0;
        proof {
            if self.names@.len() == 0 {
                assert(self@ =~= Set::<Seq<u8>>::empty());
            } else {
                assert(self@.contains(self.names@[0]@));
            }
        }
        r
    }
}

/// The comma-separated segments of `s`, in order; always at least one.
pub open spec fn split_commas(s: Seq<u8>) -> Seq<Seq<u8>>
    decreases s.len(),
{
    if s.len() == 0 {
        seq![Seq::<u8>::empty()]
    } else {
        let rest = split_commas(s.drop_last());
        if s.last() == 44 {
            rest.push(Seq::<u8>::empty())
        } else {
            rest.update(rest.len() - 1, rest.last().push(s.last()))
        }
    }
}

proof fn lemma_split_commas_len(s: Seq<u8>)
    ensures
        split_commas(s).len() >= 1,
    decreases s.len(),
{
    if s.len() > 0 {
        lemma_split_commas_len(s.drop_last());
    }
}

proof fn lemma_contains_at_last(s: Seq<Seq<u8>>, seg: Seq<u8>)
    requires
        s.len() >= 1,
    ensures
        s.contains(seg) <==> (s.drop_last().contains(seg) || seg == s.last()),
{
    if s.contains(seg) {
        let j = choose|j: int| 0 <= j < s.len() && s[j] == seg;
        if j < s.len() - 1 {
            assert(s.drop_last()[j] == seg);
        }
    }
    if s.drop_last().contains(seg) {
        let j = choose|j: int| 0 <= j < s.drop_last().len() && s.drop_last()[j] == seg;
        assert(s[j] == seg);
    }
}

/// The capability names a comma-separated list denotes: its nonempty
/// segments, as a set.
pub open spec fn csv_caps(s: Seq<u8>) -> Set<Seq<u8>> {
    Set::new(|seg: Seq<u8>| split_commas(s).contains(seg) && seg.len() > 0)
}

/// Parses a comma-separated capability list, for example
/// `iterator,staking`: every nonempty segment becomes one capability,
/// empty segments are dropped.
pub fn capabilities_from_csv(csv: &[u8]) -> (r: CapabilitySet)
    ensures
        r.wf(),
        r@ == csv_caps(csv@),
{
    let mut out = CapabilitySet::new();
    let mut cur: Vec<u8> = Vec::new();
    let mut i: usize = 0;
    proof {
        assert(csv@.take(0) =~= Seq::<u8>::empty());
    }
    while i < csv.len()
        invariant
            0 <= i <= csv@.len(),
            out.wf(),
            cur@ == split_commas(csv@.take(i as int)).last(),
            split_commas(csv@.take(i as int)).len() >= 1,
            forall|seg: Seq<u8>|
                out@.contains(seg) <==> (split_commas(csv@.take(i as int)).drop_last().contains(
                    seg,
                ) && seg.len() > 0),
        decreases csv@.len() - i,
    {
        let ghost sc = split_commas(csv@.take(i as int));
        proof {
            assert(csv@.take(i + 1).drop_last() =~= csv@.take(i as int));
            assert(csv@.take(i + 1).last() == csv@[i as int]);
        }
        let b = csv[i];
        if b == 44 {
            if cur.len() > 0 {
                out.insert(cur);
            }
            cur = Vec::new();
            proof {
                assert(split_commas(csv@.take(i + 1)) == sc.push(Seq::<u8>::empty()));
                assert(sc.push(Seq::<u8>::empty()).drop_last() =~= sc);
                lemma_contains_at_last(sc, sc.last());
                assert forall|seg: Seq<u8>|
                    out@.contains(seg) <==> (sc.contains(seg) && seg.len() > 0) by {
                    lemma_contains_at_last(sc, seg);
                }
            }
        } else {
            cur.push(b);
            proof {
                let sc2 = split_commas(csv@.take(i + 1));
                assert(sc2 == sc.update(sc.len() - 1, sc.last().push(csv@[i as int])));
                assert(sc2.drop_last() =~= sc.drop_last());
                assert(sc2.last() == sc.last().push(csv@[i as int]));
            }
        }
        i += 1;
    }
    proof {
        assert(csv@.take(csv@.len() as int) =~= csv@);
    }
    if cur.len() > 0 {
        out.insert(cur);
    }
    proof {
        let sc = split_commas(csv@);
        lemma_contains_at_last(sc, sc.last());
        assert forall|seg: Seq<u8>|
            out@.contains(seg) <==> (sc.contains(seg) && seg.len() > 0) by {
            lemma_contains_at_last(sc, seg);
        }
        assert(out@ =~= csv_caps(csv@));
    }
    out
}

} // verus!
