//! The bounded memory tier: a least-recently-used cache of compiled
//! modules.
//!
//! The tier holds modules in recency order, most recently used last, and
//! charges each module's code size against a fixed byte capacity.  When an
//! insert would overflow the capacity, the least recently used entries are
//! evicted, oldest first, until the new module fits.  A capacity of zero
//! disables the tier.  Pinned modules are never here — the coordinator
//! accounts a checksum in at most one of the pinned and memory tiers — so
//! eviction can never touch a pinned module.

use vstd::prelude::*;

use crate::checksum::Checksum;
use crate::modules::{CompiledModule, ModuleView};
use crate::pinned_cache::{lemma_remove_membership, seq_has_key};

verus! {

/// The combined code size of a sequence of modules.
pub open spec fn size_sum(s: Seq<ModuleView>) -> int
    decreases s.len(),
{
    if s.len() == 0 {
        0
    } else {
        size_sum(s.drop_last()) + s.last().code_size
    }
}

proof fn lemma_size_sum_nonneg(s: Seq<ModuleView>)
    ensures
        size_sum(s) >= 0,
    decreases s.len(),
{
    if s.len() > 0 {
        lemma_size_sum_nonneg(s.drop_last());
    }
}

proof fn lemma_size_sum_push(s: Seq<ModuleView>, m: ModuleView)
    ensures
        size_sum(s.push(m)) == size_sum(s) + m.code_size,
{
    assert(s.push(m).drop_last() =~= s);
}

proof fn lemma_size_sum_remove(s: Seq<ModuleView>, i: int)
    requires
        0 <= i < s.len(),
    ensures
        size_sum(s.remove(i)) == size_sum(s) - s[i].code_size,
    decreases s.len(),
{
    if i == s.len() - 1 {
        assert(s.remove(i) =~= s.drop_last());
    } else {
        lemma_size_sum_remove(s.drop_last(), i);
        assert(s.remove(i).drop_last() =~= s.drop_last().remove(i));
        assert(s.remove(i).last() == s.last());
    }
}

proof fn lemma_size_sum_drop_first(s: Seq<ModuleView>)
    requires
        s.len() > 0,
    ensures
        size_sum(s.drop_first()) == size_sum(s) - s[0].code_size,
{
    lemma_size_sum_remove(s, 0);
    assert(s.remove(0) =~= s.drop_first());
}

/// What an insert does to the resident sequence: nothing for a module
/// that can never fit or a disabled tier; otherwise the eviction of the
/// shortest least-recently-used prefix that makes room, then the module
/// appended as most recently used.
pub open spec fn memory_insert_outcome(
    pre: Seq<ModuleView>,
    post: Seq<ModuleView>,
    capacity: usize,
    m: ModuleView,
) -> bool {
    if m.code_size > capacity || capacity == 0 {
        post == pre
    } else {
        exists|n: int|
            0 <= n <= pre.len() && post == pre.skip(n).push(m) && size_sum(pre.skip(n))
                + m.code_size <= capacity && (n == 0 || size_sum(pre.skip(n - 1)) + m.code_size
                > capacity)
    }
}

/// Inserting brings in no module but the inserted one, and keeps every
/// key it does not evict; a key that survives is resident afterwards
/// exactly as before, plus the new key.
pub proof fn lemma_insert_membership(
    pre: Seq<ModuleView>,
    post: Seq<ModuleView>,
    capacity: usize,
    m: ModuleView,
)
    requires
        memory_insert_outcome(pre, post, capacity, m),
    ensures
        forall|mm: ModuleView| post.contains(mm) ==> pre.contains(mm) || mm == m,
        forall|k2: Seq<u8>|
            #[trigger] seq_has_key(post, k2) ==> seq_has_key(pre, k2) || k2 == m.checksum,
{
    if !(m.code_size > capacity || capacity == 0) {
        let n = choose|n: int|
            0 <= n <= pre.len() && post == pre.skip(n).push(m) && size_sum(pre.skip(n))
                + m.code_size <= capacity && (n == 0 || size_sum(pre.skip(n - 1)) + m.code_size
                > capacity);
        assert forall|mm: ModuleView| post.contains(mm) implies pre.contains(mm) || mm == m by {
            let j = choose|j: int| 0 <= j < post.len() && post[j] == mm;
            if j < post.len() - 1 {
                assert(pre[j + n] == mm);
            }
        }
        assert forall|k2: Seq<u8>|
            #[trigger] seq_has_key(post, k2) implies seq_has_key(pre, k2) || k2
            == m.checksum by {
            let j = choose|j: int| 0 <= j < post.len() && post[j].checksum == k2;
            if j < post.len() - 1 {
                assert(pre[j + n].checksum == k2);
            }
        }
    }
}

/// The bounded, recency-ordered in-memory tier.
pub struct InMemoryCache {
    entries: Vec<CompiledModule>,
    capacity: usize,
    total: usize,
}

impl InMemoryCache {
    /// The resident modules, least recently used first.
    pub closed spec fn modules(&self) -> Seq<ModuleView> {
        self.entries@.map_values(|m: CompiledModule| m@)
    }

    /// The configured capacity in bytes.
    pub closed spec fn spec_capacity(&self) -> usize {
        self.capacity
    }

    /// The combined code size of the resident modules.
    pub closed spec fn spec_total(&self) -> usize {
        self.total
    }

    /// Whether a module for `k` is resident.
    pub open spec fn contains_spec(&self, k: Seq<u8>) -> bool {
        seq_has_key(self.modules(), k)
    }

    /// No checksum resident twice; the running total is the sum of the
    /// resident sizes and never exceeds the capacity.
    pub closed spec fn wf(&self) -> bool {
        &&& forall|i: int, j: int|
            0 <= i < j < self.modules().len() ==> self.modules()[i].checksum
                != self.modules()[j].checksum
        &&& self.total as int == size_sum(self.modules())
        &&& self.total <= self.capacity
    }

    /// The capacity bound: a well-formed tier never holds more bytes of
    /// code than its configured capacity.
    pub proof fn lemma_capacity_bound(&self)
        requires
            self.wf(),
        ensures
            size_sum(self.modules()) == self.spec_total() as int,
            size_sum(self.modules()) <= self.spec_capacity() as int,
    {
    }

    /// An empty tier with the given byte capacity.
    pub fn new(capacity: usize) -> (r: InMemoryCache)
        ensures
            r.wf(),
            r.modules() == Seq::<ModuleView>::empty(),
            r.spec_capacity() == capacity,
    {
        let r = InMemoryCache { entries: Vec::new(), capacity, total: 0 };
        proof {
            assert(r.modules() =~= Seq::<ModuleView>::empty());
        }
        r
    }

    /// Looks the module for `checksum` up; a hit promotes it to most
    /// recently used and changes nothing else.
    pub fn lookup(&mut self, checksum: &Checksum) -> (r: Option<CompiledModule>)
        requires
            old(self).wf(),
        ensures
            final(self).wf(),
            final(self).spec_capacity() == old(self).spec_capacity(),
            final(self).spec_total() == old(self).spec_total(),
            r is None ==> final(self).modules() == old(self).modules()
                && !old(self).contains_spec(checksum@),
            r matches Some(m) ==> m@.checksum == checksum@ && exists|i: int|
                0 <= i < old(self).modules().len() && old(self).modules()[i] == m@
                && final(self).modules() == old(self).modules().remove(i).push(m@),
            forall|k2: Seq<u8>|
                #[trigger] seq_has_key(final(self).modules(), k2) == seq_has_key(
                    old(self).modules(),
                    k2,
                ),
            forall|mm: ModuleView|
                #[trigger] final(self).modules().contains(mm)
                    ==> old(self).modules().contains(mm),
    {
        let mut i: usize = 0;
        while i < self.entries.len()
            invariant
                0 <= i <= self.entries@.len(),
                forall|j: int| 0 <= j < i ==> self.modules()[j].checksum != checksum@,
                self.wf(),
                self.modules() == old(self).modules(),
                self.capacity == old(self).spec_capacity(),
                self.total == old(self).spec_total(),
            decreases self.entries@.len() - i,
        {
            if self.entries[i].checksum == *checksum {
                let m = self.entries[i];
                let ghost pre = self.modules();
                proof {
                    assert(pre[i as int] == m@);
                }
                self.entries.remove(i);
                proof {
                    assert(self.modules() =~= pre.remove(i as int));
                }
                let ghost mid = self.modules();
                self.entries.push(m);
                proof {
                    assert(self.modules() =~= pre.remove(i as int).push(m@));
                    lemma_remove_membership(pre, i as int, checksum@);
                    lemma_size_sum_remove(pre, i as int);
                    lemma_size_sum_push(mid, m@);
                    assert forall|k2: Seq<u8>|
                        #[trigger] seq_has_key(self.modules(), k2) == seq_has_key(pre, k2) by {
                        if k2 == checksum@ {
                            assert(self.modules()[self.modules().len() - 1].checksum == k2);
                            assert(seq_has_key(self.modules(), k2));
                            assert(pre[i as int].checksum == k2);
                            assert(seq_has_key(pre, k2));
                        } else {
                            if seq_has_key(self.modules(), k2) {
                                let j = choose|j: int|
                                    0 <= j < self.modules().len() && self.modules()[j].checksum
                                        == k2;
                                assert(mid[j].checksum == k2);
                                assert(seq_has_key(mid, k2));
                            }
                            if seq_has_key(mid, k2) {
                                let j = choose|j: int|
                                    0 <= j < mid.len() && mid[j].checksum == k2;
                                assert(self.modules()[j].checksum == k2);
                                assert(seq_has_key(self.modules(), k2));
                            }
                        }
                    }
                }
                return Some(m);
            }
            i += 1;
        }
        None
    }

    /// Removes and returns the module for `checksum`, with no recency
    /// effect: the coordinator uses this to move a module into the pinned
    /// tier.
    pub fn take(&mut self, checksum: &Checksum) -> (r: Option<CompiledModule>)
        requires
            old(self).wf(),
        ensures
            final(self).wf(),
            final(self).spec_capacity() == old(self).spec_capacity(),
            !final(self).contains_spec(checksum@),
            r is None ==> final(self).modules() == old(self).modules()
                && !old(self).contains_spec(checksum@)
                && final(self).spec_total() == old(self).spec_total(),
            r matches Some(m) ==> m@.checksum == checksum@ && exists|i: int|
                0 <= i < old(self).modules().len() && old(self).modules()[i] == m@
                && final(self).modules() == old(self).modules().remove(i),
            forall|k2: Seq<u8>|
                k2 != checksum@ ==> #[trigger] seq_has_key(final(self).modules(), k2)
                    == seq_has_key(old(self).modules(), k2),
            forall|mm: ModuleView|
                #[trigger] final(self).modules().contains(mm)
                    ==> old(self).modules().contains(mm),
    {
        let mut i: usize = 0;
        while i < self.entries.len()
            invariant
                0 <= i <= self.entries@.len(),
                forall|j: int| 0 <= j < i ==> self.modules()[j].checksum != checksum@,
                self.wf(),
                self.modules() == old(self).modules(),
                self.capacity == old(self).spec_capacity(),
                self.total == old(self).spec_total(),
            decreases self.entries@.len() - i,
        {
            if self.entries[i].checksum == *checksum {
                let m = self.entries[i];
                let ghost pre = self.modules();
                proof {
                    assert(pre[i as int] == m@);
                    lemma_size_sum_remove(pre, i as int);
                    lemma_size_sum_nonneg(pre.remove(i as int));
                }
                self.entries.remove(i);
                self.total = self.total - m.code_size;
                proof {
                    assert(self.modules() =~= pre.remove(i as int));
                    lemma_remove_membership(pre, i as int, checksum@);
                }
                return Some(m);
            }
            i += 1;
        }
        proof {
            assert forall|m: ModuleView| self.modules().contains(m) implies m.checksum
                != checksum@ by {
                let j = choose|j: int| 0 <= j < self.modules().len() && self.modules()[j] == m;
            }
        }
        None
    }

    /// Makes `module` resident as the most recently used entry, evicting
    /// least recently used entries, oldest first, only until it fits.  A
    /// module larger than the whole capacity is not stored, and a capacity
    /// of zero stores nothing.
    pub fn insert(&mut self, module: CompiledModule)
        requires
            old(self).wf(),
            !old(self).contains_spec(module@.checksum),
        ensures
            final(self).wf(),
            final(self).spec_capacity() == old(self).spec_capacity(),
            memory_insert_outcome(
                old(self).modules(),
                final(self).modules(),
                old(self).spec_capacity(),
                module@,
            ),
    {
        if module.code_size > self.capacity || self.capacity == 0 {
            return ;
        }
        let ghost orig = self.modules();
        let ghost mut evicted: int = 0;
        while module.code_size > self.capacity - self.total
            invariant
                0 <= evicted <= orig.len(),
                self.modules() == orig.skip(evicted),
                self.wf(),
                self.capacity == old(self).spec_capacity(),
                module@.code_size <= self.capacity,
                evicted == 0 || size_sum(orig.skip(evicted - 1)) + module@.code_size
                    > self.capacity,
            decreases self.entries@.len(),
        {
            proof {
                if self.entries@.len() == 0 {
                    assert(self.modules() =~= Seq::<ModuleView>::empty());
                    assert(size_sum(self.modules()) == 0);
                }
            }
            let ghost pre = self.modules();
            proof {
                lemma_size_sum_drop_first(pre);
                lemma_size_sum_nonneg(pre.drop_first());
            }
            let front = self.entries.remove(0);
            self.total = self.total - front.code_size;
            proof {
                assert(self.modules() =~= pre.drop_first());
                assert(orig.skip(evicted).drop_first() =~= orig.skip(evicted + 1));
                evicted = evicted + 1;
            }
        }
        let ghost before_push = self.modules();
        proof {
            lemma_size_sum_push(before_push, module@);
            assert forall|j: int| 0 <= j < before_push.len() implies before_push[j].checksum
                != module@.checksum by {
                assert(orig[j + evicted] == before_push[j]);
                if before_push[j].checksum == module@.checksum {
                    assert(orig[j + evicted].checksum == module@.checksum);
                    assert(seq_has_key(orig, module@.checksum));
                }
            }
        }
        self.entries.push(module);
        self.total = self.total + module.code_size;
        proof {
            assert(self.modules() =~= before_push.push(module@));
        }
    }
}

} // verus!
