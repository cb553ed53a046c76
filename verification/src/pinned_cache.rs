//! The pinned tier: an unevictable set of compiled modules.
//!
//! Pinning gives latency-critical contracts memory residence that no
//! size pressure can take away.  The tier has no capacity bound; entries
//! leave it only through an explicit unpin.

use vstd::prelude::*;

use crate::checksum::Checksum;
use crate::modules::{CompiledModule, ModuleView};

verus! {

/// Whether some module in `s` carries the checksum `k`.
pub open spec fn seq_has_key(s: Seq<ModuleView>, k: Seq<u8>) -> bool {
    exists|i: int| 0 <= i < s.len() && s[i].checksum == k
}

/// The unevictable in-memory tier, keyed by each module's own checksum.
pub struct PinnedMemoryCache {
    entries: Vec<CompiledModule>,
}

impl PinnedMemoryCache {
    /// The pinned modules, in pin order.
    pub closed spec fn modules(&self) -> Seq<ModuleView> {
        self.entries@.map_values(|m: CompiledModule| m@)
    }

    /// Whether a module for `k` is pinned.
    pub open spec fn contains_spec(&self, k: Seq<u8>) -> bool {
        seq_has_key(self.modules(), k)
    }

    /// No checksum is pinned twice.
    pub open spec fn wf(&self) -> bool {
        forall|i: int, j: int|
            0 <= i < j < self.modules().len() ==> self.modules()[i].checksum
                != self.modules()[j].checksum
    }

    /// An empty pinned tier.
    pub fn new() -> (r: PinnedMemoryCache)
        ensures
            r.wf(),
            r.modules() == Seq::<ModuleView>::empty(),
    {
        let r = PinnedMemoryCache { entries: Vec::new() };
        proof {
            assert(r.modules() =~= Seq::<ModuleView>::empty());
        }
        r
    }

    /// Whether a module for `checksum` is pinned.
    pub fn has(&self, checksum: &Checksum) -> (r: bool)
        ensures
            r == self.contains_spec(checksum@),
    {
        let mut i: usize = 0;
        while i < self.entries.len()
            invariant
                0 <= i <= self.entries@.len(),
                forall|j: int| 0 <= j < i ==> self.modules()[j].checksum != checksum@,
            decreases self.entries@.len() - i,
        {
            if self.entries[i].checksum == *checksum {
                proof {
                    assert(self.modules()[i as int].checksum == checksum@);
                }
                return true;
            }
            i += 1;
        }
        false
    }

    /// The pinned module for `checksum`, if any.
    pub fn lookup(&self, checksum: &Checksum) -> (r: Option<CompiledModule>)
        ensures
            r is Some <==> self.contains_spec(checksum@),
            r matches Some(m) ==> self.modules().contains(m@) && m@.checksum == checksum@,
    {
        let mut i: usize = 0;
        while i < self.entries.len()
            invariant
                0 <= i <= self.entries@.len(),
                forall|j: int| 0 <= j < i ==> self.modules()[j].checksum != checksum@,
            decreases self.entries@.len() - i,
        {
            if self.entries[i].checksum == *checksum {
                let m = self.entries[i];
                proof {
                    assert(self.modules()[i as int] == m@);
                }
                return Some(m);
            }
            i += 1;
        }
        None
    }

    /// Pins `module`, whose checksum must not be pinned yet.
    pub fn add(&mut self, module: CompiledModule)
        requires
            old(self).wf(),
            !old(self).contains_spec(module@.checksum),
        ensures
            final(self).wf(),
            final(self).modules() == old(self).modules().push(module@),
    {
        self.entries.push(module);
        proof {
            assert(self.modules() =~= old(self).modules().push(module@));
        }
    }

    /// Unpins the module for `checksum`; a checksum that is not pinned is
    /// left alone.
    pub fn remove(&mut self, checksum: &Checksum)
        requires
            old(self).wf(),
        ensures
            final(self).wf(),
            !final(self).contains_spec(checksum@),
            !old(self).contains_spec(checksum@) ==> final(self).modules()
                == old(self).modules(),
            old(self).contains_spec(checksum@) ==> exists|i: int|
                0 <= i < old(self).modules().len() && old(self).modules()[i].checksum
                    == checksum@ && final(self).modules() == old(self).modules().remove(i),
            forall|m: ModuleView|
                final(self).modules().contains(m) <==> (old(self).modules().contains(m)
                    && m.checksum != checksum@),
            forall|k2: Seq<u8>|
                k2 != checksum@ ==> #[trigger] seq_has_key(final(self).modules(), k2)
                    == seq_has_key(old(self).modules(), k2),
    {
        let mut i: usize = 0;
        while i < self.entries.len()
            invariant
                0 <= i <= self.entries@.len(),
                forall|j: int| 0 <= j < i ==> self.modules()[j].checksum != checksum@,
                old(self).wf(),
                self.modules() == old(self).modules(),
            decreases self.entries@.len() - i,
        {
            if self.entries[i].checksum == *checksum {
                let ghost pre = self.modules();
                self.entries.remove(i);
                proof {
                    assert(self.modules() =~= pre.remove(i as int));
                    assert(pre[i as int].checksum == checksum@);
                    lemma_remove_membership(pre, i as int, checksum@);
                }
                return ;
            }
            i += 1;
        }
        proof {
            assert forall|m: ModuleView| self.modules().contains(m) implies m.checksum
                != checksum@ by {
                let j = choose|j: int| 0 <= j < self.modules().len() && self.modules()[j] == m;
            }
        }
    }
}

/// Appending a module adds exactly its checksum to the keys.
pub(crate) proof fn lemma_push_has_key(s: Seq<ModuleView>, m: ModuleView)
    ensures
        forall|k2: Seq<u8>|
            #[trigger] seq_has_key(s.push(m), k2) <==> (seq_has_key(s, k2) || k2 == m.checksum),
{
    assert forall|k2: Seq<u8>|
        #[trigger] seq_has_key(s.push(m), k2) <==> (seq_has_key(s, k2) || k2
        == m.checksum) by {
        if seq_has_key(s.push(m), k2) {
            let j = choose|j: int| 0 <= j < s.push(m).len() && s.push(m)[j].checksum == k2;
            if j < s.len() {
                assert(s[j].checksum == k2);
            }
        }
        if seq_has_key(s, k2) {
            let j = choose|j: int| 0 <= j < s.len() && s[j].checksum == k2;
            assert(s.push(m)[j].checksum == k2);
        }
        if k2 == m.checksum {
            assert(s.push(m)[s.len() as int].checksum == k2);
        }
    }
}

/// After removing the only entry for a checksum from a duplicate-free
/// sequence, membership keeps every other module and loses that one.
pub(crate) proof fn lemma_remove_membership(s: Seq<ModuleView>, i: int, k: Seq<u8>)
    requires
        0 <= i < s.len(),
        s[i].checksum == k,
        forall|a: int, b: int| 0 <= a < b < s.len() ==> s[a].checksum != s[b].checksum,
    ensures
        forall|m: ModuleView|
            s.remove(i).contains(m) <==> (s.contains(m) && m.checksum != k),
        forall|a: int, b: int|
            0 <= a < b < s.remove(i).len() ==> s.remove(i)[a].checksum
                != s.remove(i)[b].checksum,
        forall|k2: Seq<u8>|
            k2 != k ==> (#[trigger] seq_has_key(s.remove(i), k2) <==> seq_has_key(s, k2)),
        forall|j: int| 0 <= j < s.remove(i).len() ==> s.remove(i)[j].checksum != k,
{
    let t = s.remove(i);
    assert forall|m: ModuleView| t.contains(m) implies (s.contains(m) && m.checksum != k) by {
        let j = choose|j: int| 0 <= j < t.len() && t[j] == m;
        if j < i {
            assert(s[j] == m);
        } else {
            assert(s[j + 1] == m);
        }
    }
    assert forall|m: ModuleView| s.contains(m) && m.checksum != k implies t.contains(m) by {
        let j = choose|j: int| 0 <= j < s.len() && s[j] == m;
        if j < i {
            assert(t[j] == m);
        } else if j > i {
            assert(t[j - 1] == m);
        }
    }
    assert forall|j: int| 0 <= j < t.len() implies t[j].checksum != k by {
        if t[j].checksum == k {
            if j < i {
                assert(s[j].checksum == k);
            } else {
                assert(s[j + 1].checksum == k);
            }
        }
    }
    assert forall|k2: Seq<u8>|
        k2 != k implies (#[trigger] seq_has_key(t, k2) <==> seq_has_key(s, k2)) by {
        if seq_has_key(s, k2) {
            let j = choose|j: int| 0 <= j < s.len() && s[j].checksum == k2;
            if j < i {
                assert(t[j].checksum == k2);
            } else {
                assert(j != i);
                assert(t[j - 1].checksum == k2);
            }
            assert(seq_has_key(t, k2));
        }
        if seq_has_key(t, k2) {
            let j = choose|j: int| 0 <= j < t.len() && t[j].checksum == k2;
            if j < i {
                assert(s[j].checksum == k2);
            } else {
                assert(s[j + 1].checksum == k2);
            }
            assert(seq_has_key(s, k2));
        }
    }
}

} // verus!
