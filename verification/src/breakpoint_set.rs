//! The session-level record of breakpoint addresses.  It survives process
//! restarts: records are created when a breakpoint is set and never
//! deleted, addresses are de-duplicated at insertion, and a record's index
//! is its insertion-order position among distinct addresses.

use vstd::prelude::*;

use crate::inferior::{Inferior, TraceError, Breakpoint};
use crate::word::TRAP_BYTE;

verus! {

/// Session-owned set of breakpoint addresses, in insertion order and
/// without duplicates; the index of a breakpoint is its position here.
pub struct BreakpointSet {
    addrs: Vec<usize>,
}

/// Address `a` is armed in the process model `m`: it has a bookkeeping
/// entry and the byte at `a` reads as the trap value.
pub open spec fn armed(m: crate::inferior::ProcModel, a: usize) -> bool {
    &&& m.patches.contains_key(a)
    &&& m.image.contains_key(a as int)
    &&& m.image[a as int] == TRAP_BYTE
}

impl View for BreakpointSet {
    type V = Seq<usize>;

    closed spec fn view(&self) -> Seq<usize> {
        self.addrs@
    }
}

impl BreakpointSet {
    /// No two records share an address.
    pub open spec fn wf(&self) -> bool {
        forall|i: int, j: int| 0 <= i < j < self@.len() ==> self@[i] != self@[j]
    }

    pub fn new() -> (r: BreakpointSet)
        ensures
            r@ == Seq::<usize>::empty(),
            r.wf(),
    {
        BreakpointSet { addrs: Vec::new() }
    }

    /// How many distinct breakpoint addresses are recorded.
    pub fn count(&self) -> (r: usize)
        ensures
            r == self@.len(),
    {
        self.addrs.len()
    }

    /// The address of the record with index `i`.
    pub fn addr_at(&self, i: usize) -> (r: usize)
        requires
            i < self@.len(),
        ensures
            r == self@[i as int],
    {
        self.addrs[i]
    }

    /// Records `addr`, returning its index.  A duplicate address is not
    /// recorded again: the existing record's index is returned, so asking
    /// twice for the same address yields the same index both times.
    pub fn add_addr(&mut self, addr: usize) -> (idx: usize)
        requires
            old(self).wf(),
        ensures
            final(self).wf(),
            idx < final(self)@.len(),
            final(self)@[idx as int] == addr,
            forall|j: int| 0 <= j < idx ==> final(self)@[j] != addr,
            old(self)@.contains(addr) ==> final(self)@ == old(self)@,
            !old(self)@.contains(addr) ==> final(self)@ == old(self)@.push(addr) && idx == old(
                self,
            )@.len(),
    {
        let n = self.addrs.len();
        for i in 0..n
            invariant
                n == self@.len(),
                self@ == old(self)@,
                self.wf(),
                forall|j: int| 0 <= j < i ==> self@[j] != addr,
        {
            if self.addrs[i] == addr {
                return i;
            }
        }
        proof {
            assert(!old(self)@.contains(addr));
        }
        self.addrs.push(addr);
        n
    }

    /// Re-patches every recorded address into a freshly spawned traced
    /// process.  Required because a fresh process image starts with no
    /// patches regardless of prior session history: afterwards every
    /// recorded address is armed — its byte reads as the trap value — and
    /// nothing but the recorded addresses is patched.  Wherever the model
    /// already knew the byte at a recorded address, the bookkeeping
    /// records exactly that pre-patch byte.
    pub fn apply_all(&self, inf: &mut Inferior) -> (r: Result<(), TraceError>)
        requires
            old(inf)@.stopped,
            old(inf)@.patches == Map::<usize, Breakpoint>::empty(),
        ensures
            final(inf)@.pid == old(inf)@.pid,
            final(inf)@.stopped,
            final(inf)@.rip == old(inf)@.rip,
            match r {
                Ok(_) => {
                    &&& forall|i: int| 0 <= i < self@.len() ==> #[trigger] armed(final(inf)@, self@[i])
                    &&& forall|a: usize|
                        #[trigger] final(inf)@.patches.contains_key(a) ==> self@.contains(a)
                    &&& forall|a: usize|
                        #[trigger] final(inf)@.patches.contains_key(a) && old(
                            inf,
                        )@.image.contains_key(a as int) ==> final(inf)@.patches[a].orig_byte == old(
                            inf,
                        )@.image[a as int]
                },
                Err(e) => e is Syscall,
            },
    {
        let n = self.addrs.len();
        for i in 0..n
            invariant
                n == self@.len(),
                inf@.stopped,
                inf@.pid == old(inf)@.pid,
                inf@.rip == old(inf)@.rip,
                forall|j: int| 0 <= j < i ==> #[trigger] armed(inf@, self@[j]),
                forall|a: usize|
                    #[trigger] inf@.patches.contains_key(a) ==> exists|j: int|
                        0 <= j < i && self@[j] == a,
                forall|a: usize|
                    #[trigger] inf@.patches.contains_key(a) && old(inf)@.image.contains_key(
                        a as int,
                    ) ==> inf@.patches[a].orig_byte == old(inf)@.image[a as int],
                forall|a: usize|
                    !inf@.patches.contains_key(a) && #[trigger] old(inf)@.image.contains_key(
                        a as int,
                    ) ==> inf@.image.contains_key(a as int) && inf@.image[a as int] == old(
                        inf,
                    )@.image[a as int],
        {
            let addr = self.addrs[i];
            let ghost pre = inf@;
            match inf.breakpoint(&addr) {
                Ok(_) => (),
                Err(e) => {
                    return Err(e);
                },
            }
            proof {
                let post = inf@;
                assert forall|a: usize| #[trigger] post.patches.contains_key(a) implies exists|
                    j: int,
                |
                    0 <= j < i + 1 && self@[j] == a by {
                    if pre.patches.contains_key(a) {
                        let k = choose|k: int| 0 <= k < i && self@[k] == a;
                        assert(0 <= k < i + 1 && self@[k] == a);
                    } else {
                        assert(self@[i as int] == a);
                    }
                }
                assert forall|j: int| 0 <= j < i + 1 implies #[trigger] armed(post, self@[j]) by {
                    if j < i {
                        assert(armed(pre, self@[j]));
                        if !pre.patches.contains_key(addr) {
                            assert(self@[j] != addr);
                            assert(pre.image.contains_key(self@[j] as int));
                        }
                    } else {
                        if pre.patches.contains_key(addr) {
                            let k = choose|k: int| 0 <= k < i && self@[k] == addr;
                            assert(armed(pre, self@[k]));
                        }
                    }
                }
                assert forall|a: usize|
                    #[trigger] post.patches.contains_key(a) && old(inf)@.image.contains_key(
                        a as int,
                    ) implies post.patches[a].orig_byte == old(inf)@.image[a as int] by {
                    if pre.patches.contains_key(a) {
                        assert(pre.patches[a].orig_byte == old(inf)@.image[a as int]);
                    } else {
                        assert(a == addr);
                        assert(pre.image.contains_key(a as int) && pre.image[a as int] == old(
                            inf,
                        )@.image[a as int]);
                    }
                }
                assert forall|a: usize|
                    !post.patches.contains_key(a) && #[trigger] old(inf)@.image.contains_key(
                        a as int,
                    ) implies post.image.contains_key(a as int) && post.image[a as int] == old(
                        inf,
                    )@.image[a as int] by {
                    assert(!pre.patches.contains_key(a));
                    if !pre.patches.contains_key(addr) {
                        assert(a != addr);
                        assert(pre.image.contains_key(a as int) && pre.image[a as int] == old(
                            inf,
                        )@.image[a as int]);
                    }
                }
            }
        }
        proof {
            assert forall|a: usize| #[trigger] inf@.patches.contains_key(a) implies self@.contains(
                a,
            ) by {
                let k = choose|k: int| 0 <= k < n && self@[k] == a;
                assert(self@[k] == a);
            }
        }
        Ok(())
    }
}

} // verus!
