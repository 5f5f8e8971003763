//! Anti-replay tracking of connection salts: a bounded, two-generation set.
//!
//! The context keeps two generations of salts. Inserts go into the current
//! generation; when it reaches capacity it becomes the previous generation
//! and the oldest one is dropped. A salt counts as seen while it is in either
//! generation, so a replay within the retention window is always rejected;
//! a salt may be accepted again only after two rotations have aged it out.
//!
//! The context itself is a plain value with `&mut` operations; callers that
//! share it across connections wrap it in their own lock and hold the lock
//! around each `check_and_insert` call.

use vstd::prelude::*;

use crate::bytes_util::bytes_eq;

verus! {

/// Whether one generation holds `salt`.
pub open spec fn in_gen(gen: Seq<Vec<u8>>, salt: Seq<u8>) -> bool {
    exists|i: int| 0 <= i < gen.len() && gen[i]@ == salt
}

/// The bounded window of recently seen connection salts.
pub struct ReplayContext {
    pub capacity: usize,
    pub current: Vec<Vec<u8>>,
    pub previous: Vec<Vec<u8>>,
}

impl ReplayContext {
    /// Whether `salt` is within the retention window.
    pub open spec fn seen(self, salt: Seq<u8>) -> bool {
        in_gen(self.current@, salt) || in_gen(self.previous@, salt)
    }

    pub open spec fn spec_capacity(self) -> nat {
        self.capacity as nat
    }

    pub open spec fn current_fill(self) -> nat {
        self.current@.len()
    }

    /// Bounded memory: each generation holds at most `capacity` salts.
    pub open spec fn wf(self) -> bool {
        &&& self.capacity >= 1
        &&& self.current@.len() <= self.capacity
        &&& self.previous@.len() <= self.capacity
    }

    /// A fresh, empty window that retains up to `capacity` salts per
    /// generation.
    pub fn new(capacity: usize) -> (r: Self)
        requires
            capacity >= 1,
        ensures
            r.wf(),
            r.spec_capacity() == capacity,
            forall|s: Seq<u8>| !r.seen(s),
    {
        ReplayContext { capacity, current: Vec::new(), previous: Vec::new() }
    }

    /// Atomically tests and records a salt. Returns true and records the salt
    /// when it was not seen within the retention window; returns false and
    /// changes nothing when it was. A rejected salt is never a false
    /// negative: everything inserted since the last two rotations is still
    /// in the window.
    pub fn check_and_insert(&mut self, salt: &[u8]) -> (fresh: bool)
        requires
            old(self).wf(),
        ensures
            final(self).wf(),
            fresh == !old(self).seen(salt@),
            final(self).seen(salt@),
            final(self).spec_capacity() == old(self).spec_capacity(),
            !fresh ==> *final(self) == *old(self),
            fresh && old(self).current_fill() < old(self).spec_capacity() ==> forall|s: Seq<u8>|
                final(self).seen(s) <==> (old(self).seen(s) || s == salt@),
            fresh && old(self).current_fill() >= old(self).spec_capacity() ==> forall|s: Seq<u8>|
                final(self).seen(s) <==> (in_gen(old(self).current@, s) || s == salt@),
    {
        if self.contains(salt) {
            return false;
        }
        let rotated = self.current.len() >= self.capacity;
        if rotated {
            let mut retired: Vec<Vec<u8>> = Vec::new();
            core::mem::swap(&mut retired, &mut self.current);
            self.previous = retired;
        }
        let ghost base: Seq<Vec<u8>> = self.current@;
        let mut copy: Vec<u8> = Vec::new();
        crate::bytes_util::push_all(&mut copy, salt);
        self.current.push(copy);
        proof {
            assert(self.current@[base.len() as int]@ == salt@);
            assert forall|s: Seq<u8>| #[trigger] in_gen(self.current@, s) <==> (in_gen(base, s)
                || s == salt@) by {
                if in_gen(self.current@, s) {
                    let i = choose|i: int|
                        0 <= i < self.current@.len() && self.current@[i]@ == s;
                    if i < base.len() {
                        assert(base[i]@ == s);
                    } else {
                        assert(s == salt@);
                    }
                }
                if in_gen(base, s) {
                    let i = choose|i: int| 0 <= i < base.len() && base[i]@ == s;
                    assert(self.current@[i]@ == s);
                }
                if s == salt@ {
                    assert(self.current@[base.len() as int]@ == s);
                }
            };
            if rotated {
                assert(!in_gen(base, salt@));
            }
        }
        true
    }

    /// Whether the window currently holds `salt`.
    fn contains(&self, salt: &[u8]) -> (r: bool)
        ensures
            r == self.seen(salt@),
    {
        gen_contains(&self.current, salt) || gen_contains(&self.previous, salt)
    }
}

/// Whether one generation vector holds `salt`.
fn gen_contains(gen: &Vec<Vec<u8>>, salt: &[u8]) -> (r: bool)
    ensures
        r == in_gen(gen@, salt@),
{
    let mut i: usize = 0;
    while i < gen.len()
        invariant
            i <= gen@.len(),
            forall|k: int| 0 <= k < i ==> gen@[k]@ != salt@,
        decreases gen@.len() - i,
    {
        if bytes_eq(gen[i].as_slice(), salt) {
            return true;
        }
        i += 1;
    }
    false
}

} // verus!
