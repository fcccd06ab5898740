use vstd::prelude::*;

verus! {

/// Identifier naming one forked sub-conversation within the scope of its parent channel.
pub type ForkHandle = u64;

/// The fork registry of one channel: a monotone counter plus the handles still open.
pub struct Registry {
    pub next: u64,
    pub live: Vec<ForkHandle>,
}

impl Registry {
    /// Every open handle was issued by the counter, and none appears twice.
    pub open spec fn wf(&self) -> bool {
        &&& forall|i: int| 0 <= i < self.live@.len() ==> self.live@[i] < self.next
        &&& self.live@.no_duplicates()
    }

    pub fn new() -> (r: Registry)
        ensures
            r.wf(),
            r.next == 0,
            r.live@ == Seq::<ForkHandle>::empty(),
    {
        Registry { next: 0, live: Vec::new() }
    }

    /// Issues the next handle of the counter and records it as open.
    pub fn allocate(&mut self) -> (h: ForkHandle)
        requires
            old(self).wf(),
            old(self).next < u64::MAX,
        ensures
            final(self).wf(),
            h == old(self).next,
            !old(self).live@.contains(h),
            final(self).next == old(self).next + 1,
            final(self).live@ == old(self).live@.push(h),
    {
        let h = self.next;
        self.live.push(h);
        self.next = h + 1;
        assert forall|i: int| 0 <= i < final(self).live@.len() implies final(self).live@[i] < final(self).next by {
            if i < old(self).live@.len() {
                assert(final(self).live@[i] == old(self).live@[i]);
            }
        }
        assert(final(self).live@.no_duplicates()) by {
            assert forall|i: int, j: int|
                0 <= i < final(self).live@.len() && 0 <= j < final(self).live@.len() && i != j
                implies final(self).live@[i] != final(self).live@[j] by {
                if i < old(self).live@.len() && j < old(self).live@.len() {
                    assert(final(self).live@[i] == old(self).live@[i]);
                    assert(final(self).live@[j] == old(self).live@[j]);
                } else if i < old(self).live@.len() {
                    assert(final(self).live@[i] == old(self).live@[i]);
                } else {
                    assert(final(self).live@[j] == old(self).live@[j]);
                }
            }
        }
        h
    }

    /// Whether `h` names a sub-conversation that is still open.
    pub fn is_live(&self, h: ForkHandle) -> (r: bool)
        ensures
            r == self.live@.contains(h),
    {
        let mut i: usize = 0;
        while i < self.live.len()
            invariant
                0 <= i <= self.live@.len(),
                forall|j: int| 0 <= j < i ==> self.live@[j] != h,
            decreases self.live@.len() - i,
        {
            if self.live[i] == h {
                return true;
            }
            i = i + 1;
        }
        false
    }

    /// Drops the bookkeeping of a finished sub-conversation; other open handles stay.
    pub fn release(&mut self, h: ForkHandle)
        requires
            old(self).wf(),
        ensures
            final(self).wf(),
            final(self).next == old(self).next,
            !final(self).live@.contains(h),
            forall|g: ForkHandle| g != h ==> (final(self).live@.contains(g) <==> old(self).live@.contains(g)),
    {
        let mut i: usize = 0;
        while i < self.live.len()
            invariant
                0 <= i <= self.live@.len(),
                forall|j: int| 0 <= j < i ==> self.live@[j] != h,
            ensures
                i < self.live@.len() ==> self.live@[i as int] == h,
            decreases self.live@.len() - i,
        {
            if self.live[i] == h {
                break;
            }
            i = i + 1;
        }
        if i < self.live.len() {
            let ghost before = self.live@;
            self.live.remove(i);
            assert(self.live@ == before.remove(i as int));
            assert forall|j: int| 0 <= j < self.live@.len() implies self.live@[j] != h by {
                if j >= i {
                    assert(self.live@[j] == before[j + 1]);
                    assert(before[i as int] == h);
                }
            }
            assert forall|g: ForkHandle| g != h implies (self.live@.contains(g) <==> before.contains(g)) by {
                if before.contains(g) {
                    let k = choose|k: int| 0 <= k < before.len() && before[k] == g;
                    if k < i {
                        assert(self.live@[k] == g);
                    } else {
                        assert(before[i as int] == h);
                        assert(self.live@[k - 1] == g);
                    }
                }
            }
            assert(self.live@.no_duplicates()) by {
                assert forall|a: int, b: int|
                    0 <= a < self.live@.len() && 0 <= b < self.live@.len() && a != b
                    implies self.live@[a] != self.live@[b] by {
                    let a2 = if a < i { a } else { a + 1 };
                    let b2 = if b < i { b } else { b + 1 };
                    assert(self.live@[a] == before[a2]);
                    assert(self.live@[b] == before[b2]);
                }
            }
            assert forall|j: int| 0 <= j < self.live@.len() implies self.live@[j] < self.next by {
                let j2 = if j < i { j } else { j + 1 };
                assert(self.live@[j] == before[j2]);
            }
        }
    }
}

} // verus!
