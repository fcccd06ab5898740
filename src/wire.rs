use vstd::prelude::*;

use crate::handle::ForkHandle;

verus! {

/// The tag item of a `Result` on the wire: which branch, and the fork carrying its payload.
#[derive(Debug, Clone, Copy, PartialEq, Eq, Structural)]
pub enum KResult {
    Success(ForkHandle),
    Failure(ForkHandle),
}

/// One plain item carried by a channel.
#[derive(Debug, PartialEq, Eq)]
pub enum Item {
    Bool(bool),
    U32(u32),
    U64(u64),
    /// The tag of an `Option`: absent, or present with the fork of its payload.
    Present(Option<ForkHandle>),
    /// The tag of a `Result`.
    Tagged(KResult),
    /// The forks of a fixed-size array's elements, in positional order.
    Handles(Vec<ForkHandle>),
}

/// A forked child conversation, registered under its handle.
#[derive(Debug)]
pub struct Fork {
    pub handle: ForkHandle,
    pub channel: Channel,
}

/// One conversation of the multiplexer: the items sent on it, in send order, and the
/// children forked from it that are still registered.
#[derive(Debug)]
pub struct Channel {
    pub items: Vec<Item>,
    pub forks: Vec<Fork>,
}

/// `i` is the first position of `fs` whose fork is registered under `h`.
pub open spec fn first_fork(fs: Seq<Fork>, h: ForkHandle, i: int) -> bool {
    &&& 0 <= i < fs.len()
    &&& fs[i].handle == h
    &&& forall|j: int| 0 <= j < i ==> fs[j].handle != h
}

/// Where the child registered under `h` stands in `fs`, or -1 when there is none.
pub open spec fn fork_index(fs: Seq<Fork>, h: ForkHandle) -> int {
    if exists|i: int| first_fork(fs, h, i) {
        choose|i: int| first_fork(fs, h, i)
    } else {
        -1
    }
}

pub proof fn lemma_first_fork_unique(fs: Seq<Fork>, h: ForkHandle, i: int)
    requires
        first_fork(fs, h, i),
    ensures
        fork_index(fs, h) == i,
{
    let k = choose|k: int| first_fork(fs, h, k);
    if k < i {
        assert(fs[k].handle != h);
    } else if i < k {
        assert(fs[i].handle != h);
    }
}

/// The handles `0, 1, ..., n - 1` that a counter issues first.
pub open spec fn first_handles(n: nat) -> Seq<ForkHandle> {
    Seq::new(n, |i: int| i as ForkHandle)
}

impl Channel {
    pub fn new() -> (c: Channel)
        ensures
            c.items@.len() == 0,
            c.forks@.len() == 0,
    {
        Channel { items: Vec::new(), forks: Vec::new() }
    }

    /// Appends one item to this conversation.
    pub fn send(&mut self, item: Item)
        ensures
            final(self).items@ == old(self).items@.push(item),
            final(self).forks@ == old(self).forks@,
    {
        self.items.push(item);
    }

    /// Looks up the child registered under `h`: the first one, if any.
    pub fn find_fork(&self, h: ForkHandle) -> (r: Option<usize>)
        ensures
            match r {
                Some(i) => first_fork(self.forks@, h, i as int),
                None => fork_index(self.forks@, h) == -1,
            },
    {
        let mut i: usize = 0;
        while i < self.forks.len()
            invariant
                0 <= i <= self.forks@.len(),
                forall|j: int| 0 <= j < i ==> self.forks@[j].handle != h,
            decreases self.forks@.len() - i,
        {
            if self.forks[i].handle == h {
                return Some(i);
            }
            i = i + 1;
        }
        assert(!exists|k: int| first_fork(self.forks@, h, k));
        None
    }
}

} // verus!
