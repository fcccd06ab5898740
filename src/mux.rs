use vstd::prelude::*;

use crate::handle::ForkHandle;
use crate::kind::{encodes, lemma_encodes_all};
use crate::value::Val;
use crate::wire::{first_fork, fork_index, lemma_first_fork_unique, Channel, Fork, Item};

verus! {

/// One item on the shared stream, with the route of handles from the top-level
/// conversation down to the conversation it belongs to.
#[derive(Debug, PartialEq, Eq)]
pub struct Envelope {
    pub route: Vec<ForkHandle>,
    pub item: Item,
}

/// A routed item, as a mathematical value.
pub type Routed = (Seq<ForkHandle>, Item);

pub open spec fn routed(es: Seq<Envelope>) -> Seq<Routed> {
    es.map_values(|e: Envelope| (e.route@, e.item))
}

/// Each routed item of `es`, with `r` put in front of its route.
pub open spec fn prefixed(r: Seq<ForkHandle>, es: Seq<Routed>) -> Seq<Routed> {
    es.map_values(|e: Routed| (r + e.0, e.1))
}

/// A conversation's own items, routed to it.
pub open spec fn own_stream(items: Seq<Item>) -> Seq<Routed> {
    items.map_values(|it: Item| (Seq::<ForkHandle>::empty(), it))
}

/// The stream a conversation puts on the shared transport: its own items, then the
/// streams of its forks in registration order, each routed through the fork's handle.
pub open spec fn flatten(c: Channel) -> Seq<Routed>
    decreases c,
{
    own_stream(c.items@) + flatten_forks(c.forks@)
}

pub open spec fn flatten_forks(fs: Seq<Fork>) -> Seq<Routed>
    decreases fs,
{
    if fs.len() == 0 {
        Seq::empty()
    } else {
        flatten_forks(fs.drop_last()) + prefixed(seq![fs.last().handle], flatten(fs.last().channel))
    }
}

/// The items of `es` addressed to the conversation at route `r`, in stream order.
pub open spec fn addressed(es: Seq<Routed>, r: Seq<ForkHandle>) -> Seq<Item>
    decreases es.len(),
{
    if es.len() == 0 {
        Seq::empty()
    } else if es.last().0 == r {
        addressed(es.drop_last(), r).push(es.last().1)
    } else {
        addressed(es.drop_last(), r)
    }
}

/// The routed items of `es` that are not addressed to route `r`, in stream order.
pub open spec fn others(es: Seq<Routed>, r: Seq<ForkHandle>) -> Seq<Routed>
    decreases es.len(),
{
    if es.len() == 0 {
        Seq::empty()
    } else if es.last().0 == r {
        others(es.drop_last(), r)
    } else {
        others(es.drop_last(), r).push(es.last())
    }
}

pub proof fn lemma_addressed_concat(a: Seq<Routed>, b: Seq<Routed>, r: Seq<ForkHandle>)
    ensures
        addressed(a + b, r) == addressed(a, r) + addressed(b, r),
    decreases b.len(),
{
    if b.len() == 0 {
        assert(a + b =~= a);
        assert(addressed(a, r) + addressed(b, r) =~= addressed(a, r));
    } else {
        assert((a + b).drop_last() =~= a + b.drop_last());
        assert((a + b).last() == b.last());
        lemma_addressed_concat(a, b.drop_last(), r);
        if b.last().0 == r {
            assert(addressed(a, r) + addressed(b.drop_last(), r).push(b.last().1) =~= (addressed(
                a,
                r,
            ) + addressed(b.drop_last(), r)).push(b.last().1));
        }
    }
}

/// Items routed under the handle `h` are addressed to a route only through `h`.
pub proof fn lemma_addressed_prefixed(h: ForkHandle, es: Seq<Routed>, r: Seq<ForkHandle>)
    ensures
        addressed(prefixed(seq![h], es), r) == if r.len() > 0 && r[0] == h {
            addressed(es, r.drop_first())
        } else {
            Seq::<Item>::empty()
        },
    decreases es.len(),
{
    let p = prefixed(seq![h], es);
    if es.len() > 0 {
        assert(p.drop_last() =~= prefixed(seq![h], es.drop_last()));
        lemma_addressed_prefixed(h, es.drop_last(), r);
        let e = es.last();
        assert(p.last() == (seq![h] + e.0, e.1));
        if r.len() > 0 && r[0] == h {
            if e.0 == r.drop_first() {
                assert(seq![h] + e.0 =~= r);
            } else {
                assert(seq![h] + e.0 != r) by {
                    if seq![h] + e.0 == r {
                        assert((seq![h] + e.0).drop_first() =~= e.0);
                    }
                }
            }
        } else {
            assert(seq![h] + e.0 != r) by {
                if seq![h] + e.0 == r {
                    assert((seq![h] + e.0)[0] == h);
                }
            }
        }
    }
}

/// Own items are routed to the empty route only.
pub proof fn lemma_addressed_own(items: Seq<Item>, r: Seq<ForkHandle>)
    ensures
        addressed(own_stream(items), r) == if r.len() == 0 {
            items
        } else {
            Seq::<Item>::empty()
        },
    decreases items.len(),
{
    let es = own_stream(items);
    if items.len() > 0 {
        let rest = items.drop_last();
        assert(es.drop_last() =~= own_stream(rest));
        lemma_addressed_own(rest, r);
        assert(es.last().0 =~= Seq::<ForkHandle>::empty());
        if r.len() == 0 {
            assert(r =~= Seq::<ForkHandle>::empty());
            assert(rest.push(items.last()) =~= items);
        }
    } else {
        assert(es.len() == 0);
    }
}

/// The handles under which the forks of `fs` are registered, in order.
pub open spec fn handles_of(fs: Seq<Fork>) -> Seq<ForkHandle> {
    fs.map_values(|f: Fork| f.handle)
}

proof fn lemma_fork_index_drop_last(fs: Seq<Fork>, h: ForkHandle)
    requires
        fs.len() > 0,
        handles_of(fs).no_duplicates(),
    ensures
        handles_of(fs.drop_last()).no_duplicates(),
        fs.last().handle == h ==> fork_index(fs, h) == fs.len() - 1 && fork_index(fs.drop_last(), h)
            == -1,
        fs.last().handle != h ==> fork_index(fs, h) == fork_index(fs.drop_last(), h),
{
    let k = fs.len() - 1;
    let d = fs.drop_last();
    assert forall|i: int, j: int|
        0 <= i < handles_of(d).len() && 0 <= j < handles_of(d).len() && i != j implies handles_of(
        d,
    )[i] != handles_of(d)[j] by {
        assert(handles_of(fs)[i] != handles_of(fs)[j]);
    }
    if fs.last().handle == h {
        assert forall|j: int| 0 <= j < k implies fs[j].handle != h by {
            assert(handles_of(fs)[j] != handles_of(fs)[k]);
        }
        lemma_first_fork_unique(fs, h, k);
        assert(!exists|i: int| first_fork(d, h, i)) by {
            if exists|i: int| first_fork(d, h, i) {
                let i = choose|i: int| first_fork(d, h, i);
                assert(fs[i].handle == h);
            }
        }
    } else {
        if exists|i: int| first_fork(d, h, i) {
            let i = choose|i: int| first_fork(d, h, i);
            assert(fs[i] == d[i]);
            assert forall|j: int| 0 <= j < i implies fs[j].handle != h by {
                assert(fs[j] == d[j]);
            }
            assert(first_fork(fs, h, i));
            lemma_first_fork_unique(fs, h, i);
            lemma_first_fork_unique(d, h, i);
        } else {
            assert(!exists|i: int| first_fork(fs, h, i)) by {
                if exists|i: int| first_fork(fs, h, i) {
                    let i = choose|i: int| first_fork(fs, h, i);
                    assert(i != k);
                    assert(first_fork(d, h, i));
                }
            }
        }
    }
}

proof fn lemma_addressed_forks(fs: Seq<Fork>, h: ForkHandle, r: Seq<ForkHandle>)
    requires
        handles_of(fs).no_duplicates(),
    ensures
        addressed(flatten_forks(fs), Seq::<ForkHandle>::empty()) == Seq::<Item>::empty(),
        fork_index(fs, h) >= 0 ==> addressed(flatten_forks(fs), seq![h] + r) == addressed(
            flatten(fs[fork_index(fs, h)].channel),
            r,
        ),
        fork_index(fs, h) < 0 ==> addressed(flatten_forks(fs), seq![h] + r) == Seq::<Item>::empty(),
    decreases fs.len(),
{
    let route = seq![h] + r;
    if fs.len() == 0 {
        assert(!exists|i: int| first_fork(fs, h, i));
    } else {
        let d = fs.drop_last();
        let f = fs.last();
        lemma_fork_index_drop_last(fs, h);
        lemma_addressed_forks(d, h, r);
        let tail = prefixed(seq![f.handle], flatten(f.channel));
        lemma_addressed_concat(flatten_forks(d), tail, route);
        lemma_addressed_concat(flatten_forks(d), tail, Seq::<ForkHandle>::empty());
        lemma_addressed_prefixed(f.handle, flatten(f.channel), route);
        lemma_addressed_prefixed(f.handle, flatten(f.channel), Seq::<ForkHandle>::empty());
        assert(route[0] == h);
        assert(route.drop_first() =~= r);
        assert(Seq::<Item>::empty() + Seq::<Item>::empty() =~= Seq::<Item>::empty());
        let got = addressed(flatten(f.channel), r);
        assert(Seq::<Item>::empty() + got =~= got);
        if fork_index(d, h) >= 0 {
            assert(addressed(flatten_forks(d), route) + Seq::<Item>::empty() =~= addressed(
                flatten_forks(d),
                route,
            ));
            assert(fs[fork_index(d, h)] == d[fork_index(d, h)]);
        }
    }
}

/// Demultiplexing: on the stream a conversation puts on the transport, the items routed to
/// the conversation itself are exactly its own items, in send order; those routed through
/// a handle are exactly the stream of the child registered under it, and none when no
/// child is.
pub proof fn lemma_demux(c: Channel, h: ForkHandle, r: Seq<ForkHandle>)
    requires
        handles_of(c.forks@).no_duplicates(),
    ensures
        addressed(flatten(c), Seq::<ForkHandle>::empty()) == c.items@,
        fork_index(c.forks@, h) >= 0 ==> addressed(flatten(c), seq![h] + r) == addressed(
            flatten(c.forks@[fork_index(c.forks@, h)].channel),
            r,
        ),
        fork_index(c.forks@, h) < 0 ==> addressed(flatten(c), seq![h] + r)
            == Seq::<Item>::empty(),
{
    let own = own_stream(c.items@);
    let route = seq![h] + r;
    lemma_addressed_forks(c.forks@, h, r);
    lemma_addressed_concat(own, flatten_forks(c.forks@), route);
    lemma_addressed_concat(own, flatten_forks(c.forks@), Seq::<ForkHandle>::empty());
    lemma_addressed_own(c.items@, route);
    lemma_addressed_own(c.items@, Seq::<ForkHandle>::empty());
    assert(c.items@ + Seq::<Item>::empty() =~= c.items@);
    let tail = addressed(flatten_forks(c.forks@), route);
    assert(Seq::<Item>::empty() + tail =~= tail);
}

/// The wire form of any value registers its forks under pairwise distinct handles, so the
/// demultiplexing law applies to every deconstructed conversation.
pub proof fn lemma_encoded_handles_distinct(c: Channel, v: Val)
    requires
        encodes(c, v),
    ensures
        handles_of(c.forks@).no_duplicates(),
{
    if let Val::Arr(vs) = v {
        if vs.len() > 0 {
            lemma_encodes_all(c.forks@, vs);
            assert forall|i: int, j: int|
                0 <= i < handles_of(c.forks@).len() && 0 <= j < handles_of(c.forks@).len() && i
                    != j implies handles_of(c.forks@)[i] != handles_of(c.forks@)[j] by {
                assert(c.forks@[i].handle == i);
                assert(c.forks@[j].handle == j);
            }
        }
    }
}

proof fn lemma_prefixed_concat(r: Seq<ForkHandle>, a: Seq<Routed>, b: Seq<Routed>)
    ensures
        prefixed(r, a + b) == prefixed(r, a) + prefixed(r, b),
{
    assert(prefixed(r, a + b) =~= prefixed(r, a) + prefixed(r, b));
}

proof fn lemma_prefixed_nested(r: Seq<ForkHandle>, h: ForkHandle, es: Seq<Routed>)
    ensures
        prefixed(r, prefixed(seq![h], es)) == prefixed(r.push(h), es),
{
    assert forall|i: int| 0 <= i < es.len() implies r + (seq![h] + es[i].0) =~= r.push(h)
        + es[i].0 by {}
    assert(prefixed(r, prefixed(seq![h], es)) =~= prefixed(r.push(h), es));
}

/// A copy of a route.
fn copy_route(r: &Vec<ForkHandle>) -> (c: Vec<ForkHandle>)
    ensures
        c@ == r@,
{
    let mut c: Vec<ForkHandle> = Vec::new();
    let mut i: usize = 0;
    while i < r.len()
        invariant
            0 <= i <= r@.len(),
            c@ == r@.take(i as int),
        decreases r@.len() - i,
    {
        c.push(r[i]);
        i = i + 1;
        assert(c@ =~= r@.take(i as int));
    }
    assert(r@.take(i as int) =~= r@);
    c
}

/// Appends to `out` the stream of `c`, every route prefixed by `route`.
fn mux_into(c: Channel, route: &Vec<ForkHandle>, out: &mut Vec<Envelope>)
    ensures
        routed(final(out)@) == routed(old(out)@) + prefixed(route@, flatten(c)),
    decreases c,
{
    let ghost c0 = c;
    let ghost base = routed(out@);
    let Channel { items, forks } = c;
    let ghost orig_items = items@;
    let ghost orig_forks = forks@;
    let mut items = items;
    let n = items.len();
    let mut k: usize = 0;
    while items.len() > 0
        invariant
            orig_items == c0.items@,
            orig_items.len() == n,
            k <= orig_items.len(),
            items@ == orig_items.skip(k as int),
            routed(out@) == base + prefixed(route@, own_stream(orig_items.take(k as int))),
        decreases items@.len(),
    {
        let ghost before = routed(out@);
        let item = items.remove(0);
        let r = copy_route(route);
        out.push(Envelope { route: r, item });
        proof {
            assert(item == orig_items[k as int]);
            assert(routed(out@) =~= before.push((route@, item)));
            assert(prefixed(route@, own_stream(orig_items.take(k + 1))) =~= prefixed(
                route@,
                own_stream(orig_items.take(k as int)),
            ).push((route@, item))) by {
                assert(route@ + Seq::<ForkHandle>::empty() =~= route@);
            }
        }
        k = k + 1;
        assert(items@ =~= orig_items.skip(k as int));
    }
    assert(orig_items.take(k as int) =~= orig_items);
    let ghost after_items = routed(out@);
    let mut forks = forks;
    let m = forks.len();
    let mut j: usize = 0;
    proof {
        assert forall|i: int| 0 <= i < forks@.len() implies decreases_to!(c0 => (#[trigger] forks@[i]).channel) by {
            vstd::std_specs::vec::axiom_vec_index_decreases(c0.forks, i);
        }
    }
    while forks.len() > 0
        invariant
            c0 == c,
            orig_forks == c0.forks@,
            orig_forks.len() == m,
            j <= orig_forks.len(),
            forks@ == orig_forks.skip(j as int),
            forall|i: int| 0 <= i < forks@.len() ==> decreases_to!(c0 => (#[trigger] forks@[i]).channel),
            routed(out@) == after_items + prefixed(route@, flatten_forks(orig_forks.take(j as int))),
        decreases forks@.len(),
    {
        let ghost before = routed(out@);
        let ghost rest = forks@;
        let f = forks.remove(0);
        proof {
            assert(f == orig_forks[j as int]);
            assert(f == rest[0]);
            assert forall|i: int| 0 <= i < forks@.len() implies decreases_to!(c0 => (#[trigger] forks@[i]).channel) by {
                assert(forks@[i] == rest[i + 1]);
            }
        }
        let Fork { handle, channel } = f;
        assert(decreases_to!(c0 => channel));
        let mut sub = copy_route(route);
        sub.push(handle);
        mux_into(channel, &sub, out);
        proof {
            let t = orig_forks.take(j + 1);
            assert(t.drop_last() =~= orig_forks.take(j as int));
            assert(t.last() == f);
            lemma_prefixed_concat(
                route@,
                flatten_forks(orig_forks.take(j as int)),
                prefixed(seq![handle], flatten(channel)),
            );
            lemma_prefixed_nested(route@, handle, flatten(channel));
            assert(sub@ == route@.push(handle));
        }
        j = j + 1;
        assert(forks@ =~= orig_forks.skip(j as int));
    }
    proof {
        assert(orig_forks.take(j as int) =~= orig_forks);
        lemma_prefixed_concat(route@, own_stream(orig_items), flatten_forks(orig_forks));
    }
}

fn same_route(a: &Vec<ForkHandle>, b: &Vec<ForkHandle>) -> (r: bool)
    ensures
        r == (a@ == b@),
{
    if a.len() != b.len() {
        return false;
    }
    let mut i: usize = 0;
    while i < a.len()
        invariant
            a@.len() == b@.len(),
            0 <= i <= a@.len(),
            forall|j: int| 0 <= j < i ==> a@[j] == b@[j],
        decreases a@.len() - i,
    {
        if a[i] != b[i] {
            return false;
        }
        i = i + 1;
    }
    assert(a@ =~= b@);
    true
}

/// Takes off the stream `es` the items addressed to the conversation at `route`, in
/// stream order; the rest of the stream stays, in its order.
pub fn split_route(es: Vec<Envelope>, route: &Vec<ForkHandle>) -> (r: (Vec<Item>, Vec<Envelope>))
    ensures
        r.0@ == addressed(routed(es@), route@),
        routed(r.1@) == others(routed(es@), route@),
{
    let ghost orig = es@;
    let mut es = es;
    let n = es.len();
    let mut mine: Vec<Item> = Vec::new();
    let mut rest: Vec<Envelope> = Vec::new();
    let mut k: usize = 0;
    while es.len() > 0
        invariant
            orig.len() == n,
            k <= n,
            es@ == orig.skip(k as int),
            mine@ == addressed(routed(orig.take(k as int)), route@),
            routed(rest@) == others(routed(orig.take(k as int)), route@),
        decreases es@.len(),
    {
        let e = es.remove(0);
        proof {
            assert(e == orig[k as int]);
            let t = routed(orig.take(k + 1));
            assert(t.drop_last() =~= routed(orig.take(k as int)));
            assert(t.last() == (e.route@, e.item));
        }
        let Envelope { route: er, item } = e;
        if same_route(&er, route) {
            mine.push(item);
        } else {
            let ghost before = routed(rest@);
            rest.push(Envelope { route: er, item });
            assert(routed(rest@) =~= before.push((er@, item)));
        }
        k = k + 1;
        assert(es@ =~= orig.skip(k as int));
    }
    assert(orig.take(k as int) =~= orig);
    (mine, rest)
}

/// Puts the conversation `c`, with all its forks, on one stream: every item once, routed
/// to the conversation it was sent on.
pub fn mux(c: Channel) -> (r: Vec<Envelope>)
    ensures
        routed(r@) == flatten(c),
{
    let mut out: Vec<Envelope> = Vec::new();
    let root: Vec<ForkHandle> = Vec::new();
    mux_into(c, &root, &mut out);
    proof {
        assert(routed(out@) =~= prefixed(Seq::empty(), flatten(c))) by {
            assert forall|i: int| 0 <= i < flatten(c).len() implies Seq::<ForkHandle>::empty()
                + flatten(c)[i].0 =~= flatten(c)[i].0 by {}
        }
        assert(prefixed(Seq::empty(), flatten(c)) =~= flatten(c)) by {
            assert forall|i: int| 0 <= i < flatten(c).len() implies Seq::<ForkHandle>::empty()
                + flatten(c)[i].0 =~= flatten(c)[i].0 by {}
        }
    }
    out
}

} // verus!
