use vstd::prelude::*;

use crate::handle::{ForkHandle, Registry};
use crate::value::{all_have_shape, has_shape, lemma_all_have_shape, views, Shape, Val, Value};
use crate::wire::{
    first_fork, first_handles, fork_index, lemma_first_fork_unique, Channel, Fork, Item, KResult,
};

verus! {

/// Why a value could not be rebuilt from its channel.
#[derive(Debug, PartialEq, Eq)]
pub enum ConstructError {
    /// The channel ended before the Kind had read the items it needs.
    Insufficient { got: usize, expected: usize },
    /// A fixed-size array received a handle list of another length.
    Arity { expected: usize, got: usize },
    /// The item read is not one this Kind accepts.
    Unexpected,
    /// A handle names no child registered on the channel.
    Unresolved(ForkHandle),
    /// The nested value carried by the fork `handle` could not be rebuilt.
    Inner { handle: ForkHandle, cause: Box<ConstructError> },
}

/// The error of a Kind that reads one item from a channel that carries none.
pub open spec fn missing_item() -> ConstructError {
    ConstructError::Insufficient { got: 0, expected: 1 }
}

/// `c` is the wire form of `v`: the items sent for it, and one child per nested value,
/// registered under the handles a fresh counter issues, in order.
pub open spec fn encodes(c: Channel, v: Val) -> bool
    decreases v,
{
    match v {
        Val::Unit => c.items@.len() == 0 && c.forks@.len() == 0,
        Val::Bool(b) => c.items@ == seq![Item::Bool(b)] && c.forks@.len() == 0,
        Val::U32(x) => c.items@ == seq![Item::U32(x)] && c.forks@.len() == 0,
        Val::U64(x) => c.items@ == seq![Item::U64(x)] && c.forks@.len() == 0,
        Val::Opt(None) => c.items@ == seq![Item::Present(None)] && c.forks@.len() == 0,
        Val::Opt(Some(b)) => {
            &&& c.items@ == seq![Item::Present(Some(0))]
            &&& c.forks@.len() == 1
            &&& c.forks@[0].handle == 0
            &&& encodes(c.forks@[0].channel, *b)
        },
        Val::Success(b) => {
            &&& c.items@ == seq![Item::Tagged(KResult::Success(0))]
            &&& c.forks@.len() == 1
            &&& c.forks@[0].handle == 0
            &&& encodes(c.forks@[0].channel, *b)
        },
        Val::Failure(b) => {
            &&& c.items@ == seq![Item::Tagged(KResult::Failure(0))]
            &&& c.forks@.len() == 1
            &&& c.forks@[0].handle == 0
            &&& encodes(c.forks@[0].channel, *b)
        },
        Val::Arr(vs) => if vs.len() == 0 {
            c.items@.len() == 0 && c.forks@.len() == 0
        } else {
            &&& c.items@.len() == 1
            &&& c.items@[0] is Handles
            &&& c.items@[0]->Handles_0@ == first_handles(vs.len())
            &&& c.forks@.len() == vs.len()
            &&& encodes_all(c.forks@, vs)
        },
    }
}

/// The `i`-th fork of `fs` is registered under handle `i` and carries the wire form of
/// the `i`-th value of `vs`.
pub open spec fn encodes_all(fs: Seq<Fork>, vs: Seq<Val>) -> bool
    decreases vs,
{
    if vs.len() == 0 {
        fs.len() == 0
    } else {
        &&& fs.len() == vs.len()
        &&& encodes_all(fs.drop_last(), vs.drop_last())
        &&& fs.last().handle == vs.len() - 1
        &&& encodes(fs.last().channel, vs.last())
    }
}

pub proof fn lemma_encodes_all(fs: Seq<Fork>, vs: Seq<Val>)
    ensures
        encodes_all(fs, vs) <==> {
            &&& fs.len() == vs.len()
            &&& forall|i: int| 0 <= i < vs.len() ==> (#[trigger] fs[i]).handle == i
            &&& forall|i: int| 0 <= i < vs.len() ==> #[trigger] encodes(fs[i].channel, vs[i])
        },
    decreases vs.len(),
{
    if vs.len() > 0 && fs.len() == vs.len() {
        lemma_encodes_all(fs.drop_last(), vs.drop_last());
        let k = vs.len() - 1;
        if forall|i: int| 0 <= i < vs.len() ==> #[trigger] encodes(fs[i].channel, vs[i]) {
            assert forall|i: int| 0 <= i < k implies #[trigger] encodes(
                fs.drop_last()[i].channel,
                vs.drop_last()[i],
            ) by {
                assert(encodes(fs[i].channel, vs[i]));
            }
        }
        if forall|i: int| 0 <= i < vs.len() ==> (#[trigger] fs[i]).handle == i {
            assert forall|i: int| 0 <= i < k implies (#[trigger] fs.drop_last()[i]).handle == i by {
                assert(fs[i].handle == i);
            }
            if forall|i: int| 0 <= i < vs.len() ==> #[trigger] encodes(fs[i].channel, vs[i]) {
                assert(encodes(fs[k].channel, vs[k]));
                assert(fs[k].handle == k);
                assert(fs.last() == fs[k]);
                assert(vs.last() == vs[k]);
                assert(encodes_all(fs, vs));
            }
        }
        if encodes_all(fs, vs) {
            assert forall|i: int| 0 <= i < vs.len() implies (#[trigger] fs[i]).handle == i by {
                if i < k {
                    assert(fs.drop_last()[i] == fs[i]);
                    assert(fs.drop_last()[i].handle == i);
                }
            }
            assert forall|i: int| 0 <= i < vs.len() implies #[trigger] encodes(fs[i].channel, vs[i]) by {
                if i < k {
                    assert(fs.drop_last()[i] == fs[i]);
                    assert(vs.drop_last()[i] == vs[i]);
                    assert(encodes(fs.drop_last()[i].channel, vs.drop_last()[i]));
                }
            }
        }
    }
}

/// What rebuilding a value of Kind `s` from the conversation `c` gives.
pub open spec fn decode(s: Shape, c: Channel) -> Result<Val, ConstructError>
    decreases s, 0nat,
{
    match s {
        Shape::Unit => Ok(Val::Unit),
        Shape::Array(n, e) => if n == 0 {
            Ok(Val::Arr(Seq::empty()))
        } else if c.items@.len() == 0 {
            Err(missing_item())
        } else {
            match c.items@[0] {
                Item::Handles(hs) => if hs@.len() != n {
                    Err(ConstructError::Arity { expected: n, got: hs@.len() as usize })
                } else {
                    match resolve_all(*e, c, hs@) {
                        Ok(vs) => Ok(Val::Arr(vs)),
                        Err(x) => Err(x),
                    }
                },
                _ => Err(ConstructError::Unexpected),
            }
        },
        _ => if c.items@.len() == 0 {
            Err(missing_item())
        } else {
            match (s, c.items@[0]) {
                (Shape::Bool, Item::Bool(b)) => Ok(Val::Bool(b)),
                (Shape::U32, Item::U32(x)) => Ok(Val::U32(x)),
                (Shape::U64, Item::U64(x)) => Ok(Val::U64(x)),
                (Shape::Opt(_), Item::Present(None)) => Ok(Val::Opt(None)),
                (Shape::Opt(t), Item::Present(Some(h))) => match resolve(*t, c, h) {
                    Ok(x) => Ok(Val::Opt(Some(Box::new(x)))),
                    Err(x) => Err(x),
                },
                (Shape::Res(t, _), Item::Tagged(KResult::Success(h))) => match resolve(*t, c, h) {
                    Ok(x) => Ok(Val::Success(Box::new(x))),
                    Err(x) => Err(x),
                },
                (Shape::Res(_, f), Item::Tagged(KResult::Failure(h))) => match resolve(*f, c, h) {
                    Ok(x) => Ok(Val::Failure(Box::new(x))),
                    Err(x) => Err(x),
                },
                _ => Err(ConstructError::Unexpected),
            }
        },
    }
}

/// What rebuilding a value of Kind `s` from the child registered under `h` on `c` gives.
pub open spec fn resolve(s: Shape, c: Channel, h: ForkHandle) -> Result<Val, ConstructError>
    decreases s, 1nat,
{
    let i = fork_index(c.forks@, h);
    if i < 0 {
        Err(ConstructError::Unresolved(h))
    } else {
        match decode(s, c.forks@[i].channel) {
            Ok(x) => Ok(x),
            Err(x) => Err(ConstructError::Inner { handle: h, cause: Box::new(x) }),
        }
    }
}

/// Resolves each handle of `hs` in turn; the first failure is the result.
pub open spec fn resolve_all(s: Shape, c: Channel, hs: Seq<ForkHandle>) -> Result<
    Seq<Val>,
    ConstructError,
>
    decreases s, hs.len() + 2,
{
    if hs.len() == 0 {
        Ok(Seq::empty())
    } else {
        match resolve_all(s, c, hs.drop_last()) {
            Err(x) => Err(x),
            Ok(vs) => match resolve(s, c, hs.last()) {
                Ok(x) => Ok(vs.push(x)),
                Err(x) => Err(x),
            },
        }
    }
}

/// The models of a sequence of values stand position by position.
pub proof fn lemma_views(vs: Seq<Value>)
    ensures
        views(vs).len() == vs.len(),
        forall|i: int| 0 <= i < vs.len() ==> #[trigger] views(vs)[i] == vs[i].view(),
    decreases vs.len(),
{
    if vs.len() > 0 {
        lemma_views(vs.drop_last());
    }
}

/// Resolving a list of handles one by one gives, in order, what each handle resolves to.
pub proof fn lemma_resolve_all(s: Shape, c: Channel, hs: Seq<ForkHandle>, vals: Seq<Val>)
    requires
        hs.len() == vals.len(),
        forall|i: int| 0 <= i < hs.len() ==> resolve(s, c, #[trigger] hs[i]) == Ok::<
            Val,
            ConstructError,
        >(vals[i]),
    ensures
        resolve_all(s, c, hs) == Ok::<Seq<Val>, ConstructError>(vals),
    decreases hs.len(),
{
    if hs.len() == 0 {
        assert(vals =~= Seq::<Val>::empty());
    } else {
        let k = hs.len() - 1;
        assert(resolve(s, c, hs[k]) == Ok::<Val, ConstructError>(vals[k]));
        assert forall|i: int| 0 <= i < k implies resolve(s, c, #[trigger] hs.drop_last()[i])
            == Ok::<Val, ConstructError>(vals.drop_last()[i]) by {
            assert(hs.drop_last()[i] == hs[i]);
        }
        lemma_resolve_all(s, c, hs.drop_last(), vals.drop_last());
        assert(vals.drop_last().push(vals.last()) =~= vals);
    }
}

/// Round trip: rebuilding, as the Kind `s`, a value of that Kind from its own wire form
/// gives the value back.
pub proof fn lemma_round_trip(v: Val, s: Shape, c: Channel)
    requires
        has_shape(v, s),
        encodes(c, v),
    ensures
        decode(s, c) == Ok::<Val, ConstructError>(v),
    decreases v,
{
    match v {
        Val::Opt(Some(b)) => {
            lemma_first_fork_unique(c.forks@, 0, 0);
            lemma_round_trip(*b, *s->Opt_0, c.forks@[0].channel);
        },
        Val::Success(b) => {
            lemma_first_fork_unique(c.forks@, 0, 0);
            lemma_round_trip(*b, *s->Res_0, c.forks@[0].channel);
        },
        Val::Failure(b) => {
            lemma_first_fork_unique(c.forks@, 0, 0);
            lemma_round_trip(*b, *s->Res_1, c.forks@[0].channel);
        },
        Val::Arr(vs) => {
            let e = *s->Array_1;
            if vs.len() == 0 {
                assert(vs =~= Seq::<Val>::empty());
            } else {
                let hs = c.items@[0]->Handles_0@;
                assert(s is Array);
                lemma_all_have_shape(vs, e);
                lemma_encodes_all(c.forks@, vs);
                assert(forall|i: int| 0 <= i < vs.len() ==> #[trigger] has_shape(vs[i], e));
                assert(forall|i: int|
                    0 <= i < vs.len() ==> #[trigger] encodes(c.forks@[i].channel, vs[i]));
                assert forall|i: int| 0 <= i < hs.len() implies resolve(e, c, #[trigger] hs[i])
                    == Ok::<Val, ConstructError>(vs[i]) by {
                    assert(hs[i] == i);
                    assert(c.forks@[i].handle == i);
                    assert forall|j: int| 0 <= j < i implies c.forks@[j].handle != hs[i] by {
                        assert(c.forks@[j].handle == j);
                    }
                    lemma_first_fork_unique(c.forks@, hs[i], i);
                    assert(has_shape(vs[i], e));
                    assert(encodes(c.forks@[i].channel, vs[i]));
                    lemma_round_trip(vs[i], e, c.forks@[i].channel);
                }
                lemma_resolve_all(e, c, hs, vs);
            }
        },
        _ => {},
    }
}

/// Arity enforcement: a fixed array of length `n` rebuilt from a handle list of another
/// length fails with an arity error naming both lengths, and yields no value.
pub proof fn lemma_arity_mismatch(n: usize, e: Shape, c: Channel)
    requires
        n > 0,
        c.items@.len() > 0,
        c.items@[0] is Handles,
        c.items@[0]->Handles_0@.len() != n,
    ensures
        decode(Shape::Array(n, Box::new(e)), c) == Err::<Val, ConstructError>(
            ConstructError::Arity { expected: n, got: c.items@[0]->Handles_0@.len() as usize },
        ),
{
}

/// Absence is explicit: an `Option` rebuilt from a conversation that carries no item fails
/// for want of items rather than giving `None`.
pub proof fn lemma_absent_item(t: Shape, c: Channel)
    requires
        c.items@.len() == 0,
    ensures
        decode(Shape::Opt(Box::new(t)), c) == Err::<Val, ConstructError>(missing_item()),
{
}

/// Sum-type dispatch: a `Result` whose tag says failure resolves its payload with the
/// failure Kind `f`, never the success Kind, and yields the failure branch.
pub proof fn lemma_failure_dispatch(t: Shape, f: Shape, c: Channel, h: ForkHandle)
    requires
        c.items@.len() > 0,
        c.items@[0] == Item::Tagged(KResult::Failure(h)),
    ensures
        decode(Shape::Res(Box::new(t), Box::new(f)), c) == match resolve(f, c, h) {
            Ok(x) => Ok(Val::Failure(Box::new(x))),
            Err(x) => Err(x),
        },
{
}

/// Handle uniqueness: the forks of an array's elements get pairwise distinct handles, and
/// each handle resolves to the child of the element at the same position.
pub proof fn lemma_fork_handles_distinct(c: Channel, vs: Seq<Val>)
    requires
        vs.len() > 0,
        encodes(c, Val::Arr(vs)),
    ensures
        c.items@[0]->Handles_0@.no_duplicates(),
        forall|i: int|
            0 <= i < vs.len() ==> fork_index(c.forks@, #[trigger] c.items@[0]->Handles_0@[i]) == i,
        forall|i: int| 0 <= i < vs.len() ==> #[trigger] encodes(c.forks@[i].channel, vs[i]),
{
    let hs = c.items@[0]->Handles_0@;
    lemma_encodes_all(c.forks@, vs);
    assert forall|i: int| 0 <= i < vs.len() implies fork_index(c.forks@, #[trigger] hs[i]) == i by {
        assert(hs[i] == i);
        assert(c.forks@[i].handle == i);
        assert forall|j: int| 0 <= j < i implies c.forks@[j].handle != hs[i] by {
            assert(c.forks@[j].handle == j);
        }
        lemma_first_fork_unique(c.forks@, hs[i], i);
    }
    assert forall|i: int, j: int| 0 <= i < hs.len() && 0 <= j < hs.len() && i != j implies hs[i]
        != hs[j] by {
        assert(hs[i] == i);
        assert(hs[j] == j);
    }
}

/// What decoding as the Kind `s` gives is always a value of that Kind.
pub proof fn lemma_decode_has_shape(s: Shape, c: Channel)
    ensures
        decode(s, c) is Ok ==> has_shape(decode(s, c)->Ok_0, s),
    decreases s, 0nat,
{
    match s {
        Shape::Opt(t) => {
            if c.items@.len() > 0 && c.items@[0] is Present && c.items@[0]->Present_0 is Some {
                lemma_resolve_has_shape(*t, c, c.items@[0]->Present_0->Some_0);
            }
        },
        Shape::Res(t, f) => {
            if c.items@.len() > 0 && c.items@[0] is Tagged {
                match c.items@[0]->Tagged_0 {
                    KResult::Success(h) => lemma_resolve_has_shape(*t, c, h),
                    KResult::Failure(h) => lemma_resolve_has_shape(*f, c, h),
                }
            }
        },
        Shape::Array(n, e) => {
            if n == 0 {
                lemma_all_have_shape(Seq::<Val>::empty(), *e);
            } else if c.items@.len() > 0 && c.items@[0] is Handles {
                lemma_resolve_all_has_shape(*e, c, c.items@[0]->Handles_0@);
            }
        },
        _ => {},
    }
}

proof fn lemma_resolve_has_shape(s: Shape, c: Channel, h: ForkHandle)
    ensures
        resolve(s, c, h) is Ok ==> has_shape(resolve(s, c, h)->Ok_0, s),
    decreases s, 1nat,
{
    let i = fork_index(c.forks@, h);
    if i >= 0 {
        lemma_decode_has_shape(s, c.forks@[i].channel);
    }
}

proof fn lemma_resolve_all_has_shape(s: Shape, c: Channel, hs: Seq<ForkHandle>)
    ensures
        resolve_all(s, c, hs) is Ok ==> {
            &&& resolve_all(s, c, hs)->Ok_0.len() == hs.len()
            &&& all_have_shape(resolve_all(s, c, hs)->Ok_0, s)
        },
    decreases s, hs.len() + 2,
{
    if hs.len() > 0 {
        lemma_resolve_all_has_shape(s, c, hs.drop_last());
        lemma_resolve_has_shape(s, c, hs.last());
        if resolve_all(s, c, hs) is Ok {
            let vs = resolve_all(s, c, hs.drop_last())->Ok_0;
            let x = resolve(s, c, hs.last())->Ok_0;
            assert(vs.push(x).drop_last() =~= vs);
        }
    }
}

/// An error found in a prefix of a handle list is the error of the whole list.
pub proof fn lemma_resolve_all_prefix_err(s: Shape, c: Channel, hs: Seq<ForkHandle>, k: int)
    requires
        0 <= k <= hs.len(),
        resolve_all(s, c, hs.take(k)) is Err,
    ensures
        resolve_all(s, c, hs) == resolve_all(s, c, hs.take(k)),
    decreases hs.len() - k,
{
    if k < hs.len() {
        assert(hs.take(k + 1).drop_last() =~= hs.take(k));
        lemma_resolve_all_prefix_err(s, c, hs, k + 1);
    } else {
        assert(hs.take(k) =~= hs);
    }
}

/// The model of a construction's outcome.
pub open spec fn outcome(r: Result<Value, ConstructError>) -> Result<Val, ConstructError> {
    match r {
        Ok(v) => Ok(v@),
        Err(e) => Err(e),
    }
}

/// Forks `v` from `c`: issues the next handle of `reg`, registers under it the child
/// carrying `v`'s wire form, and releases the handle once that child is complete.
pub fn fork(c: &mut Channel, reg: &mut Registry, v: &Value) -> (h: ForkHandle)
    requires
        old(reg).wf(),
        old(reg).next < u64::MAX,
    ensures
        h == old(reg).next,
        final(reg).wf(),
        final(reg).next == old(reg).next + 1,
        forall|g: ForkHandle| final(reg).live@.contains(g) <==> old(reg).live@.contains(g),
        final(c).items@ == old(c).items@,
        final(c).forks@.len() == old(c).forks@.len() + 1,
        final(c).forks@.drop_last() == old(c).forks@,
        final(c).forks@.last().handle == h,
        encodes(final(c).forks@.last().channel, v@),
    decreases v, 1nat,
{
    let h = reg.allocate();
    let ghost issued = reg.live@;
    let child = deconstruct(v);
    c.forks.push(Fork { handle: h, channel: child });
    reg.release(h);
    assert forall|g: ForkHandle| final(reg).live@.contains(g) <==> old(reg).live@.contains(g) by {
        if g != h {
            assert(issued.contains(g) <==> old(reg).live@.contains(g)) by {
                if old(reg).live@.contains(g) {
                    let k = choose|k: int| 0 <= k < old(reg).live@.len() && old(reg).live@[k] == g;
                    assert(issued[k] == g);
                }
                if issued.contains(g) {
                    let k = choose|k: int| 0 <= k < issued.len() && issued[k] == g;
                    assert(k < old(reg).live@.len());
                    assert(old(reg).live@[k] == g);
                }
            }
        }
    }
    assert(final(c).forks@.drop_last() =~= old(c).forks@);
    h
}

/// Deconstructs `v` into a fresh conversation: the items sent for it, and one forked
/// child per nested value.
pub fn deconstruct(v: &Value) -> (c: Channel)
    ensures
        encodes(c, v@),
    decreases v, 0nat,
{
    let mut c = Channel::new();
    let mut reg = Registry::new();
    match v {
        Value::Unit => {},
        Value::Bool(b) => {
            c.send(Item::Bool(*b));
            assert(c.items@ =~= seq![Item::Bool(*b)]);
        },
        Value::U32(x) => {
            c.send(Item::U32(*x));
            assert(c.items@ =~= seq![Item::U32(*x)]);
        },
        Value::U64(x) => {
            c.send(Item::U64(*x));
            assert(c.items@ =~= seq![Item::U64(*x)]);
        },
        Value::Opt(None) => {
            c.send(Item::Present(None));
            assert(c.items@ =~= seq![Item::Present(None)]);
        },
        Value::Opt(Some(b)) => {
            let h = fork(&mut c, &mut reg, b);
            c.send(Item::Present(Some(h)));
            assert(c.items@ =~= seq![Item::Present(Some(0))]);
        },
        Value::Success(b) => {
            let h = fork(&mut c, &mut reg, b);
            c.send(Item::Tagged(KResult::Success(h)));
            assert(c.items@ =~= seq![Item::Tagged(KResult::Success(0))]);
        },
        Value::Failure(b) => {
            let h = fork(&mut c, &mut reg, b);
            c.send(Item::Tagged(KResult::Failure(h)));
            assert(c.items@ =~= seq![Item::Tagged(KResult::Failure(0))]);
        },
        Value::Array(vs) => {
            proof {
                lemma_views(vs@);
                assert(decreases_to!(*v => *vs));
            }
            let n = vs.len();
            let mut handles: Vec<ForkHandle> = Vec::new();
            let mut i: usize = 0;
            while i < n
                invariant
                    *v == Value::Array(*vs),
                    decreases_to!(*v => *vs),
                    n == vs@.len(),
                    0 <= i <= n,
                    reg.wf(),
                    reg.next == i,
                    c.items@.len() == 0,
                    c.forks@.len() == i,
                    handles@ == first_handles(i as nat),
                    forall|j: int| 0 <= j < i ==> (#[trigger] c.forks@[j]).handle == j,
                    forall|j: int| 0 <= j < i ==> #[trigger] encodes(c.forks@[j].channel, views(vs@)[j]),
                    views(vs@).len() == vs@.len(),
                    forall|j: int| 0 <= j < vs@.len() ==> #[trigger] views(vs@)[j] == vs@[j].view(),
                decreases n - i,
            {
                let ghost before = c.forks@;
                proof {
                    vstd::std_specs::vec::axiom_vec_index_decreases(*vs, i as int);
                    assert(decreases_to!(*v => vs[i as int]));
                }
                let h = fork(&mut c, &mut reg, &vs[i]);
                handles.push(h);
                proof {
                    assert forall|j: int| 0 <= j < i implies c.forks@[j] == before[j] by {
                        assert(c.forks@.drop_last()[j] == c.forks@[j]);
                    }
                    assert forall|j: int| 0 <= j <= i implies (#[trigger] c.forks@[j]).handle == j by {
                        if j < i {
                            assert(c.forks@[j] == before[j]);
                        }
                    }
                    assert forall|j: int| 0 <= j <= i implies #[trigger] encodes(
                        c.forks@[j].channel,
                        views(vs@)[j],
                    ) by {
                        if j < i {
                            assert(c.forks@[j] == before[j]);
                        }
                    }
                    assert(c.forks@[i as int] == c.forks@.last());
                }
                i = i + 1;
                assert(handles@ =~= first_handles(i as nat));
            }
            if n > 0 {
                c.send(Item::Handles(handles));
                assert(c.items@.len() == 1);
            }
            proof {
                lemma_encodes_all(c.forks@, views(vs@));
            }
        },
    }
    c
}

/// Rebuilds a value of Kind `s` from the conversation `c`.
pub fn construct(s: &Shape, c: &Channel) -> (r: Result<Value, ConstructError>)
    ensures
        outcome(r) == decode(*s, *c),
    decreases s, 0nat,
{
    if let Shape::Unit = s {
        return Ok(Value::Unit);
    }
    if let Shape::Array(n, _) = s {
        if *n == 0 {
            let r = Ok(Value::Array(Vec::new()));
            assert(views(Seq::<Value>::empty()) =~= Seq::<Val>::empty());
            return r;
        }
    }
    if c.items.len() == 0 {
        return Err(ConstructError::Insufficient { got: 0, expected: 1 });
    }
    match (s, &c.items[0]) {
        (Shape::Bool, Item::Bool(b)) => Ok(Value::Bool(*b)),
        (Shape::U32, Item::U32(x)) => Ok(Value::U32(*x)),
        (Shape::U64, Item::U64(x)) => Ok(Value::U64(*x)),
        (Shape::Opt(_), Item::Present(None)) => Ok(Value::Opt(None)),
        (Shape::Opt(t), Item::Present(Some(h))) => match resolve_fork(t, c, *h) {
            Ok(x) => Ok(Value::Opt(Some(Box::new(x)))),
            Err(x) => Err(x),
        },
        (Shape::Res(t, _), Item::Tagged(KResult::Success(h))) => match resolve_fork(t, c, *h) {
            Ok(x) => Ok(Value::Success(Box::new(x))),
            Err(x) => Err(x),
        },
        (Shape::Res(_, f), Item::Tagged(KResult::Failure(h))) => match resolve_fork(f, c, *h) {
            Ok(x) => Ok(Value::Failure(Box::new(x))),
            Err(x) => Err(x),
        },
        (Shape::Array(n, e), Item::Handles(hs)) => {
            if hs.len() != *n {
                return Err(ConstructError::Arity { expected: *n, got: hs.len() });
            }
            let mut out: Vec<Value> = Vec::new();
            let mut i: usize = 0;
            while i < hs.len()
                invariant
                    *s == Shape::Array(*n, *e),
                    c.items@.len() > 0,
                    c.items@[0] == Item::Handles(*hs),
                    hs@.len() == *n,
                    0 <= i <= hs@.len(),
                    resolve_all(**e, *c, hs@.take(i as int)) == Ok::<Seq<Val>, ConstructError>(
                        views(out@),
                    ),
                decreases hs@.len() - i,
            {
                assert(hs@.take(i + 1).drop_last() =~= hs@.take(i as int));
                assert(hs@.take(i + 1).last() == hs@[i as int]);
                match resolve_fork(e, c, hs[i]) {
                    Ok(x) => {
                        let ghost prev = out@;
                        out.push(x);
                        assert(out@.drop_last() =~= prev);
                    },
                    Err(x) => {
                        proof {
                            lemma_resolve_all_prefix_err(**e, *c, hs@, i + 1);
                        }
                        return Err(x);
                    },
                }
                i = i + 1;
            }
            assert(hs@.take(i as int) =~= hs@);
            Ok(Value::Array(out))
        },
        _ => Err(ConstructError::Unexpected),
    }
}

/// Rebuilds a value of Kind `s` from `c`, then releases every child registered on `c`,
/// whether or not the value could be rebuilt: nothing of its decomposition stays open.
pub fn receive(s: &Shape, c: &mut Channel) -> (r: Result<Value, ConstructError>)
    ensures
        outcome(r) == decode(*s, *old(c)),
        final(c).items@ == old(c).items@,
        final(c).forks@.len() == 0,
{
    let r = construct(s, c);
    c.forks.clear();
    r
}

/// Rebuilds a value of Kind `s` from the child registered under `h` on `c`.
pub fn resolve_fork(s: &Shape, c: &Channel, h: ForkHandle) -> (r: Result<Value, ConstructError>)
    ensures
        outcome(r) == resolve(*s, *c, h),
    decreases s, 1nat,
{
    match c.find_fork(h) {
        None => Err(ConstructError::Unresolved(h)),
        Some(i) => {
            proof {
                lemma_first_fork_unique(c.forks@, h, i as int);
            }
            match construct(s, &c.forks[i].channel) {
                Ok(x) => Ok(x),
                Err(x) => Err(ConstructError::Inner { handle: h, cause: Box::new(x) }),
            }
        },
    }
}

} // verus!
