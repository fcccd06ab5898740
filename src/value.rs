use vstd::prelude::*;

verus! {

/// The type a receiver expects: which Kind to rebuild from a channel.
#[derive(Debug, PartialEq, Eq)]
pub enum Shape {
    Unit,
    Bool,
    U32,
    U64,
    Opt(Box<Shape>),
    Res(Box<Shape>, Box<Shape>),
    Array(usize, Box<Shape>),
}

/// A transportable value.
#[derive(Debug, PartialEq, Eq)]
pub enum Value {
    Unit,
    Bool(bool),
    U32(u32),
    U64(u64),
    Opt(Option<Box<Value>>),
    Success(Box<Value>),
    Failure(Box<Value>),
    Array(Vec<Value>),
}

/// Mathematical model of a [`Value`].
pub enum Val {
    Unit,
    Bool(bool),
    U32(u32),
    U64(u64),
    Opt(Option<Box<Val>>),
    Success(Box<Val>),
    Failure(Box<Val>),
    Arr(Seq<Val>),
}

impl Value {
    pub open spec fn view(self) -> Val
        decreases self,
    {
        match self {
            Value::Unit => Val::Unit,
            Value::Bool(b) => Val::Bool(b),
            Value::U32(x) => Val::U32(x),
            Value::U64(x) => Val::U64(x),
            Value::Opt(None) => Val::Opt(None),
            Value::Opt(Some(b)) => Val::Opt(Some(Box::new((*b).view()))),
            Value::Success(b) => Val::Success(Box::new((*b).view())),
            Value::Failure(b) => Val::Failure(Box::new((*b).view())),
            Value::Array(vs) => Val::Arr(views(vs@)),
        }
    }
}

/// The models of a sequence of values, position by position.
pub open spec fn views(vs: Seq<Value>) -> Seq<Val>
    decreases vs,
{
    if vs.len() == 0 {
        Seq::empty()
    } else {
        views(vs.drop_last()).push(vs.last().view())
    }
}

/// `v` is a well-formed value of the Kind described by `s`.
pub open spec fn has_shape(v: Val, s: Shape) -> bool
    decreases v,
{
    match (v, s) {
        (Val::Unit, Shape::Unit) => true,
        (Val::Bool(_), Shape::Bool) => true,
        (Val::U32(_), Shape::U32) => true,
        (Val::U64(_), Shape::U64) => true,
        (Val::Opt(None), Shape::Opt(_)) => true,
        (Val::Opt(Some(b)), Shape::Opt(t)) => has_shape(*b, *t),
        (Val::Success(b), Shape::Res(t, _)) => has_shape(*b, *t),
        (Val::Failure(b), Shape::Res(_, e)) => has_shape(*b, *e),
        (Val::Arr(vs), Shape::Array(n, e)) => vs.len() == n && all_have_shape(vs, *e),
        _ => false,
    }
}

/// Every value of `vs` is of the Kind `s`.
pub open spec fn all_have_shape(vs: Seq<Val>, s: Shape) -> bool
    decreases vs,
{
    if vs.len() == 0 {
        true
    } else {
        all_have_shape(vs.drop_last(), s) && has_shape(vs.last(), s)
    }
}

pub proof fn lemma_all_have_shape(vs: Seq<Val>, s: Shape)
    ensures
        all_have_shape(vs, s) <==> forall|i: int|
            0 <= i < vs.len() ==> #[trigger] has_shape(vs[i], s),
    decreases vs.len(),
{
    if vs.len() > 0 {
        let k = vs.len() - 1;
        lemma_all_have_shape(vs.drop_last(), s);
        if forall|i: int| 0 <= i < vs.len() ==> #[trigger] has_shape(vs[i], s) {
            assert forall|i: int| 0 <= i < k implies #[trigger] has_shape(vs.drop_last()[i], s) by {
                assert(has_shape(vs[i], s));
            }
            assert(has_shape(vs[k], s));
            assert(vs.last() == vs[k]);
            assert(all_have_shape(vs, s));
        }
        if all_have_shape(vs, s) {
            assert forall|i: int| 0 <= i < vs.len() implies #[trigger] has_shape(vs[i], s) by {
                if i < k {
                    assert(vs.drop_last()[i] == vs[i]);
                    assert(has_shape(vs.drop_last()[i], s));
                }
            }
        }
    }
}

} // verus!
