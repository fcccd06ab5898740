use vstd::prelude::*;

use crate::kind::{decode, encodes, lemma_decode_has_shape, ConstructError};
use crate::value::{has_shape, Shape, Val, Value};
use crate::wire::Channel;

verus! {

/// A type that can travel over a conversation: it names the Kind its values have and
/// converts them to and from the dynamic [`Value`] form, one for one.
pub trait Kind: Sized {
    /// The Kind every value of the type has.
    spec fn shape() -> Shape;

    /// The mathematical model of a value of the type.
    spec fn model(&self) -> Val;

    fn kind_shape() -> (s: Shape)
        ensures
            s == Self::shape(),
    ;

    fn into_value(self) -> (v: Value)
        ensures
            v@ == self.model(),
            has_shape(v@, Self::shape()),
    ;

    fn from_value(v: Value) -> (r: Option<Self>)
        ensures
            has_shape(v@, Self::shape()) ==> r is Some,
            r is Some ==> r->Some_0.model() == v@,
    ;

    /// Deconstructs the value into a fresh conversation.
    fn deconstruct(self) -> (c: Channel)
        ensures
            encodes(c, self.model()),
    {
        let v = self.into_value();
        crate::kind::deconstruct(&v)
    }

    /// Rebuilds a value of the type from the conversation `c`.
    fn construct(c: &Channel) -> (r: Result<Self, ConstructError>)
        ensures
            match r {
                Ok(k) => decode(Self::shape(), *c) == Ok::<Val, ConstructError>(k.model()),
                Err(e) => decode(Self::shape(), *c) == Err::<Val, ConstructError>(e),
            },
    {
        let s = Self::kind_shape();
        proof {
            lemma_decode_has_shape(s, *c);
        }
        match crate::kind::construct(&s, c) {
            Ok(v) => match Self::from_value(v) {
                Some(k) => Ok(k),
                None => Err(ConstructError::Unexpected),
            },
            Err(e) => Err(e),
        }
    }
}

/// Marker that tells apart the ways a type can be carried as a [`Kind`].
pub trait AsKindMarker {}

/// A type carried over a conversation as another type that is a [`Kind`]; the marker `M`
/// keeps apart conversions that would otherwise overlap.
pub trait AsKind<M: AsKindMarker>: Sized {
    type Kind: Kind;

    fn into_kind(self) -> Self::Kind;

    fn from_kind(kind: Self::Kind) -> Self;
}

impl Kind for () {
    open spec fn shape() -> Shape {
        Shape::Unit
    }

    open spec fn model(&self) -> Val {
        Val::Unit
    }

    fn kind_shape() -> (s: Shape) {
        Shape::Unit
    }

    fn into_value(self) -> (v: Value) {
        assert(Self::shape() == Shape::Unit);
        Value::Unit
    }

    fn from_value(v: Value) -> (r: Option<()>) {
        assert(Self::shape() == Shape::Unit);
        match v {
            Value::Unit => Some(()),
            _ => None,
        }
    }
}

impl Kind for bool {
    open spec fn shape() -> Shape {
        Shape::Bool
    }

    open spec fn model(&self) -> Val {
        Val::Bool(*self)
    }

    fn kind_shape() -> (s: Shape) {
        Shape::Bool
    }

    fn into_value(self) -> (v: Value) {
        assert(Self::shape() == Shape::Bool);
        Value::Bool(self)
    }

    fn from_value(v: Value) -> (r: Option<bool>) {
        assert(Self::shape() == Shape::Bool);
        match v {
            Value::Bool(b) => Some(b),
            _ => None,
        }
    }
}

impl Kind for u32 {
    open spec fn shape() -> Shape {
        Shape::U32
    }

    open spec fn model(&self) -> Val {
        Val::U32(*self)
    }

    fn kind_shape() -> (s: Shape) {
        Shape::U32
    }

    fn into_value(self) -> (v: Value) {
        assert(Self::shape() == Shape::U32);
        Value::U32(self)
    }

    fn from_value(v: Value) -> (r: Option<u32>) {
        assert(Self::shape() == Shape::U32);
        match v {
            Value::U32(x) => Some(x),
            _ => None,
        }
    }
}

impl Kind for u64 {
    open spec fn shape() -> Shape {
        Shape::U64
    }

    open spec fn model(&self) -> Val {
        Val::U64(*self)
    }

    fn kind_shape() -> (s: Shape) {
        Shape::U64
    }

    fn into_value(self) -> (v: Value) {
        assert(Self::shape() == Shape::U64);
        Value::U64(self)
    }

    fn from_value(v: Value) -> (r: Option<u64>) {
        assert(Self::shape() == Shape::U64);
        match v {
            Value::U64(x) => Some(x),
            _ => None,
        }
    }
}

impl<T: Kind> Kind for Option<T> {
    open spec fn shape() -> Shape {
        Shape::Opt(Box::new(T::shape()))
    }

    open spec fn model(&self) -> Val {
        match self {
            None => Val::Opt(None),
            Some(t) => Val::Opt(Some(Box::new(t.model()))),
        }
    }

    fn kind_shape() -> (s: Shape) {
        Shape::Opt(Box::new(T::kind_shape()))
    }

    fn into_value(self) -> (v: Value) {
        assert(Self::shape() == Shape::Opt(Box::new(T::shape())));
        match self {
            None => Value::Opt(None),
            Some(t) => Value::Opt(Some(Box::new(t.into_value()))),
        }
    }

    fn from_value(v: Value) -> (r: Option<Option<T>>) {
        assert(Self::shape() == Shape::Opt(Box::new(T::shape())));
        match v {
            Value::Opt(None) => Some(None),
            Value::Opt(Some(b)) => match T::from_value(*b) {
                Some(t) => Some(Some(t)),
                None => None,
            },
            _ => None,
        }
    }
}

impl<T: Kind, E: Kind> Kind for Result<T, E> {
    open spec fn shape() -> Shape {
        Shape::Res(Box::new(T::shape()), Box::new(E::shape()))
    }

    open spec fn model(&self) -> Val {
        match self {
            Ok(t) => Val::Success(Box::new(t.model())),
            Err(e) => Val::Failure(Box::new(e.model())),
        }
    }

    fn kind_shape() -> (s: Shape) {
        Shape::Res(Box::new(T::kind_shape()), Box::new(E::kind_shape()))
    }

    fn into_value(self) -> (v: Value) {
        assert(Self::shape() == Shape::Res(Box::new(T::shape()), Box::new(E::shape())));
        match self {
            Ok(t) => Value::Success(Box::new(t.into_value())),
            Err(e) => Value::Failure(Box::new(e.into_value())),
        }
    }

    fn from_value(v: Value) -> (r: Option<Result<T, E>>) {
        assert(Self::shape() == Shape::Res(Box::new(T::shape()), Box::new(E::shape())));
        match v {
            Value::Success(b) => match T::from_value(*b) {
                Some(t) => Some(Ok(t)),
                None => None,
            },
            Value::Failure(b) => match E::from_value(*b) {
                Some(e) => Some(Err(e)),
                None => None,
            },
            _ => None,
        }
    }
}

} // verus!
