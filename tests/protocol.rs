use vessels::handle::Registry;
use vessels::kind::{construct, deconstruct, receive, ConstructError};
use vessels::value::{Shape, Value};
use vessels::wire::{Channel, Fork, Item, KResult};

fn some(v: Value) -> Value {
    Value::Opt(Some(Box::new(v)))
}

fn opt(s: Shape) -> Shape {
    Shape::Opt(Box::new(s))
}

fn round_trip(v: Value, s: Shape) {
    let c = deconstruct(&v);
    assert_eq!(construct(&s, &c), Ok(v));
}

fn count_forks(c: &Channel) -> usize {
    let mut n = c.forks.len();
    for f in &c.forks {
        n += count_forks(&f.channel);
    }
    n
}

#[test]
fn primitives_round_trip() {
    round_trip(Value::Unit, Shape::Unit);
    round_trip(Value::Bool(true), Shape::Bool);
    round_trip(Value::U32(7), Shape::U32);
    round_trip(Value::U64(u64::MAX), Shape::U64);
}

#[test]
fn primitive_sends_exactly_its_value() {
    let c = deconstruct(&Value::U32(42));
    assert_eq!(c.items, vec![Item::U32(42)]);
    assert!(c.forks.is_empty());
    let u = deconstruct(&Value::Unit);
    assert!(u.items.is_empty());
    assert!(u.forks.is_empty());
}

#[test]
fn composites_round_trip() {
    round_trip(Value::Opt(None), opt(Shape::U32));
    round_trip(some(Value::Bool(false)), opt(Shape::Bool));
    let res = Shape::Res(Box::new(Shape::U32), Box::new(Shape::Bool));
    round_trip(Value::Success(Box::new(Value::U32(5))), res);
    let res = Shape::Res(Box::new(Shape::U32), Box::new(Shape::Bool));
    round_trip(Value::Failure(Box::new(Value::Bool(true))), res);
    let nested = Value::Array(vec![
        Value::Array(vec![some(Value::U64(1)), Value::Opt(None)]),
        Value::Array(vec![Value::Opt(None), some(Value::U64(2))]),
    ]);
    let shape = Shape::Array(2, Box::new(Shape::Array(2, Box::new(opt(Shape::U64)))));
    round_trip(nested, shape);
}

#[test]
fn empty_array_sends_nothing() {
    let c = deconstruct(&Value::Array(vec![]));
    assert!(c.items.is_empty());
    assert!(c.forks.is_empty());
    let s = Shape::Array(0, Box::new(Shape::U32));
    assert_eq!(construct(&s, &Channel::new()), Ok(Value::Array(vec![])));
}

#[test]
fn array_arity_mismatch_is_reported() {
    let v = Value::Array(vec![Value::U32(1), Value::U32(2)]);
    let c = deconstruct(&v);
    let s = Shape::Array(3, Box::new(Shape::U32));
    assert_eq!(construct(&s, &c), Err(ConstructError::Arity { expected: 3, got: 2 }));
}

#[test]
fn option_from_empty_stream_is_insufficient() {
    let c = Channel::new();
    assert_eq!(
        construct(&opt(Shape::U32), &c),
        Err(ConstructError::Insufficient { got: 0, expected: 1 })
    );
    assert_eq!(
        construct(&Shape::U32, &c),
        Err(ConstructError::Insufficient { got: 0, expected: 1 })
    );
}

#[test]
fn failure_tag_uses_the_failure_kind() {
    let mut child = Channel::new();
    child.send(Item::Bool(true));
    let mut c = Channel::new();
    c.forks.push(Fork { handle: 0, channel: child });
    c.send(Item::Tagged(KResult::Failure(0)));
    let s = Shape::Res(Box::new(Shape::U32), Box::new(Shape::Bool));
    assert_eq!(construct(&s, &c), Ok(Value::Failure(Box::new(Value::Bool(true)))));
    let wrong = Shape::Res(Box::new(Shape::Bool), Box::new(Shape::U32));
    assert_eq!(
        construct(&wrong, &c),
        Err(ConstructError::Inner { handle: 0, cause: Box::new(ConstructError::Unexpected) })
    );
}

#[test]
fn unknown_handle_is_unresolved() {
    let mut c = Channel::new();
    c.send(Item::Present(Some(7)));
    assert_eq!(construct(&opt(Shape::U32), &c), Err(ConstructError::Unresolved(7)));
}

#[test]
fn wrong_item_is_unexpected() {
    let mut c = Channel::new();
    c.send(Item::U64(3));
    assert_eq!(construct(&Shape::U32, &c), Err(ConstructError::Unexpected));
}

#[test]
fn nested_failure_names_the_fork() {
    let v = Value::Array(vec![Value::U32(1), Value::Bool(true)]);
    let c = deconstruct(&v);
    let s = Shape::Array(2, Box::new(Shape::U32));
    assert_eq!(
        construct(&s, &c),
        Err(ConstructError::Inner { handle: 1, cause: Box::new(ConstructError::Unexpected) })
    );
}

#[test]
fn forked_handles_are_distinct_and_positional() {
    let v = Value::Array(vec![Value::U32(10), Value::U32(11), Value::U32(12), Value::U32(13)]);
    let c = deconstruct(&v);
    assert_eq!(c.items, vec![Item::Handles(vec![0, 1, 2, 3])]);
    for (i, f) in c.forks.iter().enumerate() {
        assert_eq!(f.handle, i as u64);
        assert_eq!(f.channel.items, vec![Item::U32(10 + i as u32)]);
    }
}

#[test]
fn array_of_options_end_to_end() {
    let v = Value::Array(vec![some(Value::U32(1)), Value::Opt(None), some(Value::U32(3))]);
    let c = deconstruct(&v);
    assert_eq!(c.items, vec![Item::Handles(vec![0, 1, 2])]);
    let payload_forks: usize = c.forks.iter().map(|f| f.channel.forks.len()).sum();
    assert_eq!(payload_forks, 2);
    assert_eq!(count_forks(&c), 5);
    let s = Shape::Array(3, Box::new(opt(Shape::U32)));
    let expected = Value::Array(vec![some(Value::U32(1)), Value::Opt(None), some(Value::U32(3))]);
    assert_eq!(construct(&s, &c), Ok(expected));
}

#[test]
fn registry_issues_fresh_handles_and_releases_them() {
    let mut reg = Registry::new();
    let a = reg.allocate();
    let b = reg.allocate();
    let c = reg.allocate();
    assert_eq!((a, b, c), (0, 1, 2));
    assert!(reg.is_live(b));
    reg.release(b);
    assert!(!reg.is_live(b));
    assert!(reg.is_live(a));
    assert!(reg.is_live(c));
    assert_eq!(reg.allocate(), 3);
    reg.release(a);
    reg.release(c);
    reg.release(3);
    assert!(reg.live.is_empty());
}

#[test]
fn receive_releases_every_fork() {
    let v = Value::Array(vec![some(Value::U32(1)), Value::Opt(None)]);
    let mut c = deconstruct(&v);
    assert_eq!(c.forks.len(), 2);
    let s = Shape::Array(2, Box::new(opt(Shape::U32)));
    assert_eq!(receive(&s, &mut c), Ok(v));
    assert!(c.forks.is_empty());
    let mut bad = deconstruct(&Value::Array(vec![Value::U32(1)]));
    let s = Shape::Array(1, Box::new(Shape::Bool));
    assert_eq!(
        receive(&s, &mut bad),
        Err(ConstructError::Inner { handle: 0, cause: Box::new(ConstructError::Unexpected) })
    );
    assert!(bad.forks.is_empty());
}
