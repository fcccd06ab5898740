use vessels::kind::deconstruct;
use vessels::mux::{mux, split_route, Envelope};
use vessels::value::Value;
use vessels::wire::{Channel, Fork, Item};

fn some(v: Value) -> Value {
    Value::Opt(Some(Box::new(v)))
}

fn sample() -> Value {
    Value::Array(vec![some(Value::U32(1)), Value::Opt(None), some(Value::U32(3))])
}

#[test]
fn mux_routes_every_item_once() {
    let stream = mux(deconstruct(&sample()));
    assert_eq!(stream.len(), 6);
    assert_eq!(
        stream[0],
        Envelope { route: vec![], item: Item::Handles(vec![0, 1, 2]) }
    );
    assert_eq!(stream[1], Envelope { route: vec![0], item: Item::Present(Some(0)) });
    assert_eq!(stream[2], Envelope { route: vec![0, 0], item: Item::U32(1) });
    assert_eq!(stream[3], Envelope { route: vec![1], item: Item::Present(None) });
    assert_eq!(stream[4], Envelope { route: vec![2], item: Item::Present(Some(0)) });
    assert_eq!(stream[5], Envelope { route: vec![2, 0], item: Item::U32(3) });
}

#[test]
fn split_route_reads_one_conversation_in_order() {
    let stream = mux(deconstruct(&sample()));
    let (mine, rest) = split_route(stream, &vec![2, 0]);
    assert_eq!(mine, vec![Item::U32(3)]);
    assert_eq!(rest.len(), 5);
    let (root, rest) = split_route(rest, &vec![]);
    assert_eq!(root, vec![Item::Handles(vec![0, 1, 2])]);
    assert_eq!(rest.len(), 4);
    let (none, rest) = split_route(rest, &vec![7]);
    assert!(none.is_empty());
    assert_eq!(rest.len(), 4);
    assert_eq!(rest[0].route, vec![0]);
    assert_eq!(rest[3].route, vec![2]);
}

#[test]
fn split_route_keeps_send_order_within_a_conversation() {
    let mut child = Channel::new();
    child.send(Item::U64(1));
    child.send(Item::U64(2));
    let mut c = Channel::new();
    c.send(Item::Bool(true));
    c.forks.push(Fork { handle: 5, channel: child });
    c.send(Item::Bool(false));
    let (mine, rest) = split_route(mux(c), &vec![5]);
    assert_eq!(mine, vec![Item::U64(1), Item::U64(2)]);
    assert_eq!(rest.len(), 2);
    assert_eq!(rest[0].item, Item::Bool(true));
    assert_eq!(rest[1].item, Item::Bool(false));
}
