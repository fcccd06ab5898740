use vessels::kind::ConstructError;
use vessels::typed::Kind;
use vessels::wire::{Channel, Fork, Item, KResult};

#[test]
fn typed_option_round_trip() {
    let c = Some(5u32).deconstruct();
    assert_eq!(c.items, vec![Item::Present(Some(0))]);
    assert_eq!(Option::<u32>::construct(&c), Ok(Some(5)));
    let c = None::<u32>.deconstruct();
    assert_eq!(c.items, vec![Item::Present(None)]);
    assert_eq!(Option::<u32>::construct(&c), Ok(None));
}

#[test]
fn typed_nested_round_trip() {
    let v: Result<Option<u64>, bool> = Ok(Some(9));
    let c = v.deconstruct();
    assert_eq!(Result::<Option<u64>, bool>::construct(&c), Ok(Ok(Some(9))));
    let w: Result<Option<u64>, bool> = Err(false);
    let c = w.deconstruct();
    assert_eq!(c.items, vec![Item::Tagged(KResult::Failure(0))]);
    assert_eq!(Result::<Option<u64>, bool>::construct(&c), Ok(Err(false)));
    assert_eq!(<()>::construct(&().deconstruct()), Ok(()));
}

#[test]
fn typed_failure_payload_read_with_error_kind() {
    let mut child = Channel::new();
    child.send(Item::U64(77));
    let mut c = Channel::new();
    c.forks.push(Fork { handle: 4, channel: child });
    c.send(Item::Tagged(KResult::Failure(4)));
    assert_eq!(Result::<bool, u64>::construct(&c), Ok(Err(77)));
    assert_eq!(
        Result::<u64, bool>::construct(&c),
        Err(ConstructError::Inner { handle: 4, cause: Box::new(ConstructError::Unexpected) })
    );
}

#[test]
fn typed_option_needs_an_item() {
    assert_eq!(
        Option::<bool>::construct(&Channel::new()),
        Err(ConstructError::Insufficient { got: 0, expected: 1 })
    );
}
