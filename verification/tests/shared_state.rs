use coconut::state::SharedState;
use std::cell::RefCell;
use std::rc::Rc;

#[test]
fn get_returns_none_before_insert() {
    let state = SharedState::default();
    assert_eq!(state.get::<i32>(), None);
}

#[test]
fn insert_then_get_round_trips_by_type() {
    let state = SharedState::default();
    state.insert(42_i32);
    state.insert("hello".to_owned());
    assert_eq!(state.get::<i32>(), Some(42));
    assert_eq!(state.get::<String>(), Some("hello".to_owned()));
}

#[test]
fn clones_share_the_same_backing_map() {
    let state = SharedState::default();
    let clone = state.clone();
    clone.insert(7_u32);
    assert_eq!(state.get::<u32>(), Some(7));
}

#[test]
fn get_or_insert_with_only_calls_the_closure_once() {
    let state = SharedState::default();
    let calls = Rc::new(RefCell::new(0));
    let make_calls = calls.clone();
    let first = state.get_or_insert_with(|| {
        *make_calls.borrow_mut() += 1;
        "first".to_owned()
    });
    let make_calls = calls.clone();
    let second = state.get_or_insert_with(|| {
        *make_calls.borrow_mut() += 1;
        "second".to_owned()
    });
    assert_eq!(first, "first");
    assert_eq!(second, "first");
    assert_eq!(*calls.borrow(), 1);
}

#[test]
fn a_later_insert_replaces_the_value_of_its_type() {
    let state = SharedState::default();
    state.insert(1_u8);
    state.insert(2_u8);
    assert_eq!(state.get::<u8>(), Some(2));
    assert_eq!(state.get::<u16>(), None);
}
