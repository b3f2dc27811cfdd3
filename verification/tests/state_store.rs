//! The state store's round trips and typed mismatch errors.

use laboratory::{State, StateValue};

#[test]
fn round_trip_uint() {
    let mut store = State::new();
    assert!(store.set(StateValue::Uint(12345678901234567890)).is_ok());
    match store.get() {
        Ok(StateValue::Uint(n)) => assert_eq!(n, 12345678901234567890),
        _ => panic!("expected the stored number back"),
    }
    assert_eq!(store.get_uint().unwrap(), 12345678901234567890);
}

#[test]
fn round_trip_bool() {
    let mut store = State::new();
    assert!(store.set(StateValue::Bool(true)).is_ok());
    assert_eq!(store.get_bool().unwrap(), true);
    assert!(store.set(StateValue::Bool(false)).is_ok());
    assert_eq!(store.get_bool().unwrap(), false);
}

#[test]
fn round_trip_bytes() {
    let mut store = State::new();
    let payload = vec![0u8, 255, 7, 42];
    assert!(store.set(StateValue::Bytes(payload.clone())).is_ok());
    match store.get() {
        Ok(StateValue::Bytes(bs)) => assert_eq!(bs, payload),
        _ => panic!("expected the stored bytes back"),
    }
    assert_eq!(store.get_bytes().unwrap(), payload);
}

#[test]
fn mismatched_type_is_a_typed_error() {
    let mut store = State::new();
    assert!(store.set(StateValue::Uint(7)).is_ok());
    let err = store.get_bool().unwrap_err();
    assert_eq!(err.to_string(), "Could not deserialize state.");
    let err = store.get_bytes().unwrap_err();
    assert_eq!(err.to_string(), "Could not deserialize state.");
    // the stored value is still intact
    assert_eq!(store.get_uint().unwrap(), 7);
}

#[test]
fn empty_store_reads_fail() {
    let store = State::new();
    assert!(store.get().is_err());
    assert!(store.get_bool().is_err());
    assert!(store.get_uint().is_err());
    assert!(store.get_bytes().is_err());
}

#[test]
fn set_replaces_previous_value() {
    let mut store = State::new();
    assert!(store.set(StateValue::Bool(true)).is_ok());
    assert!(store.set(StateValue::Uint(9)).is_ok());
    assert!(store.get_bool().is_err());
    assert_eq!(store.get_uint().unwrap(), 9);
}

#[test]
fn raw_state_round_trip() {
    let mut store = State::new();
    store.set_raw_state(vec![1, 2, 3]);
    assert_eq!(store.get_raw_state(), vec![1, 2, 3]);
    // an arbitrary raw buffer need not decode
    assert!(store.get().is_err());
}
