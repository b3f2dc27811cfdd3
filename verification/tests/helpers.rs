//! The comparison helpers, the shared-data wrapper, and text rendering.

use laboratory::assertion::{expect, Expect};
use laboratory::data::Data;
use laboratory::text::{u128_to_string, u32_to_string};

#[test]
fn expect_equality_checks() {
    assert!(expect(3).to_equal(3).is_ok());
    assert!(expect(3).to_be(3).is_ok());
    assert!(expect(3).equals(3).is_ok());
    assert!(expect(3).to_not_equal(4).is_ok());
    assert!(expect(3).to_not_be(4).is_ok());
    assert_eq!(
        expect(3).to_equal(4).unwrap_err(),
        "Expected 3 to equal 4"
    );
    assert_eq!(expect(3).to_be(4).unwrap_err(), "Expected 3 to be 4");
    assert_eq!(
        expect(3).to_not_equal(3).unwrap_err(),
        "Expected 3 not to equal 3"
    );
    assert_eq!(
        expect(3).to_not_be(3).unwrap_err(),
        "Expected 3 not to be 3"
    );
    let held = Expect::new(String::from("x"));
    assert!(held.to_equal(String::from("x")).is_ok());
}

#[test]
fn display_expect_renders_plainly() {
    let e = laboratory::expect::Expect::expect(5u32);
    assert!(e.equals(5).is_ok());
    assert!(e.to_equal(5).is_ok());
    assert!(e.to_be(5).is_ok());
    assert_eq!(e.equals(6).unwrap_err(), "Expected 5 to equal 6");
}

#[test]
fn data_shares_one_value() {
    let d = Data::new(Box::new(17u64));
    assert_eq!(*d.get_ref(), 17);
    let d2 = d.clone();
    assert_eq!(*d2.get_ref(), 17);
    let inner = d.into_inner();
    assert_eq!(**inner, 17);
}

#[test]
fn decimal_rendering() {
    assert_eq!(u128_to_string(0), "0");
    assert_eq!(u128_to_string(7), "7");
    assert_eq!(u128_to_string(10), "10");
    assert_eq!(u128_to_string(90210), "90210");
    assert_eq!(
        u128_to_string(u128::MAX),
        "340282366920938463463374607431768211455"
    );
    assert_eq!(u32_to_string(4294967295), "4294967295");
}
