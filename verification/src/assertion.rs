//! Value-comparison helpers whose results spec bodies return: an `Ok` for a
//! met expectation, an `Err` with a rendered message otherwise.

use vstd::prelude::*;
use vstd::std_specs::cmp::PartialEqSpec;

verus! {

/// A captured value awaiting comparison against a control value.
pub struct Expect<T: PartialEq + core::fmt::Debug> {
    pub result: T,
}

/// Relies on std's `format!` with the `Debug` impls of the operands: renders
/// "Expected <a> <verb> <b>". Only the failure messages come from here.
#[verifier::external_body]
fn expect_msg<T: core::fmt::Debug>(a: &T, verb: &str, b: &T) -> String {
    format!("Expected {:#?} {} {:#?}", a, verb, b)
}

impl<T: PartialEq + core::fmt::Debug> Expect<T> {
    pub fn new(expect: T) -> (r: Expect<T>)
        ensures
            r.result == expect,
    {
        Expect { result: expect }
    }

    pub fn expect(result: T) -> (r: Expect<T>)
        ensures
            r.result == result,
    {
        Expect { result }
    }

    /// Succeeds exactly when the captured value equals `control` (as far as
    /// `T`'s own equality is faithfully specified).
    pub fn equals(&self, control: T) -> (r: Result<(), String>)
        ensures
            T::obeys_eq_spec() ==> ((r is Ok) <==> self.result.eq_spec(&control)),
    {
        if self.result == control {
            Ok(())
        } else {
            Err(expect_msg(&self.result, "to equal", &control))
        }
    }

    /// Same check as `equals`.
    pub fn to_equal(&self, control: T) -> (r: Result<(), String>)
        ensures
            T::obeys_eq_spec() ==> ((r is Ok) <==> self.result.eq_spec(&control)),
    {
        self.equals(control)
    }

    /// Same check as `equals`, with "to be" in the failure message.
    pub fn to_be(&self, control: T) -> (r: Result<(), String>)
        ensures
            T::obeys_eq_spec() ==> ((r is Ok) <==> self.result.eq_spec(&control)),
    {
        if self.result == control {
            Ok(())
        } else {
            Err(expect_msg(&self.result, "to be", &control))
        }
    }

    /// Succeeds exactly when the captured value differs from `control`.
    pub fn to_not_equal(&self, control: T) -> (r: Result<(), String>)
        ensures
            T::obeys_eq_spec() ==> ((r is Ok) <==> !self.result.eq_spec(&control)),
    {
        if self.result != control {
            Ok(())
        } else {
            Err(expect_msg(&self.result, "not to equal", &control))
        }
    }

    /// Same check as `to_not_equal`, with "not to be" in the message.
    pub fn to_not_be(&self, control: T) -> (r: Result<(), String>)
        ensures
            T::obeys_eq_spec() ==> ((r is Ok) <==> !self.result.eq_spec(&control)),
    {
        if self.result != control {
            Ok(())
        } else {
            Err(expect_msg(&self.result, "not to be", &control))
        }
    }
}

/// Capture a value for comparison.
pub fn expect<T: PartialEq + core::fmt::Debug>(result: T) -> (r: Expect<T>)
    ensures
        r.result == result,
{
    Expect::new(result)
}

} // verus!
