//! A leaner comparison helper for values that render with `Display`.

use vstd::prelude::*;
use vstd::std_specs::cmp::PartialEqSpec;

verus! {

/// A captured value awaiting comparison, rendered plainly on failure.
pub struct Expect<T: PartialEq + core::fmt::Debug + core::fmt::Display> {
    pub result: T,
}

/// Relies on std's `format!` with the `Display` impls of the operands:
/// renders "Expected <a> to equal <b>".
#[verifier::external_body]
fn display_msg<T: core::fmt::Display>(a: &T, b: &T) -> String {
    format!("Expected {} to equal {}", a, b)
}

impl<T: PartialEq + core::fmt::Debug + core::fmt::Display> Expect<T> {
    pub fn expect(result: T) -> (r: Expect<T>)
        ensures
            r.result == result,
    {
        Expect { result }
    }

    /// Succeeds exactly when the captured value equals `control` (as far as
    /// `T`'s own equality is faithfully specified).
    pub fn equals(&self, control: T) -> (r: Result<(), String>)
        ensures
            T::obeys_eq_spec() ==> ((r is Ok) <==> self.result.eq_spec(&control)),
    {
        if self.result == control {
            Ok(())
        } else {
            Err(display_msg(&self.result, &control))
        }
    }

    /// Same check as `equals`.
    pub fn to_equal(&self, control: T) -> (r: Result<(), String>)
        ensures
            T::obeys_eq_spec() ==> ((r is Ok) <==> self.result.eq_spec(&control)),
    {
        self.equals(control)
    }

    /// Same check as `equals`.
    pub fn to_be(&self, control: T) -> (r: Result<(), String>)
        ensures
            T::obeys_eq_spec() ==> ((r is Ok) <==> self.result.eq_spec(&control)),
    {
        self.equals(control)
    }
}

} // verus!
