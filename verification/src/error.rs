//! The runtime's error taxonomy: state (de)serialization faults, assertion
//! messages raised by spec bodies, and a missing-results fault.

use vstd::prelude::*;
use vstd::string::StringExecFns;

verus! {

/// Every fault the runtime can hand to a caller or record on a spec.
#[derive(Debug, Clone)]
pub enum Error {
    /// The state store's buffer did not hold a value of the requested type.
    Deserialize,
    /// A value could not be written into the state store.
    Serialize,
    /// A spec body reported a failure with this message.
    Assertion(String),
    /// A suite's results were asked for before any run produced them.
    ResultsNotFound,
}

impl Error {
    /// The message `to_string` renders.
    pub open spec fn message(&self) -> Seq<char> {
        match self {
            Error::Deserialize => "Could not deserialize state."@,
            Error::Serialize => "Could not serialize state"@,
            Error::Assertion(m) => m@,
            Error::ResultsNotFound => "Results for the suite was not found"@,
        }
    }

    /// The human-readable message for this error.
    pub fn to_string(&self) -> (r: String)
        ensures
            r@ == self.message(),
    {
        match self {
            Error::Deserialize => String::from_str("Could not deserialize state."),
            Error::Serialize => String::from_str("Could not serialize state"),
            Error::Assertion(m) => m.clone(),
            Error::ResultsNotFound => String::from_str("Results for the suite was not found"),
        }
    }
}

} // verus!
