//! An immutable post-execution snapshot of one spec, decoupled from the
//! live tree so reporters can outlive it.

use vstd::prelude::*;
use vstd::string::StringExecFns;
use crate::error::Error;

verus! {

/// Two errors with the same content.
pub open spec fn same_error(a: Error, b: Error) -> bool {
    match (a, b) {
        (Error::Deserialize, Error::Deserialize) => true,
        (Error::Serialize, Error::Serialize) => true,
        (Error::Assertion(x), Error::Assertion(y)) => x@ == y@,
        (Error::ResultsNotFound, Error::ResultsNotFound) => true,
        _ => false,
    }
}

pub open spec fn same_opt_error(a: Option<Error>, b: Option<Error>) -> bool {
    match (a, b) {
        (Option::None, Option::None) => true,
        (Option::Some(x), Option::Some(y)) => same_error(x, y),
        _ => false,
    }
}

/// One spec's recorded outcome: names, verdict, error and timing.
pub struct SpecResult {
    name: String,
    full_name: String,
    pass: Option<bool>,
    error_msg: Option<Error>,
    duration: u128,
}

/// Copy an error, content for content.
fn copy_error(e: &Error) -> (r: Error)
    ensures
        same_error(*e, r),
{
    match e {
        Error::Assertion(m) => Error::Assertion(m.clone()),
        Error::Deserialize => Error::Deserialize,
        Error::Serialize => Error::Serialize,
        Error::ResultsNotFound => Error::ResultsNotFound,
    }
}

impl SpecResult {
    /// Snapshot a spec's outcome. `pass` is `None` for a spec that never
    /// ran; `duration` is in the run's time unit.
    pub fn new(
        suite_name: &str,
        name: &str,
        pass: Option<bool>,
        err_msg: &Option<Error>,
        duration: u128,
    ) -> (r: SpecResult)
        ensures
            r.spec_name() == name@,
            r.spec_full_name() == suite_name@ + " "@ + name@,
            r.spec_pass() == pass,
            same_opt_error(*err_msg, r.spec_error()),
            r.spec_duration() == duration,
    {
        let mut full_name = suite_name.to_owned();
        full_name.append(" ");
        full_name.append(name);
        let error_msg = match err_msg {
            Some(e) => Some(copy_error(e)),
            None => None,
        };
        SpecResult { name: name.to_owned(), full_name, pass, error_msg, duration }
    }

    pub closed spec fn spec_pass(&self) -> Option<bool> {
        self.pass
    }

    pub closed spec fn spec_name(&self) -> Seq<char> {
        self.name@
    }

    pub closed spec fn spec_full_name(&self) -> Seq<char> {
        self.full_name@
    }

    pub closed spec fn spec_error(&self) -> Option<Error> {
        self.error_msg
    }

    pub closed spec fn spec_duration(&self) -> u128 {
        self.duration
    }

    pub fn get_pass(&self) -> (r: Option<bool>)
        ensures
            r == self.spec_pass(),
    {
        self.pass
    }

    /// 1 when this spec passed, else 0.
    pub fn update_passing(&self) -> (r: u64)
        ensures
            r == 1 <==> self.spec_pass() == Some(true),
            r == 0 || r == 1,
    {
        match self.pass {
            Some(is_passing) => {
                if is_passing {
                    1
                } else {
                    0
                }
            },
            None => 0,
        }
    }

    /// 1 when this spec failed, else 0.
    pub fn update_failing(&self) -> (r: u64)
        ensures
            r == 1 <==> self.spec_pass() == Some(false),
            r == 0 || r == 1,
    {
        match self.pass {
            Some(is_passing) => {
                if is_passing {
                    0
                } else {
                    1
                }
            },
            None => 0,
        }
    }

    /// 1 when this spec never ran, else 0.
    pub fn update_ignored(&self) -> (r: u64)
        ensures
            r == 1 <==> self.spec_pass() is None,
            r == 0 || r == 1,
    {
        match self.pass {
            Some(_) => 0,
            None => 1,
        }
    }

    pub fn get_name(&self) -> (r: &str)
        ensures
            r@ == self.spec_name(),
    {
        self.name.as_str()
    }

    pub fn get_duration(&self) -> (r: u128)
        ensures
            r == self.spec_duration(),
    {
        self.duration
    }

    pub fn get_full_name(&self) -> (r: &str)
        ensures
            r@ == self.spec_full_name(),
    {
        self.full_name.as_str()
    }

    /// The recorded error's message, or the empty string.
    pub fn get_err_msg(&self) -> (r: String)
        ensures
            self.spec_error() is None ==> r@.len() == 0,
            self.spec_error() matches Some(e) ==> r@ == e.message(),
    {
        match &self.error_msg {
            Some(e) => e.to_string(),
            None => String::new(),
        }
    }
}

impl Clone for SpecResult {
    /// A content-for-content copy.
    fn clone(&self) -> (r: Self)
        ensures
            r.spec_name() == self.spec_name(),
            r.spec_full_name() == self.spec_full_name(),
            r.spec_pass() == self.spec_pass(),
            same_opt_error(self.spec_error(), r.spec_error()),
            r.spec_duration() == self.spec_duration(),
    {
        let error_msg = match &self.error_msg {
            Some(e) => Some(copy_error(e)),
            None => None,
        };
        SpecResult {
            name: String::from_str(self.name.as_str()),
            full_name: String::from_str(self.full_name.as_str()),
            pass: self.pass,
            error_msg,
            duration: self.duration,
        }
    }
}

} // verus!
