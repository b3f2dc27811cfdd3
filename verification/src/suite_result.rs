//! An immutable post-execution snapshot of one suite: counters, timing,
//! and the nested spec and suite snapshots beneath it.

use vstd::prelude::*;
use vstd::string::StringExecFns;
use crate::spec_result::{same_opt_error, SpecResult};

verus! {

/// One suite's recorded outcome.
pub struct SuiteResult {
    name: String,
    passing: u64,
    failing: u64,
    ignored: u64,
    child_suites: Vec<SuiteResult>,
    child_tests: Vec<SpecResult>,
    duration: u128,
}

/// Two spec snapshots with the same content.
pub open spec fn same_spec_result(a: SpecResult, b: SpecResult) -> bool {
    &&& b.spec_name() == a.spec_name()
    &&& b.spec_full_name() == a.spec_full_name()
    &&& b.spec_pass() == a.spec_pass()
    &&& same_opt_error(a.spec_error(), b.spec_error())
    &&& b.spec_duration() == a.spec_duration()
}

/// Two suite snapshots with the same content, children included.
pub open spec fn same_suite_result(a: SuiteResult, b: SuiteResult) -> bool
    decreases a,
{
    &&& b.spec_name() == a.spec_name()
    &&& b.spec_passing() == a.spec_passing()
    &&& b.spec_failing() == a.spec_failing()
    &&& b.spec_ignored() == a.spec_ignored()
    &&& b.spec_duration() == a.spec_duration()
    &&& b.spec_child_tests().len() == a.spec_child_tests().len()
    &&& b.spec_child_suites().len() == a.spec_child_suites().len()
    &&& forall|i: int|
        0 <= i < a.spec_child_tests().len() ==> same_spec_result(
            #[trigger] a.spec_child_tests()[i],
            b.spec_child_tests()[i],
        )
    &&& forall|i: int|
        0 <= i < a.spec_child_suites().len() ==> same_suite_result(
            #[trigger] a.spec_child_suites()[i],
            b.spec_child_suites()[i],
        )
}

impl SuiteResult {
    pub closed spec fn spec_name(&self) -> Seq<char> {
        self.name@
    }

    pub closed spec fn spec_passing(&self) -> u64 {
        self.passing
    }

    pub closed spec fn spec_failing(&self) -> u64 {
        self.failing
    }

    pub closed spec fn spec_ignored(&self) -> u64 {
        self.ignored
    }

    pub closed spec fn spec_duration(&self) -> u128 {
        self.duration
    }

    pub closed spec fn spec_child_suites(&self) -> Seq<SuiteResult> {
        self.child_suites@
    }

    pub closed spec fn spec_child_tests(&self) -> Seq<SpecResult> {
        self.child_tests@
    }

    /// An empty snapshot for a suite of this name.
    pub fn new(name: &str) -> (r: SuiteResult)
        ensures
            r.spec_name() == name@,
            r.spec_passing() == 0,
            r.spec_failing() == 0,
            r.spec_ignored() == 0,
            r.spec_duration() == 0,
            r.spec_child_suites().len() == 0,
            r.spec_child_tests().len() == 0,
    {
        SuiteResult {
            name: name.to_owned(),
            passing: 0,
            failing: 0,
            ignored: 0,
            child_suites: Vec::new(),
            child_tests: Vec::new(),
            duration: 0,
        }
    }

    /// Fold a finished child suite in: add its counters and duration, and
    /// keep the snapshot. `None` (a child that produced nothing) changes
    /// nothing.
    pub fn updated_from_suite(&mut self, child_result_option: Option<SuiteResult>)
        requires
            (child_result_option matches Some(c) ==> {
                &&& old(self).spec_passing() + c.spec_passing() <= u64::MAX
                &&& old(self).spec_failing() + c.spec_failing() <= u64::MAX
                &&& old(self).spec_ignored() + c.spec_ignored() <= u64::MAX
                &&& old(self).spec_duration() + c.spec_duration() <= u128::MAX
            }),
        ensures
            child_result_option is None ==> *final(self) == *old(self),
            child_result_option matches Some(c) ==> {
                &&& final(self).spec_passing() == old(self).spec_passing() + c.spec_passing()
                &&& final(self).spec_failing() == old(self).spec_failing() + c.spec_failing()
                &&& final(self).spec_ignored() == old(self).spec_ignored() + c.spec_ignored()
                &&& final(self).spec_duration() == old(self).spec_duration() + c.spec_duration()
                &&& final(self).spec_child_suites() == old(self).spec_child_suites().push(c)
                &&& final(self).spec_child_tests() == old(self).spec_child_tests()
                &&& final(self).spec_name() == old(self).spec_name()
            },
    {
        if let Some(child_result) = child_result_option {
            self.passing = self.passing + child_result.passing;
            self.failing = self.failing + child_result.failing;
            self.ignored = self.ignored + child_result.ignored;
            self.duration = self.duration + child_result.duration;
            self.child_suites.push(child_result);
        }
    }

    /// Fold one spec's snapshot in: bump the counter its verdict belongs
    /// to, add its duration, and keep the snapshot.
    pub fn update_from_spec(&mut self, spec: SpecResult)
        requires
            old(self).spec_passing() < u64::MAX,
            old(self).spec_failing() < u64::MAX,
            old(self).spec_ignored() < u64::MAX,
            old(self).spec_duration() + spec.spec_duration() <= u128::MAX,
        ensures
            final(self).spec_passing() == old(self).spec_passing() + (if spec.spec_pass()
                == Some(true) {
                1int
            } else {
                0int
            }),
            final(self).spec_failing() == old(self).spec_failing() + (if spec.spec_pass()
                == Some(false) {
                1int
            } else {
                0int
            }),
            final(self).spec_ignored() == old(self).spec_ignored() + (if spec.spec_pass()
                is None {
                1int
            } else {
                0int
            }),
            final(self).spec_duration() == old(self).spec_duration() + spec.spec_duration(),
            final(self).spec_child_tests() == old(self).spec_child_tests().push(spec),
            final(self).spec_child_suites() == old(self).spec_child_suites(),
            final(self).spec_name() == old(self).spec_name(),
    {
        self.passing = self.passing + spec.update_passing();
        self.failing = self.failing + spec.update_failing();
        self.ignored = self.ignored + spec.update_ignored();
        self.duration = self.duration + spec.get_duration();
        self.child_tests.push(spec);
    }

    pub fn get_passing(&self) -> (r: u64)
        ensures
            r == self.spec_passing(),
    {
        self.passing
    }

    pub fn get_failing(&self) -> (r: u64)
        ensures
            r == self.spec_failing(),
    {
        self.failing
    }

    pub fn get_ignored(&self) -> (r: u64)
        ensures
            r == self.spec_ignored(),
    {
        self.ignored
    }

    /// Copies of the spec snapshots directly under this suite.
    pub fn get_child_specs(&self) -> (r: Vec<SpecResult>)
        ensures
            r@.len() == self.spec_child_tests().len(),
            forall|i: int|
                0 <= i < r@.len() ==> same_spec_result(
                    #[trigger] self.spec_child_tests()[i],
                    r@[i],
                ),
    {
        let n = self.child_tests.len();
        let mut out: Vec<SpecResult> = Vec::new();
        let mut i: usize = 0;
        while i < n
            invariant
                i <= n,
                n == self.spec_child_tests().len(),
                out@.len() == i,
                forall|j: int|
                    0 <= j < i ==> same_spec_result(
                        #[trigger] self.spec_child_tests()[j],
                        out@[j],
                    ),
            decreases n - i,
        {
            out.push(self.child_tests[i].clone());
            i = i + 1;
        }
        out
    }

    /// Copies of the suite snapshots directly under this suite.
    pub fn get_child_suites(&self) -> (r: Vec<SuiteResult>)
        ensures
            r@.len() == self.spec_child_suites().len(),
            forall|i: int|
                0 <= i < r@.len() ==> same_suite_result(
                    #[trigger] self.spec_child_suites()[i],
                    r@[i],
                ),
    {
        let n = self.child_suites.len();
        let mut out: Vec<SuiteResult> = Vec::new();
        let mut i: usize = 0;
        while i < n
            invariant
                i <= n,
                n == self.spec_child_suites().len(),
                out@.len() == i,
                forall|j: int|
                    0 <= j < i ==> same_suite_result(
                        #[trigger] self.spec_child_suites()[j],
                        out@[j],
                    ),
            decreases n - i,
        {
            out.push(self.child_suites[i].clone());
            i = i + 1;
        }
        out
    }

    pub fn get_name(&self) -> (r: &str)
        ensures
            r@ == self.spec_name(),
    {
        self.name.as_str()
    }

    pub fn get_duration(&self) -> (r: u128)
        ensures
            r == self.spec_duration(),
    {
        self.duration
    }

    pub fn set_duration(&mut self, duration: u128)
        ensures
            final(self).spec_duration() == duration,
            final(self).spec_name() == old(self).spec_name(),
            final(self).spec_passing() == old(self).spec_passing(),
            final(self).spec_failing() == old(self).spec_failing(),
            final(self).spec_ignored() == old(self).spec_ignored(),
            final(self).spec_child_suites() == old(self).spec_child_suites(),
            final(self).spec_child_tests() == old(self).spec_child_tests(),
    {
        self.duration = duration;
    }
}

impl Clone for SuiteResult {
    /// A content-for-content copy of the whole snapshot tree.
    fn clone(&self) -> (r: Self)
        ensures
            same_suite_result(*self, r),
        decreases *self,
    {
        let n = self.child_suites.len();
        let mut suites: Vec<SuiteResult> = Vec::new();
        let mut i: usize = 0;
        while i < n
            invariant
                i <= n,
                n == self.child_suites@.len(),
                suites@.len() == i,
                forall|j: int|
                    0 <= j < i ==> same_suite_result(
                        #[trigger] self.child_suites@[j],
                        suites@[j],
                    ),
            decreases n - i,
        {
            proof {
                assert(decreases_to!(*self => self.child_suites));
                assert(decreases_to!(self.child_suites => self.child_suites@));
                assert(decreases_to!(self.child_suites@ => self.child_suites@[i as int]));
            }
            let c = self.child_suites[i].clone();
            suites.push(c);
            i = i + 1;
        }
        let m = self.child_tests.len();
        let mut tests: Vec<SpecResult> = Vec::new();
        let mut k: usize = 0;
        while k < m
            invariant
                k <= m,
                m == self.child_tests@.len(),
                tests@.len() == k,
                forall|j: int|
                    0 <= j < k ==> same_spec_result(#[trigger] self.child_tests@[j], tests@[j]),
            decreases m - k,
        {
            tests.push(self.child_tests[k].clone());
            k = k + 1;
        }
        SuiteResult {
            name: String::from_str(self.name.as_str()),
            passing: self.passing,
            failing: self.failing,
            ignored: self.ignored,
            child_suites: suites,
            child_tests: tests,
            duration: self.duration,
        }
    }
}

} // verus!
