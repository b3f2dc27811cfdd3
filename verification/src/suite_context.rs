//! The declarative contents of one suite: hooks, ordered specs, ordered
//! child suites, suite-level overrides, and aggregate counters.

use vstd::prelude::*;
use crate::spec::{Spec, SpecBody, StateBytes};
use crate::state::State;
use crate::suite::Suite;

verus! {

/// A setup/teardown hook bound to a suite. Implementors describe, in
/// `effect`, what the hook writes: the store's bytes after a call, as a
/// function of the bytes before. The engine's store contracts are stated
/// over this model. `effect` is ghost: outside of proofs an implementation
/// just returns its argument from it, and only `call` ever runs.
pub trait Hook: Sized {
    /// The store's bytes after the hook runs on the given bytes.
    spec fn effect(&self, st: StateBytes) -> StateBytes;

    /// Another handle to this same hook: the engine copies a hook when a
    /// child suite adopts it, and the copy must be the very hook it stands
    /// for. Implementors return an equal value (typically a clone).
    fn duplicate(&self) -> (r: Self)
        ensures
            r == *self,
    ;

    /// Run the hook against the shared state, leaving what `effect` says.
    fn call(&self, state: &mut State)
        ensures
            final(state)@ == self.effect(old(state)@),
    ;
}

/// The declarative contents of one suite.
pub struct SuiteContext<B, H> {
    /// The suite's own store; used by its subtree only when `owns_state`.
    pub state: State,
    /// Whether this suite asked for an isolated store instead of sharing
    /// its parent's.
    pub owns_state: bool,
    pub after_all_hook: Option<H>,
    pub after_each_hook: Option<H>,
    pub before_all_hook: Option<H>,
    pub before_each_hook: Option<H>,
    pub specs: Vec<Spec<B>>,
    pub suites: Vec<Suite<B, H>>,
    pub retries_: Option<u32>,
    pub skip_: bool,
    pub slow_: Option<u128>,
    pub passed: u32,
    pub failed: u32,
    pub ignored: u32,
}

/// A context exactly as `SuiteContext::new` builds it.
pub open spec fn fresh_context<B, H>(c: SuiteContext<B, H>) -> bool {
    &&& c.state@.len() == 0
    &&& !c.owns_state
    &&& c.after_all_hook is None
    &&& c.after_each_hook is None
    &&& c.before_all_hook is None
    &&& c.before_each_hook is None
    &&& c.specs@.len() == 0
    &&& c.suites@.len() == 0
    &&& c.retries_ is None
    &&& !c.skip_
    &&& c.slow_ is None
    &&& c.passed == 0
    &&& c.failed == 0
    &&& c.ignored == 0
}

/// A freshly declared spec: the body is in place, nothing has run.
pub open spec fn fresh_spec<B: SpecBody>(s: Spec<B>, name: Seq<char>, hook: B) -> bool {
    &&& s.name@ == name
    &&& s.order is None
    &&& s.hook == hook
    &&& s.result is None
    &&& s.duration == 0
    &&& s.context.attempts == 0
    &&& s.context.retries_ is None
    &&& s.context.slow_ is None
}

impl<B: SpecBody, H: Hook> SuiteContext<B, H> {
    pub fn new() -> (r: SuiteContext<B, H>)
        ensures
            fresh_context(r),
    {
        SuiteContext {
            state: State::new(),
            owns_state: false,
            after_all_hook: None,
            after_each_hook: None,
            before_all_hook: None,
            before_each_hook: None,
            specs: Vec::new(),
            suites: Vec::new(),
            retries_: None,
            skip_: false,
            slow_: None,
            passed: 0,
            failed: 0,
            ignored: 0,
        }
    }

    /// Install the hook run once before this suite's own work (replacing any
    /// prior one at this level).
    pub fn before_all(&mut self, hook: H)
        ensures
            *final(self) == (SuiteContext { before_all_hook: Some(hook), ..*old(self) }),
    {
        self.before_all_hook = Some(hook);
    }

    /// Install the hook run before every attempt of every spec at this level.
    pub fn before_each(&mut self, hook: H)
        ensures
            *final(self) == (SuiteContext { before_each_hook: Some(hook), ..*old(self) }),
    {
        self.before_each_hook = Some(hook);
    }

    /// Install the hook run once after this suite's own work.
    pub fn after_all(&mut self, hook: H)
        ensures
            *final(self) == (SuiteContext { after_all_hook: Some(hook), ..*old(self) }),
    {
        self.after_all_hook = Some(hook);
    }

    /// Install the hook run after every attempt of every spec at this level.
    pub fn after_each(&mut self, hook: H)
        ensures
            *final(self) == (SuiteContext { after_each_hook: Some(hook), ..*old(self) }),
    {
        self.after_each_hook = Some(hook);
    }

    /// Append a spec.
    pub fn it(&mut self, name: &str, hook: B)
        ensures
            *final(self) == (SuiteContext { specs: final(self).specs, ..*old(self) }),
            final(self).specs@.len() == old(self).specs@.len() + 1,
            final(self).specs@ == old(self).specs@.push(final(self).specs@.last()),
            fresh_spec(final(self).specs@.last(), name@, hook),
            !final(self).specs@.last().only,
            !final(self).specs@.last().skip,
    {
        let spec = Spec::new(name.to_owned(), State::new(), hook);
        self.specs.push(spec);
        proof {
            assert(final(self).specs@ =~= old(self).specs@.push(final(self).specs@.last()));
        }
    }

    /// Append a spec that is excluded from every run.
    pub fn it_skip(&mut self, name: &str, hook: B)
        ensures
            *final(self) == (SuiteContext { specs: final(self).specs, ..*old(self) }),
            final(self).specs@.len() == old(self).specs@.len() + 1,
            final(self).specs@ == old(self).specs@.push(final(self).specs@.last()),
            fresh_spec(final(self).specs@.last(), name@, hook),
            !final(self).specs@.last().only,
            final(self).specs@.last().skip,
    {
        let mut spec = Spec::new(name.to_owned(), State::new(), hook);
        spec.skip = true;
        self.specs.push(spec);
        proof {
            assert(final(self).specs@ =~= old(self).specs@.push(final(self).specs@.last()));
        }
    }

    /// Append a spec that excludes its non-`only` siblings.
    pub fn it_only(&mut self, name: &str, hook: B)
        ensures
            *final(self) == (SuiteContext { specs: final(self).specs, ..*old(self) }),
            final(self).specs@.len() == old(self).specs@.len() + 1,
            final(self).specs@ == old(self).specs@.push(final(self).specs@.last()),
            fresh_spec(final(self).specs@.last(), name@, hook),
            final(self).specs@.last().only,
            !final(self).specs@.last().skip,
    {
        let mut spec = Spec::new(name.to_owned(), State::new(), hook);
        spec.only = true;
        self.specs.push(spec);
        proof {
            assert(final(self).specs@ =~= old(self).specs@.push(final(self).specs@.last()));
        }
    }

    /// Declare a nested suite: the builder runs now, against a fresh
    /// context, and the finished child is stored.
    pub fn describe<F: FnOnce(SuiteContext<B, H>) -> SuiteContext<B, H>>(
        &mut self,
        name: &str,
        cb: F,
    )
        requires
            forall|c: SuiteContext<B, H>| fresh_context(c) ==> call_requires(cb, (c,)),
        ensures
            *final(self) == (SuiteContext { suites: final(self).suites, ..*old(self) }),
            final(self).suites@.len() == old(self).suites@.len() + 1,
            final(self).suites@.subrange(0, old(self).suites@.len() as int) == old(self).suites@,
            final(self).suites@.last().name@ == name@,
            !final(self).suites@.last().only,
            exists|c0: SuiteContext<B, H>|
                fresh_context(c0) && #[trigger] call_ensures(
                    cb,
                    (c0,),
                    final(self).suites@.last().context,
                ),
    {
        let suite = crate::suite::describe(name, cb);
        self.suites.push(suite);
        proof {
            assert(final(self).suites@.subrange(0, old(self).suites@.len() as int) =~= old(
                self,
            ).suites@);
        }
    }

    /// Declare a nested suite that is excluded from every run.
    pub fn describe_skip<F: FnOnce(SuiteContext<B, H>) -> SuiteContext<B, H>>(
        &mut self,
        name: &str,
        cb: F,
    )
        requires
            forall|c: SuiteContext<B, H>| fresh_context(c) ==> call_requires(cb, (c,)),
        ensures
            *final(self) == (SuiteContext { suites: final(self).suites, ..*old(self) }),
            final(self).suites@.len() == old(self).suites@.len() + 1,
            final(self).suites@.subrange(0, old(self).suites@.len() as int) == old(self).suites@,
            final(self).suites@.last().name@ == name@,
            !final(self).suites@.last().only,
            final(self).suites@.last().context.skip_,
            exists|c0: SuiteContext<B, H>, built: SuiteContext<B, H>|
                fresh_context(c0) && #[trigger] call_ensures(cb, (c0,), built)
                    && final(self).suites@.last().context == (SuiteContext { skip_: true, ..built }),
    {
        let mut suite = crate::suite::describe(name, cb);
        let ghost built = suite.context;
        suite.context.skip_ = true;
        self.suites.push(suite);
        proof {
            assert(final(self).suites@.subrange(0, old(self).suites@.len() as int) =~= old(
                self,
            ).suites@);
        }
    }

    /// Declare a nested suite that excludes its non-`only` sibling suites.
    pub fn describe_only<F: FnOnce(SuiteContext<B, H>) -> SuiteContext<B, H>>(
        &mut self,
        name: &str,
        cb: F,
    )
        requires
            forall|c: SuiteContext<B, H>| fresh_context(c) ==> call_requires(cb, (c,)),
        ensures
            *final(self) == (SuiteContext { suites: final(self).suites, ..*old(self) }),
            final(self).suites@.len() == old(self).suites@.len() + 1,
            final(self).suites@.subrange(0, old(self).suites@.len() as int) == old(self).suites@,
            final(self).suites@.last().name@ == name@,
            final(self).suites@.last().only,
            exists|c0: SuiteContext<B, H>|
                fresh_context(c0) && #[trigger] call_ensures(
                    cb,
                    (c0,),
                    final(self).suites@.last().context,
                ),
    {
        let mut suite = crate::suite::describe(name, cb);
        suite.only = true;
        self.suites.push(suite);
        proof {
            assert(final(self).suites@.subrange(0, old(self).suites@.len() as int) =~= old(
                self,
            ).suites@);
        }
    }

    /// Graft an already-built suite as a child, without re-running its builder.
    pub fn describe_import(&mut self, suite: Suite<B, H>)
        ensures
            *final(self) == (SuiteContext { suites: final(self).suites, ..*old(self) }),
            final(self).suites@ == old(self).suites@.push(suite),
    {
        self.suites.push(suite);
        proof {
            assert(final(self).suites@ =~= old(self).suites@.push(final(self).suites@.last()));
        }
    }

    /// Graft an already-built suite as an excluded child.
    pub fn describe_import_skip(&mut self, suite: Suite<B, H>)
        ensures
            *final(self) == (SuiteContext { suites: final(self).suites, ..*old(self) }),
            final(self).suites@.len() == old(self).suites@.len() + 1,
            final(self).suites@.subrange(0, old(self).suites@.len() as int) == old(self).suites@,
            final(self).suites@.last() == (Suite {
                context: final(self).suites@.last().context,
                ..suite
            }),
            final(self).suites@.last().context == (SuiteContext {
                skip_: true,
                ..suite.context
            }),
    {
        let mut suite = suite;
        suite.context.skip_ = true;
        self.suites.push(suite);
        proof {
            assert(final(self).suites@.subrange(0, old(self).suites@.len() as int)
                =~= old(self).suites@);
        }
    }

    /// Graft an already-built suite as a child that excludes its non-`only`
    /// sibling suites.
    pub fn describe_import_only(&mut self, suite: Suite<B, H>)
        ensures
            *final(self) == (SuiteContext { suites: final(self).suites, ..*old(self) }),
            final(self).suites@.len() == old(self).suites@.len() + 1,
            final(self).suites@.subrange(0, old(self).suites@.len() as int) == old(self).suites@,
            final(self).suites@.last() == (Suite { only: true, ..suite }),
    {
        let mut suite = suite;
        suite.only = true;
        self.suites.push(suite);
        proof {
            assert(final(self).suites@.subrange(0, old(self).suites@.len() as int)
                =~= old(self).suites@);
        }
    }

    /// Exclude this whole suite from the run.
    pub fn skip(&mut self)
        ensures
            *final(self) == (SuiteContext { skip_: true, ..*old(self) }),
    {
        self.skip_ = true;
    }

    /// Set the retry budget for specs at and beneath this level that carry
    /// no override of their own.
    pub fn retries(&mut self, count: u32)
        ensures
            *final(self) == (SuiteContext { retries_: Some(count), ..*old(self) }),
    {
        self.retries_ = Some(count);
    }

    /// Set the slow threshold for specs at and beneath this level that carry
    /// no override of their own.
    pub fn slow(&mut self, count: u128)
        ensures
            *final(self) == (SuiteContext { slow_: Some(count), ..*old(self) }),
    {
        self.slow_ = Some(count);
    }
}

} // verus!
