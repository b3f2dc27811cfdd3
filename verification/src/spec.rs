//! One test case ("spec"): its body, flags, per-spec overrides, and the
//! runtime handle its body sees while running.

use vstd::prelude::*;
use crate::state::State;
use crate::suite::Speed;

verus! {

/// The mutable per-spec runtime handle handed to a body during execution:
/// shared-state access, the attempts counter, overrides, and the derived
/// speed classification.
pub struct SpecContext {
    /// The shared store, swapped in for the duration of one body call.
    pub state: State,
    pub retries_: Option<u32>,
    pub slow_: Option<u128>,
    pub speed_result: Speed,
    pub attempts: u32,
}

impl SpecContext {
    pub fn new(state: State) -> (r: SpecContext)
        ensures
            r.state == state,
            r.retries_ is None,
            r.slow_ is None,
            r.speed_result is Fast,
            r.attempts == 0,
    {
        SpecContext { state, retries_: None, slow_: None, speed_result: Speed::Fast, attempts: 0 }
    }

    /// Set this spec's own retry budget, overriding any suite-level value.
    pub fn retries(&mut self, count: u32)
        ensures
            *final(self) == (SpecContext { retries_: Some(count), ..*old(self) }),
    {
        self.retries_ = Some(count);
    }

    /// Set this spec's own slow threshold, overriding any suite-level value.
    pub fn slow(&mut self, count: u128)
        ensures
            *final(self) == (SpecContext { slow_: Some(count), ..*old(self) }),
    {
        self.slow_ = Some(count);
    }

    pub fn get_retries(&self) -> (r: Option<&u32>)
        ensures
            r matches Some(n) ==> self.retries_ == Some(*n),
            r is None <==> self.retries_ is None,
    {
        self.retries_.as_ref()
    }

    pub fn get_slow(&self) -> (r: Option<&u128>)
        ensures
            r matches Some(n) ==> self.slow_ == Some(*n),
            r is None <==> self.slow_ is None,
    {
        self.slow_.as_ref()
    }
}

/// What a spec body sees of the shared state, mathematically: its bytes.
pub type StateBytes = Seq<u8>;

/// The verdict a body gives: `None` passes, `Some(msg)` fails with `msg`.
pub type SpecOutcome = Option<Seq<char>>;

/// A spec body. Implementors describe, in `outcome`, what the body returns
/// as a function of the attempt number it is called on and the bytes of the
/// shared state it sees: `None` means the attempt passes, `Some(msg)` means
/// it fails with that message. The runtime's retry and result contracts are
/// stated over this model. `outcome` and `post_state` are ghost: outside of
/// proofs an implementation returns `None` and the argument state from
/// them, and only `call` ever runs.
pub trait SpecBody: Sized {
    /// The body's result on a given attempt, seeing the given state bytes.
    spec fn outcome(&self, attempt: u32, st: StateBytes) -> SpecOutcome;

    /// The shared state's bytes after the body runs, as a function of the
    /// attempt number and the bytes it saw.
    spec fn post_state(&self, attempt: u32, st: StateBytes) -> StateBytes;

    /// Run the body once. It may read and write the shared state and its
    /// own overrides through `cx`, but must leave the attempts counter
    /// alone, return what `outcome` says for this attempt and state, and
    /// leave the state `post_state` says it leaves.
    fn call(&self, cx: &mut SpecContext) -> (r: Result<(), String>)
        ensures
            final(cx).attempts == old(cx).attempts,
            (r is Ok) <==> self.outcome(old(cx).attempts, old(cx).state@) is None,
            (r matches Err(m) ==> self.outcome(old(cx).attempts, old(cx).state@) == Some(m@)),
            final(cx).state@ == self.post_state(old(cx).attempts, old(cx).state@),
    ;
}

/// There is an attempt/state pair on which `b` fails.
pub open spec fn some_failure<B: SpecBody>(b: B, j: u32) -> bool {
    exists|st: Seq<u8>| b.outcome(j, st) is Some
}

/// There is an attempt/state pair on which `b` passes.
pub open spec fn some_success<B: SpecBody>(b: B, j: u32) -> bool {
    exists|st: Seq<u8>| b.outcome(j, st) is None
}

/// On attempt `j`, some state leads `b` to fail with exactly message `m`.
pub open spec fn failure_with<B: SpecBody>(b: B, j: u32, m: Seq<char>) -> bool {
    exists|st: Seq<u8>| b.outcome(j, st) == Some(m)
}

/// The retry budget a spec actually gets: its own override, else the
/// suite-level one, else none.
pub open spec fn eff_retries(spec_retries: Option<u32>, suite_retries: Option<u32>) -> u32 {
    if spec_retries is Some {
        spec_retries->0
    } else if suite_retries is Some {
        suite_retries->0
    } else {
        0
    }
}

/// One test case: name, stable order index, focus/exclusion flags, body,
/// captured result and duration, and its runtime context.
pub struct Spec<B> {
    pub name: String,
    pub order: Option<u32>,
    pub only: bool,
    pub hook: B,
    pub result: Option<Result<(), String>>,
    pub duration: u128,
    pub context: SpecContext,
    pub skip: bool,
}

impl<B: SpecBody> Spec<B> {
    pub fn new(name: String, state: State, hook: B) -> (r: Spec<B>)
        ensures
            r.name == name,
            r.order is None,
            !r.only,
            r.hook == hook,
            r.result is None,
            r.duration == 0,
            !r.skip,
            r.context.attempts == 0,
            r.context.retries_ is None,
            r.context.slow_ is None,
            r.context.state == state,
    {
        let context = SpecContext::new(state);
        Spec {
            name,
            order: None,
            only: false,
            hook,
            result: None,
            duration: 0,
            context,
            skip: false,
        }
    }
}

/// A free-standing collector for a spec's options before it joins a suite:
/// name, body, and per-spec overrides.
pub struct SpecOptions<B> {
    pub name: Option<String>,
    pub retries_: Option<u32>,
    pub slow_: Option<u128>,
    pub hook: Option<B>,
}

impl<B: SpecBody> SpecOptions<B> {
    pub fn new() -> (r: SpecOptions<B>)
        ensures
            r.name is None,
            r.retries_ is None,
            r.slow_ is None,
            r.hook is None,
    {
        SpecOptions { name: None, retries_: None, slow_: None, hook: None }
    }

    /// Record the spec's name and body.
    pub fn it(&mut self, name: &str, cb: B)
        ensures
            final(self).name matches Some(n) && n@ == name@,
            final(self).hook == Some(cb),
            final(self).retries_ == old(self).retries_,
            final(self).slow_ == old(self).slow_,
    {
        self.name = Some(name.to_owned());
        self.hook = Some(cb);
    }

    pub fn retries(&mut self, retries: u32)
        ensures
            *final(self) == (SpecOptions { retries_: Some(retries), ..*old(self) }),
    {
        self.retries_ = Some(retries);
    }

    pub fn slow(&mut self, threshold: u128)
        ensures
            *final(self) == (SpecOptions { slow_: Some(threshold), ..*old(self) }),
    {
        self.slow_ = Some(threshold);
    }
}

} // verus!
