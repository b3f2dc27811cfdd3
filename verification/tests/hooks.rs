//! Hook wiring: per-attempt hooks, inheritance, and the bookkeeping passes
//! observable after a run (order indices, depths, timing stamps).

use laboratory::spec::{SpecOutcome, StateBytes};
use laboratory::{describe, Hook, SpecBody, SpecContext, State, StateValue};

// The trait's ghost model members are erased from compiled code; only
// `call` (and `duplicate`) ever run, so the stand-ins below are never read.
#[derive(Clone)]
enum CountHook {
    Bump,
}

impl Hook for CountHook {
    fn effect(&self, st: StateBytes) -> StateBytes {
        st
    }

    fn duplicate(&self) -> Self {
        self.clone()
    }

    fn call(&self, state: &mut State) {
        let n = state.get_uint().unwrap_or(0);
        let _ = state.set(StateValue::Uint(n + 1));
    }
}

/// Passes once the shared counter reaches the threshold.
struct NeedsCount(u64);

impl SpecBody for NeedsCount {
    fn outcome(&self, _attempt: u32, _st: StateBytes) -> SpecOutcome {
        None
    }

    fn post_state(&self, _attempt: u32, st: StateBytes) -> StateBytes {
        st
    }

    fn call(&self, cx: &mut SpecContext) -> Result<(), String> {
        let n = cx.state.get_uint().unwrap_or(0);
        if n >= self.0 {
            Ok(())
        } else {
            Err(format!("counter at {}", n))
        }
    }
}

type Ctx = laboratory::SuiteContext<NeedsCount, CountHook>;

#[test]
fn before_each_runs_once_per_attempt() {
    // each attempt is preceded by one bump; the body passes on attempt 3
    let mut suite = describe("root", |mut ctx: Ctx| {
        ctx.before_each(CountHook::Bump);
        ctx.retries(5);
        ctx.it("third time lucky", NeedsCount(3));
        ctx
    });
    let result = suite.run();
    assert!(result.is_ok());
    assert_eq!(suite.context.specs[0].context.attempts, 3);
}

#[test]
fn child_without_own_before_each_inherits_the_parents() {
    let mut suite = describe("root", |mut ctx: Ctx| {
        ctx.before_each(CountHook::Bump);
        ctx.describe("child", |mut child| {
            child.it("sees the bump", NeedsCount(1));
            child
        });
        ctx
    });
    let result = suite.run();
    assert!(result.is_ok(), "{:?}", result);
    assert_eq!(suite.context.passed, 1);
}

#[test]
fn after_each_runs_after_every_attempt() {
    // only after_each bumps: the body sees attempts - 1 bumps, so with a
    // budget of 3 retries it passes on attempt 4
    let mut suite = describe("root", |mut ctx: Ctx| {
        ctx.after_each(CountHook::Bump);
        ctx.retries(5);
        ctx.it("after three failures", NeedsCount(3));
        ctx
    });
    let result = suite.run();
    assert!(result.is_ok());
    assert_eq!(suite.context.specs[0].context.attempts, 4);
}

#[test]
fn after_all_runs_once_at_the_end() {
    let mut suite = describe("root", |mut ctx: Ctx| {
        ctx.after_all(CountHook::Bump);
        ctx.it("never sees the bump", NeedsCount(0));
        ctx
    });
    assert!(suite.run().is_ok());
    // the root's own store was threaded through and holds the one bump
    assert_eq!(suite.context.state.get_uint().unwrap(), 1);
}

#[test]
fn specs_are_indexed_pre_order_and_depths_assigned() {
    let mut suite = describe("root", |mut ctx: Ctx| {
        ctx.it("first", NeedsCount(0));
        ctx.it("second", NeedsCount(0));
        ctx.describe("child", |mut child| {
            child.it("third", NeedsCount(0));
            child.describe("grandchild", |mut g| {
                g.it("fourth", NeedsCount(0));
                g
            });
            child
        });
        ctx
    });
    assert!(suite.run().is_ok());
    assert_eq!(suite.context.specs[0].order, Some(0));
    assert_eq!(suite.context.specs[1].order, Some(1));
    let child = &suite.context.suites[0];
    assert_eq!(child.context.specs[0].order, Some(2));
    let grandchild = &child.context.suites[0];
    assert_eq!(grandchild.context.specs[0].order, Some(3));
    assert_eq!(suite.depth, 0);
    assert_eq!(child.depth, 1);
    assert_eq!(grandchild.depth, 2);
}

#[test]
fn runs_are_stamped_and_timed() {
    let mut suite = describe("root", |mut ctx: Ctx| {
        ctx.it("quick", NeedsCount(0));
        ctx
    });
    assert!(suite.run().is_ok());
    assert!(!suite.start_time.is_empty());
    assert!(!suite.end_time.is_empty());
    assert!(suite.total_duration >= suite.suite_duration);
}

#[test]
fn empty_suite_still_runs_its_hooks() {
    // a suite with no specs and no children runs before_all/after_all once
    let mut suite = describe("empty", |mut ctx: Ctx| {
        ctx.before_all(CountHook::Bump);
        ctx.after_all(CountHook::Bump);
        ctx
    });
    assert!(suite.run().is_ok());
    assert_eq!(suite.context.state.get_uint().unwrap(), 2);
    assert_eq!(suite.context.passed, 0);
    assert_eq!(suite.context.failed, 0);
    assert_eq!(suite.context.ignored, 0);
}
