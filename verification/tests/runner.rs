//! End-to-end runs of whole suite trees through the public API.

use laboratory::spec::{SpecOutcome, StateBytes};
use laboratory::{describe, expect, LabResult, Hook, SpecBody, SpecContext, State, StateValue};

// The trait's ghost model members are erased from compiled code; only
// `call` (and `duplicate`) ever run, so the stand-ins below are never read.
#[derive(Clone)]
enum TestHook {
    SetCounter,
    Noop,
}

impl Hook for TestHook {
    fn effect(&self, st: StateBytes) -> StateBytes {
        st
    }

    fn duplicate(&self) -> Self {
        self.clone()
    }

    fn call(&self, state: &mut State) {
        match self {
            TestHook::SetCounter => {
                let _ = state.set(StateValue::Uint(0));
            }
            TestHook::Noop => {}
        }
    }
}

struct AlwaysTrue;

impl SpecBody for AlwaysTrue {
    fn outcome(&self, _attempt: u32, _st: StateBytes) -> SpecOutcome {
        None
    }

    fn post_state(&self, _attempt: u32, st: StateBytes) -> StateBytes {
        st
    }

    fn call(&self, _cx: &mut SpecContext) -> Result<(), String> {
        expect(true).to_be(true)
    }
}

#[test]
fn describe_a_suite() -> LabResult {
    describe("my suite", |mut ctx: laboratory::SuiteContext<AlwaysTrue, TestHook>| {
        ctx.before_all(TestHook::SetCounter);
        ctx.before_each(TestHook::Noop);
        ctx.after_all(TestHook::Noop);
        ctx.describe("child", |mut suite| {
            suite.it("test", AlwaysTrue);
            suite
        });
        ctx
    })
    .rust()
    .nano()
    .run()
}

#[derive(Clone)]
enum NoHook {}

impl Hook for NoHook {
    fn effect(&self, st: StateBytes) -> StateBytes {
        st
    }

    fn duplicate(&self) -> Self {
        match *self {}
    }

    fn call(&self, _state: &mut State) {}
}

enum OkOrFail {
    Pass,
    Fail,
}

impl SpecBody for OkOrFail {
    fn outcome(&self, _attempt: u32, _st: StateBytes) -> SpecOutcome {
        None
    }

    fn post_state(&self, _attempt: u32, st: StateBytes) -> StateBytes {
        st
    }

    fn call(&self, _cx: &mut SpecContext) -> Result<(), String> {
        match self {
            OkOrFail::Pass => Ok(()),
            OkOrFail::Fail => Err(String::from("boom")),
        }
    }
}

#[test]
fn counts_cover_every_spec() {
    let mut suite = describe("root", |mut ctx: laboratory::SuiteContext<OkOrFail, NoHook>| {
        ctx.it("a", OkOrFail::Pass);
        ctx.it("b", OkOrFail::Fail);
        ctx.it_skip("c", OkOrFail::Pass);
        ctx.describe("child", |mut child| {
            child.it("d", OkOrFail::Pass);
            child.it("e", OkOrFail::Pass);
            child
        });
        ctx
    });
    let result = suite.run();
    assert!(result.is_err());
    assert_eq!(suite.context.passed, 3);
    assert_eq!(suite.context.failed, 1);
    assert_eq!(suite.context.ignored, 1);
    assert_eq!(
        suite.context.passed + suite.context.failed + suite.context.ignored,
        5
    );
    assert_eq!(result.unwrap_err(), "1 of 4 tests failed");
}

#[test]
fn only_focuses_its_level() {
    // describe("A", [it("p1", ok), it_only("p2", ok), it("p3", ok)])
    let mut suite = describe("A", |mut ctx: laboratory::SuiteContext<OkOrFail, NoHook>| {
        ctx.it("p1", OkOrFail::Pass);
        ctx.it_only("p2", OkOrFail::Pass);
        ctx.it("p3", OkOrFail::Pass);
        ctx
    });
    let result = suite.run();
    assert!(result.is_ok());
    assert_eq!(suite.context.passed, 1);
    assert_eq!(suite.context.ignored, 2);
    assert_eq!(suite.context.failed, 0);
    assert!(!suite.context.specs[1].skip);
    assert!(suite.context.specs[0].skip);
    assert!(suite.context.specs[2].skip);
    assert_eq!(suite.context.specs[1].context.attempts, 1);
    assert_eq!(suite.context.specs[0].context.attempts, 0);
}

#[test]
fn skip_propagates_to_descendants() {
    let mut suite = describe("root", |mut ctx: laboratory::SuiteContext<OkOrFail, NoHook>| {
        ctx.it("top", OkOrFail::Pass);
        ctx.describe_skip("skipped", |mut child| {
            child.it("a", OkOrFail::Fail);
            child.describe("deeper", |mut grandchild| {
                grandchild.it("b", OkOrFail::Fail);
                grandchild
            });
            child
        });
        ctx
    });
    let result = suite.run();
    assert!(result.is_ok());
    assert_eq!(suite.context.passed, 1);
    assert_eq!(suite.context.failed, 0);
    assert_eq!(suite.context.ignored, 2);
    let skipped = &suite.context.suites[0];
    assert!(skipped.context.specs[0].result.is_none());
    assert_eq!(skipped.context.specs[0].context.attempts, 0);
    let deeper = &skipped.context.suites[0];
    assert!(deeper.context.specs[0].result.is_none());
    assert_eq!(deeper.context.specs[0].context.attempts, 0);
}

/// Fails while the attempts counter is under the threshold, then passes.
struct PassOnAttempt(u32);

impl SpecBody for PassOnAttempt {
    fn outcome(&self, _attempt: u32, _st: StateBytes) -> SpecOutcome {
        None
    }

    fn post_state(&self, _attempt: u32, st: StateBytes) -> StateBytes {
        st
    }

    fn call(&self, cx: &mut SpecContext) -> Result<(), String> {
        if cx.attempts >= self.0 {
            Ok(())
        } else {
            Err(format!("attempt {} failed", cx.attempts))
        }
    }
}

#[test]
fn retries_stop_at_first_success() {
    // retries = 2, body fails on attempts 1 and 2, succeeds on attempt 3
    let mut suite = describe("root", |mut ctx: laboratory::SuiteContext<PassOnAttempt, NoHook>| {
        ctx.retries(2);
        ctx.it("eventually", PassOnAttempt(3));
        ctx
    });
    let result = suite.run();
    assert!(result.is_ok());
    let spec = &suite.context.specs[0];
    assert_eq!(spec.context.attempts, 3);
    assert!(matches!(spec.result, Some(Ok(()))));
    assert_eq!(suite.context.passed, 1);
}

#[test]
fn exhausted_retries_keep_last_message() {
    // retries = 2, body never passes: exactly 3 attempts, last message kept
    let mut suite = describe("root", |mut ctx: laboratory::SuiteContext<PassOnAttempt, NoHook>| {
        ctx.it("never", PassOnAttempt(u32::MAX));
        ctx.specs[0].context.retries(2);
        ctx
    });
    let result = suite.run();
    assert!(result.is_err());
    let spec = &suite.context.specs[0];
    assert_eq!(spec.context.attempts, 3);
    match &spec.result {
        Some(Err(msg)) => assert_eq!(msg, "attempt 3 failed"),
        other => panic!("expected a failure, got {:?}", other.is_some()),
    }
}

#[derive(Clone)]
enum LogHook {
    Append(u8),
}

impl Hook for LogHook {
    fn effect(&self, st: StateBytes) -> StateBytes {
        st
    }

    fn duplicate(&self) -> Self {
        self.clone()
    }

    fn call(&self, state: &mut State) {
        let LogHook::Append(byte) = self;
        let mut log = state.get_bytes().unwrap_or_default();
        log.push(*byte);
        let _ = state.set(StateValue::Bytes(log));
    }
}

/// Passes only when the shared log holds exactly the expected bytes.
struct ExpectLog(Vec<u8>);

impl SpecBody for ExpectLog {
    fn outcome(&self, _attempt: u32, _st: StateBytes) -> SpecOutcome {
        None
    }

    fn post_state(&self, _attempt: u32, st: StateBytes) -> StateBytes {
        st
    }

    fn call(&self, cx: &mut SpecContext) -> Result<(), String> {
        match cx.state.get_bytes() {
            Ok(log) if log == self.0 => Ok(()),
            Ok(log) => Err(format!("log was {:?}", log)),
            Err(e) => Err(e.to_string()),
        }
    }
}

#[test]
fn before_all_hooks_run_top_down_before_specs() {
    // A's before_all appends "A", B's appends "B"; the spec sees ["A","B"]
    let mut suite = describe("A", |mut ctx: laboratory::SuiteContext<ExpectLog, LogHook>| {
        ctx.before_all(LogHook::Append(b'A'));
        ctx.describe("B", |mut b| {
            b.before_all(LogHook::Append(b'B'));
            b.it("s", ExpectLog(vec![b'A', b'B']));
            b
        });
        ctx
    });
    let result = suite.run();
    assert!(result.is_ok());
    assert_eq!(suite.context.passed, 1);
    assert_eq!(suite.context.failed, 0);
}

#[test]
fn suite_retries_reach_descendants() {
    let mut suite = describe("root", |mut ctx: laboratory::SuiteContext<PassOnAttempt, NoHook>| {
        ctx.retries(4);
        ctx.describe("child", |mut child| {
            child.it("needs retries", PassOnAttempt(5));
            child
        });
        ctx
    });
    let result = suite.run();
    assert!(result.is_ok());
    let spec = &suite.context.suites[0].context.specs[0];
    assert_eq!(spec.context.attempts, 5);
}

#[test]
fn speed_classification_follows_threshold() {
    let mut suite = describe("root", |mut ctx: laboratory::SuiteContext<OkOrFail, NoHook>| {
        ctx.slow(u128::MAX);
        ctx.it("quick", OkOrFail::Pass);
        ctx
    });
    suite = suite.milis();
    let result = suite.run();
    assert!(result.is_ok());
    // far below half of an enormous threshold: classified fast
    assert!(matches!(
        suite.context.specs[0].context.speed_result,
        laboratory::suite::Speed::Fast
    ));
}

#[test]
fn isolated_state_leaves_parent_store_alone() {
    let mut suite = describe("root", |mut ctx: laboratory::SuiteContext<ExpectLog, LogHook>| {
        ctx.before_all(LogHook::Append(b'R'));
        ctx.describe_import(
            describe("island", |mut child: laboratory::SuiteContext<ExpectLog, LogHook>| {
                child.before_all(LogHook::Append(b'I'));
                // an isolated store starts empty, so only "I" is seen
                child.it("sees own log", ExpectLog(vec![b'I']));
                child
            })
            .state(StateValue::Bytes(Vec::new())),
        );
        ctx.it("sees root log", ExpectLog(vec![b'R']));
        ctx
    });
    let result = suite.run();
    assert!(result.is_ok(), "{:?}", result);
    assert_eq!(suite.context.passed, 2);
}
