//! The declaration surface: builders, focus/exclusion variants, imports,
//! per-spec options, and each reporter end to end.

use laboratory::spec::{SpecOutcome, StateBytes};
use laboratory::suite::Duration;
use laboratory::{describe, Hook, NullState, SpecBody, SpecContext, SpecOptions, State, Suite};

// The trait's ghost model members are erased from compiled code; only
// `call` (and `duplicate`) ever run, so the stand-ins below are never read.
#[derive(Clone)]
enum NoHook {}

impl Hook for NoHook {
    fn effect(&self, st: StateBytes) -> StateBytes {
        st
    }

    fn duplicate(&self) -> Self {
        match *self {}
    }

    fn call(&self, _state: &mut State) {}
}

enum Body {
    Pass,
    Fail,
}

impl SpecBody for Body {
    fn outcome(&self, _attempt: u32, _st: StateBytes) -> SpecOutcome {
        None
    }

    fn post_state(&self, _attempt: u32, st: StateBytes) -> StateBytes {
        st
    }

    fn call(&self, _cx: &mut SpecContext) -> Result<(), String> {
        match self {
            Body::Pass => Ok(()),
            Body::Fail => Err(String::from("nope")),
        }
    }
}

type Ctx = laboratory::SuiteContext<Body, NoHook>;

#[test]
fn describe_only_excludes_sibling_suites() {
    let mut suite = describe("root", |mut ctx: Ctx| {
        ctx.describe("plain", |mut c| {
            c.it("a", Body::Pass);
            c
        });
        ctx.describe_only("focused", |mut c| {
            c.it("b", Body::Pass);
            c
        });
        ctx
    });
    let result = suite.run();
    assert!(result.is_ok());
    assert_eq!(suite.context.passed, 1);
    assert_eq!(suite.context.ignored, 1);
    assert!(suite.context.suites[0].context.specs[0].result.is_none());
    assert!(suite.context.suites[1].context.specs[0].result.is_some());
}

#[test]
fn describe_skip_variant_never_runs() {
    let mut suite = describe("root", |mut ctx: Ctx| {
        ctx.describe_skip("off", |mut c| {
            c.it("a", Body::Fail);
            c
        });
        ctx.it("on", Body::Pass);
        ctx
    });
    assert!(suite.run().is_ok());
    assert_eq!(suite.context.passed, 1);
    assert_eq!(suite.context.ignored, 1);
}

#[test]
fn imported_suites_keep_their_flags() {
    let island = describe("island", |mut c: Ctx| {
        c.it("i", Body::Pass);
        c
    });
    let skipped = describe("skipped", |mut c: Ctx| {
        c.it("s", Body::Fail);
        c
    });
    let mut suite = describe("root", |mut ctx: Ctx| {
        ctx.describe_import(island);
        ctx.describe_import_skip(skipped);
        ctx
    });
    assert!(suite.run().is_ok());
    assert_eq!(suite.context.passed, 1);
    assert_eq!(suite.context.ignored, 1);
}

#[test]
fn describe_import_only_focuses() {
    let focused = describe("focused", |mut c: Ctx| {
        c.it("f", Body::Pass);
        c
    });
    let mut suite = describe("root", |mut ctx: Ctx| {
        ctx.describe("plain", |mut c| {
            c.it("p", Body::Pass);
            c
        });
        ctx.describe_import_only(focused);
        ctx
    });
    assert!(suite.run().is_ok());
    assert_eq!(suite.context.passed, 1);
    assert_eq!(suite.context.ignored, 1);
}

#[test]
fn spec_options_collect_settings() {
    let mut options: SpecOptions<Body> = SpecOptions::new();
    options.it("named", Body::Pass);
    options.retries(4);
    options.slow(250);
    assert_eq!(options.name.as_deref(), Some("named"));
    assert_eq!(options.retries_, Some(4));
    assert_eq!(options.slow_, Some(250));
    assert!(options.hook.is_some());
}

#[test]
fn spec_context_getters_echo_overrides() {
    let mut cx = SpecContext::new(State::new());
    assert!(cx.get_retries().is_none());
    assert!(cx.get_slow().is_none());
    cx.retries(2);
    cx.slow(100);
    assert_eq!(cx.get_retries(), Some(&2));
    assert_eq!(cx.get_slow(), Some(&100));
    assert_eq!(cx.attempts, 0);
}

#[test]
fn every_reporter_renders() {
    // the same one-pass one-fail tree through each reporter
    let build = || {
        describe("root", |mut ctx: Ctx| {
            ctx.it("good", Body::Pass);
            ctx.it("bad", Body::Fail);
            ctx.it_skip("off", Body::Pass);
            ctx
        })
    };
    assert!(build().spec().run().is_err());
    assert!(build().min().run().is_err());
    assert!(build().dot().run().is_err());
    assert!(build().list().run().is_err());
    assert!(build().tap().run().is_err());
    assert!(build().rust().run().is_err());
    assert!(build().json().run().is_err());
    assert!(build().json_pretty().run().is_err());
}

#[test]
fn duration_units_render_with_their_suffix() {
    assert_eq!(Duration::Nano(5).to_string(), "(5ns)");
    assert_eq!(Duration::Micro(17).to_string(), "(17\u{3bc}s)");
    assert_eq!(Duration::Mil(250).to_string(), "(250ms)");
    assert_eq!(Duration::Sec(3).to_string(), "(3sec)");
}

#[test]
fn time_units_and_new_are_available() {
    let _marker = NullState;
    let mut suite = Suite::new("named", |mut ctx: Ctx| {
        ctx.it("one", Body::Pass);
        ctx
    });
    suite = suite.micro();
    let result = suite.run();
    assert!(result.is_ok());
    assert_eq!(suite.name, "named");
    let mut again = describe("again", |mut ctx: Ctx| {
        ctx.it("one", Body::Pass);
        ctx
    })
    .sec();
    assert!(again.run().is_ok());
    // a passing spec in whole seconds takes 0 of them
    assert_eq!(again.context.specs[0].duration, 0);
}
