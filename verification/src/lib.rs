//! A small test-execution runtime: suites of named specs arranged in a tree,
//! run depth-first with setup/teardown hooks, retry budgets, focus (`only`)
//! and exclusion (`skip`) directives, a shared opaque state store, timing,
//! and pluggable result reporting.

pub mod assertion;
pub mod data;
pub mod error;
pub mod expect;
pub mod laws;
pub mod reporter;
pub mod spec;
pub mod spec_result;
pub mod state;
pub mod suite;
pub mod suite_context;
pub mod suite_result;
pub mod text;
pub mod timing;

pub use assertion::{expect, Expect};
pub use spec::{SpecBody, SpecContext, SpecOptions};
pub use state::{State, StateValue};
pub use suite::{describe, NullState, Suite};
pub use suite_context::{Hook, SuiteContext};

use vstd::prelude::*;

verus! {

/// What a whole run reports back: `Ok(())` when no spec failed,
/// otherwise a message naming the failure count.
pub type LabResult = Result<(), String>;

} // verus!
