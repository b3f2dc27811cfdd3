//! A suite: identity and orchestration around a `SuiteContext`, and the
//! `run()` entry point with its fixed sequence of whole-tree passes.

use vstd::prelude::*;
use vstd::string::StringExecFns;
use crate::reporter::Reporter;
use crate::spec::{
    eff_retries, failure_with, some_failure, some_success, Spec, SpecBody, SpecContext,
};
use crate::state::{encoding_of, State, StateValue};
use crate::suite_context::{fresh_context, Hook, SuiteContext};

verus! {

/// How fast a spec's passing run was, against its slow threshold.
#[derive(Debug, Clone, Copy, PartialEq, Eq, Structural)]
pub enum Speed {
    Fast,
    OnTime,
    Slow,
}

/// An elapsed time tagged with the unit it was measured in.
#[derive(Debug, Clone, Copy, PartialEq, Eq, Structural)]
pub enum Duration {
    Nano(u128),
    Micro(u128),
    Mil(u128),
    Sec(u128),
}

/// The unit a run measures its times in.
#[derive(Debug, Clone, Copy, PartialEq, Eq, Structural)]
pub enum DurationType {
    Nano,
    Micro,
    Mil,
    Sec,
}

impl Duration {
    /// Renders as "(<n><unit>)", e.g. "(5ms)".
    pub fn to_string(&self) -> (r: String)
        ensures
            self matches Duration::Nano(n) ==> r@ == "("@ + crate::text::dec_str(n as nat)
                + "ns)"@,
            self matches Duration::Micro(n) ==> r@ == "("@ + crate::text::dec_str(n as nat)
                + "\u{3bc}s)"@,
            self matches Duration::Mil(n) ==> r@ == "("@ + crate::text::dec_str(n as nat)
                + "ms)"@,
            self matches Duration::Sec(n) ==> r@ == "("@ + crate::text::dec_str(n as nat)
                + "sec)"@,
    {
        let mut s = String::from_str("(");
        match self {
            Duration::Nano(n) => {
                s.append(crate::text::u128_to_string(*n).as_str());
                s.append("ns)");
            },
            Duration::Micro(n) => {
                s.append(crate::text::u128_to_string(*n).as_str());
                s.append("\u{3bc}s)");
            },
            Duration::Mil(n) => {
                s.append(crate::text::u128_to_string(*n).as_str());
                s.append("ms)");
            },
            Duration::Sec(n) => {
                s.append(crate::text::u128_to_string(*n).as_str());
                s.append("sec)");
            },
        }
        s
    }
}

/// A placeholder value for suites that keep no meaningful shared state.
pub struct NullState;

/// A named, ordered group of specs and child suites, with everything the
/// runner needs to execute it and report on it.
pub struct Suite<B, H> {
    pub name: String,
    pub only: bool,
    pub context: SuiteContext<B, H>,
    pub duration_type: DurationType,
    pub suite_duration: u128,
    pub total_duration: u128,
    pub depth: u32,
    pub reporter: Reporter,
    pub start_time: String,
    pub end_time: String,
}

/// The height of a suite tree: one for the node itself, plus its tallest
/// child subtree.
pub open spec fn suite_height<B, H>(s: Suite<B, H>) -> nat
    decreases s,
{
    1 + forest_height(s.context.suites@)
}

pub open spec fn forest_height<B, H>(ss: Seq<Suite<B, H>>) -> nat
    decreases ss,
{
    if ss.len() == 0 {
        0
    } else {
        let h = suite_height(ss.last());
        let rest = forest_height(ss.drop_last());
        if h > rest {
            h
        } else {
            rest
        }
    }
}

pub proof fn lemma_forest_height_member<B, H>(ss: Seq<Suite<B, H>>, i: int)
    requires
        0 <= i < ss.len(),
    ensures
        suite_height(ss[i]) <= forest_height(ss),
    decreases ss,
{
    if i == ss.len() - 1 {
    } else {
        lemma_forest_height_member(ss.drop_last(), i);
    }
}

pub proof fn lemma_forest_height_ext<B, H>(a: Seq<Suite<B, H>>, b: Seq<Suite<B, H>>)
    requires
        a.len() == b.len(),
        forall|i: int| 0 <= i < a.len() ==> suite_height(#[trigger] a[i]) == suite_height(b[i]),
    ensures
        forest_height(a) == forest_height(b),
    decreases a,
{
    if a.len() > 0 {
        lemma_forest_height_ext(a.drop_last(), b.drop_last());
    }
}

/// How many specs the whole subtree declares.
pub open spec fn total_specs<B, H>(s: Suite<B, H>) -> nat
    decreases s,
{
    s.context.specs@.len() + forest_specs(s.context.suites@)
}

pub open spec fn forest_specs<B, H>(ss: Seq<Suite<B, H>>) -> nat
    decreases ss,
{
    if ss.len() == 0 {
        0
    } else {
        forest_specs(ss.drop_last()) + total_specs(ss.last())
    }
}

/// A declared tree that has not run yet: no results, no attempts, zeroed
/// counters and durations, and every retry override small enough that the
/// attempt counter cannot overflow.
pub open spec fn pre_run_tree<B, H>(s: Suite<B, H>) -> bool
    decreases s,
{
    &&& (s.context.retries_ matches Some(n) ==> n < u32::MAX)
    &&& s.context.passed == 0
    &&& s.context.failed == 0
    &&& s.context.ignored == 0
    &&& s.suite_duration == 0
    &&& s.total_duration == 0
    &&& forall|i: int|
        0 <= i < s.context.specs@.len() ==> {
            let sp = #[trigger] s.context.specs@[i];
            &&& sp.result is None
            &&& sp.context.attempts == 0
            &&& sp.duration == 0
            &&& (sp.context.retries_ matches Some(n) ==> n < u32::MAX)
        }
    &&& forall|i: int|
        0 <= i < s.context.suites@.len() ==> pre_run_tree(#[trigger] s.context.suites@[i])
}

/// Declaration-level content two trees share: everything the run relation
/// reads or promises that the bookkeeping passes must leave alone.
pub open spec fn same_spec_decl<B>(a: Spec<B>, b: Spec<B>) -> bool {
    &&& b.name == a.name
    &&& b.only == a.only
    &&& b.skip == a.skip
    &&& b.hook == a.hook
    &&& b.result == a.result
    &&& b.duration == a.duration
    &&& b.context.attempts == a.context.attempts
    &&& b.context.retries_ == a.context.retries_
}

pub open spec fn same_decl<B, H>(a: Suite<B, H>, b: Suite<B, H>) -> bool
    decreases a,
{
    &&& b.name == a.name
    &&& b.only == a.only
    &&& b.context.skip_ == a.context.skip_
    &&& b.context.retries_ == a.context.retries_
    &&& b.context.specs@.len() == a.context.specs@.len()
    &&& b.context.suites@.len() == a.context.suites@.len()
    &&& forall|i: int|
        0 <= i < a.context.specs@.len() ==> same_spec_decl(
            #[trigger] a.context.specs@[i],
            b.context.specs@[i],
        )
    &&& forall|i: int|
        0 <= i < a.context.suites@.len() ==> same_decl(
            #[trigger] a.context.suites@[i],
            b.context.suites@[i],
        )
}

pub proof fn lemma_same_decl_trans<B, H>(a: Suite<B, H>, b: Suite<B, H>, c: Suite<B, H>)
    requires
        same_decl(a, b),
        same_decl(b, c),
    ensures
        same_decl(a, c),
    decreases a,
{
    assert forall|i: int| 0 <= i < a.context.suites@.len() implies same_decl(
        #[trigger] a.context.suites@[i],
        c.context.suites@[i],
    ) by {
        lemma_same_decl_trans(a.context.suites@[i], b.context.suites@[i], c.context.suites@[i]);
    }
}

/// The only/skip resolution relation (`b` is `a` resolved): a suite that is
/// itself skipped, or forced by an ancestor or a focused sibling, skips
/// everything beneath it; otherwise an `only` spec among the direct specs
/// excludes its non-`only` siblings, and likewise, independently, for the
/// direct child suites.
pub open spec fn only_resolved<B, H>(a: Suite<B, H>, b: Suite<B, H>, forced: bool) -> bool
    decreases a,
{
    let skipping = forced || a.context.skip_;
    let spec_only = exists|i: int| 0 <= i < a.context.specs@.len() && a.context.specs@[i].only;
    let suite_only = exists|i: int| 0 <= i < a.context.suites@.len() && a.context.suites@[i].only;
    &&& b == (Suite { context: b.context, ..a })
    &&& b.context == (SuiteContext { specs: b.context.specs, suites: b.context.suites, skip_: skipping, ..a.context })
    &&& b.context.specs@.len() == a.context.specs@.len()
    &&& b.context.suites@.len() == a.context.suites@.len()
    &&& forall|i: int|
        0 <= i < a.context.specs@.len() ==> b.context.specs@[i] == (Spec {
            skip: a.context.specs@[i].skip || skipping || (!skipping && spec_only
                && !a.context.specs@[i].only),
            ..(#[trigger] a.context.specs@[i])
        })
    &&& forall|i: int|
        0 <= i < a.context.suites@.len() ==> only_resolved(
            #[trigger] a.context.suites@[i],
            b.context.suites@[i],
            skipping || (suite_only && !a.context.suites@[i].only),
        )
}

/// The retries-inheritance relation: a suite without its own retry override
/// adopts the inherited one, and passes the winner on to its specs and
/// children that lack their own.
pub open spec fn retries_applied<B, H>(
    a: Suite<B, H>,
    b: Suite<B, H>,
    inherited: Option<u32>,
) -> bool
    decreases a,
{
    let eff = if a.context.retries_ is Some {
        a.context.retries_
    } else {
        inherited
    };
    &&& b == (Suite { context: b.context, ..a })
    &&& b.context == (SuiteContext { specs: b.context.specs, suites: b.context.suites, retries_: eff, ..a.context })
    &&& b.context.specs@.len() == a.context.specs@.len()
    &&& b.context.suites@.len() == a.context.suites@.len()
    &&& forall|i: int|
        0 <= i < a.context.specs@.len() ==> {
            let sp = #[trigger] a.context.specs@[i];
            &&& b.context.specs@[i] == (Spec { context: b.context.specs@[i].context, ..sp })
            &&& b.context.specs@[i].context == (SpecContext {
                retries_: if sp.context.retries_ is Some { sp.context.retries_ } else { eff },
                ..sp.context
            })
        }
    &&& forall|i: int|
        0 <= i < a.context.suites@.len() ==> retries_applied(
            #[trigger] a.context.suites@[i],
            b.context.suites@[i],
            eff,
        )
}

/// What the execution pass did to one spec, given the suite-level retry
/// override in force: a skipped spec is untouched; anything else ran between
/// once and `budget + 1` times, stopped at its first success, and recorded
/// the last attempt's result and timing.
pub open spec fn spec_ran<B: SpecBody>(a: Spec<B>, b: Spec<B>, suite_retries: Option<u32>) -> bool {
    if a.skip {
        b == a
    } else {
        let budget = eff_retries(a.context.retries_, suite_retries);
        let k = b.context.attempts;
        &&& b == (Spec { result: b.result, duration: b.duration, context: b.context, ..a })
        &&& 1 <= k <= budget + 1
        &&& b.result is Some
        &&& k <= budget ==> (b.result matches Some(r) && r is Ok)
        &&& (b.result matches Some(r) ==> {
            &&& (r is Ok ==> some_success(a.hook, k))
            &&& (r matches Err(m) ==> failure_with(a.hook, k, m@))
        })
        &&& forall|j: u32| 1 <= j < k ==> some_failure(a.hook, j)
    }
}

/// What the execution pass did to one suite: its own specs ran in order
/// under its retry override, non-skipped children ran recursively, skipped
/// children were left untouched, and nothing else changed but the state
/// store and the recorded wall-clock bounds.
pub open spec fn suite_ran<B: SpecBody, H>(a: Suite<B, H>, b: Suite<B, H>) -> bool
    decreases a,
{
    &&& b == (Suite { context: b.context, start_time: b.start_time, end_time: b.end_time, ..a })
    &&& b.context == (SuiteContext { state: b.context.state, specs: b.context.specs, suites: b.context.suites, ..a.context })
    &&& b.context.specs@.len() == a.context.specs@.len()
    &&& b.context.suites@.len() == a.context.suites@.len()
    &&& forall|i: int|
        0 <= i < a.context.specs@.len() ==> spec_ran(
            #[trigger] a.context.specs@[i],
            b.context.specs@[i],
            a.context.retries_,
        )
    &&& forall|i: int|
        0 <= i < a.context.suites@.len() ==> {
            if (#[trigger] a.context.suites@[i]).context.skip_ {
                b.context.suites@[i] == a.context.suites@[i]
            } else {
                suite_ran(a.context.suites@[i], b.context.suites@[i])
            }
        }
}

/// Ready to execute: nothing attempted yet, and every retry override leaves
/// room for one more than its budget in a `u32` attempts counter.
pub open spec fn exec_ready<B, H>(s: Suite<B, H>) -> bool
    decreases s,
{
    &&& (s.context.retries_ matches Some(n) ==> n < u32::MAX)
    &&& forall|i: int|
        0 <= i < s.context.specs@.len() ==> {
            let sp = #[trigger] s.context.specs@[i];
            &&& (!sp.skip ==> sp.context.attempts == 0)
            &&& (sp.context.retries_ matches Some(n) ==> n < u32::MAX)
        }
    &&& forall|i: int|
        0 <= i < s.context.suites@.len() ==> exec_ready(#[trigger] s.context.suites@[i])
}

/// The whole run, stated against the tree as it was declared: `forced` says
/// an ancestor's skip or focus rule excludes this node, `inh` is the nearest
/// ancestor retry override. Skip resolution, retry inheritance and execution
/// are all visible here, spec by spec.
pub open spec fn ran_from<B: SpecBody, H>(
    a: Suite<B, H>,
    b: Suite<B, H>,
    forced: bool,
    inh: Option<u32>,
) -> bool
    decreases a,
{
    let skipping = forced || a.context.skip_;
    let eff = if a.context.retries_ is Some {
        a.context.retries_
    } else {
        inh
    };
    let spec_only = exists|i: int| 0 <= i < a.context.specs@.len() && a.context.specs@[i].only;
    let suite_only = exists|i: int| 0 <= i < a.context.suites@.len() && a.context.suites@[i].only;
    &&& b.name == a.name
    &&& b.only == a.only
    &&& b.context.skip_ == skipping
    &&& b.context.specs@.len() == a.context.specs@.len()
    &&& b.context.suites@.len() == a.context.suites@.len()
    &&& forall|i: int|
        0 <= i < a.context.specs@.len() ==> {
            let sp = #[trigger] a.context.specs@[i];
            let bs = b.context.specs@[i];
            let excluded = skipping || sp.skip || (!skipping && spec_only && !sp.only);
            &&& bs.name == sp.name
            &&& bs.only == sp.only
            &&& bs.hook == sp.hook
            &&& bs.skip == excluded
            &&& if excluded {
                &&& bs.result == sp.result
                &&& bs.context.attempts == sp.context.attempts
                &&& bs.duration == sp.duration
            } else {
                let budget = eff_retries(sp.context.retries_, eff);
                let k = bs.context.attempts;
                &&& 1 <= k <= budget + 1
                &&& bs.result is Some
                &&& k <= budget ==> (bs.result matches Some(r) && r is Ok)
                &&& (bs.result matches Some(r) ==> {
                    &&& (r is Ok ==> some_success(sp.hook, k))
                    &&& (r matches Err(m) ==> failure_with(sp.hook, k, m@))
                })
                &&& forall|j: u32| 1 <= j < k ==> some_failure(sp.hook, j)
            }
        }
    &&& forall|i: int|
        0 <= i < a.context.suites@.len() ==> ran_from(
            #[trigger] a.context.suites@[i],
            b.context.suites@[i],
            skipping || (suite_only && !a.context.suites@[i].only),
            eff,
        )
}

pub proof fn lemma_forest_specs_ext<B, H>(a: Seq<Suite<B, H>>, b: Seq<Suite<B, H>>)
    requires
        a.len() == b.len(),
        forall|i: int| 0 <= i < a.len() ==> total_specs(#[trigger] a[i]) == total_specs(b[i]),
    ensures
        forest_specs(a) == forest_specs(b),
    decreases a,
{
    if a.len() > 0 {
        lemma_forest_specs_ext(a.drop_last(), b.drop_last());
    }
}

pub proof fn lemma_forest_specs_prefix<B, H>(ss: Seq<Suite<B, H>>, i: int)
    requires
        0 <= i < ss.len(),
    ensures
        forest_specs(ss.subrange(0, i + 1)) == forest_specs(ss.subrange(0, i)) + total_specs(
            ss[i],
        ),
    decreases ss,
{
    let p = ss.subrange(0, i + 1);
    assert(p.drop_last() =~= ss.subrange(0, i));
    assert(p.last() == ss[i]);
}

pub proof fn lemma_forest_specs_whole<B, H>(ss: Seq<Suite<B, H>>)
    ensures
        forest_specs(ss.subrange(0, ss.len() as int)) == forest_specs(ss),
{
    assert(ss.subrange(0, ss.len() as int) =~= ss);
}

/// Every child sits one level deeper than its parent.
pub open spec fn depths_assigned<B, H>(s: Suite<B, H>) -> bool
    decreases s,
{
    forall|i: int|
        0 <= i < s.context.suites@.len() ==> {
            &&& (#[trigger] s.context.suites@[i]).depth == s.depth + 1
            &&& depths_assigned(s.context.suites@[i])
        }
}

/// The whole tree measures time in the unit `t`.
pub open spec fn dtypes_assigned<B, H>(s: Suite<B, H>, t: DurationType) -> bool
    decreases s,
{
    &&& s.duration_type == t
    &&& forall|i: int|
        0 <= i < s.context.suites@.len() ==> dtypes_assigned(#[trigger] s.context.suites@[i], t)
}

/// Every spec carries its pre-order position, counting from `start`,
/// stated over one tree alone.
pub open spec fn orders_assigned<B, H>(s: Suite<B, H>, start: nat) -> bool
    decreases s,
{
    &&& forall|i: int|
        0 <= i < s.context.specs@.len() ==> (#[trigger] s.context.specs@[i]).order == Some(
            (start + i) as u32,
        )
    &&& forall|i: int|
        0 <= i < s.context.suites@.len() ==> orders_assigned(
            #[trigger] s.context.suites@[i],
            start + s.context.specs@.len() + forest_specs(s.context.suites@.subrange(0, i)),
        )
}

/// A pass that leaves the assigned layout alone: depths, time units, the
/// specs' order indices, and the tree's shape.
pub open spec fn layout_kept<B, H>(a: Suite<B, H>, b: Suite<B, H>) -> bool
    decreases a,
{
    &&& b.depth == a.depth
    &&& b.duration_type == a.duration_type
    &&& b.context.specs@.len() == a.context.specs@.len()
    &&& b.context.suites@.len() == a.context.suites@.len()
    &&& forall|i: int|
        0 <= i < a.context.specs@.len() ==> (#[trigger] b.context.specs@[i]).order
            == a.context.specs@[i].order
    &&& forall|i: int|
        0 <= i < a.context.suites@.len() ==> layout_kept(
            #[trigger] a.context.suites@[i],
            b.context.suites@[i],
        )
}

/// A pass that leaves every depth alone.
pub open spec fn depths_kept<B, H>(a: Suite<B, H>, b: Suite<B, H>) -> bool
    decreases a,
{
    &&& b.depth == a.depth
    &&& b.context.suites@.len() == a.context.suites@.len()
    &&& forall|i: int|
        0 <= i < a.context.suites@.len() ==> depths_kept(
            #[trigger] a.context.suites@[i],
            b.context.suites@[i],
        )
}

/// A pass that leaves every spec's order index and the tree's shape alone.
pub open spec fn orders_kept<B, H>(a: Suite<B, H>, b: Suite<B, H>) -> bool
    decreases a,
{
    &&& b.context.specs@.len() == a.context.specs@.len()
    &&& b.context.suites@.len() == a.context.suites@.len()
    &&& forall|i: int|
        0 <= i < a.context.specs@.len() ==> (#[trigger] b.context.specs@[i]).order
            == a.context.specs@[i].order
    &&& forall|i: int|
        0 <= i < a.context.suites@.len() ==> orders_kept(
            #[trigger] a.context.suites@[i],
            b.context.suites@[i],
        )
}

/// Every spec carries its pre-order position, counting from `start`.
pub open spec fn specs_indexed<B, H>(a: Suite<B, H>, b: Suite<B, H>, start: nat) -> bool
    decreases a,
{
    &&& b.context.specs@.len() == a.context.specs@.len()
    &&& b.context.suites@.len() == a.context.suites@.len()
    &&& forall|i: int|
        0 <= i < a.context.specs@.len() ==> b.context.specs@[i] == (Spec {
            order: Some((start + i) as u32),
            ..(#[trigger] a.context.specs@[i])
        })
    &&& forall|i: int|
        0 <= i < a.context.suites@.len() ==> specs_indexed(
            #[trigger] a.context.suites@[i],
            b.context.suites@[i],
            start + a.context.specs@.len() + forest_specs(a.context.suites@.subrange(0, i)),
        )
}

/// Which hooks a node ends up with, given the `before_each`/`after_each`
/// an ancestor supplies: a node's own hook always wins, and a node lacking
/// one adopts exactly the nearest ancestor's.
pub open spec fn hooks_inherited<B, H>(
    a: Suite<B, H>,
    b: Suite<B, H>,
    pb: Option<H>,
    pa: Option<H>,
) -> bool
    decreases a,
{
    let eb = if a.context.before_each_hook is Some {
        a.context.before_each_hook
    } else {
        pb
    };
    let ea = if a.context.after_each_hook is Some {
        a.context.after_each_hook
    } else {
        pa
    };
    &&& b.context.before_each_hook == eb
    &&& b.context.after_each_hook == ea
    &&& b.context.before_all_hook == a.context.before_all_hook
    &&& b.context.after_all_hook == a.context.after_all_hook
    &&& b.context.owns_state == a.context.owns_state
    &&& forall|i: int|
        0 <= i < a.context.suites@.len() ==> hooks_inherited(
            #[trigger] a.context.suites@[i],
            b.context.suites@[i],
            eb,
            ea,
        )
}

/// A pass that leaves every hook slot and every store-ownership flag alone.
pub open spec fn hooks_kept<B, H>(a: Suite<B, H>, b: Suite<B, H>) -> bool
    decreases a,
{
    &&& b.context.before_all_hook == a.context.before_all_hook
    &&& b.context.before_each_hook == a.context.before_each_hook
    &&& b.context.after_each_hook == a.context.after_each_hook
    &&& b.context.after_all_hook == a.context.after_all_hook
    &&& b.context.owns_state == a.context.owns_state
    &&& b.context.suites@.len() == a.context.suites@.len()
    &&& forall|i: int|
        0 <= i < a.context.suites@.len() ==> hooks_kept(
            #[trigger] a.context.suites@[i],
            b.context.suites@[i],
        )
}

/// Two trees that agree on everything the store-effect fold reads fold the
/// store identically.
pub proof fn lemma_effect_same<B: SpecBody, H: Hook>(a: Suite<B, H>, b: Suite<B, H>, st: Seq<u8>)
    requires
        same_decl(a, b),
        hooks_kept(a, b),
    ensures
        suite_effect(b, st) == suite_effect(a, st),
    decreases a, 1nat,
{
    let st1 = opt_effect(a.context.before_all_hook, st);
    lemma_specs_effect_same(
        a.context.specs@,
        b.context.specs@,
        a.context.before_each_hook,
        a.context.after_each_hook,
        a.context.retries_,
        st1,
    );
    let st2 = specs_effect(
        a.context.specs@,
        a.context.before_each_hook,
        a.context.after_each_hook,
        a.context.retries_,
        st1,
    );
    lemma_suites_effect_same(a.context.suites@, b.context.suites@, st2);
}

proof fn lemma_specs_effect_same<B: SpecBody, H: Hook>(
    a: Seq<Spec<B>>,
    b: Seq<Spec<B>>,
    before: Option<H>,
    after: Option<H>,
    retries: Option<u32>,
    st: Seq<u8>,
)
    requires
        a.len() == b.len(),
        forall|i: int| 0 <= i < a.len() ==> same_spec_decl(#[trigger] a[i], b[i]),
    ensures
        specs_effect(b, before, after, retries, st) == specs_effect(a, before, after, retries, st),
    decreases a,
{
    if a.len() > 0 {
        lemma_specs_effect_same(a.drop_last(), b.drop_last(), before, after, retries, st);
        assert(same_spec_decl(a.last(), b.last()));
    }
}

proof fn lemma_suites_effect_same<B: SpecBody, H: Hook>(
    a: Seq<Suite<B, H>>,
    b: Seq<Suite<B, H>>,
    st: Seq<u8>,
)
    requires
        a.len() == b.len(),
        forall|i: int| 0 <= i < a.len() ==> same_decl(#[trigger] a[i], b[i]),
        forall|i: int| 0 <= i < a.len() ==> hooks_kept(#[trigger] a[i], b[i]),
    ensures
        suites_effect(b, st) == suites_effect(a, st),
    decreases a, 0nat,
{
    if a.len() > 0 {
        lemma_suites_effect_same(a.drop_last(), b.drop_last(), st);
        let st1 = suites_effect(a.drop_last(), st);
        assert(same_decl(a.last(), b.last()));
        assert(hooks_kept(a.last(), b.last()));
        if !(a.last().context.skip_ || a.last().context.owns_state) {
            lemma_effect_same(a.last(), b.last(), st1);
        }
    }
}

pub proof fn lemma_hooks_kept_trans<B, H>(a: Suite<B, H>, b: Suite<B, H>, c: Suite<B, H>)
    requires
        hooks_kept(a, b),
        hooks_kept(b, c),
    ensures
        hooks_kept(a, c),
    decreases a,
{
    assert forall|i: int| 0 <= i < a.context.suites@.len() implies hooks_kept(
        #[trigger] a.context.suites@[i],
        c.context.suites@[i],
    ) by {
        lemma_hooks_kept_trans(
            a.context.suites@[i],
            b.context.suites@[i],
            c.context.suites@[i],
        );
    }
}

/// Skip resolution touches no hook slot and no ownership flag.
pub proof fn lemma_resolved_hooks<B, H>(a: Suite<B, H>, b: Suite<B, H>, forced: bool)
    requires
        only_resolved(a, b, forced),
    ensures
        hooks_kept(a, b),
    decreases a,
{
    let skipping = forced || a.context.skip_;
    let suite_only = exists|k: int| 0 <= k < a.context.suites@.len() && a.context.suites@[k].only;
    assert forall|i: int| 0 <= i < a.context.suites@.len() implies hooks_kept(
        #[trigger] a.context.suites@[i],
        b.context.suites@[i],
    ) by {
        lemma_resolved_hooks(
            a.context.suites@[i],
            b.context.suites@[i],
            skipping || (suite_only && !a.context.suites@[i].only),
        );
    }
}

/// Retry inheritance touches no hook slot and no ownership flag.
pub proof fn lemma_retries_hooks<B, H>(a: Suite<B, H>, b: Suite<B, H>, inh: Option<u32>)
    requires
        retries_applied(a, b, inh),
    ensures
        hooks_kept(a, b),
    decreases a,
{
    let eff = if a.context.retries_ is Some {
        a.context.retries_
    } else {
        inh
    };
    assert forall|i: int| 0 <= i < a.context.suites@.len() implies hooks_kept(
        #[trigger] a.context.suites@[i],
        b.context.suites@[i],
    ) by {
        lemma_retries_hooks(a.context.suites@[i], b.context.suites@[i], eff);
    }
}

/// Build a suite by running its builder immediately: declaration happens
/// now, execution only inside `run()`.
pub fn describe<B: SpecBody, H: Hook, F: FnOnce(SuiteContext<B, H>) -> SuiteContext<B, H>>(
    name: &str,
    cb: F,
) -> (r: Suite<B, H>)
    requires
        forall|c: SuiteContext<B, H>| fresh_context(c) ==> call_requires(cb, (c,)),
    ensures
        r.name@ == name@,
        !r.only,
        r.duration_type is Nano,
        r.suite_duration == 0,
        r.total_duration == 0,
        r.depth == 0,
        r.reporter is Spec,
        r.start_time@.len() == 0,
        r.end_time@.len() == 0,
        exists|c0: SuiteContext<B, H>|
            fresh_context(c0) && #[trigger] call_ensures(cb, (c0,), r.context),
{
    let context = SuiteContext::new();
    let ghost c0 = context;
    let context = cb(context);
    let r = Suite {
        name: name.to_owned(),
        only: false,
        context,
        duration_type: DurationType::Nano,
        depth: 0,
        suite_duration: 0,
        total_duration: 0,
        reporter: Reporter::Spec,
        start_time: String::new(),
        end_time: String::new(),
    };
    proof {
        assert(fresh_context(c0) && call_ensures(cb, (c0,), r.context));
    }
    r
}

impl<B: SpecBody, H: Hook> Suite<B, H> {
    /// Same as `describe`: build a suite by running its builder now.
    pub fn new<F: FnOnce(SuiteContext<B, H>) -> SuiteContext<B, H>>(name: &str, cb: F) -> (r:
        Suite<B, H>)
        requires
            forall|c: SuiteContext<B, H>| fresh_context(c) ==> call_requires(cb, (c,)),
        ensures
            r.name@ == name@,
            !r.only,
            r.duration_type is Nano,
            r.suite_duration == 0,
            r.total_duration == 0,
            r.depth == 0,
            r.reporter is Spec,
            r.start_time@.len() == 0,
            r.end_time@.len() == 0,
            exists|c0: SuiteContext<B, H>|
                fresh_context(c0) && #[trigger] call_ensures(cb, (c0,), r.context),
    {
        describe(name, cb)
    }

    /// Report with the spec (indented tree) renderer.
    pub fn spec(self) -> (r: Self)
        ensures
            r == (Suite { reporter: Reporter::Spec, ..self }),
    {
        Suite { reporter: Reporter::Spec, ..self }
    }

    /// Report with the minimal renderer.
    pub fn min(self) -> (r: Self)
        ensures
            r == (Suite { reporter: Reporter::Min, ..self }),
    {
        Suite { reporter: Reporter::Min, ..self }
    }

    /// Report with the dot-per-spec renderer.
    pub fn dot(self) -> (r: Self)
        ensures
            r == (Suite { reporter: Reporter::Dot, ..self }),
    {
        Suite { reporter: Reporter::Dot, ..self }
    }

    /// Report with the one-line-per-spec renderer.
    pub fn list(self) -> (r: Self)
        ensures
            r == (Suite { reporter: Reporter::List, ..self }),
    {
        Suite { reporter: Reporter::List, ..self }
    }

    /// Report in TAP form.
    pub fn tap(self) -> (r: Self)
        ensures
            r == (Suite { reporter: Reporter::Tap, ..self }),
    {
        Suite { reporter: Reporter::Tap, ..self }
    }

    /// Report in the style of Rust's own test harness.
    pub fn rust(self) -> (r: Self)
        ensures
            r == (Suite { reporter: Reporter::Rust, ..self }),
    {
        Suite { reporter: Reporter::Rust, ..self }
    }

    /// Report as compact JSON.
    pub fn json(self) -> (r: Self)
        ensures
            r == (Suite { reporter: Reporter::Json(false), ..self }),
    {
        Suite { reporter: Reporter::Json(false), ..self }
    }

    /// Report as pretty-printed JSON.
    pub fn json_pretty(self) -> (r: Self)
        ensures
            r == (Suite { reporter: Reporter::Json(true), ..self }),
    {
        Suite { reporter: Reporter::Json(true), ..self }
    }

    /// Measure times in nanoseconds.
    pub fn nano(self) -> (r: Self)
        ensures
            r == (Suite { duration_type: DurationType::Nano, ..self }),
    {
        Suite { duration_type: DurationType::Nano, ..self }
    }

    /// Measure times in microseconds.
    pub fn micro(self) -> (r: Self)
        ensures
            r == (Suite { duration_type: DurationType::Micro, ..self }),
    {
        Suite { duration_type: DurationType::Micro, ..self }
    }

    /// Measure times in milliseconds.
    pub fn milis(self) -> (r: Self)
        ensures
            r == (Suite { duration_type: DurationType::Mil, ..self }),
    {
        Suite { duration_type: DurationType::Mil, ..self }
    }

    /// Measure times in whole seconds.
    pub fn sec(self) -> (r: Self)
        ensures
            r == (Suite { duration_type: DurationType::Sec, ..self }),
    {
        Suite { duration_type: DurationType::Sec, ..self }
    }

    /// Give this suite an isolated store holding `value`, instead of sharing
    /// its parent's.
    pub fn state(self, value: StateValue) -> (r: Self)
        ensures
            r == (Suite { context: r.context, ..self }),
            r.context == (SuiteContext { state: r.context.state, owns_state: true, ..self.context }),
            r.context.state@ == encoding_of(value),
    {
        let mut this = self;
        let _ = this.context.state.set(value);
        this.context.owns_state = true;
        this
    }

    /// Share the parent suite's store (the default).
    pub fn inherit_state(self) -> (r: Self)
        ensures
            r == (Suite { context: r.context, ..self }),
            r.context == (SuiteContext { owns_state: false, ..self.context }),
    {
        let mut this = self;
        this.context.owns_state = false;
        this
    }

    /// Pass 1: each child sits one level deeper than its parent.
    fn apply_depth_to_suites(suite: &mut Suite<B, H>)
        requires
            old(suite).depth + suite_height(*old(suite)) <= u32::MAX,
        ensures
            *final(suite) == (Suite { context: final(suite).context, ..*old(suite) }),
            final(suite).context == (SuiteContext {
                suites: final(suite).context.suites,
                ..old(suite).context
            }),
            same_decl(*old(suite), *final(suite)),
            hooks_kept(*old(suite), *final(suite)),
            suite_height(*final(suite)) == suite_height(*old(suite)),
            total_specs(*final(suite)) == total_specs(*old(suite)),
            depths_assigned(*final(suite)),
        decreases suite_height(*old(suite)),
    {
        let n = suite.context.suites.len();
        let mut i: usize = 0;
        while i < n
            invariant
                i <= n,
                n == suite.context.suites@.len(),
                n == old(suite).context.suites@.len(),
                old(suite).depth + suite_height(*old(suite)) <= u32::MAX,
                suite_height(*old(suite)) == 1 + forest_height(old(suite).context.suites@),
                *suite == (Suite { context: suite.context, ..*old(suite) }),
                suite.context == (SuiteContext { suites: suite.context.suites, ..old(suite).context }),
                forall|j: int| i <= j < n ==> suite.context.suites@[j] == old(suite).context.suites@[j],
                forall|j: int|
                    0 <= j < i ==> {
                        let oc = old(suite).context.suites@[j];
                        let nc = #[trigger] suite.context.suites@[j];
                        &&& nc == (Suite { context: nc.context, depth: (old(suite).depth + 1) as u32, ..oc })
                        &&& nc.context == (SuiteContext { suites: nc.context.suites, ..oc.context })
                        &&& same_decl(oc, nc)
                        &&& hooks_kept(oc, nc)
                        &&& suite_height(nc) == suite_height(oc)
                        &&& total_specs(nc) == total_specs(oc)
                        &&& depths_assigned(nc)
                    },
            decreases n - i,
        {
            proof {
                lemma_forest_height_member(old(suite).context.suites@, i as int);
            }
            let d = suite.depth;
            let child = &mut suite.context.suites[i];
            child.depth = d + 1;
            Suite::apply_depth_to_suites(child);
            i = i + 1;
        }
        proof {
            assert forall|j: int| 0 <= j < n implies same_spec_decl(
                #[trigger] old(suite).context.specs@[j],
                final(suite).context.specs@[j],
            ) by {}
            lemma_forest_height_ext(old(suite).context.suites@, final(suite).context.suites@);
            lemma_forest_specs_ext(old(suite).context.suites@, final(suite).context.suites@);
        }
    }

    /// Pass 6: force the root's time unit onto every descendant.
    fn apply_duration_type(suite: &mut Suite<B, H>)
        ensures
            *final(suite) == (Suite { context: final(suite).context, ..*old(suite) }),
            final(suite).context == (SuiteContext {
                suites: final(suite).context.suites,
                ..old(suite).context
            }),
            same_decl(*old(suite), *final(suite)),
            suite_height(*final(suite)) == suite_height(*old(suite)),
            total_specs(*final(suite)) == total_specs(*old(suite)),
            dtypes_assigned(*final(suite), old(suite).duration_type),
            depths_kept(*old(suite), *final(suite)),
            orders_kept(*old(suite), *final(suite)),
            hooks_kept(*old(suite), *final(suite)),
        decreases suite_height(*old(suite)),
    {
        let n = suite.context.suites.len();
        let mut i: usize = 0;
        while i < n
            invariant
                i <= n,
                n == suite.context.suites@.len(),
                n == old(suite).context.suites@.len(),
                suite_height(*old(suite)) == 1 + forest_height(old(suite).context.suites@),
                *suite == (Suite { context: suite.context, ..*old(suite) }),
                suite.context == (SuiteContext { suites: suite.context.suites, ..old(suite).context }),
                forall|j: int| i <= j < n ==> suite.context.suites@[j] == old(suite).context.suites@[j],
                forall|j: int|
                    0 <= j < i ==> {
                        let oc = old(suite).context.suites@[j];
                        let nc = #[trigger] suite.context.suites@[j];
                        &&& nc == (Suite { context: nc.context, duration_type: old(suite).duration_type, ..oc })
                        &&& nc.context == (SuiteContext { suites: nc.context.suites, ..oc.context })
                        &&& same_decl(oc, nc)
                        &&& suite_height(nc) == suite_height(oc)
                        &&& total_specs(nc) == total_specs(oc)
                        &&& dtypes_assigned(nc, old(suite).duration_type)
                        &&& depths_kept(oc, nc)
                        &&& orders_kept(oc, nc)
                        &&& hooks_kept(oc, nc)
                    },
            decreases n - i,
        {
            proof {
                lemma_forest_height_member(old(suite).context.suites@, i as int);
            }
            let t = suite.duration_type;
            let child = &mut suite.context.suites[i];
            child.duration_type = t;
            Suite::apply_duration_type(child);
            i = i + 1;
        }
        proof {
            assert forall|j: int| 0 <= j < n implies same_spec_decl(
                #[trigger] old(suite).context.specs@[j],
                final(suite).context.specs@[j],
            ) by {}
            lemma_forest_height_ext(old(suite).context.suites@, final(suite).context.suites@);
            lemma_forest_specs_ext(old(suite).context.suites@, final(suite).context.suites@);
        }
    }

    /// Pass 4: a child that declares no `before_each`/`after_each` of its
    /// own adopts its parent's, recursively.
    fn apply_hooks(suite: &mut Suite<B, H>, pb: &Option<H>, pa: &Option<H>)
        ensures
            *final(suite) == (Suite { context: final(suite).context, ..*old(suite) }),
            final(suite).context == (SuiteContext {
                suites: final(suite).context.suites,
                before_each_hook: final(suite).context.before_each_hook,
                after_each_hook: final(suite).context.after_each_hook,
                ..old(suite).context
            }),
            same_decl(*old(suite), *final(suite)),
            suite_height(*final(suite)) == suite_height(*old(suite)),
            total_specs(*final(suite)) == total_specs(*old(suite)),
            hooks_inherited(*old(suite), *final(suite), *pb, *pa),
            layout_kept(*old(suite), *final(suite)),
        decreases suite_height(*old(suite)),
    {
        if suite.context.before_each_hook.is_none() {
            if let Some(h) = pb {
                suite.context.before_each_hook = Some(h.duplicate());
            }
        }
        if suite.context.after_each_hook.is_none() {
            if let Some(h) = pa {
                suite.context.after_each_hook = Some(h.duplicate());
            }
        }
        let ghost nb = if old(suite).context.before_each_hook is Some {
            old(suite).context.before_each_hook
        } else {
            *pb
        };
        let ghost na = if old(suite).context.after_each_hook is Some {
            old(suite).context.after_each_hook
        } else {
            *pa
        };
        let n = suite.context.suites.len();
        let mut i: usize = 0;
        while i < n
            invariant
                i <= n,
                n == suite.context.suites@.len(),
                n == old(suite).context.suites@.len(),
                suite_height(*old(suite)) == 1 + forest_height(old(suite).context.suites@),
                nb == (if old(suite).context.before_each_hook is Some {
                    old(suite).context.before_each_hook
                } else {
                    *pb
                }),
                na == (if old(suite).context.after_each_hook is Some {
                    old(suite).context.after_each_hook
                } else {
                    *pa
                }),
                *suite == (Suite { context: suite.context, ..*old(suite) }),
                suite.context == (SuiteContext {
                    suites: suite.context.suites,
                    before_each_hook: suite.context.before_each_hook,
                    after_each_hook: suite.context.after_each_hook,
                    ..old(suite).context
                }),
                suite.context.before_each_hook == nb,
                suite.context.after_each_hook == na,
                forall|j: int| i <= j < n ==> suite.context.suites@[j] == old(suite).context.suites@[j],
                forall|j: int|
                    0 <= j < i ==> {
                        let oc = old(suite).context.suites@[j];
                        let nc = #[trigger] suite.context.suites@[j];
                        &&& same_decl(oc, nc)
                        &&& suite_height(nc) == suite_height(oc)
                        &&& total_specs(nc) == total_specs(oc)
                        &&& hooks_inherited(oc, nc, nb, na)
                        &&& layout_kept(oc, nc)
                    },
            decreases n - i,
        {
            proof {
                lemma_forest_height_member(old(suite).context.suites@, i as int);
            }
            let ghost old_child = suite.context.suites@[i as int];
            let pb2 = &suite.context.before_each_hook;
            let pa2 = &suite.context.after_each_hook;
            let child = &mut suite.context.suites[i];
            Suite::apply_hooks(child, pb2, pa2);
            i = i + 1;
        }
        proof {
            assert forall|j: int| 0 <= j < n implies same_spec_decl(
                #[trigger] old(suite).context.specs@[j],
                final(suite).context.specs@[j],
            ) by {}
            lemma_forest_height_ext(old(suite).context.suites@, final(suite).context.suites@);
            lemma_forest_specs_ext(old(suite).context.suites@, final(suite).context.suites@);
        }
    }
}

impl<B: SpecBody, H: Hook> Suite<B, H> {
    /// Pass 2: give every spec its pre-order position, own specs before
    /// child suites.
    fn index_specs(suite: &mut Suite<B, H>, count: &mut u32)
        requires
            *old(count) + total_specs(*old(suite)) <= u32::MAX,
        ensures
            *final(suite) == (Suite { context: final(suite).context, ..*old(suite) }),
            final(suite).context == (SuiteContext {
                specs: final(suite).context.specs,
                suites: final(suite).context.suites,
                ..old(suite).context
            }),
            same_decl(*old(suite), *final(suite)),
            suite_height(*final(suite)) == suite_height(*old(suite)),
            total_specs(*final(suite)) == total_specs(*old(suite)),
            specs_indexed(*old(suite), *final(suite), *old(count) as nat),
            depths_kept(*old(suite), *final(suite)),
            hooks_kept(*old(suite), *final(suite)),
            *final(count) == *old(count) + total_specs(*old(suite)),
        decreases suite_height(*old(suite)),
    {
        let ns = suite.context.specs.len();
        let mut i: usize = 0;
        while i < ns
            invariant
                i <= ns,
                ns == suite.context.specs@.len(),
                ns == old(suite).context.specs@.len(),
                *old(count) + total_specs(*old(suite)) <= u32::MAX,
                total_specs(*old(suite)) == old(suite).context.specs@.len() + forest_specs(
                    old(suite).context.suites@,
                ),
                *count == *old(count) + i,
                *suite == (Suite { context: suite.context, ..*old(suite) }),
                suite.context == (SuiteContext { specs: suite.context.specs, ..old(suite).context }),
                forall|j: int| i <= j < ns ==> suite.context.specs@[j] == old(suite).context.specs@[j],
                forall|j: int|
                    0 <= j < i ==> suite.context.specs@[j] == (Spec {
                        order: Some((*old(count) + j) as u32),
                        ..(#[trigger] old(suite).context.specs@[j])
                    }),
            decreases ns - i,
        {
            let c = *count;
            let sp = &mut suite.context.specs[i];
            sp.order = Some(c);
            *count = c + 1;
            i = i + 1;
        }
        let ghost mid = *suite;
        let ghost count_mid = *count;
        let n = suite.context.suites.len();
        let mut k: usize = 0;
        while k < n
            invariant
                k <= n,
                n == suite.context.suites@.len(),
                n == old(suite).context.suites@.len(),
                ns == old(suite).context.specs@.len(),
                *old(count) + total_specs(*old(suite)) <= u32::MAX,
                total_specs(*old(suite)) == old(suite).context.specs@.len() + forest_specs(
                    old(suite).context.suites@,
                ),
                suite_height(*old(suite)) == 1 + forest_height(old(suite).context.suites@),
                count_mid == *old(count) + ns,
                *count == count_mid + forest_specs(old(suite).context.suites@.subrange(0, k as int)),
                *suite == (Suite { context: suite.context, ..mid }),
                suite.context == (SuiteContext { suites: suite.context.suites, ..mid.context }),
                mid == (Suite { context: mid.context, ..*old(suite) }),
                mid.context == (SuiteContext { specs: mid.context.specs, ..old(suite).context }),
                mid.context.specs@.len() == ns,
                forall|j: int|
                    0 <= j < ns ==> mid.context.specs@[j] == (Spec {
                        order: Some((*old(count) + j) as u32),
                        ..(#[trigger] old(suite).context.specs@[j])
                    }),
                forall|j: int| k <= j < n ==> suite.context.suites@[j] == old(suite).context.suites@[j],
                forall|j: int|
                    0 <= j < k ==> {
                        let oc = old(suite).context.suites@[j];
                        let nc = #[trigger] suite.context.suites@[j];
                        &&& same_decl(oc, nc)
                        &&& suite_height(nc) == suite_height(oc)
                        &&& total_specs(nc) == total_specs(oc)
                        &&& specs_indexed(
                            oc,
                            nc,
                            (*old(count) + ns) as nat + forest_specs(
                                old(suite).context.suites@.subrange(0, j),
                            ),
                        )
                        &&& depths_kept(oc, nc)
                        &&& hooks_kept(oc, nc)
                    },
            decreases n - k,
        {
            proof {
                lemma_forest_height_member(old(suite).context.suites@, k as int);
                lemma_forest_specs_prefix(old(suite).context.suites@, k as int);
                lemma_forest_specs_prefix_le(old(suite).context.suites@, k as int + 1);
            }
            let child = &mut suite.context.suites[k];
            Suite::index_specs(child, count);
            k = k + 1;
        }
        proof {
            lemma_forest_specs_whole(old(suite).context.suites@);
            assert forall|j: int| 0 <= j < ns implies same_spec_decl(
                #[trigger] old(suite).context.specs@[j],
                final(suite).context.specs@[j],
            ) by {}
            lemma_forest_height_ext(old(suite).context.suites@, final(suite).context.suites@);
            lemma_forest_specs_ext(old(suite).context.suites@, final(suite).context.suites@);
        }
    }

    /// Pass 3: resolve skip and focus directives, independently per node.
    fn ignore_non_onlys(suite: &mut Suite<B, H>, forced: bool)
        ensures
            only_resolved(*old(suite), *final(suite), forced),
            suite_height(*final(suite)) == suite_height(*old(suite)),
            total_specs(*final(suite)) == total_specs(*old(suite)),
        decreases suite_height(*old(suite)),
    {
        if forced {
            suite.context.skip_ = true;
        }
        let skipping = suite.context.skip_;
        let ns = suite.context.specs.len();
        if skipping {
            let mut i: usize = 0;
            while i < ns
                invariant
                    i <= ns,
                    ns == suite.context.specs@.len(),
                    ns == old(suite).context.specs@.len(),
                    *suite == (Suite { context: suite.context, ..*old(suite) }),
                    suite.context == (SuiteContext {
                        specs: suite.context.specs,
                        skip_: true,
                        ..old(suite).context
                    }),
                    forall|j: int|
                        i <= j < ns ==> suite.context.specs@[j] == old(suite).context.specs@[j],
                    forall|j: int|
                        0 <= j < i ==> suite.context.specs@[j] == (Spec {
                            skip: true,
                            ..(#[trigger] old(suite).context.specs@[j])
                        }),
                decreases ns - i,
            {
                let sp = &mut suite.context.specs[i];
                sp.skip = true;
                i = i + 1;
            }
        } else {
            let mut has_only = false;
            let mut i: usize = 0;
            while i < ns
                invariant
                    i <= ns,
                    ns == suite.context.specs@.len(),
                    *suite == *old(suite),
                    has_only == exists|k: int| 0 <= k < i && suite.context.specs@[k].only,
                decreases ns - i,
            {
                if suite.context.specs[i].only {
                    has_only = true;
                }
                i = i + 1;
            }
            if has_only {
                let mut j: usize = 0;
                while j < ns
                    invariant
                        j <= ns,
                        ns == suite.context.specs@.len(),
                        ns == old(suite).context.specs@.len(),
                        *suite == (Suite { context: suite.context, ..*old(suite) }),
                        suite.context == (SuiteContext {
                            specs: suite.context.specs,
                            ..old(suite).context
                        }),
                        forall|k: int|
                            j <= k < ns ==> suite.context.specs@[k] == old(suite).context.specs@[k],
                        forall|k: int|
                            0 <= k < j ==> suite.context.specs@[k] == (Spec {
                                skip: old(suite).context.specs@[k].skip || !old(
                                    suite,
                                ).context.specs@[k].only,
                                ..(#[trigger] old(suite).context.specs@[k])
                            }),
                    decreases ns - j,
                {
                    let sp = &mut suite.context.specs[j];
                    if !sp.only {
                        sp.skip = true;
                    }
                    j = j + 1;
                }
            }
        }
        let ghost mid = *suite;
        let n = suite.context.suites.len();
        let mut has_only_s = false;
        let mut i: usize = 0;
        while i < n
            invariant
                i <= n,
                n == suite.context.suites@.len(),
                *suite == mid,
                has_only_s == exists|k: int| 0 <= k < i && suite.context.suites@[k].only,
            decreases n - i,
        {
            if suite.context.suites[i].only {
                has_only_s = true;
            }
            i = i + 1;
        }
        let mut k: usize = 0;
        while k < n
            invariant
                k <= n,
                n == suite.context.suites@.len(),
                n == old(suite).context.suites@.len(),
                suite_height(*old(suite)) == 1 + forest_height(old(suite).context.suites@),
                mid.context.suites@ == old(suite).context.suites@,
                has_only_s == exists|j: int|
                    0 <= j < n && old(suite).context.suites@[j].only,
                skipping == (forced || old(suite).context.skip_),
                *suite == (Suite { context: suite.context, ..mid }),
                suite.context == (SuiteContext { suites: suite.context.suites, ..mid.context }),
                forall|j: int| k <= j < n ==> suite.context.suites@[j] == old(suite).context.suites@[j],
                forall|j: int|
                    0 <= j < k ==> {
                        let oc = old(suite).context.suites@[j];
                        let nc = #[trigger] suite.context.suites@[j];
                        &&& only_resolved(oc, nc, skipping || (has_only_s && !oc.only))
                        &&& suite_height(nc) == suite_height(oc)
                        &&& total_specs(nc) == total_specs(oc)
                    },
            decreases n - k,
        {
            proof {
                lemma_forest_height_member(old(suite).context.suites@, k as int);
            }
            let conly = suite.context.suites[k].only;
            let child = &mut suite.context.suites[k];
            Suite::ignore_non_onlys(child, skipping || (has_only_s && !conly));
            k = k + 1;
        }
        proof {
            lemma_forest_height_ext(old(suite).context.suites@, final(suite).context.suites@);
            lemma_forest_specs_ext(old(suite).context.suites@, final(suite).context.suites@);
        }
    }

    /// Retry inheritance: hand the nearest suite-level retry override down
    /// to every spec and suite lacking its own.
    fn apply_retries(suite: &mut Suite<B, H>, inherited: Option<u32>)
        ensures
            retries_applied(*old(suite), *final(suite), inherited),
            suite_height(*final(suite)) == suite_height(*old(suite)),
            total_specs(*final(suite)) == total_specs(*old(suite)),
        decreases suite_height(*old(suite)),
    {
        let eff = if suite.context.retries_.is_some() {
            suite.context.retries_
        } else {
            inherited
        };
        suite.context.retries_ = eff;
        let ns = suite.context.specs.len();
        let mut i: usize = 0;
        while i < ns
            invariant
                i <= ns,
                ns == suite.context.specs@.len(),
                ns == old(suite).context.specs@.len(),
                eff == (if old(suite).context.retries_ is Some {
                    old(suite).context.retries_
                } else {
                    inherited
                }),
                *suite == (Suite { context: suite.context, ..*old(suite) }),
                suite.context == (SuiteContext {
                    specs: suite.context.specs,
                    retries_: eff,
                    ..old(suite).context
                }),
                forall|j: int| i <= j < ns ==> suite.context.specs@[j] == old(suite).context.specs@[j],
                forall|j: int|
                    0 <= j < i ==> {
                        let sp = #[trigger] old(suite).context.specs@[j];
                        &&& suite.context.specs@[j] == (Spec {
                            context: suite.context.specs@[j].context,
                            ..sp
                        })
                        &&& suite.context.specs@[j].context == (SpecContext {
                            retries_: if sp.context.retries_ is Some {
                                sp.context.retries_
                            } else {
                                eff
                            },
                            ..sp.context
                        })
                    },
            decreases ns - i,
        {
            let sp = &mut suite.context.specs[i];
            if sp.context.retries_.is_none() {
                sp.context.retries_ = eff;
            }
            i = i + 1;
        }
        let ghost mid = *suite;
        let n = suite.context.suites.len();
        let mut k: usize = 0;
        while k < n
            invariant
                k <= n,
                n == suite.context.suites@.len(),
                n == old(suite).context.suites@.len(),
                suite_height(*old(suite)) == 1 + forest_height(old(suite).context.suites@),
                mid.context.suites@ == old(suite).context.suites@,
                eff == (if old(suite).context.retries_ is Some {
                    old(suite).context.retries_
                } else {
                    inherited
                }),
                *suite == (Suite { context: suite.context, ..mid }),
                suite.context == (SuiteContext { suites: suite.context.suites, ..mid.context }),
                forall|j: int| k <= j < n ==> suite.context.suites@[j] == old(suite).context.suites@[j],
                forall|j: int|
                    0 <= j < k ==> {
                        let oc = old(suite).context.suites@[j];
                        let nc = #[trigger] suite.context.suites@[j];
                        &&& retries_applied(oc, nc, eff)
                        &&& suite_height(nc) == suite_height(oc)
                        &&& total_specs(nc) == total_specs(oc)
                    },
            decreases n - k,
        {
            proof {
                lemma_forest_height_member(old(suite).context.suites@, k as int);
            }
            let child = &mut suite.context.suites[k];
            Suite::apply_retries(child, eff);
            k = k + 1;
        }
        proof {
            lemma_forest_height_ext(old(suite).context.suites@, final(suite).context.suites@);
            lemma_forest_specs_ext(old(suite).context.suites@, final(suite).context.suites@);
        }
    }
}

/// What an optional hook writes: nothing, when there is none.
pub open spec fn opt_effect<H: Hook>(h: Option<H>, st: Seq<u8>) -> Seq<u8> {
    match h {
        Some(hook) => hook.effect(st),
        None => st,
    }
}

/// The store's bytes after the attempt loop of one spec, entered at attempt
/// `at` on bytes `st`: each attempt is `before_each`, the body, then
/// `after_each`; the loop stops at the first passing attempt or once the
/// budget is spent.
pub open spec fn attempts_effect<B: SpecBody, H: Hook>(
    body: B,
    before: Option<H>,
    after: Option<H>,
    budget: u32,
    at: u32,
    st: Seq<u8>,
) -> Seq<u8>
    decreases budget - at,
{
    let st1 = opt_effect(before, st);
    let st2 = body.post_state(at, st1);
    let st3 = opt_effect(after, st2);
    if body.outcome(at, st1) is None || at >= budget {
        st3
    } else {
        attempts_effect(body, before, after, budget, (at + 1) as u32, st3)
    }
}

/// The store's bytes after a suite's own specs have run, left to right:
/// a skipped spec leaves the store alone.
pub open spec fn specs_effect<B: SpecBody, H: Hook>(
    specs: Seq<Spec<B>>,
    before: Option<H>,
    after: Option<H>,
    retries: Option<u32>,
    st: Seq<u8>,
) -> Seq<u8>
    decreases specs,
{
    if specs.len() == 0 {
        st
    } else {
        let sp = specs.last();
        let st1 = specs_effect(specs.drop_last(), before, after, retries, st);
        if sp.skip {
            st1
        } else {
            attempts_effect(
                sp.hook,
                before,
                after,
                (eff_retries(sp.context.retries_, retries) + 1) as u32,
                1,
                st1,
            )
        }
    }
}

/// The store's bytes after one whole suite has run on it: `before_all`
/// first, then its own specs in declaration order, then its non-skipped
/// children in order, then `after_all`. A skipped child, or one with an
/// isolated store, leaves the shared store alone.
pub open spec fn suite_effect<B: SpecBody, H: Hook>(s: Suite<B, H>, st: Seq<u8>) -> Seq<u8>
    decreases s,
{
    let st1 = opt_effect(s.context.before_all_hook, st);
    let st2 = specs_effect(
        s.context.specs@,
        s.context.before_each_hook,
        s.context.after_each_hook,
        s.context.retries_,
        st1,
    );
    let st3 = suites_effect(s.context.suites@, st2);
    opt_effect(s.context.after_all_hook, st3)
}

pub open spec fn suites_effect<B: SpecBody, H: Hook>(ss: Seq<Suite<B, H>>, st: Seq<u8>) -> Seq<u8>
    decreases ss,
{
    if ss.len() == 0 {
        st
    } else {
        let st1 = suites_effect(ss.drop_last(), st);
        let c = ss.last();
        if c.context.skip_ || c.context.owns_state {
            st1
        } else {
            suite_effect(c, st1)
        }
    }
}

proof fn lemma_specs_effect_prefix<B: SpecBody, H: Hook>(
    specs: Seq<Spec<B>>,
    before: Option<H>,
    after: Option<H>,
    retries: Option<u32>,
    st: Seq<u8>,
    i: int,
)
    requires
        0 <= i < specs.len(),
    ensures
        specs_effect(specs.subrange(0, i + 1), before, after, retries, st) == {
            let sp = specs[i];
            let st1 = specs_effect(specs.subrange(0, i), before, after, retries, st);
            if sp.skip {
                st1
            } else {
                attempts_effect(
                    sp.hook,
                    before,
                    after,
                    (eff_retries(sp.context.retries_, retries) + 1) as u32,
                    1,
                    st1,
                )
            }
        },
{
    let p = specs.subrange(0, i + 1);
    assert(p.drop_last() =~= specs.subrange(0, i));
    assert(p.last() == specs[i]);
}

proof fn lemma_suites_effect_prefix<B: SpecBody, H: Hook>(ss: Seq<Suite<B, H>>, st: Seq<u8>, i: int)
    requires
        0 <= i < ss.len(),
    ensures
        suites_effect(ss.subrange(0, i + 1), st) == {
            let st1 = suites_effect(ss.subrange(0, i), st);
            let c = ss[i];
            if c.context.skip_ || c.context.owns_state {
                st1
            } else {
                suite_effect(c, st1)
            }
        },
{
    let p = ss.subrange(0, i + 1);
    assert(p.drop_last() =~= ss.subrange(0, i));
    assert(p.last() == ss[i]);
}

/// A measured time, converted from nanoseconds into the run's unit.
pub open spec fn unit_of(nanos: u128, t: DurationType) -> u128 {
    match t {
        DurationType::Nano => nanos,
        DurationType::Micro => nanos / 1000,
        DurationType::Mil => nanos / 1000000,
        DurationType::Sec => nanos / 1000000000,
    }
}

impl<B: SpecBody, H: Hook> Suite<B, H> {
    /// Convert a nanosecond reading into the unit this run reports in.
    fn to_unit(nanos: u128, t: DurationType) -> (r: u128)
        ensures
            r == unit_of(nanos, t),
    {
        match t {
            DurationType::Nano => nanos,
            DurationType::Micro => nanos / 1000,
            DurationType::Mil => nanos / 1000000,
            DurationType::Sec => nanos / 1000000000,
        }
    }

    /// Run one non-skipped spec: up to `budget + 1` attempts, each wrapped
    /// in the `before_each`/`after_each` hooks, timed, stopping at the first
    /// success; the last attempt's result and duration are what stays.
    fn run_one_spec(
        sp: &mut Spec<B>,
        suite_retries: Option<u32>,
        before: &Option<H>,
        after: &Option<H>,
        store: &mut State,
        dtype: DurationType,
    )
        requires
            !old(sp).skip,
            old(sp).context.attempts == 0,
            old(sp).context.retries_ matches Some(n) ==> n < u32::MAX,
            suite_retries matches Some(n) ==> n < u32::MAX,
        ensures
            spec_ran(*old(sp), *final(sp), suite_retries),
            final(store)@ == attempts_effect(
                old(sp).hook,
                *before,
                *after,
                (eff_retries(old(sp).context.retries_, suite_retries) + 1) as u32,
                1,
                old(store)@,
            ),
        decreases 0nat,
    {
        let budget: u32 = match sp.context.retries_ {
            Some(r) => r,
            None => match suite_retries {
                Some(r) => r,
                None => 0,
            },
        };
        loop
            invariant
                budget < u32::MAX,
                budget == eff_retries(old(sp).context.retries_, suite_retries),
                sp.context.attempts <= budget,
                !old(sp).skip,
                *sp == (Spec { result: sp.result, duration: sp.duration, context: sp.context, ..*old(sp) }),
                forall|j: u32| 1 <= j <= sp.context.attempts ==> some_failure(old(sp).hook, j),
                attempts_effect(
                    old(sp).hook,
                    *before,
                    *after,
                    (budget + 1) as u32,
                    (sp.context.attempts + 1) as u32,
                    store@,
                ) == attempts_effect(
                    old(sp).hook,
                    *before,
                    *after,
                    (budget + 1) as u32,
                    1,
                    old(store)@,
                ),
            ensures
                spec_ran(*old(sp), *sp, suite_retries),
                store@ == attempts_effect(
                    old(sp).hook,
                    *before,
                    *after,
                    (budget + 1) as u32,
                    1,
                    old(store)@,
                ),
            decreases budget - sp.context.attempts,
        {
            let ghost st_head = store@;
            if let Some(h) = before {
                h.call(store);
            }
            proof {
                assert(store@ == opt_effect(*before, st_head));
            }
            sp.context.attempts = sp.context.attempts + 1;
            core::mem::swap(store, &mut sp.context.state);
            let ghost st0 = sp.context.state@;
            let t0 = crate::timing::instant_now();
            let res = SpecBody::call(&sp.hook, &mut sp.context);
            let d = crate::timing::instant_elapsed(&t0);
            let nanos = crate::timing::duration_as_nanos(&d);
            core::mem::swap(store, &mut sp.context.state);
            sp.duration = Self::to_unit(nanos, dtype);
            proof {
                assert(store@ == old(sp).hook.post_state(sp.context.attempts, st0));
            }
            if let Some(h) = after {
                h.call(store);
            }
            proof {
                assert(store@ == opt_effect(
                    *after,
                    old(sp).hook.post_state(sp.context.attempts, opt_effect(*before, st_head)),
                ));
            }
            match res {
                Ok(u) => {
                    proof {
                        assert(some_success(old(sp).hook, sp.context.attempts));
                        assert(old(sp).hook.outcome(sp.context.attempts, st0) is None);
                        assert(attempts_effect(
                            old(sp).hook,
                            *before,
                            *after,
                            (budget + 1) as u32,
                            sp.context.attempts,
                            st_head,
                        ) == store@);
                    }
                    sp.result = Some(Ok(u));
                    return ;
                },
                Err(m) => {
                    proof {
                        assert(old(sp).hook.outcome(sp.context.attempts, st0) == Some(m@));
                        assert(some_failure(old(sp).hook, sp.context.attempts));
                        assert(failure_with(old(sp).hook, sp.context.attempts, m@));
                    }
                    let exhausted = sp.context.attempts > budget;
                    sp.result = Some(Err(m));
                    if exhausted {
                        proof {
                            assert(attempts_effect(
                                old(sp).hook,
                                *before,
                                *after,
                                (budget + 1) as u32,
                                sp.context.attempts,
                                st_head,
                            ) == store@);
                        }
                        return ;
                    }
                    proof {
                        assert(attempts_effect(
                            old(sp).hook,
                            *before,
                            *after,
                            (budget + 1) as u32,
                            sp.context.attempts,
                            st_head,
                        ) == attempts_effect(
                            old(sp).hook,
                            *before,
                            *after,
                            (budget + 1) as u32,
                            (sp.context.attempts + 1) as u32,
                            store@,
                        ));
                    }
                },
            }
        }
    }

    /// Pass 7: execute the tree depth-first — this suite's `before_all`,
    /// its own specs in declaration order, its non-skipped children, then
    /// its `after_all` — threading the shared store down the recursion.
    fn run_specs_and_suites(suite: &mut Suite<B, H>, store: &mut State)
        requires
            exec_ready(*old(suite)),
        ensures
            suite_ran(*old(suite), *final(suite)),
            suite_height(*final(suite)) == suite_height(*old(suite)),
            total_specs(*final(suite)) == total_specs(*old(suite)),
            final(store)@ == suite_effect(*old(suite), old(store)@),
        decreases suite_height(*old(suite)),
    {
        let t = crate::timing::system_now();
        suite.start_time = crate::timing::utc_string(t);
        if let Some(h) = &suite.context.before_all_hook {
            h.call(store);
        }
        let ghost st_ba = store@;
        proof {
            assert(st_ba == opt_effect(old(suite).context.before_all_hook, old(store)@));
        }
        let suite_retries = suite.context.retries_;
        let dtype = suite.duration_type;
        let ns = suite.context.specs.len();
        let mut i: usize = 0;
        while i < ns
            invariant
                i <= ns,
                ns == suite.context.specs@.len(),
                ns == old(suite).context.specs@.len(),
                exec_ready(*old(suite)),
                suite_retries == old(suite).context.retries_,
                *suite == (Suite { context: suite.context, start_time: suite.start_time, ..*old(suite) }),
                suite.context == (SuiteContext { specs: suite.context.specs, ..old(suite).context }),
                store@ == specs_effect(
                    old(suite).context.specs@.subrange(0, i as int),
                    old(suite).context.before_each_hook,
                    old(suite).context.after_each_hook,
                    old(suite).context.retries_,
                    st_ba,
                ),
                forall|j: int| i <= j < ns ==> suite.context.specs@[j] == old(suite).context.specs@[j],
                forall|j: int|
                    0 <= j < i ==> spec_ran(
                        #[trigger] old(suite).context.specs@[j],
                        suite.context.specs@[j],
                        old(suite).context.retries_,
                    ),
            decreases ns - i,
        {
            proof {
                lemma_specs_effect_prefix(
                    old(suite).context.specs@,
                    old(suite).context.before_each_hook,
                    old(suite).context.after_each_hook,
                    old(suite).context.retries_,
                    st_ba,
                    i as int,
                );
            }
            let skip = suite.context.specs[i].skip;
            if !skip {
                proof {
                    assert(!(#[trigger] old(suite).context.specs@[i as int]).skip);
                }
                Suite::run_one_spec(
                    &mut suite.context.specs[i],
                    suite_retries,
                    &suite.context.before_each_hook,
                    &suite.context.after_each_hook,
                    store,
                    dtype,
                );
            }
            i = i + 1;
            proof {
                assert(old(suite).context.specs@.subrange(0, i as int).last() == old(
                    suite,
                ).context.specs@[i - 1]);
            }
        }
        proof {
            assert(old(suite).context.specs@.subrange(0, ns as int) =~= old(
                suite,
            ).context.specs@);
        }
        let ghost st_specs = store@;
        let ghost mid = *suite;
        let n = suite.context.suites.len();
        let mut k: usize = 0;
        while k < n
            invariant
                k <= n,
                n == suite.context.suites@.len(),
                n == old(suite).context.suites@.len(),
                exec_ready(*old(suite)),
                suite_height(*old(suite)) == 1 + forest_height(old(suite).context.suites@),
                mid.context.suites@ == old(suite).context.suites@,
                *suite == (Suite { context: suite.context, ..mid }),
                suite.context == (SuiteContext { suites: suite.context.suites, ..mid.context }),
                store@ == suites_effect(old(suite).context.suites@.subrange(0, k as int), st_specs),
                forall|j: int| k <= j < n ==> suite.context.suites@[j] == old(suite).context.suites@[j],
                forall|j: int|
                    0 <= j < k ==> {
                        let oc = old(suite).context.suites@[j];
                        let nc = #[trigger] suite.context.suites@[j];
                        &&& if oc.context.skip_ {
                            nc == oc
                        } else {
                            suite_ran(oc, nc)
                        }
                        &&& suite_height(nc) == suite_height(oc)
                        &&& total_specs(nc) == total_specs(oc)
                    },
            decreases n - k,
        {
            proof {
                lemma_forest_height_member(old(suite).context.suites@, k as int);
                lemma_suites_effect_prefix(old(suite).context.suites@, st_specs, k as int);
            }
            let skip = suite.context.suites[k].context.skip_;
            if !skip {
                let owns = suite.context.suites[k].context.owns_state;
                let child = &mut suite.context.suites[k];
                if owns {
                    let mut own = State::new();
                    core::mem::swap(&mut own, &mut child.context.state);
                    proof {
                        let oc = old(suite).context.suites@[k as int];
                        assert(exec_ready(oc));
                        assert(child.context.specs@ == oc.context.specs@);
                        assert(child.context.suites@ == oc.context.suites@);
                        assert(exec_ready(*child));
                    }
                    Suite::run_specs_and_suites(child, &mut own);
                    core::mem::swap(&mut own, &mut child.context.state);
                } else {
                    Suite::run_specs_and_suites(child, store);
                }
            }
            k = k + 1;
        }
        proof {
            assert(old(suite).context.suites@.subrange(0, n as int) =~= old(
                suite,
            ).context.suites@);
        }
        if let Some(h) = &suite.context.after_all_hook {
            h.call(store);
        }
        let t = crate::timing::system_now();
        suite.end_time = crate::timing::utc_string(t);
        proof {
            lemma_forest_height_ext(old(suite).context.suites@, final(suite).context.suites@);
            lemma_forest_specs_ext(old(suite).context.suites@, final(suite).context.suites@);
        }
    }
}

/// Did this spec pass, fail, or never run?
pub open spec fn spec_is_passed<B>(s: Spec<B>) -> bool {
    s.result matches Some(r) && r is Ok
}

pub open spec fn spec_is_failed<B>(s: Spec<B>) -> bool {
    s.result matches Some(r) && r is Err
}

pub open spec fn spec_is_ignored<B>(s: Spec<B>) -> bool {
    s.result is None
}

/// How many of these specs passed, failed and never ran, in that order.
pub open spec fn count_results<B>(specs: Seq<Spec<B>>) -> (nat, nat, nat)
    decreases specs,
{
    if specs.len() == 0 {
        (0, 0, 0)
    } else {
        let rest = count_results(specs.drop_last());
        let last = specs.last();
        (
            rest.0 + if spec_is_passed(last) {
                1nat
            } else {
                0nat
            },
            rest.1 + if spec_is_failed(last) {
                1nat
            } else {
                0nat
            },
            rest.2 + if spec_is_ignored(last) {
                1nat
            } else {
                0nat
            },
        )
    }
}

/// The summed counters the child suites carry.
pub open spec fn sum_child_counts<B, H>(ss: Seq<Suite<B, H>>) -> (nat, nat, nat)
    decreases ss,
{
    if ss.len() == 0 {
        (0, 0, 0)
    } else {
        let rest = sum_child_counts(ss.drop_last());
        let c = ss.last().context;
        ((rest.0 + c.passed) as nat, (rest.1 + c.failed) as nat, (rest.2 + c.ignored) as nat)
    }
}

/// Every suite's counters equal its own specs' results plus its children's
/// counters — the bottom-up aggregation invariant.
pub open spec fn counts_assigned<B, H>(s: Suite<B, H>) -> bool
    decreases s,
{
    let own = count_results(s.context.specs@);
    let sub = sum_child_counts(s.context.suites@);
    &&& s.context.passed == own.0 + sub.0
    &&& s.context.failed == own.1 + sub.1
    &&& s.context.ignored == own.2 + sub.2
    &&& forall|i: int|
        0 <= i < s.context.suites@.len() ==> counts_assigned(#[trigger] s.context.suites@[i])
}

pub proof fn lemma_count_results_prefix<B>(specs: Seq<Spec<B>>, i: int)
    requires
        0 <= i < specs.len(),
    ensures
        count_results(specs.subrange(0, i + 1)) == {
            let rest = count_results(specs.subrange(0, i));
            let sp = specs[i];
            (
                rest.0 + if spec_is_passed(sp) {
                    1nat
                } else {
                    0nat
                },
                rest.1 + if spec_is_failed(sp) {
                    1nat
                } else {
                    0nat
                },
                rest.2 + if spec_is_ignored(sp) {
                    1nat
                } else {
                    0nat
                },
            )
        },
{
    let p = specs.subrange(0, i + 1);
    assert(p.drop_last() =~= specs.subrange(0, i));
    assert(p.last() == specs[i]);
}

pub proof fn lemma_sum_child_counts_prefix<B, H>(ss: Seq<Suite<B, H>>, i: int)
    requires
        0 <= i < ss.len(),
    ensures
        sum_child_counts(ss.subrange(0, i + 1)) == {
            let rest = sum_child_counts(ss.subrange(0, i));
            let c = ss[i].context;
            ((rest.0 + c.passed) as nat, (rest.1 + c.failed) as nat, (rest.2 + c.ignored) as nat)
        },
{
    let p = ss.subrange(0, i + 1);
    assert(p.drop_last() =~= ss.subrange(0, i));
    assert(p.last() == ss[i]);
}

/// Each spec is counted exactly once.
pub proof fn lemma_count_results_partition<B>(specs: Seq<Spec<B>>)
    ensures
        count_results(specs).0 + count_results(specs).1 + count_results(specs).2 == specs.len(),
    decreases specs,
{
    if specs.len() > 0 {
        lemma_count_results_partition(specs.drop_last());
    }
}

/// With the aggregation invariant in force, a suite's three counters
/// partition its declared specs.
pub proof fn lemma_counts_partition<B, H>(s: Suite<B, H>)
    requires
        counts_assigned(s),
    ensures
        s.context.passed + s.context.failed + s.context.ignored == total_specs(s),
    decreases s, 1nat,
{
    lemma_count_results_partition(s.context.specs@);
    lemma_forest_counts_partition(s.context.suites@);
}

pub proof fn lemma_forest_counts_partition<B, H>(ss: Seq<Suite<B, H>>)
    requires
        forall|i: int| 0 <= i < ss.len() ==> counts_assigned(#[trigger] ss[i]),
    ensures
        sum_child_counts(ss).0 + sum_child_counts(ss).1 + sum_child_counts(ss).2 == forest_specs(
            ss,
        ),
    decreases ss, 0nat,
{
    if ss.len() > 0 {
        lemma_forest_counts_partition(ss.drop_last());
        lemma_counts_partition(ss.last());
    }
}

/// Add, sticking at the top of the range instead of wrapping.
pub open spec fn sat_add(a: u128, b: u128) -> u128 {
    if a + b > u128::MAX {
        u128::MAX
    } else {
        (a + b) as u128
    }
}

/// Fold the specs' recorded durations onto `s0`.
pub open spec fn add_spec_durs<B>(s0: u128, specs: Seq<Spec<B>>) -> u128
    decreases specs,
{
    if specs.len() == 0 {
        s0
    } else {
        sat_add(add_spec_durs(s0, specs.drop_last()), specs.last().duration)
    }
}

/// Fold the children's total durations onto `s0`.
pub open spec fn add_child_totals<B, H>(s0: u128, ss: Seq<Suite<B, H>>) -> u128
    decreases ss,
{
    if ss.len() == 0 {
        s0
    } else {
        sat_add(add_child_totals(s0, ss.drop_last()), ss.last().total_duration)
    }
}

proof fn lemma_add_spec_durs_prefix<B>(s0: u128, specs: Seq<Spec<B>>, i: int)
    requires
        0 <= i < specs.len(),
    ensures
        add_spec_durs(s0, specs.subrange(0, i + 1)) == sat_add(
            add_spec_durs(s0, specs.subrange(0, i)),
            specs[i].duration,
        ),
{
    let p = specs.subrange(0, i + 1);
    assert(p.drop_last() =~= specs.subrange(0, i));
    assert(p.last() == specs[i]);
}

proof fn lemma_add_child_totals_prefix<B, H>(s0: u128, ss: Seq<Suite<B, H>>, i: int)
    requires
        0 <= i < ss.len(),
    ensures
        add_child_totals(s0, ss.subrange(0, i + 1)) == sat_add(
            add_child_totals(s0, ss.subrange(0, i)),
            ss[i].total_duration,
        ),
{
    let p = ss.subrange(0, i + 1);
    assert(p.drop_last() =~= ss.subrange(0, i));
    assert(p.last() == ss[i]);
}

/// The slow-threshold inheritance relation, the counterpart of
/// `retries_applied` for the speed classification threshold.
pub open spec fn slow_applied<B, H>(a: Suite<B, H>, b: Suite<B, H>, inherited: Option<u128>) -> bool
    decreases a,
{
    let eff = if a.context.slow_ is Some {
        a.context.slow_
    } else {
        inherited
    };
    &&& b == (Suite { context: b.context, ..a })
    &&& b.context == (SuiteContext { specs: b.context.specs, suites: b.context.suites, slow_: eff, ..a.context })
    &&& b.context.specs@.len() == a.context.specs@.len()
    &&& b.context.suites@.len() == a.context.suites@.len()
    &&& forall|i: int|
        0 <= i < a.context.specs@.len() ==> {
            let sp = #[trigger] a.context.specs@[i];
            &&& b.context.specs@[i] == (Spec { context: b.context.specs@[i].context, ..sp })
            &&& b.context.specs@[i].context == (SpecContext {
                slow_: if sp.context.slow_ is Some {
                    sp.context.slow_
                } else {
                    eff
                },
                ..sp.context
            })
        }
    &&& forall|i: int|
        0 <= i < a.context.suites@.len() ==> slow_applied(
            #[trigger] a.context.suites@[i],
            b.context.suites@[i],
            eff,
        )
}

/// Speed classification: over the threshold is slow, at most half of it is
/// fast, between is on time; with no threshold everything counts as fast.
pub open spec fn speed_of(slow: Option<u128>, duration: u128) -> Speed {
    match slow {
        Some(t) => if duration > t {
            Speed::Slow
        } else if duration <= t / 2 {
            Speed::Fast
        } else {
            Speed::OnTime
        },
        None => Speed::Fast,
    }
}

/// The bookkeeping that follows speed classification leaves every spec,
/// every depth and every time unit untouched.
pub open spec fn specs_kept<B, H>(a: Suite<B, H>, b: Suite<B, H>) -> bool
    decreases a,
{
    &&& b.context.specs@ == a.context.specs@
    &&& b.depth == a.depth
    &&& b.duration_type == a.duration_type
    &&& b.context.suites@.len() == a.context.suites@.len()
    &&& forall|i: int|
        0 <= i < a.context.suites@.len() ==> specs_kept(
            #[trigger] a.context.suites@[i],
            b.context.suites@[i],
        )
}

/// Every spec in the tree carries the speed its threshold and duration say.
pub open spec fn speeds_assigned<B, H>(s: Suite<B, H>) -> bool
    decreases s,
{
    &&& forall|i: int|
        0 <= i < s.context.specs@.len() ==> {
            let sp = #[trigger] s.context.specs@[i];
            sp.context.speed_result == speed_of(sp.context.slow_, sp.duration)
        }
    &&& forall|i: int|
        0 <= i < s.context.suites@.len() ==> speeds_assigned(#[trigger] s.context.suites@[i])
}

impl<B: SpecBody, H: Hook> Suite<B, H> {
    /// Saturating add for duration sums.
    fn sat_add_exec(a: u128, b: u128) -> (r: u128)
        ensures
            r == sat_add(a, b),
    {
        if b > u128::MAX - a {
            u128::MAX
        } else {
            a + b
        }
    }

    /// Pass 8a: fold every spec's duration into its suite, and every
    /// subtree's into the ancestors' totals, saturating rather than wrapping.
    fn sum_test_durations(suite: &mut Suite<B, H>)
        ensures
            *final(suite) == (Suite {
                context: final(suite).context,
                suite_duration: final(suite).suite_duration,
                total_duration: final(suite).total_duration,
                ..*old(suite)
            }),
            final(suite).context == (SuiteContext {
                suites: final(suite).context.suites,
                ..old(suite).context
            }),
            same_decl(*old(suite), *final(suite)),
            suite_height(*final(suite)) == suite_height(*old(suite)),
            total_specs(*final(suite)) == total_specs(*old(suite)),
            final(suite).suite_duration == add_spec_durs(
                old(suite).suite_duration,
                old(suite).context.specs@,
            ),
            final(suite).total_duration == add_child_totals(
                add_spec_durs(old(suite).total_duration, old(suite).context.specs@),
                final(suite).context.suites@,
            ),
            layout_kept(*old(suite), *final(suite)),
        decreases suite_height(*old(suite)),
    {
        let ns = suite.context.specs.len();
        let mut sd: u128 = suite.suite_duration;
        let mut td: u128 = suite.total_duration;
        let mut i: usize = 0;
        while i < ns
            invariant
                i <= ns,
                ns == suite.context.specs@.len(),
                *suite == *old(suite),
                sd == add_spec_durs(
                    old(suite).suite_duration,
                    old(suite).context.specs@.subrange(0, i as int),
                ),
                td == add_spec_durs(
                    old(suite).total_duration,
                    old(suite).context.specs@.subrange(0, i as int),
                ),
            decreases ns - i,
        {
            proof {
                lemma_add_spec_durs_prefix(
                    old(suite).suite_duration,
                    old(suite).context.specs@,
                    i as int,
                );
                lemma_add_spec_durs_prefix(
                    old(suite).total_duration,
                    old(suite).context.specs@,
                    i as int,
                );
            }
            let d = suite.context.specs[i].duration;
            sd = Self::sat_add_exec(sd, d);
            td = Self::sat_add_exec(td, d);
            i = i + 1;
        }
        proof {
            assert(old(suite).context.specs@.subrange(0, ns as int) =~= old(
                suite,
            ).context.specs@);
        }
        suite.suite_duration = sd;
        let ghost td0 = td;
        let n = suite.context.suites.len();
        let mut k: usize = 0;
        while k < n
            invariant
                k <= n,
                n == suite.context.suites@.len(),
                n == old(suite).context.suites@.len(),
                suite_height(*old(suite)) == 1 + forest_height(old(suite).context.suites@),
                *suite == (Suite {
                    context: suite.context,
                    suite_duration: suite.suite_duration,
                    ..*old(suite)
                }),
                suite.context == (SuiteContext { suites: suite.context.suites, ..old(suite).context }),
                suite.suite_duration == add_spec_durs(
                    old(suite).suite_duration,
                    old(suite).context.specs@,
                ),
                td0 == add_spec_durs(old(suite).total_duration, old(suite).context.specs@),
                td == add_child_totals(td0, suite.context.suites@.subrange(0, k as int)),
                forall|j: int| k <= j < n ==> suite.context.suites@[j] == old(suite).context.suites@[j],
                forall|j: int|
                    0 <= j < k ==> {
                        let oc = old(suite).context.suites@[j];
                        let nc = #[trigger] suite.context.suites@[j];
                        &&& same_decl(oc, nc)
                        &&& suite_height(nc) == suite_height(oc)
                        &&& total_specs(nc) == total_specs(oc)
                        &&& layout_kept(oc, nc)
                    },
            decreases n - k,
        {
            proof {
                lemma_forest_height_member(old(suite).context.suites@, k as int);
            }
            let ghost pre = suite.context.suites@;
            let child = &mut suite.context.suites[k];
            Suite::sum_test_durations(child);
            proof {
                assert(suite.context.suites@.subrange(0, k as int) =~= pre.subrange(0, k as int));
                lemma_add_child_totals_prefix(td0, suite.context.suites@, k as int);
            }
            let t = suite.context.suites[k].total_duration;
            td = Self::sat_add_exec(td, t);
            k = k + 1;
        }
        suite.total_duration = td;
        proof {
            let fs = final(suite).context.suites@;
            assert(fs.subrange(0, n as int) =~= fs);
            assert forall|j: int| 0 <= j < ns implies same_spec_decl(
                #[trigger] old(suite).context.specs@[j],
                final(suite).context.specs@[j],
            ) by {}
            lemma_forest_height_ext(old(suite).context.suites@, final(suite).context.suites@);
            lemma_forest_specs_ext(old(suite).context.suites@, final(suite).context.suites@);
        }
    }

    /// Pass 8b: hand the nearest slow threshold down to every spec and
    /// suite lacking its own, ahead of speed classification.
    fn apply_slow_settings(suite: &mut Suite<B, H>, inherited: Option<u128>)
        ensures
            slow_applied(*old(suite), *final(suite), inherited),
            same_decl(*old(suite), *final(suite)),
            suite_height(*final(suite)) == suite_height(*old(suite)),
            total_specs(*final(suite)) == total_specs(*old(suite)),
        decreases suite_height(*old(suite)),
    {
        let eff = if suite.context.slow_.is_some() {
            suite.context.slow_
        } else {
            inherited
        };
        suite.context.slow_ = eff;
        let ns = suite.context.specs.len();
        let mut i: usize = 0;
        while i < ns
            invariant
                i <= ns,
                ns == suite.context.specs@.len(),
                ns == old(suite).context.specs@.len(),
                eff == (if old(suite).context.slow_ is Some {
                    old(suite).context.slow_
                } else {
                    inherited
                }),
                *suite == (Suite { context: suite.context, ..*old(suite) }),
                suite.context == (SuiteContext {
                    specs: suite.context.specs,
                    slow_: eff,
                    ..old(suite).context
                }),
                forall|j: int| i <= j < ns ==> suite.context.specs@[j] == old(suite).context.specs@[j],
                forall|j: int|
                    0 <= j < i ==> {
                        let sp = #[trigger] old(suite).context.specs@[j];
                        &&& suite.context.specs@[j] == (Spec {
                            context: suite.context.specs@[j].context,
                            ..sp
                        })
                        &&& suite.context.specs@[j].context == (SpecContext {
                            slow_: if sp.context.slow_ is Some {
                                sp.context.slow_
                            } else {
                                eff
                            },
                            ..sp.context
                        })
                    },
            decreases ns - i,
        {
            let sp = &mut suite.context.specs[i];
            if sp.context.slow_.is_none() {
                sp.context.slow_ = eff;
            }
            i = i + 1;
        }
        let ghost mid = *suite;
        let n = suite.context.suites.len();
        let mut k: usize = 0;
        while k < n
            invariant
                k <= n,
                n == suite.context.suites@.len(),
                n == old(suite).context.suites@.len(),
                suite_height(*old(suite)) == 1 + forest_height(old(suite).context.suites@),
                mid.context.suites@ == old(suite).context.suites@,
                eff == (if old(suite).context.slow_ is Some {
                    old(suite).context.slow_
                } else {
                    inherited
                }),
                *suite == (Suite { context: suite.context, ..mid }),
                suite.context == (SuiteContext { suites: suite.context.suites, ..mid.context }),
                forall|j: int| k <= j < n ==> suite.context.suites@[j] == old(suite).context.suites@[j],
                forall|j: int|
                    0 <= j < k ==> {
                        let oc = old(suite).context.suites@[j];
                        let nc = #[trigger] suite.context.suites@[j];
                        &&& slow_applied(oc, nc, eff)
                        &&& same_decl(oc, nc)
                        &&& suite_height(nc) == suite_height(oc)
                        &&& total_specs(nc) == total_specs(oc)
                    },
            decreases n - k,
        {
            proof {
                lemma_forest_height_member(old(suite).context.suites@, k as int);
            }
            let child = &mut suite.context.suites[k];
            Suite::apply_slow_settings(child, eff);
            k = k + 1;
        }
        proof {
            assert forall|j: int| 0 <= j < ns implies same_spec_decl(
                #[trigger] old(suite).context.specs@[j],
                final(suite).context.specs@[j],
            ) by {}
            lemma_forest_height_ext(old(suite).context.suites@, final(suite).context.suites@);
            lemma_forest_specs_ext(old(suite).context.suites@, final(suite).context.suites@);
        }
    }

    /// Pass 9: classify every spec's speed from its threshold and duration.
    fn calculate_speed(suite: &mut Suite<B, H>)
        ensures
            *final(suite) == (Suite { context: final(suite).context, ..*old(suite) }),
            final(suite).context == (SuiteContext {
                specs: final(suite).context.specs,
                suites: final(suite).context.suites,
                ..old(suite).context
            }),
            same_decl(*old(suite), *final(suite)),
            suite_height(*final(suite)) == suite_height(*old(suite)),
            total_specs(*final(suite)) == total_specs(*old(suite)),
            speeds_assigned(*final(suite)),
            layout_kept(*old(suite), *final(suite)),
        decreases suite_height(*old(suite)),
    {
        let ns = suite.context.specs.len();
        let mut i: usize = 0;
        while i < ns
            invariant
                i <= ns,
                ns == suite.context.specs@.len(),
                ns == old(suite).context.specs@.len(),
                *suite == (Suite { context: suite.context, ..*old(suite) }),
                suite.context == (SuiteContext { specs: suite.context.specs, ..old(suite).context }),
                forall|j: int| i <= j < ns ==> suite.context.specs@[j] == old(suite).context.specs@[j],
                forall|j: int|
                    0 <= j < i ==> {
                        let sp = #[trigger] old(suite).context.specs@[j];
                        &&& suite.context.specs@[j] == (Spec {
                            context: suite.context.specs@[j].context,
                            ..sp
                        })
                        &&& suite.context.specs@[j].context == (SpecContext {
                            speed_result: speed_of(sp.context.slow_, sp.duration),
                            ..sp.context
                        })
                    },
            decreases ns - i,
        {
            let sp = &mut suite.context.specs[i];
            match sp.context.slow_ {
                Some(t) => {
                    if sp.duration > t {
                        sp.context.speed_result = Speed::Slow;
                    } else if sp.duration <= t / 2 {
                        sp.context.speed_result = Speed::Fast;
                    } else {
                        sp.context.speed_result = Speed::OnTime;
                    }
                },
                None => {
                    sp.context.speed_result = Speed::Fast;
                },
            }
            i = i + 1;
        }
        let ghost mid = *suite;
        let n = suite.context.suites.len();
        let mut k: usize = 0;
        while k < n
            invariant
                k <= n,
                n == suite.context.suites@.len(),
                n == old(suite).context.suites@.len(),
                suite_height(*old(suite)) == 1 + forest_height(old(suite).context.suites@),
                mid.context.suites@ == old(suite).context.suites@,
                ns == old(suite).context.specs@.len(),
                ns == suite.context.specs@.len(),
                *suite == (Suite { context: suite.context, ..mid }),
                suite.context == (SuiteContext { suites: suite.context.suites, ..mid.context }),
                forall|j: int|
                    0 <= j < ns ==> {
                        let sp = #[trigger] old(suite).context.specs@[j];
                        &&& suite.context.specs@[j] == (Spec {
                            context: suite.context.specs@[j].context,
                            ..sp
                        })
                        &&& suite.context.specs@[j].context == (SpecContext {
                            speed_result: speed_of(sp.context.slow_, sp.duration),
                            ..sp.context
                        })
                    },
                forall|j: int| k <= j < n ==> suite.context.suites@[j] == old(suite).context.suites@[j],
                forall|j: int|
                    0 <= j < k ==> {
                        let oc = old(suite).context.suites@[j];
                        let nc = #[trigger] suite.context.suites@[j];
                        &&& same_decl(oc, nc)
                        &&& suite_height(nc) == suite_height(oc)
                        &&& total_specs(nc) == total_specs(oc)
                        &&& speeds_assigned(nc)
                        &&& layout_kept(oc, nc)
                    },
            decreases n - k,
        {
            proof {
                lemma_forest_height_member(old(suite).context.suites@, k as int);
            }
            let child = &mut suite.context.suites[k];
            Suite::calculate_speed(child);
            k = k + 1;
        }
        proof {
            assert forall|j: int| 0 <= j < ns implies same_spec_decl(
                #[trigger] old(suite).context.specs@[j],
                final(suite).context.specs@[j],
            ) by {}
            assert forall|j: int| 0 <= j < ns implies (#[trigger] final(suite).context.specs@[j]).context.speed_result == speed_of(
                final(suite).context.specs@[j].context.slow_,
                final(suite).context.specs@[j].duration,
            ) by {
                let osp = old(suite).context.specs@[j];
                assert(final(suite).context.specs@[j] == (Spec {
                    context: final(suite).context.specs@[j].context,
                    ..osp
                }));
                assert(final(suite).context.specs@[j].context == (SpecContext {
                    speed_result: speed_of(osp.context.slow_, osp.duration),
                    ..osp.context
                }));
            }
            lemma_forest_height_ext(old(suite).context.suites@, final(suite).context.suites@);
            lemma_forest_specs_ext(old(suite).context.suites@, final(suite).context.suites@);
        }
    }

    /// Pass 8c: set every suite's counters from its own specs' results and
    /// its children's counters, bottom-up.
    fn sum_result_counts(suite: &mut Suite<B, H>)
        requires
            total_specs(*old(suite)) <= u32::MAX,
        ensures
            *final(suite) == (Suite { context: final(suite).context, ..*old(suite) }),
            final(suite).context == (SuiteContext {
                suites: final(suite).context.suites,
                passed: final(suite).context.passed,
                failed: final(suite).context.failed,
                ignored: final(suite).context.ignored,
                ..old(suite).context
            }),
            same_decl(*old(suite), *final(suite)),
            specs_kept(*old(suite), *final(suite)),
            suite_height(*final(suite)) == suite_height(*old(suite)),
            total_specs(*final(suite)) == total_specs(*old(suite)),
            counts_assigned(*final(suite)),
            final(suite).context.passed + final(suite).context.failed
                + final(suite).context.ignored == total_specs(*old(suite)),
        decreases suite_height(*old(suite)),
    {
        let n = suite.context.suites.len();
        let mut k: usize = 0;
        while k < n
            invariant
                k <= n,
                n == suite.context.suites@.len(),
                n == old(suite).context.suites@.len(),
                total_specs(*old(suite)) <= u32::MAX,
                total_specs(*old(suite)) == old(suite).context.specs@.len() + forest_specs(
                    old(suite).context.suites@,
                ),
                suite_height(*old(suite)) == 1 + forest_height(old(suite).context.suites@),
                *suite == (Suite { context: suite.context, ..*old(suite) }),
                suite.context == (SuiteContext { suites: suite.context.suites, ..old(suite).context }),
                forall|j: int| k <= j < n ==> suite.context.suites@[j] == old(suite).context.suites@[j],
                forall|j: int|
                    0 <= j < k ==> {
                        let oc = old(suite).context.suites@[j];
                        let nc = #[trigger] suite.context.suites@[j];
                        &&& same_decl(oc, nc)
                        &&& specs_kept(oc, nc)
                        &&& suite_height(nc) == suite_height(oc)
                        &&& total_specs(nc) == total_specs(oc)
                        &&& counts_assigned(nc)
                        &&& nc.context.passed + nc.context.failed + nc.context.ignored
                            == total_specs(oc)
                    },
            decreases n - k,
        {
            proof {
                lemma_forest_height_member(old(suite).context.suites@, k as int);
                lemma_forest_specs_prefix(old(suite).context.suites@, k as int);
                lemma_forest_specs_prefix_le(old(suite).context.suites@, k as int + 1);
            }
            let child = &mut suite.context.suites[k];
            Suite::sum_result_counts(child);
            k = k + 1;
        }
        let ghost mid = *suite;
        let ns = suite.context.specs.len();
        let mut p: u32 = 0;
        let mut f: u32 = 0;
        let mut ig: u32 = 0;
        let mut i: usize = 0;
        while i < ns
            invariant
                i <= ns,
                ns == suite.context.specs@.len(),
                ns <= total_specs(*old(suite)),
                total_specs(*old(suite)) <= u32::MAX,
                *suite == mid,
                suite.context.specs@ == old(suite).context.specs@,
                (p as nat, f as nat, ig as nat) == count_results(
                    suite.context.specs@.subrange(0, i as int),
                ),
                p + f + ig == i,
            decreases ns - i,
        {
            proof {
                lemma_count_results_prefix(suite.context.specs@, i as int);
            }
            let has = suite.context.specs[i].result.is_some();
            if has {
                let ok = match &suite.context.specs[i].result {
                    Some(r) => r.is_ok(),
                    None => false,
                };
                if ok {
                    p = p + 1;
                } else {
                    f = f + 1;
                }
            } else {
                ig = ig + 1;
            }
            i = i + 1;
        }
        proof {
            assert(suite.context.specs@.subrange(0, ns as int) =~= suite.context.specs@);
            lemma_count_results_partition(suite.context.specs@);
        }
        let mut k2: usize = 0;
        while k2 < n
            invariant
                k2 <= n,
                n == suite.context.suites@.len(),
                *suite == mid,
                total_specs(*old(suite)) <= u32::MAX,
                ns == suite.context.specs@.len(),
                (p as nat, f as nat, ig as nat) == {
                    let own = count_results(suite.context.specs@);
                    let sub = sum_child_counts(suite.context.suites@.subrange(0, k2 as int));
                    (
                        (own.0 + sub.0) as nat,
                        (own.1 + sub.1) as nat,
                        (own.2 + sub.2) as nat,
                    )
                },
                p + f + ig == ns + forest_specs(old(suite).context.suites@.subrange(0, k2 as int)),
                forall|j: int|
                    0 <= j < n ==> {
                        let oc = old(suite).context.suites@[j];
                        let nc = #[trigger] suite.context.suites@[j];
                        &&& specs_kept(oc, nc)
                        &&& total_specs(nc) == total_specs(oc)
                        &&& counts_assigned(nc)
                        &&& nc.context.passed + nc.context.failed + nc.context.ignored
                            == total_specs(oc)
                    },
                total_specs(*old(suite)) == old(suite).context.specs@.len() + forest_specs(
                    old(suite).context.suites@,
                ),
                ns == old(suite).context.specs@.len(),
                n == old(suite).context.suites@.len(),
            decreases n - k2,
        {
            proof {
                lemma_sum_child_counts_prefix(suite.context.suites@, k2 as int);
                lemma_forest_specs_prefix(old(suite).context.suites@, k2 as int);
                lemma_forest_specs_prefix_le(old(suite).context.suites@, k2 as int + 1);
            }
            let c = &suite.context.suites[k2].context;
            p = p + c.passed;
            f = f + c.failed;
            ig = ig + c.ignored;
            k2 = k2 + 1;
        }
        suite.context.passed = p;
        suite.context.failed = f;
        suite.context.ignored = ig;
        proof {
            assert(suite.context.suites@.subrange(0, n as int) =~= suite.context.suites@);
            assert(old(suite).context.suites@.subrange(0, n as int) =~= old(
                suite,
            ).context.suites@);
            assert forall|j: int| 0 <= j < ns implies same_spec_decl(
                #[trigger] old(suite).context.specs@[j],
                final(suite).context.specs@[j],
            ) by {}
            lemma_forest_height_ext(old(suite).context.suites@, final(suite).context.suites@);
            lemma_forest_specs_ext(old(suite).context.suites@, final(suite).context.suites@);
        }
    }
}

impl<B: SpecBody, H: Hook> Suite<B, H> {
    /// Run the whole tree: propagate depth, index the specs, resolve skip
    /// and focus directives, inherit retries and hooks, force the root's
    /// time unit, execute depth-first, then aggregate durations, thresholds,
    /// speeds and counters. Succeeds exactly when no spec failed.
    pub fn run(&mut self) -> (r: Result<(), String>)
        requires
            pre_run_tree(*old(self)),
            total_specs(*old(self)) <= u32::MAX,
            old(self).depth + suite_height(*old(self)) <= u32::MAX,
        ensures
            ran_from(*old(self), *final(self), false, None),
            counts_assigned(*final(self)),
            final(self).context.passed + final(self).context.failed
                + final(self).context.ignored == total_specs(*old(self)),
            speeds_assigned(*final(self)),
            depths_assigned(*final(self)),
            orders_assigned(*final(self), 0),
            dtypes_assigned(*final(self), old(self).duration_type),
            exists|r1: Suite<B, H>, r2: Suite<B, H>, r3: Suite<B, H>, rt: Suite<B, H>|
                #![trigger same_decl(*old(self), r1), only_resolved(r1, r2, false), retries_applied(r2, r3, None), hooks_inherited(r3, rt, None, None)]
                {
                    &&& same_decl(*old(self), r1)
                    &&& hooks_kept(*old(self), r1)
                    &&& only_resolved(r1, r2, false)
                    &&& retries_applied(r2, r3, None)
                    &&& hooks_inherited(r3, rt, None, None)
                    &&& same_decl(r3, rt)
                    &&& final(self).context.state@ == suite_effect(rt, old(self).context.state@)
                },
            r is Ok <==> final(self).context.failed == 0,
            r matches Err(m) ==> m@ == crate::text::dec_str(final(self).context.failed as nat)
                + " of "@ + crate::text::dec_str(
                (final(self).context.passed + final(self).context.failed) as nat,
            ) + " tests failed"@,
    {
        let ghost a = *self;
        Suite::apply_depth_to_suites(self);
        let ghost t_depth = *self;
        let mut count: u32 = 0;
        Suite::index_specs(self, &mut count);
        let ghost x1 = *self;
        proof {
            lemma_same_decl_trans(a, t_depth, x1);
        }
        Suite::ignore_non_onlys(self, false);
        let ghost x2 = *self;
        Suite::apply_retries(self, None);
        let ghost x3 = *self;
        Suite::apply_hooks(self, &None, &None);
        let ghost t_hooks = *self;
        Suite::apply_duration_type(self);
        let ghost x4 = *self;
        proof {
            lemma_same_decl_trans(x3, t_hooks, x4);
            lemma_pre_run_exec_ready(a);
            lemma_same_decl_exec_ready(a, x1);
            lemma_only_resolved_exec_ready(x1, x2, false);
            lemma_retries_applied_exec_ready(x2, x3, None);
            lemma_same_decl_exec_ready(x3, x4);
        }
        let mut store = State::new();
        core::mem::swap(&mut store, &mut self.context.state);
        proof {
            assert(self.context.specs@ == x4.context.specs@);
            assert(self.context.suites@ == x4.context.suites@);
            assert(exec_ready(*self));
        }
        let ghost x4s = *self;
        Suite::run_specs_and_suites(self, &mut store);
        let ghost x5s = *self;
        core::mem::swap(&mut store, &mut self.context.state);
        let ghost x5 = *self;
        proof {
            assert(suite_ran(x4s, x5s));
            assert(x5 == (Suite { context: x5.context, ..x5s }) && x5.context == (SuiteContext {
                state: x5.context.state,
                ..x5s.context
            }));
            assert(suite_ran(x4, x5));
            assert(total_specs(x5) == total_specs(x4s));
        }
        Suite::sum_test_durations(self);
        let ghost t_durs = *self;
        Suite::apply_slow_settings(self, None);
        let ghost t_slow = *self;
        Suite::calculate_speed(self);
        let ghost t_speed = *self;
        proof {
            lemma_same_decl_trans(x5, t_durs, t_slow);
            lemma_same_decl_trans(x5, t_slow, t_speed);
            assert(total_specs(t_speed) == total_specs(a));
        }
        Suite::sum_result_counts(self);
        let ghost b = *self;
        proof {
            lemma_same_decl_trans(x5, t_speed, b);
            lemma_specs_kept_speeds(t_speed, b);
            lemma_run_composes(a, x1, x2, x3, x4, x5, b, false, None);
            let t = a.duration_type;
            assert(t_hooks.duration_type == t);
            lemma_depths_carry(t_depth, x1);
            lemma_indexed_orders(t_depth, x1, 0);
            lemma_resolved_layout(x1, x2, false);
            lemma_layout_carries(x1, x2, 0, t);
            lemma_retries_layout(x2, x3, None);
            lemma_layout_carries(x2, x3, 0, t);
            lemma_layout_carries(x3, t_hooks, 0, t);
            lemma_depths_carry(t_hooks, x4);
            lemma_orders_carry(t_hooks, x4, 0);
            lemma_ran_layout(x4, x5);
            lemma_layout_carries(x4, x5, 0, t);
            lemma_layout_carries(x5, t_durs, 0, t);
            lemma_slow_layout(t_durs, t_slow, None);
            lemma_layout_carries(t_durs, t_slow, 0, t);
            lemma_layout_carries(t_slow, t_speed, 0, t);
            lemma_specs_kept_layout(t_speed, b);
            lemma_layout_carries(t_speed, b, 0, t);
            let st0 = a.context.state@;
            assert(x4.context.state@ == st0);
            assert(x4s.context.specs@ == x4.context.specs@ && x4s.context.suites@
                == x4.context.suites@);
            assert(suite_effect(x4s, st0) == suite_effect(x4, st0));
            lemma_effect_same(t_hooks, x4, st0);
            assert(x5.context.state@ == suite_effect(t_hooks, st0));
            assert(final(self).context.state@ == x5.context.state@);
            lemma_hooks_kept_trans(a, t_depth, x1);
            assert({
                &&& same_decl(a, x1)
                &&& hooks_kept(a, x1)
                &&& only_resolved(x1, x2, false)
                &&& retries_applied(x2, x3, None)
                &&& hooks_inherited(x3, t_hooks, None, None)
                &&& same_decl(x3, t_hooks)
                &&& final(self).context.state@ == suite_effect(t_hooks, st0)
            });
        }
        crate::reporter::report_to_stdout(&*self);
        if self.context.failed == 0 {
            Ok(())
        } else {
            let total = self.context.passed + self.context.failed;
            let mut msg = crate::text::u32_to_string(self.context.failed);
            msg.append(" of ");
            let t = crate::text::u32_to_string(total);
            msg.append(t.as_str());
            msg.append(" tests failed");
            Err(msg)
        }
    }
}

/// A subtree that skip resolution has excluded wholesale.
pub open spec fn fully_excluded<B, H>(s: Suite<B, H>) -> bool
    decreases s,
{
    &&& s.context.skip_
    &&& forall|i: int| 0 <= i < s.context.specs@.len() ==> (#[trigger] s.context.specs@[i]).skip
    &&& forall|i: int|
        0 <= i < s.context.suites@.len() ==> fully_excluded(#[trigger] s.context.suites@[i])
}

/// Resolving under a forced or own skip excludes the whole subtree.
proof fn lemma_resolution_excludes<B, H>(a: Suite<B, H>, b: Suite<B, H>, forced: bool)
    requires
        only_resolved(a, b, forced),
        forced || a.context.skip_,
    ensures
        fully_excluded(b),
    decreases a,
{
    let skipping = forced || a.context.skip_;
    let sonly = exists|k: int| 0 <= k < a.context.specs@.len() && a.context.specs@[k].only;
    assert forall|i: int| 0 <= i < b.context.specs@.len() implies (
    #[trigger] b.context.specs@[i]).skip by {
        let asp = a.context.specs@[i];
        assert(b.context.specs@[i] == (Spec {
            skip: asp.skip || skipping || (!skipping && sonly && !asp.only),
            ..asp
        }));
    }
    assert forall|i: int| 0 <= i < b.context.suites@.len() implies fully_excluded(
        #[trigger] b.context.suites@[i],
    ) by {
        let suite_only = exists|k: int|
            0 <= k < a.context.suites@.len() && a.context.suites@[k].only;
        lemma_resolution_excludes(
            a.context.suites@[i],
            b.context.suites@[i],
            true || (suite_only && !a.context.suites@[i].only),
        );
    }
}

/// Retry inheritance does not touch what is excluded.
proof fn lemma_retries_keeps_excluded<B, H>(a: Suite<B, H>, b: Suite<B, H>, inh: Option<u32>)
    requires
        retries_applied(a, b, inh),
        fully_excluded(a),
    ensures
        fully_excluded(b),
    decreases a,
{
    let eff = if a.context.retries_ is Some {
        a.context.retries_
    } else {
        inh
    };
    assert forall|i: int| 0 <= i < b.context.specs@.len() implies (
    #[trigger] b.context.specs@[i]).skip by {
        assert(a.context.specs@[i].skip);
    }
    assert forall|i: int| 0 <= i < b.context.suites@.len() implies fully_excluded(
        #[trigger] b.context.suites@[i],
    ) by {
        lemma_retries_keeps_excluded(a.context.suites@[i], b.context.suites@[i], eff);
    }
}

/// Bookkeeping does not touch what is excluded either.
proof fn lemma_same_decl_keeps_excluded<B, H>(a: Suite<B, H>, b: Suite<B, H>)
    requires
        same_decl(a, b),
        fully_excluded(a),
    ensures
        fully_excluded(b),
    decreases a,
{
    assert forall|i: int| 0 <= i < b.context.specs@.len() implies (
    #[trigger] b.context.specs@[i]).skip by {
        assert(same_spec_decl(a.context.specs@[i], b.context.specs@[i]));
        assert(a.context.specs@[i].skip);
    }
    assert forall|i: int| 0 <= i < b.context.suites@.len() implies fully_excluded(
        #[trigger] b.context.suites@[i],
    ) by {
        lemma_same_decl_keeps_excluded(a.context.suites@[i], b.context.suites@[i]);
    }
}

/// Running an excluded subtree changes nothing: the relation is reflexive
/// on it.
proof fn lemma_excluded_ran_self<B: SpecBody, H>(t: Suite<B, H>)
    requires
        fully_excluded(t),
    ensures
        suite_ran(t, t),
    decreases t,
{
    assert forall|i: int| 0 <= i < t.context.specs@.len() implies spec_ran(
        #[trigger] t.context.specs@[i],
        t.context.specs@[i],
        t.context.retries_,
    ) by {
        assert(t.context.specs@[i].skip);
    }
    assert forall|i: int|
        0 <= i < t.context.suites@.len() implies ((#[trigger] t.context.suites@[i]).context.skip_
        && t.context.suites@[i] == t.context.suites@[i]) by {
        assert(fully_excluded(t.context.suites@[i]));
    }
}

/// The run theorem's glue: declaration-preserving passes, skip resolution,
/// retry inheritance, execution, and more bookkeeping compose into the
/// declared-tree-to-final-tree relation.
#[verifier::rlimit(30)]
pub proof fn lemma_run_composes<B: SpecBody, H>(
    a: Suite<B, H>,
    x1: Suite<B, H>,
    x2: Suite<B, H>,
    x3: Suite<B, H>,
    x4: Suite<B, H>,
    x5: Suite<B, H>,
    b: Suite<B, H>,
    forced: bool,
    inh: Option<u32>,
)
    requires
        same_decl(a, x1),
        only_resolved(x1, x2, forced),
        retries_applied(x2, x3, inh),
        same_decl(x3, x4),
        suite_ran(x4, x5),
        same_decl(x5, b),
    ensures
        ran_from(a, b, forced, inh),
    decreases a,
{
    let skipping = forced || a.context.skip_;
    let eff = if a.context.retries_ is Some {
        a.context.retries_
    } else {
        inh
    };
    let ns = a.context.specs@.len() as int;
    let n = a.context.suites@.len() as int;
    let spec_only_a = exists|i: int| 0 <= i < ns && a.context.specs@[i].only;
    let spec_only_x1 = exists|i: int|
        0 <= i < x1.context.specs@.len() && x1.context.specs@[i].only;
    assert(spec_only_a <==> spec_only_x1) by {
        if spec_only_a {
            let i = choose|i: int| 0 <= i < ns && a.context.specs@[i].only;
            assert(same_spec_decl(a.context.specs@[i], x1.context.specs@[i]));
            assert(x1.context.specs@[i].only);
        }
        if spec_only_x1 {
            let i = choose|i: int|
                0 <= i < x1.context.specs@.len() && x1.context.specs@[i].only;
            assert(same_spec_decl(a.context.specs@[i], x1.context.specs@[i]));
            assert(a.context.specs@[i].only);
        }
    }
    let suite_only_a = exists|i: int| 0 <= i < n && a.context.suites@[i].only;
    let suite_only_x1 = exists|i: int|
        0 <= i < x1.context.suites@.len() && x1.context.suites@[i].only;
    assert(suite_only_a <==> suite_only_x1) by {
        if suite_only_a {
            let i = choose|i: int| 0 <= i < n && a.context.suites@[i].only;
            assert(same_decl(a.context.suites@[i], x1.context.suites@[i]));
            assert(x1.context.suites@[i].only);
        }
        if suite_only_x1 {
            let i = choose|i: int|
                0 <= i < x1.context.suites@.len() && x1.context.suites@[i].only;
            assert(same_decl(a.context.suites@[i], x1.context.suites@[i]));
            assert(a.context.suites@[i].only);
        }
    }
    assert forall|i: int| 0 <= i < ns implies {
        let sp = #[trigger] a.context.specs@[i];
        let bs = b.context.specs@[i];
        let excluded = skipping || sp.skip || (!skipping && spec_only_a && !sp.only);
        &&& bs.name == sp.name
        &&& bs.only == sp.only
        &&& bs.hook == sp.hook
        &&& bs.skip == excluded
        &&& if excluded {
            &&& bs.result == sp.result
            &&& bs.context.attempts == sp.context.attempts
            &&& bs.duration == sp.duration
        } else {
            let budget = eff_retries(sp.context.retries_, eff);
            let k = bs.context.attempts;
            &&& 1 <= k <= budget + 1
            &&& bs.result is Some
            &&& k <= budget ==> (bs.result matches Some(r) && r is Ok)
            &&& (bs.result matches Some(r) ==> {
                &&& (r is Ok ==> some_success(sp.hook, k))
                &&& (r matches Err(m) ==> failure_with(sp.hook, k, m@))
            })
            &&& forall|j: u32| 1 <= j < k ==> some_failure(sp.hook, j)
        }
    } by {
        assert(same_spec_decl(a.context.specs@[i], x1.context.specs@[i]));
        assert(same_spec_decl(x3.context.specs@[i], x4.context.specs@[i]));
        assert(same_spec_decl(x5.context.specs@[i], b.context.specs@[i]));
        assert(spec_ran(x4.context.specs@[i], x5.context.specs@[i], x4.context.retries_));
    }
    assert forall|i: int| 0 <= i < n implies ran_from(
        #[trigger] a.context.suites@[i],
        b.context.suites@[i],
        skipping || (suite_only_a && !a.context.suites@[i].only),
        eff,
    ) by {
        let ac = a.context.suites@[i];
        let y1 = x1.context.suites@[i];
        let y2 = x2.context.suites@[i];
        let y3 = x3.context.suites@[i];
        let y4 = x4.context.suites@[i];
        let y5 = x5.context.suites@[i];
        let bc = b.context.suites@[i];
        let cf = skipping || (suite_only_x1 && !y1.only);
        assert(same_decl(ac, y1));
        assert(only_resolved(y1, y2, cf));
        assert(retries_applied(y2, y3, eff));
        assert(same_decl(y3, y4));
        assert(same_decl(y5, bc));
        if y4.context.skip_ {
            assert(y2.context.skip_ == (cf || y1.context.skip_));
            assert(y4.context.skip_ == y2.context.skip_);
            lemma_resolution_excludes(y1, y2, cf);
            lemma_retries_keeps_excluded(y2, y3, eff);
            lemma_same_decl_keeps_excluded(y3, y4);
            lemma_excluded_ran_self(y4);
            assert(y5 == y4);
            assert(suite_ran(y4, y5));
        } else {
            assert(suite_ran(y4, y5));
        }
        assert(ac.only == y1.only);
        lemma_run_composes(
            ac,
            y1,
            y2,
            y3,
            y4,
            y5,
            bc,
            skipping || (suite_only_a && !ac.only),
            eff,
        );
    }
}

/// Like `lemma_forest_specs_ext`, with the hypothesis stated over `b`.
pub proof fn lemma_forest_specs_ext_rev<B, H>(a: Seq<Suite<B, H>>, b: Seq<Suite<B, H>>)
    requires
        a.len() == b.len(),
        forall|i: int| 0 <= i < a.len() ==> total_specs(#[trigger] b[i]) == total_specs(a[i]),
    ensures
        forest_specs(a) == forest_specs(b),
    decreases a,
{
    if a.len() > 0 {
        lemma_forest_specs_ext_rev(a.drop_last(), b.drop_last());
    }
}

/// Untouched specs keep their speed classification.
pub proof fn lemma_specs_kept_speeds<B, H>(a: Suite<B, H>, b: Suite<B, H>)
    requires
        speeds_assigned(a),
        specs_kept(a, b),
    ensures
        speeds_assigned(b),
    decreases a,
{
    assert forall|i: int| 0 <= i < b.context.suites@.len() implies speeds_assigned(
        #[trigger] b.context.suites@[i],
    ) by {
        lemma_specs_kept_speeds(a.context.suites@[i], b.context.suites@[i]);
    }
}

/// A shape-preserving pass keeps every subtree's spec total.
pub proof fn lemma_layout_totals<B, H>(a: Suite<B, H>, b: Suite<B, H>)
    requires
        layout_kept(a, b),
    ensures
        total_specs(b) == total_specs(a),
    decreases a,
{
    assert forall|i: int| 0 <= i < a.context.suites@.len() implies total_specs(
        #[trigger] b.context.suites@[i],
    ) == total_specs(a.context.suites@[i]) by {
        lemma_layout_totals(a.context.suites@[i], b.context.suites@[i]);
    }
    lemma_forest_specs_ext_rev(a.context.suites@, b.context.suites@);
}

pub proof fn lemma_orders_kept_totals<B, H>(a: Suite<B, H>, b: Suite<B, H>)
    requires
        orders_kept(a, b),
    ensures
        total_specs(b) == total_specs(a),
    decreases a,
{
    assert forall|i: int| 0 <= i < a.context.suites@.len() implies total_specs(
        #[trigger] b.context.suites@[i],
    ) == total_specs(a.context.suites@[i]) by {
        lemma_orders_kept_totals(a.context.suites@[i], b.context.suites@[i]);
    }
    lemma_forest_specs_ext_rev(a.context.suites@, b.context.suites@);
}

/// Carry the assigned layout across a layout-preserving pass.
pub proof fn lemma_layout_carries<B, H>(a: Suite<B, H>, b: Suite<B, H>, start: nat, t: DurationType)
    requires
        layout_kept(a, b),
        depths_assigned(a),
        orders_assigned(a, start),
    ensures
        depths_assigned(b),
        orders_assigned(b, start),
        dtypes_assigned(a, t) ==> dtypes_assigned(b, t),
    decreases a,
{
    assert forall|i: int| 0 <= i < b.context.suites@.len() implies {
        let bc = #[trigger] b.context.suites@[i];
        &&& bc.depth == b.depth + 1
        &&& depths_assigned(bc)
        &&& orders_assigned(
            bc,
            start + b.context.specs@.len() + forest_specs(b.context.suites@.subrange(0, i)),
        )
        &&& (dtypes_assigned(a, t) ==> dtypes_assigned(bc, t))
    } by {
        let ac = a.context.suites@[i];
        let bc = b.context.suites@[i];
        assert(layout_kept(ac, bc));
        assert(ac.depth == a.depth + 1 && depths_assigned(ac));
        let a_off = start + a.context.specs@.len() + forest_specs(
            a.context.suites@.subrange(0, i),
        );
        assert(orders_assigned(ac, a_off));
        assert(dtypes_assigned(a, t) ==> dtypes_assigned(ac, t));
        assert forall|j: int|
            0 <= j < a.context.suites@.subrange(0, i).len() implies total_specs(
            #[trigger] b.context.suites@.subrange(0, i)[j],
        ) == total_specs(a.context.suites@.subrange(0, i)[j]) by {
            assert(b.context.suites@.subrange(0, i)[j] == b.context.suites@[j]);
            assert(layout_kept(a.context.suites@[j], b.context.suites@[j]));
            lemma_layout_totals(a.context.suites@[j], b.context.suites@[j]);
        }
        lemma_forest_specs_ext_rev(
            a.context.suites@.subrange(0, i),
            b.context.suites@.subrange(0, i),
        );
        lemma_layout_carries(ac, bc, a_off, t);
    }
    assert forall|i: int| 0 <= i < b.context.specs@.len() implies (
    #[trigger] b.context.specs@[i]).order == Some((start + i) as u32) by {
        assert(a.context.specs@[i].order == Some((start + i) as u32));
    }
}

/// Carry depths across a depth-preserving pass.
pub proof fn lemma_depths_carry<B, H>(a: Suite<B, H>, b: Suite<B, H>)
    requires
        depths_kept(a, b),
        depths_assigned(a),
    ensures
        depths_assigned(b),
    decreases a,
{
    assert forall|i: int| 0 <= i < b.context.suites@.len() implies {
        let bc = #[trigger] b.context.suites@[i];
        bc.depth == b.depth + 1 && depths_assigned(bc)
    } by {
        lemma_depths_carry(a.context.suites@[i], b.context.suites@[i]);
        assert(a.context.suites@[i].depth == a.depth + 1);
    }
}

/// Carry the order indices across an order-preserving pass.
pub proof fn lemma_orders_carry<B, H>(a: Suite<B, H>, b: Suite<B, H>, start: nat)
    requires
        orders_kept(a, b),
        orders_assigned(a, start),
    ensures
        orders_assigned(b, start),
    decreases a,
{
    assert forall|i: int| 0 <= i < b.context.suites@.len() implies orders_assigned(
        #[trigger] b.context.suites@[i],
        start + b.context.specs@.len() + forest_specs(b.context.suites@.subrange(0, i)),
    ) by {
        assert forall|j: int| 0 <= j < i implies total_specs(
            #[trigger] b.context.suites@.subrange(0, i)[j],
        ) == total_specs(a.context.suites@.subrange(0, i)[j]) by {
            lemma_orders_kept_totals(a.context.suites@[j], b.context.suites@[j]);
        }
        lemma_forest_specs_ext_rev(
            a.context.suites@.subrange(0, i),
            b.context.suites@.subrange(0, i),
        );
        lemma_orders_carry(
            a.context.suites@[i],
            b.context.suites@[i],
            start + a.context.specs@.len() + forest_specs(a.context.suites@.subrange(0, i)),
        );
    }
    assert forall|i: int| 0 <= i < b.context.specs@.len() implies (
    #[trigger] b.context.specs@[i]).order == Some((start + i) as u32) by {
        assert(a.context.specs@[i].order == Some((start + i) as u32));
    }
}

/// The indexing pass's relation gives the self-contained order statement.
pub proof fn lemma_indexed_orders<B, H>(a: Suite<B, H>, b: Suite<B, H>, start: nat)
    requires
        specs_indexed(a, b, start),
    ensures
        orders_assigned(b, start),
        total_specs(b) == total_specs(a),
    decreases a,
{
    assert forall|i: int| 0 <= i < b.context.suites@.len() implies orders_assigned(
        #[trigger] b.context.suites@[i],
        start + b.context.specs@.len() + forest_specs(b.context.suites@.subrange(0, i)),
    ) by {
        let a_off = start + a.context.specs@.len() + forest_specs(
            a.context.suites@.subrange(0, i),
        );
        assert(specs_indexed(a.context.suites@[i], b.context.suites@[i], a_off));
        assert forall|j: int|
            0 <= j < a.context.suites@.subrange(0, i).len() implies total_specs(
            #[trigger] b.context.suites@.subrange(0, i)[j],
        ) == total_specs(a.context.suites@.subrange(0, i)[j]) by {
            assert(b.context.suites@.subrange(0, i)[j] == b.context.suites@[j]);
            assert(specs_indexed(
                a.context.suites@[j],
                b.context.suites@[j],
                start + a.context.specs@.len() + forest_specs(a.context.suites@.subrange(0, j)),
            ));
            lemma_indexed_orders(
                a.context.suites@[j],
                b.context.suites@[j],
                start + a.context.specs@.len() + forest_specs(a.context.suites@.subrange(0, j)),
            );
        }
        lemma_forest_specs_ext_rev(
            a.context.suites@.subrange(0, i),
            b.context.suites@.subrange(0, i),
        );
        lemma_indexed_orders(a.context.suites@[i], b.context.suites@[i], a_off);
    }
    assert forall|i: int| 0 <= i < b.context.specs@.len() implies (
    #[trigger] b.context.specs@[i]).order == Some((start + i) as u32) by {
        assert(b.context.specs@[i] == (Spec {
            order: Some((start + i) as u32),
            ..a.context.specs@[i]
        }));
    }
    assert forall|i: int| 0 <= i < b.context.suites@.len() implies total_specs(
        #[trigger] b.context.suites@[i],
    ) == total_specs(a.context.suites@[i]) by {
        lemma_indexed_orders(
            a.context.suites@[i],
            b.context.suites@[i],
            start + a.context.specs@.len() + forest_specs(a.context.suites@.subrange(0, i)),
        );
    }
    lemma_forest_specs_ext_rev(a.context.suites@, b.context.suites@);
}

/// Skip resolution keeps the layout.
pub proof fn lemma_resolved_layout<B, H>(a: Suite<B, H>, b: Suite<B, H>, forced: bool)
    requires
        only_resolved(a, b, forced),
    ensures
        layout_kept(a, b),
    decreases a,
{
    let skipping = forced || a.context.skip_;
    let suite_only = exists|k: int| 0 <= k < a.context.suites@.len() && a.context.suites@[k].only;
    assert forall|i: int| 0 <= i < a.context.suites@.len() implies layout_kept(
        #[trigger] a.context.suites@[i],
        b.context.suites@[i],
    ) by {
        lemma_resolved_layout(
            a.context.suites@[i],
            b.context.suites@[i],
            skipping || (suite_only && !a.context.suites@[i].only),
        );
    }
    assert forall|i: int| 0 <= i < a.context.specs@.len() implies (
    #[trigger] b.context.specs@[i]).order == a.context.specs@[i].order by {
        assert(a.context.specs@[i] == a.context.specs@[i]);
    }
}

/// Retry inheritance keeps the layout.
pub proof fn lemma_retries_layout<B, H>(a: Suite<B, H>, b: Suite<B, H>, inh: Option<u32>)
    requires
        retries_applied(a, b, inh),
    ensures
        layout_kept(a, b),
    decreases a,
{
    let eff = if a.context.retries_ is Some {
        a.context.retries_
    } else {
        inh
    };
    assert forall|i: int| 0 <= i < a.context.suites@.len() implies layout_kept(
        #[trigger] a.context.suites@[i],
        b.context.suites@[i],
    ) by {
        lemma_retries_layout(a.context.suites@[i], b.context.suites@[i], eff);
    }
    assert forall|i: int| 0 <= i < a.context.specs@.len() implies (
    #[trigger] b.context.specs@[i]).order == a.context.specs@[i].order by {
        assert(a.context.specs@[i] == a.context.specs@[i]);
    }
}

/// Slow-threshold inheritance keeps the layout.
pub proof fn lemma_slow_layout<B, H>(a: Suite<B, H>, b: Suite<B, H>, inh: Option<u128>)
    requires
        slow_applied(a, b, inh),
    ensures
        layout_kept(a, b),
    decreases a,
{
    let eff = if a.context.slow_ is Some {
        a.context.slow_
    } else {
        inh
    };
    assert forall|i: int| 0 <= i < a.context.suites@.len() implies layout_kept(
        #[trigger] a.context.suites@[i],
        b.context.suites@[i],
    ) by {
        lemma_slow_layout(a.context.suites@[i], b.context.suites@[i], eff);
    }
    assert forall|i: int| 0 <= i < a.context.specs@.len() implies (
    #[trigger] b.context.specs@[i]).order == a.context.specs@[i].order by {
        assert(a.context.specs@[i] == a.context.specs@[i]);
    }
}

pub proof fn lemma_layout_refl<B, H>(a: Suite<B, H>)
    ensures
        layout_kept(a, a),
    decreases a,
{
    assert forall|i: int| 0 <= i < a.context.suites@.len() implies layout_kept(
        #[trigger] a.context.suites@[i],
        a.context.suites@[i],
    ) by {
        lemma_layout_refl(a.context.suites@[i]);
    }
}

/// Execution keeps the layout.
pub proof fn lemma_ran_layout<B: SpecBody, H>(a: Suite<B, H>, b: Suite<B, H>)
    requires
        suite_ran(a, b),
    ensures
        layout_kept(a, b),
    decreases a,
{
    assert forall|i: int| 0 <= i < a.context.suites@.len() implies layout_kept(
        #[trigger] a.context.suites@[i],
        b.context.suites@[i],
    ) by {
        if a.context.suites@[i].context.skip_ {
            lemma_layout_refl(a.context.suites@[i]);
        } else {
            lemma_ran_layout(a.context.suites@[i], b.context.suites@[i]);
        }
    }
    assert forall|i: int| 0 <= i < a.context.specs@.len() implies (
    #[trigger] b.context.specs@[i]).order == a.context.specs@[i].order by {
        assert(spec_ran(a.context.specs@[i], b.context.specs@[i], a.context.retries_));
    }
}

/// The counting pass keeps the layout.
pub proof fn lemma_specs_kept_layout<B, H>(a: Suite<B, H>, b: Suite<B, H>)
    requires
        specs_kept(a, b),
    ensures
        layout_kept(a, b),
    decreases a,
{
    assert forall|i: int| 0 <= i < a.context.suites@.len() implies layout_kept(
        #[trigger] a.context.suites@[i],
        b.context.suites@[i],
    ) by {
        lemma_specs_kept_layout(a.context.suites@[i], b.context.suites@[i]);
    }
}

pub proof fn lemma_forest_specs_prefix_le<B, H>(ss: Seq<Suite<B, H>>, i: int)
    requires
        0 <= i <= ss.len(),
    ensures
        forest_specs(ss.subrange(0, i)) <= forest_specs(ss),
    decreases ss.len() - i,
{
    if i == ss.len() {
        assert(ss.subrange(0, i) =~= ss);
    } else {
        lemma_forest_specs_prefix(ss, i);
        lemma_forest_specs_prefix_le(ss, i + 1);
    }
}

/// A declared tree is ready to execute.
pub proof fn lemma_pre_run_exec_ready<B, H>(s: Suite<B, H>)
    requires
        pre_run_tree(s),
    ensures
        exec_ready(s),
    decreases s,
{
    assert forall|i: int| 0 <= i < s.context.suites@.len() implies exec_ready(
        #[trigger] s.context.suites@[i],
    ) by {
        lemma_pre_run_exec_ready(s.context.suites@[i]);
    }
}

/// Bookkeeping passes keep a tree ready to execute.
pub proof fn lemma_same_decl_exec_ready<B, H>(a: Suite<B, H>, b: Suite<B, H>)
    requires
        same_decl(a, b),
        exec_ready(a),
    ensures
        exec_ready(b),
    decreases a,
{
    assert forall|i: int| 0 <= i < b.context.specs@.len() implies {
        let sp = #[trigger] b.context.specs@[i];
        &&& (!sp.skip ==> sp.context.attempts == 0)
        &&& (sp.context.retries_ matches Some(n) ==> n < u32::MAX)
    } by {
        assert(same_spec_decl(a.context.specs@[i], b.context.specs@[i]));
        assert(!a.context.specs@[i].skip ==> a.context.specs@[i].context.attempts == 0);
    }
    assert forall|i: int| 0 <= i < b.context.suites@.len() implies exec_ready(
        #[trigger] b.context.suites@[i],
    ) by {
        lemma_same_decl_exec_ready(a.context.suites@[i], b.context.suites@[i]);
    }
}

/// Skip resolution keeps a tree ready to execute.
pub proof fn lemma_only_resolved_exec_ready<B, H>(a: Suite<B, H>, b: Suite<B, H>, forced: bool)
    requires
        only_resolved(a, b, forced),
        exec_ready(a),
    ensures
        exec_ready(b),
    decreases a,
{
    assert forall|i: int| 0 <= i < b.context.specs@.len() implies {
        let sp = #[trigger] b.context.specs@[i];
        &&& (!sp.skip ==> sp.context.attempts == 0)
        &&& (sp.context.retries_ matches Some(n) ==> n < u32::MAX)
    } by {
        assert(a.context.specs@[i] == a.context.specs@[i]);
        assert(!a.context.specs@[i].skip ==> a.context.specs@[i].context.attempts == 0);
    }
    assert forall|i: int| 0 <= i < b.context.suites@.len() implies exec_ready(
        #[trigger] b.context.suites@[i],
    ) by {
        let skipping = forced || a.context.skip_;
        let suite_only = exists|k: int|
            0 <= k < a.context.suites@.len() && a.context.suites@[k].only;
        lemma_only_resolved_exec_ready(
            a.context.suites@[i],
            b.context.suites@[i],
            skipping || (suite_only && !a.context.suites@[i].only),
        );
    }
}

/// Retry inheritance keeps a tree ready to execute, as long as the value
/// handed down leaves room in the attempts counter.
pub proof fn lemma_retries_applied_exec_ready<B, H>(
    a: Suite<B, H>,
    b: Suite<B, H>,
    inherited: Option<u32>,
)
    requires
        retries_applied(a, b, inherited),
        exec_ready(a),
        inherited matches Some(n) ==> n < u32::MAX,
    ensures
        exec_ready(b),
    decreases a,
{
    let eff = if a.context.retries_ is Some {
        a.context.retries_
    } else {
        inherited
    };
    assert forall|i: int| 0 <= i < b.context.specs@.len() implies {
        let sp = #[trigger] b.context.specs@[i];
        &&& (!sp.skip ==> sp.context.attempts == 0)
        &&& (sp.context.retries_ matches Some(n) ==> n < u32::MAX)
    } by {
        assert(a.context.specs@[i] == a.context.specs@[i]);
        assert(!a.context.specs@[i].skip ==> a.context.specs@[i].context.attempts == 0);
    }
    assert forall|i: int| 0 <= i < b.context.suites@.len() implies exec_ready(
        #[trigger] b.context.suites@[i],
    ) by {
        lemma_retries_applied_exec_ready(a.context.suites@[i], b.context.suites@[i], eff);
    }
}

} // verus!
