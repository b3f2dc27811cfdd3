//! The runtime's laws: what holds of every run, proved once and for all
//! against the contracts of `Suite::run` and the state store.

use vstd::prelude::*;
use crate::spec::{eff_retries, SpecBody};
use crate::state::{encoding_of, lemma_encoding_faithful, same_value, valid_encoding, StateValue};
use crate::suite::{
    attempts_effect, counts_assigned, hooks_inherited, hooks_kept, lemma_counts_partition,
    lemma_resolved_hooks, lemma_retries_hooks, only_resolved, opt_effect, ran_from,
    retries_applied, same_decl, same_spec_decl, suite_effect, suites_effect, specs_effect,
    total_specs, Suite,
};
use crate::suite_context::Hook;

verus! {

/// No spec in this tree has been attempted or carries a result.
pub open spec fn all_unattempted<B, H>(s: Suite<B, H>) -> bool
    decreases s,
{
    &&& forall|i: int|
        0 <= i < s.context.specs@.len() ==> {
            let sp = #[trigger] s.context.specs@[i];
            sp.result is None && sp.context.attempts == 0
        }
    &&& forall|i: int|
        0 <= i < s.context.suites@.len() ==> all_unattempted(#[trigger] s.context.suites@[i])
}

/// Every spec in this tree is marked skipped, never ran, and has no result.
pub open spec fn all_ignored<B, H>(s: Suite<B, H>) -> bool
    decreases s,
{
    &&& forall|i: int|
        0 <= i < s.context.specs@.len() ==> {
            let sp = #[trigger] s.context.specs@[i];
            sp.skip && sp.result is None && sp.context.attempts == 0
        }
    &&& forall|i: int|
        0 <= i < s.context.suites@.len() ==> all_ignored(#[trigger] s.context.suites@[i])
}

/// A run neither adds nor loses specs.
pub proof fn lemma_ran_from_totals<B: SpecBody, H>(
    a: Suite<B, H>,
    b: Suite<B, H>,
    forced: bool,
    inh: Option<u32>,
)
    requires
        ran_from(a, b, forced, inh),
    ensures
        total_specs(b) == total_specs(a),
    decreases a,
{
    let skipping = forced || a.context.skip_;
    let eff = if a.context.retries_ is Some {
        a.context.retries_
    } else {
        inh
    };
    let suite_only = exists|i: int|
        0 <= i < a.context.suites@.len() && a.context.suites@[i].only;
    assert forall|i: int| 0 <= i < a.context.suites@.len() implies total_specs(
        #[trigger] b.context.suites@[i],
    ) == total_specs(a.context.suites@[i]) by {
        lemma_ran_from_totals(
            a.context.suites@[i],
            b.context.suites@[i],
            skipping || (suite_only && !a.context.suites@[i].only),
            eff,
        );
    }
    crate::suite::lemma_forest_specs_ext_rev(a.context.suites@, b.context.suites@);
}

/// The run relation holds again between corresponding children.
pub proof fn lemma_ran_from_child<B: SpecBody, H>(
    a: Suite<B, H>,
    b: Suite<B, H>,
    forced: bool,
    inh: Option<u32>,
    i: int,
)
    requires
        ran_from(a, b, forced, inh),
        0 <= i < a.context.suites@.len(),
    ensures
        ran_from(
            a.context.suites@[i],
            b.context.suites@[i],
            (forced || a.context.skip_) || ((exists|k: int|
                0 <= k < a.context.suites@.len() && a.context.suites@[k].only)
                && !a.context.suites@[i].only),
            if a.context.retries_ is Some {
                a.context.retries_
            } else {
                inh
            },
        ),
{
}

/// Across a whole run, passed + failed + ignored over all specs equals the
/// number of specs the tree declares.
pub proof fn law_spec_accounting<B: SpecBody, H>(
    a: Suite<B, H>,
    b: Suite<B, H>,
)
    requires
        ran_from(a, b, false, None),
        counts_assigned(b),
    ensures
        b.context.passed + b.context.failed + b.context.ignored == total_specs(a),
{
    lemma_counts_partition(b);
    lemma_ran_from_totals(a, b, false, None);
}

/// A spec marked `only` among its siblings is the one that runs: it is
/// attempted at least once and records a result, while every sibling is
/// marked skipped with no attempts and no result.
pub proof fn law_only_focuses<B: SpecBody, H>(
    a: Suite<B, H>,
    b: Suite<B, H>,
    forced: bool,
    inh: Option<u32>,
    i: int,
)
    requires
        ran_from(a, b, forced, inh),
        !forced,
        !a.context.skip_,
        0 <= i < a.context.specs@.len(),
        a.context.specs@[i].only,
        !a.context.specs@[i].skip,
        forall|j: int|
            0 <= j < a.context.specs@.len() && j != i ==> !(#[trigger] a.context.specs@[j]).only,
        forall|j: int|
            0 <= j < a.context.specs@.len() ==> (#[trigger] a.context.specs@[j]).result is None
                && a.context.specs@[j].context.attempts == 0,
    ensures
        !b.context.specs@[i].skip,
        b.context.specs@[i].result is Some,
        b.context.specs@[i].context.attempts >= 1,
        forall|j: int|
            0 <= j < a.context.specs@.len() && j != i ==> {
                let bs = #[trigger] b.context.specs@[j];
                bs.skip && bs.result is None && bs.context.attempts == 0
            },
{
    assert(a.context.specs@[i].only);
    assert(exists|k: int| 0 <= k < a.context.specs@.len() && a.context.specs@[k].only);
    assert forall|j: int| 0 <= j < a.context.specs@.len() && j != i implies {
        let bs = #[trigger] b.context.specs@[j];
        bs.skip && bs.result is None && bs.context.attempts == 0
    } by {
        let sp = a.context.specs@[j];
        assert(!sp.only);
        assert(b.context.specs@[j].skip);
    }
}

/// A spec with a retry budget of `k` whose body fails on every attempt and
/// every state runs exactly `k + 1` times, and what it records is the last
/// attempt's failure: a message the body produces on attempt `k + 1`.
pub proof fn law_retries_exhausted<B: SpecBody, H>(
    a: Suite<B, H>,
    b: Suite<B, H>,
    forced: bool,
    inh: Option<u32>,
    i: int,
    k: u32,
    last_msg: Seq<char>,
)
    requires
        ran_from(a, b, forced, inh),
        !forced,
        !a.context.skip_,
        0 <= i < a.context.specs@.len(),
        !a.context.specs@[i].skip,
        (exists|j: int| 0 <= j < a.context.specs@.len() && (#[trigger] a.context.specs@[j]).only)
            ==> a.context.specs@[i].only,
        eff_retries(a.context.specs@[i].context.retries_, if a.context.retries_ is Some {
            a.context.retries_
        } else {
            inh
        }) == k,
        forall|at: u32, st: Seq<u8>|
            #[trigger] a.context.specs@[i].hook.outcome(at, st) is Some,
        forall|st: Seq<u8>| #[trigger] a.context.specs@[i].hook.outcome((k + 1) as u32, st)
            == Some(last_msg),
        k < u32::MAX,
    ensures
        b.context.specs@[i].context.attempts == k + 1,
        b.context.specs@[i].result matches Some(r) && (r matches Err(m) && m@ == last_msg),
{
    let sp = a.context.specs@[i];
    let bs = b.context.specs@[i];
    let kk = bs.context.attempts;
    assert(eff_retries(sp.context.retries_, if a.context.retries_ is Some {
        a.context.retries_
    } else {
        inh
    }) == k);
    match bs.result {
        Some(r) => match r {
            Ok(_) => {
                assert(crate::spec::some_success(sp.hook, kk));
                let st = choose|st: Seq<u8>| sp.hook.outcome(kk, st) is None;
                assert(sp.hook.outcome(kk, st) is Some);
                assert(false);
            },
            Err(m) => {
                assert(kk == k + 1);
                assert(crate::spec::failure_with(sp.hook, kk, m@));
                let st = choose|st: Seq<u8>| sp.hook.outcome(kk, st) == Some(m@);
                assert(sp.hook.outcome(((k + 1) as u32), st) == Some(last_msg));
                assert(sp.hook.outcome(kk, st) == Some(last_msg));
            },
        },
        None => {
            assert(false);
        },
    }
}

/// A spec with a retry budget of `k` whose body first succeeds on attempt
/// `j` (failing on every earlier attempt) runs exactly `j` times and is
/// recorded passing.
pub proof fn law_retries_first_success<B: SpecBody, H>(
    a: Suite<B, H>,
    b: Suite<B, H>,
    forced: bool,
    inh: Option<u32>,
    i: int,
    k: u32,
    j: u32,
)
    requires
        ran_from(a, b, forced, inh),
        !forced,
        !a.context.skip_,
        0 <= i < a.context.specs@.len(),
        !a.context.specs@[i].skip,
        (exists|jj: int|
            0 <= jj < a.context.specs@.len() && (#[trigger] a.context.specs@[jj]).only)
            ==> a.context.specs@[i].only,
        eff_retries(a.context.specs@[i].context.retries_, if a.context.retries_ is Some {
            a.context.retries_
        } else {
            inh
        }) == k,
        k < u32::MAX,
        1 <= j <= k + 1,
        forall|at: u32, st: Seq<u8>|
            at < j ==> #[trigger] a.context.specs@[i].hook.outcome(at, st) is Some,
        forall|st: Seq<u8>| #[trigger] a.context.specs@[i].hook.outcome(j, st) is None,
    ensures
        b.context.specs@[i].context.attempts == j,
        b.context.specs@[i].result matches Some(r) && r is Ok,
{
    let sp = a.context.specs@[i];
    let bs = b.context.specs@[i];
    let kk = bs.context.attempts;
    assert(eff_retries(sp.context.retries_, if a.context.retries_ is Some {
        a.context.retries_
    } else {
        inh
    }) == k);
    if kk > j {
        assert(crate::spec::some_failure(sp.hook, j));
        let st = choose|st: Seq<u8>| sp.hook.outcome(j, st) is Some;
        assert(sp.hook.outcome(j, st) is None);
        assert(false);
    }
    if kk < j {
        assert(kk <= k);
        assert(bs.result matches Some(r) && r is Ok);
        assert(crate::spec::some_success(sp.hook, kk));
        let st = choose|st: Seq<u8>| sp.hook.outcome(kk, st) is None;
        assert(sp.hook.outcome(kk, st) is Some);
        assert(false);
    }
    assert(kk == j);
    match bs.result {
        Some(r) => match r {
            Ok(_) => {},
            Err(m) => {
                assert(crate::spec::failure_with(sp.hook, kk, m@));
                let st = choose|st: Seq<u8>| sp.hook.outcome(kk, st) == Some(m@);
                assert(sp.hook.outcome(j, st) is None);
                assert(false);
            },
        },
        None => {
            assert(false);
        },
    }
}

/// Skip at a suite node propagates: after a run, every spec at or beneath a
/// suite that was marked skipped (or excluded from above) reports no result
/// and zero attempts, and carries the skip mark.
pub proof fn law_skip_propagates<B: SpecBody, H>(
    a: Suite<B, H>,
    b: Suite<B, H>,
    forced: bool,
    inh: Option<u32>,
)
    requires
        ran_from(a, b, forced, inh),
        forced || a.context.skip_,
        all_unattempted(a),
    ensures
        all_ignored(b),
    decreases a,
{
    let skipping = forced || a.context.skip_;
    let eff = if a.context.retries_ is Some {
        a.context.retries_
    } else {
        inh
    };
    let suite_only = exists|i: int|
        0 <= i < a.context.suites@.len() && a.context.suites@[i].only;
    assert forall|i: int| 0 <= i < b.context.specs@.len() implies {
        let sp = #[trigger] b.context.specs@[i];
        sp.skip && sp.result is None && sp.context.attempts == 0
    } by {
        assert(a.context.specs@[i].result is None && a.context.specs@[i].context.attempts == 0);
    }
    assert forall|i: int| 0 <= i < b.context.suites@.len() implies all_ignored(
        #[trigger] b.context.suites@[i],
    ) by {
        assert(all_unattempted(a.context.suites@[i]));
        law_skip_propagates(
            a.context.suites@[i],
            b.context.suites@[i],
            skipping || (suite_only && !a.context.suites@[i].only),
            eff,
        );
    }
}

/// Hooks run top-down, strictly before the specs they wrap: in a tree of a
/// parent with one child suite holding one spec, the store that the spec's
/// attempts fold over is the child's `before_all` effect applied after the
/// parent's — so, for hooks that append to a shared log, the spec sees the
/// parent's entry first and the child's second, before its body runs.
pub proof fn law_before_all_order<B: SpecBody, H: Hook>(a: Suite<B, H>, st0: Seq<u8>)
    requires
        a.context.specs@.len() == 0,
        a.context.suites@.len() == 1,
        a.context.after_all_hook is None,
        ({
            let c = a.context.suites@[0];
            &&& !c.context.skip_
            &&& !c.context.owns_state
            &&& c.context.specs@.len() == 1
            &&& !c.context.specs@[0].skip
            &&& c.context.suites@.len() == 0
            &&& c.context.before_each_hook is None
            &&& c.context.after_each_hook is None
            &&& c.context.after_all_hook is None
        }),
    ensures
        ({
            let c = a.context.suites@[0];
            let sp = c.context.specs@[0];
            let seen = opt_effect(
                c.context.before_all_hook,
                opt_effect(a.context.before_all_hook, st0),
            );
            suite_effect(a, st0) == attempts_effect(
                sp.hook,
                None::<H>,
                None::<H>,
                (eff_retries(sp.context.retries_, c.context.retries_) + 1) as u32,
                1,
                seen,
            )
        }),
{
    let c = a.context.suites@[0];
    let sp = c.context.specs@[0];
    let st1 = opt_effect(a.context.before_all_hook, st0);
    assert(specs_effect(
        a.context.specs@,
        a.context.before_each_hook,
        a.context.after_each_hook,
        a.context.retries_,
        st1,
    ) == st1);
    assert(a.context.suites@.drop_last() =~= Seq::<Suite<B, H>>::empty());
    assert(a.context.suites@.last() == c);
    assert(suites_effect(a.context.suites@.drop_last(), st1) == st1);
    assert(suites_effect(a.context.suites@, st1) == suite_effect(c, st1));
    let st2 = opt_effect(c.context.before_all_hook, st1);
    assert(c.context.specs@.drop_last() =~= Seq::<crate::spec::Spec<B>>::empty());
    assert(c.context.specs@.last() == sp);
    assert(specs_effect(
        c.context.specs@.drop_last(),
        c.context.before_each_hook,
        c.context.after_each_hook,
        c.context.retries_,
        st2,
    ) == st2);
    assert(specs_effect(
        c.context.specs@,
        c.context.before_each_hook,
        c.context.after_each_hook,
        c.context.retries_,
        st2,
    ) == attempts_effect(
        sp.hook,
        c.context.before_each_hook,
        c.context.after_each_hook,
        (eff_retries(sp.context.retries_, c.context.retries_) + 1) as u32,
        1,
        st2,
    ));
    assert(c.context.before_each_hook == None::<H>);
    assert(c.context.after_each_hook == None::<H>);
    assert(suites_effect(c.context.suites@, attempts_effect(
        sp.hook,
        None::<H>,
        None::<H>,
        (eff_retries(sp.context.retries_, c.context.retries_) + 1) as u32,
        1,
        st2,
    )) == attempts_effect(
        sp.hook,
        None::<H>,
        None::<H>,
        (eff_retries(sp.context.retries_, c.context.retries_) + 1) as u32,
        1,
        st2,
    ));
}

/// The end-to-end form of the hook-ordering law, consuming `Suite::run`'s
/// store clause: take the witnesses of its existential for a declared tree
/// of a parent with one child suite holding one spec (no per-attempt hooks,
/// no closing hooks, nothing skipped or isolated). The final store is then
/// the spec's attempt fold over the child's `before_all` effect applied
/// after the parent's — parent first, child second, strictly before the
/// body ever runs.
pub proof fn law_run_before_all_order<B: SpecBody, H: Hook>(
    a: Suite<B, H>,
    r1: Suite<B, H>,
    r2: Suite<B, H>,
    r3: Suite<B, H>,
    rt: Suite<B, H>,
    st_final: Seq<u8>,
    st0: Seq<u8>,
)
    requires
        a.context.specs@.len() == 0,
        a.context.suites@.len() == 1,
        !a.context.skip_,
        a.context.before_each_hook is None,
        a.context.after_each_hook is None,
        a.context.after_all_hook is None,
        ({
            let c = a.context.suites@[0];
            &&& !c.context.skip_
            &&& !c.context.owns_state
            &&& c.context.specs@.len() == 1
            &&& !c.context.specs@[0].skip
            &&& c.context.suites@.len() == 0
            &&& c.context.before_each_hook is None
            &&& c.context.after_each_hook is None
            &&& c.context.after_all_hook is None
        }),
        same_decl(a, r1),
        hooks_kept(a, r1),
        only_resolved(r1, r2, false),
        retries_applied(r2, r3, None),
        hooks_inherited(r3, rt, None, None),
        same_decl(r3, rt),
        st_final == suite_effect(rt, st0),
    ensures
        ({
            let c = a.context.suites@[0];
            let sp = c.context.specs@[0];
            let budget = eff_retries(sp.context.retries_, if c.context.retries_ is Some {
                c.context.retries_
            } else {
                a.context.retries_
            });
            st_final == attempts_effect(
                sp.hook,
                None::<H>,
                None::<H>,
                (budget + 1) as u32,
                1,
                opt_effect(
                    c.context.before_all_hook,
                    opt_effect(a.context.before_all_hook, st0),
                ),
            )
        }),
{
    let c = a.context.suites@[0];
    let sp = c.context.specs@[0];
    let c1 = r1.context.suites@[0];
    assert(same_decl(c, c1) && hooks_kept(c, c1));
    assert(same_spec_decl(sp, c1.context.specs@[0]));
    // resolution: nothing at either level is excluded
    lemma_resolved_hooks(r1, r2, false);
    let c2 = r2.context.suites@[0];
    let suite_only = exists|k: int|
        0 <= k < r1.context.suites@.len() && r1.context.suites@[k].only;
    assert(suite_only ==> c1.only) by {
        if suite_only {
            let k = choose|k: int|
                0 <= k < r1.context.suites@.len() && r1.context.suites@[k].only;
            assert(k == 0);
        }
    }
    let forced2 = (false || r1.context.skip_) || (suite_only && !c1.only);
    assert(!forced2);
    assert(only_resolved(c1, c2, forced2));
    assert(hooks_kept(c, c2)) by {
        crate::suite::lemma_hooks_kept_trans(c, c1, c2);
    }
    assert(!c2.context.skip_);
    let spec_only1 = exists|k: int|
        0 <= k < c1.context.specs@.len() && c1.context.specs@[k].only;
    assert(c2.context.specs@[0] == (crate::spec::Spec {
        skip: c1.context.specs@[0].skip || (forced2 || c1.context.skip_) || (!(forced2
            || c1.context.skip_) && spec_only1 && !c1.context.specs@[0].only),
        ..c1.context.specs@[0]
    }));
    assert(spec_only1 ==> c1.context.specs@[0].only) by {
        if spec_only1 {
            let k = choose|k: int|
                0 <= k < c1.context.specs@.len() && c1.context.specs@[k].only;
            assert(k == 0);
        }
    }
    assert(!c2.context.specs@[0].skip);
    // retry inheritance: compute the budget the spec ends up with
    lemma_retries_hooks(r2, r3, None);
    let c3 = r3.context.suites@[0];
    let eff_root = if r2.context.retries_ is Some {
        r2.context.retries_
    } else {
        None
    };
    assert(r2.context.retries_ == a.context.retries_);
    assert(retries_applied(c2, c3, eff_root));
    assert(hooks_kept(c, c3)) by {
        crate::suite::lemma_hooks_kept_trans(c, c2, c3);
    }
    let eff_child = if c2.context.retries_ is Some {
        c2.context.retries_
    } else {
        eff_root
    };
    assert(c2.context.retries_ == c.context.retries_);
    assert(c3.context.retries_ == eff_child);
    assert(c3.context.specs@[0].context.retries_ == (if c2.context.specs@[0].context.retries_
        is Some {
        c2.context.specs@[0].context.retries_
    } else {
        eff_child
    }));
    // hook inheritance: nothing to inherit, every slot stays put
    let ct = rt.context.suites@[0];
    assert(hooks_inherited(c3, ct, if r3.context.before_each_hook is Some {
        r3.context.before_each_hook
    } else {
        None
    }, if r3.context.after_each_hook is Some {
        r3.context.after_each_hook
    } else {
        None
    }));
    assert(r3.context.before_each_hook == a.context.before_each_hook);
    assert(r3.context.after_each_hook == a.context.after_each_hook);
    assert(ct.context.before_each_hook is None);
    assert(ct.context.after_each_hook is None);
    assert(ct.context.before_all_hook == c.context.before_all_hook);
    assert(ct.context.after_all_hook == c.context.after_all_hook);
    assert(!ct.context.owns_state);
    assert(same_decl(c3, ct));
    assert(!ct.context.skip_);
    assert(!ct.context.specs@[0].skip);
    assert(same_spec_decl(c3.context.specs@[0], ct.context.specs@[0]));
    assert(ct.context.specs@[0].hook == sp.hook);
    // the resolved tree has the shape the model-level ordering law wants
    assert(rt.context.specs@.len() == 0);
    assert(rt.context.suites@.len() == 1);
    assert(rt.context.after_all_hook is None);
    assert(rt.context.before_all_hook == a.context.before_all_hook);
    assert(rt.context.suites@[0] == ct);
    law_before_all_order(rt, st0);
    let budget = eff_retries(sp.context.retries_, if c.context.retries_ is Some {
        c.context.retries_
    } else {
        a.context.retries_
    });
    assert(eff_retries(ct.context.specs@[0].context.retries_, ct.context.retries_) == budget);
}

/// The state store's round trip: a stored value's encoding is always read
/// back successfully, and no other value shares its encoding — so what
/// comes back is, content for content, what went in; a buffer that holds
/// no valid encoding is rejected with a typed error, never misread.
pub proof fn law_state_round_trip(v: StateValue, buf: Seq<u8>)
    requires
        buf == encoding_of(v),
    ensures
        valid_encoding(buf),
        forall|w: StateValue| buf == #[trigger] encoding_of(w) ==> same_value(w, v),
{
    assert forall|w: StateValue| buf == #[trigger] encoding_of(w) implies same_value(w, v) by {
        lemma_encoding_faithful(w, v);
    }
    lemma_encoding_faithful(v, v);
}

} // verus!
