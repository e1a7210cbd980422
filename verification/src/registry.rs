//! The per-evaluation batch of pending anonymous-target registrations.
//!
//! A registry accumulates `(promise, key)` pairs.  Draining swaps the
//! pending batch out whole, leaving a fresh empty registry in place, so
//! registrations made re-entrantly during a drain land in the successor
//! batch and never race with the batch being resolved.  Within one
//! drain all keys resolve in any completion order, but promises bind
//! strictly in registration order.

use vstd::pervasive::VecAdditionalExecFns;
use vstd::prelude::*;

use crate::attrs::RawValue;
use crate::attrs::Rule;
use crate::config::resolution_cfg;
use crate::config::ExecutionPlatformResolution;
use crate::config::ResolutionV;
use crate::engine::cache_find;
use crate::engine::engine_wf;
use crate::engine::AnalysisResult;
use crate::engine::AnalysisV;
use crate::engine::Engine;
use crate::engine::Provider;
use crate::errors::AnonTargetsError;
use crate::errors::ErrV;
use crate::key::entries_view;
use crate::key::make_key;
use crate::key::raws_wf;
use crate::key::target_wf;
use crate::key::unique_keys;
use crate::key::AnonTargetKey;
use crate::key::TargetV;

verus! {

/// The caller's opaque deferred handle; the registry binds each exactly
/// once after a drain completes.
#[derive(Clone, Copy, PartialEq, Eq, Structural, Debug)]
pub struct PromiseId(pub u64);

/// A batch of pending registrations under one inherited execution
/// platform.
#[derive(Debug)]
pub struct AnonTargetsRegistry {
    pub execution_platform: ExecutionPlatformResolution,
    pub entries: Vec<(PromiseId, AnonTargetKey)>,
}

/// The mathematical form of a registry.
pub ghost struct RegistryV {
    pub platform: ResolutionV,
    pub entries: Seq<(PromiseId, TargetV)>,
}

impl View for AnonTargetsRegistry {
    type V = RegistryV;

    open spec fn view(&self) -> RegistryV {
        RegistryV {
            platform: self.execution_platform@,
            entries: self.entries@.map_values(|p: (PromiseId, AnonTargetKey)| (p.0, p.1@)),
        }
    }
}

/// Well-formedness of a registry: every pending key is a well-formed
/// target identity.
pub open spec fn registry_wf(r: RegistryV) -> bool {
    forall|i: int| 0 <= i < r.entries.len() ==> target_wf((#[trigger] r.entries[i]).1)
}

/// A schedule stands for the order in which the concurrent resolutions
/// of one drain happen to complete: it visits every pending index.
pub open spec fn schedule_ok(schedule: Seq<usize>, n: int) -> bool {
    &&& schedule.len() == n
    &&& forall|t: int| 0 <= t < schedule.len() ==> (#[trigger] schedule[t]) < n
    &&& forall|v: usize| 0 <= v < n ==> schedule.contains(v)
}

/// What a successful drain guarantees for one registration: the cache
/// holds a successful analysis for its identity, and the binding hands
/// that promise exactly that result's provider collection.
pub open spec fn promise_bound(
    cache: Seq<(TargetV, Result<AnalysisV, ErrV>)>,
    entry: (PromiseId, TargetV),
    binding: (PromiseId, Vec<Provider>),
) -> bool {
    match cache_find(cache, entry.1) {
        Option::Some(res) => match res {
            Result::Ok(a) => binding.0 == entry.0 && binding.1@.map_values(|p: Provider| p@)
                == a.providers,
            Result::Err(_) => false,
        },
        Option::None => false,
    }
}

impl AnonTargetsRegistry {
    /// An empty registry inheriting its parent's execution platform.
    pub fn new(execution_platform: ExecutionPlatformResolution) -> (r: Self)
        ensures
            r@.platform == execution_platform@,
            r@.entries.len() == 0,
            registry_wf(r@),
    {
        let r = AnonTargetsRegistry { execution_platform, entries: Vec::new() };
        proof {
            assert(r@.entries =~= Seq::<(PromiseId, TargetV)>::empty());
        }
        r
    }

    /// Builds the key for one anonymous target and appends it with its
    /// promise.  On any coercion failure nothing is registered and the
    /// error surfaces synchronously, before any resolution begins.
    pub fn register(
        &mut self,
        promise: PromiseId,
        rule: &Rule,
        attributes: &Vec<(String, RawValue)>,
    ) -> (r: Result<(), AnonTargetsError>)
        requires
            registry_wf(old(self)@),
            unique_keys(entries_view(attributes@)),
            raws_wf(entries_view(attributes@)),
        ensures
            registry_wf(final(self)@),
            final(self)@.platform == old(self)@.platform,
            match r {
                Ok(_) => {
                    &&& make_key(
                        resolution_cfg(old(self)@.platform),
                        rule@,
                        entries_view(attributes@),
                    ) is Ok
                    &&& final(self)@.entries == old(self)@.entries.push(
                        (
                            promise,
                            make_key(
                                resolution_cfg(old(self)@.platform),
                                rule@,
                                entries_view(attributes@),
                            )->Ok_0,
                        ),
                    )
                },
                Err(e) => make_key(
                    resolution_cfg(old(self)@.platform),
                    rule@,
                    entries_view(attributes@),
                ) == Result::<TargetV, ErrV>::Err(e@) && final(self)@ == old(self)@,
            },
    {
        let key = match AnonTargetKey::new(&self.execution_platform, rule, attributes) {
            Ok(key) => key,
            Err(e) => {
                return Err(e);
            },
        };
        let ghost old_entries = self@.entries;
        self.entries.push((promise, key));
        proof {
            assert(self@.entries =~= old_entries.push(
                (promise, self.entries@[self.entries@.len() - 1].1@),
            ));
        }
        Ok(())
    }

    /// Swaps the pending batch out for draining, leaving this registry
    /// empty and ready for registrations made during the ensuing
    /// resolution.  An empty registry yields nothing and no drain.
    pub fn get_promises(&mut self) -> (r: Option<AnonTargetsRegistry>)
        requires
            registry_wf(old(self)@),
        ensures
            registry_wf(final(self)@),
            final(self)@.platform == old(self)@.platform,
            final(self)@.entries.len() == 0,
            match r {
                Option::None => old(self)@.entries.len() == 0 && final(self)@ == old(self)@,
                Option::Some(taken) => old(self)@.entries.len() > 0 && taken@ == old(self)@
                    && registry_wf(taken@),
            },
    {
        if self.entries.is_empty() {
            proof {
                assert(self@.entries =~= Seq::<(PromiseId, TargetV)>::empty());
            }
            return None;
        }
        let mut taken = AnonTargetsRegistry::new(self.execution_platform.duplicate());
        core::mem::swap(&mut taken, self);
        proof {
            assert(self@.entries =~= Seq::<(PromiseId, TargetV)>::empty());
        }
        Some(taken)
    }

    /// Fails if any registration is pending; contexts that must not
    /// allow deferred anonymous-target analysis call this.
    pub fn assert_no_promises(&self) -> (r: Result<(), AnonTargetsError>)
        ensures
            match r {
                Ok(_) => self@.entries.len() == 0,
                Err(e) => self@.entries.len() > 0 && e@ == ErrV::AssertNoPromisesFailed,
            },
    {
        if self.entries.is_empty() {
            Ok(())
        } else {
            Err(AnonTargetsError::AssertNoPromisesFailed)
        }
    }

    /// Drains the batch: every pending key resolves through the
    /// engine's memoizing cache, in whatever order the concurrent
    /// resolutions complete (the schedule); then, strictly in original
    /// registration order, each promise is bound to its result's
    /// provider collection.  The first error encountered, in completion
    /// order, aborts the whole batch and no binding is produced.
    #[verifier::loop_isolation(false)]
    pub fn run_promises(self, engine: &mut Engine, schedule: &Vec<usize>) -> (r: Result<
        Vec<(PromiseId, Vec<Provider>)>,
        AnonTargetsError,
    >)
        requires
            registry_wf(self@),
            engine_wf(old(engine)@),
            schedule_ok(schedule@, self@.entries.len() as int),
        ensures
            engine_wf(final(engine)@),
            final(engine)@.rules == old(engine)@.rules,
            final(engine)@.platforms == old(engine)@.platforms,
            match r {
                Ok(bindings) => {
                    &&& bindings@.len() == self@.entries.len()
                    &&& forall|i: int|
                        0 <= i < bindings@.len() ==> (#[trigger] bindings@[i]).0
                            == self@.entries[i].0
                    &&& forall|i: int|
                        0 <= i < bindings@.len() ==> promise_bound(
                            final(engine)@.cache,
                            self@.entries[i],
                            #[trigger] bindings@[i],
                        )
                },
                Err(e) => exists|i: int|
                    0 <= i < self@.entries.len() && cache_find(
                        final(engine)@.cache,
                        (#[trigger] self@.entries[i]).1,
                    ) == Option::Some(Result::<AnalysisV, ErrV>::Err(e@)),
            },
    {
        let ghost ev = self@.entries;
        let n = self.entries.len();
        // Resolve all the targets; the schedule is the completion order
        // of the concurrent resolutions.
        let mut results: Vec<Option<AnalysisResult>> = Vec::new();
        let mut f: usize = 0;
        while f < n
            invariant
                0 <= f <= n,
                results@.len() == f,
                forall|v: int| 0 <= v < f ==> (#[trigger] results@[v]) is None,
            decreases n - f,
        {
            results.push(None);
            f += 1;
        }
        let mut t: usize = 0;
        while t < n
            invariant
                0 <= t <= n,
                results@.len() == n,
                engine_wf(engine@),
                engine@.rules == old(engine)@.rules,
                engine@.platforms == old(engine)@.platforms,
                forall|v: int|
                    0 <= v < n && (#[trigger] results@[v]) is Some ==> (cache_find(
                        engine@.cache,
                        ev[v].1,
                    ) matches Option::Some(c) && c == Result::<AnalysisV, ErrV>::Ok(
                        results@[v]->Some_0@,
                    )),
                forall|t0: int|
                    0 <= t0 < t ==> (#[trigger] results@[schedule@[t0] as int]) is Some,
            decreases n - t,
        {
            let idx = schedule[t];
            let ghost results_old = results@;
            let ghost cache_old = engine@.cache;
            proof {
                assert(ev[idx as int].1 == self.entries@[idx as int].1@);
                assert(target_wf(ev[idx as int].1));
            }
            let outcome = self.entries[idx].1.resolve(engine);
            proof {
                assert forall|v: int|
                    0 <= v < n && (#[trigger] results_old[v]) is Some implies cache_find(
                    engine@.cache,
                    ev[v].1,
                ) == cache_find(cache_old, ev[v].1) by {
                    assert(cache_find(cache_old, ev[v].1) is Some);
                }
            }
            match outcome {
                Ok(a) => {
                    results.set(idx, Some(a));
                },
                Err(e) => {
                    proof {
                        assert(cache_find(engine@.cache, ev[idx as int].1) == Option::Some(
                            Result::<AnalysisV, ErrV>::Err(e@),
                        ));
                    }
                    return Err(e);
                },
            }
            t += 1;
        }
        proof {
            assert forall|v: int| 0 <= v < n implies (#[trigger] results@[v]) is Some by {
                assert(schedule@.contains(v as usize));
                let t0 = choose|t0: int|
                    0 <= t0 < schedule@.len() && schedule@[t0] == v as usize;
                assert(results@[schedule@[t0] as int] is Some);
            }
        }
        // Bind the promises sequentially, in registration order.
        let mut out: Vec<(PromiseId, Vec<Provider>)> = Vec::new();
        let mut i: usize = 0;
        while i < n
            invariant
                0 <= i <= n,
                results@.len() == n,
                out@.len() == i,
                engine_wf(engine@),
                engine@.rules == old(engine)@.rules,
                engine@.platforms == old(engine)@.platforms,
                forall|v: int|
                    0 <= v < n ==> (#[trigger] results@[v]) is Some,
                forall|v: int|
                    0 <= v < n && (#[trigger] results@[v]) is Some ==> (cache_find(
                        engine@.cache,
                        ev[v].1,
                    ) matches Option::Some(c) && c == Result::<AnalysisV, ErrV>::Ok(
                        results@[v]->Some_0@,
                    )),
                forall|k: int|
                    0 <= k < i ==> (#[trigger] out@[k]).0 == ev[k].0,
                forall|k: int|
                    0 <= k < i ==> (#[trigger] out@[k]).1@.map_values(|p: Provider| p@)
                        == results@[k]->Some_0@.providers,
            decreases n - i,
        {
            match &results[i] {
                Some(a) => {
                    let copy = a.duplicate();
                    proof {
                        assert(ev[i as int].0 == self.entries@[i as int].0);
                    }
                    out.push((self.entries[i].0, copy.providers));
                },
                None => {
                    proof {
                        assert(false);
                    }
                    return Err(AnonTargetsError::AssertNoPromisesFailed);
                },
            }
            i += 1;
        }
        proof {
            assert forall|i0: int|
                0 <= i0 < out@.len() implies promise_bound(
                engine@.cache,
                ev[i0],
                #[trigger] out@[i0],
            ) by {
                assert(results@[i0] is Some);
            }
        }
        Ok(out)
    }
}

} // verus!
