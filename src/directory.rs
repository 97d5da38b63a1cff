use vstd::prelude::*;
use crate::registry::{CounterRegistry, MetricsSnapshot, RegistryModel};

verus! {

/// Failure of a directory lookup.
#[derive(Debug, Clone, Copy, PartialEq, Eq, Structural)]
pub enum CounterRegistryError {
    /// No registry was ever registered for the namespace.
    NotInitialized,
}

/// The table from namespace identity to that namespace's registry.
pub struct Directory {
    ids: Vec<u64>,
    registries: Vec<CounterRegistry>,
}

/// The stage of the aggregation pipeline that a tick runs.
#[derive(Debug, Clone, Copy, PartialEq, Eq, Structural)]
pub enum Stage {
    /// Moves raw counts into the windows.
    Sample,
    /// Recomputes each key's figures from its window.
    PerKey,
    /// Recomputes the totals from the per-key figures.
    Totals,
}

/// What one tick of `stage` does to a registry.
pub open spec fn stage_step(m: RegistryModel, stage: Stage) -> RegistryModel {
    match stage {
        Stage::Sample => m.sampled(),
        Stage::PerKey => m.keys_aggregated(),
        Stage::Totals => m.totals_aggregated(),
    }
}

impl Directory {
    pub closed spec fn position(self, ns: u64) -> int {
        choose|i: int| 0 <= i < self.ids@.len() && self.ids@[i] == ns
    }

    /// Namespace to the state of its registry.
    pub closed spec fn view(self) -> Map<u64, RegistryModel> {
        Map::new(|ns: u64| self.ids@.contains(ns), |ns: u64| self.registries@[self.position(ns)]@)
    }

    /// Ids and registries in step, ids distinct, every registry well formed.
    pub closed spec fn wf(self) -> bool {
        &&& self.ids@.len() == self.registries@.len()
        &&& forall|i: int, j: int|
            0 <= i < j < self.ids@.len() ==> #[trigger] self.ids@[i] != #[trigger] self.ids@[j]
        &&& forall|i: int| 0 <= i < self.registries@.len() ==> (#[trigger] self.registries@[i]).wf()
    }

    /// A directory with no namespace.
    pub fn new() -> (r: Directory)
        ensures
            r.wf(),
            r@ == Map::<u64, RegistryModel>::empty(),
    {
        let r = Directory { ids: Vec::new(), registries: Vec::new() };
        assert(r@ =~= Map::<u64, RegistryModel>::empty());
        r
    }

    proof fn lemma_position(self, i: int)
        requires
            self.wf(),
            0 <= i < self.ids@.len(),
        ensures
            self.position(self.ids@[i]) == i,
    {
        let ns = self.ids@[i];
        assert(self.ids@.contains(ns));
        let p = self.position(ns);
        if p != i {
            if p < i {
                assert(self.ids@[p] != self.ids@[i]);
            } else {
                assert(self.ids@[i] != self.ids@[p]);
            }
        }
    }

    /// Where `ns` stands in the table, if it is registered.
    fn find(&self, ns: u64) -> (r: Option<usize>)
        requires
            self.wf(),
        ensures
            match r {
                Some(i) => i < self.ids@.len() && self.ids@[i as int] == ns && self@.contains_key(ns)
                    && self@[ns] == self.registries@[i as int]@,
                None => !self@.contains_key(ns),
            },
    {
        let mut i: usize = 0;
        while i < self.ids.len()
            invariant
                self.wf(),
                i <= self.ids@.len(),
                forall|j: int| 0 <= j < i ==> self.ids@[j] != ns,
            decreases self.ids@.len() - i,
        {
            if self.ids[i] == ns {
                proof {
                    assert(self.ids@.contains(ns));
                    self.lemma_position(i as int);
                }
                return Some(i);
            }
            i = i + 1;
        }
        None
    }

    /// Registers an empty registry for `ns`. A namespace is registered at
    /// most once: a second registration is refused and returns `false`,
    /// leaving the existing registry in place.
    pub fn register(&mut self, ns: u64) -> (r: bool)
        requires
            old(self).wf(),
        ensures
            final(self).wf(),
            r == !old(self)@.contains_key(ns),
            final(self)@ == if r {
                old(self)@.insert(ns, RegistryModel::empty())
            } else {
                old(self)@
            },
    {
        match self.find(ns) {
            Some(_) => false,
            None => {
                let reg = CounterRegistry::new();
                self.ids.push(ns);
                self.registries.push(reg);
                proof {
                    let n = self.ids@.len() - 1;
                    assert forall|i: int, j: int|
                        0 <= i < j < self.ids@.len() implies #[trigger] self.ids@[i] != #[trigger] self.ids@[j] by {
                        if j == n {
                            assert(!old(self).ids@.contains(ns));
                            assert(old(self).ids@[i] == self.ids@[i]);
                        } else {
                            assert(old(self).ids@[i] != old(self).ids@[j]);
                        }
                    }
                    assert forall|k: u64| #[trigger] self@.contains_key(k) implies old(self)@.insert(ns, RegistryModel::empty()).contains_key(k) && self@[k] == old(self)@.insert(ns, RegistryModel::empty())[k] by {
                        let p = self.position(k);
                        self.lemma_position(p);
                        if k != ns {
                            assert(p < n);
                            assert(old(self).ids@.contains(k));
                            old(self).lemma_position(p);
                        }
                    }
                    assert forall|k: u64| old(self)@.insert(ns, RegistryModel::empty()).contains_key(k) implies #[trigger] self@.contains_key(k) by {
                        if k != ns {
                            let p = old(self).position(k);
                            assert(self.ids@[p] == k);
                        } else {
                            assert(self.ids@[n] == ns);
                        }
                    }
                }
                assert(self@ =~= old(self)@.insert(ns, RegistryModel::empty()));
                true
            },
        }
    }

    /// The registry of `ns`, or `NotInitialized` when none was registered.
    pub fn lookup(&self, ns: u64) -> (r: Result<&CounterRegistry, CounterRegistryError>)
        requires
            self.wf(),
        ensures
            match r {
                Ok(reg) => self@.contains_key(ns) && reg@ == self@[ns] && reg.wf(),
                Err(e) => !self@.contains_key(ns) && e == CounterRegistryError::NotInitialized,
            },
    {
        match self.find(ns) {
            Some(i) => Ok(&self.registries[i]),
            None => Err(CounterRegistryError::NotInitialized),
        }
    }

    /// Runs one tick of `stage` on the registry of `ns`; a namespace that
    /// was never registered is left alone.
    pub fn tick(&mut self, ns: u64, stage: Stage)
        requires
            old(self).wf(),
        ensures
            final(self).wf(),
            final(self)@ == if old(self)@.contains_key(ns) {
                old(self)@.insert(ns, stage_step(old(self)@[ns], stage))
            } else {
                old(self)@
            },
    {
        if let Some(i) = self.find(ns) {
            let mut reg = self.registries.remove(i);
            match stage {
                Stage::Sample => reg.sample(),
                Stage::PerKey => reg.aggregate_keys(),
                Stage::Totals => reg.aggregate_totals(),
            }
            self.registries.insert(i, reg);
            proof { self.lemma_replaced(*old(self), i as int); }
        }
    }

    /// Counts one event for `key` in the registry of `ns`; a namespace that
    /// was never registered is left alone.
    pub fn increment(&mut self, ns: u64, key: u64)
        requires
            old(self).wf(),
        ensures
            final(self).wf(),
            final(self)@ == if old(self)@.contains_key(ns) {
                old(self)@.insert(ns, old(self)@[ns].incremented(key))
            } else {
                old(self)@
            },
    {
        if let Some(i) = self.find(ns) {
            let mut reg = self.registries.remove(i);
            reg.increment(key);
            self.registries.insert(i, reg);
            proof { self.lemma_replaced(*old(self), i as int); }
        }
    }

    /// After the registry at `i` alone was replaced by a well-formed one,
    /// the view maps its namespace to the new registry and is otherwise
    /// unchanged.
    proof fn lemma_replaced(self, before: Directory, i: int)
        requires
            before.wf(),
            0 <= i < before.ids@.len(),
            self.ids@ == before.ids@,
            self.registries@.len() == before.registries@.len(),
            self.registries@[i].wf(),
            forall|j: int| 0 <= j < self.registries@.len() && j != i ==> #[trigger] self.registries@[j] == before.registries@[j],
        ensures
            self.wf(),
            self@ == before@.insert(self.ids@[i], self.registries@[i]@),
    {
        assert forall|j: int| 0 <= j < self.registries@.len() implies (#[trigger] self.registries@[j]).wf() by {
            if j != i {
                assert(before.registries@[j].wf());
            }
        }
        let ns = self.ids@[i];
        assert forall|k: u64| #[trigger] self@.contains_key(k) implies self@[k] == before@.insert(ns, self.registries@[i]@)[k] by {
            let p = self.position(k);
            self.lemma_position(p);
            before.lemma_position(p);
        }
        assert(self@ =~= before@.insert(ns, self.registries@[i]@));
    }
}

impl MetricsSnapshot {
    /// The snapshot of namespace `ns`, or `NotInitialized` when no registry
    /// was registered for it.
    pub fn fetch(directory: &Directory, ns: u64) -> (r: Result<MetricsSnapshot, CounterRegistryError>)
        requires
            directory.wf(),
        ensures
            match r {
                Ok(s) => directory@.contains_key(ns) && s@ == directory@[ns].snapshot(),
                Err(e) => !directory@.contains_key(ns) && e == CounterRegistryError::NotInitialized,
            },
    {
        match directory.lookup(ns) {
            Ok(reg) => Ok(reg.snapshot()),
            Err(e) => Err(e),
        }
    }
}

} // verus!
