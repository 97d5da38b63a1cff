use vstd::prelude::*;
use crate::window::{sum_window, window_with, wrapping_sum, zero_window, WINDOW_LEN};
use dashmap::DashMap;
use std::collections::HashMap;

verus! {

#[verifier::external_type_specification]
#[verifier::external_body]
#[verifier::reject_recursive_types(K)]
#[verifier::reject_recursive_types(V)]
#[verifier::reject_recursive_types(S)]
pub struct ExDashMap<K, V, S>(DashMap<K, V, S>);

/// A sharded concurrent map from key to raw count.
pub type CounterMap = DashMap<u64, u64>;

/// What a map of raw counters holds: key to count.
pub uninterp spec fn counts_of(m: DashMap<u64, u64>) -> Map<u64, u64>;

/// Relies on `dashmap::DashMap::new`: a new map holds no entry.
#[verifier::external_body]
fn new_counters() -> (r: CounterMap)
    ensures
        counts_of(r).dom() == Set::<u64>::empty(),
{
    DashMap::new()
}

/// Relies on `dashmap::DashMap::insert`: afterwards `key` maps to `value`,
/// every other entry is kept, and the value `key` held before, if any, is
/// returned.
#[verifier::external_body]
fn insert_count(m: &mut DashMap<u64, u64>, key: u64, value: u64) -> (r: Option<u64>)
    ensures
        counts_of(*final(m)) == counts_of(*old(m)).insert(key, value),
        r == (if counts_of(*old(m)).contains_key(key) {
            Some(counts_of(*old(m))[key])
        } else {
            None
        }),
{
    m.insert(key, value)
}

/// Relies on `dashmap::DashMap::get`: the value `key` maps to, if any.
#[verifier::external_body]
fn get_count(m: &DashMap<u64, u64>, key: u64) -> (r: Option<u64>)
    ensures
        r == (if counts_of(*m).contains_key(key) {
            Some(counts_of(*m)[key])
        } else {
            None
        }),
{
    m.get(&key).map(|c| *c)
}

/// The rolling figures of one key: events per second over the trailing
/// minute, and events in the trailing minute.
#[derive(Clone, Copy, Debug)]
pub struct PerKeyMetrics {
    pub per_second: u64,
    pub per_minute: u64,
}

/// The process-wide figures of one namespace.
#[derive(Clone, Copy, Debug)]
pub struct TotalMetrics {
    pub total_per_second: u64,
    pub total_per_minute: u64,
}

/// Abstract state of one key.
pub struct SeriesModel {
    pub key: u64,
    pub raw: u64,
    pub window: Seq<u64>,
    pub metrics: Option<(u64, u64)>,
}

/// Abstract state of a registry: its keys in order of first increment,
/// the shared rotation index, and the global totals.
pub struct RegistryModel {
    pub series: Seq<SeriesModel>,
    pub index: nat,
    pub totals: (u64, u64),
}

pub open spec fn metrics_of(sum: u64) -> (u64, u64) {
    (sum / 60, sum)
}

pub open spec fn fresh_series(key: u64) -> SeriesModel {
    SeriesModel { key, raw: 1, window: Seq::new(WINDOW_LEN as nat, |_i: int| 0u64), metrics: None }
}

/// The per-minute figure a key contributes to the totals (zero before its
/// first aggregation).
pub open spec fn minute_of(s: SeriesModel) -> u64 {
    match s.metrics {
        Some(m) => m.1,
        None => 0,
    }
}

/// Map from key to `(average, sum)` over the keys that have been aggregated.
pub open spec fn per_key_map(series: Seq<SeriesModel>) -> Map<u64, (u64, u64)>
    decreases series.len(),
{
    if series.len() == 0 {
        Map::empty()
    } else {
        let rest = per_key_map(series.drop_last());
        match series.last().metrics {
            Some(m) => rest.insert(series.last().key, m),
            None => rest,
        }
    }
}

impl RegistryModel {
    pub open spec fn empty() -> RegistryModel {
        RegistryModel { series: Seq::empty(), index: 0, totals: (0, 0) }
    }

    /// Rotation index in range, every window of full length, keys distinct.
    pub open spec fn wf(self) -> bool {
        &&& self.index < WINDOW_LEN
        &&& forall|i: int| 0 <= i < self.series.len() ==> #[trigger] self.series[i].window.len() == WINDOW_LEN
        &&& forall|i: int, j: int|
            0 <= i < j < self.series.len() ==> #[trigger] self.series[i].key != #[trigger] self.series[j].key
    }

    pub open spec fn has_key(self, key: u64) -> bool {
        exists|i: int| 0 <= i < self.series.len() && #[trigger] self.series[i].key == key
    }

    /// One increment of `key`: its raw count grows by one (wrapping), or a
    /// new series with a count of one and an all-zero window is appended.
    pub open spec fn incremented(self, key: u64) -> RegistryModel {
        if self.has_key(key) {
            RegistryModel {
                series: self.series.map_values(
                    |s: SeriesModel|
                        if s.key == key {
                            SeriesModel { raw: s.raw.wrapping_add(1), ..s }
                        } else {
                            s
                        },
                ),
                ..self
            }
        } else {
            RegistryModel { series: self.series.push(fresh_series(key)), ..self }
        }
    }

    /// Sampling tick: every raw count moves into its window at the shared
    /// rotation index and is reset to zero; the index then advances.
    pub open spec fn sampled(self) -> RegistryModel {
        RegistryModel {
            series: self.series.map_values(
                |s: SeriesModel|
                    SeriesModel { raw: 0, window: s.window.update(self.index as int, s.raw), ..s },
            ),
            index: (self.index + 1) % (WINDOW_LEN as nat),
            totals: self.totals,
        }
    }

    /// Per-key tick: every key's figures are recomputed from its window.
    pub open spec fn keys_aggregated(self) -> RegistryModel {
        RegistryModel {
            series: self.series.map_values(
                |s: SeriesModel| SeriesModel { metrics: Some(metrics_of(wrapping_sum(s.window))), ..s },
            ),
            ..self
        }
    }

    /// Sum of the per-minute figures of all keys.
    pub open spec fn minute_total(self) -> u64 {
        wrapping_sum(self.series.map_values(|s: SeriesModel| minute_of(s)))
    }

    /// Global tick: the totals are recomputed from the per-key figures.
    pub open spec fn totals_aggregated(self) -> RegistryModel {
        RegistryModel { totals: metrics_of(self.minute_total()), ..self }
    }

    pub open spec fn snapshot(self) -> SnapshotModel {
        SnapshotModel { per_key: per_key_map(self.series), total: self.totals }
    }
}

/// Abstract content of a snapshot.
pub struct SnapshotModel {
    pub per_key: Map<u64, (u64, u64)>,
    pub total: (u64, u64),
}

impl SnapshotModel {
    pub open spec fn empty() -> SnapshotModel {
        SnapshotModel { per_key: Map::empty(), total: (0, 0) }
    }
}

impl PerKeyMetrics {
    pub open spec fn view(self) -> (u64, u64) {
        (self.per_second, self.per_minute)
    }
}

pub open spec fn metrics_view(m: Option<PerKeyMetrics>) -> Option<(u64, u64)> {
    match m {
        Some(p) => Some(p.view()),
        None => None,
    }
}

/// An immutable copy of a namespace's figures.
#[derive(Debug)]
pub struct MetricsSnapshot {
    /// Key to `(average per second, events in the trailing minute)`.
    pub per_key: HashMap<u64, (u64, u64)>,
    /// `(total per second, total per minute)`.
    pub total: (u64, u64),
}

impl MetricsSnapshot {
    pub open spec fn view(self) -> SnapshotModel {
        SnapshotModel { per_key: self.per_key@, total: self.total }
    }

    /// A snapshot with no keys and zero totals.
    pub fn empty() -> (r: MetricsSnapshot)
        ensures
            r@ == SnapshotModel::empty(),
    {
        MetricsSnapshot { per_key: HashMap::new(), total: (0, 0) }
    }
}

/// The counters, windows and derived figures of one namespace. The vectors
/// run in parallel: position `i` belongs to `keys[i]`.
pub struct CounterRegistry {
    keys: Vec<u64>,
    /// Key to the events counted since the last sampling tick; it holds
    /// exactly the keys of `keys`.
    raw: DashMap<u64, u64>,
    /// One slot per second of the trailing minute.
    windows: Vec<Vec<u64>>,
    /// Figures of the last per-key aggregation; `None` before the first one.
    metrics: Vec<Option<PerKeyMetrics>>,
    index: usize,
    totals: TotalMetrics,
}

impl CounterRegistry {
    pub closed spec fn view(self) -> RegistryModel {
        RegistryModel {
            series: Seq::new(
                self.keys@.len(),
                |i: int|
                    SeriesModel {
                        key: self.keys@[i],
                        raw: counts_of(self.raw)[self.keys@[i]],
                        window: self.windows@[i]@,
                        metrics: metrics_view(self.metrics@[i]),
                    },
            ),
            index: self.index as nat,
            totals: (self.totals.total_per_second, self.totals.total_per_minute),
        }
    }

    pub closed spec fn wf(self) -> bool {
        &&& forall|k: u64| #[trigger] counts_of(self.raw).contains_key(k) <==> self.keys@.contains(k)
        &&& self.windows@.len() == self.keys@.len()
        &&& self.metrics@.len() == self.keys@.len()
        &&& self@.wf()
    }

    /// A registry with no keys, rotation index zero and zero totals.
    pub fn new() -> (r: CounterRegistry)
        ensures
            r.wf(),
            r@ == RegistryModel::empty(),
    {
        let r = CounterRegistry {
            keys: Vec::new(),
            raw: new_counters(),
            windows: Vec::new(),
            metrics: Vec::new(),
            index: 0,
            totals: TotalMetrics { total_per_second: 0, total_per_minute: 0 },
        };
        assert(r@.series =~= Seq::<SeriesModel>::empty());
        r
    }

    /// Position of `key` among the series, if it has one.
    fn find(&self, key: u64) -> (r: Option<usize>)
        requires
            self.wf(),
        ensures
            match r {
                Some(i) => i < self@.series.len() && self@.series[i as int].key == key,
                None => !self@.has_key(key),
            },
    {
        let mut i: usize = 0;
        while i < self.keys.len()
            invariant
                i <= self.keys@.len(),
                forall|j: int| 0 <= j < i ==> self.keys@[j] != key,
            decreases self.keys@.len() - i,
        {
            if self.keys[i] == key {
                return Some(i);
            }
            i = i + 1;
        }
        None
    }

    /// Counts one event for `key`, creating its counter and window on first
    /// use. The count wraps at 2^64 as an atomic counter does.
    pub fn increment(&mut self, key: u64)
        requires
            old(self).wf(),
        ensures
            final(self).wf(),
            final(self)@ == old(self)@.incremented(key),
    {
        proof {
            self.lemma_keys_distinct();
        }
        match self.find(key) {
            Some(i) => {
                assert(self.keys@[i as int] == key);
                assert(self.keys@.contains(key));
                let c = match get_count(&self.raw, key) {
                    Some(c) => c,
                    None => 0,
                };
                insert_count(&mut self.raw, key, c.wrapping_add(1));
                proof {
                    let m = old(self)@;
                    assert forall|j: int| 0 <= j < m.series.len() && j != i implies #[trigger] m.series[j].key != key by {
                        if j < i {
                            assert(m.series[j].key != m.series[i as int].key);
                        } else {
                            assert(m.series[i as int].key != m.series[j].key);
                        }
                    }
                    assert forall|k: u64| #[trigger] counts_of(self.raw).contains_key(k) <==> self.keys@.contains(k) by {
                        assert(counts_of(old(self).raw).contains_key(k) <==> old(self).keys@.contains(k));
                    }
                }
                assert(self@.series =~= old(self)@.incremented(key).series);
            },
            None => {
                let w = zero_window();
                assert(!self.keys@.contains(key)) by {
                    if self.keys@.contains(key) {
                        let j = choose|j: int| 0 <= j < self.keys@.len() && self.keys@[j] == key;
                        assert(self@.series[j].key == key);
                    }
                }
                insert_count(&mut self.raw, key, 1);
                self.keys.push(key);
                self.windows.push(w);
                self.metrics.push(None);
                proof {
                    assert forall|k: u64| #[trigger] counts_of(self.raw).contains_key(k) <==> self.keys@.contains(k) by {
                        assert(counts_of(old(self).raw).contains_key(k) <==> old(self).keys@.contains(k));
                        if k != key && self.keys@.contains(k) {
                            let j = choose|j: int| 0 <= j < self.keys@.len() && self.keys@[j] == k;
                            assert(old(self).keys@[j] == k);
                        }
                        if old(self).keys@.contains(k) {
                            let j = choose|j: int| 0 <= j < old(self).keys@.len() && old(self).keys@[j] == k;
                            assert(self.keys@[j] == k);
                        }
                        assert(self.keys@[self.keys@.len() - 1] == key);
                    }
                    assert forall|j: int| 0 <= j < old(self).keys@.len() implies #[trigger] counts_of(self.raw)[self.keys@[j]] == counts_of(old(self).raw)[old(self).keys@[j]] by {
                        assert(old(self).keys@[j] == self.keys@[j]);
                        assert(old(self).keys@.contains(self.keys@[j]));
                    }
                }
                assert(self@.series =~= old(self)@.incremented(key).series);
            },
        }
    }

    proof fn lemma_keys_distinct(&self)
        requires
            self.wf(),
        ensures
            forall|a: int, b: int| 0 <= a < b < self.keys@.len() ==> #[trigger] self.keys@[a] != #[trigger] self.keys@[b],
    {
        assert forall|a: int, b: int| 0 <= a < b < self.keys@.len() implies #[trigger] self.keys@[a] != #[trigger] self.keys@[b] by {
            assert(self@.series[a].key != self@.series[b].key);
        }
    }

    /// Sampling tick: moves every key's raw count into its window at the
    /// shared rotation index, resets the count to zero, then advances the
    /// index by one modulo the window length.
    pub fn sample(&mut self)
        requires
            old(self).wf(),
        ensures
            final(self).wf(),
            final(self)@ == old(self)@.sampled(),
    {
        let slot = self.index;
        let n = self.keys.len();
        proof {
            self.lemma_keys_distinct();
        }
        assert forall|j: int| 0 <= j < n implies (#[trigger] self.windows@[j])@.len() == WINDOW_LEN by {
            assert(self@.series[j].window.len() == WINDOW_LEN);
        }
        let mut i: usize = 0;
        while i < n
            invariant
                old(self).wf(),
                n == self.keys@.len(),
                slot == old(self).index,
                slot < WINDOW_LEN,
                i <= n,
                self.keys@ == old(self).keys@,
                self.metrics@ == old(self).metrics@,
                self.windows@.len() == n,
                forall|a: int, b: int| 0 <= a < b < n ==> #[trigger] self.keys@[a] != #[trigger] self.keys@[b],
                forall|k: u64| #[trigger] counts_of(self.raw).contains_key(k) <==> self.keys@.contains(k),
                self.index == old(self).index,
                self.totals == old(self).totals,
                forall|j: int| 0 <= j < n ==> (#[trigger] self.windows@[j])@.len() == WINDOW_LEN,
                forall|j: int| 0 <= j < i ==> counts_of(self.raw)[#[trigger] self.keys@[j]] == 0,
                forall|j: int| 0 <= j < i ==> (#[trigger] self.windows@[j])@
                    == old(self).windows@[j]@.update(slot as int, counts_of(old(self).raw)[self.keys@[j]]),
                forall|j: int| i <= j < n ==> counts_of(self.raw)[#[trigger] self.keys@[j]] == counts_of(old(self).raw)[self.keys@[j]],
                forall|j: int| i <= j < n ==> #[trigger] self.windows@[j] == old(self).windows@[j],
            decreases n - i,
        {
            let key = self.keys[i];
            assert(self.keys@.contains(key));
            let count = match insert_count(&mut self.raw, key, 0) {
                Some(c) => c,
                None => 0,
            };
            let w = window_with(&self.windows[i], slot, count);
            self.windows.set(i, w);
            proof {
                assert forall|k: u64| #[trigger] counts_of(self.raw).contains_key(k) <==> self.keys@.contains(k) by {
                    if k == key {
                        assert(self.keys@.contains(k));
                    }
                }
            }
            i = i + 1;
        }
        self.index = (self.index + 1) % WINDOW_LEN;
        assert(self@.series =~= old(self)@.sampled().series);
    }

    /// Per-key tick: recomputes every key's figures from its window, the
    /// sum of its slots and that sum divided by the window length.
    pub fn aggregate_keys(&mut self)
        requires
            old(self).wf(),
        ensures
            final(self).wf(),
            final(self)@ == old(self)@.keys_aggregated(),
    {
        let n = self.keys.len();
        let mut i: usize = 0;
        while i < n
            invariant
                old(self).wf(),
                n == self.keys@.len(),
                i <= n,
                self.keys@ == old(self).keys@,
                self.raw == old(self).raw,
                self.windows@ == old(self).windows@,
                self.metrics@.len() == n,
                self.index == old(self).index,
                self.totals == old(self).totals,
                forall|j: int| 0 <= j < i ==> #[trigger] metrics_view(self.metrics@[j])
                    == Some(metrics_of(wrapping_sum(self.windows@[j]@))),
                forall|j: int| i <= j < n ==> #[trigger] self.metrics@[j] == old(self).metrics@[j],
            decreases n - i,
        {
            let total = sum_window(&self.windows[i]);
            let average = total / (WINDOW_LEN as u64);
            self.metrics.set(i, Some(PerKeyMetrics { per_second: average, per_minute: total }));
            i = i + 1;
        }
        assert(self@.series =~= old(self)@.keys_aggregated().series);
    }

    /// Global tick: sums every key's per-minute figure into the totals.
    pub fn aggregate_totals(&mut self)
        requires
            old(self).wf(),
        ensures
            final(self).wf(),
            final(self)@ == old(self)@.totals_aggregated(),
    {
        let ghost minutes = self@.series.map_values(|s: SeriesModel| minute_of(s));
        let n = self.keys.len();
        let mut sum_minute: u64 = 0;
        let mut i: usize = 0;
        while i < n
            invariant
                n == self.keys@.len(),
                n == self.metrics@.len(),
                i <= n,
                minutes == self@.series.map_values(|s: SeriesModel| minute_of(s)),
                sum_minute == wrapping_sum(minutes.subrange(0, i as int)),
            decreases n - i,
        {
            let part: u64 = match self.metrics[i] {
                Some(m) => m.per_minute,
                None => 0,
            };
            assert(minutes.subrange(0, i as int + 1).drop_last() == minutes.subrange(0, i as int));
            sum_minute = sum_minute.wrapping_add(part);
            i = i + 1;
        }
        assert(minutes.subrange(0, n as int) == minutes);
        self.totals = TotalMetrics { total_per_second: sum_minute / (WINDOW_LEN as u64), total_per_minute: sum_minute };
        assert(self@.series =~= old(self)@.series);
    }

    /// A copy of every key's current figures and of the totals.
    pub fn snapshot(&self) -> (r: MetricsSnapshot)
        requires
            self.wf(),
        ensures
            r@ == self@.snapshot(),
    {
        broadcast use vstd::std_specs::hash::group_hash_axioms;
        let mut per_key: HashMap<u64, (u64, u64)> = HashMap::new();
        let n = self.keys.len();
        let mut i: usize = 0;
        while i < n
            invariant
                self.wf(),
                n == self.keys@.len(),
                i <= n,
                per_key@ == per_key_map(self@.series.subrange(0, i as int)),
            decreases n - i,
        {
            assert(self@.series.subrange(0, i as int + 1).drop_last() == self@.series.subrange(0, i as int));
            match self.metrics[i] {
                Some(m) => {
                    per_key.insert(self.keys[i], (m.per_second, m.per_minute));
                },
                None => {},
            }
            i = i + 1;
        }
        assert(self@.series.subrange(0, n as int) == self@.series);
        MetricsSnapshot { per_key, total: (self.totals.total_per_second, self.totals.total_per_minute) }
    }
}

} // verus!
