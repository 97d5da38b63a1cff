use vstd::prelude::*;
use crate::registry::{fresh_series, metrics_of, RegistryModel, SeriesModel};
use crate::window::{
    lemma_exact_sum_constant, lemma_wrapping_sum_exact, wrapping_sum, WINDOW_LEN,
};

verus! {

/// Position of `key`'s series in a registry that has it.
pub open spec fn key_pos(m: RegistryModel, key: u64) -> int {
    choose|i: int| 0 <= i < m.series.len() && m.series[i].key == key
}

/// The series of `key` in a registry that has it.
pub open spec fn series_of(m: RegistryModel, key: u64) -> SeriesModel {
    m.series[key_pos(m, key)]
}

/// Raw count of `key`; zero for a key not seen yet.
pub open spec fn raw_of(m: RegistryModel, key: u64) -> u64 {
    if m.has_key(key) {
        series_of(m, key).raw
    } else {
        0
    }
}

/// `n` successive increments of `key`.
pub open spec fn incremented_n(m: RegistryModel, key: u64, n: nat) -> RegistryModel
    decreases n,
{
    if n == 0 {
        m
    } else {
        incremented_n(m, key, (n - 1) as nat).incremented(key)
    }
}

/// One tick at a constant rate: `r` increments of `key`, then a sampling tick.
pub open spec fn round(m: RegistryModel, key: u64, r: nat) -> RegistryModel {
    incremented_n(m, key, r).sampled()
}

/// `k` ticks at a constant rate of `r` increments of `key` per tick.
pub open spec fn rounds(m: RegistryModel, key: u64, r: nat, k: nat) -> RegistryModel
    decreases k,
{
    if k == 0 {
        m
    } else {
        round(rounds(m, key, r, (k - 1) as nat), key, r)
    }
}

proof fn lemma_key_pos(m: RegistryModel, key: u64, i: int)
    requires
        m.wf(),
        0 <= i < m.series.len(),
        m.series[i].key == key,
    ensures
        m.has_key(key),
        key_pos(m, key) == i,
{
    let p = key_pos(m, key);
    if p != i {
        if p < i {
            assert(m.series[p].key != m.series[i].key);
        } else {
            assert(m.series[i].key != m.series[p].key);
        }
    }
}

/// A registry whose series keep their keys in place finds every key where
/// the first one does.
proof fn lemma_same_keys(m: RegistryModel, m2: RegistryModel, key: u64)
    requires
        m.wf(),
        m2.wf(),
        m2.series.len() == m.series.len(),
        forall|i: int| 0 <= i < m.series.len() ==> #[trigger] m2.series[i].key == m.series[i].key,
    ensures
        m2.has_key(key) == m.has_key(key),
        m.has_key(key) ==> key_pos(m2, key) == key_pos(m, key),
{
    if m.has_key(key) {
        let p = key_pos(m, key);
        lemma_key_pos(m2, key, p);
    }
    if m2.has_key(key) {
        let p = key_pos(m2, key);
        lemma_key_pos(m, key, p);
    }
}

/// What one increment does to the series of its own key.
proof fn lemma_incremented(m: RegistryModel, key: u64)
    requires
        m.wf(),
    ensures
        m.incremented(key).wf(),
        m.incremented(key).has_key(key),
        m.incremented(key).index == m.index,
        series_of(m.incremented(key), key) == (if m.has_key(key) {
            SeriesModel { raw: series_of(m, key).raw.wrapping_add(1), ..series_of(m, key) }
        } else {
            fresh_series(key)
        }),
{
    let m2 = m.incremented(key);
    if m.has_key(key) {
        let p = key_pos(m, key);
        lemma_key_pos(m, key, p);
        assert(m2.wf());
        lemma_key_pos(m2, key, p);
    } else {
        let n = m.series.len() as int;
        assert forall|i: int, j: int| 0 <= i < j < m2.series.len() implies #[trigger] m2.series[i].key
            != #[trigger] m2.series[j].key by {
            if j == n {
                assert(m.series[i].key != key);
            } else {
                assert(m.series[i].key != m.series[j].key);
            }
        }
        assert(m2.wf());
        lemma_key_pos(m2, key, n);
    }
}

/// What a sampling tick does to the series of a key.
proof fn lemma_sampled(m: RegistryModel, key: u64)
    requires
        m.wf(),
    ensures
        m.sampled().wf(),
        m.sampled().has_key(key) == m.has_key(key),
        m.sampled().index == (m.index + 1) % (WINDOW_LEN as nat),
        m.has_key(key) ==> series_of(m.sampled(), key) == (SeriesModel {
            raw: 0,
            window: series_of(m, key).window.update(m.index as int, series_of(m, key).raw),
            ..series_of(m, key)
        }),
{
    let m2 = m.sampled();
    assert forall|i: int, j: int| 0 <= i < j < m2.series.len() implies #[trigger] m2.series[i].key
        != #[trigger] m2.series[j].key by {
        assert(m.series[i].key != m.series[j].key);
    }
    assert forall|i: int| 0 <= i < m2.series.len() implies #[trigger] m2.series[i].window.len()
        == WINDOW_LEN by {
        assert(m.series[i].window.len() == WINDOW_LEN);
    }
    lemma_same_keys(m, m2, key);
}

/// Key isolation: an increment of `a` leaves the series of every other key
/// `b`, its raw count, window and figures alike, as it was.
pub proof fn lemma_key_isolation(m: RegistryModel, a: u64, b: u64)
    requires
        m.wf(),
        a != b,
        m.has_key(b),
    ensures
        m.incremented(a).has_key(b),
        series_of(m.incremented(a), b) == series_of(m, b),
{
    lemma_incremented(m, a);
    let p = key_pos(m, b);
    lemma_key_pos(m, b, p);
    lemma_key_pos(m.incremented(a), b, p);
}

/// No lost or doubled count: `n` increments of one key raise its raw count
/// by exactly `n`, and the next sampling tick writes that count into the
/// key's window at the current rotation index.
pub proof fn lemma_increments_counted(m: RegistryModel, key: u64, n: nat)
    requires
        m.wf(),
        raw_of(m, key) + n <= u64::MAX,
    ensures
        incremented_n(m, key, n).wf(),
        incremented_n(m, key, n).index == m.index,
        raw_of(incremented_n(m, key, n), key) == raw_of(m, key) + n,
        m.has_key(key) ==> series_of(incremented_n(m, key, n), key).window == series_of(m, key).window,
        n > 0 || m.has_key(key) ==> {
            &&& incremented_n(m, key, n).sampled().has_key(key)
            &&& series_of(incremented_n(m, key, n).sampled(), key).window[m.index as int]
                == raw_of(m, key) + n
            &&& series_of(incremented_n(m, key, n).sampled(), key).raw == 0
        },
    decreases n,
{
    let mn = incremented_n(m, key, n);
    if n > 0 {
        lemma_increments_counted(m, key, (n - 1) as nat);
        let prev = incremented_n(m, key, (n - 1) as nat);
        lemma_incremented(prev, key);
        if !prev.has_key(key) {
            assert(raw_of(m, key) == 0) by {
                if m.has_key(key) {
                    assert(n - 1 > 0 || m.has_key(key));
                }
            }
        }
    }
    if n > 0 || m.has_key(key) {
        assert(mn.has_key(key));
        let p = key_pos(mn, key);
        lemma_key_pos(mn, key, p);
        assert(series_of(mn, key).window.len() == WINDOW_LEN);
        lemma_sampled(mn, key);
    }
}

/// The state reached after `k` ticks at a constant rate, `k` at most the
/// window length: the key's raw count is zero and the `k` slots written
/// since the start hold the rate.
proof fn lemma_rounds(m: RegistryModel, key: u64, r: u64, k: nat)
    requires
        m.wf(),
        m.has_key(key),
        series_of(m, key).raw == 0,
        k <= WINDOW_LEN,
    ensures
        rounds(m, key, r as nat, k).wf(),
        rounds(m, key, r as nat, k).has_key(key),
        series_of(rounds(m, key, r as nat, k), key).raw == 0,
        rounds(m, key, r as nat, k).index == (m.index + k) % (WINDOW_LEN as nat),
        forall|j: int|
            0 <= j < k ==> #[trigger] series_of(rounds(m, key, r as nat, k), key).window[(m.index + j)
                % (WINDOW_LEN as int)] == r,
    decreases k,
{
    if k > 0 {
        let k1 = (k - 1) as nat;
        lemma_rounds(m, key, r, k1);
        let prev = rounds(m, key, r as nat, k1);
        assert(raw_of(prev, key) == 0);
        lemma_increments_counted(prev, key, r as nat);
        let inc = incremented_n(prev, key, r as nat);
        lemma_sampled(inc, key);
        let cur = rounds(m, key, r as nat, k);
        assert(cur == inc.sampled());
        let slot = prev.index as int;
        assert(slot == (m.index + k1) % 60);
        assert(raw_of(inc, key) == r);
        assert(inc.index == prev.index);
        assert(series_of(inc, key).window == series_of(prev, key).window);
        assert(series_of(cur, key).window == series_of(prev, key).window.update(slot, r));
        assert forall|j: int| 0 <= j < k implies #[trigger] series_of(cur, key).window[(m.index + j)
            % (WINDOW_LEN as int)] == r by {
            if j < k1 {
                assert((m.index + j) % 60 != (m.index + k1) % 60);
                assert(series_of(prev, key).window[(m.index + j) % 60] == r);
            }
        }
    }
}

/// Convergence at a constant rate: once a key has been incremented `r`
/// times in each of sixty consecutive ticks (starting from a zero raw
/// count), every slot of its window holds `r`, and the next per-key tick
/// reports a sum of `60 * r` and an average of `r`.
pub proof fn lemma_constant_rate(m: RegistryModel, key: u64, r: u64)
    requires
        m.wf(),
        m.has_key(key),
        series_of(m, key).raw == 0,
        60 * r <= u64::MAX,
    ensures
        rounds(m, key, r as nat, 60).wf(),
        series_of(rounds(m, key, r as nat, 60), key).window == Seq::new(WINDOW_LEN as nat, |_i: int| r),
        rounds(m, key, r as nat, 60).keys_aggregated().has_key(key),
        series_of(rounds(m, key, r as nat, 60).keys_aggregated(), key).metrics == Some(
            (r, (60 * r) as u64),
        ),
{
    lemma_rounds(m, key, r, 60);
    let f = rounds(m, key, r as nat, 60);
    let w = series_of(f, key).window;
    let p = key_pos(f, key);
    lemma_key_pos(f, key, p);
    assert(w.len() == WINDOW_LEN);
    assert forall|s: int| 0 <= s < WINDOW_LEN implies #[trigger] w[s] == r by {
        let a = m.index as int;
        let j = if s >= a {
            s - a
        } else {
            s + 60 - a
        };
        assert((a + j) % 60 == s);
        assert(w[(m.index + j) % (WINDOW_LEN as int)] == r);
    }
    assert(w =~= Seq::new(WINDOW_LEN as nat, |_i: int| r));
    lemma_exact_sum_constant(w, r);
    lemma_wrapping_sum_exact(w);
    assert(wrapping_sum(w) == 60 * r);
    assert((60 * r) / 60 == r) by (nonlinear_arith);
    let g = f.keys_aggregated();
    assert(g.series[p].key == key);
    assert(g.wf()) by {
        assert forall|i: int, j: int| 0 <= i < j < g.series.len() implies #[trigger] g.series[i].key
            != #[trigger] g.series[j].key by {
            assert(f.series[i].key != f.series[j].key);
        }
        assert forall|i: int| 0 <= i < g.series.len() implies #[trigger] g.series[i].window.len()
            == WINDOW_LEN by {
            assert(f.series[i].window.len() == WINDOW_LEN);
        }
    }
    lemma_key_pos(g, key, p);
    assert(metrics_of(wrapping_sum(w)) == (r, (60 * r) as u64));
}

} // verus!
