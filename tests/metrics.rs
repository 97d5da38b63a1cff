use granular_metrics::{fetch, increment, init, CounterRegistry, CounterRegistryError, Directory, MetricsSnapshot, Stage};

const NS: u64 = 7;
const ONE: u64 = 1;
const TWO: u64 = 2;
const THREE: u64 = 3;
const FOUR: u64 = 4;

fn run_pipeline(dir: &mut Directory, ns: u64) {
    dir.tick(ns, Stage::Sample);
    dir.tick(ns, Stage::PerKey);
    dir.tick(ns, Stage::Totals);
}

#[test]
fn test_one() {
    let mut dir = Directory::new();
    assert!(init(&mut dir, NS));

    // Ten ticks of traffic: 1000, 100, 500 and 10 events in all.
    for _ in 0..10 {
        for _ in 0..100 {
            increment(&mut dir, NS, ONE);
        }
        for _ in 0..10 {
            increment(&mut dir, NS, TWO);
        }
        for _ in 0..50 {
            increment(&mut dir, NS, THREE);
        }
        increment(&mut dir, NS, FOUR);
        dir.tick(NS, Stage::Sample);
    }
    dir.tick(NS, Stage::PerKey);
    dir.tick(NS, Stage::Totals);

    let snapshot = fetch(&dir, NS);
    assert_eq!(snapshot.per_key.len(), 4);

    let total_one: u64 = 1000;
    let total_two: u64 = 100;
    let total_three: u64 = 500;
    let total_four: u64 = 10;
    let sum_total: u64 = total_one + total_two + total_three + total_four;

    let avg_one: u64 = total_one / 60;
    let avg_two: u64 = total_two / 60;
    let avg_three: u64 = total_three / 60;
    let avg_four: u64 = total_four / 60;

    assert_eq!(snapshot.per_key.get(&ONE), Some(&(avg_one, total_one)));
    assert_eq!(snapshot.per_key.get(&TWO), Some(&(avg_two, total_two)));
    assert_eq!(snapshot.per_key.get(&THREE), Some(&(avg_three, total_three)));
    assert_eq!(snapshot.per_key.get(&FOUR), Some(&(avg_four, total_four)));

    let (avg_total, total) = snapshot.total;
    assert_eq!(total, sum_total);
    assert_eq!(avg_total, sum_total / 60);
    assert_eq!(snapshot.total, (26, 1610));
}

#[test]
fn fetch_on_uninitialised_namespace_is_empty() {
    let mut dir = Directory::new();
    let snapshot = fetch(&dir, NS);
    assert!(snapshot.per_key.is_empty());
    assert_eq!(snapshot.total, (0, 0));

    assert!(init(&mut dir, NS));
    increment(&mut dir, NS, ONE);
    run_pipeline(&mut dir, NS);
    let other = fetch(&dir, NS + 1);
    assert!(other.per_key.is_empty());
    assert_eq!(other.total, (0, 0));
}

#[test]
fn strict_fetch_reports_not_initialized() {
    let dir = Directory::new();
    let r = MetricsSnapshot::fetch(&dir, NS);
    assert!(matches!(r, Err(CounterRegistryError::NotInitialized)));
    assert!(matches!(dir.lookup(NS), Err(CounterRegistryError::NotInitialized)));
}

#[test]
fn increment_on_uninitialised_namespace_is_dropped() {
    let mut dir = Directory::new();
    increment(&mut dir, NS, ONE);
    assert!(init(&mut dir, NS));
    run_pipeline(&mut dir, NS);
    let snapshot = fetch(&dir, NS);
    assert!(snapshot.per_key.is_empty());
    assert_eq!(snapshot.total, (0, 0));
}

#[test]
fn duplicate_init_is_refused_and_keeps_state() {
    let mut dir = Directory::new();
    assert!(init(&mut dir, NS));
    increment(&mut dir, NS, ONE);
    assert!(!init(&mut dir, NS));
    run_pipeline(&mut dir, NS);
    assert_eq!(fetch(&dir, NS).per_key.get(&ONE), Some(&(0, 1)));
}

#[test]
fn n_increments_are_counted_once() {
    let mut reg = CounterRegistry::new();
    for _ in 0..123 {
        reg.increment(ONE);
    }
    reg.sample();
    reg.aggregate_keys();
    assert_eq!(reg.snapshot().per_key.get(&ONE), Some(&(2, 123)));
    // The count was reset by the swap: another tick adds nothing.
    reg.sample();
    reg.aggregate_keys();
    assert_eq!(reg.snapshot().per_key.get(&ONE), Some(&(2, 123)));
}

#[test]
fn constant_rate_converges_after_sixty_ticks() {
    let mut reg = CounterRegistry::new();
    for _ in 0..75 {
        for _ in 0..7 {
            reg.increment(TWO);
        }
        reg.sample();
    }
    reg.aggregate_keys();
    reg.aggregate_totals();
    let s = reg.snapshot();
    assert_eq!(s.per_key.get(&TWO), Some(&(7, 420)));
    assert_eq!(s.total, (7, 420));
}

#[test]
fn non_multiple_rate_truncates_average() {
    let mut reg = CounterRegistry::new();
    for _ in 0..60 {
        reg.increment(THREE);
        reg.sample();
    }
    // A sixty-first tick replaces the oldest slot: the sum stays at sixty.
    reg.increment(THREE);
    reg.sample();
    reg.aggregate_keys();
    assert_eq!(reg.snapshot().per_key.get(&THREE), Some(&(1, 60)));
    let mut young = CounterRegistry::new();
    for _ in 0..59 {
        young.increment(FOUR);
    }
    young.sample();
    young.aggregate_keys();
    assert_eq!(young.snapshot().per_key.get(&FOUR), Some(&(0, 59)));
}

#[test]
fn window_forgets_after_sixty_ticks() {
    let mut reg = CounterRegistry::new();
    for _ in 0..10 {
        reg.increment(ONE);
    }
    reg.sample();
    for _ in 0..59 {
        reg.sample();
    }
    reg.aggregate_keys();
    assert_eq!(reg.snapshot().per_key.get(&ONE), Some(&(0, 10)));
    reg.sample();
    reg.aggregate_keys();
    assert_eq!(reg.snapshot().per_key.get(&ONE), Some(&(0, 0)));
}

#[test]
fn totals_sum_per_key_figures() {
    let mut reg = CounterRegistry::new();
    for _ in 0..40 {
        reg.increment(ONE);
    }
    for _ in 0..50 {
        reg.increment(TWO);
    }
    reg.sample();
    reg.aggregate_keys();
    // The totals stay at their old value until their own tick.
    assert_eq!(reg.snapshot().total, (0, 0));
    reg.aggregate_totals();
    assert_eq!(reg.snapshot().total, (1, 90));
}

#[test]
fn keys_appear_after_their_first_aggregation() {
    let mut reg = CounterRegistry::new();
    reg.increment(ONE);
    assert!(reg.snapshot().per_key.is_empty());
    reg.sample();
    assert!(reg.snapshot().per_key.is_empty());
    reg.aggregate_keys();
    assert_eq!(reg.snapshot().per_key.len(), 1);
}

#[test]
fn fetch_twice_returns_identical_snapshots() {
    let mut dir = Directory::new();
    assert!(init(&mut dir, NS));
    for k in 0..5u64 {
        for _ in 0..(k + 3) {
            increment(&mut dir, NS, k);
        }
    }
    run_pipeline(&mut dir, NS);
    let a = fetch(&dir, NS);
    let b = fetch(&dir, NS);
    assert_eq!(a.per_key, b.per_key);
    assert_eq!(a.total, b.total);
    assert_eq!(a.total, (0, 25));
}

#[test]
fn increment_of_one_key_leaves_another_alone() {
    let mut reg = CounterRegistry::new();
    for _ in 0..30 {
        reg.increment(TWO);
    }
    reg.sample();
    reg.aggregate_keys();
    let before = *reg.snapshot().per_key.get(&TWO).unwrap();
    for _ in 0..500 {
        reg.increment(ONE);
    }
    reg.aggregate_keys();
    assert_eq!(reg.snapshot().per_key.get(&TWO), Some(&before));
    assert_eq!(before, (0, 30));
}

#[test]
fn namespaces_are_independent() {
    let mut dir = Directory::new();
    assert!(init(&mut dir, 1));
    assert!(init(&mut dir, 2));
    for _ in 0..120 {
        increment(&mut dir, 1, ONE);
    }
    increment(&mut dir, 2, ONE);
    run_pipeline(&mut dir, 1);
    run_pipeline(&mut dir, 2);
    assert_eq!(fetch(&dir, 1).per_key.get(&ONE), Some(&(2, 120)));
    assert_eq!(fetch(&dir, 2).per_key.get(&ONE), Some(&(0, 1)));
    assert_eq!(fetch(&dir, 2).total, (0, 1));
}
