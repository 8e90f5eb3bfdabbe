use brz_metrics::metric::{drain, MetricType, Slot};
use brz_metrics::plan::{MetricPolicy, ProfileFormat, ProfileMeta, ProfilePlan};
use brz_metrics::producer::register_profile;
use brz_metrics::registry::{ItemPtr, Registry, Shard, CHUNK_SIZE, SHARD_COUNT};
use brz_metrics::state::{StateRegistry, StateType};
use brz_metrics::{len, record_rpc_state, visit, Metric, MetricSnapshot};
use std::collections::HashMap;
use std::time::Duration;

fn millis(n: u64) -> u128 {
    Duration::from_millis(n).as_nanos()
}

fn plan(identity: &str) -> ProfilePlan {
    ProfilePlan::new(
        identity,
        MetricPolicy::Access,
        ProfileFormat::AccessStatistic,
        "RPC_SERVICE_CLIENT",
        "example.Service.first(void)",
    )
}

#[test]
fn records_and_visits() {
    let mut registry = Registry::new();
    let first = registry.register("first", MetricType::Redis);
    let second = registry.register("second", MetricType::Redis);

    first.record(&mut registry, millis(11), true);
    second.record(&mut registry, millis(17), false);

    let mut snapshots = HashMap::new();
    for item in registry.items() {
        assert!(
            matches!(registry.meta(item), ProfileMeta::Single { .. }),
            "test registered only single-output metrics"
        );
    }
    for row in registry.visit() {
        snapshots.insert(row.name.to_string(), row.snapshot);
    }

    assert_eq!(registry.len(), 2);
    assert_eq!(snapshots["first"].total, 1);
    assert_eq!(snapshots["first"].success, 1);
    assert_eq!(snapshots["first"].elapsed_ns, 11_000_000);
    assert_eq!(snapshots["second"].failure, 1);
    assert_eq!(snapshots["second"].elapsed_ns, 17_000_000);
}

#[test]
fn log_metric_increment_records_only_a_count() {
    let mut registry = Registry::new();
    let metric = registry.register("queue_dropped", MetricType::Log);

    metric.increment(&mut registry);
    metric.increment(&mut registry);

    let snapshot = metric.snapshot(&registry);
    assert_eq!(snapshot.total, 2);
    assert_eq!(snapshot.success, 2);
    assert_eq!(snapshot.failure, 0);
    assert_eq!(snapshot.elapsed_ns, 0);
    assert_eq!(snapshot.slow, 0);
    assert_eq!(snapshot.intervals, [2, 0, 0, 0, 0]);
    assert_eq!(
        MetricType::Log.output(),
        ("LOG", brz_metrics::plan::ProfileFormat::Resource)
    );
}

#[test]
fn shard_index_changes_only_when_a_chunk_is_added() {
    let mut shard = Shard::new();
    shard.register("metric.0", MetricType::Redis);
    let first_index = shard.published_index();

    for index in 1..CHUNK_SIZE {
        shard.register(&format!("metric.{index}"), MetricType::Redis);
    }
    let full_index = shard.published_index();
    assert_eq!(first_index, full_index);
    assert_eq!(shard.len(), CHUNK_SIZE);

    shard.register("metric.next_chunk", MetricType::Redis);
    let next_index = shard.published_index();
    assert_ne!(full_index, next_index);
    assert_eq!(next_index.chunks, 2);
}

#[test]
fn the_index_covers_every_chunk() {
    let mut shard = Shard::new();
    assert_eq!(shard.published_index().chunks, 0);
    for index in 0..3 * CHUNK_SIZE {
        shard.register(&format!("metric.{index}"), MetricType::Redis);
        assert_eq!(shard.published_index().chunks, (shard.len() + CHUNK_SIZE - 1) / CHUNK_SIZE);
    }
    assert_eq!(shard.published_index().chunks, 3);
}

#[test]
fn startup_registration_keeps_every_metric() {
    const WORKERS: usize = 16;
    const PER_WORKER: usize = 1_000;

    let mut registry = Registry::new();
    for index in 0..PER_WORKER {
        for worker in 0..WORKERS {
            registry.register(&format!("startup.{worker}.{index}"), MetricType::Redis);
        }
    }

    assert_eq!(registry.visit().len(), WORKERS * PER_WORKER);
    assert_eq!(registry.len(), WORKERS * PER_WORKER);
}

#[test]
fn metrics_are_spread_over_the_shards() {
    let mut registry = Registry::new();
    let mut used = [0usize; SHARD_COUNT];
    for index in 0..4_096 {
        let metric = registry.register(&format!("metric.{index}"), MetricType::Http);
        used[metric.item.shard] += 1;
    }
    assert!(used.iter().filter(|n| **n > 0).count() > SHARD_COUNT / 2);
    assert_eq!(used.iter().sum::<usize>(), 4_096);
}

#[test]
fn a_known_hash_selects_the_shard_by_its_low_bits() {
    let mut registry = Registry::new();
    let a = registry.register_hashed(0, "a", MetricType::Redis);
    let b = registry.register_hashed(63, "b", MetricType::Redis);
    let c = registry.register_hashed(64 + 5, "c", MetricType::Redis);
    let d = registry.register_profile_hashed(u64::MAX, plan("d"));
    assert_eq!(a.item, ItemPtr { shard: 0, index: 0 });
    assert_eq!(b.item, ItemPtr { shard: 63, index: 0 });
    assert_eq!(c.item, ItemPtr { shard: 5, index: 0 });
    assert_eq!(d.item, ItemPtr { shard: 63, index: 1 });
    // Another hash for the same metric still leads to the one that is there.
    assert_eq!(registry.register_hashed(7, "a", MetricType::Redis).item, a.item);
    assert_eq!(registry.len(), 4);
}

#[test]
fn registering_again_changes_nothing() {
    let mut registry = Registry::new();
    let first = Metric::redis(&mut registry, "cache");
    first.record(&mut registry, millis(60), true);
    let again = Metric::redis(&mut registry, "cache");
    assert_eq!(first.item, again.item);
    assert_eq!(len(&registry), 1);
    assert_eq!(again.snapshot(&registry).total, 1);
}

#[test]
fn a_plan_that_is_there_stays_as_it_is() {
    let mut registry = Registry::new();
    let first = register_profile(&mut registry, plan("client"));
    let other = ProfilePlan::new(
        "client",
        MetricPolicy::Resource,
        ProfileFormat::Resource,
        "OTHER_TYPE",
        "other name",
    );
    let again = register_profile(&mut registry, other);
    assert_eq!(first.item, again.item);
    assert_eq!(again.policy, MetricPolicy::Access);
    assert_eq!(len(&registry), 1);
    let rows = visit(&registry);
    assert_eq!(rows.len(), 1);
    assert_eq!(rows[0].metric_type, "RPC_SERVICE_CLIENT");
    assert_eq!(rows[0].name, "example.Service.first(void)");
}

#[test]
fn different_types_with_one_name_are_different_metrics() {
    let mut registry = Registry::new();
    let endpoint = Metric::http(&mut registry, "x");
    let whole = Metric::http_all(&mut registry, "x");
    let planned = register_profile(&mut registry, plan("x"));
    assert_ne!(endpoint.item, whole.item);
    assert_ne!(endpoint.item, planned.item);
    assert_ne!(whole.item, planned.item);
    assert_eq!(len(&registry), 3);
    endpoint.record(&mut registry, millis(5), false);
    assert_eq!(whole.snapshot(&registry), MetricSnapshot::default());
    assert_eq!(planned.snapshot(&registry), MetricSnapshot::default());
    assert_eq!(endpoint.snapshot(&registry).failure, 1);
}

#[test]
fn later_registrations_keep_handles_and_counters() {
    let mut registry = Registry::new();
    let early = Metric::service(&mut registry, "early");
    early.record(&mut registry, millis(201), true);
    for index in 0..1_000 {
        Metric::service(&mut registry, &format!("later.{index}"));
    }
    assert!(registry.contains(early.item));
    assert_eq!(early.snapshot(&registry).elapsed_ns, 201_000_000);
    assert_eq!(early.snapshot(&registry).slow, 1);
    assert_eq!(len(&registry), 1_001);
}

#[test]
fn an_unknown_place_holds_no_metric() {
    let mut registry = Registry::new();
    assert!(!registry.contains(ItemPtr { shard: 0, index: 0 }));
    assert!(!registry.contains(ItemPtr { shard: SHARD_COUNT, index: 0 }));
    let metric = Metric::log(&mut registry, "x");
    assert!(registry.contains(metric.item));
    assert!(!registry.contains(ItemPtr { shard: metric.item.shard, index: metric.item.index + 1 }));
}

#[test]
fn items_list_each_metric_once() {
    let mut registry = Registry::new();
    let mut expected = Vec::new();
    for index in 0..300 {
        expected.push(Metric::mc(&mut registry, &format!("{index}")).item);
    }
    let items = registry.items();
    assert_eq!(items.len(), expected.len());
    for item in expected {
        assert_eq!(items.iter().filter(|other| **other == item).count(), 1);
    }
}

#[test]
fn visit_shows_every_direct_output_of_a_plan() {
    let mut registry = Registry::new();
    let metric = register_profile(
        &mut registry,
        plan("client").alias("SERVICE", "first").alias("V2", "module").aggregate("SERVICE", "sum"),
    );
    metric.record(&mut registry, millis(150), false);
    let rows = visit(&registry);
    let shown: Vec<(&str, &str)> = rows.iter().map(|row| (row.metric_type, row.name)).collect();
    assert_eq!(
        shown,
        vec![
            ("RPC_SERVICE_CLIENT", "example.Service.first(void)"),
            ("SERVICE", "first"),
            ("V2", "module"),
        ]
    );
    for row in rows {
        assert_eq!(row.snapshot.intervals, [0, 0, 0, 1, 0]);
        assert_eq!(row.snapshot.success, 0);
    }
}

#[test]
fn typed_constructors_register_their_types() {
    let mut registry = Registry::new();
    let name = "/route/{id}";
    let metrics = [
        (Metric::log(&mut registry, name), "LOG", MetricPolicy::Resource),
        (Metric::redis(&mut registry, name), "REDIS", MetricPolicy::Resource),
        (Metric::mc(&mut registry, name), "MC", MetricPolicy::Resource),
        (Metric::mc_detail(&mut registry, name), "MCDETAIL", MetricPolicy::Resource),
        (Metric::mysql(&mut registry, name), "MYSQL", MetricPolicy::Resource),
        (Metric::http(&mut registry, name), "HTTP", MetricPolicy::Resource),
        (Metric::http_all(&mut registry, name), "HTTP", MetricPolicy::Service),
        (Metric::api(&mut registry, name), "API", MetricPolicy::Service),
        (Metric::api3xx(&mut registry, name), "API3XX", MetricPolicy::Service),
        (Metric::api4xx(&mut registry, name), "API4XX", MetricPolicy::Service),
        (Metric::api5xx(&mut registry, name), "API5XX", MetricPolicy::Service),
        (Metric::apito(&mut registry, name), "APITO", MetricPolicy::Service),
        (Metric::service(&mut registry, name), "SERVICE", MetricPolicy::Service),
        (
            Metric::rpc_service_whole(&mut registry, name),
            "RPC_SERVICE_WHOLE",
            MetricPolicy::Access,
        ),
    ];
    assert_eq!(len(&registry), metrics.len());
    for (metric, label, policy) in metrics {
        assert_eq!(metric.policy, policy);
        match registry.meta(metric.item) {
            ProfileMeta::Single { name: shown, kind } => {
                assert_eq!(shown.as_str(), name);
                assert_eq!(kind.output().0, label);
            }
            ProfileMeta::Fanout(_) => panic!("a typed constructor makes no plan"),
        }
    }
}

#[test]
fn buckets_have_exclusive_upper_bounds() {
    let cases: [(MetricPolicy, u64, [u64; 5], u64); 12] = [
        (MetricPolicy::Resource, 9, [1, 0, 0, 0, 0], 0),
        (MetricPolicy::Resource, 10, [0, 1, 0, 0, 0], 0),
        (MetricPolicy::Resource, 49, [0, 1, 0, 0, 0], 0),
        (MetricPolicy::Resource, 50, [0, 0, 1, 0, 0], 1),
        (MetricPolicy::Resource, 100, [0, 0, 0, 1, 0], 1),
        (MetricPolicy::Resource, 200, [0, 0, 0, 0, 1], 1),
        (MetricPolicy::Service, 60, [0, 0, 1, 0, 0], 0),
        (MetricPolicy::Service, 199, [0, 0, 0, 1, 0], 0),
        (MetricPolicy::Service, 200, [0, 0, 0, 0, 1], 1),
        (MetricPolicy::Access, 199, [0, 0, 0, 1, 0], 0),
        (MetricPolicy::Access, 200, [0, 0, 0, 1, 0], 1),
        (MetricPolicy::Access, 500, [0, 0, 0, 0, 1], 1),
    ];
    for (policy, elapsed, intervals, slow) in cases {
        let mut slot = Slot::new();
        slot.record(policy, millis(elapsed), true);
        let snapshot = drain(&mut slot);
        assert_eq!(snapshot.intervals, intervals);
        assert_eq!(snapshot.slow, slow);
        assert_eq!(snapshot.total, 1);
        assert_eq!(snapshot.success, 1);
    }
}

#[test]
fn one_nanosecond_below_a_bound_is_in_the_bucket_below() {
    let mut slot = Slot::new();
    slot.record(MetricPolicy::Resource, 9_999_999, true);
    slot.record(MetricPolicy::Resource, 49_999_999, true);
    let snapshot = drain(&mut slot);
    assert_eq!(snapshot.intervals, [1, 1, 0, 0, 0]);
    assert_eq!(snapshot.slow, 0);
    assert_eq!(snapshot.elapsed_ns, 59_999_998);
}

#[test]
fn elapsed_time_is_clamped_to_sixty_four_bits() {
    let mut slot = Slot::new();
    slot.record(MetricPolicy::Access, u128::MAX, true);
    assert_eq!(slot.elapsed_ns, u64::MAX);
    // The next nanosecond wraps the sum around.
    slot.record(MetricPolicy::Access, 1, true);
    assert_eq!(slot.elapsed_ns, 0);
}

#[test]
fn draining_loses_nothing_and_resets() {
    let mut registry = Registry::new();
    let metric = Metric::redis(&mut registry, "cache");
    metric.record(&mut registry, millis(5), true);
    metric.record(&mut registry, millis(60), false);
    let drained = registry.drain(metric.item);
    assert_eq!(metric.snapshot(&registry), MetricSnapshot::default());
    metric.record(&mut registry, millis(250), true);
    metric.increment(&mut registry);
    let mut sum = drained;
    sum.merge(registry.drain(metric.item));
    assert_eq!(sum.total, 4);
    assert_eq!(sum.success, 3);
    assert_eq!(sum.failure, 1);
    assert_eq!(sum.slow, 2);
    assert_eq!(sum.elapsed_ns, 315_000_000);
    assert_eq!(sum.intervals, [2, 0, 1, 0, 1]);
}

#[test]
fn counters_add_up_to_the_total() {
    let snapshot = MetricSnapshot::from_counters(3, 9, 2, [1, 2, 3, 4, 5]);
    assert_eq!(snapshot.total, 15);
    assert_eq!(snapshot.success, 12);
    // More failures than events leave no successes.
    assert_eq!(MetricSnapshot::from_counters(7, 0, 0, [1, 0, 0, 0, 0]).success, 0);
    // The total wraps around.
    assert_eq!(MetricSnapshot::from_counters(0, 0, 0, [u64::MAX, 3, 0, 0, 0]).total, 2);
}

#[test]
fn merging_saturates_and_does_not_depend_on_the_order() {
    let a = MetricSnapshot::from_counters(1, 10, 1, [1, 0, 0, 2, 0]);
    let b = MetricSnapshot::from_counters(0, u64::MAX, 2, [0, 5, 0, 0, 1]);
    let mut ab = a;
    ab.merge(b);
    let mut ba = b;
    ba.merge(a);
    assert_eq!(ab, ba);
    assert_eq!(ab.total, 9);
    assert_eq!(ab.success, 8);
    assert_eq!(ab.elapsed_ns, u64::MAX);
    assert_eq!(ab.intervals, [1, 5, 0, 2, 1]);
    let mut same = a;
    same.merge(MetricSnapshot::default());
    assert_eq!(same, a);
}

#[test]
fn the_latest_state_value_wins() {
    let mut registry = Registry::new();
    record_rpc_state(&mut registry, "group", "nodes", "4");
    record_rpc_state(&mut registry, "group", "unavailable", "1");
    record_rpc_state(&mut registry, "group", "unavailable", "0");
    let states = registry.state_snapshot();
    assert_eq!(states.len(), 1);
    assert_eq!(states[0].name, "group");
    assert_eq!(states[0].state_type.profile_type(), "MOTAN_CLUSTER_STAT");
    assert_eq!(
        states[0].fields,
        vec![
            ("nodes".to_string(), "4".to_string()),
            ("unavailable".to_string(), "0".to_string()),
        ]
    );
}

#[test]
fn states_are_listed_in_one_order() {
    let records = [("b", "k", "1"), ("a", "z", "2"), ("a", "y", "3"), ("é", "k", "4"), ("Z", "k", "5")];
    let mut forward = StateRegistry::new();
    let mut backward = StateRegistry::new();
    for (name, key, value) in records {
        forward.record(StateType::Rpc, name, key, value);
    }
    for (name, key, value) in records.iter().rev() {
        backward.record(StateType::Rpc, name, key, value);
    }
    let listed: Vec<String> = forward.snapshot().into_iter().map(|s| s.name).collect();
    assert_eq!(listed, vec!["Z", "a", "b", "é"]);
    assert_eq!(
        format!("{:?}", forward.snapshot()),
        format!("{:?}", backward.snapshot())
    );
    assert_eq!(forward.snapshot()[1].fields[0].0, "y");
}
