use brz_metrics::aggregate::Aggregates;
use brz_metrics::clock::{entry_timestamp, FIRST_SECOND, LAST_SECOND};
use brz_metrics::entry::{
    append_access_statistic_entry, append_baseline_entry, append_entry_header,
    append_profile_entry, append_resource_average, append_resource_entry,
};
use brz_metrics::interval::{IntervalStep, ProfileInterval};
use brz_metrics::metric::MetricType;
use brz_metrics::plan::{MetricPolicy, ProfileFormat, ProfilePlan};
use brz_metrics::registry::Registry;
use brz_metrics::state::StateType;
use brz_metrics::writer::{ProfileLogWriter, PROFILE_BUFFER_LIMIT};
use brz_metrics::{Metric, MetricSnapshot};
use std::time::Duration;

fn millis(n: u64) -> u128 {
    Duration::from_millis(n).as_nanos()
}

fn average(elapsed_ns: u64, total: u64) -> String {
    format!("{:.2}", elapsed_ns as f64 / total as f64 / 1_000_000.0)
}

/// Runs one interval and returns what it wrote, and how many writes it took. From the write with
/// the number `fail_from` on, writing fails.
fn run(registry: &mut Registry, timestamp: &str, fail_from: usize) -> (String, usize, bool) {
    let mut interval = ProfileInterval::start(registry, Vec::new(), timestamp);
    let mut file: Vec<u8> = Vec::new();
    let mut writes = 0;
    loop {
        match interval.step(registry) {
            IntervalStep::Average { elapsed_ns, total } => {
                interval.provide_average(&average(elapsed_ns, total));
            }
            IntervalStep::Flush => {
                writes += 1;
                let success = writes < fail_from;
                if success {
                    file.extend_from_slice(interval.buffer());
                }
                interval.flushed(success);
            }
            IntervalStep::Continue => {}
            IntervalStep::Done => break,
        }
    }
    (String::from_utf8(file).unwrap(), writes, interval.failed())
}

fn write_profile_log(registry: &mut Registry, unix_seconds: i64) -> String {
    let timestamp = entry_timestamp(unix_seconds).unwrap();
    let (content, _, failed) = run(registry, &timestamp, usize::MAX);
    assert!(!failed);
    content
}

fn baseline(timestamp: &str) -> String {
    [
        timestamp,
        " {\"type\":\"OTHER\",\"name\":\"other://profile_baseline\",\"total_count\":10,",
        "\"error_count\":1,\"slow_count\":1,\"avg_time\":1.0,\"interval1\":6,",
        "\"interval2\":1,\"interval3\":1,\"interval4\":1,\"interval5\":1}\n",
    ]
    .concat()
}

#[test]
fn redis_profile_matches_profile_util_fields_and_uses_plus_eight_clock() {
    let mut registry = Registry::new();
    let metric = registry.register("cache.metric", MetricType::Redis);
    metric.record(&mut registry, millis(5), true);
    metric.record(&mut registry, millis(50), false);
    metric.record(&mut registry, millis(250), true);

    let expected = [
        "2026-08-13 17:34:18 ",
        "{\"type\":\"REDIS\",\"name\":\"cache.metric\",\"slowThreshold\":50,",
        "\"total_count\":3,\"error_count\":1,\"slow_count\":2,\"avg_time\":\"101.67\",",
        "\"interval1\":1,\"interval2\":0,\"interval3\":1,\"interval4\":0,\"interval5\":1}\n",
        "2026-08-13 17:34:18 ",
        "{\"type\":\"OTHER\",\"name\":\"other://profile_baseline\",\"total_count\":10,",
        "\"error_count\":1,\"slow_count\":1,\"avg_time\":1.0,\"interval1\":6,",
        "\"interval2\":1,\"interval3\":1,\"interval4\":1,\"interval5\":1}\n",
    ]
    .concat();
    assert_eq!(write_profile_log(&mut registry, 1_786_613_658), expected);

    // Nothing was recorded since, so only the baseline is written.
    assert_eq!(
        write_profile_log(&mut registry, 1_786_613_658),
        baseline("2026-08-13 17:34:18")
    );
}

#[test]
fn a_row_without_events_has_a_zero_average() {
    let mut buffer = Vec::new();
    append_resource_entry(
        &mut buffer,
        "2026-08-13 17:34:18",
        "REDIS",
        "cache.metric",
        MetricPolicy::Resource.spec(),
        MetricSnapshot::default(),
        "",
    );
    assert_eq!(
        String::from_utf8(buffer).unwrap(),
        [
            "2026-08-13 17:34:18 ",
            "{\"type\":\"REDIS\",\"name\":\"cache.metric\",\"slowThreshold\":50,",
            "\"total_count\":0,\"error_count\":0,\"slow_count\":0,\"avg_time\":0.0,",
            "\"interval1\":0,\"interval2\":0,\"interval3\":0,\"interval4\":0,\"interval5\":0}\n",
        ]
        .concat()
    );

    let mut buffer = Vec::new();
    append_access_statistic_entry(
        &mut buffer,
        "t",
        "RPC",
        "n",
        MetricPolicy::Access.spec(),
        MetricSnapshot::default(),
        "",
    );
    let text = String::from_utf8(buffer).unwrap();
    assert!(text.contains("\"total_count\":\"0\",\"slow_count\":\"0\",\"avg_time\":\"0\","));
}

#[test]
fn averages_are_quoted() {
    let mut buffer = Vec::new();
    append_resource_average(
        &mut buffer,
        MetricSnapshot::from_counters(0, 5_000_000, 0, [2, 0, 0, 0, 0]),
        "2.50",
    );
    assert_eq!(buffer, b"\"2.50\"".to_vec());
}

#[test]
fn rpc_state_is_persistent_and_uses_the_legacy_profile_shape() {
    let mut registry = Registry::new();
    registry.record_state(StateType::Rpc, "group_com.example.Service", "nodes", "4");
    registry.record_state(
        StateType::Rpc,
        "group_com.example.Service",
        "unavailable",
        "1",
    );

    let mut content = write_profile_log(&mut registry, 1_788_208_220);
    assert!(content.contains(
        &[
            "2026-09-01 04:30:20 ",
            "{\"type\":\"MOTAN_CLUSTER_STAT\",\"name\":\"group_com.example.Service\",",
            "\"nodes\":\"4\",\"unavailable\":\"1\"}\n",
        ]
        .concat()
    ));

    registry.record_state(
        StateType::Rpc,
        "group_com.example.Service",
        "unavailable",
        "0",
    );
    content.push_str(&write_profile_log(&mut registry, 1_788_208_220));
    assert!(content.ends_with(
        &[
            "2026-09-01 04:30:20 ",
            "{\"type\":\"OTHER\",\"name\":\"other://profile_baseline\",",
            "\"total_count\":10,\"error_count\":1,\"slow_count\":1,\"avg_time\":1.0,",
            "\"interval1\":6,\"interval2\":1,\"interval3\":1,\"interval4\":1,",
            "\"interval5\":1}\n",
        ]
        .concat()
    ));
    assert!(content.contains(
        &[
            "{\"type\":\"MOTAN_CLUSTER_STAT\",\"name\":\"group_com.example.Service\",",
            "\"nodes\":\"4\",\"unavailable\":\"0\"}\n",
        ]
        .concat()
    ));
}

#[test]
fn service_profile_matches_resource_format() {
    let mut registry = Registry::new();
    let metric = registry.register(
        "org.example.service.ExampleService.operation",
        MetricType::Service,
    );
    metric.record(&mut registry, millis(201), true);

    assert_eq!(
        write_profile_log(&mut registry, 1_787_495_138),
        [
            "2026-08-23 22:25:38 ",
            "{\"type\":\"SERVICE\",\"name\":\"org.example.service.ExampleService.operation\",",
            "\"slowThreshold\":200,\"total_count\":1,\"error_count\":0,\"slow_count\":1,\"avg_time\":\"201.00\",",
            "\"interval1\":0,\"interval2\":0,\"interval3\":0,\"interval4\":0,\"interval5\":1}\n",
            "2026-08-23 22:25:38 ",
            "{\"type\":\"OTHER\",\"name\":\"other://profile_baseline\",\"total_count\":10,",
            "\"error_count\":1,\"slow_count\":1,\"avg_time\":1.0,\"interval1\":6,",
            "\"interval2\":1,\"interval3\":1,\"interval4\":1,\"interval5\":1}\n",
        ]
        .concat()
    );
}

#[test]
fn memcache_profile_matches_mc_and_mcdetail_formats() {
    let mut registry = Registry::new();
    let aggregate = registry.register("15138", MetricType::Mc);
    let detail = registry.register("15138_down", MetricType::McDetail);
    aggregate.record(&mut registry, millis(5), true);
    aggregate.record(&mut registry, millis(60), false);
    detail.record(&mut registry, millis(5), true);
    detail.record(&mut registry, millis(60), false);

    let content = write_profile_log(&mut registry, 1_788_237_091);
    assert_eq!(content.lines().count(), 3);
    assert!(content.contains(
        &[
            "{\"type\":\"MC\",\"name\":\"15138\",\"slowThreshold\":50,",
            "\"total_count\":2,\"error_count\":1,\"slow_count\":1,\"avg_time\":\"32.50\",",
            "\"interval1\":1,\"interval2\":0,\"interval3\":1,\"interval4\":0,\"interval5\":0}"
        ]
        .concat()
    ));
    assert!(content.contains(
        &[
            "{\"type\":\"MCDETAIL\",\"name\":\"15138_down\",\"slowThreshold\":50,",
            "\"total_count\":2,\"error_count\":1,\"slow_count\":1,\"avg_time\":\"32.50\",",
            "\"interval1\":1,\"interval2\":0,\"interval3\":1,\"interval4\":0,\"interval5\":0}"
        ]
        .concat()
    ));
}

#[test]
fn http_profile_uses_endpoint_and_whole_request_thresholds() {
    let mut registry = Registry::new();
    let endpoint = registry.register("http://service.example.com/api/config", MetricType::Http);
    let whole = registry.register(
        "all_http://service.example.com/api/config",
        MetricType::HttpAll,
    );
    endpoint.record(&mut registry, millis(60), true);
    whole.record(&mut registry, millis(60), true);

    let content = write_profile_log(&mut registry, 1_788_237_091);
    assert!(content.contains(
        &[
            "{\"type\":\"HTTP\",\"name\":\"http://service.example.com/api/config\",",
            "\"slowThreshold\":50,\"total_count\":1,\"error_count\":0,",
            "\"slow_count\":1,\"avg_time\":\"60.00\",\"interval1\":0,",
            "\"interval2\":0,\"interval3\":1,\"interval4\":0,\"interval5\":0}"
        ]
        .concat()
    ));
    assert!(content.contains(
        &[
            "{\"type\":\"HTTP\",\"name\":\"all_http://service.example.com/api/config\",",
            "\"slowThreshold\":200,\"total_count\":1,\"error_count\":0,",
            "\"slow_count\":0,\"avg_time\":\"60.00\",\"interval1\":0,",
            "\"interval2\":0,\"interval3\":1,\"interval4\":0,\"interval5\":0}"
        ]
        .concat()
    ));
}

#[test]
fn rpc_service_whole_profile_uses_access_statistic_shape() {
    let mut registry = Registry::new();
    let metric = registry.register(
        "org.example.EchoService.echo(java.lang.String)",
        MetricType::RpcServiceWhole,
    );
    metric.record(&mut registry, millis(150), true);
    metric.record(&mut registry, millis(250), false);

    assert_eq!(
        write_profile_log(&mut registry, 1_787_106_433),
        [
            "2026-08-19 10:27:13 ",
            "{\"type\":\"RPC_SERVICE_WHOLE\",\"name\":\"org.example.EchoService.echo(java.lang.String)\",",
            "\"slowThreshold\":\"200\",\"total_count\":\"2\",\"slow_count\":\"1\",\"avg_time\":\"200.00\",",
            "\"interval1\":\"0\",\"interval2\":\"0\",\"interval3\":\"0\",\"interval4\":\"2\",\"interval5\":\"0\",",
            "\"p75\":\"0.00\",\"p95\":\"0.00\",\"p98\":\"0.00\",\"p99\":\"0.00\",\"p999\":\"0.00\",",
            "\"biz_excp\":\"0\",\"other_excp\":\"1\",\"avg_tps\":\"0\",\"max_tps\":\"0\",\"min_tps\":\"0\"}\n",
            "2026-08-19 10:27:13 ",
            "{\"type\":\"OTHER\",\"name\":\"other://profile_baseline\",\"total_count\":10,",
            "\"error_count\":1,\"slow_count\":1,\"avg_time\":1.0,\"interval1\":6,",
            "\"interval2\":1,\"interval3\":1,\"interval4\":1,\"interval5\":1}\n",
        ]
        .concat()
    );
}

fn client_plan(method: &str) -> ProfilePlan {
    let name = format!("example.Service.{method}(void)");
    ProfilePlan::new(
        &format!("client|app|module|Service.{method}(void)"),
        MetricPolicy::Access,
        ProfileFormat::AccessStatistic,
        "RPC_SERVICE_CLIENT",
        &name,
    )
    .alias("SERVICE", &name)
    .alias("RPC_SERVICE_CLIENT_V2", &format!("module_Service.{method}(void)"))
    .aggregate("SERVICE", "app_module")
}

#[test]
fn one_slot_fans_out_and_flush_time_aggregate_merges_methods() {
    let mut registry = Registry::new();
    let first = registry.register_profile(client_plan("first"));
    let second = registry.register_profile(client_plan("second"));
    first.record(&mut registry, millis(10), true);
    second.record(&mut registry, millis(30), true);

    let content = write_profile_log(&mut registry, 1_788_238_800);
    assert_eq!(content.lines().count(), 8);
    assert!(content
        .contains("\"type\":\"RPC_SERVICE_CLIENT_V2\",\"name\":\"module_Service.first(void)\""));
    assert!(content.contains("\"type\":\"SERVICE\",\"name\":\"example.Service.second(void)\""));
    assert!(content.contains(
        &[
            "{\"type\":\"SERVICE\",\"name\":\"app_module\",\"slowThreshold\":\"200\",",
            "\"total_count\":\"2\",\"slow_count\":\"0\",\"avg_time\":\"20.00\",",
            "\"interval1\":\"0\",\"interval2\":\"2\""
        ]
        .concat()
    ));
    // The aggregate comes after every direct row and before the baseline.
    let lines: Vec<&str> = content.lines().collect();
    assert!(lines[6].contains("\"name\":\"app_module\""));
    assert!(lines[7].contains("other://profile_baseline"));
}

#[test]
fn a_plan_without_events_adds_nothing() {
    let mut registry = Registry::new();
    registry.register_profile(client_plan("first"));
    assert_eq!(
        write_profile_log(&mut registry, 1_788_238_800),
        baseline("2026-09-01 13:00:00")
    );
}

#[test]
fn an_interval_drains_every_metric() {
    let mut registry = Registry::new();
    let metrics: Vec<Metric> =
        (0..500).map(|i| Metric::redis(&mut registry, &format!("{i}"))).collect();
    for metric in &metrics {
        metric.record(&mut registry, millis(1), true);
    }
    let content = write_profile_log(&mut registry, 1_788_238_800);
    assert_eq!(content.lines().count(), 501);
    for metric in &metrics {
        assert_eq!(metric.snapshot(&registry), MetricSnapshot::default());
    }
    assert_eq!(registry.len(), 500);
}

#[test]
fn entries_stand_in_order() {
    let mut registry = Registry::new();
    registry.record_state(StateType::Rpc, "b", "k", "v");
    registry.record_state(StateType::Rpc, "a", "k", "v");
    for (identity, name) in [("1", "sum.b"), ("2", "sum.a")] {
        let plan = ProfilePlan::new(
            identity,
            MetricPolicy::Resource,
            ProfileFormat::Resource,
            "DIRECT",
            identity,
        )
        .aggregate("SUM", name);
        let metric = registry.register_profile(plan);
        metric.record(&mut registry, millis(1), true);
    }
    let content = write_profile_log(&mut registry, 1_788_238_800);
    let lines: Vec<&str> = content.lines().collect();
    assert_eq!(lines.len(), 7);
    assert!(lines[0].contains("\"DIRECT\"") && lines[1].contains("\"DIRECT\""));
    assert!(lines[2].contains("\"sum.a\""));
    assert!(lines[3].contains("\"sum.b\""));
    assert!(lines[4].contains("\"MOTAN_CLUSTER_STAT\",\"name\":\"a\""));
    assert!(lines[5].contains("\"MOTAN_CLUSTER_STAT\",\"name\":\"b\""));
    assert!(lines[6].contains("other://profile_baseline"));
}

#[test]
fn texts_are_escaped_in_the_log() {
    let mut buffer = Vec::new();
    append_entry_header(
        &mut buffer,
        "now",
        "quote\" back\\slash",
        "\u{8}\u{9}\n\u{c}\r\u{0}\u{1f}\u{7f}\u{e9}\u{20ac}\u{1f600}/",
    );
    assert_eq!(
        String::from_utf8(buffer).unwrap(),
        [
            "now {\"type\":\"quote\\\" back\\\\slash\",\"name\":\"",
            "\\b\\t\\n\\f\\r\\u0000\\u001f\u{7f}\u{e9}\u{20ac}\u{1f600}/\"",
        ]
        .concat()
    );
}

#[test]
fn no_text_can_add_a_line_or_a_field() {
    let mut registry = Registry::new();
    let name = "x\",\"total_count\":99}\n2026 {\"type\":\"FAKE";
    let metric = Metric::redis(&mut registry, name);
    metric.increment(&mut registry);
    registry.record_state(StateType::Rpc, "s\n", "k\n", "v\r\n");
    let content = write_profile_log(&mut registry, 1_788_238_800);
    assert_eq!(content.lines().count(), 3);
    assert!(!content.contains("\"total_count\":99"));
    assert!(!content.contains("\"type\":\"FAKE"));
    for line in content.lines() {
        let json = &line[line.find('{').unwrap()..];
        assert!(serde_json::from_str::<serde_json::Value>(json).is_ok());
    }
    let first = content.lines().next().unwrap();
    let value: serde_json::Value =
        serde_json::from_str(&first[first.find('{').unwrap()..]).unwrap();
    assert_eq!(value["name"], serde_json::Value::from(name));
}

#[test]
fn different_names_have_different_rows() {
    let render = |name: &str| {
        let mut buffer = Vec::new();
        append_entry_header(&mut buffer, "t", "T", name);
        buffer
    };
    let names = ["", "a", "\"", "\\\"", "\n", "\\n", "\u{1}", "\\u0001"];
    for a in names {
        for b in names {
            assert_eq!(render(a) == render(b), a == b);
        }
    }
}

#[test]
fn the_format_selects_the_row_shape() {
    let snapshot = MetricSnapshot::from_counters(1, 3_000_000, 0, [2, 0, 0, 0, 0]);
    let render = |format: ProfileFormat| {
        let mut buffer = Vec::new();
        append_profile_entry(
            &mut buffer,
            "t",
            "T",
            "n",
            MetricPolicy::Resource.spec(),
            format,
            snapshot,
            "1.50",
        );
        String::from_utf8(buffer).unwrap()
    };
    assert!(render(ProfileFormat::Resource).contains("\"total_count\":2,\"error_count\":1,"));
    assert!(render(ProfileFormat::AccessStatistic).contains("\"other_excp\":\"1\""));
}

#[test]
fn the_baseline_is_constant() {
    let mut buffer = b"before".to_vec();
    append_baseline_entry(&mut buffer, "2026-09-01 13:00:00");
    assert_eq!(
        String::from_utf8(buffer).unwrap(),
        format!("before{}", baseline("2026-09-01 13:00:00"))
    );
}

fn wide_registry() -> (Registry, Vec<Metric>) {
    let mut registry = Registry::new();
    let mut metrics = Vec::new();
    for index in 0..6 {
        let name = format!("{index}.{}", "x".repeat(300_000));
        let metric = Metric::redis(&mut registry, &name);
        metric.record(&mut registry, millis(1), true);
        metrics.push(metric);
    }
    (registry, metrics)
}

#[test]
fn a_full_buffer_is_written_early() {
    let (mut registry, _) = wide_registry();
    let (content, writes, failed) = run(&mut registry, "t", usize::MAX);
    assert!(!failed);
    assert_eq!(writes, 2);
    assert_eq!(content.lines().count(), 7);
    assert!(content.len() > PROFILE_BUFFER_LIMIT);
}

#[test]
fn a_failed_write_keeps_what_was_not_drained() {
    let (mut registry, metrics) = wide_registry();
    let (content, writes, failed) = run(&mut registry, "t", 1);
    assert!(failed);
    assert_eq!(writes, 1);
    assert_eq!(content, "");
    let kept = metrics.iter().filter(|m| m.snapshot(&registry).total == 1).count();
    assert_eq!(kept, 2);
    // The next interval writes what was kept.
    let (content, _, failed) = run(&mut registry, "t", usize::MAX);
    assert!(!failed);
    assert_eq!(content.lines().count(), 3);
}

#[test]
fn a_failed_last_write_is_reported() {
    let mut registry = Registry::new();
    let (content, writes, failed) = run(&mut registry, "t", 1);
    assert_eq!((content.as_str(), writes, failed), ("", 1, true));
}

#[test]
fn the_buffer_is_reused() {
    let mut registry = Registry::new();
    let mut buffer = Vec::with_capacity(PROFILE_BUFFER_LIMIT);
    buffer.extend_from_slice(b"left over");
    let mut interval = ProfileInterval::start(&registry, buffer, "t");
    loop {
        match interval.step(&mut registry) {
            IntervalStep::Flush => {
                assert_eq!(interval.buffer(), &baseline("t").into_bytes());
                interval.flushed(true);
            }
            IntervalStep::Done => break,
            IntervalStep::Continue => {}
            IntervalStep::Average { .. } => unreachable!(),
        }
    }
    let buffer = interval.into_buffer();
    assert!(buffer.is_empty());
    assert!(buffer.capacity() >= PROFILE_BUFFER_LIMIT);
}

#[test]
fn a_writer_that_failed_renders_no_states() {
    let mut registry = Registry::new();
    let metric = Metric::log(&mut registry, "x");
    metric.increment(&mut registry);
    registry.record_state(StateType::Rpc, "s", "k", "v");
    let mut writer = ProfileLogWriter::new(Vec::new(), "t");
    writer.flushed(false);
    assert!(writer.failed());
    assert!(writer.write_entry(&mut registry, metric.item).is_empty());
    assert_eq!(metric.snapshot(&registry).total, 1);
    writer.write_state_entry(&registry.state_snapshot()[0]);
    writer.write_baseline_entry();
    assert!(writer.buffer().is_empty());
    assert!(!writer.flush_due());
    assert!(!writer.flush_left());
}

#[test]
fn sums_do_not_depend_on_the_order() {
    let a = MetricSnapshot::from_counters(1, 10, 0, [1, 1, 0, 0, 0]);
    let b = MetricSnapshot::from_counters(0, 20, 1, [0, 0, 3, 0, 0]);
    let fill = |parts: Vec<(&str, MetricSnapshot)>| {
        let mut sums = Aggregates::new();
        for (name, part) in parts {
            sums.contribute("T", name, MetricPolicy::Access, ProfileFormat::Resource, part);
        }
        let rows = sums.drain();
        assert!(sums.drain().is_empty());
        rows
    };
    let forward = fill(vec![("y", a), ("x", a), ("y", b)]);
    let backward = fill(vec![("y", b), ("x", a), ("y", a)]);
    assert_eq!(format!("{forward:?}"), format!("{backward:?}"));
    assert_eq!(forward.len(), 2);
    assert_eq!(forward[0].name, "x");
    assert_eq!(forward[0].snapshot, a);
    assert_eq!(forward[1].name, "y");
    assert_eq!(forward[1].snapshot.total, 5);
    assert_eq!(forward[1].snapshot.elapsed_ns, 30);
}

#[test]
fn a_sum_is_shown_as_its_first_part_is() {
    let part = MetricSnapshot::from_counters(0, 10, 0, [1, 0, 0, 0, 0]);
    let mut sums = Aggregates::new();
    sums.contribute("T", "n", MetricPolicy::Access, ProfileFormat::AccessStatistic, part);
    sums.contribute("T", "n", MetricPolicy::Resource, ProfileFormat::Resource, part);
    sums.contribute("U", "n", MetricPolicy::Resource, ProfileFormat::Resource, part);
    let rows = sums.drain();
    assert_eq!(rows.len(), 2);
    assert_eq!(rows[0].metric_type, "T");
    assert_eq!(rows[0].policy, MetricPolicy::Access);
    assert_eq!(rows[0].format, ProfileFormat::AccessStatistic);
    assert_eq!(rows[0].snapshot.total, 2);
    assert_eq!(rows[1].metric_type, "U");
    assert_eq!(rows[1].policy, MetricPolicy::Resource);
    assert_eq!(rows[1].snapshot.total, 1);
}

#[test]
fn plans_with_one_aggregate_output_share_one_sum() {
    let mut registry = Registry::new();
    let mut metrics = Vec::new();
    for (identity, policy) in [("1", MetricPolicy::Service), ("2", MetricPolicy::Access)] {
        let plan =
            ProfilePlan::new(identity, policy, ProfileFormat::Resource, "DIRECT", identity)
                .aggregate("SERVICE", "app");
        let metric = registry.register_profile(plan);
        metric.record(&mut registry, millis(10), true);
        metrics.push(metric);
    }
    let mut writer = ProfileLogWriter::new(Vec::new(), "t");
    for metric in metrics {
        assert_eq!(writer.write_entry(&mut registry, metric.item).len(), 1);
    }
    let rows = writer.write_aggregate_entries();
    assert_eq!(rows.len(), 1);
    assert_eq!(rows[0].metric_type, "SERVICE");
    assert_eq!(rows[0].name, "app");
    assert_eq!(rows[0].policy, MetricPolicy::Service);
    assert_eq!(rows[0].snapshot.total, 2);
    assert_eq!(rows[0].snapshot.elapsed_ns, 20_000_000);
    assert!(writer.write_aggregate_entries().is_empty());
}

#[test]
fn times_beyond_the_range_of_dates_have_no_text() {
    assert_eq!(entry_timestamp(0).unwrap(), "1970-01-01 08:00:00");
    assert_eq!(entry_timestamp(-28_800).unwrap(), "1970-01-01 00:00:00");
    assert!(entry_timestamp(FIRST_SECOND).is_some());
    assert!(entry_timestamp(LAST_SECOND).is_some());
    assert!(entry_timestamp(FIRST_SECOND - 1).is_none());
    assert!(entry_timestamp(LAST_SECOND + 1).is_none());
    assert!(entry_timestamp(i64::MAX).is_none());
    assert!(entry_timestamp(i64::MIN).is_none());
    for seconds in [FIRST_SECOND, -1, 0, 1_786_613_658, LAST_SECOND] {
        let text = entry_timestamp(seconds).unwrap();
        assert!(text.chars().all(|c| c.is_ascii_digit() || "+-: ".contains(c)));
    }
}
