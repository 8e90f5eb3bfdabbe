//! Append-only metrics with ProfileUtil-compatible periodic logging.
//!
//! A [`registry::Registry`] holds all metrics of a process, sharded, and the latest states.
//! [`Metric`] handles record into it. Every interval, [`interval::ProfileInterval`] drains the
//! counters and renders the profile log, and [`rotation::ProfileLogFile`] says when the log is
//! to be archived.
pub mod aggregate;
pub mod assoc;
pub mod clock;
pub mod entry;
pub mod interval;
pub mod interval_laws;
pub mod json;
pub mod laws;
pub mod line_reader;
pub mod metric;
pub mod plan;
pub mod producer;
pub mod registry;
pub mod rotation;
pub mod row_laws;
pub mod state;
pub mod text;
pub mod writer;

pub use metric::{Metric, MetricSnapshot};

use crate::metric::{policy_of, MetricType};
use crate::plan::ProfileView;
use crate::registry::{
    all_visits, len_after_registration, registration, total_len, visit_views, Registry,
    RegistryView, VisitedMetric,
};
use crate::state::{state_recorded, StateType};
use vstd::prelude::*;

verus! {

/// What every constructor of [`Metric`] does: `after` is `before` with a metric of type `kind`
/// and the given name, and `metric` records into it under the policy of its type.
pub open spec fn registers(
    before: Registry,
    after: Registry,
    name: Seq<char>,
    kind: MetricType,
    metric: Metric,
) -> bool {
    &&& after.wf()
    &&& registration(before@, after@, ProfileView::Single { name, kind }, metric.item)
    &&& total_len(after@.shards) == len_after_registration(before@, (Some(kind), name))
    &&& metric.policy == policy_of(kind)
    &&& after@.entry(metric.item).profile == (ProfileView::Single { name, kind })
}

impl Metric {
    /// Registers one metric of the given type.
    pub fn register_single(registry: &mut Registry, name: &str, kind: MetricType) -> (metric: Metric)
        requires
            old(registry).wf(),
            old(registry).has_room((Some(kind), name@)),
        ensures
            registers(*old(registry), *final(registry), name@, kind, metric),
    {
        registry.register(name, kind)
    }

    /// Registers one process logging counter.
    pub fn log(registry: &mut Registry, name: &str) -> (metric: Metric)
        requires
            old(registry).wf(),
            old(registry).has_room((Some(MetricType::Log), name@)),
        ensures
            registers(*old(registry), *final(registry), name@, MetricType::Log, metric),
    {
        Metric::register_single(registry, name, MetricType::Log)
    }

    /// Registers one Redis endpoint metric.
    pub fn redis(registry: &mut Registry, name: &str) -> (metric: Metric)
        requires
            old(registry).wf(),
            old(registry).has_room((Some(MetricType::Redis), name@)),
        ensures
            registers(*old(registry), *final(registry), name@, MetricType::Redis, metric),
    {
        Metric::register_single(registry, name, MetricType::Redis)
    }

    /// Registers one Memcache port-level metric.
    pub fn mc(registry: &mut Registry, name: &str) -> (metric: Metric)
        requires
            old(registry).wf(),
            old(registry).has_room((Some(MetricType::Mc), name@)),
        ensures
            registers(*old(registry), *final(registry), name@, MetricType::Mc, metric),
    {
        Metric::register_single(registry, name, MetricType::Mc)
    }

    /// Registers one Memcache `port_up` or `port_down` detail metric.
    pub fn mc_detail(registry: &mut Registry, name: &str) -> (metric: Metric)
        requires
            old(registry).wf(),
            old(registry).has_room((Some(MetricType::McDetail), name@)),
        ensures
            registers(*old(registry), *final(registry), name@, MetricType::McDetail, metric),
    {
        Metric::register_single(registry, name, MetricType::McDetail)
    }

    /// Registers one MySQL client metric.
    pub fn mysql(registry: &mut Registry, name: &str) -> (metric: Metric)
        requires
            old(registry).wf(),
            old(registry).has_room((Some(MetricType::Mysql), name@)),
        ensures
            registers(*old(registry), *final(registry), name@, MetricType::Mysql, metric),
    {
        Metric::register_single(registry, name, MetricType::Mysql)
    }

    /// Registers one outbound HTTP endpoint metric.
    pub fn http(registry: &mut Registry, name: &str) -> (metric: Metric)
        requires
            old(registry).wf(),
            old(registry).has_room((Some(MetricType::Http), name@)),
        ensures
            registers(*old(registry), *final(registry), name@, MetricType::Http, metric),
    {
        Metric::register_single(registry, name, MetricType::Http)
    }

    /// Registers the `all_`-prefixed whole-request HTTP metric.
    pub fn http_all(registry: &mut Registry, name: &str) -> (metric: Metric)
        requires
            old(registry).wf(),
            old(registry).has_room((Some(MetricType::HttpAll), name@)),
        ensures
            registers(*old(registry), *final(registry), name@, MetricType::HttpAll, metric),
    {
        Metric::register_single(registry, name, MetricType::HttpAll)
    }

    /// Registers one HTTP server route metric, for 2xx responses.
    pub fn api(registry: &mut Registry, name: &str) -> (metric: Metric)
        requires
            old(registry).wf(),
            old(registry).has_room((Some(MetricType::Api), name@)),
        ensures
            registers(*old(registry), *final(registry), name@, MetricType::Api, metric),
    {
        Metric::register_single(registry, name, MetricType::Api)
    }

    /// Registers one HTTP server route metric, for 3xx responses.
    pub fn api3xx(registry: &mut Registry, name: &str) -> (metric: Metric)
        requires
            old(registry).wf(),
            old(registry).has_room((Some(MetricType::Api3xx), name@)),
        ensures
            registers(*old(registry), *final(registry), name@, MetricType::Api3xx, metric),
    {
        Metric::register_single(registry, name, MetricType::Api3xx)
    }

    /// Registers one HTTP server route metric, for 4xx responses.
    pub fn api4xx(registry: &mut Registry, name: &str) -> (metric: Metric)
        requires
            old(registry).wf(),
            old(registry).has_room((Some(MetricType::Api4xx), name@)),
        ensures
            registers(*old(registry), *final(registry), name@, MetricType::Api4xx, metric),
    {
        Metric::register_single(registry, name, MetricType::Api4xx)
    }

    /// Registers one HTTP server route metric, for 5xx responses.
    pub fn api5xx(registry: &mut Registry, name: &str) -> (metric: Metric)
        requires
            old(registry).wf(),
            old(registry).has_room((Some(MetricType::Api5xx), name@)),
        ensures
            registers(*old(registry), *final(registry), name@, MetricType::Api5xx, metric),
    {
        Metric::register_single(registry, name, MetricType::Api5xx)
    }

    /// Registers one HTTP server route metric, for requests that timed out.
    pub fn apito(registry: &mut Registry, name: &str) -> (metric: Metric)
        requires
            old(registry).wf(),
            old(registry).has_room((Some(MetricType::Apito), name@)),
        ensures
            registers(*old(registry), *final(registry), name@, MetricType::Apito, metric),
    {
        Metric::register_single(registry, name, MetricType::Apito)
    }

    /// Registers a service metric with the legacy 200 ms slow threshold.
    pub fn service(registry: &mut Registry, name: &str) -> (metric: Metric)
        requires
            old(registry).wf(),
            old(registry).has_room((Some(MetricType::Service), name@)),
        ensures
            registers(*old(registry), *final(registry), name@, MetricType::Service, metric),
    {
        Metric::register_single(registry, name, MetricType::Service)
    }

    /// Registers a Motan provider whole-request metric.
    pub fn rpc_service_whole(registry: &mut Registry, name: &str) -> (metric: Metric)
        requires
            old(registry).wf(),
            old(registry).has_room((Some(MetricType::RpcServiceWhole), name@)),
        ensures
            registers(*old(registry), *final(registry), name@, MetricType::RpcServiceWhole, metric),
    {
        Metric::register_single(registry, name, MetricType::RpcServiceWhole)
    }
}

/// Records one field of the latest process-level RPC state.
///
/// Profile output maps this typed state to the legacy `MOTAN_CLUSTER_STAT` label.
pub fn record_rpc_state(registry: &mut Registry, name: &str, key: &str, value: &str)
    requires
        old(registry).wf(),
    ensures
        final(registry).wf(),
        final(registry)@ == (RegistryView {
            states: state_recorded(old(registry)@.states, StateType::Rpc, name@, key@, value@),
            ..old(registry)@
        }),
        final(registry)@.states.contains_key((StateType::Rpc, name@)),
        final(registry)@.states[(StateType::Rpc, name@)].contains_key(key@),
        final(registry)@.states[(StateType::Rpc, name@)][key@] == value@,
{
    registry.record_state(StateType::Rpc, name, key, value);
}

/// Visits every registered metric.
///
/// The order is fixed by shard and chunk. Direct fanout aliases are visited; flush-time
/// aggregate rows are produced only by the profile writer.
pub fn visit(registry: &Registry) -> (rows: Vec<VisitedMetric<'_>>)
    requires
        registry.wf(),
    ensures
        visit_views(rows@) == all_visits(registry@.shards),
{
    registry.visit()
}

/// Returns the current sum of the published prefix lengths across all shards.
pub fn len(registry: &Registry) -> (len: usize)
    requires
        registry.wf(),
    ensures
        len == total_len(registry@.shards),
{
    registry.len()
}

} // verus!
