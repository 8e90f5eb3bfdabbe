//! Registration primitives for producers that need several profile views of
//! one physical counter slot. Ordinary integrations should use the typed
//! [`Metric`] constructors instead.
pub use crate::plan::{MetricPolicy, ProfileFormat, ProfilePlan};

use crate::metric::Metric;
use crate::plan::ProfileView;
use crate::registry::{len_after_registration, registration, total_len, Registry};
use vstd::prelude::*;

verus! {

/// Registers an immutable multi-output profile rendering plan.
pub fn register_profile(registry: &mut Registry, plan: ProfilePlan) -> (metric: Metric)
    requires
        old(registry).wf(),
        old(registry).has_room((None, plan@.identity)),
    ensures
        final(registry).wf(),
        registration(old(registry)@, final(registry)@, ProfileView::Fanout(plan@), metric.item),
        total_len(final(registry)@.shards) == len_after_registration(
            old(registry)@,
            (None, plan@.identity),
        ),
        final(registry)@.entry(metric.item).profile matches ProfileView::Fanout(stored)
            && metric.policy == stored.policy,
{
    registry.register_profile(plan)
}

} // verus!
