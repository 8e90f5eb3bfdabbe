//! Counter slots, the policies that fill them, and their snapshots.
use crate::plan::{MetricPolicy, ProfileFormat};
use crate::registry::{counted, ItemPtr, Registry};
use vstd::prelude::*;

verus! {

/// A counter wraps around at two to the power of sixty-four.
#[verifier::opaque]
pub open spec fn wrap(n: int) -> u64 {
    (n % 0x1_0000_0000_0000_0000) as u64
}

/// Wrapping a sum does not depend on whether its terms were wrapped before.
pub proof fn lemma_wrap(a: int, b: int)
    ensures
        wrap(wrap(a) + b) == wrap(a + b),
        wrap(wrap(a) + wrap(b)) == wrap(a + b),
        0 <= a <= u64::MAX ==> wrap(a) == a,
{
    reveal(wrap);
}

/// A sum of counters that stays at the largest `u64` once it gets there.
pub open spec fn saturated(n: int) -> u64 {
    if n > u64::MAX {
        u64::MAX
    } else {
        n as u64
    }
}

/// ProfileUtil counters for one metric.
///
/// Profile output derives total from its interval buckets. Slow counts need a separate counter:
/// an operation can cross the slow threshold without crossing an interval boundary (for example,
/// RPC's 200 ms threshold inside its 100..500 ms bucket).
#[derive(Clone, Copy, Debug)]
pub struct Slot {
    pub failure: u64,
    pub elapsed_ns: u64,
    pub slow: u64,
    pub interval1: u64,
    pub interval2: u64,
    pub interval3: u64,
    pub interval4: u64,
    pub interval5: u64,
}

/// The slot of a metric that nothing was recorded for.
pub open spec fn empty_slot() -> Slot {
    Slot {
        failure: 0,
        elapsed_ns: 0,
        slow: 0,
        interval1: 0,
        interval2: 0,
        interval3: 0,
        interval4: 0,
        interval5: 0,
    }
}

/// What a metric measures.
#[derive(Clone, Copy, Debug, PartialEq, Eq, Hash, Structural)]
pub enum MetricType {
    /// Process logging counters such as bounded-queue drops.
    Log,
    Redis,
    Mc,
    McDetail,
    /// MySQL client operations, by host and operation.
    Mysql,
    /// One outbound HTTP request, keyed by its stable endpoint URL.
    Http,
    /// Whole-request HTTP timing. The HTTP SDK registers this with an
    /// `all_`-prefixed endpoint name to match the legacy profile contract.
    HttpAll,
    /// HTTP server routes, by the class of the response. `Api` is for 2xx responses and
    /// `Apito` for requests that timed out.
    Api,
    Api3xx,
    Api4xx,
    Api5xx,
    Apito,
    /// ProfileUtil service metric. This uses the resource-shaped JSON fields
    /// but has the service slow threshold expected by legacy dashboards.
    Service,
    RpcServiceWhole,
}

/// Thresholds of one policy, in milliseconds.
#[derive(Clone, Copy, Debug)]
pub struct MetricSpec {
    pub slow_threshold_ms: u64,
    pub intervals_ms: [u64; 4],
}

/// The policy of each metric type.
pub open spec fn policy_of(kind: MetricType) -> MetricPolicy {
    match kind {
        MetricType::Log | MetricType::Redis | MetricType::Mc | MetricType::McDetail
        | MetricType::Mysql | MetricType::Http => MetricPolicy::Resource,
        MetricType::HttpAll | MetricType::Api | MetricType::Api3xx | MetricType::Api4xx
        | MetricType::Api5xx | MetricType::Apito | MetricType::Service => MetricPolicy::Service,
        MetricType::RpcServiceWhole => MetricPolicy::Access,
    }
}

/// The profile type that each metric type is logged under.
pub open spec fn label_of(kind: MetricType) -> Seq<char> {
    match kind {
        MetricType::Log => "LOG"@,
        MetricType::Redis => "REDIS"@,
        MetricType::Mc => "MC"@,
        MetricType::McDetail => "MCDETAIL"@,
        MetricType::Mysql => "MYSQL"@,
        MetricType::Http | MetricType::HttpAll => "HTTP"@,
        MetricType::Api => "API"@,
        MetricType::Api3xx => "API3XX"@,
        MetricType::Api4xx => "API4XX"@,
        MetricType::Api5xx => "API5XX"@,
        MetricType::Apito => "APITO"@,
        MetricType::Service => "SERVICE"@,
        MetricType::RpcServiceWhole => "RPC_SERVICE_WHOLE"@,
    }
}

/// The row format of each metric type: only whole RPC requests have access statistics.
pub open spec fn format_of(kind: MetricType) -> ProfileFormat {
    if kind == MetricType::RpcServiceWhole {
        ProfileFormat::AccessStatistic
    } else {
        ProfileFormat::Resource
    }
}

impl MetricType {
    /// The policy that fills the slot of a metric of this type.
    pub fn policy(self) -> (policy: MetricPolicy)
        ensures
            policy == policy_of(self),
    {
        match self {
            MetricType::Log | MetricType::Redis | MetricType::Mc | MetricType::McDetail
            | MetricType::Mysql | MetricType::Http => MetricPolicy::Resource,
            MetricType::HttpAll | MetricType::Api | MetricType::Api3xx | MetricType::Api4xx
            | MetricType::Api5xx | MetricType::Apito | MetricType::Service => {
                MetricPolicy::Service
            },
            MetricType::RpcServiceWhole => MetricPolicy::Access,
        }
    }

    /// The profile type and row format that a metric of this type is logged with.
    pub fn output(self) -> (output: (&'static str, ProfileFormat))
        ensures
            output.0@ == label_of(self),
            output.1 == format_of(self),
    {
        match self {
            MetricType::Log => ("LOG", ProfileFormat::Resource),
            MetricType::Redis => ("REDIS", ProfileFormat::Resource),
            MetricType::Mc => ("MC", ProfileFormat::Resource),
            MetricType::McDetail => ("MCDETAIL", ProfileFormat::Resource),
            MetricType::Mysql => ("MYSQL", ProfileFormat::Resource),
            MetricType::Http | MetricType::HttpAll => ("HTTP", ProfileFormat::Resource),
            MetricType::Api => ("API", ProfileFormat::Resource),
            MetricType::Api3xx => ("API3XX", ProfileFormat::Resource),
            MetricType::Api4xx => ("API4XX", ProfileFormat::Resource),
            MetricType::Api5xx => ("API5XX", ProfileFormat::Resource),
            MetricType::Apito => ("APITO", ProfileFormat::Resource),
            MetricType::Service => ("SERVICE", ProfileFormat::Resource),
            MetricType::RpcServiceWhole => ("RPC_SERVICE_WHOLE", ProfileFormat::AccessStatistic),
        }
    }
}

/// From how many milliseconds on an operation counts as slow.
pub open spec fn slow_threshold_ms(policy: MetricPolicy) -> u64 {
    match policy {
        MetricPolicy::Resource => 50,
        MetricPolicy::Service => 200,
        MetricPolicy::Access => 200,
    }
}

/// The upper bounds, in milliseconds and exclusive, of the first four latency buckets.
pub open spec fn intervals_ms(policy: MetricPolicy) -> Seq<u64> {
    match policy {
        MetricPolicy::Resource => seq![10, 50, 100, 200],
        MetricPolicy::Service => seq![10, 50, 100, 200],
        MetricPolicy::Access => seq![10, 50, 100, 500],
    }
}

impl MetricPolicy {
    /// The thresholds of this policy.
    pub fn spec(self) -> (spec: MetricSpec)
        ensures
            spec.slow_threshold_ms == slow_threshold_ms(self),
            spec.intervals_ms@ == intervals_ms(self),
    {
        match self {
            // ProfileUtil resource buckets: <10, <50, <100, <200, >=200 ms.
            MetricPolicy::Resource => MetricSpec {
                slow_threshold_ms: 50,
                intervals_ms: [10, 50, 100, 200],
            },
            // Whole-request and SERVICE metrics retain resource buckets but use 200 ms slow.
            MetricPolicy::Service => MetricSpec {
                slow_threshold_ms: 200,
                intervals_ms: [10, 50, 100, 200],
            },
            // Access-statistic access buckets: <10, <50, <100, <500, >=500 ms.
            MetricPolicy::Access => MetricSpec {
                slow_threshold_ms: 200,
                intervals_ms: [10, 50, 100, 500],
            },
        }
    }
}

/// The nanoseconds that a slot accounts for an operation: at most what a `u64` holds.
pub open spec fn clamped_ns(nanos: int) -> u64 {
    saturated(nanos)
}

/// Whether an operation of `ns` nanoseconds counts as slow.
pub open spec fn is_slow(policy: MetricPolicy, ns: u64) -> bool {
    ns >= slow_threshold_ms(policy) * 1_000_000
}

/// The latency bucket, from one to five, that an operation of `ns` nanoseconds falls into.
pub open spec fn bucket(policy: MetricPolicy, ns: u64) -> int {
    let bounds = intervals_ms(policy);
    if ns < bounds[0] * 1_000_000 {
        1
    } else if ns < bounds[1] * 1_000_000 {
        2
    } else if ns < bounds[2] * 1_000_000 {
        3
    } else if ns < bounds[3] * 1_000_000 {
        4
    } else {
        5
    }
}

/// `n` with one added to it if `condition` holds.
pub open spec fn plus_one_if(n: u64, condition: bool) -> u64 {
    if condition {
        wrap(n + 1)
    } else {
        n
    }
}

/// A slot after one operation was recorded in it.
pub open spec fn recorded(slot: Slot, policy: MetricPolicy, nanos: int, success: bool) -> Slot {
    let ns = clamped_ns(nanos);
    let at = bucket(policy, ns);
    Slot {
        failure: plus_one_if(slot.failure, !success),
        elapsed_ns: wrap(slot.elapsed_ns + ns),
        slow: plus_one_if(slot.slow, is_slow(policy, ns)),
        interval1: plus_one_if(slot.interval1, at == 1),
        interval2: plus_one_if(slot.interval2, at == 2),
        interval3: plus_one_if(slot.interval3, at == 3),
        interval4: plus_one_if(slot.interval4, at == 4),
        interval5: plus_one_if(slot.interval5, at == 5),
    }
}

/// A slot after one count-only occurrence.
pub open spec fn incremented(slot: Slot) -> Slot {
    Slot { interval1: wrap(slot.interval1 + 1), ..slot }
}

impl Slot {
    /// An empty slot.
    pub fn new() -> (slot: Slot)
        ensures
            slot == empty_slot(),
    {
        Slot {
            failure: 0,
            elapsed_ns: 0,
            slow: 0,
            interval1: 0,
            interval2: 0,
            interval3: 0,
            interval4: 0,
            interval5: 0,
        }
    }

    /// Records one completed operation.
    pub fn record(&mut self, policy: MetricPolicy, nanos: u128, success: bool)
        ensures
            *final(self) == recorded(*old(self), policy, nanos as int, success),
    {
        reveal(wrap);
        let profile = policy.spec();
        let elapsed_ns: u64 = if nanos > u64::MAX as u128 {
            u64::MAX
        } else {
            nanos as u64
        };

        if !success {
            self.failure = self.failure.wrapping_add(1);
        }
        self.elapsed_ns = self.elapsed_ns.wrapping_add(elapsed_ns);
        if elapsed_ns >= profile.slow_threshold_ms * 1_000_000 {
            self.slow = self.slow.wrapping_add(1);
        }
        if elapsed_ns < profile.intervals_ms[0] * 1_000_000 {
            self.interval1 = self.interval1.wrapping_add(1);
        } else if elapsed_ns < profile.intervals_ms[1] * 1_000_000 {
            self.interval2 = self.interval2.wrapping_add(1);
        } else if elapsed_ns < profile.intervals_ms[2] * 1_000_000 {
            self.interval3 = self.interval3.wrapping_add(1);
        } else if elapsed_ns < profile.intervals_ms[3] * 1_000_000 {
            self.interval4 = self.interval4.wrapping_add(1);
        } else {
            self.interval5 = self.interval5.wrapping_add(1);
        }
    }

    /// Records one count-only occurrence: elapsed, failure and slow counters stay as they are.
    pub fn increment(&mut self)
        ensures
            *final(self) == incremented(*old(self)),
    {
        reveal(wrap);
        self.interval1 = self.interval1.wrapping_add(1);
    }
}

/// The counters of one metric, as read at one moment or over one log interval.
#[derive(Debug, Clone, Copy, PartialEq, Eq)]
pub struct MetricSnapshot {
    pub total: u64,
    pub success: u64,
    pub failure: u64,
    pub elapsed_ns: u64,
    pub slow: u64,
    pub intervals: [u64; 5],
}

/// What a [`MetricSnapshot`] holds, with the buckets as a sequence.
#[verifier::ext_equal]
pub struct SnapshotView {
    pub total: u64,
    pub success: u64,
    pub failure: u64,
    pub elapsed_ns: u64,
    pub slow: u64,
    pub intervals: Seq<u64>,
}

impl View for MetricSnapshot {
    type V = SnapshotView;

    open spec fn view(&self) -> SnapshotView {
        SnapshotView {
            total: self.total,
            success: self.success,
            failure: self.failure,
            elapsed_ns: self.elapsed_ns,
            slow: self.slow,
            intervals: self.intervals@,
        }
    }
}

/// The snapshot with nothing in it.
pub open spec fn empty_snapshot() -> SnapshotView {
    SnapshotView {
        total: 0,
        success: 0,
        failure: 0,
        elapsed_ns: 0,
        slow: 0,
        intervals: seq![0, 0, 0, 0, 0],
    }
}

impl Default for MetricSnapshot {
    fn default() -> (snapshot: MetricSnapshot)
        ensures
            snapshot@ == empty_snapshot(),
    {
        let snapshot = MetricSnapshot {
            total: 0,
            success: 0,
            failure: 0,
            elapsed_ns: 0,
            slow: 0,
            intervals: [0, 0, 0, 0, 0],
        };
        assert(snapshot@.intervals =~= seq![0, 0, 0, 0, 0]);
        snapshot
    }
}

/// The sum of five buckets.
pub open spec fn bucket_sum(intervals: Seq<u64>) -> int {
    intervals[0] + intervals[1] + intervals[2] + intervals[3] + intervals[4]
}

/// The snapshot of the given counters: the total is the sum of the buckets, and what did not
/// fail succeeded.
pub open spec fn counters_view(
    failure: u64,
    elapsed_ns: u64,
    slow: u64,
    intervals: Seq<u64>,
) -> SnapshotView {
    let total = wrap(bucket_sum(intervals));
    SnapshotView {
        total,
        success: if total >= failure {
            (total - failure) as u64
        } else {
            0
        },
        failure,
        elapsed_ns,
        slow,
        intervals,
    }
}

/// The five buckets of a slot.
pub open spec fn slot_intervals(slot: Slot) -> Seq<u64> {
    seq![slot.interval1, slot.interval2, slot.interval3, slot.interval4, slot.interval5]
}

/// The snapshot of a slot.
pub open spec fn slot_view(slot: Slot) -> SnapshotView {
    counters_view(slot.failure, slot.elapsed_ns, slot.slow, slot_intervals(slot))
}

/// Two snapshots added up, each counter saturating.
pub open spec fn merged(a: SnapshotView, b: SnapshotView) -> SnapshotView {
    SnapshotView {
        total: saturated(a.total + b.total),
        success: saturated(a.success + b.success),
        failure: saturated(a.failure + b.failure),
        elapsed_ns: saturated(a.elapsed_ns + b.elapsed_ns),
        slow: saturated(a.slow + b.slow),
        intervals: seq![
            saturated(a.intervals[0] + b.intervals[0]),
            saturated(a.intervals[1] + b.intervals[1]),
            saturated(a.intervals[2] + b.intervals[2]),
            saturated(a.intervals[3] + b.intervals[3]),
            saturated(a.intervals[4] + b.intervals[4]),
        ],
    }
}

impl MetricSnapshot {
    /// The snapshot of the given counters.
    pub fn from_counters(failure: u64, elapsed_ns: u64, slow: u64, intervals: [u64; 5]) -> (snapshot:
        MetricSnapshot)
        ensures
            snapshot@ == counters_view(failure, elapsed_ns, slow, intervals@),
    {
        reveal(wrap);
        let total: u64 = intervals[0].wrapping_add(intervals[1]).wrapping_add(
            intervals[2],
        ).wrapping_add(intervals[3]).wrapping_add(intervals[4]);
        MetricSnapshot {
            total,
            success: total.saturating_sub(failure),
            failure,
            elapsed_ns,
            slow,
            intervals,
        }
    }

    /// Adds another snapshot to this one.
    pub fn merge(&mut self, other: MetricSnapshot)
        ensures
            final(self)@ == merged(old(self)@, other@),
    {
        self.total = self.total.saturating_add(other.total);
        self.success = self.success.saturating_add(other.success);
        self.failure = self.failure.saturating_add(other.failure);
        self.elapsed_ns = self.elapsed_ns.saturating_add(other.elapsed_ns);
        self.slow = self.slow.saturating_add(other.slow);
        self.intervals = [
            self.intervals[0].saturating_add(other.intervals[0]),
            self.intervals[1].saturating_add(other.intervals[1]),
            self.intervals[2].saturating_add(other.intervals[2]),
            self.intervals[3].saturating_add(other.intervals[3]),
            self.intervals[4].saturating_add(other.intervals[4]),
        ];
        assert(self@ =~= merged(old(self)@, other@));
    }
}

/// Reads a slot.
pub fn snapshot(slot: &Slot) -> (snapshot: MetricSnapshot)
    ensures
        snapshot@ == slot_view(*slot),
{
    let intervals: [u64; 5] = [
        slot.interval1,
        slot.interval2,
        slot.interval3,
        slot.interval4,
        slot.interval5,
    ];
    assert(intervals@ =~= slot_intervals(*slot));
    MetricSnapshot::from_counters(slot.failure, slot.elapsed_ns, slot.slow, intervals)
}

/// Reads a slot and resets every counter of it.
pub fn drain(slot: &mut Slot) -> (drained: MetricSnapshot)
    ensures
        drained@ == slot_view(*old(slot)),
        *final(slot) == empty_slot(),
{
    let drained = snapshot(slot);
    *slot = Slot::new();
    drained
}

/// Copyable handle used by the record path.
#[derive(Debug, Clone, Copy)]
pub struct Metric {
    pub item: ItemPtr,
    pub policy: MetricPolicy,
}

impl Metric {
    pub(crate) fn new(item: ItemPtr, policy: MetricPolicy) -> (metric: Metric)
        ensures
            metric.item == item,
            metric.policy == policy,
    {
        Metric { item, policy }
    }

    /// Records a completed operation with nanosecond-precision input.
    ///
    /// Profile output retains the established millisecond fields and two-decimal average format;
    /// only that output conversion loses precision. `success == false` increments the
    /// corresponding failure field in the next log interval.
    pub fn record(&self, registry: &mut Registry, elapsed_nanos: u128, success: bool)
        requires
            old(registry).wf(),
            old(registry)@.holds(self.item),
        ensures
            final(registry).wf(),
            final(registry)@ == old(registry)@.with_slot(
                self.item,
                recorded(
                    old(registry)@.entry(self.item).slot,
                    self.policy,
                    elapsed_nanos as int,
                    success,
                ),
            ),
            counted(
                old(registry)@.entry(self.item).slot,
                final(registry)@.entry(self.item).slot,
                elapsed_nanos as int,
                success,
            ),
    {
        registry.record(self.item, self.policy, elapsed_nanos, success);
    }

    /// Records one count-only occurrence without timing or failure data.
    ///
    /// The occurrence is represented in `total_count` and `interval1`; elapsed,
    /// failure, and slow counters remain unchanged.
    pub fn increment(&self, registry: &mut Registry)
        requires
            old(registry).wf(),
            old(registry)@.holds(self.item),
        ensures
            final(registry).wf(),
            final(registry)@ == old(registry)@.with_slot(
                self.item,
                incremented(old(registry)@.entry(self.item).slot),
            ),
            final(registry)@.entry(self.item).slot.interval1 == (old(registry)@.entry(
                self.item,
            ).slot.interval1 + 1) % 0x1_0000_0000_0000_0000,
    {
        registry.increment(self.item);
    }

    /// Reads the counters of this metric.
    pub fn snapshot(&self, registry: &Registry) -> (current: MetricSnapshot)
        requires
            registry.wf(),
            registry@.holds(self.item),
        ensures
            current@ == slot_view(registry@.entry(self.item).slot),
    {
        registry.snapshot(self.item)
    }
}

/// One thing that happened to a metric.
pub enum Event {
    /// An operation that was recorded under `policy`.
    Operation { policy: MetricPolicy, nanos: nat, success: bool },
    /// A count-only occurrence.
    Occurrence,
}

/// A slot after one event.
pub open spec fn after_event(slot: Slot, event: Event) -> Slot {
    match event {
        Event::Operation { policy, nanos, success } => recorded(
            slot,
            policy,
            nanos as int,
            success,
        ),
        Event::Occurrence => incremented(slot),
    }
}

/// A slot after a run of events.
pub open spec fn after_events(slot: Slot, events: Seq<Event>) -> Slot
    decreases events.len(),
{
    if events.len() == 0 {
        slot
    } else {
        after_event(after_events(slot, events.drop_last()), events.last())
    }
}

/// What a run of events adds up to, without bounds.
pub struct Tally {
    pub failure: nat,
    pub elapsed_ns: nat,
    pub slow: nat,
    pub interval1: nat,
    pub interval2: nat,
    pub interval3: nat,
    pub interval4: nat,
    pub interval5: nat,
}

/// One if `condition` holds, zero otherwise.
pub open spec fn one_if(condition: bool) -> nat {
    if condition {
        1
    } else {
        0
    }
}

/// What one event adds.
pub open spec fn event_tally(event: Event) -> Tally {
    match event {
        Event::Operation { policy, nanos, success } => {
            let ns = clamped_ns(nanos as int);
            let at = bucket(policy, ns);
            Tally {
                failure: one_if(!success),
                elapsed_ns: ns as nat,
                slow: one_if(is_slow(policy, ns)),
                interval1: one_if(at == 1),
                interval2: one_if(at == 2),
                interval3: one_if(at == 3),
                interval4: one_if(at == 4),
                interval5: one_if(at == 5),
            }
        },
        Event::Occurrence => Tally {
            failure: 0,
            elapsed_ns: 0,
            slow: 0,
            interval1: 1,
            interval2: 0,
            interval3: 0,
            interval4: 0,
            interval5: 0,
        },
    }
}

/// Two tallies added up.
pub open spec fn tally_sum(a: Tally, b: Tally) -> Tally {
    Tally {
        failure: a.failure + b.failure,
        elapsed_ns: a.elapsed_ns + b.elapsed_ns,
        slow: a.slow + b.slow,
        interval1: a.interval1 + b.interval1,
        interval2: a.interval2 + b.interval2,
        interval3: a.interval3 + b.interval3,
        interval4: a.interval4 + b.interval4,
        interval5: a.interval5 + b.interval5,
    }
}

/// What a run of events adds up to.
pub open spec fn tally(events: Seq<Event>) -> Tally
    decreases events.len(),
{
    if events.len() == 0 {
        Tally {
            failure: 0,
            elapsed_ns: 0,
            slow: 0,
            interval1: 0,
            interval2: 0,
            interval3: 0,
            interval4: 0,
            interval5: 0,
        }
    } else {
        tally_sum(tally(events.drop_last()), event_tally(events.last()))
    }
}

/// The slot whose counters hold a tally.
pub open spec fn tally_slot(t: Tally) -> Slot {
    Slot {
        failure: wrap(t.failure as int),
        elapsed_ns: wrap(t.elapsed_ns as int),
        slow: wrap(t.slow as int),
        interval1: wrap(t.interval1 as int),
        interval2: wrap(t.interval2 as int),
        interval3: wrap(t.interval3 as int),
        interval4: wrap(t.interval4 as int),
        interval5: wrap(t.interval5 as int),
    }
}

/// A slot that started empty holds exactly the tally of the events recorded in it.
pub proof fn law_slot_holds_the_tally(events: Seq<Event>)
    ensures
        after_events(empty_slot(), events) == tally_slot(tally(events)),
    decreases events.len(),
{
    if events.len() == 0 {
        lemma_wrap(0, 0);
    } else {
        law_slot_holds_the_tally(events.drop_last());
        let t = tally(events.drop_last());
        let e = event_tally(events.last());
        lemma_wrap(t.failure as int, e.failure as int);
        lemma_wrap(t.elapsed_ns as int, e.elapsed_ns as int);
        lemma_wrap(t.slow as int, e.slow as int);
        lemma_wrap(t.interval1 as int, e.interval1 as int);
        lemma_wrap(t.interval2 as int, e.interval2 as int);
        lemma_wrap(t.interval3 as int, e.interval3 as int);
        lemma_wrap(t.interval4 as int, e.interval4 as int);
        lemma_wrap(t.interval5 as int, e.interval5 as int);
    }
}

/// Tallies of consecutive runs of events add up.
proof fn lemma_tally_of_two_runs(first: Seq<Event>, second: Seq<Event>)
    ensures
        tally(first + second) == tally_sum(tally(first), tally(second)),
    decreases second.len(),
{
    if second.len() == 0 {
        assert(first + second =~= first);
    } else {
        lemma_tally_of_two_runs(first, second.drop_last());
        assert((first + second).drop_last() =~= first + second.drop_last());
    }
}

/// Draining between two runs of events loses nothing and counts nothing twice: what the drain
/// returned and what the slot holds afterwards add up, counter by counter, to what the slot would
/// hold without the drain.
pub proof fn law_draining_loses_nothing(first: Seq<Event>, second: Seq<Event>)
    ensures
        ({
            let drained = after_events(empty_slot(), first);
            let rest = after_events(empty_slot(), second);
            let whole = after_events(empty_slot(), first + second);
            &&& whole.failure == wrap(drained.failure + rest.failure)
            &&& whole.elapsed_ns == wrap(drained.elapsed_ns + rest.elapsed_ns)
            &&& whole.slow == wrap(drained.slow + rest.slow)
            &&& whole.interval1 == wrap(drained.interval1 + rest.interval1)
            &&& whole.interval2 == wrap(drained.interval2 + rest.interval2)
            &&& whole.interval3 == wrap(drained.interval3 + rest.interval3)
            &&& whole.interval4 == wrap(drained.interval4 + rest.interval4)
            &&& whole.interval5 == wrap(drained.interval5 + rest.interval5)
            &&& slot_view(whole).total == wrap(slot_view(drained).total + slot_view(rest).total)
        }),
{
    law_slot_holds_the_tally(first);
    law_slot_holds_the_tally(second);
    law_slot_holds_the_tally(first + second);
    lemma_tally_of_two_runs(first, second);
    let a = tally(first);
    let b = tally(second);
    lemma_wrap(a.failure as int, b.failure as int);
    lemma_wrap(a.elapsed_ns as int, b.elapsed_ns as int);
    lemma_wrap(a.slow as int, b.slow as int);
    lemma_wrap(a.interval1 as int, b.interval1 as int);
    lemma_wrap(a.interval2 as int, b.interval2 as int);
    lemma_wrap(a.interval3 as int, b.interval3 as int);
    lemma_wrap(a.interval4 as int, b.interval4 as int);
    lemma_wrap(a.interval5 as int, b.interval5 as int);
    lemma_total_of_tally(a);
    lemma_total_of_tally(b);
    lemma_total_of_tally(tally_sum(a, b));
    lemma_wrap(tally_total(a), tally_total(b));
}

/// The number of events in a tally.
spec fn tally_total(t: Tally) -> int {
    (t.interval1 + t.interval2 + t.interval3 + t.interval4 + t.interval5) as int
}

/// The total of a slot is the number of events in it, wrapped.
proof fn lemma_total_of_tally(t: Tally)
    ensures
        slot_view(tally_slot(t)).total == wrap(tally_total(t)),
{
    let (a, b, c, d, e) = (
        t.interval1 as int,
        t.interval2 as int,
        t.interval3 as int,
        t.interval4 as int,
        t.interval5 as int,
    );
    lemma_wrap(a, wrap(b) + wrap(c) + wrap(d) + wrap(e));
    lemma_wrap(b, a + wrap(c) + wrap(d) + wrap(e));
    lemma_wrap(c, a + b + wrap(d) + wrap(e));
    lemma_wrap(d, a + b + c + wrap(e));
    lemma_wrap(e, a + b + c + d);
}

proof fn lemma_tally_bounds(events: Seq<Event>)
    ensures
        ({
            let t = tally(events);
            &&& t.interval1 + t.interval2 + t.interval3 + t.interval4 + t.interval5
                == events.len()
            &&& t.failure <= events.len()
            &&& t.slow <= events.len()
        }),
    decreases events.len(),
{
    if events.len() > 0 {
        lemma_tally_bounds(events.drop_last());
    }
}

/// Every event counts once in the total, and an operation of whatever length falls into exactly
/// one bucket.
pub proof fn law_every_event_counts_once(events: Seq<Event>)
    ensures
        slot_view(after_events(empty_slot(), events)).total == wrap(events.len() as int),
{
    law_slot_holds_the_tally(events);
    lemma_tally_bounds(events);
    lemma_total_of_tally(tally(events));
    lemma_wrap(tally(events).failure as int, 0);
    lemma_wrap(tally(events).slow as int, 0);
    lemma_wrap(events.len() as int, 0);
}

/// As long as no counter wrapped around, successes and failures make up the total, and neither
/// failures nor slow operations exceed it.
pub proof fn law_success_and_failure_make_the_total(events: Seq<Event>)
    requires
        events.len() <= u64::MAX,
    ensures
        ({
            let view = slot_view(after_events(empty_slot(), events));
            &&& view.total == events.len()
            &&& view.success + view.failure == view.total
            &&& view.slow <= view.total
        }),
{
    law_slot_holds_the_tally(events);
    lemma_tally_bounds(events);
    lemma_total_of_tally(tally(events));
    lemma_wrap(tally(events).failure as int, 0);
    lemma_wrap(tally(events).slow as int, 0);
    lemma_wrap(events.len() as int, 0);
}

/// An increment is counted in the total and the first bucket and changes nothing else.
pub proof fn law_increment_is_only_a_count(slot: Slot)
    ensures
        ({
            let before = slot_view(slot);
            let after = slot_view(incremented(slot));
            &&& after.total == wrap(before.total + 1)
            &&& after.failure == before.failure
            &&& after.elapsed_ns == before.elapsed_ns
            &&& after.slow == before.slow
            &&& after.intervals == before.intervals.update(0, wrap(before.intervals[0] + 1))
        }),
{
    lemma_wrap(slot.interval1 + 1, slot.interval2 + slot.interval3 + slot.interval4 + slot.interval5);
    lemma_wrap(bucket_sum(slot_intervals(slot)), 1);
    assert(slot_view(incremented(slot)).intervals =~= slot_view(slot).intervals.update(
        0,
        wrap(slot.interval1 + 1),
    ));
}

/// The order in which snapshots are merged does not matter, and an empty snapshot adds nothing.
pub proof fn law_merging_is_order_independent(a: SnapshotView, b: SnapshotView, c: SnapshotView)
    requires
        a.intervals.len() == 5,
    ensures
        merged(a, b) == merged(b, a),
        merged(merged(a, b), c) == merged(a, merged(b, c)),
        merged(a, empty_snapshot()) == a,
{
    assert(merged(a, b) =~= merged(b, a));
    assert(merged(merged(a, b), c) =~= merged(a, merged(b, c)));
    assert(merged(a, empty_snapshot()) =~= a);
}

/// Snapshots merged into an empty one, in order.
pub open spec fn merged_all(parts: Seq<SnapshotView>) -> SnapshotView
    decreases parts.len(),
{
    if parts.len() == 0 {
        empty_snapshot()
    } else {
        merged(merged_all(parts.drop_last()), parts.last())
    }
}

/// The sum of one counter over a sequence of snapshots.
pub open spec fn counter_sum(parts: Seq<SnapshotView>, counter: spec_fn(SnapshotView) -> u64) -> int
    decreases parts.len(),
{
    if parts.len() == 0 {
        0
    } else {
        counter_sum(parts.drop_last(), counter) + counter(parts.last())
    }
}

proof fn lemma_counter_sum_not_negative(
    parts: Seq<SnapshotView>,
    counter: spec_fn(SnapshotView) -> u64,
)
    ensures
        counter_sum(parts, counter) >= 0,
    decreases parts.len(),
{
    if parts.len() > 0 {
        lemma_counter_sum_not_negative(parts.drop_last(), counter);
    }
}

/// A merge of many snapshots holds, in every counter, the sum of that counter over all of them,
/// or the largest `u64` where the sum exceeds it.
pub proof fn law_merge_is_the_saturated_sum(parts: Seq<SnapshotView>)
    ensures
        ({
            let all = merged_all(parts);
            &&& all.total == saturated(counter_sum(parts, |p: SnapshotView| p.total))
            &&& all.success == saturated(counter_sum(parts, |p: SnapshotView| p.success))
            &&& all.failure == saturated(counter_sum(parts, |p: SnapshotView| p.failure))
            &&& all.elapsed_ns == saturated(counter_sum(parts, |p: SnapshotView| p.elapsed_ns))
            &&& all.slow == saturated(counter_sum(parts, |p: SnapshotView| p.slow))
            &&& all.intervals.len() == 5
            &&& forall|i: int|
                0 <= i < 5 ==> #[trigger] all.intervals[i] == saturated(
                    counter_sum(parts, |p: SnapshotView| p.intervals[i]),
                )
        }),
    decreases parts.len(),
{
    if parts.len() > 0 {
        law_merge_is_the_saturated_sum(parts.drop_last());
        let rest = parts.drop_last();
        lemma_counter_sum_not_negative(rest, |p: SnapshotView| p.total);
        lemma_counter_sum_not_negative(rest, |p: SnapshotView| p.success);
        lemma_counter_sum_not_negative(rest, |p: SnapshotView| p.failure);
        lemma_counter_sum_not_negative(rest, |p: SnapshotView| p.elapsed_ns);
        lemma_counter_sum_not_negative(rest, |p: SnapshotView| p.slow);
        assert forall|i: int| 0 <= i < 5 implies #[trigger] merged_all(parts).intervals[i]
            == saturated(counter_sum(parts, |p: SnapshotView| p.intervals[i])) by {
            lemma_counter_sum_not_negative(rest, |p: SnapshotView| p.intervals[i]);
            assert(merged_all(rest).intervals[i] == saturated(
                counter_sum(rest, |p: SnapshotView| p.intervals[i]),
            ));
        }
    }
}

/// An operation is counted exactly once, in the bucket that its length belongs to; it counts as slow
/// from the threshold of its policy on, as a failure if it failed, and with its length in
/// nanoseconds. Counters wrap around after the largest `u64`.
pub proof fn law_operation_counts_where_it_belongs(
    slot: Slot,
    policy: MetricPolicy,
    nanos: nat,
    success: bool,
)
    ensures
        ({
            let after = recorded(slot, policy, nanos as int, success);
            let slow_from: int = if policy == MetricPolicy::Resource {
                50_000_000
            } else {
                200_000_000
            };
            let last_from: int = if policy == MetricPolicy::Access {
                500_000_000
            } else {
                200_000_000
            };
            let length: int = if nanos < 0x1_0000_0000_0000_0000 {
                nanos as int
            } else {
                0xffff_ffff_ffff_ffff
            };
            &&& after.failure == (slot.failure + if success {
                0int
            } else {
                1
            }) % 0x1_0000_0000_0000_0000
            &&& after.elapsed_ns == (slot.elapsed_ns + length) % 0x1_0000_0000_0000_0000
            &&& after.slow == (slot.slow + if nanos >= slow_from {
                1int
            } else {
                0
            }) % 0x1_0000_0000_0000_0000
            &&& after.interval1 == (slot.interval1 + if nanos < 10_000_000 {
                1int
            } else {
                0
            }) % 0x1_0000_0000_0000_0000
            &&& after.interval2 == (slot.interval2 + if 10_000_000 <= nanos < 50_000_000 {
                1int
            } else {
                0
            }) % 0x1_0000_0000_0000_0000
            &&& after.interval3 == (slot.interval3 + if 50_000_000 <= nanos < 100_000_000 {
                1int
            } else {
                0
            }) % 0x1_0000_0000_0000_0000
            &&& after.interval4 == (slot.interval4 + if 100_000_000 <= nanos < last_from {
                1int
            } else {
                0
            }) % 0x1_0000_0000_0000_0000
            &&& after.interval5 == (slot.interval5 + if nanos >= last_from {
                1int
            } else {
                0
            }) % 0x1_0000_0000_0000_0000
        }),
{
    reveal(wrap);
}

/// A longer operation falls into no lower bucket and is slow if a shorter one is. The last bucket
/// starts at 200 ms, or at 500 ms for access statistics; an operation is slow from 50 ms on for a
/// resource and from 200 ms on otherwise.
pub proof fn law_thresholds_are_monotone(policy: MetricPolicy, a: u64, b: u64)
    requires
        a <= b,
    ensures
        1 <= bucket(policy, a) <= bucket(policy, b) <= 5,
        is_slow(policy, a) ==> is_slow(policy, b),
        bucket(policy, a) == 1 <==> a < 10_000_000,
        bucket(policy, a) <= 2 <==> a < 50_000_000,
        bucket(policy, a) <= 3 <==> a < 100_000_000,
        policy == MetricPolicy::Access ==> (bucket(policy, a) == 5 <==> a >= 500_000_000),
        policy != MetricPolicy::Access ==> (bucket(policy, a) == 5 <==> a >= 200_000_000),
        policy == MetricPolicy::Resource ==> (is_slow(policy, a) <==> a >= 50_000_000),
        policy != MetricPolicy::Resource ==> (is_slow(policy, a) <==> a >= 200_000_000),
{
}

/// An increment adds one to the first bucket and to nothing else.
pub proof fn law_occurrence_counts_in_the_first_bucket(slot: Slot)
    ensures
        ({
            let after = incremented(slot);
            &&& after.interval1 == (slot.interval1 + 1) % 0x1_0000_0000_0000_0000
            &&& after.failure == slot.failure
            &&& after.elapsed_ns == slot.elapsed_ns
            &&& after.slow == slot.slow
            &&& after.interval2 == slot.interval2
            &&& after.interval3 == slot.interval3
            &&& after.interval4 == slot.interval4
            &&& after.interval5 == slot.interval5
        }),
{
    reveal(wrap);
}

/// A snapshot of a slot shows each counter of the slot under its own name. The total is the sum of
/// the buckets, and what did not fail succeeded.
pub proof fn law_snapshot_shows_the_slot(slot: Slot, snapshot: MetricSnapshot)
    requires
        snapshot@ == slot_view(slot),
    ensures
        snapshot.failure == slot.failure,
        snapshot.elapsed_ns == slot.elapsed_ns,
        snapshot.slow == slot.slow,
        snapshot.intervals@.len() == 5,
        snapshot.intervals@[0] == slot.interval1,
        snapshot.intervals@[1] == slot.interval2,
        snapshot.intervals@[2] == slot.interval3,
        snapshot.intervals@[3] == slot.interval4,
        snapshot.intervals@[4] == slot.interval5,
        snapshot.total == (slot.interval1 + slot.interval2 + slot.interval3 + slot.interval4
            + slot.interval5) % 0x1_0000_0000_0000_0000,
        snapshot.failure <= snapshot.total ==> snapshot.success + snapshot.failure
            == snapshot.total,
        snapshot.failure > snapshot.total ==> snapshot.success == 0,
{
    reveal(wrap);
}

/// A slot that was drained, and one that nothing was recorded in, shows zeros only.
pub proof fn law_empty_slot_shows_zeros(snapshot: MetricSnapshot)
    requires
        snapshot@ == slot_view(empty_slot()) || snapshot@ == empty_snapshot(),
    ensures
        snapshot.total == 0,
        snapshot.success == 0,
        snapshot.failure == 0,
        snapshot.elapsed_ns == 0,
        snapshot.slow == 0,
        forall|i: int| 0 <= i < 5 ==> #[trigger] snapshot.intervals@[i] == 0,
{
    reveal(wrap);
}

/// The smaller of a sum and the largest `u64`.
pub open spec fn at_most_u64(sum: int) -> int {
    if sum > 0xffff_ffff_ffff_ffff {
        0xffff_ffff_ffff_ffff
    } else {
        sum
    }
}

/// A merge adds every counter to the counter of the same name, up to the largest `u64`.
pub proof fn law_merge_adds_every_counter(
    a: MetricSnapshot,
    b: MetricSnapshot,
    both: MetricSnapshot,
)
    requires
        both@ == merged(a@, b@),
    ensures
        both.total == at_most_u64(a.total + b.total),
        both.success == at_most_u64(a.success + b.success),
        both.failure == at_most_u64(a.failure + b.failure),
        both.elapsed_ns == at_most_u64(a.elapsed_ns + b.elapsed_ns),
        both.slow == at_most_u64(a.slow + b.slow),
        forall|i: int|
            0 <= i < 5 ==> #[trigger] both.intervals@[i] == at_most_u64(
                a.intervals@[i] + b.intervals@[i],
            ),
{
    assert forall|i: int| 0 <= i < 5 implies #[trigger] both.intervals@[i] == at_most_u64(
        a.intervals@[i] + b.intervals@[i],
    ) by {
        assert(both@.intervals[i] == merged(a@, b@).intervals[i]);
    }
}

/// Every metric type is logged under its own name, and only the two types of outbound HTTP requests
/// share one. Clients are resources; whole requests, routes and services have the service policy;
/// whole RPC requests have access statistics.
pub proof fn law_metric_types_are_shown_as_named(kind: MetricType)
    ensures
        match kind {
            MetricType::Log => label_of(kind) == "LOG"@ && policy_of(kind)
                == MetricPolicy::Resource,
            MetricType::Redis => label_of(kind) == "REDIS"@ && policy_of(kind)
                == MetricPolicy::Resource,
            MetricType::Mc => label_of(kind) == "MC"@ && policy_of(kind) == MetricPolicy::Resource,
            MetricType::McDetail => label_of(kind) == "MCDETAIL"@ && policy_of(kind)
                == MetricPolicy::Resource,
            MetricType::Mysql => label_of(kind) == "MYSQL"@ && policy_of(kind)
                == MetricPolicy::Resource,
            MetricType::Http => label_of(kind) == "HTTP"@ && policy_of(kind)
                == MetricPolicy::Resource,
            MetricType::HttpAll => label_of(kind) == "HTTP"@ && policy_of(kind)
                == MetricPolicy::Service,
            MetricType::Api => label_of(kind) == "API"@ && policy_of(kind) == MetricPolicy::Service,
            MetricType::Api3xx => label_of(kind) == "API3XX"@ && policy_of(kind)
                == MetricPolicy::Service,
            MetricType::Api4xx => label_of(kind) == "API4XX"@ && policy_of(kind)
                == MetricPolicy::Service,
            MetricType::Api5xx => label_of(kind) == "API5XX"@ && policy_of(kind)
                == MetricPolicy::Service,
            MetricType::Apito => label_of(kind) == "APITO"@ && policy_of(kind)
                == MetricPolicy::Service,
            MetricType::Service => label_of(kind) == "SERVICE"@ && policy_of(kind)
                == MetricPolicy::Service,
            MetricType::RpcServiceWhole => label_of(kind) == "RPC_SERVICE_WHOLE"@ && policy_of(kind)
                == MetricPolicy::Access,
        },
        format_of(kind) == ProfileFormat::AccessStatistic <==> kind == MetricType::RpcServiceWhole,
{
}

} // verus!
