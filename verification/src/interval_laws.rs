//! What holds of a whole log interval: what it writes, what it drains, and that it ends.
use crate::aggregate::{
    lemma_row_order, lemma_rows_distinct, row_before, row_pairs, row_views, rows_map, rows_sorted,
    AggregateMap, AggregateSum, ProfileRow, RowView,
};
use crate::assoc::{asymmetric, has_key, key_index, lemma_ascending_unique, lemma_assoc_entry};
use crate::entry::{baseline_entry_bytes, state_entry_bytes};
use crate::interval::{
    interval_start, next_step, phase_advanced, IntervalPhase, IntervalStep, IntervalView,
};
use crate::metric::{
    empty_slot, empty_snapshot, format_of, label_of, merged_all, policy_of, slot_view,
    slow_threshold_ms, Slot, SnapshotView,
};
use crate::plan::{MetricPolicy, OutputView, ProfileFormat, ProfileView};
use crate::registry::{all_items, total_len, ItemPtr, RegistryView};
use crate::state::{
    fields_sorted, lemma_state_order, state_before, state_pairs, states_map, states_sorted,
    StateMap, StateType, StateView,
};
use crate::text::{one_line, printable_text, text_before};
use crate::writer::{direct_rows, interval_rows, interval_sums, joined, row_bytes, WriterView};
use vstd::prelude::*;

verus! {

/// There is one order only in which the rows of some sums can stand.
pub proof fn law_sorted_rows_are_unique(a: Seq<RowView>, b: Seq<RowView>)
    requires
        rows_sorted(a),
        rows_sorted(b),
        rows_map(a) == rows_map(b),
    ensures
        a == b,
{
    let before = |x: OutputView, y: OutputView| row_before(x, y);
    assert(asymmetric(before)) by {
        assert forall|x: OutputView, y: OutputView| #[trigger] before(x, y) implies !before(
            y,
            x,
        ) by {
            lemma_row_order(x, y, x);
        }
    }
    lemma_ascending_unique(row_pairs(a), row_pairs(b), before);
    assert(a.len() == row_pairs(a).len() && b.len() == row_pairs(b).len());
    assert forall|i: int| 0 <= i < a.len() implies a[i] == b[i] by {
        assert(row_pairs(a)[i] == row_pairs(b)[i]);
    }
    assert(a =~= b);
}

/// There is one order only in which states and their fields can stand.
pub proof fn law_sorted_states_are_unique(a: Seq<StateView>, b: Seq<StateView>)
    requires
        states_sorted(a),
        states_sorted(b),
        states_map(a) == states_map(b),
    ensures
        a == b,
{
    let before = |x: (StateType, Seq<char>), y: (StateType, Seq<char>)|
        state_before(x.0, x.1, y.0, y.1);
    assert(asymmetric(before)) by {
        assert forall|x: (StateType, Seq<char>), y: (StateType, Seq<char>)| #[trigger]
            before(x, y) implies !before(y, x) by {
            lemma_state_order(x, y, x);
        }
    }
    lemma_ascending_unique(state_pairs(a), state_pairs(b), before);
    assert(a.len() == state_pairs(a).len() && b.len() == state_pairs(b).len());
    let field_before = |x: Seq<char>, y: Seq<char>| text_before(x, y);
    assert(asymmetric(field_before)) by {
        assert forall|x: Seq<char>, y: Seq<char>| #[trigger] field_before(x, y) implies !(
        field_before(y, x)) by {
            crate::text::law_text_order_is_strict_and_total(x, y, x);
        }
    }
    assert forall|i: int| 0 <= i < a.len() implies a[i] == b[i] by {
        assert(state_pairs(a)[i] == state_pairs(b)[i]);
        assert(fields_sorted(a[i].fields) && fields_sorted(b[i].fields));
        lemma_ascending_unique(a[i].fields, b[i].fields, field_before);
    }
    assert(a =~= b);
}

/// The rows of some sums, in order.
pub open spec fn sorted_rows(sums: AggregateMap) -> Seq<RowView> {
    choose|rows: Seq<RowView>| rows_sorted(rows) && #[trigger] rows_map(rows) == sums
}

/// Some states, in order.
pub open spec fn sorted_states(states: StateMap) -> Seq<StateView> {
    choose|sorted: Seq<StateView>| states_sorted(sorted) && #[trigger] states_map(sorted) == states
}

/// The rows that some metrics are shown in, each metric with what it counted.
pub open spec fn metric_rows(registry: RegistryView, items: Seq<ItemPtr>) -> Seq<RowView>
    decreases items.len(),
{
    if items.len() == 0 {
        seq![]
    } else {
        let entry = registry.entry(items.last());
        metric_rows(registry, items.drop_last()) + interval_rows(
            entry.profile,
            slot_view(entry.slot),
        )
    }
}

/// What some metrics add up to, by aggregate output.
pub open spec fn metric_sums(registry: RegistryView, items: Seq<ItemPtr>) -> AggregateMap
    decreases items.len(),
{
    if items.len() == 0 {
        AggregateMap::empty()
    } else {
        let entry = registry.entry(items.last());
        interval_sums(
            metric_sums(registry, items.drop_last()),
            entry.profile,
            slot_view(entry.slot),
        )
    }
}

/// A registry whose counters are reset for some metrics.
pub open spec fn drained(registry: RegistryView, items: Seq<ItemPtr>) -> RegistryView
    decreases items.len(),
{
    if items.len() == 0 {
        registry
    } else {
        drained(registry, items.drop_last()).with_slot(items.last(), empty_slot())
    }
}

/// Rows as they stand in the log. `average` is how the average of an elapsed time over a number
/// of operations is written.
pub open spec fn row_entries(
    timestamp: Seq<char>,
    rows: Seq<RowView>,
    average: spec_fn(u64, u64) -> Seq<char>,
) -> Seq<Seq<u8>> {
    Seq::new(
        rows.len(),
        |i: int|
            row_bytes(
                timestamp,
                rows[i],
                average(rows[i].snapshot.elapsed_ns, rows[i].snapshot.total),
            ),
    )
}

/// States as they stand in the log.
pub open spec fn state_entries(timestamp: Seq<char>, states: Seq<StateView>) -> Seq<Seq<u8>> {
    Seq::new(states.len(), |i: int| state_entry_bytes(timestamp, states[i]))
}

/// The entries of an interval that started with `registry`: the rows of every metric that counted
/// something, the aggregates, the states, and the baseline row.
pub open spec fn interval_entries(
    registry: RegistryView,
    timestamp: Seq<char>,
    average: spec_fn(u64, u64) -> Seq<char>,
) -> Seq<Seq<u8>> {
    let items = all_items(registry.shards);
    row_entries(timestamp, metric_rows(registry, items), average) + row_entries(
        timestamp,
        sorted_rows(metric_sums(registry, items)),
        average,
    ) + state_entries(timestamp, sorted_states(registry.states)) + seq![
        baseline_entry_bytes(timestamp),
    ]
}

/// One step of an interval, with what was asked for before the next one: `average` writes
/// averages, and a flush succeeds or fails.
pub open spec fn interval_move(
    before: (IntervalView, RegistryView),
    after: (IntervalView, RegistryView),
    average: spec_fn(u64, u64) -> Seq<char>,
) -> bool {
    match next_step(before.0) {
        IntervalStep::Flush => {
            &&& after.0 == before.0.after_flush(true) || after.0 == before.0.after_flush(false)
            &&& after.1 == before.1
        },
        IntervalStep::Average { elapsed_ns, total } => {
            &&& after.0 == before.0.after_average(average(elapsed_ns, total))
            &&& after.1 == before.1
        },
        IntervalStep::Continue => phase_advanced(before.0, after.0, before.1, after.1),
        IntervalStep::Done => false,
    }
}

/// A run of an interval from its start, with nothing else changing the registry.
pub open spec fn interval_run(
    run: Seq<(IntervalView, RegistryView)>,
    timestamp: Seq<char>,
    average: spec_fn(u64, u64) -> Seq<char>,
) -> bool {
    &&& run.len() > 0
    &&& run[0].0 == interval_start(run[0].1, timestamp)
    &&& forall|i: int, j: int|
        0 <= i && j == i + 1 && j < run.len() ==> interval_move(
            #[trigger] run[i],
            #[trigger] run[j],
            average,
        )
}

proof fn lemma_drained(registry: RegistryView, items: Seq<ItemPtr>, other: ItemPtr)
    requires
        forall|i: int| 0 <= i < items.len() ==> registry.holds(#[trigger] items[i]),
        registry.holds(other),
    ensures
        drained(registry, items).holds(other),
        drained(registry, items).entry(other).profile == registry.entry(other).profile,
        drained(registry, items).entry(other).slot == if items.contains(other) {
            empty_slot()
        } else {
            registry.entry(other).slot
        },
        drained(registry, items).states == registry.states,
    decreases items.len(),
{
    if items.len() > 0 {
        let rest = items.drop_last();
        assert forall|i: int| 0 <= i < rest.len() implies registry.holds(#[trigger] rest[i]) by {
            assert(rest[i] == items[i]);
        }
        lemma_drained(registry, rest, other);
        lemma_drained(registry, rest, items.last());
        if items.contains(other) && other != items.last() {
            let at = choose|i: int| 0 <= i < items.len() && items[i] == other;
            assert(rest[at] == other);
        }
        if rest.contains(other) {
            let at = choose|i: int| 0 <= i < rest.len() && rest[i] == other;
            assert(items[at] == other);
        }
        assert(items[items.len() - 1] == items.last());
    }
}

/// What has been done when an interval stands at `now`, as long as no write failed.
spec fn so_far(
    first: RegistryView,
    now: (IntervalView, RegistryView),
    timestamp: Seq<char>,
    average: spec_fn(u64, u64) -> Seq<char>,
) -> bool {
    let all = all_items(first.shards);
    let n = all.len() - now.0.items.len();
    let done = all.take(n);
    let entries = now.0.writer.entries;
    let metrics = row_entries(timestamp, metric_rows(first, done), average);
    let sums = row_entries(timestamp, sorted_rows(metric_sums(first, all)), average);
    let states = state_entries(timestamp, sorted_states(first.states));
    let pending = row_entries(timestamp, now.0.rows, average);
    &&& n >= 0
    &&& now.0.items == all.skip(n)
    &&& now.1 == drained(first, done)
    &&& now.0.phase != IntervalPhase::Metrics ==> now.0.items.len() == 0
    &&& match now.0.phase {
        IntervalPhase::Metrics => {
            &&& entries + pending == metrics
            &&& now.0.writer.sums == metric_sums(first, done)
        },
        IntervalPhase::Aggregates => {
            &&& now.0.rows.len() == 0
            &&& entries == metrics
            &&& now.0.writer.sums == metric_sums(first, done)
        },
        IntervalPhase::CollectStates => entries + pending == metrics + sums,
        IntervalPhase::States => {
            &&& now.0.rows.len() == 0
            &&& entries + state_entries(timestamp, now.0.states) == metrics + sums + states
        },
        IntervalPhase::Baseline => {
            &&& now.0.rows.len() == 0
            &&& entries == metrics + sums + states
        },
        IntervalPhase::Finish => {
            &&& now.0.rows.len() == 0
            &&& entries == interval_entries(first, timestamp, average)
        },
    }
}

proof fn lemma_metrics_step(
    first: RegistryView,
    before: (IntervalView, RegistryView),
    after: (IntervalView, RegistryView),
    timestamp: Seq<char>,
    average: spec_fn(u64, u64) -> Seq<char>,
)
    requires
        total_len(first.shards) <= usize::MAX,
        first.shards.len() <= usize::MAX,
        so_far(first, before, timestamp, average),
        before.0.writer.timestamp == timestamp,
        !before.0.writer.failed,
        before.0.phase == IntervalPhase::Metrics,
        before.0.rows.len() == 0,
        phase_advanced(before.0, after.0, before.1, after.1),
    ensures
        so_far(first, after, timestamp, average),
{
    let all = all_items(first.shards);
    let n = all.len() - before.0.items.len();
    let pending = row_entries(timestamp, before.0.rows, average);
    assert(before.0.writer.entries + pending =~= before.0.writer.entries);
    if before.0.items.len() > 0 {
        let item = before.0.items[0];
        assert(item == all[n]);
        assert forall|i: int| 0 <= i < all.len() implies first.holds(#[trigger] all[i]) by {
            crate::laws::law_items_list_each_metric_once(first.shards, all[i]);
        }
        crate::laws::law_items_list_each_metric_once(first.shards, item);
        assert(!all.take(n).contains(item)) by {
            if all.take(n).contains(item) {
                let at = choose|i: int| 0 <= i < n && all.take(n)[i] == item;
                assert(all[at] == all[n]);
            }
        }
        lemma_drained(first, all.take(n), item);
        let entry = first.entry(item);
        assert(before.1.entry(item) == entry);
        assert(all.take(n + 1).drop_last() =~= all.take(n));
        assert(after.0.items =~= all.skip(n + 1));
        let rows = metric_rows(first, all.take(n));
        let more = interval_rows(entry.profile, slot_view(entry.slot));
        assert(row_entries(timestamp, rows, average) + row_entries(timestamp, more, average)
            =~= row_entries(timestamp, rows + more, average));
    }
}

proof fn lemma_average_step(
    first: RegistryView,
    before: (IntervalView, RegistryView),
    after: (IntervalView, RegistryView),
    timestamp: Seq<char>,
    average: spec_fn(u64, u64) -> Seq<char>,
)
    requires
        so_far(first, before, timestamp, average),
        before.0.writer.timestamp == timestamp,
        before.0.rows.len() > 0,
        after.1 == before.1,
        after.0 == before.0.after_average(
            average(before.0.rows[0].snapshot.elapsed_ns, before.0.rows[0].snapshot.total),
        ),
    ensures
        so_far(first, after, timestamp, average),
{
    assert(after.0.writer.entries + row_entries(timestamp, after.0.rows, average)
        =~= before.0.writer.entries + row_entries(timestamp, before.0.rows, average));
}

proof fn lemma_later_step(
    first: RegistryView,
    before: (IntervalView, RegistryView),
    after: (IntervalView, RegistryView),
    timestamp: Seq<char>,
    average: spec_fn(u64, u64) -> Seq<char>,
)
    requires
        total_len(first.shards) <= usize::MAX,
        first.shards.len() <= usize::MAX,
        so_far(first, before, timestamp, average),
        before.0.writer.timestamp == timestamp,
        !before.0.writer.failed,
        before.0.phase != IntervalPhase::Metrics,
        before.0.rows.len() == 0,
        phase_advanced(before.0, after.0, before.1, after.1),
    ensures
        so_far(first, after, timestamp, average),
{
    let all = all_items(first.shards);
    assert(all.take(all.len() as int) =~= all);
    let entries = before.0.writer.entries;
    assert(entries + row_entries(timestamp, before.0.rows, average) =~= entries);
    match before.0.phase {
        IntervalPhase::Aggregates => {
            let sums = metric_sums(first, all);
            assert(rows_map(after.0.rows) == sums);
            law_sorted_rows_are_unique(after.0.rows, sorted_rows(sums));
        },
        IntervalPhase::CollectStates => {
            assert(before.1.states == first.states) by {
                lemma_drained_states(first, all);
            }
            assert(states_map(after.0.states) == first.states);
            law_sorted_states_are_unique(after.0.states, sorted_states(first.states));
        },
        IntervalPhase::States => {
            if before.0.states.len() == 0 {
                assert(entries + state_entries(timestamp, before.0.states) =~= entries);
            } else {
                assert(after.0.writer.entries + state_entries(timestamp, after.0.states)
                    =~= entries + state_entries(timestamp, before.0.states));
            }
        },
        IntervalPhase::Baseline => {
            assert(after.0.writer.entries =~= interval_entries(first, timestamp, average));
        },
        _ => {},
    }
}

proof fn lemma_drained_states(registry: RegistryView, items: Seq<ItemPtr>)
    ensures
        drained(registry, items).states == registry.states,
    decreases items.len(),
{
    if items.len() > 0 {
        lemma_drained_states(registry, items.drop_last());
    }
}

proof fn lemma_move(
    first: RegistryView,
    before: (IntervalView, RegistryView),
    after: (IntervalView, RegistryView),
    timestamp: Seq<char>,
    average: spec_fn(u64, u64) -> Seq<char>,
)
    requires
        total_len(first.shards) <= usize::MAX,
        first.shards.len() <= usize::MAX,
        before.0.writer.timestamp == timestamp,
        before.0.writer.lossless(),
        !before.0.writer.failed ==> so_far(first, before, timestamp, average),
        interval_move(before, after, average),
    ensures
        after.0.writer.timestamp == timestamp,
        after.0.writer.lossless(),
        before.0.writer.failed ==> after.0.writer.failed,
        !after.0.writer.failed ==> so_far(first, after, timestamp, average),
{
    let writer = before.0.writer;
    match next_step(before.0) {
        IntervalStep::Flush => {
            assert(writer.after_flush(true).written + writer.after_flush(true).buffer
                =~= writer.written + writer.buffer);
        },
        IntervalStep::Average { elapsed_ns, total } => {
            writer.lemma_with_entry(
                row_bytes(timestamp, before.0.rows[0], average(elapsed_ns, total)),
            );
            if !writer.failed {
                lemma_average_step(first, before, after, timestamp, average);
            }
        },
        IntervalStep::Continue => {
            if before.0.phase == IntervalPhase::States && before.0.states.len() > 0 {
                writer.lemma_with_entry(state_entry_bytes(timestamp, before.0.states[0]));
            }
            writer.lemma_with_entry(baseline_entry_bytes(timestamp));
            if !writer.failed {
                if before.0.phase == IntervalPhase::Metrics {
                    lemma_metrics_step(first, before, after, timestamp, average);
                } else {
                    lemma_later_step(first, before, after, timestamp, average);
                }
            }
        },
        IntervalStep::Done => {},
    }
}

proof fn lemma_run(
    run: Seq<(IntervalView, RegistryView)>,
    timestamp: Seq<char>,
    average: spec_fn(u64, u64) -> Seq<char>,
)
    requires
        total_len(run[0].1.shards) <= usize::MAX,
        run[0].1.shards.len() <= usize::MAX,
        interval_run(run, timestamp, average),
    ensures
        run.last().0.writer.timestamp == timestamp,
        run.last().0.writer.lossless(),
        !run.last().0.writer.failed ==> so_far(run[0].1, run.last(), timestamp, average),
    decreases run.len(),
{
    let first = run[0].1;
    if run.len() == 1 {
        let all = all_items(first.shards);
        let writer = run[0].0.writer;
        assert(all.skip(0) =~= all);
        assert(all.take(0).len() == 0);
        assert(writer.written + writer.buffer =~= joined(writer.entries));
        assert(writer.entries + row_entries(timestamp, run[0].0.rows, average) =~= row_entries(
            timestamp,
            metric_rows(first, all.take(0)),
            average,
        ));
    } else {
        let rest = run.drop_last();
        assert forall|i: int, j: int| 0 <= i && j == i + 1 && j < rest.len() implies interval_move(
            #[trigger] rest[i],
            #[trigger] rest[j],
            average,
        ) by {
            assert(interval_move(run[i], run[j], average));
        }
        lemma_run(rest, timestamp, average);
        assert(rest.last() == run[run.len() - 2]);
        assert(interval_move(run[run.len() - 2], run[run.len() - 1], average));
        lemma_move(first, rest.last(), run.last(), timestamp, average);
    }
}

/// An interval that comes to its end without a failed write has written, in this order and
/// nothing else: the rows of every metric that counted something, the aggregates sorted by type
/// and name, the states sorted by type and name, and the baseline row. Every metric was drained.
pub proof fn law_interval_writes_the_whole_log(
    run: Seq<(IntervalView, RegistryView)>,
    timestamp: Seq<char>,
    average: spec_fn(u64, u64) -> Seq<char>,
)
    requires
        total_len(run[0].1.shards) <= usize::MAX,
        run[0].1.shards.len() <= usize::MAX,
        interval_run(run, timestamp, average),
        next_step(run.last().0) is Done,
        !run.last().0.writer.failed,
    ensures
        run.last().0.writer.written == joined(interval_entries(run[0].1, timestamp, average)),
        run.last().1 == drained(run[0].1, all_items(run[0].1.shards)),
{
    lemma_run(run, timestamp, average);
    let all = all_items(run[0].1.shards);
    assert(all.take(all.len() as int) =~= all);
    let writer = run.last().0.writer;
    assert(writer.written + writer.buffer =~= writer.written);
}

/// Draining every metric resets every counter and leaves everything else as it was.
pub proof fn law_draining_all_resets_every_counter(registry: RegistryView, item: ItemPtr)
    requires
        total_len(registry.shards) <= usize::MAX,
        registry.shards.len() <= usize::MAX,
        registry.holds(item),
    ensures
        ({
            let after = drained(registry, all_items(registry.shards));
            &&& after.holds(item)
            &&& after.entry(item).slot == empty_slot()
            &&& after.entry(item).profile == registry.entry(item).profile
            &&& after.states == registry.states
        }),
{
    let all = all_items(registry.shards);
    assert forall|i: int| 0 <= i < all.len() implies registry.holds(#[trigger] all[i]) by {
        crate::laws::law_items_list_each_metric_once(registry.shards, all[i]);
    }
    crate::laws::law_items_list_each_metric_once(registry.shards, item);
    lemma_drained(registry, all, item);
}

/// Once a write failed, the interval drains no further metric and writes nothing more: what the
/// remaining metrics counted stays for the next interval.
pub proof fn law_failed_write_keeps_the_counters(
    before: (IntervalView, RegistryView),
    after: (IntervalView, RegistryView),
    average: spec_fn(u64, u64) -> Seq<char>,
)
    requires
        before.0.writer.failed,
        interval_move(before, after, average),
    ensures
        after.0.writer.failed,
        after.1 == before.1,
        after.0.writer.written == before.0.writer.written,
{
}

/// The phases that are still to come.
pub open spec fn phases_left(interval: IntervalView) -> nat {
    match interval.phase {
        IntervalPhase::Metrics => 5,
        IntervalPhase::Aggregates => 4,
        IntervalPhase::CollectStates => 3,
        IntervalPhase::States => 2,
        IntervalPhase::Baseline => 1,
        IntervalPhase::Finish => 0,
    }
}

/// The metrics and states that are still to come.
pub open spec fn work_left(interval: IntervalView) -> nat {
    interval.items.len() + interval.states.len()
}

/// One if something waits to be written, zero otherwise.
pub open spec fn flushes_left(interval: IntervalView) -> nat {
    if interval.writer.flush_left() {
        1
    } else {
        0
    }
}

/// Every step brings an interval closer to its end, so it ends however often writing fails.
pub proof fn law_interval_ends(
    before: (IntervalView, RegistryView),
    after: (IntervalView, RegistryView),
    average: spec_fn(u64, u64) -> Seq<char>,
)
    requires
        interval_move(before, after, average),
    ensures
        decreases_to!(
            phases_left(before.0), work_left(before.0), before.0.rows.len(), flushes_left(before.0)
            => phases_left(after.0), work_left(after.0), after.0.rows.len(), flushes_left(after.0)
        ),
{
}

/// The aggregate output that a metric adds to, if it adds to one.
pub open spec fn aggregate_of(profile: ProfileView) -> Option<OutputView> {
    match profile {
        ProfileView::Single { .. } => None,
        ProfileView::Fanout(plan) => plan.aggregate,
    }
}

/// What the metrics with the aggregate `output` counted, in order, each with its policy and
/// format. A metric without events adds nothing.
pub open spec fn aggregate_parts(
    registry: RegistryView,
    items: Seq<ItemPtr>,
    output: OutputView,
) -> Seq<AggregateSum>
    decreases items.len(),
{
    if items.len() == 0 {
        seq![]
    } else {
        let rest = aggregate_parts(registry, items.drop_last(), output);
        let entry = registry.entry(items.last());
        let snapshot = slot_view(entry.slot);
        match entry.profile {
            ProfileView::Fanout(plan) => if snapshot.total != 0 && plan.aggregate == Some(
                output,
            ) {
                rest.push(AggregateSum { policy: plan.policy, format: plan.format, snapshot })
            } else {
                rest
            },
            ProfileView::Single { .. } => rest,
        }
    }
}

/// The snapshots of a sequence of parts.
pub open spec fn part_snapshots(parts: Seq<AggregateSum>) -> Seq<SnapshotView> {
    Seq::new(parts.len(), |i: int| parts[i].snapshot)
}

/// There is one sum for each type and name, whatever the policies and formats of the metrics that
/// add to it are. It is the merge of what all of them counted, it is there exactly if one of them
/// counted something, and it is shown with the policy and the format of the first that did.
pub proof fn law_aggregate_merges_its_metrics(
    registry: RegistryView,
    items: Seq<ItemPtr>,
    output: OutputView,
)
    ensures
        ({
            let sums = metric_sums(registry, items);
            let parts = aggregate_parts(registry, items, output);
            &&& sums.contains_key(output) <==> parts.len() > 0
            &&& parts.len() > 0 ==> sums[output] == AggregateSum {
                policy: parts[0].policy,
                format: parts[0].format,
                snapshot: merged_all(part_snapshots(parts)),
            }
        }),
    decreases items.len(),
{
    if items.len() > 0 {
        law_aggregate_merges_its_metrics(registry, items.drop_last(), output);
        let entry = registry.entry(items.last());
        let snapshot = slot_view(entry.slot);
        if snapshot.total != 0 && aggregate_of(entry.profile) == Some(output) {
            let parts = aggregate_parts(registry, items, output);
            let rest = aggregate_parts(registry, items.drop_last(), output);
            assert(part_snapshots(parts).drop_last() =~= part_snapshots(rest));
            assert(rest.len() == 0 ==> merged_all(part_snapshots(rest)) == empty_snapshot());
        }
    }
}

/// A metric adds to no other sum than that of its aggregate output.
pub proof fn law_other_sums_stay(
    sums: AggregateMap,
    profile: ProfileView,
    snapshot: SnapshotView,
    output: OutputView,
)
    requires
        aggregate_of(profile) != Some(output),
    ensures
        interval_sums(sums, profile, snapshot).contains_key(output) == sums.contains_key(output),
        sums.contains_key(output) ==> interval_sums(sums, profile, snapshot)[output]
            == sums[output],
{
}

proof fn lemma_metric_is_written(registry: RegistryView, items: Seq<ItemPtr>, n: int) -> (at: int)
    requires
        0 <= n < items.len(),
    ensures
        ({
            let entry = registry.entry(items[n]);
            let rows = interval_rows(entry.profile, slot_view(entry.slot));
            &&& 0 <= at
            &&& at + rows.len() <= metric_rows(registry, items).len()
            &&& metric_rows(registry, items).subrange(at, at + rows.len()) == rows
        }),
    decreases items.len(),
{
    let entry = registry.entry(items[n]);
    let rows = interval_rows(entry.profile, slot_view(entry.slot));
    let earlier = metric_rows(registry, items.drop_last());
    if n == items.len() - 1 {
        let at = earlier.len() as int;
        assert(metric_rows(registry, items).subrange(at, at + rows.len()) =~= rows);
        at
    } else {
        let at = lemma_metric_is_written(registry, items.drop_last(), n);
        assert(metric_rows(registry, items).subrange(at, at + rows.len()) =~= earlier.subrange(
            at,
            at + rows.len(),
        ));
        at
    }
}

/// Every registered metric that counted something has its rows in the interval, one directly
/// behind the other.
pub proof fn law_active_metric_is_written(registry: RegistryView, item: ItemPtr) -> (at: int)
    requires
        total_len(registry.shards) <= usize::MAX,
        registry.shards.len() <= usize::MAX,
        registry.holds(item),
        slot_view(registry.entry(item).slot).total != 0,
    ensures
        ({
            let all = metric_rows(registry, all_items(registry.shards));
            let entry = registry.entry(item);
            let rows = direct_rows(entry.profile, slot_view(entry.slot));
            &&& 0 <= at
            &&& at + rows.len() <= all.len()
            &&& all.subrange(at, at + rows.len()) == rows
        }),
{
    let items = all_items(registry.shards);
    crate::laws::law_items_list_each_metric_once(registry.shards, item);
    let n = choose|i: int| 0 <= i < items.len() && items[i] == item;
    lemma_metric_is_written(registry, items, n)
}

/// A metric that counted nothing has no row and adds to no aggregate.
pub proof fn law_idle_metric_is_not_written(
    profile: ProfileView,
    snapshot: SnapshotView,
    sums: AggregateMap,
)
    requires
        snapshot.total == 0,
    ensures
        interval_rows(profile, snapshot).len() == 0,
        interval_sums(sums, profile, snapshot) == sums,
{
}

/// Every entry of an interval is one line, whatever the names, keys and values in it are.
pub proof fn law_every_entry_is_one_line(
    registry: RegistryView,
    timestamp: Seq<char>,
    average: spec_fn(u64, u64) -> Seq<char>,
    i: int,
)
    requires
        printable_text(timestamp),
        forall|elapsed_ns: u64, total: u64|
            printable_text(#[trigger] average(elapsed_ns, total)),
        0 <= i < interval_entries(registry, timestamp, average).len(),
    ensures
        one_line(interval_entries(registry, timestamp, average)[i]),
{
    let items = all_items(registry.shards);
    let direct = metric_rows(registry, items);
    let sums = sorted_rows(metric_sums(registry, items));
    let states = sorted_states(registry.states);
    let entry = interval_entries(registry, timestamp, average)[i];
    if i < direct.len() + sums.len() {
        let row = if i < direct.len() {
            direct[i]
        } else {
            sums[i - direct.len()]
        };
        let text = average(row.snapshot.elapsed_ns, row.snapshot.total);
        assert(entry == row_bytes(timestamp, row, text));
        reveal(row_bytes);
        crate::entry::law_profile_entry_is_one_line(
            timestamp,
            row.output.metric_type,
            row.output.name,
            slow_threshold_ms(row.policy),
            row.format,
            row.snapshot,
            text,
        );
    } else if i < direct.len() + sums.len() + states.len() {
        let state = states[i - direct.len() - sums.len()];
        assert(entry == state_entry_bytes(timestamp, state));
        crate::entry::law_state_entry_is_one_line(timestamp, state);
    } else {
        crate::entry::law_baseline_entry_is_one_line(timestamp);
    }
}

/// The rows that a metric with events gets in an interval: for a metric of a type one, under the
/// profile type of its own type; for a plan one for each of its outputs, with the type and the name
/// of that output. Every one of them holds the snapshot that was drained.
pub proof fn law_every_output_gets_the_drained_snapshot(
    profile: ProfileView,
    snapshot: SnapshotView,
    rows: Seq<ProfileRow>,
)
    requires
        row_views(rows) == interval_rows(profile, snapshot),
    ensures
        snapshot.total == 0 ==> rows.len() == 0,
        snapshot.total != 0 ==> (profile matches ProfileView::Single { name, kind } ==> {
            &&& rows.len() == 1
            &&& rows[0].metric_type@ == label_of(kind)
            &&& rows[0].name@ == name
            &&& rows[0].policy == policy_of(kind)
            &&& rows[0].format == format_of(kind)
        }),
        snapshot.total != 0 ==> (profile matches ProfileView::Fanout(plan) ==> {
            &&& rows.len() == plan.outputs.len()
            &&& forall|i: int|
                0 <= i < rows.len() ==> {
                    &&& (#[trigger] rows[i]).metric_type@ == plan.outputs[i].metric_type
                    &&& rows[i].name@ == plan.outputs[i].name
                    &&& rows[i].policy == plan.policy
                    &&& rows[i].format == plan.format
                }
        }),
        forall|i: int|
            0 <= i < rows.len() ==> (#[trigger] rows[i]).snapshot@ == snapshot
                && rows[i].snapshot.total != 0,
{
    assert(row_views(rows).len() == rows.len());
    assert forall|i: int| 0 <= i < rows.len() implies (#[trigger] rows[i])@ == interval_rows(
        profile,
        snapshot,
    )[i] by {
        assert(row_views(rows)[i] == rows[i]@);
    }
    if snapshot.total != 0 {
        match profile {
            ProfileView::Single { name, kind } => {
                assert(rows[0]@ == interval_rows(profile, snapshot)[0]);
            },
            ProfileView::Fanout(plan) => {},
        }
    }
}

/// Whether a row of an interval has the given type, name, policy and format, and the counters of a
/// slot.
pub open spec fn row_shows(
    row: RowView,
    metric_type: Seq<char>,
    name: Seq<char>,
    policy: MetricPolicy,
    format: ProfileFormat,
    slot: Slot,
) -> bool {
    &&& row.output.metric_type == metric_type
    &&& row.output.name == name
    &&& row.policy == policy
    &&& row.format == format
    &&& row.snapshot.failure == slot.failure
    &&& row.snapshot.elapsed_ns == slot.elapsed_ns
    &&& row.snapshot.slow == slot.slow
    &&& row.snapshot.intervals == seq![
        slot.interval1,
        slot.interval2,
        slot.interval3,
        slot.interval4,
        slot.interval5,
    ]
    &&& row.snapshot.total == (slot.interval1 + slot.interval2 + slot.interval3 + slot.interval4
        + slot.interval5) % 0x1_0000_0000_0000_0000
    &&& row.snapshot.failure <= row.snapshot.total ==> row.snapshot.success + row.snapshot.failure
        == row.snapshot.total
}

/// Whether some row of an interval has the given type, name, policy and format, and the counters of
/// a slot.
pub open spec fn row_stands(
    rows: Seq<RowView>,
    metric_type: Seq<char>,
    name: Seq<char>,
    policy: MetricPolicy,
    format: ProfileFormat,
    slot: Slot,
) -> bool {
    exists|i: int|
        0 <= i < rows.len() && row_shows(
            #[trigger] rows[i],
            metric_type,
            name,
            policy,
            format,
            slot,
        )
}

/// Every metric that counted something stands in the interval with its own type and name, and every
/// output of a plan that did with the type and the name of that output, each with the counters of
/// the slot.
pub proof fn law_every_active_output_has_a_row(registry: RegistryView, item: ItemPtr)
    requires
        total_len(registry.shards) <= usize::MAX,
        registry.shards.len() <= usize::MAX,
        registry.holds(item),
        slot_view(registry.entry(item).slot).total != 0,
    ensures
        registry.entry(item).profile matches ProfileView::Single { name, kind } ==> row_stands(
            metric_rows(registry, all_items(registry.shards)),
            label_of(kind),
            name,
            policy_of(kind),
            format_of(kind),
            registry.entry(item).slot,
        ),
        registry.entry(item).profile matches ProfileView::Fanout(plan) ==> forall|j: int|
            0 <= j < plan.outputs.len() ==> row_stands(
                metric_rows(registry, all_items(registry.shards)),
                (#[trigger] plan.outputs[j]).metric_type,
                plan.outputs[j].name,
                plan.policy,
                plan.format,
                registry.entry(item).slot,
            ),
{
    reveal(crate::metric::wrap);
    let all = metric_rows(registry, all_items(registry.shards));
    let entry = registry.entry(item);
    let rows = direct_rows(entry.profile, slot_view(entry.slot));
    let at = law_active_metric_is_written(registry, item);
    assert forall|k: int| 0 <= k < rows.len() implies all[at + k] == #[trigger] rows[k] by {
        assert(all.subrange(at, at + rows.len())[k] == rows[k]);
    }
    match entry.profile {
        ProfileView::Single { name, kind } => {
            assert(all[at + 0] == rows[0]);
            assert(row_shows(
                all[at],
                label_of(kind),
                name,
                policy_of(kind),
                format_of(kind),
                entry.slot,
            ));
        },
        ProfileView::Fanout(plan) => {
            assert forall|j: int| 0 <= j < plan.outputs.len() implies row_stands(
                all,
                (#[trigger] plan.outputs[j]).metric_type,
                plan.outputs[j].name,
                plan.policy,
                plan.format,
                entry.slot,
            ) by {
                assert(all[at + j] == rows[j]);
                assert(row_shows(
                    all[at + j],
                    plan.outputs[j].metric_type,
                    plan.outputs[j].name,
                    plan.policy,
                    plan.format,
                    entry.slot,
                ));
            }
        },
    }
}

/// No row of a metric has a total of zero, and each holds what one of the metrics counted.
pub proof fn law_no_row_is_empty(registry: RegistryView, items: Seq<ItemPtr>, i: int) -> (n: int)
    requires
        0 <= i < metric_rows(registry, items).len(),
    ensures
        metric_rows(registry, items)[i].snapshot.total != 0,
        0 <= n < items.len(),
        metric_rows(registry, items)[i].snapshot == slot_view(registry.entry(items[n]).slot),
    decreases items.len(),
{
    let earlier = metric_rows(registry, items.drop_last());
    if i < earlier.len() {
        law_no_row_is_empty(registry, items.drop_last(), i)
    } else {
        items.len() - 1
    }
}

/// The log of an interval is made of the rows of metrics, one entry for each, then of one entry for
/// each aggregate, then of one for each state, and last of the baseline. Each entry is the row, the
/// aggregate or the state in its place.
pub proof fn law_log_holds_every_entry_in_its_place(
    registry: RegistryView,
    timestamp: Seq<char>,
    average: spec_fn(u64, u64) -> Seq<char>,
    aggregates: Seq<RowView>,
    states: Seq<StateView>,
)
    requires
        rows_sorted(aggregates),
        rows_map(aggregates) == metric_sums(registry, all_items(registry.shards)),
        states_sorted(states),
        states_map(states) == registry.states,
    ensures
        ({
            let rows = metric_rows(registry, all_items(registry.shards));
            let entries = interval_entries(registry, timestamp, average);
            let n = rows.len() as int;
            let m = aggregates.len() as int;
            &&& entries.len() == n + m + states.len() + 1
            &&& forall|i: int|
                0 <= i < n ==> #[trigger] entries[i] == row_bytes(
                    timestamp,
                    rows[i],
                    average(rows[i].snapshot.elapsed_ns, rows[i].snapshot.total),
                )
            &&& forall|i: int|
                0 <= i < m ==> #[trigger] entries[n + i] == row_bytes(
                    timestamp,
                    aggregates[i],
                    average(aggregates[i].snapshot.elapsed_ns, aggregates[i].snapshot.total),
                )
            &&& forall|i: int|
                0 <= i < states.len() ==> #[trigger] entries[n + m + i] == state_entry_bytes(
                    timestamp,
                    states[i],
                )
            &&& entries.last() == baseline_entry_bytes(timestamp)
        }),
{
    law_sorted_rows_are_unique(
        aggregates,
        sorted_rows(metric_sums(registry, all_items(registry.shards))),
    );
    law_sorted_states_are_unique(states, sorted_states(registry.states));
}

/// Rows of sums hold every sum once, under its own type and name, and nothing else.
pub proof fn law_rows_hold_every_sum(rows: Seq<ProfileRow>, sums: AggregateMap, output: OutputView)
    requires
        rows_sorted(row_views(rows)),
        rows_map(row_views(rows)) == sums,
    ensures
        sums.contains_key(output) <==> exists|i: int|
            0 <= i < rows.len() && (#[trigger] rows[i]).metric_type@ == output.metric_type
                && rows[i].name@ == output.name,
        forall|i: int|
            0 <= i < rows.len() && (#[trigger] rows[i]).metric_type@ == output.metric_type
                && rows[i].name@ == output.name ==> {
                &&& rows[i].snapshot@ == sums[output].snapshot
                &&& rows[i].policy == sums[output].policy
                &&& rows[i].format == sums[output].format
            },
{
    let views = row_views(rows);
    let pairs = row_pairs(views);
    lemma_rows_distinct(views);
    if sums.contains_key(output) {
        assert(has_key(pairs, output));
        let i = key_index(pairs, output);
        assert(views[i].output == output);
        assert(rows[i].metric_type@ == output.metric_type && rows[i].name@ == output.name);
    }
    assert forall|i: int|
        0 <= i < rows.len() && (#[trigger] rows[i]).metric_type@ == output.metric_type
            && rows[i].name@ == output.name implies pairs[i].0 == output && sums.contains_key(output)
        && sums[output] == pairs[i].1 by {
        assert(views[i].output =~= output);
        lemma_assoc_entry(pairs, i);
    }
}

/// Rows of sums stand in the order of their types, and those of one type in the order of their
/// names.
pub proof fn law_rows_follow_type_and_name(rows: Seq<ProfileRow>, i: int, j: int)
    requires
        rows_sorted(row_views(rows)),
        0 <= i < j < rows.len(),
    ensures
        rows[i].metric_type@ != rows[j].metric_type@ ==> text_before(
            rows[i].metric_type@,
            rows[j].metric_type@,
        ),
        rows[i].metric_type@ == rows[j].metric_type@ ==> text_before(rows[i].name@, rows[j].name@),
{
    let views = row_views(rows);
    assert(row_before(views[i].output, views[j].output));
}

/// A buffer is written as soon as it holds 1048576 bytes, and at the end if it holds anything; once
/// a write failed, it is not written any more. After a write it is empty, whether that succeeded or
/// not, and what was written is what was in it.
pub proof fn law_buffer_is_written_when_full(writer: WriterView, success: bool)
    ensures
        writer.flush_due() <==> !writer.failed && writer.buffer.len() >= 1048576,
        writer.flush_left() <==> !writer.failed && writer.buffer.len() != 0,
        writer.after_flush(success).buffer.len() == 0,
        writer.after_flush(success).failed == !success,
        success ==> writer.after_flush(success).written == writer.written + writer.buffer,
        !success ==> writer.after_flush(success).written == writer.written,
        writer.after_flush(success).entries == writer.entries,
        writer.after_flush(success).sums == writer.sums,
        writer.after_flush(success).timestamp == writer.timestamp,
{
}

/// An entry is added to the end of the buffer, and nothing that was there changes. Entries in a row
/// are what they are one after the other.
pub proof fn law_entries_follow_each_other(writer: WriterView, entry: Seq<u8>)
    ensures
        writer.with_entry(entry).buffer.len() == writer.buffer.len() + entry.len(),
        writer.with_entry(entry).buffer.take(writer.buffer.len() as int) == writer.buffer,
        writer.with_entry(entry).buffer.skip(writer.buffer.len() as int) == entry,
        writer.with_entry(entry).entries == writer.entries.push(entry),
        writer.with_entry(entry).written == writer.written,
        writer.with_entry(entry).failed == writer.failed,
        joined(writer.entries.push(entry)).take(joined(writer.entries).len() as int) == joined(
            writer.entries,
        ),
        joined(writer.entries.push(entry)).skip(joined(writer.entries).len() as int) == entry,
        joined(seq![]).len() == 0,
{
    let more = writer.entries.push(entry);
    assert(more.drop_last() =~= writer.entries);
    let (a, b) = (writer.buffer, joined(writer.entries));
    assert((a + entry).take(a.len() as int) =~= a);
    assert((a + entry).skip(a.len() as int) =~= entry);
    assert((b + entry).take(b.len() as int) =~= b);
    assert((b + entry).skip(b.len() as int) =~= entry);
}

/// The next step of an interval: a write as soon as the buffer holds 1048576 bytes; otherwise the
/// average of the next row, with that row's own time and number of operations; and the end only
/// when every row was rendered, the last phase was reached, and nothing is left to be written.
pub proof fn law_step_asks_for_what_comes_next(interval: IntervalView)
    ensures
        ({
            let step = next_step(interval);
            let full = !interval.writer.failed && interval.writer.buffer.len() >= 1048576;
            &&& full ==> step is Flush
            &&& !full && interval.rows.len() > 0 ==> step == IntervalStep::Average {
                elapsed_ns: interval.rows[0].snapshot.elapsed_ns,
                total: interval.rows[0].snapshot.total,
            }
            &&& step is Average ==> interval.rows.len() > 0
            &&& step is Flush ==> !interval.writer.failed && interval.writer.buffer.len() > 0
            &&& step is Done ==> {
                &&& interval.phase == IntervalPhase::Finish
                &&& interval.rows.len() == 0
                &&& interval.writer.failed || interval.writer.buffer.len() == 0
            }
            &&& step is Continue ==> interval.phase != IntervalPhase::Finish && interval.rows.len()
                == 0
        }),
{
}

} // verus!
