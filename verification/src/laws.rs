//! What holds across operations on a registry: registrations, recordings, visits and states.
use crate::assoc::{assoc, has_key, key_index, lemma_assoc_entry};
use crate::metric::{empty_slot, label_of, slot_view, Slot};
use crate::plan::ProfileView;
use crate::registry::{
    all_items, all_visits, entry_visits, key_of, lemma_total_len_update, len_after_registration,
    registration, shard_of, shard_visits, total_len, visit_views, EntryView, ItemPtr, RegistryView,
    VisitedMetric,
};
use crate::state::{
    fields_sorted, lemma_fields_distinct, lemma_states_distinct, state_label, state_pairs,
    state_recorded, state_views, states_map, states_sorted, StateMap, StateSnapshot, StateType,
};
use crate::text::text_before;
use vstd::prelude::*;

verus! {

/// A registration leaves every metric that was there where it was, with its counters and the way
/// it is shown, and leaves the states alone. So a handle that was given out stays good.
pub proof fn law_registration_keeps_every_metric(
    before: RegistryView,
    after: RegistryView,
    fresh: ProfileView,
    item: ItemPtr,
    other: ItemPtr,
)
    requires
        registration(before, after, fresh, item),
        before.holds(other),
    ensures
        after.holds(other),
        after.entry(other) == before.entry(other),
        after.states == before.states,
{
}

/// Registering a metric again changes nothing and leads to the same slot. For a plan this holds
/// even if the second plan differs in everything but its identity.
pub proof fn law_registration_is_idempotent(
    before: RegistryView,
    between: RegistryView,
    after: RegistryView,
    first: ProfileView,
    again: ProfileView,
    a: ItemPtr,
    b: ItemPtr,
)
    requires
        registration(before, between, first, a),
        registration(between, after, again, b),
        key_of(first) == key_of(again),
        between.distinct(),
    ensures
        after == between,
        b == a,
{
    assert(between.holds(a) && key_of(between.entry(a).profile) == key_of(again));
    assert(between.has(key_of(again)));
    assert(between.entry(b) == after.entry(b));
}

/// Metrics with different keys never share a slot.
pub proof fn law_different_metrics_have_different_slots(
    before: RegistryView,
    between: RegistryView,
    after: RegistryView,
    first: ProfileView,
    second: ProfileView,
    a: ItemPtr,
    b: ItemPtr,
)
    requires
        registration(before, between, first, a),
        registration(between, after, second, b),
        key_of(first) != key_of(second),
    ensures
        a != b,
{
    law_registration_keeps_every_metric(between, after, second, b, a);
}

/// A registration adds one to the number of metrics if the metric is new, and nothing otherwise.
pub proof fn law_len_counts_different_metrics(
    before: RegistryView,
    after: RegistryView,
    fresh: ProfileView,
    item: ItemPtr,
)
    requires
        registration(before, after, fresh, item),
    ensures
        total_len(after.shards) == len_after_registration(before, key_of(fresh)),
{
    if !before.has(key_of(fresh)) {
        let at = item.shard as int;
        let entry = EntryView { profile: fresh, slot: empty_slot() };
        lemma_total_len_update(before.shards, at, before.shards[at].push(entry));
    }
}

/// Giving one metric new counters changes no other metric, no state, not the way any metric is
/// shown, and not how many there are.
pub proof fn law_recording_touches_one_metric(
    before: RegistryView,
    item: ItemPtr,
    slot: Slot,
    other: ItemPtr,
)
    requires
        before.holds(item),
        before.holds(other),
    ensures
        ({
            let after = before.with_slot(item, slot);
            &&& after.holds(other)
            &&& after.entry(other).profile == before.entry(other).profile
            &&& after.entry(item).slot == slot
            &&& other != item ==> after.entry(other) == before.entry(other)
            &&& after.states == before.states
            &&& total_len(after.shards) == total_len(before.shards)
        }),
{
    let at = item.shard as int;
    let entry = EntryView { slot, ..before.entry(item) };
    lemma_total_len_update(
        before.shards,
        at,
        before.shards[at].update(item.index as int, entry),
    );
}

/// Every metric is listed exactly once.
pub proof fn law_items_list_each_metric_once(shards: Seq<Seq<EntryView>>, item: ItemPtr)
    requires
        shards.len() <= usize::MAX,
        total_len(shards) <= usize::MAX,
    ensures
        all_items(shards).contains(item) <==> item.shard < shards.len() && item.index
            < shards[item.shard as int].len(),
        all_items(shards).no_duplicates(),
        all_items(shards).len() == total_len(shards),
    decreases shards.len(),
{
    if shards.len() > 0 {
        let rest = shards.drop_last();
        let last = shards.len() - 1;
        let tail = Seq::new(
            shards.last().len(),
            |i: int| ItemPtr { shard: last as usize, index: i as usize },
        );
        let items = all_items(shards);
        assert(items == all_items(rest) + tail);
        law_items_list_each_metric_once(rest, item);
        if items.contains(item) {
            let at = choose|i: int| 0 <= i < items.len() && items[i] == item;
            if at < all_items(rest).len() {
                assert(all_items(rest)[at] == item);
                assert(all_items(rest).contains(item));
            } else {
                assert(tail[at - all_items(rest).len()] == item);
            }
        }
        if item.shard < shards.len() && item.index < shards[item.shard as int].len() {
            if item.shard == last {
                assert(items[all_items(rest).len() + item.index] == item);
            } else {
                assert(all_items(rest).contains(item));
                let at = choose|i: int|
                    0 <= i < all_items(rest).len() && all_items(rest)[i] == item;
                assert(items[at] == item);
            }
        }
        assert forall|i: int, j: int|
            0 <= i < items.len() && 0 <= j < items.len() && i != j implies items[i]
            != items[j] by {
            let n = all_items(rest).len();
            if i < n {
                law_items_list_each_metric_once(rest, all_items(rest)[i]);
                assert(all_items(rest).contains(all_items(rest)[i]));
            }
            if j < n {
                law_items_list_each_metric_once(rest, all_items(rest)[j]);
                assert(all_items(rest).contains(all_items(rest)[j]));
            }
        }
    }
}

/// Where the rows of the first `n` metrics of a shard end.
spec fn shard_offset(entries: Seq<EntryView>, n: int) -> int {
    shard_visits(entries.take(n)).len() as int
}

proof fn lemma_shard_visits(entries: Seq<EntryView>, index: int)
    requires
        0 <= index < entries.len(),
    ensures
        ({
            let at = shard_offset(entries, index);
            let rows = entry_visits(entries[index]);
            &&& 0 <= at
            &&& at + rows.len() <= shard_visits(entries).len()
            &&& shard_visits(entries).subrange(at, at + rows.len()) == rows
        }),
    decreases entries.len(),
{
    let rows = entry_visits(entries[index]);
    let at = shard_offset(entries, index);
    if index == entries.len() - 1 {
        assert(entries.take(index) =~= entries.drop_last());
        assert(shard_visits(entries).subrange(at, at + rows.len()) =~= rows);
    } else {
        lemma_shard_visits(entries.drop_last(), index);
        assert(entries.drop_last().take(index) =~= entries.take(index));
        assert(shard_visits(entries).subrange(at, at + rows.len()) =~= shard_visits(
            entries.drop_last(),
        ).subrange(at, at + rows.len()));
    }
}

/// A visitor sees the rows of every metric that is registered, with its current counters.
pub proof fn law_visit_sees_every_metric(shards: Seq<Seq<EntryView>>, item: ItemPtr) -> (at: int)
    requires
        item.shard < shards.len(),
        item.index < shards[item.shard as int].len(),
    ensures
        ({
            let rows = entry_visits(shards[item.shard as int][item.index as int]);
            &&& 0 <= at
            &&& at + rows.len() <= all_visits(shards).len()
            &&& all_visits(shards).subrange(at, at + rows.len()) == rows
        }),
    decreases shards.len(),
{
    let rows = entry_visits(shards[item.shard as int][item.index as int]);
    let before = all_visits(shards.drop_last());
    if item.shard == shards.len() - 1 {
        lemma_shard_visits(shards.last(), item.index as int);
        let inner = shard_offset(shards.last(), item.index as int);
        let at = before.len() + inner;
        assert(all_visits(shards).subrange(at, at + rows.len()) =~= shard_visits(
            shards.last(),
        ).subrange(inner, inner + rows.len()));
        at
    } else {
        let at = law_visit_sees_every_metric(shards.drop_last(), item);
        assert(all_visits(shards).subrange(at, at + rows.len()) =~= before.subrange(
            at,
            at + rows.len(),
        ));
        at
    }
}

proof fn lemma_single_visits(entries: Seq<EntryView>)
    requires
        forall|i: int| 0 <= i < entries.len() ==> (#[trigger] entries[i]).profile is Single,
    ensures
        shard_visits(entries).len() == entries.len(),
    decreases entries.len(),
{
    if entries.len() > 0 {
        assert(entries[entries.len() - 1].profile is Single);
        lemma_single_visits(entries.drop_last());
    }
}

/// Without plans, a visitor sees exactly one row for each metric.
pub proof fn law_visit_counts_single_metrics(shards: Seq<Seq<EntryView>>)
    requires
        forall|s: int, i: int|
            0 <= s < shards.len() && 0 <= i < shards[s].len() ==> (
            #[trigger] shards[s][i]).profile is Single,
    ensures
        all_visits(shards).len() == total_len(shards),
    decreases shards.len(),
{
    if shards.len() > 0 {
        let last = shards.len() - 1;
        assert forall|i: int| 0 <= i < shards.last().len() implies (
        #[trigger] shards.last()[i]).profile is Single by {
            assert(shards[last][i].profile is Single);
        }
        lemma_single_visits(shards.last());
        assert forall|s: int, i: int|
            0 <= s < shards.drop_last().len() && 0 <= i < shards.drop_last()[s].len() implies (
        #[trigger] shards.drop_last()[s][i]).profile is Single by {
            assert(shards[s][i].profile is Single);
        }
        law_visit_counts_single_metrics(shards.drop_last());
    }
}

/// The latest value of a field is the one that counts.
pub proof fn law_latest_state_value_wins(
    states: StateMap,
    state_type: StateType,
    name: Seq<char>,
    key: Seq<char>,
    earlier: Seq<char>,
    value: Seq<char>,
)
    ensures
        ({
            let after = state_recorded(states, state_type, name, key, value);
            &&& after.contains_key((state_type, name))
            &&& after[(state_type, name)].contains_key(key)
            &&& after[(state_type, name)][key] == value
            &&& state_recorded(
                state_recorded(states, state_type, name, key, earlier),
                state_type,
                name,
                key,
                value,
            ) == after
        }),
{
    let fields = if states.contains_key((state_type, name)) {
        states[(state_type, name)]
    } else {
        Map::empty()
    };
    assert(fields.insert(key, earlier).insert(key, value) =~= fields.insert(key, value));
    assert(state_recorded(
        state_recorded(states, state_type, name, key, earlier),
        state_type,
        name,
        key,
        value,
    ) =~= state_recorded(states, state_type, name, key, value));
}

/// Recording one field leaves every other field, and every other state, as it was.
pub proof fn law_other_states_stay(
    states: StateMap,
    state_type: StateType,
    name: Seq<char>,
    key: Seq<char>,
    value: Seq<char>,
    other: (StateType, Seq<char>),
    other_key: Seq<char>,
)
    requires
        states.contains_key(other),
        states[other].contains_key(other_key),
        other != (state_type, name) || other_key != key,
    ensures
        ({
            let after = state_recorded(states, state_type, name, key, value);
            &&& after.contains_key(other)
            &&& after[other].contains_key(other_key)
            &&& after[other][other_key] == states[other][other_key]
        }),
{
}

/// Whether a visited row shows a metric with the given name, profile type and counters.
pub open spec fn shows(
    row: VisitedMetric<'_>,
    name: Seq<char>,
    metric_type: Seq<char>,
    slot: Slot,
) -> bool {
    &&& row.name@ == name
    &&& row.metric_type@ == metric_type
    &&& row.snapshot.failure == slot.failure
    &&& row.snapshot.elapsed_ns == slot.elapsed_ns
    &&& row.snapshot.slow == slot.slow
    &&& row.snapshot.intervals@ == seq![
        slot.interval1,
        slot.interval2,
        slot.interval3,
        slot.interval4,
        slot.interval5,
    ]
    &&& row.snapshot.total == (slot.interval1 + slot.interval2 + slot.interval3 + slot.interval4
        + slot.interval5) % 0x1_0000_0000_0000_0000
    &&& row.snapshot.failure <= row.snapshot.total ==> row.snapshot.success + row.snapshot.failure
        == row.snapshot.total
}

proof fn lemma_shows(
    row: VisitedMetric<'_>,
    name: Seq<char>,
    metric_type: Seq<char>,
    slot: Slot,
)
    requires
        row@.name == name,
        row@.metric_type == metric_type,
        row@.snapshot == slot_view(slot),
    ensures
        shows(row, name, metric_type, slot),
{
    crate::metric::law_snapshot_shows_the_slot(slot, row.snapshot);
}

/// Whether some visited row shows a metric with the given name, profile type and counters.
pub open spec fn visited(
    rows: Seq<VisitedMetric<'_>>,
    name: Seq<char>,
    metric_type: Seq<char>,
    slot: Slot,
) -> bool {
    exists|i: int| 0 <= i < rows.len() && shows(#[trigger] rows[i], name, metric_type, slot)
}

/// A visit has a row for every metric of a type, with its name, the profile type of its own type
/// and its counters; and for every metric with a plan, one row for each of its direct outputs, with
/// the type and the name of that output and the same counters.
pub proof fn law_visit_shows_every_metric(
    shards: Seq<Seq<EntryView>>,
    rows: Seq<VisitedMetric<'_>>,
    item: ItemPtr,
)
    requires
        visit_views(rows) == all_visits(shards),
        item.shard < shards.len(),
        item.index < shards[item.shard as int].len(),
    ensures
        shards[item.shard as int][item.index as int].profile matches ProfileView::Single {
            name,
            kind,
        } ==> visited(
            rows,
            name,
            label_of(kind),
            shards[item.shard as int][item.index as int].slot,
        ),
        shards[item.shard as int][item.index as int].profile matches ProfileView::Fanout(plan)
            ==> forall|j: int|
            0 <= j < plan.outputs.len() ==> visited(
                rows,
                (#[trigger] plan.outputs[j]).name,
                plan.outputs[j].metric_type,
                shards[item.shard as int][item.index as int].slot,
            ),
{
    let entry = shards[item.shard as int][item.index as int];
    let part = entry_visits(entry);
    let at = law_visit_sees_every_metric(shards, item);
    assert forall|k: int| 0 <= k < part.len() implies rows[at + k]@ == #[trigger] part[k] && at + k
        < rows.len() by {
        assert(all_visits(shards).subrange(at, at + part.len())[k] == part[k]);
        assert(visit_views(rows)[at + k] == rows[at + k]@);
    }
    match entry.profile {
        ProfileView::Single { name, kind } => {
            assert(rows[at + 0]@ == part[0]);
            lemma_shows(rows[at], name, label_of(kind), entry.slot);
        },
        ProfileView::Fanout(plan) => {
            assert forall|j: int| 0 <= j < plan.outputs.len() implies visited(
                rows,
                (#[trigger] plan.outputs[j]).name,
                plan.outputs[j].metric_type,
                entry.slot,
            ) by {
                assert(rows[at + j]@ == part[j]);
                lemma_shows(
                    rows[at + j],
                    plan.outputs[j].name,
                    plan.outputs[j].metric_type,
                    entry.slot,
                );
            }
        },
    }
}

proof fn lemma_visit_of_shard(entries: Seq<EntryView>, i: int) -> (found: (int, int))
    requires
        0 <= i < shard_visits(entries).len(),
    ensures
        0 <= found.0 < entries.len(),
        0 <= found.1 < entry_visits(entries[found.0]).len(),
        shard_visits(entries)[i] == entry_visits(entries[found.0])[found.1],
    decreases entries.len(),
{
    let earlier = shard_visits(entries.drop_last());
    if i < earlier.len() {
        lemma_visit_of_shard(entries.drop_last(), i)
    } else {
        (entries.len() - 1, i - earlier.len())
    }
}

proof fn lemma_visit_of_shards(shards: Seq<Seq<EntryView>>, i: int) -> (found: (int, int, int))
    requires
        0 <= i < all_visits(shards).len(),
    ensures
        0 <= found.0 < shards.len(),
        0 <= found.1 < shards[found.0].len(),
        0 <= found.2 < entry_visits(shards[found.0][found.1]).len(),
        all_visits(shards)[i] == entry_visits(shards[found.0][found.1])[found.2],
    decreases shards.len(),
{
    let earlier = all_visits(shards.drop_last());
    if i < earlier.len() {
        lemma_visit_of_shards(shards.drop_last(), i)
    } else {
        let (index, k) = lemma_visit_of_shard(shards.last(), i - earlier.len());
        (shards.len() - 1, index, k)
    }
}

/// A visit shows nothing but registered metrics: every row is that of a metric of a type, or of a
/// direct output of a plan, with the counters of its own slot.
pub proof fn law_visit_shows_nothing_else(
    shards: Seq<Seq<EntryView>>,
    rows: Seq<VisitedMetric<'_>>,
    i: int,
) -> (found: (int, int))
    requires
        visit_views(rows) == all_visits(shards),
        0 <= i < rows.len(),
    ensures
        0 <= found.0 < shards.len(),
        0 <= found.1 < shards[found.0].len(),
        ({
            let entry = shards[found.0][found.1];
            match entry.profile {
                ProfileView::Single { name, kind } => shows(
                    rows[i],
                    name,
                    label_of(kind),
                    entry.slot,
                ),
                ProfileView::Fanout(plan) => exists|j: int|
                    0 <= j < plan.outputs.len() && shows(
                        rows[i],
                        (#[trigger] plan.outputs[j]).name,
                        plan.outputs[j].metric_type,
                        entry.slot,
                    ),
            }
        }),
{
    assert(visit_views(rows)[i] == rows[i]@);
    let (shard, index, k) = lemma_visit_of_shards(shards, i);
    let entry = shards[shard][index];
    match entry.profile {
        ProfileView::Single { name, kind } => {
            lemma_shows(rows[i], name, label_of(kind), entry.slot);
        },
        ProfileView::Fanout(plan) => {
            lemma_shows(rows[i], plan.outputs[k].name, plan.outputs[k].metric_type, entry.slot);
        },
    }
    (shard, index)
}

/// A metric is the same as another exactly if both have the same type and name, or both are plans
/// with the same identity.
pub proof fn law_metrics_are_told_apart_by_type_and_name(a: ProfileView, b: ProfileView)
    ensures
        key_of(a) == key_of(b) <==> match (a, b) {
            (
                ProfileView::Single { name: x, kind: k },
                ProfileView::Single { name: y, kind: l },
            ) => x == y && k == l,
            (ProfileView::Fanout(p), ProfileView::Fanout(q)) => p.identity == q.identity,
            _ => false,
        },
{
}

/// A new metric is shown as it was registered, and starts with all counters at zero.
pub proof fn law_new_metric_starts_at_zero(
    before: RegistryView,
    after: RegistryView,
    fresh: ProfileView,
    item: ItemPtr,
)
    requires
        registration(before, after, fresh, item),
        !before.has(key_of(fresh)),
    ensures
        after.entry(item).profile == fresh,
        after.entry(item).slot.failure == 0,
        after.entry(item).slot.elapsed_ns == 0,
        after.entry(item).slot.slow == 0,
        after.entry(item).slot.interval1 == 0,
        after.entry(item).slot.interval2 == 0,
        after.entry(item).slot.interval3 == 0,
        after.entry(item).slot.interval4 == 0,
        after.entry(item).slot.interval5 == 0,
        !before.holds(item),
{
}

/// The shard of a hash is the number that its low six bits make.
pub proof fn law_shard_is_the_low_bits_of_the_hash(hash: u64, other: u64)
    ensures
        0 <= shard_of(hash) < 64,
        shard_of(hash) == (hash & 63) as int,
        hash & 63 == other & 63 ==> shard_of(hash) == shard_of(other),
{
    assert(hash & 63 == hash % 64) by (bit_vector);
    assert(other & 63 == other % 64) by (bit_vector);
}

/// Recording a field sets that field and changes no other field and no other state: whether one is
/// there, and what it holds, is as before.
pub proof fn law_state_record_sets_one_field(
    states: StateMap,
    state_type: StateType,
    name: Seq<char>,
    key: Seq<char>,
    value: Seq<char>,
    other: (StateType, Seq<char>),
    other_key: Seq<char>,
)
    ensures
        ({
            let after = state_recorded(states, state_type, name, key, value);
            let target = (state_type, name);
            &&& after.contains_key(other) <==> states.contains_key(other) || other == target
            &&& after.contains_key(other) && after[other].contains_key(other_key) <==> (
            states.contains_key(other) && states[other].contains_key(other_key)) || (other == target
                && other_key == key)
            &&& other == target && other_key == key ==> after[other][other_key] == value
            &&& (other != target || other_key != key) && states.contains_key(other)
                && states[other].contains_key(other_key) ==> after[other][other_key]
                == states[other][other_key]
        }),
{
}

/// A listing of states holds every state once, and nothing else.
pub proof fn law_listing_holds_every_state(
    listing: Seq<StateSnapshot>,
    states: StateMap,
    state_type: StateType,
    name: Seq<char>,
)
    requires
        states_sorted(state_views(listing)),
        states_map(state_views(listing)) == states,
    ensures
        states.contains_key((state_type, name)) <==> exists|i: int|
            0 <= i < listing.len() && (#[trigger] listing[i]).state_type == state_type
                && listing[i].name@ == name,
        forall|i: int, j: int|
            0 <= i < listing.len() && 0 <= j < listing.len() && (#[trigger] listing[i]).state_type
                == (#[trigger] listing[j]).state_type && listing[i].name@ == listing[j].name@
                ==> i == j,
{
    let views = state_views(listing);
    let pairs = state_pairs(views);
    if states.contains_key((state_type, name)) {
        let i = key_index(pairs, (state_type, name));
        assert(has_key(pairs, (state_type, name)));
        assert(pairs[i].0 == (listing[i].state_type, listing[i].name@));
    }
    if exists|i: int|
        0 <= i < listing.len() && (#[trigger] listing[i]).state_type == state_type
            && listing[i].name@ == name {
        let i = choose|i: int|
            0 <= i < listing.len() && (#[trigger] listing[i]).state_type == state_type
                && listing[i].name@ == name;
        assert(pairs[i].0 == (state_type, name));
        assert(has_key(pairs, (state_type, name)));
    }
    assert forall|i: int, j: int|
        0 <= i < listing.len() && 0 <= j < listing.len() && (#[trigger] listing[i]).state_type == (
        #[trigger] listing[j]).state_type && listing[i].name@ == listing[j].name@ implies i == j by {
        lemma_states_distinct(views);
        if i != j {
            assert(pairs[i].0 != pairs[j].0);
        }
    }
}

/// A listed state holds every field of that state with its latest value, and no other field.
pub proof fn law_listing_holds_every_field(
    listing: Seq<StateSnapshot>,
    states: StateMap,
    i: int,
    key: Seq<char>,
)
    requires
        states_sorted(state_views(listing)),
        states_map(state_views(listing)) == states,
        0 <= i < listing.len(),
    ensures
        ({
            let fields = states[(listing[i].state_type, listing[i].name@)];
            &&& fields.contains_key(key) <==> exists|j: int|
                0 <= j < listing[i].fields@.len() && (#[trigger] listing[i].fields@[j]).0@ == key
            &&& forall|j: int|
                0 <= j < listing[i].fields@.len() && (#[trigger] listing[i].fields@[j]).0@ == key
                    ==> listing[i].fields@[j].1@ == fields[key]
        }),
{
    let views = state_views(listing);
    let pairs = state_pairs(views);
    lemma_states_distinct(views);
    lemma_assoc_entry(pairs, i);
    assert(pairs[i].0 == (listing[i].state_type, listing[i].name@));
    let fields = views[i].fields;
    assert(fields_sorted(views[i].fields));
    lemma_fields_distinct(fields);
    assert(states[(listing[i].state_type, listing[i].name@)] == assoc(fields));
    if assoc(fields).contains_key(key) {
        let j = key_index(fields, key);
        assert(has_key(fields, key));
        assert(listing[i].fields@[j].0@ == fields[j].0);
    }
    assert forall|j: int|
        0 <= j < listing[i].fields@.len() && (#[trigger] listing[i].fields@[j]).0@
            == key implies listing[i].fields@[j].1@ == assoc(fields)[key] && has_key(
        fields,
        key,
    ) by {
        assert(fields[j].0 == key);
        lemma_assoc_entry(fields, j);
    }
}

/// States are listed by name and their fields by key, both in the order of strings.
pub proof fn law_listing_is_in_order(listing: Seq<StateSnapshot>, i: int, j: int)
    requires
        states_sorted(state_views(listing)),
        0 <= i < j < listing.len(),
    ensures
        text_before(listing[i].name@, listing[j].name@),
        forall|a: int, b: int|
            0 <= a < b < listing[i].fields@.len() ==> text_before(
                (#[trigger] listing[i].fields@[a]).0@,
                (#[trigger] listing[i].fields@[b]).0@,
            ),
{
    let views = state_views(listing);
    assert(views[i].name == listing[i].name@ && views[j].name == listing[j].name@);
    crate::text::law_text_order_is_strict_and_total(
        state_label(listing[i].state_type),
        state_label(listing[j].state_type),
        state_label(listing[i].state_type),
    );
    assert(fields_sorted(views[i].fields));
    assert forall|a: int, b: int| 0 <= a < b < listing[i].fields@.len() implies text_before(
        (#[trigger] listing[i].fields@[a]).0@,
        (#[trigger] listing[i].fields@[b]).0@,
    ) by {
        assert(text_before(views[i].fields[a].0, views[i].fields[b].0));
    }
}

} // verus!
