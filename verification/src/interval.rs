//! One log interval, step by step: metrics, aggregates, states and the baseline row.
use crate::aggregate::{row_views, rows_map, rows_sorted, AggregateMap, ProfileRow, RowView};
use crate::entry::{baseline_entry_bytes, state_entry_bytes};
use crate::metric::{empty_slot, slot_view};
use crate::registry::{all_items, ItemPtr, Registry, RegistryView};
use crate::state::{state_views, states_map, states_sorted, StateSnapshot, StateView};
use crate::writer::{
    interval_rows, interval_sums, joined, row_bytes, writer_start, ProfileLogWriter, WriterView,
};
use vstd::prelude::*;

verus! {

/// What an interval is about to write.
#[derive(Clone, Copy, Debug, PartialEq, Eq, Structural)]
pub enum IntervalPhase {
    /// The metrics, one after the other.
    Metrics,
    /// The aggregates, once every metric was drained.
    Aggregates,
    /// The states are about to be copied out.
    CollectStates,
    /// The states, one after the other.
    States,
    /// The baseline row.
    Baseline,
    /// Whatever is left in the buffer.
    Finish,
}

/// What has to be done to go on with an interval.
#[derive(Clone, Copy, Debug, PartialEq, Eq, Structural)]
pub enum IntervalStep {
    /// Write the average of a row and hand it in with [`ProfileInterval::provide_average`].
    Average { elapsed_ns: u64, total: u64 },
    /// Write the buffer to the file and report with [`ProfileInterval::flushed`].
    Flush,
    /// Nothing: take the next step.
    Continue,
    /// The interval is over.
    Done,
}

/// How far an interval has come.
#[verifier::ext_equal]
pub struct IntervalView {
    pub writer: WriterView,
    pub phase: IntervalPhase,
    /// The metrics that are still to be drained.
    pub items: Seq<ItemPtr>,
    /// The rows that are still to be rendered.
    pub rows: Seq<RowView>,
    /// The states that are still to be rendered.
    pub states: Seq<StateView>,
}

impl IntervalView {
    /// Whether every metric that is still to be drained is registered.
    pub open spec fn valid_in(self, registry: RegistryView) -> bool {
        forall|i: int| 0 <= i < self.items.len() ==> registry.holds(#[trigger] self.items[i])
    }

    /// After the next row was rendered with its average.
    pub open spec fn after_average(self, average: Seq<char>) -> IntervalView {
        IntervalView {
            rows: self.rows.drop_first(),
            writer: self.writer.with_entry(
                row_bytes(self.writer.timestamp, self.rows[0], average),
            ),
            ..self
        }
    }

    /// After the buffer was written, or could not be.
    pub open spec fn after_flush(self, success: bool) -> IntervalView {
        IntervalView { writer: self.writer.after_flush(success), ..self }
    }
}

/// An interval that starts with all metrics of a registry.
pub open spec fn interval_start(registry: RegistryView, timestamp: Seq<char>) -> IntervalView {
    IntervalView {
        writer: writer_start(timestamp),
        phase: IntervalPhase::Metrics,
        items: all_items(registry.shards),
        rows: seq![],
        states: seq![],
    }
}

/// Which step comes next: a full buffer is written first, then pending rows are rendered, then
/// the interval goes on with its phase.
pub open spec fn next_step(interval: IntervalView) -> IntervalStep {
    if interval.writer.flush_due() {
        IntervalStep::Flush
    } else if interval.rows.len() > 0 {
        IntervalStep::Average {
            elapsed_ns: interval.rows[0].snapshot.elapsed_ns,
            total: interval.rows[0].snapshot.total,
        }
    } else if interval.phase == IntervalPhase::Finish {
        if interval.writer.flush_left() {
            IntervalStep::Flush
        } else {
            IntervalStep::Done
        }
    } else {
        IntervalStep::Continue
    }
}

/// `after` is what becomes of `before` when its phase goes on, with the registry going from
/// `registry_before` to `registry_after`.
pub open spec fn phase_advanced(
    before: IntervalView,
    after: IntervalView,
    registry_before: RegistryView,
    registry_after: RegistryView,
) -> bool {
    match before.phase {
        IntervalPhase::Metrics => if before.items.len() == 0 || before.writer.failed {
            // A failed write ends the draining of metrics.
            &&& after == (IntervalView { phase: IntervalPhase::Aggregates, ..before })
            &&& registry_after == registry_before
        } else {
            let entry = registry_before.entry(before.items[0]);
            let snapshot = slot_view(entry.slot);
            &&& after == (IntervalView {
                items: before.items.drop_first(),
                rows: interval_rows(entry.profile, snapshot),
                writer: WriterView {
                    sums: interval_sums(before.writer.sums, entry.profile, snapshot),
                    ..before.writer
                },
                ..before
            })
            &&& registry_after == registry_before.with_slot(before.items[0], empty_slot())
        },
        IntervalPhase::Aggregates => {
            &&& rows_sorted(after.rows)
            &&& rows_map(after.rows) == before.writer.sums
            &&& after == (IntervalView {
                phase: IntervalPhase::CollectStates,
                rows: after.rows,
                writer: WriterView { sums: AggregateMap::empty(), ..before.writer },
                ..before
            })
            &&& registry_after == registry_before
        },
        IntervalPhase::CollectStates => {
            &&& states_sorted(after.states)
            &&& states_map(after.states) == registry_before.states
            &&& after == (IntervalView {
                phase: IntervalPhase::States,
                states: after.states,
                ..before
            })
            &&& registry_after == registry_before
        },
        IntervalPhase::States => {
            &&& registry_after == registry_before
            &&& if before.states.len() == 0 {
                after == (IntervalView { phase: IntervalPhase::Baseline, ..before })
            } else {
                after == (IntervalView {
                    states: before.states.drop_first(),
                    writer: if before.writer.failed {
                        before.writer
                    } else {
                        before.writer.with_entry(
                            state_entry_bytes(before.writer.timestamp, before.states[0]),
                        )
                    },
                    ..before
                })
            }
        },
        IntervalPhase::Baseline => {
            &&& after == (IntervalView {
                phase: IntervalPhase::Finish,
                writer: if before.writer.failed {
                    before.writer
                } else {
                    before.writer.with_entry(baseline_entry_bytes(before.writer.timestamp))
                },
                ..before
            })
            &&& registry_after == registry_before
        },
        IntervalPhase::Finish => after == before && registry_after == registry_before,
    }
}

/// One log interval.
pub struct ProfileInterval {
    writer: ProfileLogWriter,
    phase: IntervalPhase,
    items: Vec<ItemPtr>,
    next_item: usize,
    rows: Vec<ProfileRow>,
    next_row: usize,
    states: Vec<StateSnapshot>,
    next_state: usize,
}

impl View for ProfileInterval {
    type V = IntervalView;

    closed spec fn view(&self) -> IntervalView {
        IntervalView {
            writer: self.writer@,
            phase: self.phase,
            items: self.items@.skip(self.next_item as int),
            rows: row_views(self.rows@).skip(self.next_row as int),
            states: state_views(self.states@).skip(self.next_state as int),
        }
    }
}

impl ProfileInterval {
    /// The positions in the lists are within them, and the writer is in order.
    pub closed spec fn parts_wf(&self) -> bool {
        &&& self.writer.wf()
        &&& self.next_item <= self.items@.len()
        &&& self.next_row <= self.rows@.len()
        &&& self.next_state <= self.states@.len()
    }

    /// The parts are in order; no entry that was rendered got lost as long as no write failed;
    /// and at the end the baseline row is the last entry.
    pub open spec fn wf(&self) -> bool {
        &&& self.parts_wf()
        &&& self@.writer.lossless()
        &&& self@.phase == IntervalPhase::Finish && !self@.writer.failed ==> {
            &&& self@.rows.len() == 0
            &&& self@.writer.entries.len() > 0
            &&& self@.writer.entries.last() == baseline_entry_bytes(self@.writer.timestamp)
        }
    }

    /// Starts an interval with all metrics that are registered now.
    pub fn start(registry: &Registry, buffer: Vec<u8>, timestamp: &str) -> (interval:
        ProfileInterval)
        requires
            registry.wf(),
        ensures
            interval.wf(),
            interval@ == interval_start(registry@, timestamp@),
            interval@.valid_in(registry@),
    {
        let interval = ProfileInterval {
            writer: ProfileLogWriter::new(buffer, timestamp),
            phase: IntervalPhase::Metrics,
            items: registry.items(),
            next_item: 0,
            rows: Vec::new(),
            next_row: 0,
            states: Vec::new(),
            next_state: 0,
        };
        proof {
            assert(interval@.items =~= all_items(registry@.shards));
            assert(interval@.rows =~= seq![]);
            assert(interval@.states =~= seq![]);
            assert forall|i: int| 0 <= i < interval@.items.len() implies registry@.holds(
                #[trigger] interval@.items[i],
            ) by {
                crate::laws::law_items_list_each_metric_once(
                    registry@.shards,
                    interval@.items[i],
                );
            }
        }
        interval
    }

    /// Takes the next step, and says what has to be done before the one after it.
    pub fn step(&mut self, registry: &mut Registry) -> (step: IntervalStep)
        requires
            old(self).wf(),
            old(registry).wf(),
            old(self)@.valid_in(old(registry)@),
        ensures
            final(self).wf(),
            final(registry).wf(),
            final(self)@.valid_in(final(registry)@),
            step == next_step(old(self)@),
            step is Continue ==> phase_advanced(
                old(self)@,
                final(self)@,
                old(registry)@,
                final(registry)@,
            ),
            step !is Continue ==> final(self)@ == old(self)@ && final(registry)@ == old(registry)@,
            step is Done && !final(self)@.writer.failed ==> final(self)@.writer.written == joined(
                final(self)@.writer.entries,
            ),
    {
        let ghost before = self@;
        if self.writer.flush_due() {
            return IntervalStep::Flush;
        }
        if self.next_row < self.rows.len() {
            let row = &self.rows[self.next_row];
            return IntervalStep::Average {
                elapsed_ns: row.snapshot.elapsed_ns,
                total: row.snapshot.total,
            };
        }
        match self.phase {
            IntervalPhase::Metrics => {
                if self.next_item >= self.items.len() || self.writer.failed() {
                    self.phase = IntervalPhase::Aggregates;
                } else {
                    let item = self.items[self.next_item];
                    assert(item == before.items[0]);
                    self.rows = self.writer.write_entry(registry, item);
                    self.next_row = 0;
                    self.next_item += 1;
                    proof {
                        assert(self@.items =~= before.items.drop_first());
                        assert(self@.rows =~= row_views(self.rows@));
                    }
                }
            },
            IntervalPhase::Aggregates => {
                self.rows = self.writer.write_aggregate_entries();
                self.next_row = 0;
                self.phase = IntervalPhase::CollectStates;
                assert(self@.rows =~= row_views(self.rows@));
            },
            IntervalPhase::CollectStates => {
                self.states = registry.state_snapshot();
                self.next_state = 0;
                self.phase = IntervalPhase::States;
                assert(self@.states =~= state_views(self.states@));
            },
            IntervalPhase::States => {
                if self.next_state >= self.states.len() {
                    self.phase = IntervalPhase::Baseline;
                } else {
                    self.writer.write_state_entry(&self.states[self.next_state]);
                    self.next_state += 1;
                    proof {
                        assert(before.states[0] == state_views(self.states@)[self.next_state - 1]);
                        assert(self@.states =~= before.states.drop_first());
                    }
                }
            },
            IntervalPhase::Baseline => {
                self.writer.write_baseline_entry();
                self.phase = IntervalPhase::Finish;
            },
            IntervalPhase::Finish => {
                if self.writer.flush_left() {
                    return IntervalStep::Flush;
                }
                proof {
                    if !before.writer.failed {
                        assert(before.writer.written + before.writer.buffer
                            =~= before.writer.written);
                    }
                }
                return IntervalStep::Done;
            },
        }
        IntervalStep::Continue
    }

    /// Renders the next row with its average, in milliseconds with two decimals.
    pub fn provide_average(&mut self, average: &str)
        requires
            old(self).wf(),
            old(self)@.rows.len() > 0,
        ensures
            final(self).wf(),
            final(self)@ == old(self)@.after_average(average@),
    {
        let ghost before = self@;
        let row = &self.rows[self.next_row];
        assert(before.rows[0] == row@ && self.next_row < self.rows.len());
        self.writer.append_entry(row, average);
        self.next_row += 1;
        assert(self@.rows =~= before.rows.drop_first());
    }

    /// What waits to be written.
    pub fn buffer(&self) -> (buffer: &Vec<u8>)
        ensures
            buffer@ == self@.writer.buffer,
    {
        self.writer.buffer()
    }

    /// Takes note of whether the buffer could be written.
    pub fn flushed(&mut self, success: bool)
        requires
            old(self).wf(),
            !old(self)@.writer.failed,
        ensures
            final(self).wf(),
            final(self)@ == old(self)@.after_flush(success),
    {
        self.writer.flushed(success);
    }

    /// Whether a write failed.
    pub fn failed(&self) -> (failed: bool)
        ensures
            failed == self@.writer.failed,
    {
        self.writer.failed()
    }

    /// Gives the buffer back for the next interval.
    pub fn into_buffer(self) -> (buffer: Vec<u8>)
        ensures
            buffer@ == self@.writer.buffer,
    {
        self.writer.into_buffer()
    }
}

} // verus!
