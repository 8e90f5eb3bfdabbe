//! What one log interval writes, and in which order.
use crate::aggregate::{
    contributed, row_views, rows_map, rows_sorted, AggregateMap, Aggregates, ProfileRow,
    RowView,
};
use crate::entry::{
    append_baseline_entry, append_profile_entry, append_state_entry, baseline_entry_bytes,
    profile_entry_bytes, state_entry_bytes,
};
use crate::metric::{
    empty_slot, format_of, label_of, policy_of, slot_view, slow_threshold_ms, SnapshotView,
};
use crate::plan::{OutputView, ProfileMeta, ProfileView};
use crate::registry::{ItemPtr, Registry};
use crate::state::StateSnapshot;
use vstd::prelude::*;

verus! {

/// From how many bytes on the buffer is written to the file.
pub const PROFILE_BUFFER_LIMIT: usize = 1024 * 1024;

/// The rows that a metric is shown in directly: one, or, for a plan, one for each output.
pub open spec fn direct_rows(profile: ProfileView, snapshot: SnapshotView) -> Seq<RowView> {
    match profile {
        ProfileView::Single { name, kind } => seq![
            RowView {
                output: OutputView { metric_type: label_of(kind), name },
                policy: policy_of(kind),
                format: format_of(kind),
                snapshot,
            },
        ],
        ProfileView::Fanout(plan) => Seq::new(
            plan.outputs.len(),
            |i: int|
                RowView {
                    output: plan.outputs[i],
                    policy: plan.policy,
                    format: plan.format,
                    snapshot,
                },
        ),
    }
}

/// The rows of a metric in one interval. A metric without events has none.
pub open spec fn interval_rows(profile: ProfileView, snapshot: SnapshotView) -> Seq<RowView> {
    if snapshot.total == 0 {
        seq![]
    } else {
        direct_rows(profile, snapshot)
    }
}

/// The sums of one interval after a metric was taken into account. Only a plan with an aggregate
/// output adds to one, that of the output's type and name.
pub open spec fn interval_sums(
    sums: AggregateMap,
    profile: ProfileView,
    snapshot: SnapshotView,
) -> AggregateMap {
    match profile {
        ProfileView::Fanout(plan) => match plan.aggregate {
            Some(output) => if snapshot.total == 0 {
                sums
            } else {
                contributed(sums, output, plan.policy, plan.format, snapshot)
            },
            None => sums,
        },
        ProfileView::Single { .. } => sums,
    }
}

/// A row as it stands in the log.
#[verifier::opaque]
pub open spec fn row_bytes(timestamp: Seq<char>, row: RowView, average: Seq<char>) -> Seq<u8> {
    profile_entry_bytes(
        timestamp,
        row.output.metric_type,
        row.output.name,
        slow_threshold_ms(row.policy),
        row.format,
        row.snapshot,
        average,
    )
}

/// Entries one after the other.
pub open spec fn joined(entries: Seq<Seq<u8>>) -> Seq<u8>
    decreases entries.len(),
{
    if entries.len() == 0 {
        seq![]
    } else {
        joined(entries.drop_last()) + entries.last()
    }
}

/// What a [`ProfileLogWriter`] has done so far.
#[verifier::ext_equal]
pub struct WriterView {
    /// The time at the start of every entry.
    pub timestamp: Seq<char>,
    /// What waits to be written to the file.
    pub buffer: Seq<u8>,
    /// Whether writing to the file failed.
    pub failed: bool,
    /// The sums of the interval.
    pub sums: AggregateMap,
    /// Every entry that was rendered.
    pub entries: Seq<Seq<u8>>,
    /// What was written to the file.
    pub written: Seq<u8>,
}

impl WriterView {
    /// After one more entry.
    pub open spec fn with_entry(self, entry: Seq<u8>) -> WriterView {
        WriterView {
            buffer: self.buffer + entry,
            entries: self.entries.push(entry),
            ..self
        }
    }

    /// After the buffer was written, or could not be.
    pub open spec fn after_flush(self, success: bool) -> WriterView {
        WriterView {
            buffer: seq![],
            failed: !success,
            written: if success {
                self.written + self.buffer
            } else {
                self.written
            },
            ..self
        }
    }

    /// Whether the buffer is full enough to be written now.
    pub open spec fn flush_due(self) -> bool {
        !self.failed && self.buffer.len() >= PROFILE_BUFFER_LIMIT
    }

    /// Whether something is left to be written at the end.
    pub open spec fn flush_left(self) -> bool {
        !self.failed && self.buffer.len() > 0
    }

    /// As long as no write failed, what was written and what waits to be are all entries in
    /// order.
    pub open spec fn lossless(self) -> bool {
        !self.failed ==> self.written + self.buffer == joined(self.entries)
    }

    /// One more entry loses nothing.
    pub proof fn lemma_with_entry(self, entry: Seq<u8>)
        requires
            self.lossless(),
        ensures
            self.with_entry(entry).lossless(),
    {
        let after = self.with_entry(entry);
        assert(after.entries.drop_last() =~= self.entries);
        assert(after.written + after.buffer =~= self.written + self.buffer + entry);
    }
}

/// A writer that has done nothing yet.
pub open spec fn writer_start(timestamp: Seq<char>) -> WriterView {
    WriterView {
        timestamp,
        buffer: seq![],
        failed: false,
        sums: AggregateMap::empty(),
        entries: seq![],
        written: seq![],
    }
}

/// Owns interval-log serialization and its bounded reusable write buffer.
pub struct ProfileLogWriter {
    buffer: Vec<u8>,
    timestamp: String,
    failed: bool,
    aggregates: Aggregates,
    entries: Ghost<Seq<Seq<u8>>>,
    written: Ghost<Seq<u8>>,
}

impl View for ProfileLogWriter {
    type V = WriterView;

    closed spec fn view(&self) -> WriterView {
        WriterView {
            timestamp: self.timestamp@,
            buffer: self.buffer@,
            failed: self.failed,
            sums: self.aggregates@,
            entries: self.entries@,
            written: self.written@,
        }
    }
}

impl ProfileLogWriter {
    /// The sums are stored in order.
    pub closed spec fn sums_wf(&self) -> bool {
        self.aggregates.wf()
    }

    /// The sums are in order, and nothing was lost.
    pub open spec fn wf(&self) -> bool {
        self.sums_wf() && self@.lossless()
    }

    /// A writer that reuses a buffer.
    pub fn new(buffer: Vec<u8>, timestamp: &str) -> (writer: ProfileLogWriter)
        ensures
            writer.wf(),
            writer@ == writer_start(timestamp@),
    {
        let mut buffer = buffer;
        buffer.clear();
        let writer = ProfileLogWriter {
            buffer,
            timestamp: timestamp.to_string(),
            failed: false,
            aggregates: Aggregates::new(),
            entries: Ghost(Seq::empty()),
            written: Ghost(Seq::empty()),
        };
        assert(writer@.written + writer@.buffer =~= joined(writer@.entries));
        writer
    }

    /// Drains one metric and returns its rows; what it adds to an aggregate is kept. Once a
    /// write failed, metrics are no longer drained, so that nothing that was counted is lost.
    pub fn write_entry(&mut self, registry: &mut Registry, item: ItemPtr) -> (rows: Vec<ProfileRow>)
        requires
            old(self).wf(),
            old(registry).wf(),
            old(registry)@.holds(item),
        ensures
            final(self).wf(),
            final(registry).wf(),
            old(self)@.failed ==> {
                &&& row_views(rows@) == Seq::<RowView>::empty()
                &&& final(self)@ == old(self)@
                &&& final(registry)@ == old(registry)@
            },
            !old(self)@.failed ==> {
                let entry = old(registry)@.entry(item);
                &&& row_views(rows@) == interval_rows(entry.profile, slot_view(entry.slot))
                &&& final(self)@ == (WriterView {
                    sums: interval_sums(
                        old(self)@.sums,
                        entry.profile,
                        slot_view(entry.slot),
                    ),
                    ..old(self)@
                })
                &&& final(registry)@ == old(registry)@.with_slot(item, empty_slot())
            },
    {
        let mut rows: Vec<ProfileRow> = Vec::new();
        if self.failed {
            assert(row_views(rows@) =~= Seq::<RowView>::empty());
            return rows;
        }
        let snapshot = registry.drain(item);
        if snapshot.total == 0 {
            assert(row_views(rows@) =~= Seq::<RowView>::empty());
            return rows;
        }
        let ghost before = self@;
        let ghost profile = old(registry)@.entry(item).profile;
        let meta = registry.meta(item);
        assert(meta@ == profile);
        match meta {
            ProfileMeta::Single { name, kind } => {
                let (metric_type, format) = kind.output();
                rows.push(
                    ProfileRow {
                        metric_type: metric_type.to_string(),
                        name: name.clone(),
                        policy: kind.policy(),
                        format,
                        snapshot,
                    },
                );
                assert(row_views(rows@) =~= direct_rows(profile, snapshot@));
            },
            ProfileMeta::Fanout(plan) => {
                let mut i: usize = 0;
                while i < plan.outputs.len()
                    invariant
                        i <= plan.outputs@.len(),
                        profile == ProfileView::Fanout(plan@),
                        row_views(rows@) == direct_rows(profile, snapshot@).take(i as int),
                    decreases plan.outputs@.len() - i,
                {
                    let ghost done = row_views(rows@);
                    rows.push(
                        ProfileRow {
                            metric_type: plan.outputs[i].metric_type.clone(),
                            name: plan.outputs[i].name.clone(),
                            policy: plan.policy,
                            format: plan.format,
                            snapshot,
                        },
                    );
                    assert(row_views(rows@) =~= done.push(
                        direct_rows(profile, snapshot@)[i as int],
                    ));
                    assert(row_views(rows@) =~= direct_rows(profile, snapshot@).take(i + 1));
                    i += 1;
                }
                assert(row_views(rows@) =~= direct_rows(profile, snapshot@));
                if let Some(output) = &plan.aggregate {
                    self.aggregates.contribute(
                        output.metric_type.as_str(),
                        output.name.as_str(),
                        plan.policy,
                        plan.format,
                        snapshot,
                    );
                }
            },
        }
        rows
    }

    /// Takes out the rows of the aggregates, sorted by type and name.
    pub fn write_aggregate_entries(&mut self) -> (rows: Vec<ProfileRow>)
        requires
            old(self).wf(),
        ensures
            final(self).wf(),
            final(self)@ == (WriterView { sums: AggregateMap::empty(), ..old(self)@ }),
            rows_sorted(row_views(rows@)),
            rows_map(row_views(rows@)) == old(self)@.sums,
    {
        self.aggregates.drain()
    }

    /// Renders one row, given its average in milliseconds with two decimals.
    pub fn append_entry(&mut self, row: &ProfileRow, average: &str)
        requires
            old(self).wf(),
        ensures
            final(self).wf(),
            final(self)@ == old(self)@.with_entry(
                row_bytes(old(self)@.timestamp, row@, average@),
            ),
    {
        append_profile_entry(
            &mut self.buffer,
            self.timestamp.as_str(),
            row.metric_type.as_str(),
            row.name.as_str(),
            row.policy.spec(),
            row.format,
            row.snapshot,
            average,
        );
        proof {
            reveal(row_bytes);
            let entry = row_bytes(old(self)@.timestamp, row@, average@);
            self.entries@ = self.entries@.push(entry);
            old(self)@.lemma_with_entry(entry);
        }
    }

    /// Renders one state, unless a write failed.
    pub fn write_state_entry(&mut self, state: &StateSnapshot)
        requires
            old(self).wf(),
        ensures
            final(self).wf(),
            final(self)@ == if old(self)@.failed {
                old(self)@
            } else {
                old(self)@.with_entry(state_entry_bytes(old(self)@.timestamp, state@))
            },
    {
        if self.failed {
            return ;
        }
        append_state_entry(&mut self.buffer, self.timestamp.as_str(), state);
        proof {
            let entry = state_entry_bytes(old(self)@.timestamp, state@);
            self.entries@ = self.entries@.push(entry);
            old(self)@.lemma_with_entry(entry);
        }
    }

    /// Renders the fixed row that ends an interval, unless a write failed.
    pub fn write_baseline_entry(&mut self)
        requires
            old(self).wf(),
        ensures
            final(self).wf(),
            final(self)@ == if old(self)@.failed {
                old(self)@
            } else {
                old(self)@.with_entry(baseline_entry_bytes(old(self)@.timestamp))
            },
    {
        if self.failed {
            return ;
        }
        append_baseline_entry(&mut self.buffer, self.timestamp.as_str());
        proof {
            let entry = baseline_entry_bytes(old(self)@.timestamp);
            self.entries@ = self.entries@.push(entry);
            old(self)@.lemma_with_entry(entry);
        }
    }

    /// Whether the buffer is full enough to be written now.
    pub fn flush_due(&self) -> (due: bool)
        ensures
            due == self@.flush_due(),
    {
        !self.failed && self.buffer.len() >= PROFILE_BUFFER_LIMIT
    }

    /// Whether something is left to be written at the end.
    pub fn flush_left(&self) -> (left: bool)
        ensures
            left == self@.flush_left(),
    {
        !self.failed && self.buffer.len() > 0
    }

    /// What waits to be written.
    pub fn buffer(&self) -> (buffer: &Vec<u8>)
        ensures
            buffer@ == self@.buffer,
    {
        &self.buffer
    }

    /// Takes note of whether the buffer could be written. Either way it is emptied: an
    /// unavailable filesystem must not turn into an unbounded in-memory log buffer.
    pub fn flushed(&mut self, success: bool)
        requires
            old(self).wf(),
            !old(self)@.failed,
        ensures
            final(self).wf(),
            final(self)@ == old(self)@.after_flush(success),
    {
        self.buffer.clear();
        if !success {
            self.failed = true;
        }
        proof {
            if success {
                self.written@ = old(self)@.written + old(self)@.buffer;
            }
            assert(self@.written + self@.buffer =~= self@.written);
        }
    }

    /// Whether a write failed.
    pub fn failed(&self) -> (failed: bool)
        ensures
            failed == self@.failed,
    {
        self.failed
    }

    /// Gives the buffer back for the next interval.
    pub fn into_buffer(self) -> (buffer: Vec<u8>)
        ensures
            buffer@ == self@.buffer,
    {
        self.buffer
    }
}

} // verus!
