//! Flush-time sums of the snapshots that share an aggregate output.
use crate::assoc::{assoc, distinct, has_key};
use crate::metric::{empty_snapshot, merged, MetricSnapshot, SnapshotView};
use crate::plan::{MetricPolicy, OutputView, ProfileFormat};
use crate::text::{relate, text_before, Relation};
use vstd::prelude::*;

verus! {

/// One profile row, before its average is known.
#[derive(Debug)]
pub struct ProfileRow {
    pub metric_type: String,
    pub name: String,
    pub policy: MetricPolicy,
    pub format: ProfileFormat,
    pub snapshot: MetricSnapshot,
}

/// What a [`ProfileRow`] holds, with its texts as character sequences.
#[verifier::ext_equal]
pub struct RowView {
    pub output: OutputView,
    pub policy: MetricPolicy,
    pub format: ProfileFormat,
    pub snapshot: SnapshotView,
}

impl View for ProfileRow {
    type V = RowView;

    open spec fn view(&self) -> RowView {
        RowView {
            output: OutputView { metric_type: self.metric_type@, name: self.name@ },
            policy: self.policy,
            format: self.format,
            snapshot: self.snapshot@,
        }
    }
}

/// The views of a sequence of rows.
pub open spec fn row_views(rows: Seq<ProfileRow>) -> Seq<RowView> {
    Seq::new(rows.len(), |i: int| rows[i]@)
}

/// The sum of one aggregate output, and how it is shown.
#[verifier::ext_equal]
pub struct AggregateSum {
    pub policy: MetricPolicy,
    pub format: ProfileFormat,
    pub snapshot: SnapshotView,
}

/// The sums so far, by type and name.
pub type AggregateMap = Map<OutputView, AggregateSum>;

/// Each row of a sequence as a map entry.
pub open spec fn row_pairs(rows: Seq<RowView>) -> Seq<(OutputView, AggregateSum)> {
    Seq::new(
        rows.len(),
        |i: int|
            (
                rows[i].output,
                AggregateSum {
                    policy: rows[i].policy,
                    format: rows[i].format,
                    snapshot: rows[i].snapshot,
                },
            ),
    )
}

/// The map that a sequence of rows stands for.
pub open spec fn rows_map(rows: Seq<RowView>) -> AggregateMap {
    assoc(row_pairs(rows))
}

/// The order of aggregate rows: by type, then by name.
pub open spec fn row_before(a: OutputView, b: OutputView) -> bool {
    if a.metric_type != b.metric_type {
        text_before(a.metric_type, b.metric_type)
    } else {
        text_before(a.name, b.name)
    }
}

/// Rows stand in order, each output once.
pub open spec fn rows_sorted(rows: Seq<RowView>) -> bool {
    forall|i: int, j: int|
        0 <= i < j < rows.len() ==> row_before(
            (#[trigger] rows[i]).output,
            (#[trigger] rows[j]).output,
        )
}

/// The sums after one more snapshot was added to that of an output. A sum is shown with the
/// policy and the format that came with its first snapshot.
pub open spec fn contributed(
    sums: AggregateMap,
    output: OutputView,
    policy: MetricPolicy,
    format: ProfileFormat,
    snapshot: SnapshotView,
) -> AggregateMap {
    let sum = if sums.contains_key(output) {
        sums[output]
    } else {
        AggregateSum { policy, format, snapshot: empty_snapshot() }
    };
    sums.insert(output, AggregateSum { snapshot: merged(sum.snapshot, snapshot), ..sum })
}

/// The order of aggregate rows is a strict total order.
pub proof fn lemma_row_order(a: OutputView, b: OutputView, c: OutputView)
    ensures
        !row_before(a, a),
        row_before(a, b) && row_before(b, c) ==> row_before(a, c),
        a == b || row_before(a, b) || row_before(b, a),
{
    crate::text::law_text_order_is_strict_and_total(a.metric_type, b.metric_type, c.metric_type);
    crate::text::law_text_order_is_strict_and_total(a.name, b.name, c.name);
}

/// No output of sorted rows is there twice.
pub proof fn lemma_rows_distinct(rows: Seq<RowView>)
    requires
        rows_sorted(rows),
    ensures
        distinct(row_pairs(rows)),
{
    let pairs = row_pairs(rows);
    assert forall|i: int, j: int|
        0 <= i < pairs.len() && 0 <= j < pairs.len() && i != j implies #[trigger] pairs[i].0
        != #[trigger] pairs[j].0 by {
        lemma_row_order(rows[i].output, rows[i].output, rows[i].output);
        if i < j {
            assert(row_before(rows[i].output, rows[j].output));
        } else {
            assert(row_before(rows[j].output, rows[i].output));
        }
    }
}

/// Tells how a row stands to an output in the order of aggregate rows.
fn relate_row(row: &ProfileRow, metric_type: &str, name: &str) -> (r: Relation)
    ensures
        ({
            let output = OutputView { metric_type: metric_type@, name: name@ };
            match r {
                Relation::Before => row_before(row@.output, output),
                Relation::Same => row@.output == output,
                Relation::After => row_before(output, row@.output),
            }
        }),
{
    proof {
        crate::text::law_text_order_is_strict_and_total(
            row.metric_type@,
            metric_type@,
            metric_type@,
        );
        crate::text::law_text_order_is_strict_and_total(row.name@, name@, name@);
        crate::text::law_text_order_is_strict_and_total(metric_type@, metric_type@, metric_type@);
    }
    match relate(row.metric_type.as_str(), metric_type) {
        Relation::Before => Relation::Before,
        Relation::After => Relation::After,
        Relation::Same => relate(row.name.as_str(), name),
    }
}

/// The sums of one interval.
pub struct Aggregates {
    rows: Vec<ProfileRow>,
}

impl View for Aggregates {
    type V = AggregateMap;

    closed spec fn view(&self) -> AggregateMap {
        rows_map(row_views(self.rows@))
    }
}

impl Aggregates {
    /// The rows are sorted, with no output twice.
    pub closed spec fn wf(&self) -> bool {
        rows_sorted(row_views(self.rows@))
    }

    /// No sums.
    pub fn new() -> (aggregates: Aggregates)
        ensures
            aggregates.wf(),
            aggregates@ == AggregateMap::empty(),
    {
        let aggregates = Aggregates { rows: Vec::new() };
        assert(aggregates@ =~= AggregateMap::empty());
        aggregates
    }

    /// Adds a snapshot to the sum of its output. The policy and the format count only if this is
    /// the first snapshot of that sum.
    pub fn contribute(
        &mut self,
        metric_type: &str,
        name: &str,
        policy: MetricPolicy,
        format: ProfileFormat,
        snapshot: MetricSnapshot,
    )
        requires
            old(self).wf(),
        ensures
            final(self).wf(),
            final(self)@ == contributed(
                old(self)@,
                OutputView { metric_type: metric_type@, name: name@ },
                policy,
                format,
                snapshot@,
            ),
    {
        let ghost output = OutputView { metric_type: metric_type@, name: name@ };
        let ghost before = row_views(self.rows@);
        let ghost pairs = row_pairs(before);
        proof {
            lemma_rows_distinct(before);
        }
        let mut i: usize = 0;
        while i < self.rows.len()
            invariant
                i <= self.rows@.len(),
                *self == *old(self),
                output == (OutputView { metric_type: metric_type@, name: name@ }),
                before == row_views(self.rows@),
                pairs == row_pairs(before),
                rows_sorted(before),
                distinct(pairs),
                forall|j: int| 0 <= j < i ==> row_before((#[trigger] before[j]).output, output),
            ensures
                i < before.len() ==> row_before(output, before[i as int].output),
            decreases self.rows@.len() - i,
        {
            match relate_row(&self.rows[i], metric_type, name) {
                Relation::Before => {
                    i += 1;
                },
                Relation::Same => {
                    self.rows[i].snapshot.merge(snapshot);
                    proof {
                        let after = row_views(self.rows@);
                        let sum = row_pairs(after)[i as int].1;
                        crate::assoc::lemma_assoc_entry(pairs, i as int);
                        crate::assoc::lemma_assoc_update(pairs, i as int, sum);
                        assert(row_pairs(after) =~= pairs.update(
                            i as int,
                            (pairs[i as int].0, sum),
                        ));
                        assert forall|j: int| 0 <= j < after.len() implies (
                        #[trigger] after[j]).output == before[j].output by {}
                    }
                    return ;
                },
                Relation::After => {
                    break ;
                },
            }
        }
        proof {
            assert forall|j: int| i <= j < before.len() implies row_before(
                output,
                (#[trigger] before[j]).output,
            ) by {
                if i < j {
                    lemma_row_order(output, before[i as int].output, before[j].output);
                }
            }
            lemma_row_order(output, output, output);
            assert(!has_key(pairs, output));
        }
        let mut sum = MetricSnapshot::default();
        sum.merge(snapshot);
        let ghost added = AggregateSum { policy, format, snapshot: sum@ };
        proof {
            crate::assoc::lemma_assoc_insert(pairs, i as int, output, added);
        }
        self.rows.insert(
            i,
            ProfileRow {
                metric_type: metric_type.to_string(),
                name: name.to_string(),
                policy,
                format,
                snapshot: sum,
            },
        );
        proof {
            let after = row_views(self.rows@);
            assert(row_pairs(after) =~= pairs.insert(i as int, (output, added)));
            assert forall|a: int, b: int| 0 <= a < b < after.len() implies row_before(
                (#[trigger] after[a]).output,
                (#[trigger] after[b]).output,
            ) by {
                if a < i {
                    assert(after[a] == before[a]);
                }
                if a > i {
                    assert(after[a] == before[a - 1]);
                }
                if b < i {
                    assert(after[b] == before[b]);
                }
                if b > i {
                    assert(after[b] == before[b - 1]);
                }
            }
        }
    }

    /// Takes out all sums, sorted by type and name.
    pub fn drain(&mut self) -> (rows: Vec<ProfileRow>)
        requires
            old(self).wf(),
        ensures
            final(self).wf(),
            final(self)@ == AggregateMap::empty(),
            rows_sorted(row_views(rows@)),
            rows_map(row_views(rows@)) == old(self)@,
    {
        let mut rows: Vec<ProfileRow> = Vec::new();
        rows.append(&mut self.rows);
        proof {
            assert(rows@ =~= old(self).rows@);
            assert(self@ =~= AggregateMap::empty());
        }
        rows
    }
}

} // verus!
