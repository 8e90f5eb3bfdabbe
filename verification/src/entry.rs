//! Log entries: one JSON line for each profile row, state and baseline.
use crate::json::{append_json_string, json_string};
use crate::metric::{MetricSnapshot, MetricSpec, SnapshotView};
use crate::plan::ProfileFormat;
use crate::state::{field_views, state_label, StateSnapshot, StateView};
use crate::text::{
    append_decimal, append_text, decimal, lemma_one_line_prefix, lemma_one_line_text,
    lemma_printable_text, one_line, printable, printable_text, utf8,
};
use vstd::prelude::*;

verus! {

/// A label and the number behind it.
pub open spec fn labelled(label: Seq<char>, n: u64) -> Seq<u8> {
    utf8(label) + decimal(n as nat)
}

/// The first part of every entry: the time, the profile type and the name.
pub open spec fn header_bytes(
    timestamp: Seq<char>,
    metric_type: Seq<char>,
    name: Seq<char>,
) -> Seq<u8> {
    utf8(timestamp) + utf8(" {\"type\":"@) + json_string(metric_type) + utf8(",\"name\":"@)
        + json_string(name)
}

/// A text between two quotes.
pub open spec fn quoted(text: Seq<char>) -> Seq<u8> {
    utf8("\""@) + utf8(text) + utf8("\""@)
}

/// The average of a resource row: the text of the average in quotes, or `0.0` if there is nothing
/// to average.
pub open spec fn resource_average_bytes(total: u64, average: Seq<char>) -> Seq<u8> {
    if total == 0 {
        utf8("0.0"@)
    } else {
        quoted(average)
    }
}

/// The average of an access-statistic row.
pub open spec fn access_average_bytes(total: u64, average: Seq<char>) -> Seq<u8> {
    if total == 0 {
        utf8("\"0\""@)
    } else {
        quoted(average)
    }
}

/// The counters of a resource row, up to the average.
pub open spec fn resource_counts_bytes(slow_threshold_ms: u64, snapshot: SnapshotView) -> Seq<u8> {
    labelled(",\"slowThreshold\":"@, slow_threshold_ms) + labelled(
        ",\"total_count\":"@,
        snapshot.total,
    ) + labelled(",\"error_count\":"@, snapshot.failure) + labelled(
        ",\"slow_count\":"@,
        snapshot.slow,
    ) + utf8(",\"avg_time\":"@)
}

/// The buckets of a resource row.
pub open spec fn resource_intervals_bytes(intervals: Seq<u64>) -> Seq<u8> {
    labelled(",\"interval1\":"@, intervals[0]) + labelled(",\"interval2\":"@, intervals[1])
        + labelled(",\"interval3\":"@, intervals[2]) + labelled(",\"interval4\":"@, intervals[3])
        + labelled(",\"interval5\":"@, intervals[4]) + utf8("}\n"@)
}

/// A row with resource fields and numeric counters.
pub open spec fn resource_entry_bytes(
    timestamp: Seq<char>,
    metric_type: Seq<char>,
    name: Seq<char>,
    slow_threshold_ms: u64,
    snapshot: SnapshotView,
    average: Seq<char>,
) -> Seq<u8> {
    header_bytes(timestamp, metric_type, name) + resource_counts_bytes(slow_threshold_ms, snapshot)
        + resource_average_bytes(snapshot.total, average) + resource_intervals_bytes(
        snapshot.intervals,
    )
}

/// The counters of an access-statistic row, up to the average.
pub open spec fn access_counts_bytes(slow_threshold_ms: u64, snapshot: SnapshotView) -> Seq<u8> {
    labelled(",\"slowThreshold\":\""@, slow_threshold_ms) + labelled(
        "\",\"total_count\":\""@,
        snapshot.total,
    ) + labelled("\",\"slow_count\":\""@, snapshot.slow) + utf8("\",\"avg_time\":"@)
}

/// The buckets of an access-statistic row.
pub open spec fn access_intervals_bytes(intervals: Seq<u64>) -> Seq<u8> {
    labelled(",\"interval1\":\""@, intervals[0]) + labelled("\",\"interval2\":\""@, intervals[1])
        + labelled("\",\"interval3\":\""@, intervals[2]) + labelled(
        "\",\"interval4\":\""@,
        intervals[3],
    ) + labelled("\",\"interval5\":\""@, intervals[4])
}

/// The rest of an access-statistic row: only the failures are counted.
pub open spec fn access_tail_bytes(failure: u64) -> Seq<u8> {
    utf8("\",\"p75\":\"0.00\",\"p95\":\"0.00\",\"p98\":\"0.00\",\"p99\":\"0.00\""@) + utf8(
        ",\"p999\":\"0.00\",\"biz_excp\":\"0\""@,
    ) + labelled(",\"other_excp\":\""@, failure) + utf8(
        "\",\"avg_tps\":\"0\",\"max_tps\":\"0\",\"min_tps\":\"0\"}\n"@,
    )
}

/// A row with access-statistic fields and string counters.
pub open spec fn access_entry_bytes(
    timestamp: Seq<char>,
    metric_type: Seq<char>,
    name: Seq<char>,
    slow_threshold_ms: u64,
    snapshot: SnapshotView,
    average: Seq<char>,
) -> Seq<u8> {
    header_bytes(timestamp, metric_type, name) + access_counts_bytes(slow_threshold_ms, snapshot)
        + access_average_bytes(snapshot.total, average) + access_intervals_bytes(
        snapshot.intervals,
    ) + access_tail_bytes(snapshot.failure)
}

/// A profile row in either format.
pub open spec fn profile_entry_bytes(
    timestamp: Seq<char>,
    metric_type: Seq<char>,
    name: Seq<char>,
    slow_threshold_ms: u64,
    format: ProfileFormat,
    snapshot: SnapshotView,
    average: Seq<char>,
) -> Seq<u8> {
    match format {
        ProfileFormat::Resource => resource_entry_bytes(
            timestamp,
            metric_type,
            name,
            slow_threshold_ms,
            snapshot,
            average,
        ),
        ProfileFormat::AccessStatistic => access_entry_bytes(
            timestamp,
            metric_type,
            name,
            slow_threshold_ms,
            snapshot,
            average,
        ),
    }
}

/// One field of a state row.
pub open spec fn field_bytes(field: (Seq<char>, Seq<char>)) -> Seq<u8> {
    utf8(","@) + json_string(field.0) + utf8(":"@) + json_string(field.1)
}

/// The fields of a state row.
pub open spec fn fields_bytes(fields: Seq<(Seq<char>, Seq<char>)>) -> Seq<u8>
    decreases fields.len(),
{
    if fields.len() == 0 {
        seq![]
    } else {
        fields_bytes(fields.drop_last()) + field_bytes(fields.last())
    }
}

/// A state row.
pub open spec fn state_entry_bytes(timestamp: Seq<char>, state: StateView) -> Seq<u8> {
    header_bytes(timestamp, state_label(state.state_type), state.name) + fields_bytes(state.fields)
        + utf8("}\n"@)
}

/// The fixed row that ends every interval.
pub open spec fn baseline_entry_bytes(timestamp: Seq<char>) -> Seq<u8> {
    utf8(timestamp) + utf8(" {\"type\":\"OTHER\",\"name\":\"other://profile_baseline\""@) + utf8(
        ",\"total_count\":10,\"error_count\":1,\"slow_count\":1,\"avg_time\":1.0"@,
    ) + utf8(
        ",\"interval1\":6,\"interval2\":1,\"interval3\":1,\"interval4\":1,\"interval5\":1}\n"@,
    )
}

/// Appends a label and a number.
fn append_labelled(buffer: &mut Vec<u8>, label: &str, n: u64)
    ensures
        final(buffer)@ == old(buffer)@ + labelled(label@, n),
{
    append_text(buffer, label);
    append_decimal(buffer, n);
    assert(buffer@ =~= old(buffer)@ + labelled(label@, n));
}

/// Appends a text between two quotes.
fn append_quoted(buffer: &mut Vec<u8>, text: &str)
    ensures
        final(buffer)@ == old(buffer)@ + quoted(text@),
{
    append_text(buffer, "\"");
    append_text(buffer, text);
    append_text(buffer, "\"");
    assert(buffer@ =~= old(buffer)@ + quoted(text@));
}

/// Appends the first part of an entry.
pub fn append_entry_header(buffer: &mut Vec<u8>, timestamp: &str, metric_type: &str, name: &str)
    ensures
        final(buffer)@ == old(buffer)@ + header_bytes(timestamp@, metric_type@, name@),
{
    append_text(buffer, timestamp);
    append_text(buffer, " {\"type\":");
    append_json_string(buffer, metric_type);
    append_text(buffer, ",\"name\":");
    append_json_string(buffer, name);
    assert(buffer@ =~= old(buffer)@ + header_bytes(timestamp@, metric_type@, name@));
}

/// Appends the average of a resource row. `average` is the average in milliseconds with two
/// decimals; it is not used if there is nothing to average.
pub fn append_resource_average(buffer: &mut Vec<u8>, snapshot: MetricSnapshot, average: &str)
    ensures
        final(buffer)@ == old(buffer)@ + resource_average_bytes(snapshot.total, average@),
{
    if snapshot.total == 0 {
        append_text(buffer, "0.0");
    } else {
        append_quoted(buffer, average);
    }
}

fn append_resource_counts(buffer: &mut Vec<u8>, profile: MetricSpec, snapshot: MetricSnapshot)
    ensures
        final(buffer)@ == old(buffer)@ + resource_counts_bytes(
            profile.slow_threshold_ms,
            snapshot@,
        ),
{
    append_labelled(buffer, ",\"slowThreshold\":", profile.slow_threshold_ms);
    append_labelled(buffer, ",\"total_count\":", snapshot.total);
    append_labelled(buffer, ",\"error_count\":", snapshot.failure);
    append_labelled(buffer, ",\"slow_count\":", snapshot.slow);
    append_text(buffer, ",\"avg_time\":");
    assert(buffer@ =~= old(buffer)@ + resource_counts_bytes(profile.slow_threshold_ms, snapshot@));
}

fn append_resource_intervals(buffer: &mut Vec<u8>, snapshot: MetricSnapshot)
    ensures
        final(buffer)@ == old(buffer)@ + resource_intervals_bytes(snapshot@.intervals),
{
    append_labelled(buffer, ",\"interval1\":", snapshot.intervals[0]);
    append_labelled(buffer, ",\"interval2\":", snapshot.intervals[1]);
    append_labelled(buffer, ",\"interval3\":", snapshot.intervals[2]);
    append_labelled(buffer, ",\"interval4\":", snapshot.intervals[3]);
    append_labelled(buffer, ",\"interval5\":", snapshot.intervals[4]);
    append_text(buffer, "}\n");
    assert(buffer@ =~= old(buffer)@ + resource_intervals_bytes(snapshot@.intervals));
}

/// Appends a row with resource fields and numeric counters.
pub fn append_resource_entry(
    buffer: &mut Vec<u8>,
    timestamp: &str,
    metric_type: &str,
    name: &str,
    profile: MetricSpec,
    snapshot: MetricSnapshot,
    average: &str,
)
    ensures
        final(buffer)@ == old(buffer)@ + resource_entry_bytes(
            timestamp@,
            metric_type@,
            name@,
            profile.slow_threshold_ms,
            snapshot@,
            average@,
        ),
{
    append_entry_header(buffer, timestamp, metric_type, name);
    append_resource_counts(buffer, profile, snapshot);
    append_resource_average(buffer, snapshot, average);
    append_resource_intervals(buffer, snapshot);
    assert(buffer@ =~= old(buffer)@ + resource_entry_bytes(
        timestamp@,
        metric_type@,
        name@,
        profile.slow_threshold_ms,
        snapshot@,
        average@,
    ));
}

fn append_access_counts(buffer: &mut Vec<u8>, profile: MetricSpec, snapshot: MetricSnapshot)
    ensures
        final(buffer)@ == old(buffer)@ + access_counts_bytes(profile.slow_threshold_ms, snapshot@),
{
    append_labelled(buffer, ",\"slowThreshold\":\"", profile.slow_threshold_ms);
    append_labelled(buffer, "\",\"total_count\":\"", snapshot.total);
    append_labelled(buffer, "\",\"slow_count\":\"", snapshot.slow);
    append_text(buffer, "\",\"avg_time\":");
    assert(buffer@ =~= old(buffer)@ + access_counts_bytes(profile.slow_threshold_ms, snapshot@));
}

fn append_access_intervals(buffer: &mut Vec<u8>, snapshot: MetricSnapshot)
    ensures
        final(buffer)@ == old(buffer)@ + access_intervals_bytes(snapshot@.intervals),
{
    append_labelled(buffer, ",\"interval1\":\"", snapshot.intervals[0]);
    append_labelled(buffer, "\",\"interval2\":\"", snapshot.intervals[1]);
    append_labelled(buffer, "\",\"interval3\":\"", snapshot.intervals[2]);
    append_labelled(buffer, "\",\"interval4\":\"", snapshot.intervals[3]);
    append_labelled(buffer, "\",\"interval5\":\"", snapshot.intervals[4]);
    assert(buffer@ =~= old(buffer)@ + access_intervals_bytes(snapshot@.intervals));
}

fn append_access_tail(buffer: &mut Vec<u8>, failure: u64)
    ensures
        final(buffer)@ == old(buffer)@ + access_tail_bytes(failure),
{
    append_text(
        buffer,
        "\",\"p75\":\"0.00\",\"p95\":\"0.00\",\"p98\":\"0.00\",\"p99\":\"0.00\"",
    );
    append_text(buffer, ",\"p999\":\"0.00\",\"biz_excp\":\"0\"");
    append_labelled(buffer, ",\"other_excp\":\"", failure);
    append_text(buffer, "\",\"avg_tps\":\"0\",\"max_tps\":\"0\",\"min_tps\":\"0\"}\n");
    assert(buffer@ =~= old(buffer)@ + access_tail_bytes(failure));
}

/// Appends a row with access-statistic fields and string counters.
pub fn append_access_statistic_entry(
    buffer: &mut Vec<u8>,
    timestamp: &str,
    metric_type: &str,
    name: &str,
    profile: MetricSpec,
    snapshot: MetricSnapshot,
    average: &str,
)
    ensures
        final(buffer)@ == old(buffer)@ + access_entry_bytes(
            timestamp@,
            metric_type@,
            name@,
            profile.slow_threshold_ms,
            snapshot@,
            average@,
        ),
{
    append_entry_header(buffer, timestamp, metric_type, name);
    append_access_counts(buffer, profile, snapshot);
    if snapshot.total == 0 {
        append_text(buffer, "\"0\"");
    } else {
        append_quoted(buffer, average);
    }
    append_access_intervals(buffer, snapshot);
    append_access_tail(buffer, snapshot.failure);
    assert(buffer@ =~= old(buffer)@ + access_entry_bytes(
        timestamp@,
        metric_type@,
        name@,
        profile.slow_threshold_ms,
        snapshot@,
        average@,
    ));
}

/// Appends a profile row in the given format. `average` is the average in milliseconds with two
/// decimals.
pub fn append_profile_entry(
    buffer: &mut Vec<u8>,
    timestamp: &str,
    metric_type: &str,
    name: &str,
    profile: MetricSpec,
    format: ProfileFormat,
    snapshot: MetricSnapshot,
    average: &str,
)
    ensures
        final(buffer)@ == old(buffer)@ + profile_entry_bytes(
            timestamp@,
            metric_type@,
            name@,
            profile.slow_threshold_ms,
            format,
            snapshot@,
            average@,
        ),
{
    match format {
        ProfileFormat::Resource => append_resource_entry(
            buffer,
            timestamp,
            metric_type,
            name,
            profile,
            snapshot,
            average,
        ),
        ProfileFormat::AccessStatistic => append_access_statistic_entry(
            buffer,
            timestamp,
            metric_type,
            name,
            profile,
            snapshot,
            average,
        ),
    }
}

/// Appends a state row.
pub fn append_state_entry(buffer: &mut Vec<u8>, timestamp: &str, state: &StateSnapshot)
    ensures
        final(buffer)@ == old(buffer)@ + state_entry_bytes(timestamp@, state@),
{
    append_entry_header(
        buffer,
        timestamp,
        state.state_type.profile_type(),
        state.name.as_str(),
    );
    let ghost start = buffer@;
    let ghost fields = field_views(state.fields@);
    let mut i: usize = 0;
    assert(fields.take(0).len() == 0);
    assert(start + fields_bytes(fields.take(0)) =~= start);
    while i < state.fields.len()
        invariant
            i <= state.fields@.len(),
            fields == field_views(state.fields@),
            buffer@ == start + fields_bytes(fields.take(i as int)),
        decreases state.fields@.len() - i,
    {
        let ghost done = buffer@;
        append_text(buffer, ",");
        append_json_string(buffer, state.fields[i].0.as_str());
        append_text(buffer, ":");
        append_json_string(buffer, state.fields[i].1.as_str());
        proof {
            assert(buffer@ =~= done + field_bytes(fields[i as int]));
            assert(fields.take(i + 1).drop_last() =~= fields.take(i as int));
            assert(buffer@ =~= start + fields_bytes(fields.take(i + 1)));
        }
        i += 1;
    }
    assert(fields.take(i as int) =~= fields);
    append_text(buffer, "}\n");
    assert(buffer@ =~= old(buffer)@ + state_entry_bytes(timestamp@, state@));
}

/// Appends the fixed `other://profile_baseline` sentinel, which lets monitors confirm that the
/// profiler is alive. Its values are constant by design.
pub fn append_baseline_entry(buffer: &mut Vec<u8>, timestamp: &str)
    ensures
        final(buffer)@ == old(buffer)@ + baseline_entry_bytes(timestamp@),
{
    append_text(buffer, timestamp);
    append_text(buffer, " {\"type\":\"OTHER\",\"name\":\"other://profile_baseline\"");
    append_text(buffer, ",\"total_count\":10,\"error_count\":1,\"slow_count\":1,\"avg_time\":1.0");
    append_text(
        buffer,
        ",\"interval1\":6,\"interval2\":1,\"interval3\":1,\"interval4\":1,\"interval5\":1}\n",
    );
    assert(buffer@ =~= old(buffer)@ + baseline_entry_bytes(timestamp@));
}

/// The fixed texts around names and averages are printable.
proof fn lemma_common_texts()
    ensures
        printable(utf8("\""@)),
        printable(utf8("0.0"@)),
        printable(utf8("\"0\""@)),
        printable(utf8(" {\"type\":"@)),
        printable(utf8(",\"name\":"@)),
{
    reveal_strlit("\"");
    lemma_printable_text("\""@);
    reveal_strlit("0.0");
    lemma_printable_text("0.0"@);
    reveal_strlit("\"0\"");
    lemma_printable_text("\"0\""@);
    reveal_strlit(" {\"type\":");
    lemma_printable_text(" {\"type\":"@);
    reveal_strlit(",\"name\":");
    lemma_printable_text(",\"name\":"@);
}

/// The labels of a resource row are printable.
proof fn lemma_resource_texts()
    ensures
        printable(utf8(",\"slowThreshold\":"@)),
        printable(utf8(",\"total_count\":"@)),
        printable(utf8(",\"error_count\":"@)),
        printable(utf8(",\"slow_count\":"@)),
        printable(utf8(",\"avg_time\":"@)),
        printable(utf8(",\"interval1\":"@)),
        printable(utf8(",\"interval2\":"@)),
        printable(utf8(",\"interval3\":"@)),
        printable(utf8(",\"interval4\":"@)),
        printable(utf8(",\"interval5\":"@)),
{
    reveal_strlit(",\"slowThreshold\":");
    lemma_printable_text(",\"slowThreshold\":"@);
    reveal_strlit(",\"total_count\":");
    lemma_printable_text(",\"total_count\":"@);
    reveal_strlit(",\"error_count\":");
    lemma_printable_text(",\"error_count\":"@);
    reveal_strlit(",\"slow_count\":");
    lemma_printable_text(",\"slow_count\":"@);
    reveal_strlit(",\"avg_time\":");
    lemma_printable_text(",\"avg_time\":"@);
    reveal_strlit(",\"interval1\":");
    lemma_printable_text(",\"interval1\":"@);
    reveal_strlit(",\"interval2\":");
    lemma_printable_text(",\"interval2\":"@);
    reveal_strlit(",\"interval3\":");
    lemma_printable_text(",\"interval3\":"@);
    reveal_strlit(",\"interval4\":");
    lemma_printable_text(",\"interval4\":"@);
    reveal_strlit(",\"interval5\":");
    lemma_printable_text(",\"interval5\":"@);
}

/// The labels of an access-statistic row are printable.
proof fn lemma_access_texts()
    ensures
        printable(utf8(",\"slowThreshold\":\""@)),
        printable(utf8("\",\"total_count\":\""@)),
        printable(utf8("\",\"slow_count\":\""@)),
        printable(utf8("\",\"avg_time\":"@)),
        printable(utf8(",\"interval1\":\""@)),
        printable(utf8("\",\"interval2\":\""@)),
        printable(utf8("\",\"interval3\":\""@)),
        printable(utf8("\",\"interval4\":\""@)),
        printable(utf8("\",\"interval5\":\""@)),
{
    reveal_strlit(",\"slowThreshold\":\"");
    lemma_printable_text(",\"slowThreshold\":\""@);
    reveal_strlit("\",\"total_count\":\"");
    lemma_printable_text("\",\"total_count\":\""@);
    reveal_strlit("\",\"slow_count\":\"");
    lemma_printable_text("\",\"slow_count\":\""@);
    reveal_strlit("\",\"avg_time\":");
    lemma_printable_text("\",\"avg_time\":"@);
    reveal_strlit(",\"interval1\":\"");
    lemma_printable_text(",\"interval1\":\""@);
    reveal_strlit("\",\"interval2\":\"");
    lemma_printable_text("\",\"interval2\":\""@);
    reveal_strlit("\",\"interval3\":\"");
    lemma_printable_text("\",\"interval3\":\""@);
    reveal_strlit("\",\"interval4\":\"");
    lemma_printable_text("\",\"interval4\":\""@);
    reveal_strlit("\",\"interval5\":\"");
    lemma_printable_text("\",\"interval5\":\""@);
}

/// The fixed fields of an access-statistic row are printable.
proof fn lemma_access_tail_texts()
    ensures
        printable(utf8("\",\"p75\":\"0.00\",\"p95\":\"0.00\",\"p98\":\"0.00\",\"p99\":\"0.00\""@)),
        printable(utf8(",\"p999\":\"0.00\",\"biz_excp\":\"0\""@)),
        printable(utf8(",\"other_excp\":\""@)),
{
    reveal_strlit("\",\"p75\":\"0.00\",\"p95\":\"0.00\",\"p98\":\"0.00\",\"p99\":\"0.00\"");
    lemma_printable_text("\",\"p75\":\"0.00\",\"p95\":\"0.00\",\"p98\":\"0.00\",\"p99\":\"0.00\""@);
    reveal_strlit(",\"p999\":\"0.00\",\"biz_excp\":\"0\"");
    lemma_printable_text(",\"p999\":\"0.00\",\"biz_excp\":\"0\""@);
    reveal_strlit(",\"other_excp\":\"");
    lemma_printable_text(",\"other_excp\":\""@);
}


/// A label and a number are printable if the label is.
proof fn lemma_labelled(label: Seq<char>, n: u64)
    requires
        printable(utf8(label)),
    ensures
        printable(labelled(label, n)),
{
    crate::text::law_decimal_reads_back(n as nat);
    assert forall|i: int| 0 <= i < decimal(n as nat).len() implies #[trigger] decimal(n as nat)[i]
        >= 0x20 by {}
}

/// The end of a row is a line feed.
proof fn lemma_end_of_line()
    ensures
        one_line(utf8("}\n"@)),
{
    reveal_strlit("}\n");
    lemma_one_line_text("}\n"@);
}

proof fn lemma_header_printable(timestamp: Seq<char>, metric_type: Seq<char>, name: Seq<char>)
    requires
        printable_text(timestamp),
    ensures
        printable(header_bytes(timestamp, metric_type, name)),
{
    lemma_common_texts();
    lemma_printable_text(timestamp);
    crate::json::law_json_string_is_printable(metric_type);
    crate::json::law_json_string_is_printable(name);
}

proof fn lemma_quoted_printable(text: Seq<char>)
    requires
        printable_text(text),
    ensures
        printable(quoted(text)),
{
    lemma_common_texts();
    lemma_printable_text(text);
}

proof fn lemma_resource_entry_is_one_line(
    timestamp: Seq<char>,
    metric_type: Seq<char>,
    name: Seq<char>,
    slow_threshold_ms: u64,
    snapshot: SnapshotView,
    average: Seq<char>,
)
    requires
        printable_text(timestamp),
        printable_text(average),
    ensures
        one_line(
            resource_entry_bytes(
                timestamp,
                metric_type,
                name,
                slow_threshold_ms,
                snapshot,
                average,
            ),
        ),
{
    lemma_header_printable(timestamp, metric_type, name);
    lemma_common_texts();
    lemma_quoted_printable(average);
    let counts = resource_counts_bytes(slow_threshold_ms, snapshot);
    assert(printable(counts)) by {
        lemma_resource_texts();
        lemma_labelled(",\"slowThreshold\":"@, slow_threshold_ms);
        lemma_labelled(",\"total_count\":"@, snapshot.total);
        lemma_labelled(",\"error_count\":"@, snapshot.failure);
        lemma_labelled(",\"slow_count\":"@, snapshot.slow);
    }
    let intervals = resource_intervals_bytes(snapshot.intervals);
    assert(one_line(intervals)) by {
        lemma_resource_texts();
        lemma_end_of_line();
        lemma_labelled(",\"interval1\":"@, snapshot.intervals[0]);
        lemma_labelled(",\"interval2\":"@, snapshot.intervals[1]);
        lemma_labelled(",\"interval3\":"@, snapshot.intervals[2]);
        lemma_labelled(",\"interval4\":"@, snapshot.intervals[3]);
        lemma_labelled(",\"interval5\":"@, snapshot.intervals[4]);
        lemma_one_line_prefix(
            labelled(",\"interval1\":"@, snapshot.intervals[0]) + labelled(
                ",\"interval2\":"@,
                snapshot.intervals[1],
            ) + labelled(",\"interval3\":"@, snapshot.intervals[2]) + labelled(
                ",\"interval4\":"@,
                snapshot.intervals[3],
            ) + labelled(",\"interval5\":"@, snapshot.intervals[4]),
            utf8("}\n"@),
        );
    }
    lemma_one_line_prefix(
        header_bytes(timestamp, metric_type, name) + counts + resource_average_bytes(
            snapshot.total,
            average,
        ),
        intervals,
    );
}

proof fn lemma_access_entry_is_one_line(
    timestamp: Seq<char>,
    metric_type: Seq<char>,
    name: Seq<char>,
    slow_threshold_ms: u64,
    snapshot: SnapshotView,
    average: Seq<char>,
)
    requires
        printable_text(timestamp),
        printable_text(average),
    ensures
        one_line(
            access_entry_bytes(timestamp, metric_type, name, slow_threshold_ms, snapshot, average),
        ),
{
    lemma_header_printable(timestamp, metric_type, name);
    lemma_common_texts();
    lemma_quoted_printable(average);
    let counts = access_counts_bytes(slow_threshold_ms, snapshot);
    assert(printable(counts)) by {
        lemma_access_texts();
        lemma_labelled(",\"slowThreshold\":\""@, slow_threshold_ms);
        lemma_labelled("\",\"total_count\":\""@, snapshot.total);
        lemma_labelled("\",\"slow_count\":\""@, snapshot.slow);
    }
    let intervals = access_intervals_bytes(snapshot.intervals);
    assert(printable(intervals)) by {
        lemma_access_texts();
        lemma_labelled(",\"interval1\":\""@, snapshot.intervals[0]);
        lemma_labelled("\",\"interval2\":\""@, snapshot.intervals[1]);
        lemma_labelled("\",\"interval3\":\""@, snapshot.intervals[2]);
        lemma_labelled("\",\"interval4\":\""@, snapshot.intervals[3]);
        lemma_labelled("\",\"interval5\":\""@, snapshot.intervals[4]);
    }
    let tail = access_tail_bytes(snapshot.failure);
    assert(one_line(tail)) by {
        lemma_access_tail_texts();
        lemma_labelled(",\"other_excp\":\""@, snapshot.failure);
        reveal_strlit("\",\"avg_tps\":\"0\",\"max_tps\":\"0\",\"min_tps\":\"0\"}\n");
        lemma_one_line_text("\",\"avg_tps\":\"0\",\"max_tps\":\"0\",\"min_tps\":\"0\"}\n"@);
        lemma_one_line_prefix(
            utf8("\",\"p75\":\"0.00\",\"p95\":\"0.00\",\"p98\":\"0.00\",\"p99\":\"0.00\""@) + utf8(
                ",\"p999\":\"0.00\",\"biz_excp\":\"0\""@,
            ) + labelled(",\"other_excp\":\""@, snapshot.failure),
            utf8("\",\"avg_tps\":\"0\",\"max_tps\":\"0\",\"min_tps\":\"0\"}\n"@),
        );
    }
    lemma_one_line_prefix(
        header_bytes(timestamp, metric_type, name) + counts + access_average_bytes(
            snapshot.total,
            average,
        ) + intervals,
        tail,
    );
}

/// A profile row is exactly one line of the log, whatever its type and name are: no name can put
/// a second line into the log. Only the texts of the time and of the average have to be free of
/// control characters.
pub proof fn law_profile_entry_is_one_line(
    timestamp: Seq<char>,
    metric_type: Seq<char>,
    name: Seq<char>,
    slow_threshold_ms: u64,
    format: ProfileFormat,
    snapshot: SnapshotView,
    average: Seq<char>,
)
    requires
        printable_text(timestamp),
        printable_text(average),
    ensures
        one_line(
            profile_entry_bytes(
                timestamp,
                metric_type,
                name,
                slow_threshold_ms,
                format,
                snapshot,
                average,
            ),
        ),
{
    lemma_resource_entry_is_one_line(
        timestamp,
        metric_type,
        name,
        slow_threshold_ms,
        snapshot,
        average,
    );
    lemma_access_entry_is_one_line(
        timestamp,
        metric_type,
        name,
        slow_threshold_ms,
        snapshot,
        average,
    );
}

proof fn lemma_fields_printable(fields: Seq<(Seq<char>, Seq<char>)>)
    ensures
        printable(fields_bytes(fields)),
    decreases fields.len(),
{
    if fields.len() > 0 {
        lemma_fields_printable(fields.drop_last());
        let field = fields.last();
        crate::json::law_json_string_is_printable(field.0);
        crate::json::law_json_string_is_printable(field.1);
        reveal_strlit(",");
        lemma_printable_text(","@);
        reveal_strlit(":");
        lemma_printable_text(":"@);
        assert(printable(field_bytes(field)));
    }
}

/// A state row is exactly one line of the log, whatever its names and values are.
pub proof fn law_state_entry_is_one_line(timestamp: Seq<char>, state: StateView)
    requires
        printable_text(timestamp),
    ensures
        one_line(state_entry_bytes(timestamp, state)),
{
    lemma_header_printable(timestamp, state_label(state.state_type), state.name);
    lemma_fields_printable(state.fields);
    lemma_end_of_line();
    lemma_one_line_prefix(
        header_bytes(timestamp, state_label(state.state_type), state.name) + fields_bytes(
            state.fields,
        ),
        utf8("}\n"@),
    );
}

/// The baseline row is exactly one line of the log.
pub proof fn law_baseline_entry_is_one_line(timestamp: Seq<char>)
    requires
        printable_text(timestamp),
    ensures
        one_line(baseline_entry_bytes(timestamp)),
{
    lemma_printable_text(timestamp);
    reveal_strlit(" {\"type\":\"OTHER\",\"name\":\"other://profile_baseline\"");
    lemma_printable_text(" {\"type\":\"OTHER\",\"name\":\"other://profile_baseline\""@);
    reveal_strlit(",\"total_count\":10,\"error_count\":1,\"slow_count\":1,\"avg_time\":1.0");
    lemma_printable_text(
        ",\"total_count\":10,\"error_count\":1,\"slow_count\":1,\"avg_time\":1.0"@,
    );
    reveal_strlit(
        ",\"interval1\":6,\"interval2\":1,\"interval3\":1,\"interval4\":1,\"interval5\":1}\n",
    );
    lemma_one_line_text(
        ",\"interval1\":6,\"interval2\":1,\"interval3\":1,\"interval4\":1,\"interval5\":1}\n"@,
    );
    lemma_one_line_prefix(
        utf8(timestamp) + utf8(" {\"type\":\"OTHER\",\"name\":\"other://profile_baseline\""@)
            + utf8(",\"total_count\":10,\"error_count\":1,\"slow_count\":1,\"avg_time\":1.0"@),
        utf8(
            ",\"interval1\":6,\"interval2\":1,\"interval3\":1,\"interval4\":1,\"interval5\":1}\n"@,
        ),
    );
}

} // verus!
