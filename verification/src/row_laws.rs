//! What a reader of the log finds in a line: every row, state and baseline reads back as what was
//! written.
use crate::aggregate::RowView;
use crate::entry::{
    access_average_bytes, access_counts_bytes, access_entry_bytes, access_intervals_bytes,
    access_tail_bytes, baseline_entry_bytes, field_bytes, fields_bytes, header_bytes, labelled,
    quoted, resource_average_bytes, resource_counts_bytes, resource_entry_bytes,
    resource_intervals_bytes, state_entry_bytes,
};
use crate::json::{escaped, escaped_byte, json_string};
use crate::line_reader::{
    is_bare, is_string, lemma_members_push, lemma_read_line, member_bytes, members_bytes, read_line,
    readable, Line, Member,
};
use crate::metric::{slow_threshold_ms, SnapshotView};
use crate::plan::{MetricPolicy, ProfileFormat};
use crate::state::{state_label, StateView};
use crate::text::{decimal, decimal_value, utf8};
use crate::writer::row_bytes;
use vstd::prelude::*;

verus! {

/// A text without control characters, quotes and backslashes, in ASCII.
pub open spec fn plain_text(text: Seq<char>) -> bool {
    forall|i: int|
        0 <= i < text.len() ==> ' ' <= #[trigger] text[i] <= '~' && text[i] != '"' && text[i]
            != '\\'
}

/// A key as it stands in a line, between quotes.
pub open spec fn key(name: Seq<char>) -> Seq<u8> {
    seq![0x22u8] + utf8(name) + seq![0x22u8]
}

/// Whether bytes are a decimal number without leading zeros.
pub open spec fn is_number(bytes: Seq<u8>) -> bool {
    &&& bytes.len() > 0
    &&& forall|i: int| 0 <= i < bytes.len() ==> 0x30 <= #[trigger] bytes[i] <= 0x39
    &&& bytes.len() > 1 ==> bytes[0] != 0x30
}

/// Whether a member with the key `name` holds the number `n`.
pub open spec fn holds_number(member: Member, name: Seq<char>, n: u64) -> bool {
    &&& member.0 == key(name)
    &&& is_number(member.1)
    &&& decimal_value(member.1) == n
}

/// Whether a member with the key `name` holds the number `n` between quotes.
pub open spec fn holds_quoted_number(member: Member, name: Seq<char>, n: u64) -> bool {
    &&& member.0 == key(name)
    &&& member.1.len() > 2
    &&& member.1[0] == 0x22
    &&& member.1.last() == 0x22
    &&& is_number(member.1.subrange(1, member.1.len() - 1))
    &&& decimal_value(member.1.subrange(1, member.1.len() - 1)) == n
}

/// Whether a member with the key `name` holds a text of plain characters between quotes.
pub open spec fn holds_plain(member: Member, name: Seq<char>, text: Seq<char>) -> bool {
    &&& member.0 == key(name)
    &&& member.1 == seq![0x22u8] + utf8(text) + seq![0x22u8]
}

/// Whether a member with the key `name` holds any text, as a JSON string.
pub open spec fn holds_text(member: Member, name: Seq<char>, text: Seq<char>) -> bool {
    &&& member.0 == key(name)
    &&& member.1 == json_string(text)
}

proof fn lemma_escaped_plain(bytes: Seq<u8>)
    requires
        forall|i: int|
            0 <= i < bytes.len() ==> #[trigger] bytes[i] >= 0x20 && bytes[i] != 0x22 && bytes[i]
                != 0x5c,
    ensures
        escaped(bytes) == bytes,
    decreases bytes.len(),
{
    if bytes.len() > 0 {
        let rest = bytes.drop_first();
        assert forall|i: int| 0 <= i < rest.len() implies #[trigger] rest[i] >= 0x20 && rest[i]
            != 0x22 && rest[i] != 0x5c by {
            assert(rest[i] == bytes[i + 1]);
        }
        lemma_escaped_plain(rest);
        assert(bytes[0] >= 0x20);
        assert(escaped_byte(bytes[0]) == seq![bytes[0]]);
        assert(escaped(bytes) =~= bytes);
    } else {
        assert(escaped(bytes) =~= bytes);
    }
}

/// Plain text between quotes can be read.
proof fn lemma_plain_string(text: Seq<char>)
    requires
        plain_text(text),
    ensures
        is_string(seq![0x22u8] + utf8(text) + seq![0x22u8]),
        is_string(key(text)),
{
    vstd::utf8::is_ascii_chars_encode_utf8(text);
    let bytes = utf8(text);
    assert forall|i: int| 0 <= i < bytes.len() implies #[trigger] bytes[i] >= 0x20 && bytes[i]
        != 0x22 && bytes[i] != 0x5c by {
        let c = text[i];
        assert(' ' <= c <= '~' && c != '"' && c != '\\');
        assert(c as u8 == bytes[i]);
    }
    lemma_escaped_plain(bytes);
    assert(seq![0x22u8] + escaped(bytes) + seq![0x22u8] == key(text));
}

proof fn lemma_json_string(text: Seq<char>)
    ensures
        is_string(json_string(text)),
{
    assert(json_string(text) == seq![0x22u8] + escaped(utf8(text)) + seq![0x22u8]);
}

proof fn lemma_number(n: u64)
    ensures
        is_number(decimal(n as nat)),
        decimal_value(decimal(n as nat)) == n,
        is_bare(decimal(n as nat)),
{
    crate::text::law_decimal_reads_back(n as nat);
    let digits = decimal(n as nat);
    assert forall|i: int| 0 <= i < digits.len() implies #[trigger] digits[i] != 0x2c && digits[i]
        != 0x7d && digits[i] != 0x22 by {}
}

proof fn lemma_quoted_number(n: u64)
    ensures
        ({
            let string = seq![0x22u8] + decimal(n as nat) + seq![0x22u8];
            &&& is_string(string)
            &&& string.len() > 2
            &&& string.subrange(1, string.len() - 1) == decimal(n as nat)
        }),
{
    lemma_number(n);
    let digits = decimal(n as nat);
    lemma_escaped_plain(digits);
    let string = seq![0x22u8] + digits + seq![0x22u8];
    assert(string == seq![0x22u8] + escaped(digits) + seq![0x22u8]);
    assert(string.subrange(1, string.len() - 1) =~= digits);
}

/// A label is made of a first part, a name and a last part.
proof fn lemma_label(label: Seq<char>, first: Seq<char>, name: Seq<char>, last: Seq<char>)
    requires
        label == first + name + last,
        plain_text(name),
        vstd::utf8::is_ascii_chars(first),
        vstd::utf8::is_ascii_chars(last),
    ensures
        utf8(label) == Seq::new(first.len(), |i: int| first[i] as u8) + utf8(name) + Seq::new(
            last.len(),
            |i: int| last[i] as u8,
        ),
        is_string(key(name)),
{
    crate::text::lemma_utf8_concat(first + name, last);
    crate::text::lemma_utf8_concat(first, name);
    vstd::utf8::is_ascii_chars_encode_utf8(first);
    vstd::utf8::is_ascii_chars_encode_utf8(last);
    assert(utf8(first) =~= Seq::new(first.len(), |i: int| first[i] as u8));
    assert(utf8(last) =~= Seq::new(last.len(), |i: int| last[i] as u8));
    lemma_plain_string(name);
}

/// A label of the form `,"name":`.
proof fn lemma_comma_label(label: Seq<char>, name: Seq<char>)
    requires
        label == seq![',', '"'] + name + seq!['"', ':'],
        plain_text(name),
    ensures
        utf8(label) == seq![0x2cu8] + key(name) + seq![0x3au8],
        is_string(key(name)),
{
    lemma_label(label, seq![',', '"'], name, seq!['"', ':']);
    assert(utf8(label) =~= seq![0x2cu8] + key(name) + seq![0x3au8]);
}

/// A label of the form `,"name":"`.
proof fn lemma_open_label(label: Seq<char>, name: Seq<char>)
    requires
        label == seq![',', '"'] + name + seq!['"', ':', '"'],
        plain_text(name),
    ensures
        utf8(label) == seq![0x2cu8] + key(name) + seq![0x3au8, 0x22u8],
        is_string(key(name)),
{
    lemma_label(label, seq![',', '"'], name, seq!['"', ':', '"']);
    assert(utf8(label) =~= seq![0x2cu8] + key(name) + seq![0x3au8, 0x22u8]);
}

/// A label of the form `","name":"`.
proof fn lemma_next_label(label: Seq<char>, name: Seq<char>)
    requires
        label == seq!['"', ',', '"'] + name + seq!['"', ':', '"'],
        plain_text(name),
    ensures
        utf8(label) == seq![0x22u8, 0x2cu8] + key(name) + seq![0x3au8, 0x22u8],
        is_string(key(name)),
{
    lemma_label(label, seq!['"', ',', '"'], name, seq!['"', ':', '"']);
    assert(utf8(label) =~= seq![0x22u8, 0x2cu8] + key(name) + seq![0x3au8, 0x22u8]);
}

/// What stands before the object in every line: the time, a space and an opening brace.
pub open spec fn head_bytes(timestamp: Seq<char>) -> Seq<u8> {
    utf8(timestamp) + seq![0x20u8, 0x7bu8]
}

/// Reads a line that was written at `timestamp`.
pub open spec fn read_entry(bytes: Seq<u8>, timestamp: Seq<char>) -> Line {
    read_line(bytes, head_bytes(timestamp).len() as int)
}

/// Whether a line starts with its time and ends with its object and a line feed.
pub open spec fn framed(line: Line, timestamp: Seq<char>) -> bool {
    &&& line.head == head_bytes(timestamp)
    &&& line.tail == seq![0x7du8, 0x0au8]
}

/// The members at the start of a row.
spec fn header_members(metric_type: Seq<char>, name: Seq<char>) -> Seq<Member> {
    seq![(key("type"@), json_string(metric_type)), (key("name"@), json_string(name))]
}

proof fn lemma_header(timestamp: Seq<char>, metric_type: Seq<char>, name: Seq<char>)
    ensures
        header_bytes(timestamp, metric_type, name) == head_bytes(timestamp) + members_bytes(
            header_members(metric_type, name),
        ),
        all_readable(header_members(metric_type, name)),
{
    reveal(all_readable);
    reveal_strlit("type");
    reveal_strlit("name");
    reveal_strlit(" {\"type\":");
    reveal_strlit(",\"name\":");
    assert(" {\"type\":"@ =~= seq![' ', '{', '"'] + "type"@ + seq!['"', ':']);
    lemma_label(" {\"type\":"@, seq![' ', '{', '"'], "type"@, seq!['"', ':']);
    assert(utf8(" {\"type\":"@) =~= seq![0x20u8, 0x7bu8] + key("type"@) + seq![0x3au8]);
    assert(",\"name\":"@ =~= seq![',', '"'] + "name"@ + seq!['"', ':']);
    lemma_comma_label(",\"name\":"@, "name"@);
    lemma_json_string(metric_type);
    lemma_json_string(name);
    let first = (key("type"@), json_string(metric_type));
    let second = (key("name"@), json_string(name));
    lemma_members_push(seq![first], second);
    assert(seq![first].push(second) =~= header_members(metric_type, name));
    assert(members_bytes(seq![first]) == member_bytes(first));
    assert(header_bytes(timestamp, metric_type, name) =~= head_bytes(timestamp) + members_bytes(
        header_members(metric_type, name),
    ));
}

/// Whether a reader can read every one of some members.
#[verifier::opaque]
spec fn all_readable(members: Seq<Member>) -> bool {
    forall|i: int| 0 <= i < members.len() ==> readable(#[trigger] members[i])
}

proof fn lemma_readable_push(members: Seq<Member>, member: Member)
    requires
        all_readable(members),
        readable(member),
    ensures
        all_readable(members.push(member)),
{
    reveal(all_readable);
}

/// One more member with a number.
proof fn lemma_add_number(members: Seq<Member>, label: Seq<char>, name: Seq<char>, n: u64)
    requires
        members.len() > 0,
        all_readable(members),
        label == seq![',', '"'] + name + seq!['"', ':'],
        plain_text(name),
    ensures
        members_bytes(members) + labelled(label, n) == members_bytes(
            members.push((key(name), decimal(n as nat))),
        ),
        all_readable(members.push((key(name), decimal(n as nat)))),
        holds_number((key(name), decimal(n as nat)), name, n),
{
    lemma_comma_label(label, name);
    lemma_number(n);
    let member = (key(name), decimal(n as nat));
    lemma_members_push(members, member);
    lemma_readable_push(members, member);
    assert(members_bytes(members) + labelled(label, n) =~= members_bytes(members) + seq![0x2cu8]
        + member_bytes(member));
}

/// The labels of a resource row are commas, keys and colons.
proof fn lemma_resource_labels()
    ensures
        ",\"slowThreshold\":"@ == seq![',', '"'] + "slowThreshold"@ + seq!['"', ':'],
        plain_text("slowThreshold"@),
        ",\"total_count\":"@ == seq![',', '"'] + "total_count"@ + seq!['"', ':'],
        plain_text("total_count"@),
        ",\"error_count\":"@ == seq![',', '"'] + "error_count"@ + seq!['"', ':'],
        plain_text("error_count"@),
        ",\"slow_count\":"@ == seq![',', '"'] + "slow_count"@ + seq!['"', ':'],
        plain_text("slow_count"@),
        ",\"avg_time\":"@ == seq![',', '"'] + "avg_time"@ + seq!['"', ':'],
        plain_text("avg_time"@),
        ",\"interval1\":"@ == seq![',', '"'] + "interval1"@ + seq!['"', ':'],
        plain_text("interval1"@),
        ",\"interval2\":"@ == seq![',', '"'] + "interval2"@ + seq!['"', ':'],
        plain_text("interval2"@),
        ",\"interval3\":"@ == seq![',', '"'] + "interval3"@ + seq!['"', ':'],
        plain_text("interval3"@),
        ",\"interval4\":"@ == seq![',', '"'] + "interval4"@ + seq!['"', ':'],
        plain_text("interval4"@),
        ",\"interval5\":"@ == seq![',', '"'] + "interval5"@ + seq!['"', ':'],
        plain_text("interval5"@),
{
    reveal_strlit(",\"slowThreshold\":");
    reveal_strlit("slowThreshold");
    assert(",\"slowThreshold\":"@ =~= seq![',', '"'] + "slowThreshold"@ + seq!['"', ':']);
    reveal_strlit(",\"total_count\":");
    reveal_strlit("total_count");
    assert(",\"total_count\":"@ =~= seq![',', '"'] + "total_count"@ + seq!['"', ':']);
    reveal_strlit(",\"error_count\":");
    reveal_strlit("error_count");
    assert(",\"error_count\":"@ =~= seq![',', '"'] + "error_count"@ + seq!['"', ':']);
    reveal_strlit(",\"slow_count\":");
    reveal_strlit("slow_count");
    assert(",\"slow_count\":"@ =~= seq![',', '"'] + "slow_count"@ + seq!['"', ':']);
    reveal_strlit(",\"avg_time\":");
    reveal_strlit("avg_time");
    assert(",\"avg_time\":"@ =~= seq![',', '"'] + "avg_time"@ + seq!['"', ':']);
    reveal_strlit(",\"interval1\":");
    reveal_strlit("interval1");
    assert(",\"interval1\":"@ =~= seq![',', '"'] + "interval1"@ + seq!['"', ':']);
    reveal_strlit(",\"interval2\":");
    reveal_strlit("interval2");
    assert(",\"interval2\":"@ =~= seq![',', '"'] + "interval2"@ + seq!['"', ':']);
    reveal_strlit(",\"interval3\":");
    reveal_strlit("interval3");
    assert(",\"interval3\":"@ =~= seq![',', '"'] + "interval3"@ + seq!['"', ':']);
    reveal_strlit(",\"interval4\":");
    reveal_strlit("interval4");
    assert(",\"interval4\":"@ =~= seq![',', '"'] + "interval4"@ + seq!['"', ':']);
    reveal_strlit(",\"interval5\":");
    reveal_strlit("interval5");
    assert(",\"interval5\":"@ =~= seq![',', '"'] + "interval5"@ + seq!['"', ':']);
}

/// The average of a resource row: `0.0` without quotes if there is nothing to average.
pub open spec fn holds_resource_average(member: Member, total: u64, average: Seq<char>) -> bool {
    &&& member.0 == key("avg_time"@)
    &&& total == 0 ==> member.1 == seq![0x30u8, 0x2eu8, 0x30u8]
    &&& total != 0 ==> member.1 == seq![0x22u8] + utf8(average) + seq![0x22u8]
}

proof fn lemma_quote_text(text: Seq<char>)
    ensures
        quoted(text) == seq![0x22u8] + utf8(text) + seq![0x22u8],
{
    reveal_strlit("\"");
    vstd::utf8::is_ascii_chars_encode_utf8("\""@);
    assert(utf8("\""@) =~= seq![0x22u8]);
}

proof fn lemma_end_text()
    ensures
        utf8("}\n"@) == seq![0x7du8, 0x0au8],
{
    reveal_strlit("}\n");
    vstd::utf8::is_ascii_chars_encode_utf8("}\n"@);
    assert(utf8("}\n"@) =~= seq![0x7du8, 0x0au8]);
}

proof fn lemma_regroup(x: Seq<u8>, a: Seq<u8>, b: Seq<u8>, c: Seq<u8>, d: Seq<u8>, e: Seq<u8>)
    ensures
        x + (a + b + c + d + e) == x + a + b + c + d + e,
{
    assert(x + (a + b + c + d + e) =~= x + a + b + c + d + e);
}

/// The members that hold the counters of a resource row.
spec fn resource_counts_members(
    members: Seq<Member>,
    slow_threshold_ms: u64,
    snapshot: SnapshotView,
) -> Seq<Member> {
    members.push((key("slowThreshold"@), decimal(slow_threshold_ms as nat))).push(
        (key("total_count"@), decimal(snapshot.total as nat)),
    ).push((key("error_count"@), decimal(snapshot.failure as nat))).push(
        (key("slow_count"@), decimal(snapshot.slow as nat)),
    )
}

proof fn lemma_resource_counts(
    m2: Seq<Member>,
    slow_threshold_ms: u64,
    snapshot: SnapshotView,
) -> (m6: Seq<Member>)
    requires
        m2.len() > 0,
        all_readable(m2),
    ensures
        m6 == resource_counts_members(m2, slow_threshold_ms, snapshot),
        members_bytes(m2) + resource_counts_bytes(slow_threshold_ms, snapshot) == members_bytes(m6)
            + utf8(",\"avg_time\":"@),
        all_readable(m6),
        holds_number(m6[m2.len() as int], "slowThreshold"@, slow_threshold_ms),
        holds_number(m6[m2.len() as int + 1], "total_count"@, snapshot.total),
        holds_number(m6[m2.len() as int + 2], "error_count"@, snapshot.failure),
        holds_number(m6[m2.len() as int + 3], "slow_count"@, snapshot.slow),
{
    lemma_resource_labels();
    let m3 = m2.push((key("slowThreshold"@), decimal(slow_threshold_ms as nat)));
    let m4 = m3.push((key("total_count"@), decimal(snapshot.total as nat)));
    let m5 = m4.push((key("error_count"@), decimal(snapshot.failure as nat)));
    let m6 = m5.push((key("slow_count"@), decimal(snapshot.slow as nat)));
    lemma_add_number(m2, ",\"slowThreshold\":"@, "slowThreshold"@, slow_threshold_ms);
    lemma_add_number(m3, ",\"total_count\":"@, "total_count"@, snapshot.total);
    lemma_add_number(m4, ",\"error_count\":"@, "error_count"@, snapshot.failure);
    lemma_add_number(m5, ",\"slow_count\":"@, "slow_count"@, snapshot.slow);
    lemma_regroup(
        members_bytes(m2),
        labelled(",\"slowThreshold\":"@, slow_threshold_ms),
        labelled(",\"total_count\":"@, snapshot.total),
        labelled(",\"error_count\":"@, snapshot.failure),
        labelled(",\"slow_count\":"@, snapshot.slow),
        utf8(",\"avg_time\":"@),
    );
    m6
}

/// The members that hold the buckets of a resource row.
spec fn resource_intervals_members(members: Seq<Member>, intervals: Seq<u64>) -> Seq<Member> {
    members.push((key("interval1"@), decimal(intervals[0] as nat))).push(
        (key("interval2"@), decimal(intervals[1] as nat)),
    ).push((key("interval3"@), decimal(intervals[2] as nat))).push(
        (key("interval4"@), decimal(intervals[3] as nat)),
    ).push((key("interval5"@), decimal(intervals[4] as nat)))
}

proof fn lemma_resource_intervals(m7: Seq<Member>, intervals: Seq<u64>) -> (m12: Seq<Member>)
    requires
        m7.len() > 0,
        all_readable(m7),
    ensures
        m12 == resource_intervals_members(m7, intervals),
        members_bytes(m7) + resource_intervals_bytes(intervals) == members_bytes(m12) + seq![
            0x7du8,
            0x0au8,
        ],
        all_readable(m12),
        holds_number(m12[m7.len() as int], "interval1"@, intervals[0]),
        holds_number(m12[m7.len() as int + 1], "interval2"@, intervals[1]),
        holds_number(m12[m7.len() as int + 2], "interval3"@, intervals[2]),
        holds_number(m12[m7.len() as int + 3], "interval4"@, intervals[3]),
        holds_number(m12[m7.len() as int + 4], "interval5"@, intervals[4]),
{
    lemma_resource_labels();
    let m8 = m7.push((key("interval1"@), decimal(intervals[0] as nat)));
    let m9 = m8.push((key("interval2"@), decimal(intervals[1] as nat)));
    let m10 = m9.push((key("interval3"@), decimal(intervals[2] as nat)));
    let m11 = m10.push((key("interval4"@), decimal(intervals[3] as nat)));
    let m12 = m11.push((key("interval5"@), decimal(intervals[4] as nat)));
    lemma_add_number(m7, ",\"interval1\":"@, "interval1"@, intervals[0]);
    lemma_add_number(m8, ",\"interval2\":"@, "interval2"@, intervals[1]);
    lemma_add_number(m9, ",\"interval3\":"@, "interval3"@, intervals[2]);
    lemma_add_number(m10, ",\"interval4\":"@, "interval4"@, intervals[3]);
    lemma_add_number(m11, ",\"interval5\":"@, "interval5"@, intervals[4]);
    lemma_end_text();
    let a = labelled(",\"interval1\":"@, intervals[0]);
    let b = labelled(",\"interval2\":"@, intervals[1]);
    let c = labelled(",\"interval3\":"@, intervals[2]);
    let d = labelled(",\"interval4\":"@, intervals[3]);
    let e = labelled(",\"interval5\":"@, intervals[4]);
    let end = utf8("}\n"@);
    lemma_regroup(members_bytes(m7), a, b, c, d, e);
    assert(members_bytes(m7) + (a + b + c + d + e + end) =~= members_bytes(m7) + (a + b + c + d + e)
        + end);
    m12
}

/// One more member whose value is given.
proof fn lemma_add_member(members: Seq<Member>, label: Seq<char>, name: Seq<char>, value: Seq<u8>)
    requires
        members.len() > 0,
        all_readable(members),
        label == seq![',', '"'] + name + seq!['"', ':'],
        plain_text(name),
        is_string(value) || is_bare(value),
    ensures
        members_bytes(members) + utf8(label) + value == members_bytes(
            members.push((key(name), value)),
        ),
        all_readable(members.push((key(name), value))),
{
    lemma_comma_label(label, name);
    let member = (key(name), value);
    lemma_members_push(members, member);
    lemma_readable_push(members, member);
    assert(members_bytes(members) + utf8(label) + value =~= members_bytes(members) + seq![0x2cu8]
        + member_bytes(member));
}

proof fn lemma_resource_average(total: u64, average: Seq<char>)
    requires
        plain_text(average),
    ensures
        ({
            let mean = resource_average_bytes(total, average);
            &&& is_string(mean) || is_bare(mean)
            &&& total == 0 ==> mean == seq![0x30u8, 0x2eu8, 0x30u8]
            &&& total != 0 ==> mean == seq![0x22u8] + utf8(average) + seq![0x22u8]
        }),
{
    lemma_plain_string(average);
    lemma_quote_text(average);
    reveal_strlit("0.0");
    vstd::utf8::is_ascii_chars_encode_utf8("0.0"@);
    assert(utf8("0.0"@) =~= seq![0x30u8, 0x2eu8, 0x30u8]);
    assert(is_bare(seq![0x30u8, 0x2eu8, 0x30u8]));
}

/// Reading a resource row back gives what was written: its time, its type and name, the
/// threshold, every counter of the snapshot under its own key, and the average.
#[verifier::rlimit(60)]
pub proof fn law_resource_row_reads_back(
    timestamp: Seq<char>,
    metric_type: Seq<char>,
    name: Seq<char>,
    slow_threshold_ms: u64,
    snapshot: SnapshotView,
    average: Seq<char>,
)
    requires
        plain_text(average),
    ensures
        ({
            let line = read_entry(
                resource_entry_bytes(
                    timestamp,
                    metric_type,
                    name,
                    slow_threshold_ms,
                    snapshot,
                    average,
                ),
                timestamp,
            );
            let members = line.members;
            &&& framed(line, timestamp)
            &&& members.len() == 12
            &&& holds_text(members[0], "type"@, metric_type)
            &&& holds_text(members[1], "name"@, name)
            &&& holds_number(members[2], "slowThreshold"@, slow_threshold_ms)
            &&& holds_number(members[3], "total_count"@, snapshot.total)
            &&& holds_number(members[4], "error_count"@, snapshot.failure)
            &&& holds_number(members[5], "slow_count"@, snapshot.slow)
            &&& holds_resource_average(members[6], snapshot.total, average)
            &&& holds_number(members[7], "interval1"@, snapshot.intervals[0])
            &&& holds_number(members[8], "interval2"@, snapshot.intervals[1])
            &&& holds_number(members[9], "interval3"@, snapshot.intervals[2])
            &&& holds_number(members[10], "interval4"@, snapshot.intervals[3])
            &&& holds_number(members[11], "interval5"@, snapshot.intervals[4])
        }),
{
    let head = head_bytes(timestamp);
    lemma_header(timestamp, metric_type, name);
    let m2 = header_members(metric_type, name);
    let m6 = lemma_resource_counts(m2, slow_threshold_ms, snapshot);
    let mean = resource_average_bytes(snapshot.total, average);
    lemma_resource_average(snapshot.total, average);
    lemma_resource_labels();
    lemma_add_member(m6, ",\"avg_time\":"@, "avg_time"@, mean);
    let m7 = m6.push((key("avg_time"@), mean));
    let m12 = lemma_resource_intervals(m7, snapshot.intervals);
    let counts = resource_counts_bytes(slow_threshold_ms, snapshot);
    let intervals = resource_intervals_bytes(snapshot.intervals);
    let row = resource_entry_bytes(
        timestamp,
        metric_type,
        name,
        slow_threshold_ms,
        snapshot,
        average,
    );
    lemma_assemble(head, members_bytes(m2), counts, mean, intervals);
    let end = seq![0x7du8, 0x0au8];
    assert(row == head + (members_bytes(m12) + end));
    assert(head + (members_bytes(m12) + end) =~= head + members_bytes(m12) + end);
    lemma_line(row, head, m12, end);
}

proof fn lemma_assemble(head: Seq<u8>, a: Seq<u8>, b: Seq<u8>, c: Seq<u8>, d: Seq<u8>)
    ensures
        (head + a) + b + c + d == head + (((a + b) + c) + d),
{
    assert((head + a) + b + c + d =~= head + (((a + b) + c) + d));
}

/// A member with a number between quotes.
spec fn quoted_member(name: Seq<char>, n: u64) -> Member {
    (key(name), seq![0x22u8] + decimal(n as nat) + seq![0x22u8])
}

/// A member with a plain text between quotes.
spec fn plain_member(name: Seq<char>, text: Seq<char>) -> Member {
    (key(name), seq![0x22u8] + utf8(text) + seq![0x22u8])
}

/// Members, and one more with a number between quotes of which the last quote is missing.
spec fn open_bytes(members: Seq<Member>, name: Seq<char>, n: u64) -> Seq<u8> {
    members_bytes(members) + seq![0x2cu8] + key(name) + seq![0x3au8, 0x22u8] + decimal(n as nat)
}

proof fn lemma_open_number(members: Seq<Member>, label: Seq<char>, name: Seq<char>, n: u64)
    requires
        label == seq![',', '"'] + name + seq!['"', ':', '"'],
        plain_text(name),
    ensures
        members_bytes(members) + labelled(label, n) == open_bytes(members, name, n),
{
    lemma_open_label(label, name);
    assert(members_bytes(members) + labelled(label, n) =~= open_bytes(members, name, n));
}

/// The missing quote completes the member.
proof fn lemma_close_number(members: Seq<Member>, name: Seq<char>, n: u64)
    requires
        members.len() > 0,
        all_readable(members),
        plain_text(name),
    ensures
        open_bytes(members, name, n) + seq![0x22u8] == members_bytes(
            members.push(quoted_member(name, n)),
        ),
        all_readable(members.push(quoted_member(name, n))),
        holds_quoted_number(quoted_member(name, n), name, n),
{
    let member = quoted_member(name, n);
    lemma_plain_string(name);
    lemma_number(n);
    lemma_quoted_number(n);
    lemma_members_push(members, member);
    lemma_readable_push(members, member);
    assert(open_bytes(members, name, n) + seq![0x22u8] =~= members_bytes(members) + seq![0x2cu8]
        + member_bytes(member));
}

/// A label that completes one member and starts the next.
proof fn lemma_next_number(
    members: Seq<Member>,
    name: Seq<char>,
    n: u64,
    label: Seq<char>,
    next: Seq<char>,
    next_n: u64,
)
    requires
        members.len() > 0,
        all_readable(members),
        plain_text(name),
        label == seq!['"', ',', '"'] + next + seq!['"', ':', '"'],
        plain_text(next),
    ensures
        open_bytes(members, name, n) + labelled(label, next_n) == open_bytes(
            members.push(quoted_member(name, n)),
            next,
            next_n,
        ),
        all_readable(members.push(quoted_member(name, n))),
        holds_quoted_number(quoted_member(name, n), name, n),
{
    lemma_next_label(label, next);
    lemma_close_number(members, name, n);
    let closed = open_bytes(members, name, n) + seq![0x22u8];
    let rest = seq![0x2cu8] + key(next) + seq![0x3au8, 0x22u8] + decimal(next_n as nat);
    assert(labelled(label, next_n) =~= seq![0x22u8] + rest);
    assert(open_bytes(members, name, n) + (seq![0x22u8] + rest) =~= closed + rest);
    assert(closed + rest =~= open_bytes(members.push(quoted_member(name, n)), next, next_n));
}

/// A fixed member.
proof fn lemma_add_plain(members: Seq<Member>, piece: Seq<char>, name: Seq<char>, text: Seq<char>)
    requires
        members.len() > 0,
        all_readable(members),
        plain_text(name),
        plain_text(text),
        piece == seq![',', '"'] + name + seq!['"', ':', '"'] + text + seq!['"'],
    ensures
        members_bytes(members) + utf8(piece) == members_bytes(
            members.push(plain_member(name, text)),
        ),
        all_readable(members.push(plain_member(name, text))),
{
    let member = plain_member(name, text);
    lemma_open_label(seq![',', '"'] + name + seq!['"', ':', '"'], name);
    lemma_plain_string(text);
    crate::text::lemma_utf8_concat(seq![',', '"'] + name + seq!['"', ':', '"'] + text, seq!['"']);
    crate::text::lemma_utf8_concat(seq![',', '"'] + name + seq!['"', ':', '"'], text);
    vstd::utf8::is_ascii_chars_encode_utf8(seq!['"']);
    assert(utf8(seq!['"']) =~= seq![0x22u8]);
    lemma_members_push(members, member);
    lemma_readable_push(members, member);
    assert(members_bytes(members) + utf8(piece) =~= members_bytes(members) + seq![0x2cu8]
        + member_bytes(member));
}

/// The labels of an access-statistic row are quotes, commas, keys and colons.
proof fn lemma_access_labels()
    ensures
        ",\"slowThreshold\":\""@ == seq![',', '"'] + "slowThreshold"@ + seq!['"', ':', '"'],
        plain_text("slowThreshold"@),
        ",\"interval1\":\""@ == seq![',', '"'] + "interval1"@ + seq!['"', ':', '"'],
        plain_text("interval1"@),
        ",\"other_excp\":\""@ == seq![',', '"'] + "other_excp"@ + seq!['"', ':', '"'],
        plain_text("other_excp"@),
        "\",\"total_count\":\""@ == seq!['"', ',', '"'] + "total_count"@ + seq!['"', ':', '"'],
        plain_text("total_count"@),
        "\",\"slow_count\":\""@ == seq!['"', ',', '"'] + "slow_count"@ + seq!['"', ':', '"'],
        plain_text("slow_count"@),
        "\",\"interval2\":\""@ == seq!['"', ',', '"'] + "interval2"@ + seq!['"', ':', '"'],
        plain_text("interval2"@),
        "\",\"interval3\":\""@ == seq!['"', ',', '"'] + "interval3"@ + seq!['"', ':', '"'],
        plain_text("interval3"@),
        "\",\"interval4\":\""@ == seq!['"', ',', '"'] + "interval4"@ + seq!['"', ':', '"'],
        plain_text("interval4"@),
        "\",\"interval5\":\""@ == seq!['"', ',', '"'] + "interval5"@ + seq!['"', ':', '"'],
        plain_text("interval5"@),
        "\",\"avg_time\":"@ == seq!['"'] + ",\"avg_time\":"@,
        ",\"avg_time\":"@ == seq![',', '"'] + "avg_time"@ + seq!['"', ':'],
        plain_text("avg_time"@),
{
    reveal_strlit(",\"slowThreshold\":\"");
    reveal_strlit("slowThreshold");
    assert(",\"slowThreshold\":\""@ =~= seq![',', '"'] + "slowThreshold"@ + seq!['"', ':', '"']);
    reveal_strlit(",\"interval1\":\"");
    reveal_strlit("interval1");
    assert(",\"interval1\":\""@ =~= seq![',', '"'] + "interval1"@ + seq!['"', ':', '"']);
    reveal_strlit(",\"other_excp\":\"");
    reveal_strlit("other_excp");
    assert(",\"other_excp\":\""@ =~= seq![',', '"'] + "other_excp"@ + seq!['"', ':', '"']);
    reveal_strlit("\",\"total_count\":\"");
    reveal_strlit("total_count");
    assert("\",\"total_count\":\""@ =~= seq!['"', ',', '"'] + "total_count"@ + seq!['"', ':', '"']);
    reveal_strlit("\",\"slow_count\":\"");
    reveal_strlit("slow_count");
    assert("\",\"slow_count\":\""@ =~= seq!['"', ',', '"'] + "slow_count"@ + seq!['"', ':', '"']);
    reveal_strlit("\",\"interval2\":\"");
    reveal_strlit("interval2");
    assert("\",\"interval2\":\""@ =~= seq!['"', ',', '"'] + "interval2"@ + seq!['"', ':', '"']);
    reveal_strlit("\",\"interval3\":\"");
    reveal_strlit("interval3");
    assert("\",\"interval3\":\""@ =~= seq!['"', ',', '"'] + "interval3"@ + seq!['"', ':', '"']);
    reveal_strlit("\",\"interval4\":\"");
    reveal_strlit("interval4");
    assert("\",\"interval4\":\""@ =~= seq!['"', ',', '"'] + "interval4"@ + seq!['"', ':', '"']);
    reveal_strlit("\",\"interval5\":\"");
    reveal_strlit("interval5");
    assert("\",\"interval5\":\""@ =~= seq!['"', ',', '"'] + "interval5"@ + seq!['"', ':', '"']);
    reveal_strlit("\",\"avg_time\":");
    reveal_strlit(",\"avg_time\":");
    reveal_strlit("avg_time");
    assert("\",\"avg_time\":"@ =~= seq!['"'] + ",\"avg_time\":"@);
    assert(",\"avg_time\":"@ =~= seq![',', '"'] + "avg_time"@ + seq!['"', ':']);
}

proof fn lemma_access_counts(
    m2: Seq<Member>,
    slow_threshold_ms: u64,
    snapshot: SnapshotView,
) -> (m5: Seq<Member>)
    requires
        m2.len() > 0,
        all_readable(m2),
    ensures
        m5 == m2.push(quoted_member("slowThreshold"@, slow_threshold_ms)).push(
            quoted_member("total_count"@, snapshot.total),
        ).push(quoted_member("slow_count"@, snapshot.slow)),
        members_bytes(m2) + access_counts_bytes(slow_threshold_ms, snapshot) == members_bytes(m5)
            + utf8(",\"avg_time\":"@),
        all_readable(m5),
        holds_quoted_number(m5[m2.len() as int], "slowThreshold"@, slow_threshold_ms),
        holds_quoted_number(m5[m2.len() as int + 1], "total_count"@, snapshot.total),
        holds_quoted_number(m5[m2.len() as int + 2], "slow_count"@, snapshot.slow),
{
    lemma_access_labels();
    let m3 = m2.push(quoted_member("slowThreshold"@, slow_threshold_ms));
    let m4 = m3.push(quoted_member("total_count"@, snapshot.total));
    let m5 = m4.push(quoted_member("slow_count"@, snapshot.slow));
    lemma_open_number(m2, ",\"slowThreshold\":\""@, "slowThreshold"@, slow_threshold_ms);
    lemma_next_number(
        m2,
        "slowThreshold"@,
        slow_threshold_ms,
        "\",\"total_count\":\""@,
        "total_count"@,
        snapshot.total,
    );
    lemma_next_number(
        m3,
        "total_count"@,
        snapshot.total,
        "\",\"slow_count\":\""@,
        "slow_count"@,
        snapshot.slow,
    );
    lemma_close_number(m4, "slow_count"@, snapshot.slow);
    let a = labelled(",\"slowThreshold\":\""@, slow_threshold_ms);
    let b = labelled("\",\"total_count\":\""@, snapshot.total);
    let c = labelled("\",\"slow_count\":\""@, snapshot.slow);
    let label = utf8(",\"avg_time\":"@);
    lemma_leading_quote("\",\"avg_time\":"@, ",\"avg_time\":"@);
    lemma_regroup(members_bytes(m2), a, b, c, seq![0x22u8], label);
    assert(a + b + c + (seq![0x22u8] + label) =~= a + b + c + seq![0x22u8] + label);
    m5
}

/// A quote before a text.
proof fn lemma_leading_quote(all: Seq<char>, rest: Seq<char>)
    requires
        all == seq!['"'] + rest,
    ensures
        utf8(all) == seq![0x22u8] + utf8(rest),
{
    crate::text::lemma_utf8_concat(seq!['"'], rest);
    vstd::utf8::is_ascii_chars_encode_utf8(seq!['"']);
    assert(utf8(seq!['"']) =~= seq![0x22u8]);
}

/// The members that hold the first four buckets of an access-statistic row.
spec fn access_intervals_members(members: Seq<Member>, intervals: Seq<u64>) -> Seq<Member> {
    members.push(quoted_member("interval1"@, intervals[0])).push(
        quoted_member("interval2"@, intervals[1]),
    ).push(quoted_member("interval3"@, intervals[2])).push(
        quoted_member("interval4"@, intervals[3]),
    )
}

proof fn lemma_access_intervals(m6: Seq<Member>, intervals: Seq<u64>) -> (m10: Seq<Member>)
    requires
        m6.len() > 0,
        all_readable(m6),
    ensures
        m10 == access_intervals_members(m6, intervals),
        members_bytes(m6) + access_intervals_bytes(intervals) == open_bytes(
            m10,
            "interval5"@,
            intervals[4],
        ),
        all_readable(m10),
        holds_quoted_number(m10[m6.len() as int], "interval1"@, intervals[0]),
        holds_quoted_number(m10[m6.len() as int + 1], "interval2"@, intervals[1]),
        holds_quoted_number(m10[m6.len() as int + 2], "interval3"@, intervals[2]),
        holds_quoted_number(m10[m6.len() as int + 3], "interval4"@, intervals[3]),
{
    lemma_access_labels();
    let m7 = m6.push(quoted_member("interval1"@, intervals[0]));
    let m8 = m7.push(quoted_member("interval2"@, intervals[1]));
    let m9 = m8.push(quoted_member("interval3"@, intervals[2]));
    let m10 = m9.push(quoted_member("interval4"@, intervals[3]));
    lemma_open_number(m6, ",\"interval1\":\""@, "interval1"@, intervals[0]);
    lemma_next_number(
        m6,
        "interval1"@,
        intervals[0],
        "\",\"interval2\":\""@,
        "interval2"@,
        intervals[1],
    );
    lemma_next_number(
        m7,
        "interval2"@,
        intervals[1],
        "\",\"interval3\":\""@,
        "interval3"@,
        intervals[2],
    );
    lemma_next_number(
        m8,
        "interval3"@,
        intervals[2],
        "\",\"interval4\":\""@,
        "interval4"@,
        intervals[3],
    );
    lemma_next_number(
        m9,
        "interval4"@,
        intervals[3],
        "\",\"interval5\":\""@,
        "interval5"@,
        intervals[4],
    );
    lemma_regroup(
        members_bytes(m6),
        labelled(",\"interval1\":\""@, intervals[0]),
        labelled("\",\"interval2\":\""@, intervals[1]),
        labelled("\",\"interval3\":\""@, intervals[2]),
        labelled("\",\"interval4\":\""@, intervals[3]),
        labelled("\",\"interval5\":\""@, intervals[4]),
    );
    m10
}

proof fn lemma_fixed_p75()
    ensures
        ",\"p75\":\"0.00\""@ == seq![',', '"'] + "p75"@ + seq!['"', ':', '"'] + "0.00"@ + seq!['"'],
        plain_text("p75"@),
        plain_text("0.00"@),
{
    reveal_strlit(",\"p75\":\"0.00\"");
    reveal_strlit("p75");
    reveal_strlit("0.00");
    assert(",\"p75\":\"0.00\""@ =~= seq![',', '"'] + "p75"@ + seq!['"', ':', '"'] + "0.00"@ + seq!['"']);
}

proof fn lemma_fixed_p95()
    ensures
        ",\"p95\":\"0.00\""@ == seq![',', '"'] + "p95"@ + seq!['"', ':', '"'] + "0.00"@ + seq!['"'],
        plain_text("p95"@),
        plain_text("0.00"@),
{
    reveal_strlit(",\"p95\":\"0.00\"");
    reveal_strlit("p95");
    reveal_strlit("0.00");
    assert(",\"p95\":\"0.00\""@ =~= seq![',', '"'] + "p95"@ + seq!['"', ':', '"'] + "0.00"@ + seq!['"']);
}

proof fn lemma_fixed_p98()
    ensures
        ",\"p98\":\"0.00\""@ == seq![',', '"'] + "p98"@ + seq!['"', ':', '"'] + "0.00"@ + seq!['"'],
        plain_text("p98"@),
        plain_text("0.00"@),
{
    reveal_strlit(",\"p98\":\"0.00\"");
    reveal_strlit("p98");
    reveal_strlit("0.00");
    assert(",\"p98\":\"0.00\""@ =~= seq![',', '"'] + "p98"@ + seq!['"', ':', '"'] + "0.00"@ + seq!['"']);
}

proof fn lemma_fixed_p99()
    ensures
        ",\"p99\":\"0.00\""@ == seq![',', '"'] + "p99"@ + seq!['"', ':', '"'] + "0.00"@ + seq!['"'],
        plain_text("p99"@),
        plain_text("0.00"@),
{
    reveal_strlit(",\"p99\":\"0.00\"");
    reveal_strlit("p99");
    reveal_strlit("0.00");
    assert(",\"p99\":\"0.00\""@ =~= seq![',', '"'] + "p99"@ + seq!['"', ':', '"'] + "0.00"@ + seq!['"']);
}

proof fn lemma_fixed_p999()
    ensures
        ",\"p999\":\"0.00\""@ == seq![',', '"'] + "p999"@ + seq!['"', ':', '"'] + "0.00"@ + seq!['"'],
        plain_text("p999"@),
        plain_text("0.00"@),
{
    reveal_strlit(",\"p999\":\"0.00\"");
    reveal_strlit("p999");
    reveal_strlit("0.00");
    assert(",\"p999\":\"0.00\""@ =~= seq![',', '"'] + "p999"@ + seq!['"', ':', '"'] + "0.00"@ + seq!['"']);
}

proof fn lemma_fixed_biz_excp()
    ensures
        ",\"biz_excp\":\"0\""@ == seq![',', '"'] + "biz_excp"@ + seq!['"', ':', '"'] + "0"@ + seq!['"'],
        plain_text("biz_excp"@),
        plain_text("0"@),
{
    reveal_strlit(",\"biz_excp\":\"0\"");
    reveal_strlit("biz_excp");
    reveal_strlit("0");
    assert(",\"biz_excp\":\"0\""@ =~= seq![',', '"'] + "biz_excp"@ + seq!['"', ':', '"'] + "0"@ + seq!['"']);
}

proof fn lemma_fixed_avg_tps()
    ensures
        ",\"avg_tps\":\"0\""@ == seq![',', '"'] + "avg_tps"@ + seq!['"', ':', '"'] + "0"@ + seq!['"'],
        plain_text("avg_tps"@),
        plain_text("0"@),
{
    reveal_strlit(",\"avg_tps\":\"0\"");
    reveal_strlit("avg_tps");
    reveal_strlit("0");
    assert(",\"avg_tps\":\"0\""@ =~= seq![',', '"'] + "avg_tps"@ + seq!['"', ':', '"'] + "0"@ + seq!['"']);
}

proof fn lemma_fixed_max_tps()
    ensures
        ",\"max_tps\":\"0\""@ == seq![',', '"'] + "max_tps"@ + seq!['"', ':', '"'] + "0"@ + seq!['"'],
        plain_text("max_tps"@),
        plain_text("0"@),
{
    reveal_strlit(",\"max_tps\":\"0\"");
    reveal_strlit("max_tps");
    reveal_strlit("0");
    assert(",\"max_tps\":\"0\""@ =~= seq![',', '"'] + "max_tps"@ + seq!['"', ':', '"'] + "0"@ + seq!['"']);
}

proof fn lemma_fixed_min_tps()
    ensures
        ",\"min_tps\":\"0\""@ == seq![',', '"'] + "min_tps"@ + seq!['"', ':', '"'] + "0"@ + seq!['"'],
        plain_text("min_tps"@),
        plain_text("0"@),
{
    reveal_strlit(",\"min_tps\":\"0\"");
    reveal_strlit("min_tps");
    reveal_strlit("0");
    assert(",\"min_tps\":\"0\""@ =~= seq![',', '"'] + "min_tps"@ + seq!['"', ':', '"'] + "0"@ + seq!['"']);
}

/// The fixed texts of an access-statistic row are made of fixed members.
proof fn lemma_fixed_texts()
    ensures
        utf8("\",\"p75\":\"0.00\",\"p95\":\"0.00\",\"p98\":\"0.00\",\"p99\":\"0.00\""@) == seq![0x22u8] + utf8(",\"p75\":\"0.00\""@) + utf8(",\"p95\":\"0.00\""@) + utf8(
            ",\"p98\":\"0.00\""@,
        ) + utf8(",\"p99\":\"0.00\""@),
        utf8(",\"p999\":\"0.00\",\"biz_excp\":\"0\""@) == utf8(",\"p999\":\"0.00\""@) + utf8(",\"biz_excp\":\"0\""@),
        utf8("\",\"avg_tps\":\"0\",\"max_tps\":\"0\",\"min_tps\":\"0\"}\n"@) == seq![0x22u8] + utf8(",\"avg_tps\":\"0\""@) + utf8(",\"max_tps\":\"0\""@) + utf8(
            ",\"min_tps\":\"0\""@,
        ) + seq![0x7du8, 0x0au8],
{
    let (a, b, c, d) = (
        ",\"p75\":\"0.00\""@,
        ",\"p95\":\"0.00\""@,
        ",\"p98\":\"0.00\""@,
        ",\"p99\":\"0.00\""@,
    );
    reveal_strlit(",\"p75\":\"0.00\"");
    reveal_strlit(",\"p95\":\"0.00\"");
    reveal_strlit(",\"p98\":\"0.00\"");
    reveal_strlit(",\"p99\":\"0.00\"");
    reveal_strlit("\",\"p75\":\"0.00\",\"p95\":\"0.00\",\"p98\":\"0.00\",\"p99\":\"0.00\"");
    assert("\",\"p75\":\"0.00\",\"p95\":\"0.00\",\"p98\":\"0.00\",\"p99\":\"0.00\""@ =~= seq!['"'] + (a + b + c + d));
    lemma_leading_quote("\",\"p75\":\"0.00\",\"p95\":\"0.00\",\"p98\":\"0.00\",\"p99\":\"0.00\""@, a + b + c + d);
    crate::text::lemma_utf8_concat(a + b + c, d);
    crate::text::lemma_utf8_concat(a + b, c);
    crate::text::lemma_utf8_concat(a, b);
    assert(seq![0x22u8] + (utf8(a) + utf8(b) + utf8(c) + utf8(d)) =~= seq![0x22u8] + utf8(a)
        + utf8(b) + utf8(c) + utf8(d));
    let (e, f) = (",\"p999\":\"0.00\""@, ",\"biz_excp\":\"0\""@);
    reveal_strlit(",\"p999\":\"0.00\"");
    reveal_strlit(",\"biz_excp\":\"0\"");
    reveal_strlit(",\"p999\":\"0.00\",\"biz_excp\":\"0\"");
    assert(",\"p999\":\"0.00\",\"biz_excp\":\"0\""@ =~= e + f);
    crate::text::lemma_utf8_concat(e, f);
    let (g, h, i) = (
        ",\"avg_tps\":\"0\""@,
        ",\"max_tps\":\"0\""@,
        ",\"min_tps\":\"0\""@,
    );
    reveal_strlit(",\"avg_tps\":\"0\"");
    reveal_strlit(",\"max_tps\":\"0\"");
    reveal_strlit(",\"min_tps\":\"0\"");
    reveal_strlit("}\n");
    reveal_strlit("\",\"avg_tps\":\"0\",\"max_tps\":\"0\",\"min_tps\":\"0\"}\n");
    let end = "}\n"@;
    assert("\",\"avg_tps\":\"0\",\"max_tps\":\"0\",\"min_tps\":\"0\"}\n"@ =~= seq!['"'] + (g + h + i + end));
    lemma_leading_quote("\",\"avg_tps\":\"0\",\"max_tps\":\"0\",\"min_tps\":\"0\"}\n"@, g + h + i + end);
    crate::text::lemma_utf8_concat(g + h + i, end);
    crate::text::lemma_utf8_concat(g + h, i);
    crate::text::lemma_utf8_concat(g, h);
    lemma_end_text();
    assert(seq![0x22u8] + (utf8(g) + utf8(h) + utf8(i) + utf8(end)) =~= seq![0x22u8] + utf8(g)
        + utf8(h) + utf8(i) + utf8(end));
}

proof fn lemma_percentiles(m11: Seq<Member>) -> (m17: Seq<Member>)
    requires
        m11.len() > 0,
        all_readable(m11),
    ensures
        m17.len() == m11.len() + 6,
        m17.take(m11.len() as int) == m11,
        holds_plain(m17[m11.len() as int], "p75"@, "0.00"@),
        holds_plain(m17[m11.len() as int + 1], "p95"@, "0.00"@),
        holds_plain(m17[m11.len() as int + 2], "p98"@, "0.00"@),
        holds_plain(m17[m11.len() as int + 3], "p99"@, "0.00"@),
        holds_plain(m17[m11.len() as int + 4], "p999"@, "0.00"@),
        holds_plain(m17[m11.len() as int + 5], "biz_excp"@, "0"@),
        all_readable(m17),
        members_bytes(m11) + (utf8(",\"p75\":\"0.00\""@) + utf8(",\"p95\":\"0.00\""@) + utf8(",\"p98\":\"0.00\""@)
            + utf8(",\"p99\":\"0.00\""@)) + utf8(",\"p999\":\"0.00\",\"biz_excp\":\"0\""@) == members_bytes(m17),
{
    lemma_fixed_texts();
    lemma_fixed_p75();
    lemma_add_plain(m11, ",\"p75\":\"0.00\""@, "p75"@, "0.00"@);
    let m12 = m11.push(plain_member("p75"@, "0.00"@));
    lemma_fixed_p95();
    lemma_add_plain(m12, ",\"p95\":\"0.00\""@, "p95"@, "0.00"@);
    let m13 = m12.push(plain_member("p95"@, "0.00"@));
    lemma_fixed_p98();
    lemma_add_plain(m13, ",\"p98\":\"0.00\""@, "p98"@, "0.00"@);
    let m14 = m13.push(plain_member("p98"@, "0.00"@));
    lemma_fixed_p99();
    lemma_add_plain(m14, ",\"p99\":\"0.00\""@, "p99"@, "0.00"@);
    let m15 = m14.push(plain_member("p99"@, "0.00"@));
    lemma_fixed_p999();
    lemma_add_plain(m15, ",\"p999\":\"0.00\""@, "p999"@, "0.00"@);
    let m16 = m15.push(plain_member("p999"@, "0.00"@));
    lemma_fixed_biz_excp();
    lemma_add_plain(m16, ",\"biz_excp\":\"0\""@, "biz_excp"@, "0"@);
    let m17 = m16.push(plain_member("biz_excp"@, "0"@));
    let x = members_bytes(m11);
    let (a, b, c, d) = (
        utf8(",\"p75\":\"0.00\""@),
        utf8(",\"p95\":\"0.00\""@),
        utf8(",\"p98\":\"0.00\""@),
        utf8(",\"p99\":\"0.00\""@),
    );
    let (e, f) = (utf8(",\"p999\":\"0.00\""@), utf8(",\"biz_excp\":\"0\""@));
    lemma_regroup(x, a, b, c, d, e);
    assert(x + (a + b + c + d) + (e + f) =~= x + (a + b + c + d + e) + f);
    assert(m17.take(m11.len() as int) =~= m11);
    m17
}

proof fn lemma_rates(m18: Seq<Member>) -> (m21: Seq<Member>)
    requires
        m18.len() > 0,
        all_readable(m18),
    ensures
        m21.len() == m18.len() + 3,
        m21.take(m18.len() as int) == m18,
        holds_plain(m21[m18.len() as int], "avg_tps"@, "0"@),
        holds_plain(m21[m18.len() as int + 1], "max_tps"@, "0"@),
        holds_plain(m21[m18.len() as int + 2], "min_tps"@, "0"@),
        all_readable(m21),
        members_bytes(m18) + utf8(",\"avg_tps\":\"0\""@) + utf8(",\"max_tps\":\"0\""@) + utf8(
            ",\"min_tps\":\"0\""@,
        ) == members_bytes(m21),
{
    lemma_fixed_avg_tps();
    lemma_add_plain(m18, ",\"avg_tps\":\"0\""@, "avg_tps"@, "0"@);
    let m19 = m18.push(plain_member("avg_tps"@, "0"@));
    lemma_fixed_max_tps();
    lemma_add_plain(m19, ",\"max_tps\":\"0\""@, "max_tps"@, "0"@);
    let m20 = m19.push(plain_member("max_tps"@, "0"@));
    lemma_fixed_min_tps();
    lemma_add_plain(m20, ",\"min_tps\":\"0\""@, "min_tps"@, "0"@);
    let m21 = m20.push(plain_member("min_tps"@, "0"@));
    assert(m21.take(m18.len() as int) =~= m18);
    m21
}

proof fn lemma_access_tail(m10: Seq<Member>, last: u64, failure: u64) -> (m21: Seq<Member>)
    requires
        m10.len() > 0,
        all_readable(m10),
    ensures
        m21.len() == m10.len() + 11,
        m21.take(m10.len() as int) == m10,
        holds_quoted_number(m21[m10.len() as int], "interval5"@, last),
        holds_plain(m21[m10.len() as int + 1], "p75"@, "0.00"@),
        holds_plain(m21[m10.len() as int + 2], "p95"@, "0.00"@),
        holds_plain(m21[m10.len() as int + 3], "p98"@, "0.00"@),
        holds_plain(m21[m10.len() as int + 4], "p99"@, "0.00"@),
        holds_plain(m21[m10.len() as int + 5], "p999"@, "0.00"@),
        holds_plain(m21[m10.len() as int + 6], "biz_excp"@, "0"@),
        holds_quoted_number(m21[m10.len() as int + 7], "other_excp"@, failure),
        holds_plain(m21[m10.len() as int + 8], "avg_tps"@, "0"@),
        holds_plain(m21[m10.len() as int + 9], "max_tps"@, "0"@),
        holds_plain(m21[m10.len() as int + 10], "min_tps"@, "0"@),
        open_bytes(m10, "interval5"@, last) + access_tail_bytes(failure) == members_bytes(m21)
            + seq![0x7du8, 0x0au8],
        all_readable(m21),
{
    lemma_access_labels();
    lemma_fixed_texts();
    lemma_close_number(m10, "interval5"@, last);
    let m11 = m10.push(quoted_member("interval5"@, last));
    let m17 = lemma_percentiles(m11);
    lemma_open_number(m17, ",\"other_excp\":\""@, "other_excp"@, failure);
    lemma_close_number(m17, "other_excp"@, failure);
    let m18 = m17.push(quoted_member("other_excp"@, failure));
    let m21 = lemma_rates(m18);
    let x = open_bytes(m10, "interval5"@, last);
    let quote = seq![0x22u8];
    let (a, b, c, d) = (
        utf8(",\"p75\":\"0.00\""@),
        utf8(",\"p95\":\"0.00\""@),
        utf8(",\"p98\":\"0.00\""@),
        utf8(",\"p99\":\"0.00\""@),
    );
    let second = utf8(",\"p999\":\"0.00\",\"biz_excp\":\"0\""@);
    let third = labelled(",\"other_excp\":\""@, failure);
    let (g, h, i) = (
        utf8(",\"avg_tps\":\"0\""@),
        utf8(",\"max_tps\":\"0\""@),
        utf8(",\"min_tps\":\"0\""@),
    );
    let end = seq![0x7du8, 0x0au8];
    lemma_tail_regroup(x, quote, a + b + c + d, second, third, g, h, i, end);
    assert(quote + a + b + c + d =~= quote + (a + b + c + d));
    let n = m10.len() as int;
    assert(m21.take(n) =~= m21.take(n + 8).take(n + 7).take(n + 1).take(n));
    assert(m10 =~= m11.take(n));
    assert(m17 =~= m18.take(n + 7));
    assert(m21[n] == m21.take(n + 8).take(n + 7).take(n + 1)[n]);
    assert forall|k: int| n < k < n + 7 implies m17[k] == #[trigger] m21[k] by {
        assert(m21[k] == m21.take(n + 8)[k]);
    }
    assert(m21[n + 1] == m17[n + 1] && m21[n + 2] == m17[n + 2] && m21[n + 3] == m17[n + 3]);
    assert(m21[n + 4] == m17[n + 4] && m21[n + 5] == m17[n + 5] && m21[n + 6] == m17[n + 6]);
    assert(m21[n + 7] == m21.take(n + 8)[n + 7]);
    m21
}

proof fn lemma_tail_regroup(
    x: Seq<u8>,
    quote: Seq<u8>,
    first: Seq<u8>,
    second: Seq<u8>,
    third: Seq<u8>,
    g: Seq<u8>,
    h: Seq<u8>,
    i: Seq<u8>,
    end: Seq<u8>,
)
    ensures
        x + ((quote + first) + second + third + (quote + g + h + i + end)) == ((x + quote) + first
            + second + third + quote) + g + h + i + end,
{
    let rest = quote + g + h + i + end;
    assert(x + ((quote + first) + second + third + rest) =~= ((x + quote) + first + second + third)
        + rest);
    let y = (x + quote) + first + second + third;
    assert(y + (quote + g + h + i + end) =~= (y + quote) + g + h + i + end);
}

/// The average of an access-statistic row: `0` in quotes if there is nothing to average.
pub open spec fn holds_access_average(member: Member, total: u64, average: Seq<char>) -> bool {
    &&& member.0 == key("avg_time"@)
    &&& total == 0 ==> member.1 == seq![0x22u8, 0x30u8, 0x22u8]
    &&& total != 0 ==> member.1 == seq![0x22u8] + utf8(average) + seq![0x22u8]
}

proof fn lemma_access_average(total: u64, average: Seq<char>)
    requires
        plain_text(average),
    ensures
        ({
            let mean = access_average_bytes(total, average);
            &&& is_string(mean)
            &&& total == 0 ==> mean == seq![0x22u8, 0x30u8, 0x22u8]
            &&& total != 0 ==> mean == seq![0x22u8] + utf8(average) + seq![0x22u8]
        }),
{
    lemma_plain_string(average);
    lemma_quote_text(average);
    reveal_strlit("\"0\"");
    vstd::utf8::is_ascii_chars_encode_utf8("\"0\""@);
    assert(utf8("\"0\""@) =~= seq![0x22u8, 0x30u8, 0x22u8]);
    reveal_strlit("0");
    lemma_plain_string("0"@);
    vstd::utf8::is_ascii_chars_encode_utf8("0"@);
    assert(key("0"@) =~= seq![0x22u8, 0x30u8, 0x22u8]);
}

/// Reading an access-statistic row back gives what was written: its time, its type and name, the
/// threshold, every counter of the snapshot under its own key, the average, and the fixed values
/// of what is not counted.
#[verifier::rlimit(60)]
pub proof fn law_access_row_reads_back(
    timestamp: Seq<char>,
    metric_type: Seq<char>,
    name: Seq<char>,
    slow_threshold_ms: u64,
    snapshot: SnapshotView,
    average: Seq<char>,
)
    requires
        plain_text(average),
    ensures
        ({
            let line = read_entry(
                access_entry_bytes(
                    timestamp,
                    metric_type,
                    name,
                    slow_threshold_ms,
                    snapshot,
                    average,
                ),
                timestamp,
            );
            let members = line.members;
            &&& framed(line, timestamp)
            &&& members.len() == 21
            &&& holds_text(members[0], "type"@, metric_type)
            &&& holds_text(members[1], "name"@, name)
            &&& holds_quoted_number(members[2], "slowThreshold"@, slow_threshold_ms)
            &&& holds_quoted_number(members[3], "total_count"@, snapshot.total)
            &&& holds_quoted_number(members[4], "slow_count"@, snapshot.slow)
            &&& holds_access_average(members[5], snapshot.total, average)
            &&& holds_quoted_number(members[6], "interval1"@, snapshot.intervals[0])
            &&& holds_quoted_number(members[7], "interval2"@, snapshot.intervals[1])
            &&& holds_quoted_number(members[8], "interval3"@, snapshot.intervals[2])
            &&& holds_quoted_number(members[9], "interval4"@, snapshot.intervals[3])
            &&& holds_quoted_number(members[10], "interval5"@, snapshot.intervals[4])
            &&& holds_plain(members[11], "p75"@, "0.00"@)
            &&& holds_plain(members[12], "p95"@, "0.00"@)
            &&& holds_plain(members[13], "p98"@, "0.00"@)
            &&& holds_plain(members[14], "p99"@, "0.00"@)
            &&& holds_plain(members[15], "p999"@, "0.00"@)
            &&& holds_plain(members[16], "biz_excp"@, "0"@)
            &&& holds_quoted_number(members[17], "other_excp"@, snapshot.failure)
            &&& holds_plain(members[18], "avg_tps"@, "0"@)
            &&& holds_plain(members[19], "max_tps"@, "0"@)
            &&& holds_plain(members[20], "min_tps"@, "0"@)
        }),
{
    let m10 = access_first_members(
        metric_type,
        name,
        slow_threshold_ms,
        snapshot,
        access_average_bytes(snapshot.total, average),
    );
    let m21 = lemma_access_line(
        timestamp,
        metric_type,
        name,
        slow_threshold_ms,
        snapshot,
        average,
    );
    lemma_access_average(snapshot.total, average);
    assert(m21.take(10) == m10);
    assert forall|k: int| 0 <= k < 10 implies #[trigger] m21[k] == m10[k] by {
        assert(m21[k] == m21.take(10)[k]);
    }
    assert(m21[0] == m10[0] && m21[1] == m10[1] && m21[2] == m10[2] && m21[3] == m10[3]);
    assert(m21[4] == m10[4] && m21[5] == m10[5] && m21[6] == m10[6] && m21[7] == m10[7]);
    assert(m21[8] == m10[8] && m21[9] == m10[9]);
    lemma_quoted_member("slowThreshold"@, slow_threshold_ms);
    lemma_quoted_member("total_count"@, snapshot.total);
    lemma_quoted_member("slow_count"@, snapshot.slow);
    lemma_quoted_member("interval1"@, snapshot.intervals[0]);
    lemma_quoted_member("interval2"@, snapshot.intervals[1]);
    lemma_quoted_member("interval3"@, snapshot.intervals[2]);
    lemma_quoted_member("interval4"@, snapshot.intervals[3]);
}

proof fn lemma_quoted_member(name: Seq<char>, n: u64)
    ensures
        holds_quoted_number(quoted_member(name, n), name, n),
{
    lemma_number(n);
    lemma_quoted_number(n);
}

/// The members of an access-statistic row up to the fourth bucket.
spec fn access_first_members(
    metric_type: Seq<char>,
    name: Seq<char>,
    slow_threshold_ms: u64,
    snapshot: SnapshotView,
    mean: Seq<u8>,
) -> Seq<Member> {
    access_intervals_members(
        header_members(metric_type, name).push(
            quoted_member("slowThreshold"@, slow_threshold_ms),
        ).push(quoted_member("total_count"@, snapshot.total)).push(
            quoted_member("slow_count"@, snapshot.slow),
        ).push((key("avg_time"@), mean)),
        snapshot.intervals,
    )
}

#[verifier::rlimit(60)]
proof fn lemma_access_line(
    timestamp: Seq<char>,
    metric_type: Seq<char>,
    name: Seq<char>,
    slow_threshold_ms: u64,
    snapshot: SnapshotView,
    average: Seq<char>,
) -> (m21: Seq<Member>)
    requires
        plain_text(average),
    ensures
        read_entry(
            access_entry_bytes(timestamp, metric_type, name, slow_threshold_ms, snapshot, average),
            timestamp,
        ) == (Line {
            head: head_bytes(timestamp),
            members: m21,
            tail: seq![0x7du8, 0x0au8],
        }),
        m21.len() == 21,
        m21.take(10) == access_first_members(
            metric_type,
            name,
            slow_threshold_ms,
            snapshot,
            access_average_bytes(snapshot.total, average),
        ),
        holds_quoted_number(m21[10], "interval5"@, snapshot.intervals[4]),
        holds_plain(m21[11], "p75"@, "0.00"@),
        holds_plain(m21[12], "p95"@, "0.00"@),
        holds_plain(m21[13], "p98"@, "0.00"@),
        holds_plain(m21[14], "p99"@, "0.00"@),
        holds_plain(m21[15], "p999"@, "0.00"@),
        holds_plain(m21[16], "biz_excp"@, "0"@),
        holds_quoted_number(m21[17], "other_excp"@, snapshot.failure),
        holds_plain(m21[18], "avg_tps"@, "0"@),
        holds_plain(m21[19], "max_tps"@, "0"@),
        holds_plain(m21[20], "min_tps"@, "0"@),
{
    let head = head_bytes(timestamp);
    lemma_header(timestamp, metric_type, name);
    let m2 = header_members(metric_type, name);
    let m5 = lemma_access_counts(m2, slow_threshold_ms, snapshot);
    let mean = access_average_bytes(snapshot.total, average);
    lemma_access_average(snapshot.total, average);
    lemma_access_labels();
    lemma_add_member(m5, ",\"avg_time\":"@, "avg_time"@, mean);
    let m6 = m5.push((key("avg_time"@), mean));
    let m10 = lemma_access_intervals(m6, snapshot.intervals);
    let m21 = lemma_access_tail(m10, snapshot.intervals[4], snapshot.failure);
    let counts = access_counts_bytes(slow_threshold_ms, snapshot);
    let intervals = access_intervals_bytes(snapshot.intervals);
    let tail = access_tail_bytes(snapshot.failure);
    let row = access_entry_bytes(
        timestamp,
        metric_type,
        name,
        slow_threshold_ms,
        snapshot,
        average,
    );
    lemma_assemble(head, members_bytes(m2), counts, mean, intervals);
    let inner = members_bytes(m2) + counts + mean + intervals;
    assert(row == head + inner + tail);
    let end = seq![0x7du8, 0x0au8];
    assert(head + inner + tail =~= head + (inner + tail));
    assert(head + (members_bytes(m21) + end) =~= head + members_bytes(m21) + end);
    lemma_line(row, head, m21, end);
    m21
}

/// A line of readable members reads back as these.
proof fn lemma_line(row: Seq<u8>, head: Seq<u8>, members: Seq<Member>, tail: Seq<u8>)
    requires
        row == head + members_bytes(members) + tail,
        members.len() > 0,
        all_readable(members),
        tail.len() > 0,
        tail[0] == 0x7d,
    ensures
        read_line(row, head.len() as int) == (Line { head, members, tail }),
{
    reveal(all_readable);
    lemma_read_line(row, head, members, tail);
}

/// The members that hold the fields of a state.
spec fn field_members(fields: Seq<(Seq<char>, Seq<char>)>) -> Seq<Member> {
    Seq::new(fields.len(), |i: int| (json_string(fields[i].0), json_string(fields[i].1)))
}

proof fn lemma_fields(members: Seq<Member>, fields: Seq<(Seq<char>, Seq<char>)>)
    requires
        members.len() > 0,
        all_readable(members),
    ensures
        members_bytes(members) + fields_bytes(fields) == members_bytes(
            members + field_members(fields),
        ),
        all_readable(members + field_members(fields)),
    decreases fields.len(),
{
    if fields.len() == 0 {
        assert(members_bytes(members) + fields_bytes(fields) =~= members_bytes(members));
        assert(members + field_members(fields) =~= members);
    } else {
        let rest = fields.drop_last();
        let field = fields.last();
        lemma_fields(members, rest);
        let before = members + field_members(rest);
        let member = (json_string(field.0), json_string(field.1));
        assert(members + field_members(fields) =~= before.push(member));
        lemma_json_string(field.0);
        lemma_json_string(field.1);
        lemma_members_push(before, member);
        lemma_readable_push(before, member);
        reveal_strlit(",");
        reveal_strlit(":");
        vstd::utf8::is_ascii_chars_encode_utf8(","@);
        vstd::utf8::is_ascii_chars_encode_utf8(":"@);
        assert(utf8(","@) =~= seq![0x2cu8]);
        assert(utf8(":"@) =~= seq![0x3au8]);
        let x = members_bytes(members);
        assert(x + (fields_bytes(rest) + field_bytes(field)) =~= (x + fields_bytes(rest))
            + seq![0x2cu8] + member_bytes(member));
    }
}

/// Reading a state row back gives its time, its type, its name, and every field of the state in
/// order, each with its own value.
pub proof fn law_state_row_reads_back(timestamp: Seq<char>, state: StateView)
    ensures
        ({
            let line = read_entry(state_entry_bytes(timestamp, state), timestamp);
            let members = line.members;
            &&& framed(line, timestamp)
            &&& members.len() == 2 + state.fields.len()
            &&& holds_text(members[0], "type"@, "MOTAN_CLUSTER_STAT"@)
            &&& holds_text(members[1], "name"@, state.name)
            &&& forall|i: int|
                0 <= i < state.fields.len() ==> (#[trigger] members[2 + i]).0 == json_string(
                    state.fields[i].0,
                ) && members[2 + i].1 == json_string(state.fields[i].1)
        }),
{
    let head = head_bytes(timestamp);
    let label = state_label(state.state_type);
    lemma_header(timestamp, label, state.name);
    let first = header_members(label, state.name);
    lemma_fields(first, state.fields);
    let members = first + field_members(state.fields);
    lemma_end_text();
    let end = seq![0x7du8, 0x0au8];
    let row = state_entry_bytes(timestamp, state);
    assert(head + members_bytes(first) + fields_bytes(state.fields) =~= head + (members_bytes(first)
        + fields_bytes(state.fields)));
    assert(row == head + members_bytes(members) + end);
    lemma_line(row, head, members, end);
    assert forall|i: int| 0 <= i < state.fields.len() implies (#[trigger] members[2 + i]).0
        == json_string(state.fields[i].0) && members[2 + i].1 == json_string(
        state.fields[i].1,
    ) by {
        assert(members[2 + i] == field_members(state.fields)[i]);
    }
}

/// States that differ in their name or in any of their fields have different rows.
pub proof fn law_different_states_have_different_rows(
    timestamp: Seq<char>,
    a: StateView,
    b: StateView,
)
    requires
        state_entry_bytes(timestamp, a) == state_entry_bytes(timestamp, b),
    ensures
        a.name == b.name,
        a.fields == b.fields,
{
    law_state_row_reads_back(timestamp, a);
    law_state_row_reads_back(timestamp, b);
    crate::json::law_json_string_is_injective(a.name, b.name);
    let members = read_entry(state_entry_bytes(timestamp, a), timestamp).members;
    assert forall|i: int| 0 <= i < a.fields.len() implies a.fields[i] == b.fields[i] by {
        assert(members[2 + i].0 == json_string(a.fields[i].0));
        crate::json::law_json_string_is_injective(a.fields[i].0, b.fields[i].0);
        crate::json::law_json_string_is_injective(a.fields[i].1, b.fields[i].1);
    }
    assert(a.fields =~= b.fields);
}

/// A fixed member without quotes.
proof fn lemma_add_bare(members: Seq<Member>, piece: Seq<char>, name: Seq<char>, text: Seq<char>)
    requires
        members.len() > 0,
        all_readable(members),
        plain_text(name),
        plain_text(text),
        text.len() > 0,
        forall|i: int| 0 <= i < text.len() ==> #[trigger] text[i] != ',' && text[i] != '}',
        piece == seq![',', '"'] + name + seq!['"', ':'] + text,
    ensures
        members_bytes(members) + utf8(piece) == members_bytes(
            members.push((key(name), utf8(text))),
        ),
        all_readable(members.push((key(name), utf8(text)))),
{
    let label = seq![',', '"'] + name + seq!['"', ':'];
    crate::text::lemma_utf8_concat(label, text);
    vstd::utf8::is_ascii_chars_encode_utf8(text);
    assert(is_bare(utf8(text))) by {
        assert forall|i: int| 0 <= i < utf8(text).len() implies #[trigger] utf8(text)[i] != 0x2c
            && utf8(text)[i] != 0x7d && utf8(text)[i] != 0x22 by {
            let c = text[i];
            assert(' ' <= c <= '~' && c != '"' && c != ',' && c != '}');
            assert(c as u8 == utf8(text)[i]);
        }
    }
    lemma_add_member(members, label, name, utf8(text));
    assert(members_bytes(members) + (utf8(label) + utf8(text)) =~= members_bytes(members) + utf8(
        label,
    ) + utf8(text));
}

proof fn lemma_baseline_total_count()
    ensures
        ",\"total_count\":10"@ == seq![',', '"'] + "total_count"@ + seq!['"', ':'] + "10"@,
        plain_text("total_count"@),
        plain_text("10"@),
        "10"@.len() > 0,
        forall|i: int| 0 <= i < "10"@.len() ==> #[trigger] "10"@[i] != ',' && "10"@[i] != '}',
{
    reveal_strlit(",\"total_count\":10");
    reveal_strlit("total_count");
    reveal_strlit("10");
    assert(",\"total_count\":10"@ =~= seq![',', '"'] + "total_count"@ + seq!['"', ':'] + "10"@);
}

proof fn lemma_baseline_error_count()
    ensures
        ",\"error_count\":1"@ == seq![',', '"'] + "error_count"@ + seq!['"', ':'] + "1"@,
        plain_text("error_count"@),
        plain_text("1"@),
        "1"@.len() > 0,
        forall|i: int| 0 <= i < "1"@.len() ==> #[trigger] "1"@[i] != ',' && "1"@[i] != '}',
{
    reveal_strlit(",\"error_count\":1");
    reveal_strlit("error_count");
    reveal_strlit("1");
    assert(",\"error_count\":1"@ =~= seq![',', '"'] + "error_count"@ + seq!['"', ':'] + "1"@);
}

proof fn lemma_baseline_slow_count()
    ensures
        ",\"slow_count\":1"@ == seq![',', '"'] + "slow_count"@ + seq!['"', ':'] + "1"@,
        plain_text("slow_count"@),
        plain_text("1"@),
        "1"@.len() > 0,
        forall|i: int| 0 <= i < "1"@.len() ==> #[trigger] "1"@[i] != ',' && "1"@[i] != '}',
{
    reveal_strlit(",\"slow_count\":1");
    reveal_strlit("slow_count");
    reveal_strlit("1");
    assert(",\"slow_count\":1"@ =~= seq![',', '"'] + "slow_count"@ + seq!['"', ':'] + "1"@);
}

proof fn lemma_baseline_avg_time()
    ensures
        ",\"avg_time\":1.0"@ == seq![',', '"'] + "avg_time"@ + seq!['"', ':'] + "1.0"@,
        plain_text("avg_time"@),
        plain_text("1.0"@),
        "1.0"@.len() > 0,
        forall|i: int| 0 <= i < "1.0"@.len() ==> #[trigger] "1.0"@[i] != ',' && "1.0"@[i] != '}',
{
    reveal_strlit(",\"avg_time\":1.0");
    reveal_strlit("avg_time");
    reveal_strlit("1.0");
    assert(",\"avg_time\":1.0"@ =~= seq![',', '"'] + "avg_time"@ + seq!['"', ':'] + "1.0"@);
}

proof fn lemma_baseline_interval1()
    ensures
        ",\"interval1\":6"@ == seq![',', '"'] + "interval1"@ + seq!['"', ':'] + "6"@,
        plain_text("interval1"@),
        plain_text("6"@),
        "6"@.len() > 0,
        forall|i: int| 0 <= i < "6"@.len() ==> #[trigger] "6"@[i] != ',' && "6"@[i] != '}',
{
    reveal_strlit(",\"interval1\":6");
    reveal_strlit("interval1");
    reveal_strlit("6");
    assert(",\"interval1\":6"@ =~= seq![',', '"'] + "interval1"@ + seq!['"', ':'] + "6"@);
}

proof fn lemma_baseline_interval2()
    ensures
        ",\"interval2\":1"@ == seq![',', '"'] + "interval2"@ + seq!['"', ':'] + "1"@,
        plain_text("interval2"@),
        plain_text("1"@),
        "1"@.len() > 0,
        forall|i: int| 0 <= i < "1"@.len() ==> #[trigger] "1"@[i] != ',' && "1"@[i] != '}',
{
    reveal_strlit(",\"interval2\":1");
    reveal_strlit("interval2");
    reveal_strlit("1");
    assert(",\"interval2\":1"@ =~= seq![',', '"'] + "interval2"@ + seq!['"', ':'] + "1"@);
}

proof fn lemma_baseline_interval3()
    ensures
        ",\"interval3\":1"@ == seq![',', '"'] + "interval3"@ + seq!['"', ':'] + "1"@,
        plain_text("interval3"@),
        plain_text("1"@),
        "1"@.len() > 0,
        forall|i: int| 0 <= i < "1"@.len() ==> #[trigger] "1"@[i] != ',' && "1"@[i] != '}',
{
    reveal_strlit(",\"interval3\":1");
    reveal_strlit("interval3");
    reveal_strlit("1");
    assert(",\"interval3\":1"@ =~= seq![',', '"'] + "interval3"@ + seq!['"', ':'] + "1"@);
}

proof fn lemma_baseline_interval4()
    ensures
        ",\"interval4\":1"@ == seq![',', '"'] + "interval4"@ + seq!['"', ':'] + "1"@,
        plain_text("interval4"@),
        plain_text("1"@),
        "1"@.len() > 0,
        forall|i: int| 0 <= i < "1"@.len() ==> #[trigger] "1"@[i] != ',' && "1"@[i] != '}',
{
    reveal_strlit(",\"interval4\":1");
    reveal_strlit("interval4");
    reveal_strlit("1");
    assert(",\"interval4\":1"@ =~= seq![',', '"'] + "interval4"@ + seq!['"', ':'] + "1"@);
}

proof fn lemma_baseline_interval5()
    ensures
        ",\"interval5\":1"@ == seq![',', '"'] + "interval5"@ + seq!['"', ':'] + "1"@,
        plain_text("interval5"@),
        plain_text("1"@),
        "1"@.len() > 0,
        forall|i: int| 0 <= i < "1"@.len() ==> #[trigger] "1"@[i] != ',' && "1"@[i] != '}',
{
    reveal_strlit(",\"interval5\":1");
    reveal_strlit("interval5");
    reveal_strlit("1");
    assert(",\"interval5\":1"@ =~= seq![',', '"'] + "interval5"@ + seq!['"', ':'] + "1"@);
}

/// The fixed texts of the baseline row are made of fixed members.
proof fn lemma_baseline_texts()
    ensures
        utf8(",\"total_count\":10,\"error_count\":1,\"slow_count\":1,\"avg_time\":1.0"@) == utf8(",\"total_count\":10"@) + utf8(",\"error_count\":1"@) + utf8(",\"slow_count\":1"@) + utf8(
            ",\"avg_time\":1.0"@,
        ),
        utf8(",\"interval1\":6,\"interval2\":1,\"interval3\":1,\"interval4\":1,\"interval5\":1}\n"@) == utf8(",\"interval1\":6"@) + utf8(",\"interval2\":1"@) + utf8(",\"interval3\":1"@) + utf8(
            ",\"interval4\":1"@,
        ) + utf8(",\"interval5\":1"@) + seq![0x7du8, 0x0au8],
{
    let (a, b, c, d) = (
        ",\"total_count\":10"@,
        ",\"error_count\":1"@,
        ",\"slow_count\":1"@,
        ",\"avg_time\":1.0"@,
    );
    reveal_strlit(",\"total_count\":10");
    reveal_strlit(",\"error_count\":1");
    reveal_strlit(",\"slow_count\":1");
    reveal_strlit(",\"avg_time\":1.0");
    reveal_strlit(",\"total_count\":10,\"error_count\":1,\"slow_count\":1,\"avg_time\":1.0");
    assert(",\"total_count\":10,\"error_count\":1,\"slow_count\":1,\"avg_time\":1.0"@ =~= a + b + c + d);
    crate::text::lemma_utf8_concat(a + b + c, d);
    crate::text::lemma_utf8_concat(a + b, c);
    crate::text::lemma_utf8_concat(a, b);
    let (e, f, g, h, i) = (
        ",\"interval1\":6"@,
        ",\"interval2\":1"@,
        ",\"interval3\":1"@,
        ",\"interval4\":1"@,
        ",\"interval5\":1"@,
    );
    reveal_strlit(",\"interval1\":6");
    reveal_strlit(",\"interval2\":1");
    reveal_strlit(",\"interval3\":1");
    reveal_strlit(",\"interval4\":1");
    reveal_strlit(",\"interval5\":1");
    reveal_strlit(",\"interval1\":6,\"interval2\":1,\"interval3\":1,\"interval4\":1,\"interval5\":1}\n");
    reveal_strlit("}\n");
    let end = "}\n"@;
    assert(",\"interval1\":6,\"interval2\":1,\"interval3\":1,\"interval4\":1,\"interval5\":1}\n"@ =~= e + f + g + h + i + end);
    crate::text::lemma_utf8_concat(e + f + g + h + i, end);
    crate::text::lemma_utf8_concat(e + f + g + h, i);
    crate::text::lemma_utf8_concat(e + f + g, h);
    crate::text::lemma_utf8_concat(e + f, g);
    crate::text::lemma_utf8_concat(e, f);
    lemma_end_text();
}

/// The first members of the baseline row.
spec fn baseline_first_members() -> Seq<Member> {
    seq![
        plain_member("type"@, "OTHER"@),
        plain_member("name"@, "other://profile_baseline"@),
    ]
}

proof fn lemma_baseline_header()
    ensures
        utf8(" {\"type\":\"OTHER\",\"name\":\"other://profile_baseline\""@) == seq![0x20u8, 0x7bu8] + members_bytes(baseline_first_members()),
        all_readable(baseline_first_members()),
{
    reveal_strlit(" {\"type\":\"OTHER\",\"name\":\"other://profile_baseline\"");
    reveal_strlit(" {\"type\":\"OTHER\"");
    reveal_strlit(",\"name\":\"other://profile_baseline\"");
    reveal_strlit("type");
    reveal_strlit("name");
    reveal_strlit("OTHER");
    reveal_strlit("other://profile_baseline");
    let first = " {\"type\":\"OTHER\""@;
    let second = ",\"name\":\"other://profile_baseline\""@;
    assert(" {\"type\":\"OTHER\",\"name\":\"other://profile_baseline\""@ =~= first + second);
    crate::text::lemma_utf8_concat(first, second);
    let opening = seq![' ', '{', '"'] + "type"@ + seq!['"', ':', '"'];
    assert(first =~= opening + ("OTHER"@ + seq!['"']));
    lemma_label(opening, seq![' ', '{', '"'], "type"@, seq!['"', ':', '"']);
    crate::text::lemma_utf8_concat(opening, "OTHER"@ + seq!['"']);
    crate::text::lemma_utf8_concat("OTHER"@, seq!['"']);
    vstd::utf8::is_ascii_chars_encode_utf8(seq!['"']);
    assert(utf8(seq!['"']) =~= seq![0x22u8]);
    lemma_plain_string("type"@);
    lemma_plain_string("OTHER"@);
    let m1 = plain_member("type"@, "OTHER"@);
    assert(utf8(first) =~= seq![0x20u8, 0x7bu8] + member_bytes(m1));
    assert(all_readable(seq![m1])) by {
        reveal(all_readable);
    }
    assert(second =~= seq![',', '"'] + "name"@ + seq!['"', ':', '"'] + "other://profile_baseline"@
        + seq!['"']);
    lemma_add_plain(seq![m1], second, "name"@, "other://profile_baseline"@);
    let m2 = seq![m1].push(plain_member("name"@, "other://profile_baseline"@));
    assert(m2 =~= baseline_first_members());
    assert(members_bytes(seq![m1]) == member_bytes(m1));
    assert(utf8(first) + utf8(second) =~= seq![0x20u8, 0x7bu8] + (members_bytes(seq![m1])
        + utf8(second)));
}

proof fn lemma_baseline_counts(m2: Seq<Member>) -> (m6: Seq<Member>)
    requires
        m2.len() > 0,
        all_readable(m2),
    ensures
        m6 == m2.push((key("total_count"@), utf8("10"@))).push(
            (key("error_count"@), utf8("1"@)),
        ).push((key("slow_count"@), utf8("1"@))).push((key("avg_time"@), utf8("1.0"@))),
        all_readable(m6),
        members_bytes(m2) + utf8(",\"total_count\":10,\"error_count\":1,\"slow_count\":1,\"avg_time\":1.0"@) == members_bytes(m6),
{
    lemma_baseline_texts();
    lemma_baseline_total_count();
    lemma_add_bare(m2, ",\"total_count\":10"@, "total_count"@, "10"@);
    let m3 = m2.push((key("total_count"@), utf8("10"@)));
    lemma_baseline_error_count();
    lemma_add_bare(m3, ",\"error_count\":1"@, "error_count"@, "1"@);
    let m4 = m3.push((key("error_count"@), utf8("1"@)));
    lemma_baseline_slow_count();
    lemma_add_bare(m4, ",\"slow_count\":1"@, "slow_count"@, "1"@);
    let m5 = m4.push((key("slow_count"@), utf8("1"@)));
    lemma_baseline_avg_time();
    lemma_add_bare(m5, ",\"avg_time\":1.0"@, "avg_time"@, "1.0"@);
    let m6 = m5.push((key("avg_time"@), utf8("1.0"@)));
    lemma_regroup(
        members_bytes(m2),
        utf8(",\"total_count\":10"@),
        utf8(",\"error_count\":1"@),
        utf8(",\"slow_count\":1"@),
        utf8(",\"avg_time\":1.0"@),
        seq![],
    );
    let all = utf8(",\"total_count\":10,\"error_count\":1,\"slow_count\":1,\"avg_time\":1.0"@);
    assert(all + seq![] =~= all);
    assert(members_bytes(m6) + seq![] =~= members_bytes(m6));
    m6
}

proof fn lemma_baseline_intervals(m6: Seq<Member>) -> (m11: Seq<Member>)
    requires
        m6.len() > 0,
        all_readable(m6),
    ensures
        m11 == m6.push((key("interval1"@), utf8("6"@))).push((key("interval2"@), utf8("1"@))).push(
            (key("interval3"@), utf8("1"@)),
        ).push((key("interval4"@), utf8("1"@))).push((key("interval5"@), utf8("1"@))),
        all_readable(m11),
        members_bytes(m6) + utf8(",\"interval1\":6,\"interval2\":1,\"interval3\":1,\"interval4\":1,\"interval5\":1}\n"@) == members_bytes(m11) + seq![0x7du8, 0x0au8],
{
    lemma_baseline_texts();
    lemma_baseline_interval1();
    lemma_add_bare(m6, ",\"interval1\":6"@, "interval1"@, "6"@);
    let m7 = m6.push((key("interval1"@), utf8("6"@)));
    lemma_baseline_interval2();
    lemma_add_bare(m7, ",\"interval2\":1"@, "interval2"@, "1"@);
    let m8 = m7.push((key("interval2"@), utf8("1"@)));
    lemma_baseline_interval3();
    lemma_add_bare(m8, ",\"interval3\":1"@, "interval3"@, "1"@);
    let m9 = m8.push((key("interval3"@), utf8("1"@)));
    lemma_baseline_interval4();
    lemma_add_bare(m9, ",\"interval4\":1"@, "interval4"@, "1"@);
    let m10 = m9.push((key("interval4"@), utf8("1"@)));
    lemma_baseline_interval5();
    lemma_add_bare(m10, ",\"interval5\":1"@, "interval5"@, "1"@);
    let m11 = m10.push((key("interval5"@), utf8("1"@)));
    let (a, b, c, d, e) = (
        utf8(",\"interval1\":6"@),
        utf8(",\"interval2\":1"@),
        utf8(",\"interval3\":1"@),
        utf8(",\"interval4\":1"@),
        utf8(",\"interval5\":1"@),
    );
    let end = seq![0x7du8, 0x0au8];
    lemma_regroup(members_bytes(m6), a, b, c, d, e);
    assert(members_bytes(m6) + (a + b + c + d + e + end) =~= members_bytes(m6) + (a + b + c + d + e)
        + end);
    m11
}

/// Whether a member with the key `name` holds a value without quotes.
pub open spec fn holds_bare(member: Member, name: Seq<char>, text: Seq<char>) -> bool {
    &&& member.0 == key(name)
    &&& member.1 == utf8(text)
}

/// The baseline row always reads back as the same members, behind the time of the interval.
#[verifier::rlimit(60)]
pub proof fn law_baseline_row_reads_back(timestamp: Seq<char>)
    ensures
        ({
            let line = read_entry(baseline_entry_bytes(timestamp), timestamp);
            let members = line.members;
            &&& framed(line, timestamp)
            &&& members.len() == 11
            &&& holds_plain(members[0], "type"@, "OTHER"@)
            &&& holds_plain(members[1], "name"@, "other://profile_baseline"@)
            &&& holds_bare(members[2], "total_count"@, "10"@)
            &&& holds_bare(members[3], "error_count"@, "1"@)
            &&& holds_bare(members[4], "slow_count"@, "1"@)
            &&& holds_bare(members[5], "avg_time"@, "1.0"@)
            &&& holds_bare(members[6], "interval1"@, "6"@)
            &&& holds_bare(members[7], "interval2"@, "1"@)
            &&& holds_bare(members[8], "interval3"@, "1"@)
            &&& holds_bare(members[9], "interval4"@, "1"@)
            &&& holds_bare(members[10], "interval5"@, "1"@)
        }),
{
    lemma_baseline_header();
    let m2 = baseline_first_members();
    let m6 = lemma_baseline_counts(m2);
    let m11 = lemma_baseline_intervals(m6);
    let head = head_bytes(timestamp);
    let end = seq![0x7du8, 0x0au8];
    let row = baseline_entry_bytes(timestamp);
    let time = utf8(timestamp);
    let second = utf8(",\"total_count\":10,\"error_count\":1,\"slow_count\":1,\"avg_time\":1.0"@);
    let third = utf8(",\"interval1\":6,\"interval2\":1,\"interval3\":1,\"interval4\":1,\"interval5\":1}\n"@);
    assert(row =~= time + (seq![0x20u8, 0x7bu8] + members_bytes(m2)) + second + third);
    lemma_assemble(head, members_bytes(m2), second, third, seq![]);
    assert(row =~= head + members_bytes(m2) + second + third + seq![]);
    let inner = members_bytes(m2) + second + third;
    assert(inner + seq![] =~= inner);
    assert(head + (members_bytes(m11) + end) =~= head + members_bytes(m11) + end);
    lemma_line(row, head, m11, end);
}

/// Reading a profile row back gives the type, the name and the snapshot of the row, under the keys
/// of its format, with a threshold of 50 ms for the resource policy and of 200 ms for the others.
#[verifier::rlimit(60)]
pub proof fn law_row_reads_back(timestamp: Seq<char>, row: RowView, average: Seq<char>)
    requires
        plain_text(average),
    ensures
        ({
            let line = read_entry(row_bytes(timestamp, row, average), timestamp);
            let members = line.members;
            let threshold: u64 = if row.policy == MetricPolicy::Resource {
                50
            } else {
                200
            };
            let counts = row.snapshot;
            &&& framed(line, timestamp)
            &&& holds_text(members[0], "type"@, row.output.metric_type)
            &&& holds_text(members[1], "name"@, row.output.name)
            &&& row.format == ProfileFormat::Resource ==> {
                &&& members.len() == 12
                &&& holds_number(members[2], "slowThreshold"@, threshold)
                &&& holds_number(members[3], "total_count"@, counts.total)
                &&& holds_number(members[4], "error_count"@, counts.failure)
                &&& holds_number(members[5], "slow_count"@, counts.slow)
                &&& holds_resource_average(members[6], counts.total, average)
                &&& holds_number(members[7], "interval1"@, counts.intervals[0])
                &&& holds_number(members[8], "interval2"@, counts.intervals[1])
                &&& holds_number(members[9], "interval3"@, counts.intervals[2])
                &&& holds_number(members[10], "interval4"@, counts.intervals[3])
                &&& holds_number(members[11], "interval5"@, counts.intervals[4])
            }
            &&& row.format == ProfileFormat::AccessStatistic ==> {
                &&& members.len() == 21
                &&& holds_quoted_number(members[2], "slowThreshold"@, threshold)
                &&& holds_quoted_number(members[3], "total_count"@, counts.total)
                &&& holds_quoted_number(members[4], "slow_count"@, counts.slow)
                &&& holds_access_average(members[5], counts.total, average)
                &&& holds_quoted_number(members[6], "interval1"@, counts.intervals[0])
                &&& holds_quoted_number(members[7], "interval2"@, counts.intervals[1])
                &&& holds_quoted_number(members[8], "interval3"@, counts.intervals[2])
                &&& holds_quoted_number(members[9], "interval4"@, counts.intervals[3])
                &&& holds_quoted_number(members[10], "interval5"@, counts.intervals[4])
                &&& holds_quoted_number(members[17], "other_excp"@, counts.failure)
            }
        }),
{
    reveal(row_bytes);
    law_resource_row_reads_back(
        timestamp,
        row.output.metric_type,
        row.output.name,
        slow_threshold_ms(row.policy),
        row.snapshot,
        average,
    );
    law_access_row_reads_back(
        timestamp,
        row.output.metric_type,
        row.output.name,
        slow_threshold_ms(row.policy),
        row.snapshot,
        average,
    );
}

} // verus!
