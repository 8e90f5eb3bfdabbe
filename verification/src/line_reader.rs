//! Reading log lines back: the time, and the members of the JSON object behind it.
use crate::json::{closing_quote, escaped};
use vstd::prelude::*;

verus! {

/// A member of a JSON object as it stands in a line: its key, with quotes, and its value.
pub type Member = (Seq<u8>, Seq<u8>);

/// What a reader finds from one place in a line on: the members, and where the object ends.
pub struct ReadObject {
    pub members: Seq<Member>,
    pub end: int,
}

/// Where a value without quotes that starts at `from` ends: at the next comma or closing brace.
pub open spec fn bare_end(bytes: Seq<u8>, from: int) -> int
    decreases bytes.len() - from,
{
    if from >= bytes.len() || bytes[from] == 0x2c || bytes[from] == 0x7d {
        from
    } else {
        bare_end(bytes, from + 1)
    }
}

/// Where the value that starts at `from` ends.
pub open spec fn value_end(bytes: Seq<u8>, from: int) -> int {
    if from < bytes.len() && bytes[from] == 0x22 {
        closing_quote(bytes, from + 1) + 1
    } else {
        bare_end(bytes, from)
    }
}

/// Reads the members of an object, starting with the quote that opens the key at `at`.
pub open spec fn read_members(bytes: Seq<u8>, at: int) -> ReadObject
    decreases bytes.len() - at,
{
    let colon = closing_quote(bytes, at + 1) + 1;
    let end = value_end(bytes, colon + 1);
    let first = (bytes.subrange(at, colon), bytes.subrange(colon + 1, end));
    if at < end < bytes.len() && bytes[end] == 0x2c {
        let rest = read_members(bytes, end + 1);
        ReadObject { members: seq![first] + rest.members, end: rest.end }
    } else {
        ReadObject { members: seq![first], end }
    }
}

/// One log line: what stands before the object, its members, and what stands behind it.
#[verifier::ext_equal]
pub struct Line {
    pub head: Seq<u8>,
    pub members: Seq<Member>,
    pub tail: Seq<u8>,
}

/// Reads a line whose object starts behind the first `head_len` bytes.
pub open spec fn read_line(bytes: Seq<u8>, head_len: int) -> Line {
    let object = read_members(bytes, head_len);
    Line {
        head: bytes.take(head_len),
        members: object.members,
        tail: bytes.skip(object.end),
    }
}

/// Bytes between quotes, escaped so that a reader does not stop in them.
pub open spec fn is_string(bytes: Seq<u8>) -> bool {
    exists|text: Seq<u8>| bytes == seq![0x22u8] + #[trigger] escaped(text) + seq![0x22u8]
}

/// A value without quotes.
pub open spec fn is_bare(bytes: Seq<u8>) -> bool {
    &&& bytes.len() > 0
    &&& forall|i: int|
        0 <= i < bytes.len() ==> #[trigger] bytes[i] != 0x2c && bytes[i] != 0x7d && bytes[i] != 0x22
}

/// A member that a reader can read.
pub open spec fn readable(member: Member) -> bool {
    is_string(member.0) && (is_string(member.1) || is_bare(member.1))
}

/// A member in a line.
pub open spec fn member_bytes(member: Member) -> Seq<u8> {
    member.0 + seq![0x3au8] + member.1
}

/// Members in a line, with commas between them.
pub open spec fn members_bytes(members: Seq<Member>) -> Seq<u8>
    decreases members.len(),
{
    if members.len() == 0 {
        seq![]
    } else if members.len() == 1 {
        member_bytes(members[0])
    } else {
        member_bytes(members[0]) + seq![0x2cu8] + members_bytes(members.drop_first())
    }
}

proof fn lemma_string_end(before: Seq<u8>, string: Seq<u8>, after: Seq<u8>)
    requires
        is_string(string),
    ensures
        string.len() >= 2,
        string[0] == 0x22,
        closing_quote(before + string + after, before.len() as int + 1) == before.len()
            + string.len() - 1,
{
    let text = choose|text: Seq<u8>|
        string == seq![0x22u8] + #[trigger] escaped(text) + seq![0x22u8];
    let quote = seq![0x22u8];
    let all = before + string + after;
    crate::json::lemma_reader_passes(before + quote, text, quote + after);
    assert((before + quote) + escaped(text) + (quote + after) =~= all);
    let last = before.len() + string.len() - 1;
    assert(all[last] == 0x22);
}

proof fn lemma_bare_end(before: Seq<u8>, bare: Seq<u8>, after: Seq<u8>, k: int)
    requires
        is_bare(bare),
        after.len() > 0,
        after[0] == 0x2c || after[0] == 0x7d,
        0 <= k <= bare.len(),
    ensures
        bare_end(before + bare + after, before.len() + k) == before.len() + bare.len(),
    decreases bare.len() - k,
{
    let all = before + bare + after;
    if k < bare.len() {
        assert(all[before.len() + k] == bare[k]);
        lemma_bare_end(before, bare, after, k + 1);
    } else {
        assert(all[before.len() + k] == after[0]);
    }
}

/// A reader that stands before members finds exactly these, and the end of the object.
pub proof fn lemma_read_members(before: Seq<u8>, members: Seq<Member>, after: Seq<u8>)
    requires
        members.len() > 0,
        forall|i: int| 0 <= i < members.len() ==> readable(#[trigger] members[i]),
        after.len() > 0,
        after[0] == 0x7d,
    ensures
        ({
            let object = read_members(
                before + members_bytes(members) + after,
                before.len() as int,
            );
            &&& object.members == members
            &&& object.end == before.len() + members_bytes(members).len()
        }),
    decreases members.len(),
{
    let (key, value) = members[0];
    assert(readable(members[0]));
    let all = before + members_bytes(members) + after;
    let at = before.len() as int;
    let colon = at + key.len();
    let end = colon + 1 + value.len();
    let rest = if members.len() == 1 {
        after
    } else {
        seq![0x2cu8] + members_bytes(members.drop_first()) + after
    };
    assert(all =~= before + key + (seq![0x3au8] + value + rest));
    lemma_string_end(before, key, seq![0x3au8] + value + rest);
    let to_value = before + key + seq![0x3au8];
    assert(all =~= to_value + value + rest);
    if is_string(value) {
        lemma_string_end(to_value, value, rest);
        assert(all[colon + 1] == value[0]);
    } else {
        lemma_bare_end(to_value, value, rest, 0);
        assert(all[colon + 1] == value[0]);
    }
    assert(value_end(all, colon + 1) == end);
    assert(all.subrange(at, colon) =~= key);
    assert(all.subrange(colon + 1, end) =~= value);
    assert(all[end] == rest[0]);
    if members.len() == 1 {
        assert(seq![(key, value)] =~= members);
    } else {
        let others = members.drop_first();
        assert forall|i: int| 0 <= i < others.len() implies readable(#[trigger] others[i]) by {
            assert(readable(members[i + 1]));
        }
        lemma_read_members(to_value + value + seq![0x2cu8], others, after);
        assert(to_value + value + seq![0x2cu8] + members_bytes(others) + after =~= all);
        assert(seq![(key, value)] + others =~= members);
    }
}

/// One more member at the end.
pub proof fn lemma_members_push(members: Seq<Member>, member: Member)
    requires
        members.len() > 0,
    ensures
        members_bytes(members.push(member)) == members_bytes(members) + seq![0x2cu8]
            + member_bytes(member),
    decreases members.len(),
{
    let more = members.push(member);
    if members.len() == 1 {
        assert(more.drop_first() =~= seq![member]);
        assert(members_bytes(seq![member]) == member_bytes(member));
    } else {
        assert(more.drop_first() =~= members.drop_first().push(member));
        lemma_members_push(members.drop_first(), member);
        assert(members_bytes(more) =~= members_bytes(members) + seq![0x2cu8] + member_bytes(
            member,
        ));
    }
}

/// A line made of a head, members and a tail reads back as these.
pub proof fn lemma_read_line(bytes: Seq<u8>, head: Seq<u8>, members: Seq<Member>, tail: Seq<u8>)
    requires
        bytes == head + members_bytes(members) + tail,
        members.len() > 0,
        forall|i: int| 0 <= i < members.len() ==> readable(#[trigger] members[i]),
        tail.len() > 0,
        tail[0] == 0x7d,
    ensures
        read_line(bytes, head.len() as int) == (Line { head, members, tail }),
{
    lemma_read_members(head, members, tail);
    assert(bytes.take(head.len() as int) =~= head);
    assert(bytes.skip((head.len() + members_bytes(members).len()) as int) =~= tail);
}

} // verus!
