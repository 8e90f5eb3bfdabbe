//! JSON strings, as `serde_json` writes them.
use crate::text::{printable, utf8};
use vstd::prelude::*;

verus! {

/// One hexadecimal digit, in lower case.
pub open spec fn hex_digit(n: int) -> u8 {
    if n < 10 {
        (0x30 + n) as u8
    } else {
        (0x61 + (n - 10)) as u8
    }
}

/// What stands for one byte of a text inside a JSON string: quotes, backslashes and control
/// bytes are escaped, every other byte stands for itself.
pub open spec fn escaped_byte(byte: u8) -> Seq<u8> {
    if byte == 0x22 || byte == 0x5c {
        seq![0x5c, byte]
    } else if byte == 0x08 {
        seq![0x5c, 0x62]
    } else if byte == 0x09 {
        seq![0x5c, 0x74]
    } else if byte == 0x0a {
        seq![0x5c, 0x6e]
    } else if byte == 0x0c {
        seq![0x5c, 0x66]
    } else if byte == 0x0d {
        seq![0x5c, 0x72]
    } else if byte < 0x20 {
        seq![0x5c, 0x75, 0x30, 0x30, hex_digit(byte as int / 16), hex_digit(byte as int % 16)]
    } else {
        seq![byte]
    }
}

/// What stands for a run of bytes inside a JSON string.
pub open spec fn escaped(bytes: Seq<u8>) -> Seq<u8>
    decreases bytes.len(),
{
    if bytes.len() == 0 {
        seq![]
    } else {
        escaped_byte(bytes[0]) + escaped(bytes.drop_first())
    }
}

/// A text as a JSON string: its escaped bytes between two quotes.
pub open spec fn json_string(value: Seq<char>) -> Seq<u8> {
    seq![0x22u8] + escaped(utf8(value)) + seq![0x22u8]
}

/// Where a reader that stands at `from`, inside a JSON string, finds the quote that ends it.
pub open spec fn closing_quote(bytes: Seq<u8>, from: int) -> int
    decreases bytes.len() + 1 - from,
{
    if from >= bytes.len() {
        bytes.len() as int
    } else if bytes[from] == 0x22 {
        from
    } else if bytes[from] == 0x5c {
        closing_quote(bytes, from + 2)
    } else {
        closing_quote(bytes, from + 1)
    }
}

/// Serializes a caller-provided string so that it cannot inject fields or log lines.
///
/// Trusted: `serde_json::to_writer`, which is claimed to append to the vector the text's bytes
/// between two quotes, with quotes, backslashes and control bytes escaped as `escaped_byte`
/// says, and never to fail on a string and a vector.
#[verifier::external_body]
pub(crate) fn append_json_string(buffer: &mut Vec<u8>, value: &str)
    ensures
        final(buffer)@ == old(buffer)@ + json_string(value@),
{
    serde_json::to_writer(buffer, value).expect("writing a JSON string to a Vec<u8> cannot fail");
}

proof fn lemma_escaped_printable(bytes: Seq<u8>)
    ensures
        printable(escaped(bytes)),
    decreases bytes.len(),
{
    if bytes.len() > 0 {
        lemma_escaped_printable(bytes.drop_first());
        assert(printable(escaped_byte(bytes[0])));
    }
}

/// No text can put a line feed or another control byte into a JSON string.
pub proof fn law_json_string_is_printable(value: Seq<char>)
    ensures
        printable(json_string(value)),
{
    lemma_escaped_printable(utf8(value));
}

/// A reader steps over what stands for one byte without stopping in it.
proof fn lemma_reader_passes_byte(before: Seq<u8>, byte: u8, after: Seq<u8>)
    ensures
        closing_quote(before + escaped_byte(byte) + after, before.len() as int) == closing_quote(
            before + escaped_byte(byte) + after,
            (before.len() + escaped_byte(byte).len()) as int,
        ),
{
    let all = before + escaped_byte(byte) + after;
    let at = before.len() as int;
    reveal_with_fuel(closing_quote, 6);
    assert forall|k: int| 0 <= k < escaped_byte(byte).len() implies all[at + k] == escaped_byte(
        byte,
    )[k] by {}
    assert(all[at] == escaped_byte(byte)[0]);
    if escaped_byte(byte).len() == 6 {
        assert(all[at + 2] == escaped_byte(byte)[2]);
        assert(all[at + 3] == escaped_byte(byte)[3]);
        assert(all[at + 4] == escaped_byte(byte)[4]);
        assert(all[at + 5] == escaped_byte(byte)[5]);
    }
}

/// A reader steps over an escaped run of bytes without stopping in it.
pub proof fn lemma_reader_passes(before: Seq<u8>, bytes: Seq<u8>, after: Seq<u8>)
    ensures
        closing_quote(before + escaped(bytes) + after, before.len() as int) == closing_quote(
            before + escaped(bytes) + after,
            (before.len() + escaped(bytes).len()) as int,
        ),
    decreases bytes.len(),
{
    if bytes.len() > 0 {
        let rest = escaped(bytes.drop_first());
        lemma_reader_passes_byte(before, bytes[0], rest + after);
        assert(before + escaped_byte(bytes[0]) + (rest + after) =~= before + escaped(bytes)
            + after);
        lemma_reader_passes(before + escaped_byte(bytes[0]), bytes.drop_first(), after);
        assert((before + escaped_byte(bytes[0])) + rest + after =~= before + escaped(bytes)
            + after);
    }
}

/// No text can end its JSON string early: a reader that starts behind the opening quote stops at
/// the last byte of the string, whatever follows it.
pub proof fn law_json_string_ends_where_it_should(value: Seq<char>, rest: Seq<u8>)
    ensures
        closing_quote(json_string(value) + rest, 1) == json_string(value).len() - 1,
{
    let open = seq![0x22u8];
    lemma_reader_passes(open, utf8(value), open + rest);
    assert(open + escaped(utf8(value)) + (open + rest) =~= json_string(value) + rest);
    let last = json_string(value).len() - 1;
    assert((json_string(value) + rest)[last] == 0x22);
}

proof fn lemma_escaped_injective(a: Seq<u8>, b: Seq<u8>)
    requires
        escaped(a) == escaped(b),
    ensures
        a == b,
    decreases a.len(),
{
    if a.len() == 0 {
        if b.len() > 0 {
            assert(escaped(b)[0] == escaped_byte(b[0])[0]);
        }
        assert(a =~= b);
    } else if b.len() == 0 {
        assert(escaped(a)[0] == escaped_byte(a[0])[0]);
    } else {
        let x = escaped_byte(a[0]);
        let y = escaped_byte(b[0]);
        let ra = escaped(a.drop_first());
        let rb = escaped(b.drop_first());
        assert(x + ra == y + rb);
        assert((x + ra)[0] == x[0] && (y + rb)[0] == y[0]);
        if x.len() > 1 && y.len() > 1 {
            assert((x + ra)[1] == x[1] && (y + rb)[1] == y[1]);
            if x.len() == 6 && y.len() == 6 {
                assert((x + ra)[4] == x[4] && (y + rb)[4] == y[4]);
                assert((x + ra)[5] == x[5] && (y + rb)[5] == y[5]);
            }
        }
        assert(a[0] == b[0]);
        assert(ra =~= (x + ra).skip(x.len() as int));
        assert(rb =~= (y + rb).skip(y.len() as int));
        lemma_escaped_injective(a.drop_first(), b.drop_first());
        assert(a =~= seq![a[0]] + a.drop_first());
        assert(b =~= seq![b[0]] + b.drop_first());
    }
}

/// Different texts have different JSON strings.
pub proof fn law_json_string_is_injective(a: Seq<char>, b: Seq<char>)
    ensures
        json_string(a) == json_string(b) ==> a == b,
{
    if json_string(a) == json_string(b) {
        let ea = escaped(utf8(a));
        let eb = escaped(utf8(b));
        assert(ea.len() == json_string(a).len() - 2);
        assert(ea =~= json_string(a).subrange(1, json_string(a).len() - 1));
        assert(eb =~= json_string(b).subrange(1, json_string(b).len() - 1));
        lemma_escaped_injective(utf8(a), utf8(b));
        crate::text::lemma_utf8_injective(a, b);
    }
}

} // verus!
