//! Byte-level text: appending to a write buffer, decimal numbers, and the order of strings.
use vstd::prelude::*;
use vstd::utf8::encode_utf8;

verus! {

/// The bytes of a text in a log buffer.
pub open spec fn utf8(text: Seq<char>) -> Seq<u8> {
    encode_utf8(text)
}

/// The decimal digits of `n`, without leading zeros.
pub open spec fn decimal(n: nat) -> Seq<u8>
    decreases n,
{
    if n < 10 {
        seq![(0x30 + n) as u8]
    } else {
        decimal(n / 10).push((0x30 + n % 10) as u8)
    }
}

/// The number that a run of decimal digits stands for.
pub open spec fn decimal_value(digits: Seq<u8>) -> int
    decreases digits.len(),
{
    if digits.len() == 0 {
        0
    } else {
        decimal_value(digits.drop_last()) * 10 + (digits.last() - 0x30)
    }
}

/// Whether every byte of `bytes` is printable: no line feed and no other control byte.
pub open spec fn printable(bytes: Seq<u8>) -> bool {
    forall|i: int| 0 <= i < bytes.len() ==> #[trigger] bytes[i] >= 0x20
}

/// Whether no character of `text` is a control character below the space.
pub open spec fn printable_text(text: Seq<char>) -> bool {
    forall|i: int| 0 <= i < text.len() ==> #[trigger] text[i] >= ' '
}

/// `a` comes strictly before `b` in the byte-wise lexicographic order.
pub open spec fn bytes_before(a: Seq<u8>, b: Seq<u8>) -> bool
    decreases a.len(),
{
    if b.len() == 0 {
        false
    } else if a.len() == 0 {
        true
    } else if a[0] != b[0] {
        a[0] < b[0]
    } else {
        bytes_before(a.drop_first(), b.drop_first())
    }
}

/// The order of strings: the byte-wise order of their UTF-8 forms.
pub open spec fn text_before(a: Seq<char>, b: Seq<char>) -> bool {
    bytes_before(utf8(a), utf8(b))
}

/// How one text stands to another in the order of strings.
#[derive(Clone, Copy, Debug, PartialEq, Eq, Structural)]
pub enum Relation {
    Before,
    Same,
    After,
}

/// How `a` stands to `b`, in terms of `text_before`.
pub open spec fn relation(a: Seq<char>, b: Seq<char>) -> Relation {
    if a == b {
        Relation::Same
    } else if text_before(a, b) {
        Relation::Before
    } else {
        Relation::After
    }
}

/// Appends a text to a buffer.
pub fn append_text(buffer: &mut Vec<u8>, text: &str)
    ensures
        final(buffer)@ == old(buffer)@ + utf8(text@),
{
    buffer.extend_from_slice(text.as_bytes());
}

/// Appends the decimal digits of a number to a buffer.
pub fn append_decimal(buffer: &mut Vec<u8>, n: u64)
    ensures
        final(buffer)@ == old(buffer)@ + decimal(n as nat),
    decreases n,
{
    if n >= 10 {
        append_decimal(buffer, n / 10);
    }
    let digit: u8 = (n % 10) as u8;
    buffer.push(0x30 + digit);
    assert(buffer@ =~= old(buffer)@ + decimal(n as nat));
}

/// Two texts with the same UTF-8 form are the same text.
pub proof fn lemma_utf8_injective(a: Seq<char>, b: Seq<char>)
    ensures
        utf8(a) == utf8(b) ==> a == b,
{
    vstd::utf8::encode_utf8_decode_utf8(a);
    vstd::utf8::encode_utf8_decode_utf8(b);
}

/// The UTF-8 form of one character without control bytes is printable.
proof fn lemma_printable_scalar(scalar: u32)
    requires
        scalar >= 0x20,
    ensures
        printable(vstd::utf8::encode_scalar(scalar)),
{
    assert(0x20 <= scalar <= 0x7f ==> (scalar & 0x7F) as u8 >= 0x20) by (bit_vector);
    assert(0xC0u8 | ((scalar >> 6) & 0x1F) as u8 >= 0x20) by (bit_vector);
    assert(0xE0u8 | ((scalar >> 12) & 0x0F) as u8 >= 0x20) by (bit_vector);
    assert(0xF0u8 | ((scalar >> 18) & 0x7) as u8 >= 0x20) by (bit_vector);
    assert(0x80u8 | (scalar & 0x3F) as u8 >= 0x20) by (bit_vector);
    assert(0x80u8 | ((scalar >> 6) & 0x3F) as u8 >= 0x20) by (bit_vector);
    assert(0x80u8 | ((scalar >> 12) & 0x3F) as u8 >= 0x20) by (bit_vector);
}

/// A text without control characters has printable bytes.
pub proof fn lemma_printable_text(text: Seq<char>)
    requires
        printable_text(text),
    ensures
        printable(utf8(text)),
    decreases text.len(),
{
    if text.len() > 0 {
        vstd::utf8::char_u32_cast(text[0], text[0] as u32);
        lemma_printable_scalar(text[0] as u32);
        assert forall|i: int| 0 <= i < text.drop_first().len() implies #[trigger] text.drop_first()[i]
            >= ' ' by {
            assert(text[i + 1] >= ' ');
        }
        lemma_printable_text(text.drop_first());
    }
}

/// The UTF-8 form of two texts in a row.
pub proof fn lemma_utf8_concat(a: Seq<char>, b: Seq<char>)
    ensures
        utf8(a + b) == utf8(a) + utf8(b),
    decreases a.len(),
{
    if a.len() == 0 {
        assert(a + b =~= b);
        assert(utf8(a) + utf8(b) =~= utf8(b));
    } else {
        assert((a + b).drop_first() =~= a.drop_first() + b);
        lemma_utf8_concat(a.drop_first(), b);
        assert(utf8(a + b) =~= utf8(a) + utf8(b));
    }
}

/// Whether `bytes` are one line of a log: printable bytes and then a line feed.
pub open spec fn one_line(bytes: Seq<u8>) -> bool {
    &&& bytes.len() > 0
    &&& bytes.last() == 0x0a
    &&& printable(bytes.drop_last())
}

/// A printable text and then a line feed is one line.
pub proof fn lemma_one_line_text(text: Seq<char>)
    requires
        text.len() > 0,
        text.last() == '\n',
        printable_text(text.drop_last()),
    ensures
        one_line(utf8(text)),
{
    let feed = seq!['\n'];
    assert(text =~= text.drop_last() + feed);
    lemma_utf8_concat(text.drop_last(), feed);
    lemma_printable_text(text.drop_last());
    vstd::utf8::is_ascii_chars_encode_utf8(feed);
    assert(utf8(feed) =~= seq![0x0au8]);
    assert(utf8(text).drop_last() =~= utf8(text.drop_last()));
}

/// Printable bytes before one line make one line.
pub proof fn lemma_one_line_prefix(first: Seq<u8>, rest: Seq<u8>)
    requires
        printable(first),
        one_line(rest),
    ensures
        one_line(first + rest),
{
    assert((first + rest).drop_last() =~= first + rest.drop_last());
}

/// No byte string comes before itself.
proof fn lemma_bytes_before_irreflexive(a: Seq<u8>)
    ensures
        !bytes_before(a, a),
    decreases a.len(),
{
    if a.len() > 0 {
        lemma_bytes_before_irreflexive(a.drop_first());
    }
}

/// The order of byte strings is transitive.
proof fn lemma_bytes_before_transitive(a: Seq<u8>, b: Seq<u8>, c: Seq<u8>)
    requires
        bytes_before(a, b),
        bytes_before(b, c),
    ensures
        bytes_before(a, c),
    decreases a.len(),
{
    if a.len() > 0 && b.len() > 0 && c.len() > 0 && a[0] == b[0] && b[0] == c[0] {
        lemma_bytes_before_transitive(a.drop_first(), b.drop_first(), c.drop_first());
    }
}

/// Of two different byte strings one comes before the other.
proof fn lemma_bytes_before_total(a: Seq<u8>, b: Seq<u8>)
    ensures
        a == b || bytes_before(a, b) || bytes_before(b, a),
    decreases a.len(),
{
    if a.len() == 0 {
        if b.len() == 0 {
            assert(a =~= b);
        }
    } else if b.len() > 0 && a[0] == b[0] {
        lemma_bytes_before_total(a.drop_first(), b.drop_first());
        if a.drop_first() == b.drop_first() {
            assert(a =~= seq![a[0]] + a.drop_first());
            assert(b =~= seq![b[0]] + b.drop_first());
        }
    }
}

/// The order of strings is a strict total order.
pub proof fn law_text_order_is_strict_and_total(a: Seq<char>, b: Seq<char>, c: Seq<char>)
    ensures
        !text_before(a, a),
        text_before(a, b) && text_before(b, c) ==> text_before(a, c),
        a == b || text_before(a, b) || text_before(b, a),
        !(text_before(a, b) && text_before(b, a)),
{
    lemma_bytes_before_irreflexive(utf8(a));
    lemma_bytes_before_total(utf8(a), utf8(b));
    lemma_utf8_injective(a, b);
    if text_before(a, b) && text_before(b, c) {
        lemma_bytes_before_transitive(utf8(a), utf8(b), utf8(c));
    }
    if text_before(a, b) && text_before(b, a) {
        lemma_bytes_before_transitive(utf8(a), utf8(b), utf8(a));
    }
}

/// A common first part does not matter for the order of byte strings.
proof fn lemma_bytes_before_skip(a: Seq<u8>, b: Seq<u8>, n: int)
    requires
        0 <= n <= a.len(),
        n <= b.len(),
        a.take(n) == b.take(n),
    ensures
        bytes_before(a, b) == bytes_before(a.skip(n), b.skip(n)),
    decreases n,
{
    if n == 0 {
        assert(a.skip(0) =~= a);
        assert(b.skip(0) =~= b);
    } else {
        assert(a[0] == a.take(n)[0] && b[0] == b.take(n)[0]);
        assert(a.drop_first().take(n - 1) =~= a.take(n).drop_first());
        assert(b.drop_first().take(n - 1) =~= b.take(n).drop_first());
        lemma_bytes_before_skip(a.drop_first(), b.drop_first(), n - 1);
        assert(a.drop_first().skip(n - 1) =~= a.skip(n));
        assert(b.drop_first().skip(n - 1) =~= b.skip(n));
    }
}

/// Tells how two texts stand to each other in the order of strings.
pub fn relate(a: &str, b: &str) -> (r: Relation)
    ensures
        r == relation(a@, b@),
{
    let x: &[u8] = a.as_bytes();
    let y: &[u8] = b.as_bytes();
    proof {
        lemma_utf8_injective(a@, b@);
    }
    let mut i: usize = 0;
    while i < x.len() && i < y.len()
        invariant
            i <= x@.len(),
            i <= y@.len(),
            x@ == utf8(a@),
            y@ == utf8(b@),
            x@.take(i as int) == y@.take(i as int),
            utf8(a@) == utf8(b@) ==> a@ == b@,
        decreases x@.len() - i,
    {
        if x[i] != y[i] {
            proof {
                lemma_bytes_before_skip(x@, y@, i as int);
            }
            if x[i] < y[i] {
                return Relation::Before;
            }
            return Relation::After;
        }
        assert(x@.take(i + 1) =~= x@.take(i as int).push(x@[i as int]));
        assert(y@.take(i + 1) =~= y@.take(i as int).push(y@[i as int]));
        i += 1;
    }
    proof {
        lemma_bytes_before_skip(x@, y@, i as int);
    }
    if x.len() == y.len() {
        assert(x@.take(i as int) =~= x@);
        assert(y@.take(i as int) =~= y@);
        Relation::Same
    } else if i == x.len() {
        Relation::Before
    } else {
        Relation::After
    }
}

/// Tells whether two texts are the same.
pub fn same_text(a: &str, b: &str) -> (r: bool)
    ensures
        r == (a@ == b@),
{
    match relate(a, b) {
        Relation::Same => true,
        _ => false,
    }
}

/// Digits are printable, and reading them back gives the number.
pub proof fn law_decimal_reads_back(n: nat)
    ensures
        decimal_value(decimal(n)) == n,
        forall|i: int| 0 <= i < decimal(n).len() ==> 0x30 <= #[trigger] decimal(n)[i] <= 0x39,
        decimal(n).len() > 0,
        n > 0 ==> decimal(n)[0] != 0x30,
        n == 0 ==> decimal(n).len() == 1,
    decreases n,
{
    reveal_with_fuel(decimal_value, 2);
    if n < 10 {
        assert(decimal(n).drop_last() =~= Seq::<u8>::empty());
    } else {
        law_decimal_reads_back(n / 10);
        assert(decimal(n).drop_last() =~= decimal(n / 10));
    }
}

/// Different numbers have different digits.
pub proof fn law_decimal_is_injective(a: nat, b: nat)
    ensures
        decimal(a) == decimal(b) ==> a == b,
{
    law_decimal_reads_back(a);
    law_decimal_reads_back(b);
}

/// Whether `x` ends at `n` while `y` goes on, or has the smaller byte there, with everything before
/// being the same.
pub open spec fn smaller_at(x: Seq<u8>, y: Seq<u8>, n: int) -> bool {
    &&& 0 <= n <= x.len()
    &&& n < y.len()
    &&& n == x.len() || x[n] < y[n]
    &&& x.take(n) == y.take(n)
}

/// The order of strings compares bytes: a text comes before another if it is a proper beginning of
/// it, or if it has the smaller byte where the two first differ.
pub proof fn law_text_order_compares_bytes(a: Seq<char>, b: Seq<char>)
    ensures
        text_before(a, b) <==> exists|n: int| smaller_at(encode_utf8(a), encode_utf8(b), n),
{
    let (x, y) = (encode_utf8(a), encode_utf8(b));
    if text_before(a, b) {
        let n = lemma_first_difference(x, y);
        assert(smaller_at(x, y, n));
    }
    if exists|n: int| smaller_at(x, y, n) {
        let n = choose|n: int| smaller_at(x, y, n);
        lemma_bytes_before_skip(x, y, n);
        assert(y.skip(n)[0] == y[n]);
        if n < x.len() {
            assert(x.skip(n)[0] == x[n]);
        }
    }
}

/// Where two byte strings of which the first comes before the second first differ.
proof fn lemma_first_difference(x: Seq<u8>, y: Seq<u8>) -> (n: int)
    requires
        bytes_before(x, y),
    ensures
        0 <= n <= x.len(),
        n < y.len(),
        n == x.len() || x[n] < y[n],
        x.take(n) == y.take(n),
    decreases x.len(),
{
    if x.len() == 0 || x[0] != y[0] {
        assert(x.take(0) =~= y.take(0));
        0
    } else {
        let n = lemma_first_difference(x.drop_first(), y.drop_first()) + 1;
        assert(x.take(n) =~= seq![x[0]] + x.drop_first().take(n - 1));
        assert(y.take(n) =~= seq![y[0]] + y.drop_first().take(n - 1));
        n
    }
}

/// Texts are compared as they are told to stand: one way round or the other, or the same.
pub proof fn law_relation_says_which_text_comes_first(a: Seq<char>, b: Seq<char>)
    ensures
        relation(a, b) == Relation::Same <==> a == b,
        relation(a, b) == Relation::Before <==> text_before(a, b),
        relation(a, b) == Relation::After <==> text_before(b, a),
{
    law_text_order_is_strict_and_total(a, b, a);
}

/// A text is written in UTF-8, with nothing added and nothing left out.
pub proof fn law_text_is_written_in_utf8(text: Seq<char>)
    ensures
        utf8(text) == encode_utf8(text),
        vstd::utf8::decode_utf8(utf8(text)) == text,
{
    vstd::utf8::encode_utf8_decode_utf8(text);
}

} // verus!
