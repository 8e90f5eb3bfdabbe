use brz_metrics::text::{append_decimal, append_text, relate, same_text, Relation};

fn decimal(n: u64) -> Vec<u8> {
    let mut buffer = Vec::new();
    append_decimal(&mut buffer, n);
    buffer
}

#[test]
fn decimals_have_no_leading_zeros() {
    for n in [0, 7, 10, 120, 999, 1_000, u64::MAX] {
        assert_eq!(decimal(n), n.to_string().into_bytes());
        assert_eq!(String::from_utf8(decimal(n)).unwrap().parse(), Ok(n));
    }
    assert_ne!(decimal(1), decimal(10));
}

#[test]
fn texts_are_appended_as_utf8() {
    let mut buffer = b"a".to_vec();
    append_text(&mut buffer, "\u{e9}\u{20ac}\u{1f600}");
    append_text(&mut buffer, "");
    assert_eq!(buffer, "a\u{e9}\u{20ac}\u{1f600}".as_bytes().to_vec());
}

#[test]
fn texts_are_ordered_by_their_bytes() {
    let texts = ["", "A", "Z", "a", "aa", "ab", "b", "\u{e9}", "\u{20ac}", "\u{ffff}", "\u{1f600}"];
    for (i, a) in texts.iter().enumerate() {
        for (j, b) in texts.iter().enumerate() {
            let expected = if i < j {
                Relation::Before
            } else if i == j {
                Relation::Same
            } else {
                Relation::After
            };
            assert_eq!(relate(a, b), expected);
            assert_eq!(same_text(a, b), i == j);
        }
    }
}
