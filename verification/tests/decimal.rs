use compacto::decimal::{index_text, parse_index};

#[test]
fn an_index_is_written_in_base_ten() {
    assert_eq!(index_text(0), "0");
    assert_eq!(index_text(7), "7");
    assert_eq!(index_text(10), "10");
    assert_eq!(index_text(1234567890), "1234567890");
    assert_eq!(index_text(usize::MAX), usize::MAX.to_string());
}

#[test]
fn an_index_is_read_from_digits_with_an_optional_plus() {
    assert_eq!(parse_index("0"), Some(0));
    assert_eq!(parse_index("42"), Some(42));
    assert_eq!(parse_index("+42"), Some(42));
    assert_eq!(parse_index("007"), Some(7));
    assert_eq!(parse_index("+0"), Some(0));
    assert_eq!(parse_index(&usize::MAX.to_string()), Some(usize::MAX));
}

#[test]
fn other_text_writes_no_index() {
    for text in ["", "+", "-1", "-0", "++1", "1+", "1.0", "1e3", " 1", "1 ", "0x10", "1_000", "a", "٣", "1é"] {
        assert_eq!(parse_index(text), None, "{:?}", text);
    }
}

#[test]
fn an_index_that_does_not_fit_is_none() {
    assert_eq!(parse_index("18446744073709551616"), None);
    assert_eq!(parse_index("99999999999999999999999999999999"), None);
    assert_eq!(parse_index("000000000000000000000000000000001"), Some(1));
}

#[test]
fn what_was_written_reads_back() {
    for index in [0usize, 1, 9, 10, 99, 100, 65535, 4294967295, usize::MAX] {
        assert_eq!(parse_index(&index_text(index)), Some(index));
        assert_eq!(index_text(index).parse::<usize>().unwrap(), index);
    }
}
