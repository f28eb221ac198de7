use sindra::rules::remove_underscores;
use sindra::rules::text::{byte_len, slice};

#[test]
fn remove_underscores_drops_only_underscores() {
    assert_eq!(remove_underscores("1_000_000"), "1000000");
    assert_eq!(remove_underscores("0x_FF_ff"), "0xFFff");
    assert_eq!(remove_underscores("___"), "");
    assert_eq!(remove_underscores(""), "");
    assert_eq!(remove_underscores("no underscores"), "no underscores");
    assert_eq!(remove_underscores("_é_☺_"), "é☺");
}

#[test]
fn slice_cuts_at_byte_offsets() {
    assert_eq!(slice("hello", 1, 3), "el");
    assert_eq!(slice("hello", 0, 5), "hello");
    assert_eq!(slice("hello", 2, 2), "");
    assert_eq!(slice("é☺x", 2, 5), "☺");
    assert_eq!(slice("é☺x", 0, 2), "é");
    assert_eq!(slice("é☺x", 5, 6), "x");
}

#[test]
fn byte_len_counts_bytes() {
    assert_eq!(byte_len(""), 0);
    assert_eq!(byte_len("abc"), 3);
    assert_eq!(byte_len("é☺"), 5);
}
