use viddy::bytes::normalize_stdout;

#[test]
fn test_normalize_stdout() {
    assert_eq!(normalize_stdout(b"\t"), b"    ".to_vec());
    // Make sure we don't miss any tabs in edge cases.
    assert_eq!(normalize_stdout(b"\t\t\t\t\t"), b"                    ".to_vec());
    // Make sure tab is elastic (from 1 space to TAB_SIZE spaces).
    assert_eq!(normalize_stdout(b"\t12345"), b"    12345".to_vec());
    assert_eq!(normalize_stdout(b"1\t2345"), b"1   2345".to_vec());
    assert_eq!(normalize_stdout(b"12\t345"), b"12  345".to_vec());
    assert_eq!(normalize_stdout(b"123\t45"), b"123 45".to_vec());
    assert_eq!(normalize_stdout(b"1234\t5"), b"1234    5".to_vec());
    // Make sure we reset alignment on new lines.
    assert_eq!(normalize_stdout(b"123\t\n4\t5"), b"123 \n4   5".to_vec());
    assert_eq!(normalize_stdout(b"12\t3\n4\t5"), b"12  3\n4   5".to_vec());
    assert_eq!(normalize_stdout(b"1\t23\n4\t5"), b"1   23\n4   5".to_vec());
    assert_eq!(normalize_stdout(b"\t123\n4\t5"), b"    123\n4   5".to_vec());
    assert_eq!(
        normalize_stdout("あ\tい\nう\tえ".as_bytes()),
        "あ  い\nう  え".as_bytes().to_vec()
    );
    assert_eq!(
        normalize_stdout(b"\x1b[34ma\t\x1b[39mb\x1b[0m"),
        b"\x1b[34ma   \x1b[39mb\x1b[0m".to_vec()
    );
}

#[test]
fn tab_expansion_aligns_to_tab_stops() {
    // A tab at column c expands to exactly 4 - (c % 4) spaces, so the
    // column right after each original tab is a multiple of four.
    for prefix_len in 0..8usize {
        let prefix: String = "x".repeat(prefix_len);
        let input = format!("{}\tY", prefix);
        let out = normalize_stdout(input.as_bytes());
        let out = String::from_utf8(out).unwrap();
        let spaces = 4 - (prefix_len % 4);
        assert_eq!(out, format!("{}{}Y", prefix, " ".repeat(spaces)));
        let y_col = out.find('Y').unwrap();
        assert_eq!(y_col % 4, 0);
    }
}

#[test]
fn invalid_utf8_is_replaced_then_normalized() {
    assert_eq!(
        normalize_stdout(b"\xffa"),
        "\u{fffd}a".as_bytes().to_vec()
    );
}

#[test]
fn incomplete_escape_copied_through() {
    assert_eq!(normalize_stdout(b"a\x1b[12"), b"a\x1b[12".to_vec());
}
