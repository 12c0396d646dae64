use tlstap::format::ChunkFormatter;

fn s(v: Vec<u8>) -> String {
    String::from_utf8(v).unwrap()
}

#[test]
fn raw_is_passthrough_plus_newline() {
    let input = b"\x00\x01binary\xffdata\r\n";
    let out = ChunkFormatter::Raw.format_chunk(input);
    let mut expected = input.to_vec();
    expected.push(b'\n');
    assert_eq!(out, expected);
}

#[test]
fn raw_empty() {
    let out = ChunkFormatter::Raw.format_chunk(b"");
    assert_eq!(out, b"\n".to_vec());
}

#[test]
fn text_passes_printable_and_newline() {
    let out = ChunkFormatter::Text.format_chunk(b"GET / HTTP/1.0\n");
    assert_eq!(s(out), "GET / HTTP/1.0\n\n");
}

#[test]
fn text_escapes_carriage_return() {
    let out = ChunkFormatter::Text.format_chunk(b"GET /\r\n");
    assert_eq!(s(out), "GET /\\r\n\n");
}

#[test]
fn text_replaces_unprintable_with_dot() {
    let out = ChunkFormatter::Text.format_chunk(b"\x00a\x1fb\x7fc\xff");
    assert_eq!(s(out), ".a.b.c.\n");
}

#[test]
fn text_empty_is_single_newline() {
    let out = ChunkFormatter::Text.format_chunk(b"");
    assert_eq!(out, b"\n".to_vec());
}

#[test]
fn text_length_counts_carriage_returns() {
    // length == input length + one per CR + one trailing newline
    let input = b"a\rb\r\rz";
    let out = ChunkFormatter::Text.format_chunk(input);
    assert_eq!(out.len(), input.len() + 3 + 1);
}

#[test]
fn formatter_selection_prefers_raw_then_hex() {
    assert!(matches!(ChunkFormatter::select(false, false), ChunkFormatter::Text));
    assert!(matches!(ChunkFormatter::select(true, false), ChunkFormatter::Hex));
    assert!(matches!(ChunkFormatter::select(false, true), ChunkFormatter::Raw));
    assert!(matches!(ChunkFormatter::select(true, true), ChunkFormatter::Raw));
}

#[test]
fn printability_boundaries() {
    assert!(!ChunkFormatter::is_printable(0x1f));
    assert!(ChunkFormatter::is_printable(0x20));
    assert!(ChunkFormatter::is_printable(0x7e));
    assert!(!ChunkFormatter::is_printable(0x7f));
    assert!(!ChunkFormatter::is_printable(0x00));
    assert!(!ChunkFormatter::is_printable(0xff));
}

#[test]
fn hex_empty_has_no_rows() {
    let out = ChunkFormatter::Hex.format_chunk(b"");
    assert!(out.is_empty());
}

#[test]
fn hex_short_row() {
    let out = ChunkFormatter::Hex.format_chunk(b"ABC");
    let expected = format!(
        "00000000   41 42 43 {}   ABC\n",
        " ".repeat(1 + 3 * 13),
    );
    assert_eq!(s(out), expected);
}

#[test]
fn hex_full_row() {
    let out = ChunkFormatter::Hex.format_chunk(b"0123456789abcdef");
    let expected = "00000000   30 31 32 33 34 35 36 37  38 39 61 62 63 64 65 66    0123456789abcdef\n";
    assert_eq!(s(out), expected);
}

#[test]
fn hex_eight_byte_row_gets_compensating_space() {
    let out = ChunkFormatter::Hex.format_chunk(b"01234567");
    // eight bytes: the half-row gap was emitted, so no compensating space,
    // and eight missing byte columns are padded with three spaces each
    let expected = format!("00000000   30 31 32 33 34 35 36 37 {}   01234567\n", " ".repeat(1 + 3 * 8));
    assert_eq!(s(out), expected);
}

#[test]
fn hex_seven_byte_row_gets_compensating_space() {
    let out = ChunkFormatter::Hex.format_chunk(b"0123456");
    let expected = format!("00000000   30 31 32 33 34 35 36 {}   0123456\n", " ".repeat(1 + 3 * 9));
    assert_eq!(s(out), expected);
}

#[test]
fn hex_multiple_rows_offsets_and_ascii() {
    let mut input = Vec::new();
    for i in 0..40u8 {
        input.push(i + 0x40);
    }
    let out = ChunkFormatter::Hex.format_chunk(&input);
    let text = s(out);
    let rows: Vec<&str> = text.split('\n').filter(|r| !r.is_empty()).collect();
    assert_eq!(rows.len(), 3);  // ceil(40 / 16)
    assert!(rows[0].starts_with("00000000   "));
    assert!(rows[1].starts_with("00000010   "));
    assert!(rows[2].starts_with("00000020   "));
    assert!(rows[0].ends_with("   @ABCDEFGHIJKLMNO"));
    assert!(rows[1].ends_with("   PQRSTUVWXYZ[\\]^_"));
    assert!(rows[2].ends_with("   `abcdefg"));
    // every row's ASCII column starts at the same column
    assert_eq!(rows[0].len(), 64 + 16 - 1);
    assert_eq!(rows[1].len(), 64 + 16 - 1);
    assert_eq!(rows[2].len(), 64 + 8 - 1);
}

#[test]
fn hex_unprintable_bytes_dot_in_ascii_column() {
    let out = ChunkFormatter::Hex.format_chunk(b"\x00\x7f\xffA");
    let text = s(out);
    assert!(text.starts_with("00000000   00 7f ff 41 "));
    assert!(text.ends_with("   ...A\n"));
}

#[test]
fn hex_row_count_is_len_ceil_16() {
    for len in [1usize, 15, 16, 17, 31, 32, 33] {
        let input = vec![b'x'; len];
        let out = ChunkFormatter::Hex.format_chunk(&input);
        let rows = out.iter().filter(|&&c| c == b'\n').count();
        assert_eq!(rows, len.div_ceil(16), "len {len}");
    }
}
