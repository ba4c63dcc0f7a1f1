use yscloud::hexdump::{rhexdump_impl, HexdumpError};

#[test]
fn sample_dump1() {
    assert_eq!(rhexdump_impl(r#"
        0000   02 01 06 00 c7 ea fb ae 00 00 00 00 4b 9f 2e 3f   ............K..?
        0010   4b 9f 2e 3f 0a 98 d3 0d 00 00 00 00 00 50 04 b1   K..?.........P..
    "#).unwrap(), &[
        0x02, 0x01, 0x06, 0x00, 0xc7, 0xea, 0xfb, 0xae, 0x00, 0x00, 0x00, 0x00,
        0x4b, 0x9f, 0x2e, 0x3f, 0x4b, 0x9f, 0x2e, 0x3f, 0x0a, 0x98, 0xd3, 0x0d,
        0x00, 0x00, 0x00, 0x00, 0x00, 0x50, 0x04, 0xb1,
    ]);
}

#[test]
fn sample_dump_xxd_single_line() {
    assert_eq!(rhexdump_impl(r#"
        00000000: 6173 6466 0a                             asdf.
    "#).unwrap(), &[0x61, 0x73, 0x64, 0x66, 0x0a]);
}

#[test]
fn sample_dump_xxd_multiple_line() {
    assert_eq!(rhexdump_impl(r#"
        00000000: 6173 6466 6173 6466 6173 6466 6173 6466  asdfasdfasdfasdf
        00000010: 6173 6466 0a                             asdf.
    "#).unwrap(), &[
        0x61, 0x73, 0x64, 0x66, 0x61, 0x73, 0x64, 0x66, 0x61, 0x73, 0x64,0x66,
        0x61, 0x73, 0x64, 0x66, 0x61, 0x73, 0x64, 0x66, 0x0a
    ]);
}

#[test]
fn hexdump_no_decoder_for_first_line() {
    assert_eq!(rhexdump_impl("nothing here"), Err(HexdumpError::NoValidDecoder));
}

#[test]
fn hexdump_xxd_line_without_body() {
    assert_eq!(
        rhexdump_impl("00000000: 6173\nbroken"),
        Err(HexdumpError::NoBodyAfterOffset)
    );
}

#[test]
fn hexdump_column_line_without_body() {
    assert_eq!(
        rhexdump_impl("0000   41 42\n0010 43"),
        Err(HexdumpError::BadlyFormatted)
    );
}

#[test]
fn hexdump_blank_lines_and_upper_case() {
    assert_eq!(
        rhexdump_impl("0000   AB cd\n\n   \n0002   Ef 01"),
        Ok(vec![0xab, 0xcd, 0xef, 0x01])
    );
}
