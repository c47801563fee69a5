use guid::chunks::{u48, Chunks, GUID};
use guid::parser::{chunks, hex_digit, long_chunk, medium_chunk, short_chunk, ErrorKind};
use guid::{parse, parse_bytes, ParseGuidError};

#[test]
fn it_works() {
}

#[test]
fn test_hex_digit() {
    assert_eq!(hex_digit(b"c", 0), Ok(12));
    assert_eq!(hex_digit(b"C", 0), Ok(12));
    assert_eq!(hex_digit(b"9", 0), Ok(9));
}

#[test]
fn test_short_chunk() {
    assert_eq!(short_chunk(b"cafe", 0), Ok(0xcafe));
    assert_eq!(short_chunk(b"CAFE", 0), Ok(0xcafe));
}

#[test]
fn test_medium_chunk() {
    assert_eq!(medium_chunk(b"cafef00d", 0), Ok(0xcafef00d));
    assert_eq!(medium_chunk(b"CAFEF00D", 0), Ok(0xcafef00d));
}

#[test]
fn test_long_chunk() {
    assert_eq!(long_chunk(b"1234cafef00d", 0).map(|long| long.to_u64()), Ok(0x1234cafef00d));
    assert_eq!(long_chunk(b"1234CAFEF00D", 0).map(|long| long.to_u64()), Ok(0x1234cafef00d));
}

#[test]
fn test_chunks() {
    assert_eq!(
        chunks(b"cafef00d-CAFE-f00d-BEEF-1234abcdDADA"),
        Ok(Chunks {
            chunk1: 0xcafef00d,
            chunk2: 0xCAFE,
            chunk3: 0xf00d,
            chunk4: 0xBEEF,
            chunk5: u48 { hi: 0x1234, lo: 0xabcdDADA },
        })
    );
}

#[test]
fn test_bytes() {
    let chunks = chunks(b"cafef00d-CAFE-f00d-BEEF-1234abcdDADA").unwrap();
    let bytes = chunks.to_bytes();
    assert_eq!(
        [0xca, 0xfe, 0xf0, 0x0d, 0xCA, 0xFE, 0xf0, 0x0d, 0xBE, 0xEF, 0x12, 0x34, 0xab, 0xcd,
            0xDA, 0xDA],
        bytes
    );
}

#[test]
fn test_guid() {
    let chunks = chunks(b"cafef00d-CAFE-f00d-BEEF-1234abcdDADA").unwrap();
    let guid = chunks.to_guid();
    assert_eq!(
        GUID {
            Data1: 0xcafef00d,
            Data2: 0xCAFE,
            Data3: 0xf00d,
            Data4: [0xBE, 0xEF, 0x12, 0x34, 0xab, 0xcd, 0xDA, 0xDA],
        },
        guid
    );
}

#[test]
fn test_parser() {
    let bytes = parse_bytes("6B29FC40-CA47-1067-B31D-00DD010662DA").unwrap();
    assert_eq!(
        bytes,
        [0x6B, 0x29, 0xFC, 0x40, 0xCA, 0x47, 0x10, 0x67, 0xB3, 0x1D, 0x00, 0xDD, 0x01, 0x06,
            0x62, 0xDA]
    );
}

#[test]
fn test_macro() {
    let guid = parse("6B29FC40-CA47-1067-B31D-00DD010662DA").unwrap();
    assert_eq!(guid.Data1, 0x6B29FC40);
    assert_eq!(guid.Data2, 0xCA47);
    assert_eq!(guid.Data3, 0x1067);
    assert_eq!(guid.Data4, [0xB3, 0x1D, 0x00, 0xDD, 0x01, 0x06, 0x62, 0xDA]);
}

#[test]
fn test_to_u64() {
    assert_eq!(u48 { hi: 0xf00d, lo: 0xdeadbeef }.to_u64(), 0xf00ddeadbeef);
}

#[test]
fn test_to_parts() {
    let chunks = chunks(b"cafef00d-CAFE-f00d-BEEF-1234abcdDADA").unwrap();
    let parts = chunks.to_parts();
    assert_eq!(parts.0, 0xcafef00d);
    assert_eq!(parts.1, 0xCAFE);
    assert_eq!(parts.2, 0xf00d);
    assert_eq!(parts.3, [0xBE, 0xEF, 0x12, 0x34, 0xab, 0xcd, 0xDA, 0xDA]);
}

#[test]
fn test_tail_matches_canonical_bytes() {
    let bytes = parse_bytes("cafef00d-CAFE-f00d-BEEF-1234abcdDADA").unwrap();
    let guid = parse("cafef00d-CAFE-f00d-BEEF-1234abcdDADA").unwrap();
    assert_eq!(guid.Data4, &bytes[8..16]);
}

#[test]
fn test_case_insensitive() {
    let lower = parse_bytes("cafef00d-cafe-f00d-beef-1234abcddada").unwrap();
    let upper = parse_bytes("CAFEF00D-CAFE-F00D-BEEF-1234ABCDDADA").unwrap();
    assert_eq!(lower, upper);
}

#[test]
fn test_round_trip() {
    let bytes: [u8; 16] =
        [0x6B, 0x29, 0xFC, 0x40, 0xCA, 0x47, 0x10, 0x67, 0xB3, 0x1D, 0x00, 0xDD, 0x01, 0x06,
            0x62, 0xDA];
    let mut text = String::new();
    for (k, b) in bytes.iter().enumerate() {
        if k == 4 || k == 6 || k == 8 || k == 10 {
            text.push('-');
        }
        text.push_str(&format!("{:02x}", b));
    }
    assert_eq!(parse_bytes(&text), Ok(bytes));
}

#[test]
fn test_valid_parses_to_16_bytes() {
    let bytes = parse_bytes("00000000-0000-0000-0000-000000000000").unwrap();
    assert_eq!(bytes.len(), 16);
    assert_eq!(bytes, [0u8; 16]);
    let bytes = parse_bytes("ffffffff-ffff-ffff-ffff-ffffffffffff").unwrap();
    assert_eq!(bytes, [0xffu8; 16]);
}

#[test]
fn test_unexpected_byte_at_start() {
    assert_eq!(
        parse_bytes("GB29FC40-CA47-1067-B31D-00DD010662DA"),
        Err(ParseGuidError { kind: ErrorKind::UnexpectedByte, offset: 0 })
    );
}

#[test]
fn test_unexpected_byte_in_field() {
    assert_eq!(
        parse_bytes("6B29FC40-CG47-1067-B31D-00DD010662DA"),
        Err(ParseGuidError { kind: ErrorKind::UnexpectedByte, offset: 10 })
    );
}

#[test]
fn test_misplaced_hyphen() {
    assert_eq!(
        parse_bytes("6B29FC40--A47-1067-B31D-00DD010662DA"),
        Err(ParseGuidError { kind: ErrorKind::UnexpectedByte, offset: 9 })
    );
}

#[test]
fn test_missing_separator() {
    assert_eq!(
        parse_bytes("6B29FC40CA47-1067-B31D-00DD010662DA"),
        Err(ParseGuidError { kind: ErrorKind::ExpectedSeparator, offset: 8 })
    );
}

#[test]
fn test_extra_digit_in_field() {
    assert_eq!(
        parse_bytes("CAFEFF00D-CAFE-F00D-BEEF-1234ABCDDADA"),
        Err(ParseGuidError { kind: ErrorKind::ExpectedSeparator, offset: 8 })
    );
}

#[test]
fn test_extra_digit_at_end() {
    assert_eq!(
        parse_bytes("6B29FC40-CA47-1067-B31D-00DD010662DAA"),
        Err(ParseGuidError { kind: ErrorKind::TrailingContent, offset: 36 })
    );
}

#[test]
fn test_too_short_in_field() {
    assert_eq!(
        parse_bytes("6B29FC4"),
        Err(ParseGuidError { kind: ErrorKind::TooShort, offset: 7 })
    );
}

#[test]
fn test_too_short_at_separator() {
    assert_eq!(
        parse_bytes("6B29FC40-CA47"),
        Err(ParseGuidError { kind: ErrorKind::ExpectedSeparator, offset: 13 })
    );
}

#[test]
fn test_message() {
    let err = parse_bytes("6B29FC40-CG47-1067-B31D-00DD010662DA").unwrap_err();
    assert_eq!(err.message(), "expected a hex digit, found another byte");
    assert_eq!(err.offset, 10);
    let err = parse_bytes("6B29FC40CA47-1067-B31D-00DD010662DA").unwrap_err();
    assert_eq!(err.message(), "expected a hyphen separator");
    let err = parse_bytes("6B29FC4").unwrap_err();
    assert_eq!(err.message(), "input ended before the field was complete");
    let err = parse_bytes("6B29FC40-CA47-1067-B31D-00DD010662DAA").unwrap_err();
    assert_eq!(err.message(), "input continued after a complete GUID");
}

#[test]
fn test_empty_input() {
    assert_eq!(parse_bytes(""), Err(ParseGuidError { kind: ErrorKind::TooShort, offset: 0 }));
}
