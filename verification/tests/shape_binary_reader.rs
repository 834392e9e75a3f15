use openrailsrs_formats::shape_binary_reader::{apply_token_offset, BinaryBlockReader};

/// Build a minimal binary block: token + flags + remaining + label_len + body.
fn make_block(token: u16, flags: u16, body: &[u8]) -> Vec<u8> {
    let remaining = 1 + body.len();
    let mut out = Vec::new();
    out.extend_from_slice(&token.to_le_bytes());
    out.extend_from_slice(&flags.to_le_bytes());
    out.extend_from_slice(&(remaining as u32).to_le_bytes());
    out.push(0u8);
    out.extend_from_slice(body);
    out
}

/// Build a block with a UTF-16 label.
fn make_block_with_label(token: u16, flags: u16, label: &str, body: &[u8]) -> Vec<u8> {
    let label_utf16: Vec<u16> = label.encode_utf16().collect();
    let label_bytes: Vec<u8> = label_utf16.iter().flat_map(|c| c.to_le_bytes()).collect();
    let remaining = 1 + label_bytes.len() + body.len();
    let mut out = Vec::new();
    out.extend_from_slice(&token.to_le_bytes());
    out.extend_from_slice(&flags.to_le_bytes());
    out.extend_from_slice(&(remaining as u32).to_le_bytes());
    out.push(label_utf16.len() as u8);
    out.extend_from_slice(&label_bytes);
    out.extend_from_slice(body);
    out
}

#[test]
fn empty_block_body() {
    let raw = make_block(2, 0, &[]);
    let mut root = BinaryBlockReader::new(&raw, 0, 0);
    let child = root.open_sub_block().expect("open empty block");
    assert_eq!(child.token_id, 2);
    assert!(child.end_of_block());
    assert_eq!(child.remaining(), 0);
}

#[test]
fn utf16_label_decoded() {
    let label = "MAIN";
    let body = &[0u8, 0, 0, 0];
    let raw = make_block_with_label(65, 0, label, body);
    let mut root = BinaryBlockReader::new(&raw, 0, 0);
    let (child, decoded_label) = root.open_sub_block_with_label().expect("open with label");
    assert_eq!(decoded_label, "MAIN");
    assert_eq!(child.token_id, 65);
}

#[test]
fn token_offset_applied() {
    let raw = make_block(0, 0, &[]);
    let mut root = BinaryBlockReader::new(&raw, 71, 0);
    let child = root.open_sub_block().expect("open with offset");
    assert_eq!(child.token_id, 71);
}

#[test]
fn nested_blocks() {
    let inner_body = [1u8, 0, 0, 0];
    let inner = make_block(7, 0, &inner_body);
    let outer = make_block(71, 0, &inner);

    let mut root = BinaryBlockReader::new(&outer, 0, 0);
    let mut shape_block = root.open_sub_block().expect("shape block");
    assert_eq!(shape_block.token_id, 71);

    let mut points_block = shape_block.open_sub_block().expect("points block");
    assert_eq!(points_block.token_id, 7);
    assert_eq!(points_block.read_u32().unwrap(), 1);
    assert!(points_block.end_of_block());
    assert!(shape_block.end_of_block());
}

#[test]
fn skip_to_end_works() {
    let body = [0u8; 100];
    let raw = make_block(71, 0, &body);
    let mut root = BinaryBlockReader::new(&raw, 0, 0);
    let mut child = root.open_sub_block().expect("block");
    assert_eq!(child.remaining(), 100);
    child.skip_to_end();
    assert!(child.end_of_block());
}

#[test]
fn overrun_returns_error() {
    let body = [0u8; 3];
    let raw = make_block(7, 0, &body);
    let mut root = BinaryBlockReader::new(&raw, 0, 0);
    let mut child = root.open_sub_block().expect("block");
    let result = child.read_u32();
    assert!(result.is_err(), "should fail: only 3 bytes available");
}

#[test]
fn read_string_utf16_empty() {
    let body = [0u8, 0];
    let raw = make_block(73, 0, &body);
    let mut root = BinaryBlockReader::new(&raw, 0, 0);
    let mut child = root.open_sub_block().expect("block");
    let s = child.read_string_utf16().unwrap();
    assert!(s.is_empty());
}

#[test]
fn read_string_utf16_ascii() {
    let mut body = Vec::new();
    body.extend_from_slice(&2u16.to_le_bytes());
    body.extend_from_slice(&(b'h' as u16).to_le_bytes());
    body.extend_from_slice(&(b'i' as u16).to_le_bytes());
    let raw = make_block(73, 0, &body);
    let mut root = BinaryBlockReader::new(&raw, 0, 0);
    let mut child = root.open_sub_block().expect("block");
    let s = child.read_string_utf16().unwrap();
    assert_eq!(s, "hi");
}

#[test]
fn has_more_blocks_false_on_short_remainder() {
    let body = [0u8; 4];
    let raw = make_block(71, 0, &body);
    let mut root = BinaryBlockReader::new(&raw, 0, 0);
    let child = root.open_sub_block().expect("block");
    assert!(!child.has_more_blocks());
}

#[test]
fn read_integers_within_block() {
    let mut body = Vec::new();
    body.extend_from_slice(&(-42i32).to_le_bytes());
    body.extend_from_slice(&0xDEAD_BEEFu32.to_le_bytes());
    body.extend_from_slice(&0x1234u16.to_le_bytes());
    body.push(7u8);
    let raw = make_block(71, 0, &body);
    let mut root = BinaryBlockReader::new(&raw, 0, 100);
    let mut child = root.open_sub_block().expect("open root block");
    assert_eq!(child.absolute_pos(), 109);
    assert_eq!(child.read_i32().unwrap(), -42);
    assert_eq!(child.read_u32().unwrap(), 0xDEAD_BEEF);
    assert_eq!(child.read_u16().unwrap(), 0x1234);
    assert_eq!(child.peek_token_id(), None);
    assert_eq!(child.read_u8().unwrap(), 7);
    assert!(child.end_of_block());
    assert!(child.read_u8().is_err());
}

#[test]
fn overrunning_child_is_refused() {
    let mut raw = make_block(7, 0, &[1, 2, 3]);
    // Declare more bytes than the data holds.
    raw[4] = 200;
    let mut root = BinaryBlockReader::new(&raw, 0, 0);
    assert!(root.open_sub_block().is_err());
    assert_eq!(root.absolute_pos(), 8);
}

#[test]
fn next_sub_block_walks_siblings() {
    let mut body = make_block(2, 0, &[1, 0, 0, 0]);
    body.extend(make_block(3, 0, &[2, 0, 0, 0]));
    let raw = make_block(7, 0, &body);
    let mut root = BinaryBlockReader::new(&raw, 0, 0);
    let mut points = root.open_sub_block().unwrap();
    assert_eq!(points.peek_token_id(), Some(2));
    let a = points.next_sub_block().unwrap().unwrap();
    let b = points.next_sub_block().unwrap().unwrap();
    assert_eq!((a.token_id, b.token_id), (2, 3));
    assert!(points.next_sub_block().is_none());
    let mut c = BinaryBlockReader::new(&raw, 0, 0);
    assert!(c.skip_bytes(18).is_ok());
    assert!(c.skip_bytes(100).is_err());
}

#[test]
fn token_offset_overflow_is_none() {
    assert_eq!(apply_token_offset(5, 300), Some(305));
    assert_eq!(apply_token_offset(1, i32::MAX), None);
}

#[test]
fn undecodable_label_gets_placeholder() {
    // One lone high surrogate as the label.
    let mut raw = Vec::new();
    raw.extend_from_slice(&7u16.to_le_bytes());
    raw.extend_from_slice(&0u16.to_le_bytes());
    raw.extend_from_slice(&3u32.to_le_bytes());
    raw.push(1u8);
    raw.extend_from_slice(&0xD800u16.to_le_bytes());
    let mut root = BinaryBlockReader::new(&raw, 0, 0);
    let (_, label) = root.open_sub_block_with_label().expect("open");
    assert_eq!(label, "<label:1u>");
}

#[test]
fn read_past_block_reports_exact_message() {
    let raw = make_block(5, 0, &[1, 2]);
    let mut root = BinaryBlockReader::new(&raw, 0, 0);
    let mut child = root.open_sub_block().expect("open");
    match child.read_u32() {
        Err(openrailsrs_formats::error::FormatError::UnexpectedToken { message, .. }) => assert_eq!(
            message,
            "token=5 need 4 bytes but only 2 remaining in block (data_len=11)"
        ),
        other => panic!("unexpected {other:?}"),
    }
}

#[test]
fn overrunning_header_reports_exact_message() {
    let mut raw = Vec::new();
    raw.extend_from_slice(&5u16.to_le_bytes());
    raw.extend_from_slice(&0u16.to_le_bytes());
    raw.extend_from_slice(&100u32.to_le_bytes());
    raw.push(0u8);
    let mut root = BinaryBlockReader::new(&raw, 0, 0);
    match root.open_sub_block() {
        Err(openrailsrs_formats::error::FormatError::UnexpectedToken { offset, message }) => {
            assert_eq!(offset, 8);
            assert_eq!(
                message,
                "block token=5 remaining=100 overruns parent (parent_end=9, data_len=9)"
            );
        }
        Err(other) => panic!("unexpected {other:?}"),
        Ok(_) => panic!("the header must be refused"),
    }
}
