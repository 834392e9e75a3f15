use openrailsrs_formats::encoding::{
    decode_msts_bytes, msts_filename_is_relative_path, msts_latin_bytes, normalize_msts_filename,
    utf16le_msts_to_latin_bytes,
};

const BOM_UTF16_LE: [u8; 2] = [0xFF, 0xFE];
const BOM_UTF16_BE: [u8; 2] = [0xFE, 0xFF];
const BOM_UTF8: [u8; 3] = [0xEF, 0xBB, 0xBF];

#[test]
fn pure_ascii_roundtrips() {
    let src = b"( Train ( Name \"foo\" ) )";
    assert_eq!(decode_msts_bytes(src), "( Train ( Name \"foo\" ) )");
}

#[test]
fn utf8_bom_stripped() {
    let mut src = BOM_UTF8.to_vec();
    src.extend_from_slice(b"hello");
    assert_eq!(decode_msts_bytes(&src), "hello");
}

#[test]
fn utf16_le_decoded() {
    let mut bytes: Vec<u8> = BOM_UTF16_LE.to_vec();
    for ch in "AB".encode_utf16() {
        bytes.extend_from_slice(&ch.to_le_bytes());
    }
    assert_eq!(decode_msts_bytes(&bytes), "AB");
}

#[test]
fn utf16_be_decoded() {
    let mut bytes: Vec<u8> = BOM_UTF16_BE.to_vec();
    for ch in "AB".encode_utf16() {
        bytes.extend_from_slice(&ch.to_be_bytes());
    }
    assert_eq!(decode_msts_bytes(&bytes), "AB");
}

#[test]
fn windows1252_decoded() {
    let bytes = b"caf\xe9";
    assert_eq!(decode_msts_bytes(bytes), "café");
}

#[test]
fn utf16le_msts_hybrid_header_then_raw_zlib() {
    let mut bytes: Vec<u8> = BOM_UTF16_LE.to_vec();
    for ch in "SIMISA@F".encode_utf16() {
        bytes.extend_from_slice(&ch.to_le_bytes());
    }
    bytes.extend_from_slice(&[0x00, 0x00, 0x00, 0x00]);
    for ch in "@@@@".encode_utf16() {
        bytes.extend_from_slice(&ch.to_le_bytes());
    }
    bytes.extend_from_slice(&[
        0x78, 0x9c, 0x01, 0x00, 0x00, 0xff, 0xff, 0x00, 0x00, 0x00, 0x01,
    ]);
    let latin = utf16le_msts_to_latin_bytes(&bytes).expect("hybrid");
    assert!(latin.starts_with(b"SIMISA@F"));
    assert!(latin.windows(2).any(|w| w == [0x78, 0x9c]));
}

#[test]
fn relative_path_detection() {
    assert!(msts_filename_is_relative_path(
        r"..\..\ROUTES\Chiltern\DYNATRAX\DynaTrax-42142.s"
    ));
    assert!(!msts_filename_is_relative_path("ukfs_s_1x2m.s"));
    assert!(msts_filename_is_relative_path("a/b.s"));
}

#[test]
fn normalize_filename_trims_quotes_and_backslashes() {
    assert_eq!(
        normalize_msts_filename("  \"..\\..\\ROUTES\\x.s\"  "),
        "../../ROUTES/x.s"
    );
    assert_eq!(normalize_msts_filename("plain.s"), "plain.s");
}

#[test]
fn utf8_without_bom_reads_as_windows1252() {
    assert_eq!(decode_msts_bytes("Größe".as_bytes()), "Gr\u{c3}\u{b6}\u{c3}\u{178}e");
    let mut with_bom = vec![0xEF, 0xBB, 0xBF];
    with_bom.extend_from_slice("Größe".as_bytes());
    assert_eq!(decode_msts_bytes(&with_bom), "Größe");
}

#[test]
fn latin_bytes_without_bom_are_unchanged() {
    assert_eq!(msts_latin_bytes(b"SIMISA@@"), b"SIMISA@@".to_vec());
}

#[test]
fn utf16_without_bom_is_not_hybrid() {
    assert!(utf16le_msts_to_latin_bytes(b"SIMISA@F").is_none());
}
