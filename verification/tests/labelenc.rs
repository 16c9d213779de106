use imgforge::img::labelenc::{format10, format9, LabelEncoding};

fn decode10(data: &[u8]) -> String {
    let end = data.iter().position(|&b| b == 0).unwrap_or(data.len());
    String::from_utf8_lossy(&data[..end]).to_string()
}

#[test]
fn test_encode_ascii() {
    let encoded = format10::encode("Hello");
    assert_eq!(&encoded[..5], b"Hello");
    assert_eq!(encoded[5], 0x00);
}

#[test]
fn test_encode_utf8() {
    let encoded = format10::encode("日本語");
    let decoded = decode10(&encoded);
    assert_eq!(decoded, "日本語");
}

#[test]
fn test_encode_french() {
    let encoded = format10::encode("Château de Versailles");
    let decoded = decode10(&encoded);
    assert_eq!(decoded, "Château de Versailles");
}

#[test]
fn format10_test_empty() {
    let encoded = format10::encode("");
    assert_eq!(encoded, vec![0x00]);
    let decoded = decode10(&encoded);
    assert_eq!(decoded, "");
}

#[test]
fn test_null_terminated() {
    let encoded = format10::encode("Test");
    assert_eq!(*encoded.last().unwrap(), 0x00);
}

#[test]
fn format10_is_utf8_bytes_then_zero() {
    assert_eq!(format10::encode("é"), vec![0xC3, 0xA9, 0x00]);
}

#[test]
fn test_from_charset_routing() {
    assert_eq!(LabelEncoding::from_charset("ascii"), LabelEncoding::Format6);
    assert_eq!(LabelEncoding::from_charset("cp1252"), LabelEncoding::Format9(1252));
    assert_eq!(LabelEncoding::from_charset("latin1"), LabelEncoding::Format9(1252));
    assert_eq!(LabelEncoding::from_charset("cp65001"), LabelEncoding::Format10);
    assert_eq!(LabelEncoding::from_charset("unicode"), LabelEncoding::Format10);
    assert_eq!(LabelEncoding::from_charset("utf-8"), LabelEncoding::Format10);
    assert_eq!(LabelEncoding::from_charset("cp932"), LabelEncoding::Format9(932));
}

#[test]
fn from_charset_defaults() {
    assert_eq!(LabelEncoding::from_charset("UTF8"), LabelEncoding::Format10);
    assert_eq!(LabelEncoding::from_charset("cpxyz"), LabelEncoding::Format9(1252));
    assert_eq!(LabelEncoding::from_charset("koi8"), LabelEncoding::Format9(1252));
}

#[test]
fn test_format_id() {
    assert_eq!(LabelEncoding::Format6.format_id(), 6);
    assert_eq!(LabelEncoding::Format9(1252).format_id(), 9);
    assert_eq!(LabelEncoding::Format10.format_id(), 10);
}

#[test]
fn test_encode_simple() {
    let encoded = format9::encode("Hello", 1252);
    assert_eq!(&encoded[..5], b"Hello");
    assert_eq!(encoded[5], 0x00);
}

#[test]
fn test_encode_accented() {
    let encoded = format9::encode("Château", 1252);
    assert_eq!(encoded[2], 0xE2);
    assert_eq!(*encoded.last().unwrap(), 0x00);
}

#[test]
fn test_decode_roundtrip() {
    let text = "Château Fort";
    let encoded = format9::encode(text, 1252);
    let decoded = format9::decode(&encoded, 1252);
    assert_eq!(decoded, text);
}

#[test]
fn format9_test_empty() {
    let encoded = format9::encode("", 1252);
    assert_eq!(encoded, vec![0x00]);
}

#[test]
fn test_non_mappable() {
    let encoded = format9::encode("日本語", 1252);
    assert_eq!(encoded[0], b'?');
}

#[test]
fn test_euro_sign() {
    let encoded = format9::encode("€", 1252);
    assert_eq!(encoded[0], 0x80);
    let decoded = format9::decode(&encoded, 1252);
    assert_eq!(decoded, "€");
}

#[test]
fn test_oe_ligature() {
    let encoded = format9::encode("œ", 1252);
    assert_eq!(encoded[0], 0x9C);
    let decoded = format9::decode(&encoded, 1252);
    assert_eq!(decoded, "œ");
}

#[test]
fn test_cp1250_encode_decode() {
    let encoded = format9::encode("ą", 1250);
    assert_eq!(encoded[0], 0xB9);
    let decoded = format9::decode(&encoded, 1250);
    assert_eq!(decoded, "ą");
    let encoded = format9::encode("ś", 1250);
    assert_eq!(encoded[0], 0x9C);
}

#[test]
fn test_cp1251_encode_decode() {
    let encoded = format9::encode("АБВ", 1251);
    assert_eq!(encoded[0], 0xC0);
    assert_eq!(encoded[1], 0xC1);
    assert_eq!(encoded[2], 0xC2);
    let decoded = format9::decode(&encoded, 1251);
    assert_eq!(decoded, "АБВ");
}

#[test]
fn decode_stops_at_terminator() {
    assert_eq!(format9::decode(&[b'A', b'B', 0, b'C'], 1252), "AB");
    assert_eq!(format9::cp1252_to_unicode(0x80), '€');
}
