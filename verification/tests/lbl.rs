use imgforge::img::labelenc::LabelEncoding;
use imgforge::img::lbl::{LblWriter, LBL_HEADER_LEN};

const NOW: u64 = 1_776_000_000;

#[test]
fn test_lbl_header_size() {
    let lbl = LblWriter::new(LabelEncoding::Format6);
    let data = lbl.build(NOW);
    assert!(data.len() >= LBL_HEADER_LEN as usize);
    assert_eq!(&data[2..12], b"GARMIN LBL");
}

#[test]
fn test_add_label_offset() {
    let mut lbl = LblWriter::new(LabelEncoding::Format10);
    let off1 = lbl.add_label("ROUTE");
    let off2 = lbl.add_label("HIGHWAY");
    assert_eq!(off1, 1);
    assert!(off2 > off1);
}

#[test]
fn test_deduplication() {
    let mut lbl = LblWriter::new(LabelEncoding::Format10);
    let off1 = lbl.add_label("ROUTE");
    let off2 = lbl.add_label("ROUTE");
    assert_eq!(off1, off2);
}

#[test]
fn test_empty_label_returns_zero() {
    let mut lbl = LblWriter::new(LabelEncoding::Format10);
    assert_eq!(lbl.add_label(""), 0);
}

#[test]
fn test_header_length_field() {
    let lbl = LblWriter::new(LabelEncoding::Format6);
    let data = lbl.build(NOW);
    let header_len = u16::from_le_bytes([data[0], data[1]]);
    assert_eq!(header_len, LBL_HEADER_LEN);
}

#[test]
fn test_encoding_format_in_header() {
    let lbl = LblWriter::new(LabelEncoding::Format6);
    let data = lbl.build(NOW);
    assert_eq!(data[30], 6);
}

#[test]
fn labels_follow_the_header() {
    let mut lbl = LblWriter::new(LabelEncoding::Format9(1252));
    let off1 = lbl.add_label("AB");
    let off2 = lbl.add_label("C");
    assert_eq!((off1, off2), (1, 4));
    assert_eq!(lbl.label_data_size(), 6);
    let data = lbl.build(NOW);
    assert_eq!(data.len(), LBL_HEADER_LEN as usize + 6);
    assert_eq!(&data[LBL_HEADER_LEN as usize..], &[0, b'A', b'B', 0, b'C', 0]);
    assert_eq!(data[30], 9);
}
