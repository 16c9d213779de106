use imgforge::img::gmp::{GmpWriter, GMP_COPYRIGHT, GMP_HEADER_LEN};

const NOW: u64 = 1_776_000_000;

#[test]
fn header_is_61_bytes_and_copyright_179() {
    assert_eq!(GMP_HEADER_LEN, 0x3D);
    assert_eq!(GMP_COPYRIGHT.len(), 0xB3);
}

#[test]
fn byte_exact_header_matches_topofrance_sample_layout() {
    let tre = vec![0xAA; 0x173];
    let rgn = vec![0xBB; 0x171];
    let lbl = vec![0xCC; 0x2A9];
    let net = vec![0xDD; 0x64];
    let nod = vec![0xEE; 0x105];
    let dem = vec![0x00u8; 42];

    let gmp = GmpWriter::new(tre, rgn, lbl, Some(net), Some(nod), Some(dem))
        .with_date(2021, 4, 16, 11, 59, 27)
        .write(NOW);

    let expected_header: [u8; 0x3D] = [
        0x3D, 0x00, 0x47, 0x41, 0x52, 0x4D, 0x49, 0x4E, 0x20, 0x47, 0x4D, 0x50, 0x01, 0x00, 0xE5, 0x07, 0x04, 0x10,
        0x0B, 0x3B, 0x1B, 0x00, 0x00, 0x00, 0x00, 0xF0, 0x00, 0x00, 0x00, 0x63, 0x02, 0x00, 0x00, 0xD4, 0x03, 0x00,
        0x00, 0x7D, 0x06, 0x00, 0x00, 0xE1, 0x06, 0x00, 0x00, 0xE6, 0x07, 0x00, 0x00, 0x00, 0x00, 0x00, 0x00, 0x00,
        0x00, 0x00, 0x00, 0x00, 0x00, 0x00, 0x00,
    ];
    assert_eq!(&gmp[0..0x3D], &expected_header);
    assert_eq!(&gmp[0x3D..0x3D + 0xB3], &GMP_COPYRIGHT[..]);
}

fn fake_subfile(header_len: u16, len: usize, offset_at: &[(usize, u32)]) -> Vec<u8> {
    let mut v = vec![0u8; len];
    v[0..2].copy_from_slice(&header_len.to_le_bytes());
    for &(pos, val) in offset_at {
        v[pos..pos + 4].copy_from_slice(&val.to_le_bytes());
    }
    v
}

#[test]
fn optional_subfiles_absent_get_offset_zero() {
    let tre = fake_subfile(188, 188, &[(33, 188)]);
    let rgn = fake_subfile(125, 125, &[(21, 125)]);
    let lbl = fake_subfile(196, 196, &[(21, 196)]);
    let total = tre.len() + rgn.len() + lbl.len();
    let gmp = GmpWriter::new(tre, rgn, lbl, None, None, None).with_date(2026, 4, 21, 12, 0, 0).write(NOW);
    for off in [0x25usize, 0x29, 0x2D] {
        assert_eq!(u32::from_le_bytes([gmp[off], gmp[off + 1], gmp[off + 2], gmp[off + 3]]), 0);
    }
    assert_eq!(gmp.len(), 0x3D + 0xB3 + total);
}

#[test]
fn subfile_offsets_relocated_zero_kept() {
    let tre = fake_subfile(188, 188, &[(33, 188)]);
    let rgn = fake_subfile(125, 130, &[(21, 125)]);
    let lbl = fake_subfile(196, 196, &[(21, 196)]);
    let gmp = GmpWriter::new(tre.clone(), rgn.clone(), lbl, None, None, None)
        .with_date(2026, 4, 24, 0, 0, 0)
        .write(NOW);
    let tre_start = 0xF0usize;
    let t = &gmp[tre_start..];
    assert_eq!(u32::from_le_bytes([t[33], t[34], t[35], t[36]]), 188 + 0xF0);
    assert_eq!(u32::from_le_bytes([t[41], t[42], t[43], t[44]]), 0);
    let rgn_start = tre_start + tre.len();
    let r = &gmp[rgn_start..];
    assert_eq!(u32::from_le_bytes([r[21], r[22], r[23], r[24]]), 125 + rgn_start as u32);
    assert_eq!(u32::from_le_bytes([r[29], r[30], r[31], r[32]]), 0);
    let lbl_start = rgn_start + rgn.len();
    let l = &gmp[lbl_start..];
    assert_eq!(u32::from_le_bytes([l[21], l[22], l[23], l[24]]), 196 + lbl_start as u32);
}

#[test]
fn date_from_clock_when_not_fixed() {
    let gmp = GmpWriter::new(vec![0; 40], vec![0; 40], vec![0; 40], None, None, None).write(1_711_713_600);
    assert_eq!(&gmp[0x0E..0x15], &[0xE8, 0x07, 3, 29, 12, 0, 0]);
}
