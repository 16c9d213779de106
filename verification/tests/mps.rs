use imgforge::img::mps::{MpsMapEntry, MpsProductEntry, MpsWriter};

#[test]
fn test_mps_basic() {
    let mut mps = MpsWriter::new();
    mps.add_product(MpsProductEntry { product_id: 1, family_id: 53403, family_name: "Test Map".to_string() });
    mps.add_map(MpsMapEntry {
        product_id: 1,
        family_id: 53403,
        map_number: 63240001,
        hex_number: "63240001".to_string(),
        map_description: "Test Tile 1".to_string(),
    });
    let data = mps.build();
    assert!(!data.is_empty());
    assert_eq!(data[0], 0x46);
}

#[test]
fn test_mps_multiple_tiles() {
    let mut mps = MpsWriter::new();
    mps.add_product(MpsProductEntry { product_id: 1, family_id: 1, family_name: "Map".to_string() });
    for i in 1..=3 {
        mps.add_map(MpsMapEntry {
            product_id: 1,
            family_id: 1,
            map_number: 63240000 + i,
            hex_number: format!("{:08}", 63240000 + i),
            map_description: format!("Tile {}", i),
        });
    }
    let data = mps.build();
    let mut block_count = 0;
    let mut pos = 0;
    while pos < data.len() {
        let block_len = u16::from_le_bytes([data[pos + 1], data[pos + 2]]) as usize;
        pos += 3 + block_len;
        block_count += 1;
    }
    assert_eq!(block_count, 5);
}

#[test]
fn mps_empty_has_only_version_block() {
    let data = MpsWriter::new().build();
    assert_eq!(data[0], 0x56);
    let len = u16::from_le_bytes([data[1], data[2]]) as usize;
    assert_eq!(data.len(), 3 + len);
}
