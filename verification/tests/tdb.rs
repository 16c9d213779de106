use imgforge::img::tdb::{TdbTile, TdbWriter, BLOCK_DETAIL, BLOCK_PRODUCT};


#[test]
fn test_tdb_basic() {
    let mut tdb = TdbWriter::new(1, 1);
    tdb.series_name = "Test".to_string();
    tdb.family_name = "Test Family".to_string();
    tdb.add_tile(TdbTile {
        map_number: 63240001,
        parent_map_number: 0,
        description: "Tile 1".to_string(),
        north: 100,
        south: 0,
        east: 100,
        west: 0,
        subfiles: vec![],
    });
    let data = tdb.build();
    assert!(!data.is_empty());
    assert_eq!(data[0], BLOCK_PRODUCT);
}

#[test]
fn test_tdb_with_copyright() {
    let mut tdb = TdbWriter::new(1, 1);
    tdb.copyright = "Copyright Test".to_string();
    let data = tdb.build();
    assert!(data.len() > 10);
}

#[test]
fn test_tdb_codepage_encoding() {
    let mut tdb = TdbWriter::new(1, 1);
    tdb.codepage = 1252;
    tdb.area_name = "Région ARA".to_string();
    tdb.series_name = "Région ARA".to_string();
    let data = tdb.build();
    assert!(!data.windows(2).any(|w| w == [0xc3, 0xa9]),
        "TDB should not contain UTF-8 é (c3 a9) when codepage is 1252");
    assert!(data.contains(&0xe9),
        "TDB should contain CP1252 é (0xe9)");
}

#[test]
fn test_tdb_detail_block_has_bounds() {
    let mut tdb = TdbWriter::new(1, 1);
    tdb.series_name = "Test".to_string();
    tdb.family_name = "Test".to_string();
    tdb.add_tile(TdbTile {
        map_number: 1,
        parent_map_number: 0,
        description: "T".to_string(),
        north: 0x1FF558,
        south: 0x1F83AA,
        east: 0x023E36,
        west: 0x01E1CA,
        subfiles: vec![
            ("I00000001.TRE".to_string(), 1000),
            ("I00000001.RGN".to_string(), 2000),
        ],
    });
    let data = tdb.build();
    let pos = data.iter().position(|&b| b == BLOCK_DETAIL).unwrap();
    let block_data = &data[pos + 3..];
    assert_eq!(u32::from_le_bytes([block_data[0], block_data[1], block_data[2], block_data[3]]), 1);
    assert_eq!(u32::from_le_bytes([block_data[4], block_data[5], block_data[6], block_data[7]]), 0);
    let north = i32::from_le_bytes([block_data[8], block_data[9], block_data[10], block_data[11]]);
    assert_eq!(north, 0x1FF558i32 << 8);
}
