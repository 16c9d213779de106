use imgforge::img::assembler::compute_overview_map_id;

#[test]
fn test_overview_map_id_computation() {
    assert_eq!(compute_overview_map_id(1100), 11001855);
    assert_eq!(compute_overview_map_id(26038), 99999999); // capped
    assert_eq!(compute_overview_map_id(1), 11855);
}

#[test]
fn overview_map_id_at_the_cap() {
    assert_eq!(compute_overview_map_id(9999), 99991855);
    assert_eq!(compute_overview_map_id(10000), 99999999);
    assert_eq!(compute_overview_map_id(0), 1855);
}

use imgforge::img::assembler::{tdb_tile, TileSubfiles};

fn tile(name: &str, with_net: bool, with_dem: bool) -> TileSubfiles {
    let mut tre = vec![0u8; 40];
    // north = 0x000102, east = -1, south = 5, west = -0x800000
    tre[21..24].copy_from_slice(&[0x02, 0x01, 0x00]);
    tre[24..27].copy_from_slice(&[0xFF, 0xFF, 0xFF]);
    tre[27..30].copy_from_slice(&[0x05, 0x00, 0x00]);
    tre[30..33].copy_from_slice(&[0x00, 0x00, 0x80]);
    TileSubfiles {
        map_number: name.to_string(),
        description: "d".to_string(),
        tre,
        rgn: vec![0; 300],
        lbl: vec![0; 150],
        net: if with_net { Some(vec![0; 7]) } else { None },
        nod: None,
        dem: if with_dem { Some(vec![0; 9]) } else { None },
    }
}

#[test]
fn tdb_tile_lists_subfiles_and_bounds() {
    let t = tdb_tile(&tile("63240001", true, true), 63241855);
    assert_eq!(t.map_number, 63240001);
    assert_eq!(t.parent_map_number, 63241855);
    assert_eq!(t.description, "63240001");
    assert_eq!((t.north, t.east, t.south, t.west), (0x102, -1, 5, -0x800000));
    let names: Vec<(&str, u32)> = t.subfiles.iter().map(|(n, s)| (n.as_str(), *s)).collect();
    assert_eq!(
        names,
        vec![
            ("I63240001.TRE", 40),
            ("I63240001.RGN", 300),
            ("I63240001.LBL", 150),
            ("I63240001.NET", 7),
            ("I63240001.DEM", 9),
        ]
    );
}

#[test]
fn tdb_tile_pads_short_numbers_and_reads_bad_names_as_zero() {
    let t = tdb_tile(&tile("42", false, false), 1);
    assert_eq!(t.map_number, 42);
    assert_eq!(t.subfiles[0].0, "I00000042.TRE");
    assert_eq!(t.subfiles.len(), 3);
    let z = tdb_tile(&tile("tile-a", false, false), 1);
    assert_eq!(z.map_number, 0);
    assert_eq!(z.subfiles[2].0, "I00000000.LBL");
}

use imgforge::error::ImgError;
use imgforge::img::assembler::extract_subfiles;

fn dir_entry(img: &mut [u8], at: usize, ext: &str, size: u32, blocks: &[u16], flag: u8) {
    img[at] = 1;
    img[at + 1..at + 9].copy_from_slice(b"63240001");
    img[at + 9..at + 12].copy_from_slice(ext.as_bytes());
    img[at + 0x0C..at + 0x10].copy_from_slice(&size.to_le_bytes());
    img[at + 0x10] = flag;
    for (i, b) in blocks.iter().chain(std::iter::once(&0xFFFFu16)).enumerate() {
        img[at + 0x20 + 2 * i..at + 0x22 + 2 * i].copy_from_slice(&b.to_le_bytes());
    }
}

fn sample_img(with_lbl: bool) -> Vec<u8> {
    let mut img = vec![0u8; 4096];
    img[0x61] = 9; // 512-byte blocks
    for (i, b) in img[3072..].iter_mut().enumerate() {
        *b = 0x80 | (i % 97) as u8;
    }
    dir_entry(&mut img, 1024, "TRE", 10, &[6], 0);
    dir_entry(&mut img, 1536, "RGN", 600, &[6, 7], 0);
    if with_lbl {
        dir_entry(&mut img, 2048, "LBL", 5, &[7], 0);
    }
    dir_entry(&mut img, 2560, "   ", 1024, &[0, 1], 3);
    img
}

#[test]
fn extract_subfiles_reads_directory() {
    let img = sample_img(true);
    let t = extract_subfiles(&img, "63240001").unwrap();
    assert_eq!(t.map_number, "63240001");
    assert_eq!(t.description, "");
    assert_eq!(t.tre, img[3072..3082].to_vec());
    assert_eq!(t.rgn, img[3072..3672].to_vec());
    assert_eq!(t.lbl, img[3584..3589].to_vec());
    assert!(t.net.is_none() && t.nod.is_none() && t.dem.is_none());
}

#[test]
fn extract_subfiles_errors() {
    match extract_subfiles(&vec![0u8; 2047], "1") {
        Err(ImgError::InvalidFormat(m)) => assert_eq!(m, "IMG too small to contain directory"),
        _ => panic!("expected an error"),
    }
    let mut bad = sample_img(true);
    bad[0x61] = 20;
    bad[0x62] = 5;
    match extract_subfiles(&bad, "1") {
        Err(ImgError::InvalidFormat(m)) => assert_eq!(m, "Invalid block size exponents: 20 + 5 > 24"),
        _ => panic!("expected an error"),
    }
    match extract_subfiles(&sample_img(false), "00000007") {
        Err(ImgError::InvalidFormat(m)) => assert_eq!(m, "Missing required subfiles (TRE/RGN/LBL) in tile 00000007"),
        _ => panic!("expected an error"),
    }
}
