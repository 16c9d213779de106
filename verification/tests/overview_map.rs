use imgforge::img::assembler::TileSubfiles;
use imgforge::img::coord::Coord;
use imgforge::img::overview_features::OverviewFeature;
use imgforge::img::overview_map::{
    build_lbl, build_rgn, build_subdivs, build_subdivs_4levels, build_tre, build_tre_4levels,
    compute_merged_bounds, compute_polygon_overview_data,
};

const TIME: [u8; 7] = [0xc6, 0x07, 0x08, 0x17, 0x0a, 0x31, 0x23];

fn u32_at(b: &[u8], i: usize) -> u32 {
    u32::from_le_bytes([b[i], b[i + 1], b[i + 2], b[i + 3]])
}

fn tile(n: i32, e: i32, s: i32, w: i32) -> TileSubfiles {
    let mut tre = vec![0u8; 33];
    tre[21..24].copy_from_slice(&n.to_le_bytes()[..3]);
    tre[24..27].copy_from_slice(&e.to_le_bytes()[..3]);
    tre[27..30].copy_from_slice(&s.to_le_bytes()[..3]);
    tre[30..33].copy_from_slice(&w.to_le_bytes()[..3]);
    TileSubfiles {
        map_number: "1".to_string(),
        description: String::new(),
        tre,
        rgn: Vec::new(),
        lbl: Vec::new(),
        net: None,
        nod: None,
        dem: None,
    }
}

fn feature(type_code: u32, is_polygon: bool) -> OverviewFeature {
    OverviewFeature { type_code, end_level: 0, geometry: vec![Coord::new(0, 0)], is_polygon, palier_index: 0 }
}

#[test]
fn overview_rgn_layout() {
    let rgn = build_rgn(&[vec![1, 2], vec![], vec![3]]);
    assert_eq!(rgn.len(), 32);
    assert_eq!(&rgn[0..2], &[29, 0]);
    assert_eq!(&rgn[2..12], b"GARMIN RGN");
    assert_eq!(&rgn[14..21], &TIME);
    assert_eq!(u32_at(&rgn, 21), 29);
    assert_eq!(u32_at(&rgn, 25), 3);
    assert_eq!(&rgn[29..], &[1, 2, 3]);
}

#[test]
fn overview_lbl_layout() {
    let lbl = build_lbl(1252);
    assert_eq!(lbl.len(), 197);
    assert_eq!(&lbl[2..12], b"GARMIN LBL");
    assert_eq!(&lbl[14..21], &TIME);
    assert_eq!(u32_at(&lbl, 21), 196);
    assert_eq!(u32_at(&lbl, 25), 1);
    assert_eq!(lbl[30], 6);
    assert_eq!(u32_at(&lbl, 31), 197);
    assert_eq!(u16::from_le_bytes([lbl[170], lbl[171]]), 1252);
    assert_eq!(u32_at(&lbl, 176), 196);
    assert_eq!(u32_at(&lbl, 184), 197);
    assert_eq!(lbl[196], 0);
}

#[test]
fn merged_bounds_of_tiles() {
    let tiles = vec![tile(100, 50, 10, -20), tile(80, 70, -5, 0)];
    assert_eq!(compute_merged_bounds(&tiles), (100, 70, -5, -20));
    assert_eq!(compute_merged_bounds(&[]), (i32::MIN, i32::MIN, i32::MAX, i32::MAX));
}

#[test]
fn polygon_overview_types() {
    let fs = vec![feature(0x4B, true), feature(0x4A, true), feature(0xCA, true), feature(0x10, false)];
    assert_eq!(compute_polygon_overview_data(&fs), vec![0x4A, 0, 0x4B, 0]);
    assert_eq!(compute_polygon_overview_data(&[feature(0x10, false)]), vec![0x50, 0]);
}

#[test]
fn single_level_subdivs() {
    let specs = [(1000, 2000, 0u16, 1u16, 0x20u8), (1000, 2000, 30, 40, 0x90), (1000, 2000, 30, 40, 0x80)];
    let data = vec![vec![0u8; 8], vec![0u8; 5], vec![]];
    let sd = build_subdivs(1000, 2000, 7, 9, &specs, &data);
    assert_eq!(sd.len(), 62);
    assert_eq!(&sd[0..4], &[0, 0, 0, 0]);
    assert_eq!(u16::from_le_bytes([sd[10], sd[11]]), 7 | 0x8000);
    assert_eq!(u16::from_le_bytes([sd[14], sd[15]]), 2);
    // second leaf starts after the first one's 8 bytes
    assert_eq!(&sd[30..33], &[8, 0, 0]);
    assert_eq!(sd[33], 0x90);
    // the last leaf is marked last at its level
    assert_eq!(u16::from_le_bytes([sd[54], sd[55]]), 30 | 0x8000);
    assert_eq!(u32_at(&sd, 58), 13);
}

#[test]
fn single_level_tre_layout() {
    let specs = [(1000, 2000, 0u16, 1u16, 0x20u8), (1000, 2000, 30, 40, 0x90), (1000, 2000, 30, 40, 0x80)];
    let data = vec![vec![0u8; 8], vec![0u8; 5], vec![]];
    let tre = build_tre(2143196, 262632, 2138930, 255409, 12345, &specs, &data);
    assert_eq!(tre.len(), 301);
    assert_eq!(u16::from_le_bytes([tre[0], tre[1]]), 120);
    assert_eq!(&tre[2..12], b"GARMIN TRE");
    assert_eq!(&tre[14..21], &TIME);
    assert_eq!(u32_at(&tre, 33), 220);
    assert_eq!(u32_at(&tre, 37), 8);
    assert_eq!(u32_at(&tre, 41), 158);
    assert_eq!(u32_at(&tre, 45), 62);
    assert_eq!(u32_at(&tre, 74), 228);
    assert_eq!(u32_at(&tre, 102), 230);
    assert_eq!(u32_at(&tre, 116), 12345);
    assert_eq!(tre[143], 0);
    assert_eq!(&tre[144..152], b"DEFAULT\0");
    assert_eq!(&tre[220..228], &[0x81, 14, 1, 0, 0x00, 16, 3, 0]);
    assert_eq!(&tre[228..233], &[0x50, 0, 0x0B, 0, 0]);
    assert!(tre[233..].iter().all(|&b| b == 0));
}

#[test]
fn four_level_subdivs_and_tre() {
    let nonleaf = [vec![1u8; 4], vec![], vec![2u8; 6]];
    let specs = [(0, 0, 0u16, 1u16, 0x20u8), (0, 0, 5, 5, 0x90), (0, 0, 5, 5, 0x80)];
    let leaf = [vec![0u8; 8], vec![0u8; 3], vec![]];
    let sd = build_subdivs_4levels(50, 60, 100, 200, 0, 0, &nonleaf, &specs, &leaf);
    assert_eq!(sd.len(), 94);
    assert_eq!(sd[3], 0x80);
    assert_eq!(sd[19], 0x00);
    assert_eq!(&sd[32..35], &[4, 0, 0]);
    assert_eq!(u32_at(&sd, 90), 21);
    let tre = build_tre_4levels(100, 200, 0, 0, 7, &nonleaf, &specs, &leaf, &[0x4A, 0, 0x4B, 0]);
    assert_eq!(tre.len(), 301);
    assert_eq!(u32_at(&tre, 45), 94);
    assert_eq!(u32_at(&tre, 37), 16);
    assert_eq!(u32_at(&tre, 92), 4);
    assert_eq!(&tre[158 + 94..158 + 94 + 4], &[0x83, 10, 1, 0]);
}
