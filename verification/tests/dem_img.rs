use imgforge::img::dem::bits::{get_big_bin_bits, DemBitWriter};
use imgforge::img::dem::predict::{get_max_zero_bits, get_start_hunit, normalize_hunit, CalcType, ValPredicter};
use imgforge::img::dem::section::{
    align_distance, calc_record_desc, get_tile_info, move_left, move_up, section_grid, DemSection, SectionGrid,
};
use imgforge::img::dem::tile::{encode_dem_tile, DemTileResult, UNDEF};
use imgforge::img::dem::writer::{DemWriter, DEM_HEADER_LEN};

const NOW: u64 = 1_776_000_000;

#[test]
fn test_dem_bit_writer_msb() {
    let mut bw = DemBitWriter::new();
    bw.add_bit(true);
    bw.add_bit(false);
    bw.add_bit(true);
    bw.add_bit(true);
    bw.add_bit(false);
    bw.add_bit(false);
    bw.add_bit(false);
    bw.add_bit(true);
    let bytes = bw.into_bytes();
    assert_eq!(bytes.len(), 1);
    assert_eq!(bytes[0], 0xB1);
}

#[test]
fn bit_writer_pads_last_byte_with_zeros() {
    let mut bw = DemBitWriter::new();
    for b in [true, true, false, true, false, false, false, false, true] {
        bw.add_bit(b);
    }
    assert_eq!(bw.into_bytes(), vec![0xD0, 0x80]);
    assert!(DemBitWriter::new().into_bytes().is_empty());
}

#[test]
fn test_dem_tile_flat() {
    let heights = vec![500i16; 16];
    let result = encode_dem_tile(&heights, 4, 4);
    assert_eq!(result.base_height, 500);
    assert_eq!(result.max_delta, 0);
    assert_eq!(result.encoding_type, 0x00);
    assert!(result.bitstream.is_empty());
}

#[test]
fn test_dem_tile_gradient() {
    let mut heights = Vec::new();
    for r in 0..4 {
        for c in 0..4 {
            heights.push((100 + r * 10 + c * 5) as i16);
        }
    }
    let result = encode_dem_tile(&heights, 4, 4);
    assert_eq!(result.base_height, 100);
    assert_eq!(result.max_delta, 45);
    assert_eq!(result.encoding_type, 0x00);
    assert!(!result.bitstream.is_empty());
}

#[test]
fn test_dem_tile_with_nodata() {
    let mut heights = vec![500i16; 16];
    heights[5] = UNDEF;
    let result = encode_dem_tile(&heights, 4, 4);
    assert_eq!(result.encoding_type, 0x02);
}

#[test]
fn dem_tile_void_cell_widens_span_by_one() {
    let mut heights = vec![500i16; 16];
    heights[5] = UNDEF;
    let result = encode_dem_tile(&heights, 4, 4);
    assert_eq!(result.base_height, 500);
    assert_eq!(result.max_delta, 1);
    assert!(!result.bitstream.is_empty());
}

#[test]
fn test_dem_tile_all_nodata() {
    let heights = vec![UNDEF; 16];
    let result = encode_dem_tile(&heights, 4, 4);
    assert_eq!(result.encoding_type, 0x02);
    assert!(result.bitstream.is_empty());
}

#[test]
fn dem_tile_encoding_is_deterministic() {
    let mut heights = Vec::new();
    for r in 0..8i16 {
        for c in 0..8i16 {
            heights.push(200 + (r * 7 + c * 3) % 23);
        }
    }
    let a = encode_dem_tile(&heights, 8, 8);
    let b = encode_dem_tile(&heights, 8, 8);
    assert_eq!(a.bitstream, b.bitstream);
    assert_eq!(a.base_height, 200);
    assert_eq!(a.max_delta, 22);
}

#[test]
fn test_dem_section_header_size() {
    let header = DemSection {
        zoom_level: 0,
        points_per_lat: 64,
        points_per_lon: 64,
        non_std_height: 64,
        non_std_width: 64,
        tiles_lat: 1,
        tiles_lon: 1,
        left: 0,
        top: 0,
        points_distance_lat: 3312,
        points_distance_lon: 3312,
        min_height: 0,
        max_height: 100,
        tile_results: Vec::new(),
        flags: 0,
        record_desc: 0,
        tile_desc_size: 3,
    }
    .build_header(0, 0);
    assert_eq!(header.len(), 60);
}

#[test]
fn dem_section_header_fields() {
    let s = DemSection {
        zoom_level: 2,
        points_per_lat: 64,
        points_per_lon: 64,
        non_std_height: 10,
        non_std_width: 20,
        tiles_lat: 3,
        tiles_lon: 4,
        left: 0x11223344,
        top: 0x55667788,
        points_distance_lat: 3312,
        points_distance_lon: 3312,
        min_height: -5,
        max_height: 100,
        tile_results: Vec::new(),
        flags: 0,
        record_desc: 0x15,
        tile_desc_size: 4,
    };
    let h = s.build_header(0x0A, 0x0B);
    assert_eq!(h[0], 0);
    assert_eq!(h[1], 2);
    assert_eq!(&h[10..14], &9u32.to_le_bytes());
    assert_eq!(&h[14..18], &19u32.to_le_bytes());
    assert_eq!(&h[20..24], &3u32.to_le_bytes());
    assert_eq!(&h[24..28], &2u32.to_le_bytes());
    assert_eq!(&h[28..30], &0x15u16.to_le_bytes());
    assert_eq!(&h[32..36], &0x0Au32.to_le_bytes());
    assert_eq!(&h[36..40], &0x0Bu32.to_le_bytes());
    assert_eq!(&h[40..44], &0x11223344u32.to_le_bytes());
    assert_eq!(&h[56..58], &(-5i16).to_le_bytes());
}

#[test]
fn test_dem_writer_signature() {
    let writer = DemWriter::new();
    let data = writer.build(NOW);
    assert_eq!(data[0], DEM_HEADER_LEN as u8);
    assert_eq!(data[1], 0x00);
    assert_eq!(&data[2..12], b"GARMIN DEM");
}

#[test]
fn dem_writer_layout_with_one_section() {
    let grid = SectionGrid { left: 0, top: 0, tiles_lat: 1, tiles_lon: 1, non_std_height: 4, non_std_width: 4 };
    let mut heights = Vec::new();
    for i in 0..16i16 {
        heights.push(100 + i);
    }
    let section = DemSection::from_heights(0, 3312, grid, &vec![heights]);
    assert_eq!(section.min_height, 100);
    assert_eq!(section.max_height, 115);
    let nbits = section.tile_results[0].bitstream.len();
    let mut writer = DemWriter::new();
    writer.sections.push(section);
    let data = writer.build(NOW);
    // header, one 3-byte descriptor, the bitstream, one 60-byte section header
    assert_eq!(data.len(), 41 + 3 + nbits + 60);
    assert_eq!(u16::from_le_bytes([data[25], data[26]]), 1);
    assert_eq!(u32::from_le_bytes([data[33], data[34], data[35], data[36]]), (41 + 3 + nbits) as u32);
    let hdr = 41 + 3 + nbits;
    assert_eq!(u32::from_le_bytes([data[hdr + 32], data[hdr + 33], data[hdr + 34], data[hdr + 35]]), 41);
    assert_eq!(u32::from_le_bytes([data[hdr + 36], data[hdr + 37], data[hdr + 38], data[hdr + 39]]), 44);
}

#[test]
fn test_val_predicter_wrap() {
    let vp = ValPredicter::new(CalcType::CalcStd, 100);
    assert_eq!(vp.wrap(0), 0);
    assert_eq!(vp.wrap(5), 5);
    assert_eq!(vp.wrap(60), 60 - 101);
}

#[test]
fn test_align_distance() {
    assert_eq!(align_distance(3314), 3312);
    assert_eq!(align_distance(9942), 9936);
    assert_eq!(align_distance(16), 16);
    assert_eq!(align_distance(0), 0);
}

#[test]
fn test_get_start_hunit() {
    assert_eq!(get_start_hunit(50), 1);
    assert_eq!(get_start_hunit(200), 2);
    assert_eq!(get_start_hunit(1000), 8);
}

#[test]
fn test_get_max_zero_bits() {
    assert_eq!(get_max_zero_bits(1), 15);
    assert_eq!(get_max_zero_bits(100), 21);
    assert_eq!(get_max_zero_bits(300), 25);
    assert_eq!(get_max_zero_bits(1000), 28);
    assert_eq!(get_max_zero_bits(10000), 40);
    assert_eq!(get_max_zero_bits(20000), 43);
}

#[test]
fn test_get_big_bin_bits() {
    assert_eq!(get_big_bin_bits(0), 1);
    assert_eq!(get_big_bin_bits(1), 1);
    assert_eq!(get_big_bin_bits(255), 8);
    assert_eq!(get_big_bin_bits(1000), 10);
}

#[test]
fn test_calc_record_desc() {
    let tiles = vec![DemTileResult { base_height: 100, max_delta: 50, encoding_type: 0x00, bitstream: vec![0u8; 100] }];
    let (desc, size) = calc_record_desc(&tiles);
    assert_eq!(desc & 0x03, 0);
    assert_eq!(desc & 0x04, 0);
    assert_eq!(desc & 0x08, 0);
    assert_eq!(desc & 0x10, 0);
    assert_eq!(size, 3);
}

#[test]
fn record_desc_wide_fields() {
    let tiles = vec![
        DemTileResult { base_height: -200, max_delta: 300, encoding_type: 2, bitstream: vec![0u8; 200] },
        DemTileResult { base_height: 0, max_delta: 0, encoding_type: 0, bitstream: vec![0u8; 100] },
    ];
    let (desc, size) = calc_record_desc(&tiles);
    assert_eq!(desc, 0x01 | 0x04 | 0x08 | 0x10);
    assert_eq!(size, 2 + 2 + 2 + 1);
}

#[test]
fn normalize_hunit_is_highest_power_of_two() {
    assert_eq!(normalize_hunit(0), 0);
    assert_eq!(normalize_hunit(-3), 0);
    assert_eq!(normalize_hunit(1), 1);
    assert_eq!(normalize_hunit(7), 4);
    assert_eq!(normalize_hunit(64), 64);
}

#[test]
fn grid_alignment_moves() {
    assert_eq!(move_up(100, 16), 112);
    assert_eq!(move_up(-100, 16), -96);
    assert_eq!(move_left(100, 16), 96);
    assert_eq!(move_left(-100, 16), -112);
}

#[test]
fn tile_info_normalizes_last_tile() {
    // 64 samples of 16 units plus the overlap: one full tile and one sample
    assert_eq!(get_tile_info(64 * 16, 16), (1, 65));
    // 40 samples: one tile of 41 samples
    assert_eq!(get_tile_info(40 * 16, 16), (1, 41));
    // 100 samples: two tiles, the last one of 37
    assert_eq!(get_tile_info(100 * 16, 16), (2, 37));
}

#[test]
fn section_grid_from_map_units() {
    let g = section_grid(3312, 100, 0, 0, 100);
    assert_eq!(g.tiles_lat, 1);
    assert_eq!(g.tiles_lon, 1);
    assert_eq!(g.top, 26496);
    assert_eq!(g.non_std_height, 9);
    assert_eq!(g.non_std_width, 9);
    assert_eq!(g.left, 0);
}
