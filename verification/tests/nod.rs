use imgforge::img::nod::{
    calc_low_byte, encode_arc_length, write_nod2_records, Nod2RoadInfo, NodWriter, RouteArc, RouteCenter, RouteNode, TableAEntry,
    F_ARCS, F_LARGE_OFFSETS, NOD_ALIGNMENT, NOD_HEADER_LEN,
};

use imgforge::img::net::{NetWriter, RoadDef, NO_BIKE, NO_CAR, NO_EMERGENCY, NO_FOOT};

const NOW: u64 = 1_776_000_000;

#[test]
fn test_nod_header() {
    let mut nod = NodWriter::new();
    let data = nod.build(NOW);
    assert_eq!(&data[2..12], b"GARMIN NOD");
    let header_len = u16::from_le_bytes([data[0], data[1]]);
    assert_eq!(header_len, NOD_HEADER_LEN);
}

#[test]
fn test_nod_empty() {
    let mut nod = NodWriter::new();
    let data = nod.build(NOW);
    assert!(data.len() >= NOD_HEADER_LEN as usize);
}

#[test]
fn test_nod_with_nodes() {
    let mut nod = NodWriter::new();
    nod.add_node(RouteNode {
        lat: 100000,
        lon: 200000,
        arcs: Vec::new(),
        is_boundary: false,
        node_class: 0,
    });
    nod.add_node(RouteNode {
        lat: 100100,
        lon: 200100,
        arcs: Vec::new(),
        is_boundary: false,
        node_class: 0,
    });
    let data = nod.build(NOW);
    assert!(data.len() > NOD_HEADER_LEN as usize);
}

#[test]
fn test_nod3_boundary_nodes() {
    let mut nod = NodWriter::new();
    nod.add_node(RouteNode {
        lat: 100000,
        lon: 200000,
        arcs: Vec::new(),
        is_boundary: true,
        node_class: 0,
    });
    let data = nod.build(NOW);
    assert!(data.len() >= NOD_HEADER_LEN as usize + 9);
}

#[test]
fn test_alignment() {
    assert_eq!(NOD_ALIGNMENT, 64);
}

fn find_table_a_start(nod: &NodWriter) -> usize {
    nod.table_a_positions()[0].0
}

#[test]
fn test_table_a_encoding_toll_oneway() {
    let mut nod = NodWriter::new();
    nod.add_node(RouteNode {
        lat: 100000, lon: 200000,
        arcs: vec![RouteArc {
            dest_node_index: 1,
            road_def_index: 0,
            length_meters: 100,
            forward: true,
            road_class: 2,
            speed: 5,
            access: 0,
            toll: true,
            one_way: true,
            initial_heading: 0,
        }],
        is_boundary: false, node_class: 0,
    });
    nod.add_node(RouteNode {
        lat: 100100, lon: 200100, arcs: Vec::new(),
        is_boundary: false, node_class: 0,
    });
    nod.prepare();
    let nod1 = nod.nod1_data.as_ref().unwrap();
    let ta_start = find_table_a_start(&nod);
    let tab_a_info = nod1[ta_start + 3];
    assert_eq!(tab_a_info, 0xAD);
}

#[test]
fn test_table_a_encoding_access_low() {
    let access = NO_CAR | NO_FOOT | NO_BIKE;
    let mut nod = NodWriter::new();
    nod.add_node(RouteNode {
        lat: 100000, lon: 200000,
        arcs: vec![RouteArc {
            dest_node_index: 1, road_def_index: 0, length_meters: 100,
            forward: true, road_class: 0, speed: 0,
            access, toll: false, one_way: false, initial_heading: 0,
        }],
        is_boundary: false, node_class: 0,
    });
    nod.add_node(RouteNode {
        lat: 100100, lon: 200100, arcs: Vec::new(),
        is_boundary: false, node_class: 0,
    });
    nod.prepare();
    let nod1 = nod.nod1_data.as_ref().unwrap();
    let ta_start = find_table_a_start(&nod);
    assert_eq!(nod1[ta_start + 4], 0x31);
}

#[test]
fn test_table_a_encoding_access_high() {
    let access = NO_EMERGENCY | NO_CAR;
    let mut nod = NodWriter::new();
    nod.add_node(RouteNode {
        lat: 100000, lon: 200000,
        arcs: vec![RouteArc {
            dest_node_index: 1, road_def_index: 0, length_meters: 100,
            forward: true, road_class: 0, speed: 0,
            access, toll: false, one_way: false, initial_heading: 0,
        }],
        is_boundary: false, node_class: 0,
    });
    nod.add_node(RouteNode {
        lat: 100100, lon: 200100, arcs: Vec::new(),
        is_boundary: false, node_class: 0,
    });
    nod.prepare();
    let nod1 = nod.nod1_data.as_ref().unwrap();
    let ta_start = find_table_a_start(&nod);
    assert_eq!(nod1[ta_start], 0x00);
    assert_eq!(nod1[ta_start + 1], 0x00);
    assert_eq!(nod1[ta_start + 2], 0x80);
}

#[test]
fn test_patch_net1_offsets() {
    let mut nod = NodWriter::new();
    nod.add_node(RouteNode {
        lat: 100000, lon: 200000,
        arcs: vec![RouteArc {
            dest_node_index: 1, road_def_index: 1, length_meters: 100,
            forward: true, road_class: 0, speed: 0,
            access: 0, toll: false, one_way: false, initial_heading: 0,
        }],
        is_boundary: false, node_class: 0,
    });
    nod.add_node(RouteNode {
        lat: 100100, lon: 200100, arcs: Vec::new(),
        is_boundary: false, node_class: 0,
    });
    nod.prepare();

    nod.patch_net1_offsets(&[0, 42]);

    let nod1 = nod.nod1_data.as_ref().unwrap();
    let ta_start = find_table_a_start(&nod);
    let patched = (nod1[ta_start] as u32)
        | ((nod1[ta_start + 1] as u32) << 8)
        | ((nod1[ta_start + 2] as u32) << 16);
    assert_eq!(patched & 0x3FFFFF, 42);
}

#[test]
fn test_full_prepare_patch_build_pipeline() {

    let mut net = NetWriter::new();
    let mut rd0 = RoadDef::new();
    rd0.label_offsets.push(10);
    rd0.road_length_meters = 100;
    net.add_road(rd0);

    let mut rd1 = RoadDef::new();
    rd1.label_offsets.push(20);
    rd1.road_length_meters = 200;
    rd1.access_flags = NO_CAR;
    net.add_road(rd1);

    let _net_data = net.build(NOW);
    assert_eq!(net.net1_offsets().len(), 2);
    let expected_offset_1 = net.net1_offsets()[1];
    assert!(expected_offset_1 > 0);

    let mut nod = NodWriter::new();
    nod.add_node(RouteNode {
        lat: 100000, lon: 200000,
        arcs: vec![RouteArc {
            dest_node_index: 1, road_def_index: 1, length_meters: 100,
            forward: true, road_class: 2, speed: 3,
            access: 0, toll: false, one_way: false, initial_heading: 0,
        }],
        is_boundary: false, node_class: 0,
    });
    nod.add_node(RouteNode {
        lat: 100100, lon: 200100, arcs: Vec::new(),
        is_boundary: false, node_class: 0,
    });

    nod.prepare();
    nod.patch_net1_offsets(&net.net1_offsets());
    let nod_data = nod.build(NOW);

    assert_eq!(&nod_data[2..12], b"GARMIN NOD");
    assert!(nod_data.len() > NOD_HEADER_LEN as usize);
}

#[test]
fn test_encode_arc_length_short() {
    let (flag_bits, data) = encode_arc_length(100, false);
    assert_eq!(data.len(), 1);
    assert_ne!(flag_bits & 0x38, 0x38, "10-bit format must not set all bits 3-5");
    let top = ((flag_bits & 0x18) as u32) << 5;
    let reconstructed = top | (data[0] as u32);
    assert_eq!(reconstructed, 100);
}

#[test]
fn test_encode_arc_length_medium() {
    let (flag_bits, data) = encode_arc_length(2000, false);
    assert_eq!(flag_bits & 0x38, 0x38, "Extended format has all bits 3-5 set");
    assert_eq!(data.len(), 2);
    assert!(data[0] & 0x80 != 0, "14-bit format has 0x80 marker");
    let reconstructed = ((data[0] & 0x3F) as u32) | ((data[1] as u32) << 6);
    assert_eq!(reconstructed, 2000);
}

#[test]
fn test_encode_arc_length_long() {
    let (flag_bits, data) = encode_arc_length(20000, false);
    assert_eq!(flag_bits & 0x38, 0x38);
    assert_eq!(data.len(), 3);
    assert_eq!(data[0] & 0xC0, 0xC0, "22-bit format has 0xC0 marker");
    let reconstructed = ((data[0] & 0x3F) as u32)
        | ((data[1] as u32) << 6)
        | ((data[2] as u32) << 14);
    assert_eq!(reconstructed, 20000);
}

#[test]
fn test_write_node_small_offsets() {
    let mut nod = NodWriter::new();
    nod.add_node(RouteNode {
        lat: 100000, lon: 200000,
        arcs: vec![RouteArc {
            dest_node_index: 1, road_def_index: 0, length_meters: 50,
            forward: true, road_class: 0, speed: 0,
            access: 0, toll: false, one_way: false, initial_heading: 0,
        }],
        is_boundary: false, node_class: 0,
    });
    nod.add_node(RouteNode {
        lat: 100010, lon: 200010, arcs: Vec::new(),
        is_boundary: false, node_class: 0,
    });
    nod.prepare();
    let nod1 = nod.nod1_data.as_ref().unwrap();

    let n0 = nod.node_offsets()[0] as usize;
    let flags0 = nod1[n0 + 1];
    assert_ne!(flags0 & F_ARCS, 0, "Node 0 should have F_ARCS");
    assert_eq!(flags0 & F_LARGE_OFFSETS, 0, "Node 0: small offsets, F_ARCS set → no forced F_LARGE_OFFSETS");

    let n1 = nod.node_offsets()[1] as usize;
    let flags1 = nod1[n1 + 1];
    assert_ne!(flags1 & F_LARGE_OFFSETS, 0, "Node 1: flags==0 case → F_LARGE_OFFSETS forced");
}

#[test]
fn test_write_node_large_offsets() {
    let mut nod = NodWriter::new();
    nod.add_node(RouteNode {
        lat: 0, lon: 0, arcs: Vec::new(),
        is_boundary: false, node_class: 0,
    });
    nod.add_node(RouteNode {
        lat: 100000, lon: 100000, arcs: Vec::new(),
        is_boundary: false, node_class: 0,
    });
    nod.prepare();
    let nod1 = nod.nod1_data.as_ref().unwrap();
    let n0 = nod.node_offsets()[0] as usize;
    let n1 = nod.node_offsets()[1] as usize;
    let f0 = nod1[n0 + 1];
    let f1 = nod1[n1 + 1];
    assert!(
        (f0 & F_LARGE_OFFSETS != 0) || (f1 & F_LARGE_OFFSETS != 0),
        "At least one node should have F_LARGE_OFFSETS"
    );
}

#[test]
fn test_write_route_center_layout() {
    let mut nod = NodWriter::new();
    nod.add_node(RouteNode {
        lat: 100000, lon: 200000,
        arcs: vec![RouteArc {
            dest_node_index: 1, road_def_index: 0, length_meters: 100,
            forward: true, road_class: 1, speed: 3,
            access: 0, toll: false, one_way: false, initial_heading: 0,
        }],
        is_boundary: false, node_class: 0,
    });
    nod.add_node(RouteNode {
        lat: 100100, lon: 200100, arcs: Vec::new(),
        is_boundary: false, node_class: 0,
    });
    nod.prepare();
    let nod1 = nod.nod1_data.as_ref().unwrap();
    let ta_start = nod.table_a_positions()[0].0;

    let header_start = ta_start - 9;
    assert_eq!(header_start % NOD_ALIGNMENT, 0, "Tables header should follow 64B-aligned padding");

    assert!(nod1.len() >= ta_start + 5, "NOD1 should contain Table A entry");
}

#[test]
fn test_calc_low_byte() {
    assert_eq!(calc_low_byte(10, 128), 1);
    assert_eq!(calc_low_byte(0, 64), 0);
    assert_eq!(calc_low_byte(0, 128), 1);
}

#[test]
fn test_nod2_record_format() {
    let roads = vec![
        Nod2RoadInfo {
            road_class: 2,
            speed: 5,
            num_route_nodes: 3,
            starts_with_node: true,
            first_node_nod1_offset: 42,
        },
    ];
    let (data, offsets) = write_nod2_records(&roads);
    assert_eq!(offsets.len(), 1);
    assert_eq!(offsets[0], 0);

    assert_eq!(data[0], 0x2B);
    assert_eq!(data[1], 42);
    assert_eq!(data[2], 0);
    assert_eq!(data[3], 0);
    assert_eq!(u16::from_le_bytes([data[4], data[5]]), 3);
    assert_eq!(data[6] & 0x07, 0x07);
}

#[test]
fn test_nod2_record_not_starts_with_node() {
    let roads = vec![
        Nod2RoadInfo {
            road_class: 0,
            speed: 0,
            num_route_nodes: 2,
            starts_with_node: false,
            first_node_nod1_offset: 0,
        },
    ];
    let (data, offsets) = write_nod2_records(&roads);
    assert_eq!(u16::from_le_bytes([data[4], data[5]]), 3);
    assert_eq!(data[6] & 0x07, 0x06);
}

#[test]
fn test_table_a_entry_direct() {
    let mut buf = Vec::new();
    let entry = TableAEntry {
        net1_offset: 0x1234,
        road_class: 3,
        speed: 5,
        toll: true,
        one_way: false,
        access: 0x8001,
    };
    entry.write(&mut buf);
    assert_eq!(buf.len(), 5);
    let val = (buf[0] as u32) | ((buf[1] as u32) << 8) | ((buf[2] as u32) << 16);
    assert_eq!(val & 0x3FFFFF, 0x1234);
    assert_eq!(val & 0xC00000, 0x800000);
    assert_eq!(buf[3], 0xB5);
    assert_eq!(buf[4], 0x01);
}

#[test]
fn test_nod1_center_bytes_exact() {
    let mut nod = NodWriter::new();
    nod.add_node(RouteNode {
        lat: 100000, lon: 200000,
        arcs: vec![RouteArc {
            dest_node_index: 1, road_def_index: 0, length_meters: 100,
            forward: true, road_class: 1, speed: 3,
            access: 0, toll: false, one_way: false, initial_heading: 0,
        }],
        is_boundary: false, node_class: 0,
    });
    nod.add_node(RouteNode {
        lat: 100100, lon: 200100, arcs: Vec::new(),
        is_boundary: false, node_class: 0,
    });
    nod.centers = vec![RouteCenter { center_lat: 100000, center_lon: 200000, nodes: vec![0, 1] }];
    nod.prepare();
    let mut expected: Vec<u8> = vec![
        0x00, 0x40, 0, 0, 0, // node 0: low byte, flags, 12-bit deltas
        0x40, 0x80, 0x0B, 0x00, 21, 0x00, // arc: flag A, internal pointer to +11, Table A index, length, heading
        0x00, 0x20, 100, 0, 100, 0, // node 1: large offsets
    ];
    expected.resize(64, 0);
    expected.extend_from_slice(&[0x00, 0x40, 0x0D, 0x03, 0xA0, 0x86, 0x01, 1, 0]);
    expected.extend_from_slice(&[0, 0, 0, 0x13, 0]);
    assert_eq!(nod.nod1_data.as_ref().unwrap(), &expected);
    assert_eq!(nod.node_offsets(), &[0u32, 11u32][..]);
    assert_eq!(nod.table_a_positions(), &[(73usize, 0usize)][..]);
}

#[test]
fn test_build_centers_single_group_midpoint_and_order() {
    let mut nod = NodWriter::new();
    nod.add_node(RouteNode { lat: 100, lon: 200, arcs: Vec::new(), is_boundary: false, node_class: 0 });
    nod.add_node(RouteNode { lat: 110, lon: 190, arcs: Vec::new(), is_boundary: false, node_class: 0 });
    nod.build_centers();
    assert_eq!(nod.centers.len(), 1);
    assert_eq!(nod.centers[0].center_lat, 105);
    assert_eq!(nod.centers[0].center_lon, 195);
    assert_eq!(nod.centers[0].nodes, vec![1usize, 0usize]);
}
