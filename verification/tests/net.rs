use imgforge::img::net::{NetWriter, RoadDef, NET_HEADER_LEN, NO_CAR, NO_TRUCK};

const NOW: u64 = 1_776_000_000;

#[test]
fn test_road_def_basic() {
    let mut rd = RoadDef::new();
    rd.label_offsets.push(100);
    rd.road_length_meters = 480;
    let (net1, level_div_pos) = rd.write_net1();
    assert_eq!(net1.len(), 11);
    assert_eq!(net1[7], 0x81);
    assert_eq!(level_div_pos, 8);
}

#[test]
fn test_road_def_with_access() {
    let mut rd = RoadDef::new();
    rd.label_offsets.push(100);
    rd.access_flags = NO_CAR | NO_TRUCK;
    rd.road_length_meters = 100;
    let (net1, _) = rd.write_net1();
    assert_eq!(net1.len(), 11);
    assert_eq!(net1[3] & 0x80, 0);
}

#[test]
fn test_last_label_flag() {
    let mut rd = RoadDef::new();
    rd.label_offsets.push(100);
    rd.label_offsets.push(200);
    rd.road_length_meters = 0;
    let (net1, _) = rd.write_net1();
    assert!(net1[5] & 0x80 != 0);
}

#[test]
fn test_net_header() {
    let mut net = NetWriter::new();
    let data = net.build(NOW);
    assert_eq!(&data[2..12], b"GARMIN NET");
    let header_len = u16::from_le_bytes([data[0], data[1]]);
    assert_eq!(header_len, NET_HEADER_LEN);
}

#[test]
fn test_net1_offsets_exposed() {
    let mut net = NetWriter::new();
    let mut rd0 = RoadDef::new();
    rd0.label_offsets.push(10);
    rd0.road_length_meters = 100;
    net.add_road(rd0);

    let mut rd1 = RoadDef::new();
    rd1.label_offsets.push(20);
    rd1.road_length_meters = 200;
    rd1.access_flags = NO_CAR;
    net.add_road(rd1);

    let mut rd2 = RoadDef::new();
    rd2.label_offsets.push(30);
    rd2.road_length_meters = 300;
    net.add_road(rd2);

    net.build(NOW);

    assert_eq!(net.net1_offsets().len(), 3);
    assert_eq!(net.net1_offsets()[0], 0);
    assert_eq!(net.net1_offsets()[1], 11);
    assert_eq!(net.net1_offsets()[2], 11 + 11);
}

#[test]
fn test_nod2_offset_small() {
    let mut rd = RoadDef::new();
    rd.label_offsets.push(100);
    rd.road_length_meters = 100;
    rd.nod2_offset = Some(100);
    let (net1, _) = rd.write_net1();
    assert_eq!(net1.len(), 14);
    assert_eq!(net1[3] & 0x44, 0x44);
    assert_eq!(net1[7], 0x81);
    assert_eq!(net1[11], 0x01);
    assert_eq!(u16::from_le_bytes([net1[12], net1[13]]), 100);
}

#[test]
fn test_nod2_offset_large() {
    let mut rd = RoadDef::new();
    rd.label_offsets.push(100);
    rd.road_length_meters = 100;
    rd.nod2_offset = Some(0x10000);
    let (net1, _) = rd.write_net1();
    assert_eq!(net1.len(), 15);
    assert_eq!(net1[7], 0x81);
    assert_eq!(net1[11], 0x02);
    let offset = (net1[12] as u32) | ((net1[13] as u32) << 8) | ((net1[14] as u32) << 16);
    assert_eq!(offset, 0x10000);
}

#[test]
fn road_length_is_in_units_of_4_8_metres() {
    let mut rd = RoadDef::new();
    rd.label_offsets.push(100);
    rd.road_length_meters = 480;
    let (net1, _) = rd.write_net1();
    let len = (net1[4] as u32) | ((net1[5] as u32) << 8) | ((net1[6] as u32) << 16);
    assert_eq!(len, 100);
    assert_eq!(&net1[0..3], &[100, 0, 0x80]);
}
