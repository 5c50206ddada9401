use cantus::noise::{avalanche, UVec2};
use cantus::playlists::{collection_write, write_varint};

#[test]
fn mixes_both_lanes() {
    assert_eq!(avalanche(UVec2 { x: 0, y: 0 }), UVec2 { x: 417_608_103, y: 90_043_601 });
    assert_eq!(avalanche(UVec2 { x: 1, y: 2 }), UVec2 { x: 45_825_804, y: 214_070_181 });
    assert_eq!(avalanche(UVec2 { x: u32::MAX, y: u32::MAX }), UVec2 { x: 505_842_200, y: 1_816_539_540 });
    assert_eq!(avalanche(UVec2 { x: 12_345, y: 67_890 }), UVec2 { x: 3_432_654_312, y: 2_676_821_219 });
}

#[test]
fn writes_base_128_varints() {
    let mut bytes = vec![0xaa];
    write_varint(&mut bytes, 0);
    write_varint(&mut bytes, 127);
    write_varint(&mut bytes, 128);
    write_varint(&mut bytes, 300);
    assert_eq!(bytes, [0xaa, 0x00, 0x7f, 0x80, 0x01, 0xac, 0x02]);
    let mut max = Vec::new();
    write_varint(&mut max, u64::MAX);
    assert_eq!(max, [0xff, 0xff, 0xff, 0xff, 0xff, 0xff, 0xff, 0xff, 0xff, 0x01]);
}

#[test]
fn frames_collection_writes() {
    let id: [u8; 16] = [179, 159, 232, 8, 30, 31, 76, 84, 190, 56, 232, 214, 249, 241, 43, 185];
    let removed = collection_write("5sWHDYs0csV6RS48xBl0tH", true, 0);
    let mut expected = vec![0x0a, 20, 0x12, 0x10];
    expected.extend_from_slice(&id);
    expected.extend_from_slice(&[0x30, 1]);
    assert_eq!(removed, Some(expected));

    let saved = collection_write("5sWHDYs0csV6RS48xBl0tH", false, 1_700_000_000);
    let mut item = vec![0x12, 0x10];
    item.extend_from_slice(&id);
    item.push(0x28);
    write_varint(&mut item, 1_700_000_000);
    let mut expected = vec![0x0a, item.len() as u8];
    expected.extend(item);
    assert_eq!(saved, Some(expected));
}

#[test]
fn refuses_collection_writes_for_bad_ids() {
    assert_eq!(collection_write("5sWHDYs0Bl0tH", true, 0), None);
    assert_eq!(collection_write("!!!!!Ys0csV6RS48xBl0tH", false, 1), None);
    assert_eq!(collection_write("zzzzzzzzzzzzzzzzzzzzzz", true, 0), None);
}

#[test]
fn mixes_distinct_pairs_apart() {
    let mut mixed = Vec::new();
    for x in 0..64u32 {
        for y in [0u32, 1, 0x8000_0000, u32::MAX] {
            let value = avalanche(UVec2 { x, y });
            mixed.push((value.x, value.y));
        }
    }
    let count = mixed.len();
    mixed.sort_unstable();
    mixed.dedup();
    assert_eq!(mixed.len(), count);
}
