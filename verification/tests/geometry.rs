use cantus::data::{ShaderData, F16x2};
use cantus::geometry::{append, Curve, Edge, Glyph};

#[test]
fn glyph_records_round_trip() {
    let glyph = Glyph::new([1.5f32.to_bits(), (-2.0f32).to_bits()], [3.0f32.to_bits(), 4.25f32.to_bits()], 17, 4);
    let mut words = Vec::new();
    assert_eq!(append(&mut words, glyph), 0);
    assert_eq!(words.len(), 6);
    assert_eq!(words[4], 17);
    assert_eq!(words[5], 4);
    let mut copy = vec![0u32; 6];
    Glyph::read(&words, 0).write(&mut copy, 0);
    assert_eq!(copy, words);
    assert_eq!(f32::from_bits(words[1]), -2.0);
}

#[test]
fn curve_and_edge_records_round_trip() {
    let words: Vec<u32> = (1..=7).collect();
    let curve = Curve::read(&words, 0);
    let edge = Edge::read(&words, 3);
    let mut arena = vec![5u32];
    assert_eq!(append(&mut arena, curve), 1);
    assert_eq!(append(&mut arena, edge), 4);
    assert_eq!(arena, [5, 1, 2, 3, 4, 5, 6, 7]);
    assert_eq!(<Curve as ShaderData>::words(), 3);
    assert_eq!(<Edge as ShaderData>::words(), 4);
    let _ = F16x2::default();
}
