use cantus::data::{F16x2, InlineVec, ShaderData, Unorm16x2, Unorm8x4};

#[test]
fn reads_back_written_words() {
    let mut words = vec![7u32; 4];
    42u32.write(&mut words, 1);
    (-5i32).write(&mut words, 2);
    true.write(&mut words, 3);
    assert_eq!(words, [7, 42, (-5i32) as u32, 1]);
    assert_eq!(u32::read(&words, 1), 42);
    assert_eq!(i32::read(&words, 2), -5);
    assert!(bool::read(&words, 3));
}

#[test]
fn out_of_bounds_reads_are_zero() {
    let words = [1u32, 2, 3];
    assert_eq!(u32::read(&words, 2), 3);
    assert_eq!(u32::read(&words, 3), 0);
    assert_eq!(u32::read(&words, usize::MAX), 0);
    assert_eq!(i32::read(&[], 0), 0);
    assert!(!bool::read(&words, 9));
    let empty = InlineVec::<u32, 2>::read(&words, 1);
    assert!(empty.is_empty());
}

#[test]
fn appends_at_the_end() {
    let mut words = vec![9u32];
    assert_eq!(5u32.append(&mut words), 1);
    let mut vector = InlineVec::<u32, 3>::new();
    vector.push(11);
    vector.push(12);
    assert_eq!(vector.append(&mut words), 2);
    assert_eq!(words, [9, 5, 2, 11, 12, 0]);
    assert_eq!(InlineVec::<u32, 3>::read(&words, 2).as_slice(), [11, 12]);
}

#[test]
fn inline_vec_pushes_in_order() {
    let mut vector = InlineVec::<i32, 4>::new();
    assert!(vector.is_empty());
    assert_eq!(vector.len(), 0);
    vector.push(3);
    vector.push(-1);
    vector.push(8);
    assert!(!vector.is_empty());
    assert_eq!(vector.len(), 3);
    assert_eq!(vector.as_slice(), [3, -1, 8]);
    assert_eq!(<InlineVec<i32, 4> as ShaderData>::words(), 5);
}

#[test]
fn inline_vec_record_round_trips() {
    let mut vector = InlineVec::<u32, 3>::new();
    vector.push(4);
    let mut words = vec![0xdead_beef; 6];
    vector.write(&mut words, 1);
    assert_eq!(words, [0xdead_beef, 1, 4, 0xdead_beef, 0xdead_beef, 0xdead_beef]);
    let back = InlineVec::<u32, 3>::read(&words, 1);
    assert_eq!(back.as_slice(), [4]);
}

#[test]
fn inline_vec_read_caps_the_length() {
    let words = [99u32, 1, 2];
    let vector = InlineVec::<u32, 2>::read(&words, 0);
    assert_eq!(vector.len(), 2);
    assert_eq!(vector.as_slice(), [1, 2]);
}

#[test]
fn packed_words_round_trip() {
    let mut words = vec![0u32; 3];
    let colour = Unorm8x4::read(&[0x80ff_0010], 0);
    colour.write(&mut words, 0);
    F16x2::read(&[0x3c00_4000], 0).write(&mut words, 1);
    Unorm16x2::read(&[0xffff_0000], 0).write(&mut words, 2);
    assert_eq!(words, [0x80ff_0010, 0x3c00_4000, 0xffff_0000]);
}

#[test]
fn arrays_encode_element_after_element() {
    let mut words = vec![0u32; 7];
    [1u32, 2, 3].write(&mut words, 1);
    assert_eq!(words, [0, 1, 2, 3, 0, 0, 0]);
    assert_eq!(<[u32; 3]>::read(&words, 1), [1, 2, 3]);
    assert_eq!(<[u32; 3]>::read(&words, 5), [0, 0, 0]);
    assert_eq!(<[u32; 3] as ShaderData>::words(), 3);

    let mut first = InlineVec::<u32, 2>::new();
    first.push(8);
    let pair = [first, InlineVec::<u32, 2>::new()];
    let mut arena = Vec::new();
    assert_eq!(pair.append(&mut arena), 0);
    assert_eq!(arena, [1, 8, 0, 0, 0, 0]);
    let back = <[InlineVec<u32, 2>; 2]>::read(&arena, 0);
    assert_eq!(back[0].as_slice(), [8]);
    assert!(back[1].is_empty());
}

#[test]
fn writing_one_record_keeps_its_neighbours() {
    let mut words = vec![0u32; 5];
    7u32.write(&mut words, 0);
    [5i32, -6].write(&mut words, 3);
    true.write(&mut words, 1);
    assert_eq!(u32::read(&words, 0), 7);
    assert_eq!(<[i32; 2]>::read(&words, 3), [5, -6]);
    assert!(bool::read(&words, 1));
    assert_eq!(u32::read(&words, 2), 0);
}

#[test]
fn indexes_active_items_within_capacity() {
    let mut vector = InlineVec::<u32, 3>::new();
    vector.push(4);
    vector.push(9);
    assert_eq!(*vector.index(0), 4);
    assert_eq!(*vector.index(1), 9);
    assert_eq!(vector.len(), 2);
    let words = [7u32, 1, 2, 3];
    let clamped = InlineVec::<u32, 3>::read(&words, 0);
    assert_eq!(clamped.len(), 3);
    assert_eq!(*clamped.index(2), 3);
}

#[test]
fn defaults_to_an_empty_vector() {
    let vector: InlineVec<u32, 2> = InlineVec::default();
    assert!(vector.is_empty());
    assert_eq!(vector.len(), 0);
    assert!(vector.as_slice().is_empty());
}
