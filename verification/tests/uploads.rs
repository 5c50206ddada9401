use cantus::data::{ShaderData, Unorm8x4};
use cantus::uploads::{Transfer, UploadBuffer};

#[test]
fn appended_words_go_up_once() {
    let mut buffer = UploadBuffer::new();
    assert_eq!(buffer.capacity, 4);
    let mut arena = vec![1u32, 2, 3];
    // Twelve bytes do not fit in four: the buffer becomes sixteen bytes and takes everything.
    assert_eq!(buffer.upload_appended(&arena), Some(Transfer { reallocate: Some(16), from: 0, to: 3 }));
    assert_eq!(buffer.uploaded, 3);
    assert_eq!(buffer.upload_appended(&arena), None);
    arena.push(4);
    assert_eq!(buffer.upload_appended(&arena), Some(Transfer { reallocate: None, from: 3, to: 4 }));
    arena.push(5);
    assert_eq!(buffer.upload_appended(&arena), Some(Transfer { reallocate: Some(32), from: 0, to: 5 }));
    assert_eq!(buffer.capacity, 32);
}

#[test]
fn whole_uploads_skip_unchanged_words() {
    let mut buffer = UploadBuffer::new();
    assert_eq!(buffer.upload_if_changed(&[]), None);
    assert_eq!(buffer.upload_if_changed(&[7]), Some(Transfer { reallocate: None, from: 0, to: 1 }));
    assert_eq!(buffer.upload_if_changed(&[7]), None);
    assert_eq!(buffer.upload_if_changed(&[7, 8, 9]), Some(Transfer { reallocate: Some(16), from: 0, to: 3 }));
    assert_eq!(buffer.words, vec![7, 8, 9]);
    assert_eq!(buffer.flush(), Transfer { reallocate: None, from: 0, to: 3 });
}

#[test]
fn a_value_is_staged_as_the_whole_buffer() {
    let mut buffer = UploadBuffer::new();
    buffer.upload_if_changed(&[1, 2, 3, 4, 5]);
    let colour = Unorm8x4::read(&[0x1122_3344], 0);
    assert_eq!(buffer.upload(colour), Transfer { reallocate: None, from: 0, to: 1 });
    assert_eq!(buffer.words, vec![0x1122_3344]);
}
