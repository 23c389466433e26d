use yamlsplit::buffer::ArrayBuffer;
use yamlsplit::encode::Endianness;
use yamlsplit::encode::encode_utf8_char;
use yamlsplit::source::ByteSource;

#[test]
fn endianness_decodes_u16() {
    assert_eq!(Endianness::Big.decode_u16([0x12, 0x34]), 0x1234);
    assert_eq!(Endianness::Little.decode_u16([0x12, 0x34]), 0x3412);
}

#[test]
fn endianness_decodes_u32() {
    assert_eq!(Endianness::Big.decode_u32([0x12, 0x34, 0x56, 0x78]), 0x12345678);
    assert_eq!(Endianness::Little.decode_u32([0x12, 0x34, 0x56, 0x78]), 0x78563412);
}

#[test]
fn utf8_encodings_of_each_length() {
    assert_eq!(encode_utf8_char('A'), vec![0x41]);
    assert_eq!(encode_utf8_char('\u{A2}'), vec![0xC2, 0xA2]);
    assert_eq!(encode_utf8_char('\u{20AC}'), vec![0xE2, 0x82, 0xAC]);
    assert_eq!(encode_utf8_char('\u{1F600}'), vec![0xF0, 0x9F, 0x98, 0x80]);
    // boundary values of each length class
    assert_eq!(encode_utf8_char('\u{7F}'), vec![0x7F]);
    assert_eq!(encode_utf8_char('\u{80}'), vec![0xC2, 0x80]);
    assert_eq!(encode_utf8_char('\u{7FF}'), vec![0xDF, 0xBF]);
    assert_eq!(encode_utf8_char('\u{800}'), vec![0xE0, 0xA0, 0x80]);
    assert_eq!(encode_utf8_char('\u{FFFF}'), vec![0xEF, 0xBF, 0xBF]);
    assert_eq!(encode_utf8_char('\u{10000}'), vec![0xF0, 0x90, 0x80, 0x80]);
    assert_eq!(encode_utf8_char('\u{10FFFF}'), vec![0xF4, 0x8F, 0xBF, 0xBF]);
}

#[test]
fn array_buffer_set_and_read() {
    let mut b: ArrayBuffer<4> = ArrayBuffer::new();
    assert!(b.is_empty());
    assert_eq!(b.read(4), Vec::<u8>::new());
    b.set(vec![1, 2, 3]);
    assert!(!b.is_empty());
    assert_eq!(b.read(2), vec![1, 2]);
    assert!(!b.is_empty());
    assert_eq!(b.read(2), vec![3]);
    assert!(b.is_empty());
    assert_eq!(b.read(2), Vec::<u8>::new());
}

#[test]
fn array_buffer_set_replaces_contents() {
    let mut b: ArrayBuffer<4> = ArrayBuffer::new();
    b.set(vec![1, 2, 3, 4]);
    assert_eq!(b.read(1), vec![1]);
    b.set(vec![9]);
    assert_eq!(b.read(4), vec![9]);
}

#[test]
fn byte_source_reads_and_peeks() {
    let mut s = ByteSource::new(vec![10, 20, 30, 40, 50]);
    assert_eq!(s.remaining_len(), 5);
    assert_eq!(s.prefix(4), vec![10, 20, 30, 40]);
    // peeking consumed nothing
    assert_eq!(s.remaining_len(), 5);
    assert_eq!(s.next_byte(), Some(10));
    assert_eq!(s.read(2), vec![20, 30]);
    assert_eq!(s.prefix(4), vec![40, 50]);
    assert_eq!(s.read(9), vec![40, 50]);
    assert_eq!(s.next_byte(), None);
    assert_eq!(s.read(1), Vec::<u8>::new());
}

#[test]
fn array_buffer_write_respects_capacity() {
    let mut b: ArrayBuffer<4> = ArrayBuffer::new();
    assert_eq!(b.write(&vec![1, 2, 3]), 3);
    assert_eq!(b.write(&vec![4, 5, 6]), 1);
    assert_eq!(b.read(8), vec![1, 2, 3, 4]);
    // read space is not reclaimed: the buffer stays full until a set
    assert_eq!(b.write(&vec![7]), 0);
    b.set(vec![7]);
    assert_eq!(b.read(8), vec![7]);
}
