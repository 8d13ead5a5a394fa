use ws2812b_driver::strbuffer::StrBuffer;

#[test]
fn new_buffer_is_empty() {
    let b: StrBuffer<4> = StrBuffer::new();
    assert_eq!(b.len(), 0);
    assert!(b.as_bytes().is_empty());
}

#[test]
fn write_keeps_what_fits() {
    let mut b: StrBuffer<8> = StrBuffer::new();
    b.write_str("hello");
    b.write_str("world");
    assert_eq!(b.as_bytes(), b"hellowor");
    b.write_str("!");
    assert_eq!(b.len(), 8);
}

#[test]
fn escaped_shows_unprintable_bytes_as_hex() {
    let mut b: StrBuffer<32> = StrBuffer::new();
    b.write_str("a b\t\n\u{1}\u{7f}é~");
    assert_eq!(b.escaped(), b"a b\t\n\\x01\\x7f\\xc3\\xa9~".to_vec());
}
