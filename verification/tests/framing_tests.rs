use recipient_gate::framing::LineBuffer;

#[test]
fn lines_cross_chunk_boundaries() {
    let mut b = LineBuffer::new();
    b.feed(&b"get a".to_vec());
    assert_eq!(b.take_line(), None);
    b.feed(&b"@menhera.org\nnext".to_vec());
    assert_eq!(b.take_line(), Some(b"get a@menhera.org".to_vec()));
    assert_eq!(b.take_line(), None);
    assert_eq!(b.take_remainder(), Some(b"next".to_vec()));
    assert_eq!(b.take_remainder(), None);
}

#[test]
fn terminator_is_stripped_carriage_return_is_not() {
    let mut b = LineBuffer::new();
    b.feed(&b"ab\r\ncd\n".to_vec());
    assert_eq!(b.take_line(), Some(b"ab\r".to_vec()));
    assert_eq!(b.take_line(), Some(b"cd".to_vec()));
    assert_eq!(b.take_line(), None);
    assert_eq!(b.take_remainder(), None);
}

#[test]
fn empty_lines_are_yielded() {
    let mut b = LineBuffer::new();
    b.feed(&b"\n\nrecipient=a@menhera.org\n".to_vec());
    assert_eq!(b.take_line(), Some(b"".to_vec()));
    assert_eq!(b.take_line(), Some(b"".to_vec()));
    assert_eq!(b.take_line(), Some(b"recipient=a@menhera.org".to_vec()));
    assert_eq!(b.take_line(), None);
}
