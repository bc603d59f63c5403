use x11_client::{ByteStream, X11Error};

#[test]
fn reads_advance_in_order() {
    let mut s = ByteStream::new(vec![0x01, 0xab, 0xcd, 0x00, 0x00, 0x12, 0x34, 0xff]);
    assert_eq!(s.read_u8().unwrap(), 0x01);
    assert_eq!(s.read_u16_be().unwrap(), 0xabcd);
    assert_eq!(s.read_u32_be().unwrap(), 0x0000_1234);
    assert_eq!(s.available(), 1);
    assert_eq!(s.read_u8().unwrap(), 0xff);
    assert_eq!(s.available(), 0);
}

#[test]
fn signed_reads_use_twos_complement() {
    let mut s = ByteStream::new(vec![0xff, 0xfb, 0x00, 0x07]);
    assert_eq!(s.read_i16_be().unwrap(), -5);
    assert_eq!(s.read_i16_be().unwrap(), 7);
}

#[test]
fn short_reads_never_yield_partial_values() {
    let mut s = ByteStream::new(vec![0xab]);
    // One byte is not enough for a 16-bit field; the position must not
    // move, so the byte is still there for a smaller read.
    assert_eq!(s.read_u16_be(), Err(X11Error::IncompleteMessage));
    assert_eq!(s.read_u32_be(), Err(X11Error::IncompleteMessage));
    assert_eq!(s.read_u8().unwrap(), 0xab);
    assert_eq!(s.read_u8(), Err(X11Error::IncompleteMessage));
}

#[test]
fn read_bytes_and_skip() {
    let mut s = ByteStream::new(vec![1, 2, 3, 4, 5]);
    s.skip(2).unwrap();
    assert_eq!(s.read_bytes(2).unwrap(), vec![3, 4]);
    assert_eq!(s.read_bytes(2), Err(X11Error::IncompleteMessage));
    assert_eq!(s.skip(2), Err(X11Error::IncompleteMessage));
    assert_eq!(s.read_bytes(1).unwrap(), vec![5]);
}
