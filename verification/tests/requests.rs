use x11_client::{ChangeWmName, CreateGc, CreateWindow, MapWindow, PolyFillRectangle, Rectangle};

fn check_framing(bytes: &[u8]) {
    // The declared length field counts 4-byte units and covers the whole
    // message, padding included.
    assert_eq!(bytes.len() % 4, 0);
    let declared = u16::from_be_bytes([bytes[2], bytes[3]]) as usize;
    assert_eq!(declared, bytes.len() / 4);
}

#[test]
fn create_window_matches_the_wire_layout() {
    let bytes = CreateWindow::new(24, 0x0040_0001, 0x0000_0513, 100, 100, 1024, 1024, 0, 1, 0)
        .as_bytes();
    let expected: Vec<u8> = vec![
        1, 24, 0, 10, // opcode, depth, length 10
        0x00, 0x40, 0x00, 0x01, // wid
        0x00, 0x00, 0x05, 0x13, // parent
        0, 100, 0, 100, // x, y
        4, 0, 4, 0, // width, height (1024)
        0, 0, 0, 1, // border width, class
        0, 0, 0, 0, // visual
        0x00, 0x00, 0x08, 0x02, // value mask: background-pixel | event-mask
        0x00, 0xcc, 0xff, 0xcc, // background pixel
        0x00, 0x00, 0x80, 0x01, // event mask: KeyPress | Exposure
    ];
    assert_eq!(bytes, expected);
    check_framing(&bytes);
}

#[test]
fn create_window_without_values_shrinks_the_length() {
    let bytes = CreateWindow::with_values(24, 1, 2, 0, 0, 10, 10, 0, 1, 0, None, None).as_bytes();
    assert_eq!(bytes.len(), 32);
    assert_eq!(u16::from_be_bytes([bytes[2], bytes[3]]), 8);
    assert_eq!(&bytes[28..32], &[0, 0, 0, 0]); // empty value mask
    check_framing(&bytes);
}

#[test]
fn create_window_with_one_value_keeps_mask_bit_order() {
    let bytes = CreateWindow::with_values(24, 1, 2, 0, 0, 10, 10, 0, 1, 0, None, Some(0x8001))
        .as_bytes();
    assert_eq!(bytes.len(), 36);
    assert_eq!(u16::from_be_bytes([bytes[2], bytes[3]]), 9);
    assert_eq!(&bytes[28..32], &[0x00, 0x00, 0x08, 0x00]); // event-mask bit only
    assert_eq!(&bytes[32..36], &[0x00, 0x00, 0x80, 0x01]);
    check_framing(&bytes);
}

#[test]
fn map_window_matches_the_wire_layout() {
    let bytes = MapWindow::new(0x0040_0001).as_bytes();
    assert_eq!(bytes, vec![8, 0, 0, 2, 0x00, 0x40, 0x00, 0x01]);
    check_framing(&bytes);
}

#[test]
fn create_gc_matches_the_wire_layout() {
    let bytes = CreateGc::new(0x0040_0002, 0x0040_0001, 0x0000_00ff).as_bytes();
    let expected: Vec<u8> = vec![
        55, 0, 0, 5, // opcode, unused, length 5
        0x00, 0x40, 0x00, 0x02, // cid
        0x00, 0x40, 0x00, 0x01, // drawable
        0x00, 0x00, 0x00, 0x04, // value mask: foreground
        0x00, 0x00, 0x00, 0xff, // foreground
    ];
    assert_eq!(bytes, expected);
    check_framing(&bytes);
}

#[test]
fn poly_fill_rectangle_matches_the_wire_layout() {
    let bytes = PolyFillRectangle::new(0x0040_0001, 0x0040_0002, 256, 256, 512, 512).as_bytes();
    let expected: Vec<u8> = vec![
        70, 0, 0, 5, // opcode, unused, length 5
        0x00, 0x40, 0x00, 0x01, // drawable
        0x00, 0x40, 0x00, 0x02, // gc
        0x01, 0x00, 0x01, 0x00, // x, y
        0x02, 0x00, 0x02, 0x00, // width, height
    ];
    assert_eq!(bytes, expected);
    check_framing(&bytes);
}

#[test]
fn poly_fill_rectangle_encodes_negative_positions() {
    let bytes = PolyFillRectangle::new(1, 2, -5, -100, 7, 8).as_bytes();
    assert_eq!(&bytes[12..16], &[0xff, 0xfb, 0xff, 0x9c]);
    check_framing(&bytes);
}

#[test]
fn poly_fill_rectangle_takes_a_run_of_rectangles() {
    let rects = vec![
        Rectangle { x: 0, y: 0, width: 1, height: 1 },
        Rectangle { x: 5, y: 6, width: 7, height: 8 },
    ];
    let bytes = PolyFillRectangle::with_rectangles(1, 2, rects).as_bytes();
    assert_eq!(bytes.len(), 28);
    assert_eq!(u16::from_be_bytes([bytes[2], bytes[3]]), 7);
    assert_eq!(&bytes[20..28], &[0, 5, 0, 6, 0, 7, 0, 8]);
    check_framing(&bytes);
}

#[test]
fn change_wm_name_two_byte_name_rounds_up() {
    // "ab": 2 name bytes, 2 pad bytes, one 4-byte unit: length 6 + 1.
    let bytes = ChangeWmName::new(0x0040_0001, String::from("ab")).as_bytes();
    assert_eq!(u16::from_be_bytes([bytes[2], bytes[3]]), 7);
    assert_eq!(bytes.len(), 28);
    assert_eq!(bytes[0], 18); // ChangeProperty
    assert_eq!(bytes[1], 0); // Replace
    assert_eq!(&bytes[8..12], &[0, 0, 0, 39]); // WM_NAME
    assert_eq!(&bytes[12..16], &[0, 0, 0, 31]); // STRING
    assert_eq!(bytes[16], 8); // 8-bit units
    assert_eq!(&bytes[20..24], &[0, 0, 0, 2]); // data length
    assert_eq!(&bytes[24..28], &[b'a', b'b', 0, 0]);
    check_framing(&bytes);
}

#[test]
fn change_wm_name_four_byte_name_needs_no_padding() {
    // "abcd": 4 name bytes, no pad, still one 4-byte unit: length 7.
    let bytes = ChangeWmName::new(0x0040_0001, String::from("abcd")).as_bytes();
    assert_eq!(u16::from_be_bytes([bytes[2], bytes[3]]), 7);
    assert_eq!(bytes.len(), 28);
    assert_eq!(&bytes[20..24], &[0, 0, 0, 4]);
    assert_eq!(&bytes[24..28], &[b'a', b'b', b'c', b'd']);
    check_framing(&bytes);
}

#[test]
fn change_wm_name_longer_name() {
    let bytes = ChangeWmName::new(7, String::from("holy crap that worked")).as_bytes();
    // 21 name bytes pad to 24: length 6 + 6 = 12.
    assert_eq!(u16::from_be_bytes([bytes[2], bytes[3]]), 12);
    assert_eq!(bytes.len(), 48);
    assert_eq!(&bytes[24..45], b"holy crap that worked");
    assert_eq!(&bytes[45..48], &[0, 0, 0]);
    check_framing(&bytes);
}
