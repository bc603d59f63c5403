use x11_client::Event;

#[test]
fn exposure_decodes_to_its_literal_layout() {
    let mut buf = [0u8; 32];
    buf[0] = 12;
    buf[2] = 0;
    buf[3] = 1; // sequence 1
    buf[4] = 0;
    buf[5] = 0;
    buf[6] = 0;
    buf[7] = 0x42; // window 0x00000042
    buf[9] = 10; // x
    buf[11] = 20; // y
    buf[13] = 100; // width
    buf[15] = 50; // height
    buf[17] = 0; // count
    match Event::from_bytes(&buf) {
        Event::Expose { sequence, window, x, y, width, height, count } => {
            assert_eq!(sequence, 1);
            assert_eq!(window, 0x0000_0042);
            assert_eq!(x, 10);
            assert_eq!(y, 20);
            assert_eq!(width, 100);
            assert_eq!(height, 50);
            assert_eq!(count, 0);
        },
        other => panic!("expected Expose, got {:?}", other),
    }
}

#[test]
fn synthetic_high_bit_does_not_change_the_dispatch() {
    let mut buf = [0u8; 32];
    buf[0] = 12 | 0x80;
    buf[3] = 7;
    match Event::from_bytes(&buf) {
        Event::Expose { sequence, .. } => assert_eq!(sequence, 7),
        other => panic!("expected Expose, got {:?}", other),
    }
}

#[test]
fn key_press_decodes_including_negative_coordinates() {
    let mut buf = [0u8; 32];
    buf[0] = 2;
    buf[1] = 42; // detail
    buf[2] = 0x01;
    buf[3] = 0x02; // sequence 0x0102
    buf[4] = 0x00;
    buf[5] = 0x12;
    buf[6] = 0x34;
    buf[7] = 0x56; // time
    buf[8] = 0;
    buf[9] = 0;
    buf[10] = 0;
    buf[11] = 9; // root
    buf[12] = 0;
    buf[13] = 0;
    buf[14] = 0;
    buf[15] = 8; // event
    buf[16] = 0;
    buf[17] = 0;
    buf[18] = 0;
    buf[19] = 7; // child
    buf[20] = 0xff;
    buf[21] = 0xfb; // root_x = -5
    buf[22] = 0xff;
    buf[23] = 0x9c; // root_y = -100
    buf[24] = 0x00;
    buf[25] = 0x03; // event_x = 3
    buf[26] = 0x00;
    buf[27] = 0x04; // event_y = 4
    buf[28] = 0x00;
    buf[29] = 0x05; // state
    buf[30] = 1; // same_screen
    match Event::from_bytes(&buf) {
        Event::KeyPress {
            detail,
            sequence,
            time,
            root,
            event,
            child,
            root_x,
            root_y,
            event_x,
            event_y,
            state,
            same_screen,
        } => {
            assert_eq!(detail, 42);
            assert_eq!(sequence, 0x0102);
            assert_eq!(time, 0x0012_3456);
            assert_eq!(root, 9);
            assert_eq!(event, 8);
            assert_eq!(child, 7);
            assert_eq!(root_x, -5);
            assert_eq!(root_y, -100);
            assert_eq!(event_x, 3);
            assert_eq!(event_y, 4);
            assert_eq!(state, 5);
            assert!(same_screen);
        },
        other => panic!("expected KeyPress, got {:?}", other),
    }
}

#[test]
fn unknown_code_preserves_all_trailing_bytes() {
    let mut buf = [0u8; 32];
    buf[0] = 200;
    for i in 1..32 {
        buf[i] = i as u8;
    }
    match Event::from_bytes(&buf) {
        Event::Unknown(code, rest) => {
            assert_eq!(code, 200);
            for i in 0..31 {
                assert_eq!(rest[i], (i + 1) as u8);
            }
        },
        other => panic!("expected Unknown, got {:?}", other),
    }
}

#[test]
fn unknown_keeps_the_raw_unmasked_code() {
    // 200 & 0x7f is 72, which is no recognized code either; the variant
    // must still carry the byte as it arrived.
    let mut buf = [0u8; 32];
    buf[0] = 200;
    match Event::from_bytes(&buf) {
        Event::Unknown(code, _) => assert_eq!(code, 200),
        other => panic!("expected Unknown, got {:?}", other),
    }
}
