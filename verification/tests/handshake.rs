use x11_client::{ByteStream, ClientInit, ServerInit, X11Error};

#[test]
fn greeting_round_trips_major_and_minor() {
    let bytes = ClientInit::new().to_bytes();
    assert_eq!(bytes.len(), 12);
    assert_eq!(bytes[0], b'B'); // big-endian byte order
    // A server-side reader recovers the version fields.
    let major = u16::from_be_bytes([bytes[2], bytes[3]]);
    let minor = u16::from_be_bytes([bytes[4], bytes[5]]);
    assert_eq!(major, 11);
    assert_eq!(minor, 0);
    // Both authorization lengths are zero.
    assert_eq!(u16::from_be_bytes([bytes[6], bytes[7]]), 0);
    assert_eq!(u16::from_be_bytes([bytes[8], bytes[9]]), 0);
}

#[test]
fn non_empty_authorization_is_refused() {
    let r = ClientInit::with_authorization(b"MIT-MAGIC-COOKIE-1".to_vec(), vec![1, 2, 3]);
    assert_eq!(r.unwrap_err(), X11Error::UnsupportedAuthorization);
    let r = ClientInit::with_authorization(Vec::new(), vec![1]);
    assert_eq!(r.unwrap_err(), X11Error::UnsupportedAuthorization);
    assert!(ClientInit::with_authorization(Vec::new(), Vec::new()).is_ok());
}

fn push_u16(out: &mut Vec<u8>, v: u16) {
    out.extend_from_slice(&v.to_be_bytes());
}

fn push_u32(out: &mut Vec<u8>, v: u32) {
    out.extend_from_slice(&v.to_be_bytes());
}

fn visual_bytes(id: u32, class: u8, bits: u8, entries: u16, red: u32, green: u32, blue: u32) -> Vec<u8> {
    let mut v = Vec::new();
    push_u32(&mut v, id);
    v.push(class);
    v.push(bits);
    push_u16(&mut v, entries);
    push_u32(&mut v, red);
    push_u32(&mut v, green);
    push_u32(&mut v, blue);
    push_u32(&mut v, 0); // reserved
    v
}

fn depth_bytes(depth: u8, visuals: &[Vec<u8>]) -> Vec<u8> {
    let mut v = Vec::new();
    v.push(depth);
    v.push(0);
    push_u16(&mut v, visuals.len() as u16);
    push_u32(&mut v, 0); // reserved
    for vis in visuals {
        v.extend_from_slice(vis);
    }
    v
}

fn screen_bytes(root: u32, root_visual: u32, width: u16, height: u16, depths: &[Vec<u8>]) -> Vec<u8> {
    let mut v = Vec::new();
    push_u32(&mut v, root);
    push_u32(&mut v, 0x21); // default colormap
    push_u32(&mut v, 0x00ff_ffff); // white pixel
    push_u32(&mut v, 0); // black pixel
    push_u32(&mut v, 0x0168_0000); // current input masks
    push_u16(&mut v, width);
    push_u16(&mut v, height);
    push_u16(&mut v, 300); // width in millimeters
    push_u16(&mut v, 200); // height in millimeters
    push_u16(&mut v, 1); // min installed maps
    push_u16(&mut v, 4); // max installed maps
    push_u32(&mut v, root_visual);
    v.push(2); // backing stores
    v.push(1); // save unders
    v.push(24); // root depth
    v.push(depths.len() as u8);
    for d in depths {
        v.extend_from_slice(d);
    }
    v
}

fn reply_bytes(vendor: &[u8], formats: &[(u8, u8, u8)], screens: &[Vec<u8>]) -> Vec<u8> {
    let mut v = Vec::new();
    v.push(1); // Success
    v.push(0);
    push_u16(&mut v, 11); // major
    push_u16(&mut v, 0); // minor
    push_u16(&mut v, 0); // additional length, informational
    push_u32(&mut v, 12_101_002); // release number
    push_u32(&mut v, 0x0040_0000); // resource id base
    push_u32(&mut v, 0x003f_ffff); // resource id mask
    push_u32(&mut v, 256); // motion buffer size
    push_u16(&mut v, vendor.len() as u16);
    push_u16(&mut v, 0xffff); // maximum request length
    v.push(screens.len() as u8);
    v.push(formats.len() as u8);
    v.push(0); // image byte order
    v.push(1); // bitmap format bit order
    v.push(32); // bitmap format scanline unit
    v.push(32); // bitmap format scanline pad
    v.push(8); // min keycode
    v.push(255); // max keycode
    push_u32(&mut v, 0); // reserved
    v.extend_from_slice(vendor);
    let pad = (4 - vendor.len() % 4) % 4;
    for _ in 0..pad {
        v.push(0);
    }
    for (depth, bpp, pad) in formats {
        v.push(*depth);
        v.push(*bpp);
        v.push(*pad);
        v.extend_from_slice(&[0; 5]);
    }
    for s in screens {
        v.extend_from_slice(s);
    }
    v
}

#[test]
fn capability_announcement_round_trips_vendor_pad_one() {
    // Vendor of length 3 consumes 1 pad byte; the nested record counts
    // and field values all come back.
    let visual = visual_bytes(0x22, 4, 8, 256, 0xff0000, 0x00ff00, 0x0000ff);
    let d24 = depth_bytes(24, &[visual]);
    let d32 = depth_bytes(32, &[]);
    let s1 = screen_bytes(0x513, 0x22, 1920, 1080, &[d24, d32]);
    let s2 = screen_bytes(0x777, 0x23, 800, 600, &[]);
    let buf = reply_bytes(b"abc", &[(24, 32, 32), (1, 1, 32)], &[s1, s2]);
    let mut stream = ByteStream::new(buf);
    let si = ServerInit::from_stream(&mut stream).unwrap();
    assert_eq!(si.major, 11);
    assert_eq!(si.minor, 0);
    assert_eq!(si.release_number, 12_101_002);
    assert_eq!(si.resource_id_base, 0x0040_0000);
    assert_eq!(si.resource_id_mask, 0x003f_ffff);
    assert_eq!(si.motion_buffer_size, 256);
    assert_eq!(si.maximum_request_length, 0xffff);
    assert_eq!(si.image_byte_order, 0);
    assert_eq!(si.bitmap_format_bit_order, 1);
    assert_eq!(si.bitmap_format_scanline_unit, 32);
    assert_eq!(si.bitmap_format_scanline_pad, 32);
    assert_eq!(si.min_keycode, 8);
    assert_eq!(si.max_keycode, 255);
    assert_eq!(si.vendor, "abc");
    assert_eq!(si.pixmap_formats.len(), 2);
    assert_eq!(si.pixmap_formats[0].depth, 24);
    assert_eq!(si.pixmap_formats[0].bits_per_pixel, 32);
    assert_eq!(si.pixmap_formats[1].depth, 1);
    assert_eq!(si.roots.len(), 2);
    let screen = &si.roots[0];
    assert_eq!(screen.root, 0x513);
    assert_eq!(screen.width_pixels, 1920);
    assert_eq!(screen.height_pixels, 1080);
    assert_eq!(screen.width_millimeters, 300);
    assert_eq!(screen.min_installed_maps, 1);
    assert_eq!(screen.max_installed_maps, 4);
    assert_eq!(screen.root_visual, 0x22);
    assert_eq!(screen.backing_stores, 2);
    assert!(screen.save_unders);
    assert_eq!(screen.root_depth, 24);
    assert_eq!(screen.allowed_depths.len(), 2);
    assert_eq!(screen.allowed_depths[0].depth, 24);
    assert_eq!(screen.allowed_depths[0].visuals.len(), 1);
    let vis = &screen.allowed_depths[0].visuals[0];
    assert_eq!(vis.id, 0x22);
    assert_eq!(vis.class, 4);
    assert_eq!(vis.bits_per_rgb_value, 8);
    assert_eq!(vis.colormap_entries, 256);
    assert_eq!(vis.red_mask, 0xff0000);
    assert_eq!(vis.green_mask, 0x00ff00);
    assert_eq!(vis.blue_mask, 0x0000ff);
    assert_eq!(screen.allowed_depths[1].depth, 32);
    assert_eq!(screen.allowed_depths[1].visuals.len(), 0);
    assert_eq!(si.roots[1].root, 0x777);
    assert_eq!(si.roots[1].allowed_depths.len(), 0);
    // The whole reply was consumed.
    assert_eq!(stream.available(), 0);
}

#[test]
fn capability_announcement_round_trips_vendor_pad_zero() {
    // Vendor of length 4 needs no pad byte.
    let visual_a = visual_bytes(1, 0, 6, 64, 0, 0, 0);
    let visual_b = visual_bytes(2, 5, 8, 128, 1, 2, 3);
    let d = depth_bytes(16, &[visual_a, visual_b]);
    let s = screen_bytes(0x100, 1, 640, 480, &[d]);
    let buf = reply_bytes(b"abcd", &[], &[s]);
    let mut stream = ByteStream::new(buf);
    let si = ServerInit::from_stream(&mut stream).unwrap();
    assert_eq!(si.vendor, "abcd");
    assert_eq!(si.pixmap_formats.len(), 0);
    assert_eq!(si.roots.len(), 1);
    assert_eq!(si.roots[0].allowed_depths[0].visuals.len(), 2);
    assert_eq!(si.roots[0].allowed_depths[0].visuals[1].id, 2);
    assert_eq!(stream.available(), 0);
}

#[test]
fn capability_announcement_round_trips_vendor_pad_three() {
    // Vendor of length 5 consumes 3 pad bytes.
    let s = screen_bytes(0x200, 9, 100, 100, &[]);
    let buf = reply_bytes(b"abcde", &[(1, 1, 8)], &[s]);
    let mut stream = ByteStream::new(buf);
    let si = ServerInit::from_stream(&mut stream).unwrap();
    assert_eq!(si.vendor, "abcde");
    assert_eq!(si.roots.len(), 1);
    assert_eq!(si.roots[0].root, 0x200);
    assert_eq!(stream.available(), 0);
}

#[test]
fn vendor_text_is_decoded_not_copied() {
    // A two-byte UTF-8 sequence comes back as one character, so the
    // vendor really was decoded as text, not handed through as bytes.
    let buf = reply_bytes(&[0xc3, 0xa9, b'x'], &[], &[]);
    let si = ServerInit::from_stream(&mut ByteStream::new(buf)).unwrap();
    assert_eq!(si.vendor, "\u{e9}x");
    assert_eq!(si.vendor.chars().count(), 2);
}

#[test]
fn invalid_vendor_bytes_are_a_distinct_error() {
    let buf = reply_bytes(&[0xff, 0xfe, 0xfd], &[], &[]);
    let r = ServerInit::from_stream(&mut ByteStream::new(buf));
    assert_eq!(r.unwrap_err(), X11Error::MalformedVendorString);
}

#[test]
fn truncated_replies_fail_closed() {
    let visual = visual_bytes(0x22, 4, 8, 256, 0xff0000, 0x00ff00, 0x0000ff);
    let d = depth_bytes(24, &[visual]);
    let s = screen_bytes(0x513, 0x22, 1920, 1080, &[d]);
    let full = reply_bytes(b"abc", &[(24, 32, 32)], &[s]);
    // Cutting the reply anywhere must give IncompleteMessage, never a
    // partial result.
    for cut in [0, 1, 8, 39, 41, 45, full.len() - 30, full.len() - 1] {
        let buf = full[..cut].to_vec();
        let r = ServerInit::from_stream(&mut ByteStream::new(buf));
        assert_eq!(r.unwrap_err(), X11Error::IncompleteMessage, "cut at {}", cut);
    }
}

#[test]
fn failed_status_carries_the_reason_text() {
    let reason = b"no protocol version match";
    let mut buf = vec![0u8]; // Failed
    buf.push(reason.len() as u8);
    push_u16(&mut buf, 11);
    push_u16(&mut buf, 0);
    push_u16(&mut buf, 7); // additional length
    buf.extend_from_slice(reason);
    let r = ServerInit::from_stream(&mut ByteStream::new(buf));
    match r.unwrap_err() {
        X11Error::HandshakeRejected { status, reason: got } => {
            assert_eq!(status, 0);
            assert_eq!(got, reason.to_vec());
        },
        other => panic!("expected HandshakeRejected, got {:?}", other),
    }
}

#[test]
fn authenticate_status_is_rejected_not_parsed() {
    let mut buf = vec![2u8, 0];
    push_u16(&mut buf, 11);
    push_u16(&mut buf, 0);
    push_u16(&mut buf, 0);
    let r = ServerInit::from_stream(&mut ByteStream::new(buf));
    match r.unwrap_err() {
        X11Error::HandshakeRejected { status, reason } => {
            assert_eq!(status, 2);
            assert!(reason.is_empty());
        },
        other => panic!("expected HandshakeRejected, got {:?}", other),
    }
}

#[test]
fn decoding_consumes_exactly_the_reply() {
    let s = screen_bytes(0x200, 9, 100, 100, &[]);
    let mut buf = reply_bytes(b"abc", &[(1, 1, 8)], &[s]);
    buf.extend_from_slice(&[0xde, 0xad, 0xbe]);
    let mut stream = ByteStream::new(buf);
    let si = ServerInit::from_stream(&mut stream).unwrap();
    assert_eq!(si.vendor, "abc");
    // The trailing bytes belong to whatever comes next on the wire.
    assert_eq!(stream.available(), 3);
    assert_eq!(stream.read_bytes(3).unwrap(), vec![0xde, 0xad, 0xbe]);
}

#[test]
fn truncated_rejection_reason_is_incomplete() {
    let mut buf = vec![0u8, 10]; // Failed, reason of 10 bytes
    push_u16(&mut buf, 11);
    push_u16(&mut buf, 0);
    push_u16(&mut buf, 3);
    buf.extend_from_slice(b"shor"); // 4 of the announced 10 bytes
    let r = ServerInit::from_stream(&mut ByteStream::new(buf));
    assert_eq!(r.unwrap_err(), X11Error::IncompleteMessage);
}

#[test]
fn empty_stream_is_incomplete() {
    let r = ServerInit::from_stream(&mut ByteStream::new(Vec::new()));
    assert_eq!(r.unwrap_err(), X11Error::IncompleteMessage);
}
