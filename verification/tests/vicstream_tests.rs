use ultimate64::vicstream::{
    bit15_is_set, make_image, palette, run_assembler, scale_image, step, AssemblerState,
    RecvEvent, Rgb, BYTES_PER_ROW, HEADER_LEN, IMAGE_WIDTH,
};

/// Build a datagram: a 12-byte header (end-of-frame bit set when asked)
/// followed by `payload` bytes.
fn dgram(payload: &[u8], end_of_frame: bool) -> Vec<u8> {
    let mut d = vec![0u8; HEADER_LEN];
    if end_of_frame {
        d[5] = 0x80;
    }
    d.extend_from_slice(payload);
    d
}

#[test]
fn palette_matches_hardware_table() {
    let expected: [(u8, u8, u8); 16] = [
        (0x00, 0x00, 0x00),
        (0xEF, 0xEF, 0xEF),
        (0x8D, 0x2F, 0x34),
        (0x6A, 0xD4, 0xCD),
        (0x98, 0x35, 0xA4),
        (0x4C, 0xB4, 0x42),
        (0x2C, 0x29, 0xB1),
        (0xEF, 0xEF, 0x5D),
        (0x98, 0x4E, 0x20),
        (0x5B, 0x38, 0x00),
        (0xD1, 0x67, 0x6D),
        (0x4A, 0x4A, 0x4A),
        (0x7B, 0x7B, 0x7B),
        (0x9F, 0xEF, 0x93),
        (0x6D, 0x6A, 0xEF),
        (0xB2, 0xB2, 0xB2),
    ];
    for (n, (r, g, b)) in expected.iter().enumerate() {
        assert_eq!(palette(n as u8), Rgb { r: *r, g: *g, b: *b });
    }
}

#[test]
fn end_of_frame_bit() {
    assert!(bit15_is_set(&dgram(&[], true)));
    assert!(!bit15_is_set(&dgram(&[], false)));
    // Bit 15 is the high bit of the little-endian word at bytes [4..6).
    let mut d = vec![0u8; HEADER_LEN];
    d[4] = 0xff;
    d[5] = 0x7f;
    assert!(!bit15_is_set(&d));
    // A buffer shorter than the header has no marker.
    assert!(!bit15_is_set(&[0x80; 11]));
}

#[test]
fn decode_dimensions_whole_rows() {
    // Exactly two rows of packed bytes.
    let frame = vec![0u8; 2 * BYTES_PER_ROW];
    let img = make_image(&frame);
    assert_eq!(img.width(), IMAGE_WIDTH);
    assert_eq!(img.height(), 2);
    let img = make_image(&[]);
    assert_eq!(img.width(), IMAGE_WIDTH);
    assert_eq!(img.height(), 0);
}

#[test]
fn decode_truncates_partial_row() {
    // One whole row plus a partial one: the partial row is dropped.
    let frame = vec![0u8; BYTES_PER_ROW + 8];
    let img = make_image(&frame);
    assert_eq!(img.height(), 1);
    let frame = vec![0u8; BYTES_PER_ROW - 1];
    let img = make_image(&frame);
    assert_eq!(img.height(), 0);
}

#[test]
fn decode_nibble_pair() {
    // Byte 0x1F: low nibble 0xF at column 0, high nibble 0x1 at column 1.
    let mut frame = vec![0u8; BYTES_PER_ROW];
    frame[0] = 0x1F;
    frame[10] = 0x2A;
    let img = make_image(&frame);
    assert_eq!(img.pixel(0, 0), palette(0xF));
    assert_eq!(img.pixel(1, 0), palette(0x1));
    assert_eq!(img.pixel(20, 0), palette(0xA));
    assert_eq!(img.pixel(21, 0), palette(0x2));
    assert_eq!(img.pixel(2, 0), palette(0));
}

#[test]
fn decode_row_major_order() {
    let mut frame = vec![0u8; 2 * BYTES_PER_ROW];
    frame[BYTES_PER_ROW] = 0x34;
    let img = make_image(&frame);
    assert_eq!(img.pixel(0, 1), palette(0x4));
    assert_eq!(img.pixel(1, 1), palette(0x3));
    assert_eq!(img.pixel(0, 0), palette(0));
}

#[test]
fn scale_identity() {
    let mut frame = vec![0u8; BYTES_PER_ROW];
    frame[0] = 0x51;
    let img = make_image(&frame);
    let out = scale_image(img, Some(1));
    assert_eq!(out.width(), IMAGE_WIDTH);
    assert_eq!(out.height(), 1);
    assert_eq!(out.pixel(0, 0), palette(0x1));
    assert_eq!(out.pixel(1, 0), palette(0x5));
    let out = scale_image(out, None);
    assert_eq!(out.width(), IMAGE_WIDTH);
    assert_eq!(out.pixel(1, 0), palette(0x5));
}

#[test]
fn scale_doubles_into_blocks() {
    let mut frame = vec![0u8; 2 * BYTES_PER_ROW];
    frame[0] = 0x21;
    frame[BYTES_PER_ROW] = 0x43;
    let src = make_image(&frame);
    let out = scale_image(make_image(&frame), Some(2));
    assert_eq!(out.width(), 2 * IMAGE_WIDTH);
    assert_eq!(out.height(), 4);
    // Every 2x2 block of the output equals its single source pixel.
    for y in 0..src.height() {
        for x in 0..src.width() {
            let p = src.pixel(x, y);
            for dy in 0..2 {
                for dx in 0..2 {
                    assert_eq!(out.pixel(2 * x + dx, 2 * y + dy), p);
                }
            }
        }
    }
}

#[test]
fn seeking_discards_tail_frame() {
    // Joining mid-stream: the first datagram already carries the end marker
    // and a payload, but none of its bytes may reach the frame.
    let events = vec![
        RecvEvent::Datagram(dgram(&[0xAA; 40], true)),
        RecvEvent::Datagram(dgram(&[1, 2, 3], false)),
        RecvEvent::Datagram(dgram(&[4, 5], true)),
    ];
    match run_assembler(events) {
        AssemblerState::FrameComplete(frame) => {
            assert_eq!(frame, vec![1, 2, 3, 4, 5]);
            assert!(!frame.contains(&0xAA));
        }
        other => panic!("expected a complete frame, got {:?}", other),
    }
}

#[test]
fn seeking_skips_until_end_marker() {
    // Datagrams without the marker keep the assembler seeking.
    let events = vec![
        RecvEvent::Datagram(dgram(&[9, 9], false)),
        RecvEvent::Timeout,
        RecvEvent::Datagram(dgram(&[8, 8], false)),
    ];
    assert_eq!(run_assembler(events), AssemblerState::SeekingFrameStart);
}

#[test]
fn timeout_does_not_truncate_frame() {
    // A timeout between two in-sequence payload datagrams: both payloads
    // appear, in order, in the final buffer.
    let events = vec![
        RecvEvent::Datagram(dgram(&[], true)),
        RecvEvent::Datagram(dgram(&[10, 11], false)),
        RecvEvent::Timeout,
        RecvEvent::Datagram(dgram(&[12, 13], true)),
    ];
    match run_assembler(events) {
        AssemblerState::FrameComplete(frame) => assert_eq!(frame, vec![10, 11, 12, 13]),
        other => panic!("expected a complete frame, got {:?}", other),
    }
}

#[test]
fn timeout_while_seeking_keeps_seeking() {
    let s = step(AssemblerState::SeekingFrameStart, RecvEvent::Timeout);
    assert_eq!(s, AssemblerState::SeekingFrameStart);
}

#[test]
fn short_datagram_is_dropped() {
    // While accumulating, a datagram shorter than the header is noise.
    let events = vec![
        RecvEvent::Datagram(dgram(&[], true)),
        RecvEvent::Datagram(dgram(&[1], false)),
        RecvEvent::Datagram(vec![0x80; 5]),
        RecvEvent::Datagram(dgram(&[2], true)),
    ];
    match run_assembler(events) {
        AssemblerState::FrameComplete(frame) => assert_eq!(frame, vec![1, 2]),
        other => panic!("expected a complete frame, got {:?}", other),
    }
}

#[test]
fn incomplete_capture_stays_accumulating() {
    let events = vec![
        RecvEvent::Datagram(dgram(&[], true)),
        RecvEvent::Datagram(dgram(&[7, 7], false)),
    ];
    match run_assembler(events) {
        AssemblerState::Accumulating(buf) => assert_eq!(buf, vec![7, 7]),
        other => panic!("expected an accumulating state, got {:?}", other),
    }
}

#[test]
fn three_datagram_stream_end_to_end() {
    // Three datagrams of 12-byte header plus 180-byte payload; only the
    // third carries the marker. The completed buffer holds 540 bytes and
    // decodes to a 384 x 2 raster, truncating the 156 leftover bytes.
    let events = vec![
        RecvEvent::Datagram(dgram(&[], true)),
        RecvEvent::Datagram(dgram(&[0x11; 180], false)),
        RecvEvent::Datagram(dgram(&[0x22; 180], false)),
        RecvEvent::Datagram(dgram(&[0x33; 180], true)),
    ];
    let frame = match run_assembler(events) {
        AssemblerState::FrameComplete(frame) => frame,
        other => panic!("expected a complete frame, got {:?}", other),
    };
    assert_eq!(frame.len(), 540);
    assert_eq!(&frame[..180], &[0x11; 180][..]);
    assert_eq!(&frame[180..360], &[0x22; 180][..]);
    assert_eq!(&frame[360..], &[0x33; 180][..]);
    let img = make_image(&frame);
    assert_eq!(img.width(), 384);
    assert_eq!(img.height(), 2);
    assert_eq!(img.pixel(0, 0), palette(0x1));
    assert_eq!(img.pixel(0, 1), palette(0x2));
}

#[test]
fn raster_rgb_bytes_layout() {
    let mut frame = vec![0u8; BYTES_PER_ROW];
    frame[0] = 0x01;
    let img = make_image(&frame);
    let bytes = img.to_rgb_bytes();
    assert_eq!(bytes.len(), 3 * IMAGE_WIDTH);
    // First pixel is palette[1] = (0xEF, 0xEF, 0xEF), second palette[0].
    assert_eq!(&bytes[..6], &[0xEF, 0xEF, 0xEF, 0x00, 0x00, 0x00][..]);
}
