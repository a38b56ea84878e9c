use msdp::structs::message::MessageV1;

fn id(first: u8) -> [u8; 16] {
    let mut b = [0u8; 16];
    for (i, x) in b.iter_mut().enumerate() {
        *x = first + i as u8;
    }
    b
}

fn sample() -> MessageV1 {
    MessageV1::new(
        id(1),
        "ab".to_string(),
        "L".to_string(),
        "5".to_string(),
        5,
        0x0102_0304,
        [1, 2, 300],
    )
}

fn sample_bytes() -> Vec<u8> {
    let mut v: Vec<u8> = (1..=16).collect();
    v.extend_from_slice(&[0, 1]);
    v.extend_from_slice(&[0, 2, b'a', b'b']);
    v.extend_from_slice(&[0, 1, b'L']);
    v.extend_from_slice(&[0, 1, b'5']);
    v.extend_from_slice(&[0, 5]);
    v.extend_from_slice(&[1, 2, 3, 4]);
    v.extend_from_slice(&[0, 1, 0, 2, 1, 44]);
    v
}

#[test]
fn new_sets_version_one() {
    let m = sample();
    assert_eq!(m.version, 1);
    assert_eq!(m.unique_id, id(1));
    assert_eq!(m.load, [1, 2, 300]);
}

#[test]
fn to_bytes_layout() {
    assert_eq!(sample().to_bytes(), sample_bytes());
}

#[test]
fn parse_reads_back() {
    let m = MessageV1::parse(&sample_bytes()).unwrap();
    assert_eq!(m.version, 1);
    assert_eq!(m.unique_id, id(1));
    assert_eq!(m.system_name, "ab");
    assert_eq!(m.system_platform, "L");
    assert_eq!(m.system_version, "5");
    assert_eq!(m.keepalive_timer, 5);
    assert_eq!(m.uptime, 0x0102_0304);
    assert_eq!(m.load, [1, 2, 300]);
}

#[test]
fn round_trip_with_unicode_text() {
    let m = MessageV1::new(
        id(7),
        "h\u{f6}st-\u{1f600}".to_string(),
        "Linux".to_string(),
        String::new(),
        u16::MAX,
        u32::MAX,
        [0, 65535, 42],
    );
    let bytes = m.to_bytes();
    assert_eq!(bytes.len(), 36 + "h\u{f6}st-\u{1f600}".len() + 5);
    let back = MessageV1::parse(&bytes).unwrap();
    assert_eq!(back.system_name, m.system_name);
    assert_eq!(back.system_platform, "Linux");
    assert_eq!(back.system_version, "");
    assert_eq!(back.keepalive_timer, u16::MAX);
    assert_eq!(back.uptime, u32::MAX);
    assert_eq!(back.load, [0, 65535, 42]);
    assert_eq!(back.to_bytes(), bytes);
}

#[test]
fn wrong_version_is_error_two() {
    let mut m = sample();
    m.version = 2;
    let bytes = m.to_bytes();
    assert!(MessageV1::is_complete_frame(&bytes[..18]));
    assert_eq!(MessageV1::parse(&bytes).unwrap_err(), 2);
    assert_eq!(MessageV1::parse(&bytes[..18]).unwrap_err(), 2);
}

#[test]
fn trailing_bytes_are_ignored() {
    let mut bytes = sample_bytes();
    bytes.extend_from_slice(&[9, 9, 9]);
    let m = MessageV1::parse(&bytes).unwrap();
    assert_eq!(m.load, [1, 2, 300]);
    assert_eq!(m.to_bytes(), sample_bytes());
}

#[test]
fn complete_frames() {
    let bytes = sample_bytes();
    assert!(MessageV1::is_complete_frame(&bytes));
    for cut in 0..bytes.len() {
        assert!(!MessageV1::is_complete_frame(&bytes[..cut]), "cut at {}", cut);
    }
}

#[test]
fn invalid_utf8_is_replaced() {
    let mut bytes = sample_bytes();
    bytes[20] = 0xff;
    let m = MessageV1::parse(&bytes).unwrap();
    assert_eq!(m.system_name, "\u{fffd}b");
}

#[test]
fn long_text_length_wraps() {
    let long = "x".repeat(65536 + 3);
    let m = MessageV1::new(id(0), long, String::new(), String::new(), 1, 1, [0, 0, 0]);
    let bytes = m.to_bytes();
    assert_eq!(&bytes[18..20], &[0, 3]);
}
