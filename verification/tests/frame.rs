use somfy::{Command, Frame};

fn build_and_deobfuscate(key: u8, command: Command, rolling_code: u16, address: u32) -> Vec<u8> {
    let mut frame = Frame::builder()
        .key(key)
        .command(command)
        .rolling_code(rolling_code)
        .remote_address(address)
        .build()
        .expect("Failed to build frame");
    frame.deobfuscate();
    frame.as_bytes()
}

#[test]
fn frame_test_frame() {
    let rolling_code = 42;
    let remote_address: u32 = 0xFFAA11;

    let mut frame = Frame::builder()
        .key(0xA7)
        .command(Command::Up)
        .rolling_code(rolling_code)
        .remote_address(remote_address)
        .build()
        .expect("Failed to build frame");

    frame.deobfuscate();
    let bytes = frame.as_bytes();

    let command = bytes[1] & 0b11110000;
    let checksum = bytes[1] & 0b00001111;

    assert_eq!(bytes[0], 0xA7);
    assert_eq!(command, Command::Up.byte());
    assert_eq!(checksum, 7);
    assert_eq!(u16::from_be_bytes([bytes[2], bytes[3]]), rolling_code);
    assert_eq!(
        (bytes[4] as u32) + ((bytes[5] as u32) << 8) + ((bytes[6] as u32) << 16),
        remote_address
    );
}

#[test]
fn lib_test_frame() {
    let rolling_code = 42;
    let remote_address: u32 = 0xFFAA11;

    let mut frame = Frame::builder()
        .key(0xA7)
        .command(Command::Up)
        .rolling_code(rolling_code)
        .remote_address(remote_address)
        .build()
        .expect("Failed to build frame");

    frame.deobfuscate();
    let bytes = frame.as_bytes();

    let command = bytes[1] & 0b11110000;
    let checksum = bytes[1] & 0b00001111;

    assert_eq!(bytes[0], 0xA7);
    assert_eq!(command, Command::Up.byte());
    assert_eq!(checksum, 7);
    assert_eq!(u16::from_be_bytes([bytes[2], bytes[3]]), rolling_code);
    assert_eq!(
        (bytes[4] as u32) + ((bytes[5] as u32) << 8) + ((bytes[6] as u32) << 16),
        remote_address
    );
}

#[test]
fn frame_is_always_seven_bytes() {
    let cases: [(u8, Command, u16, u32); 4] = [
        (0x00, Command::My, 0, 0),
        (0xA7, Command::Up, 42, 0xFFAA11),
        (0xFF, Command::Flag, 0xFFFF, 0xFFFFFF),
        (0x13, Command::Prog, 1, 1),
    ];
    for (key, command, rolling_code, address) in cases {
        let frame = Frame::builder()
            .key(key)
            .command(command)
            .rolling_code(rolling_code)
            .remote_address(address)
            .build()
            .expect("Failed to build frame");
        assert_eq!(frame.as_bytes().len(), 7);
    }
}

#[test]
fn builder_requires_every_field() {
    assert!(Frame::builder().build().is_none());
    assert!(Frame::builder().key(0xA7).build().is_none());
    assert!(Frame::builder().key(0xA7).command(Command::Up).build().is_none());
    assert!(Frame::builder()
        .key(0xA7)
        .command(Command::Up)
        .rolling_code(42)
        .build()
        .is_none());
    assert!(Frame::builder()
        .key(0xA7)
        .command(Command::Up)
        .rolling_code(42)
        .remote_address(0xFFAA11)
        .build()
        .is_some());
}

#[test]
fn deobfuscate_inverts_obfuscate() {
    let plain = build_and_deobfuscate(0x5C, Command::MyDown, 0x1234, 0x00ABCD);
    assert_eq!(plain[0], 0x5C);
    assert_eq!(u16::from_be_bytes([plain[2], plain[3]]), 0x1234);
    assert_eq!(
        (plain[4] as u32) + ((plain[5] as u32) << 8) + ((plain[6] as u32) << 16),
        0x00ABCD
    );
}

#[test]
fn checksum_of_dewhitened_bytes_matches_embedded_nibble() {
    let cases: [(u8, Command, u16, u32); 3] = [
        (0xA7, Command::Up, 42, 0xFFAA11),
        (0x00, Command::My, 0, 0),
        (0xFF, Command::SunFlag, 0xFFFF, 0x123456),
    ];
    for (key, command, rolling_code, address) in cases {
        let plain = build_and_deobfuscate(key, command, rolling_code, address);
        let embedded = plain[1] & 0x0F;
        let mut recomputed = 0u8;
        for byte in [plain[0], plain[1] & 0xF0, plain[2], plain[3], plain[4], plain[5], plain[6]] {
            recomputed ^= (byte >> 4) ^ (byte & 0x0F);
        }
        assert_eq!(recomputed & 0x0F, embedded);
    }
}

#[test]
fn rolling_code_field_reads_wire_bytes() {
    let frame = Frame::builder()
        .key(0xA7)
        .command(Command::Up)
        .rolling_code(42)
        .remote_address(0xFFAA11)
        .build()
        .expect("Failed to build frame");
    let bytes = frame.as_bytes();
    assert_eq!(
        frame.rolling_code(),
        u16::from_be_bytes([bytes[2], bytes[3]])
    );
}
