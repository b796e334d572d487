use navd::uart::{
    build_frame, crc8_maxim, CMD_DRIVE, CMD_ESTOP, CMD_LIFT, CMD_SENSOR_POLL, CMD_SENSOR_STATUS,
    CMD_STOP, START_BYTE,
};

#[test]
fn crc_check_value() {
    assert_eq!(crc8_maxim(b"123456789"), 0xA1);
}

#[test]
fn crc_of_nothing_is_zero() {
    assert_eq!(crc8_maxim(&[]), 0);
}

#[test]
fn crc_of_single_bytes() {
    assert_eq!(crc8_maxim(&[0x00]), 0x00);
    assert_eq!(crc8_maxim(&[0x01]), 0x5E);
    assert_eq!(crc8_maxim(&[0x80]), 0x8C);
}

#[test]
fn crc_residue_is_zero() {
    let mut data = vec![0x10, 0x05, 0x07, 1, 2, 3, 4];
    let crc = crc8_maxim(&data);
    data.push(crc);
    assert_eq!(crc8_maxim(&data), 0);
}

#[test]
fn crc_detects_every_change_of_one_byte() {
    let good = [0x01u8, 0x02, 0x28, 0xD8];
    let crc = crc8_maxim(&good);
    for k in 0..good.len() {
        for b in 0..=255u8 {
            let mut bad = good;
            bad[k] = b;
            assert_eq!(crc8_maxim(&bad) == crc, b == good[k]);
        }
    }
}

#[test]
fn command_codes() {
    assert_eq!(START_BYTE, 0xAA);
    assert_eq!(
        [CMD_DRIVE, CMD_STOP, CMD_ESTOP, CMD_SENSOR_POLL, CMD_LIFT, CMD_SENSOR_STATUS],
        [0x01, 0x02, 0x03, 0x04, 0x05, 0x10]
    );
}

#[test]
fn frame_layout() {
    let frame = build_frame(CMD_DRIVE, &[40, 216]);
    assert_eq!(frame.len(), 6);
    assert_eq!(&frame[..5], &[0xAA, 0x01, 2, 40, 216]);
    assert_eq!(frame[5], crc8_maxim(&[0x01, 2, 40, 216]));
}

#[test]
fn frame_without_payload() {
    let frame = build_frame(CMD_STOP, &[]);
    assert_eq!(&frame[..3], &[0xAA, 0x02, 0]);
    assert_eq!(frame[3], crc8_maxim(&[0x02, 0]));
}

#[test]
fn frame_length_byte_wraps() {
    let frame = build_frame(CMD_DRIVE, &[7; 300]);
    assert_eq!(frame.len(), 304);
    assert_eq!(frame[2], 44);
}

#[test]
fn different_commands_give_different_frames() {
    assert_ne!(build_frame(CMD_STOP, &[]), build_frame(CMD_ESTOP, &[]));
    assert_ne!(build_frame(CMD_DRIVE, &[1, 2]), build_frame(CMD_DRIVE, &[2, 1]));
}
