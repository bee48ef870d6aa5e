use lidar_map::protocol::{
    calc_checksum, decode_point, decode_point_as, measurement_request, read_field, seal, ByteOrder,
    LidarError,
};

fn response(distance: u16, signal: u16) -> Vec<u8> {
    let payload = [
        0x59,
        0x59,
        (distance & 0xff) as u8,
        (distance >> 8) as u8,
        (signal & 0xff) as u8,
        (signal >> 8) as u8,
        0,
        0,
    ];
    seal(&payload)
}

#[test]
fn checksum_is_low_byte_of_sum() {
    assert_eq!(calc_checksum(&[0x5a, 0x04, 0x04], 3), 0x62);
    assert_eq!(calc_checksum(&[0xff, 0xff, 0x03], 3), 0x01);
    assert_eq!(calc_checksum(&[0xff, 0xff, 0x03], 2), 0xfe);
    assert_eq!(calc_checksum(&[], 0), 0);
    assert_eq!(calc_checksum(&[7, 9], 0), 0);
}

#[test]
fn checksum_round_trip() {
    let payloads: [[u8; 8]; 4] = [
        [0x59, 0x59, 0x10, 0x00, 0x64, 0x00, 0x00, 0x00],
        [0x59, 0x59, 0xff, 0xff, 0xfe, 0xff, 0xff, 0xff],
        [0, 0, 0, 0, 0, 0, 0, 0],
        [1, 2, 3, 4, 5, 6, 7, 8],
    ];
    for payload in payloads.iter() {
        let frame = seal(payload);
        assert_eq!(frame.len(), 9);
        assert_eq!(&frame[..8], &payload[..]);
        assert_eq!(calc_checksum(&frame, 8), frame[8]);
        assert_eq!(calc_checksum(payload, 8), frame[8]);
    }
}

#[test]
fn malformed_checksum_is_rejected() {
    let good = response(16, 100);
    for wrong in 0..=255u8 {
        if wrong == good[8] {
            continue;
        }
        let mut frame = good.clone();
        frame[8] = wrong;
        assert_eq!(decode_point(&frame), Err(LidarError::BadChecksum));
    }
}

#[test]
fn distance_decode() {
    let frame = [0x59, 0x59, 0x10, 0x00, 0x64, 0x00, 0, 0, 0x26];
    assert_eq!(calc_checksum(&frame, 8), 0x26);
    assert_eq!(decode_point(&frame), Ok(16));
}

#[test]
fn distance_is_little_endian() {
    assert_eq!(decode_point(&response(0x1234, 500)), Ok(0x1234));
    assert_eq!(decode_point(&response(0xffff, 65534)), Ok(0xffff));
    assert_eq!(decode_point(&response(0, 100)), Ok(0));
}

#[test]
fn distance_in_the_other_byte_order() {
    let frame = response(0x1234, 500);
    assert_eq!(decode_point_as(&frame, ByteOrder::LowFirst), Ok(0x1234));
    assert_eq!(decode_point_as(&frame, ByteOrder::HighFirst), Ok(0x3412));
}

#[test]
fn weak_signal_rejection() {
    assert_eq!(decode_point(&response(16, 0)), Err(LidarError::WeakSignal));
    assert_eq!(decode_point(&response(16, 0xffff)), Err(LidarError::WeakSignal));
    assert_eq!(decode_point(&response(16, 99)), Err(LidarError::WeakSignal));
    assert_eq!(decode_point(&response(16, 100)), Ok(16));
    assert_eq!(decode_point(&response(16, 0xfffe)), Ok(16));
}

#[test]
fn wrong_length_is_rejected() {
    let frame = response(16, 100);
    assert_eq!(decode_point(&frame[..8]), Err(LidarError::BadLength));
    assert_eq!(decode_point(&[]), Err(LidarError::BadLength));
    let mut long = frame.clone();
    long.push(0);
    assert_eq!(decode_point(&long), Err(LidarError::BadLength));
}

#[test]
fn wrong_start_is_rejected() {
    let first = seal(&[0x58, 0x59, 0x10, 0x00, 0x64, 0x00, 0, 0]);
    assert_eq!(decode_point(&first), Err(LidarError::BadStart));
    let second = seal(&[0x59, 0x5a, 0x10, 0x00, 0x64, 0x00, 0, 0]);
    assert_eq!(decode_point(&second), Err(LidarError::BadStart));
}

#[test]
fn tests_are_made_in_order() {
    // wrong start and wrong checksum: the start is reported
    let frame = [0x00, 0x59, 0x10, 0x00, 0x64, 0x00, 0, 0, 0xff];
    assert_eq!(decode_point(&frame), Err(LidarError::BadStart));
    // wrong checksum and weak signal: the checksum is reported
    let mut weak = response(16, 0);
    weak[8] = weak[8].wrapping_add(1);
    assert_eq!(decode_point(&weak), Err(LidarError::BadChecksum));
}

#[test]
fn request_frame_bytes() {
    assert_eq!(measurement_request(), vec![0x5a, 0x04, 0x04, 0x62]);
}

#[test]
fn field_reads_low_byte_first() {
    assert_eq!(read_field(0x64, 0x00), 100);
    assert_eq!(read_field(0x00, 0x01), 256);
    assert_eq!(read_field(0xff, 0xff), 0xffff);
}

#[test]
fn error_messages() {
    assert_eq!(LidarError::BadLength.message(), "a packet of wrong length was recieved");
    assert_eq!(LidarError::BadChecksum.message(), "a packet with wrong checksum was recieved");
    assert_eq!(
        LidarError::WeakSignal.message(),
        "lidar signal is not good enough for proper reading"
    );
    assert_eq!(
        LidarError::BadStart.message(),
        "first bytes of a recieved data package were improper"
    );
    assert_eq!(
        LidarError::UartError("Invalid or unsupported value".to_string()).message(),
        "uart has returned an error: Invalid or unsupported value"
    );
    assert_eq!(
        LidarError::UartError(String::new()).message(),
        "uart has returned an error: "
    );
}
