use ros2_interfaces_humble::builtin_interfaces::msg::Time;
use ros2_interfaces_humble::sensor_msgs::msg::{CompressedImage, Image};
use ros2_interfaces_humble::std_msgs::msg::Header;
use rerun_loader_mcap::messages::Stamp;
use rerun_loader_mcap::payload::{has_zstd_magic, serialized, ZSTD_MAGIC_NUMBER};
use rerun_loader_mcap::{compressed_image, image, timestamp};

fn zstd_bytes(v: &[u8]) -> Vec<u8> {
    zstd::stream::encode_all(v, 3).unwrap()
}

fn header(sec: i32, nanosec: u32) -> Header {
    Header { stamp: Time { sec, nanosec }, frame_id: "map".to_string() }
}

#[test]
fn magic_number_detected() {
    assert!(has_zstd_magic(&ZSTD_MAGIC_NUMBER));
    assert!(has_zstd_magic(&zstd_bytes(b"hello")));
    assert!(!has_zstd_magic(&[0, 1, 0, 0, 9]));
}

#[test]
fn plain_payload_is_kept() {
    let data = vec![0u8, 1, 0, 0, 42, 43];
    match serialized(&data) {
        Ok(v) => assert_eq!(v, data),
        Err(_) => panic!("plain payload must pass"),
    }
}

#[test]
fn zstd_payload_is_decompressed() {
    let inner = vec![0u8, 1, 0, 0, 7, 7, 7, 7];
    match serialized(&zstd_bytes(&inner)) {
        Ok(v) => assert_eq!(v, inner),
        Err(_) => panic!("zstd payload must decompress"),
    }
}

#[test]
fn broken_zstd_payload_is_an_error() {
    let mut data = ZSTD_MAGIC_NUMBER.to_vec();
    data.extend_from_slice(&[1, 2, 3, 4, 5]);
    assert!(serialized(&data).is_err());
    assert!(matches!(timestamp::decode_message(&data), Err(timestamp::Error::Zstd(_))));
}

#[test]
fn time_message_decodes() {
    let bytes = cdr::serialize::<_, _, cdr::CdrLe>(&Time { sec: 1_700_000_000, nanosec: 250 }, cdr::Infinite).unwrap();
    match timestamp::decode_message(&bytes) {
        Ok(s) => assert_eq!(s, Stamp { sec: 1_700_000_000, nanosec: 250 }),
        Err(_) => panic!("time must decode"),
    }
}

#[test]
fn compressed_time_message_decodes() {
    let bytes = zstd_bytes(&cdr::serialize::<_, _, cdr::CdrLe>(&Time { sec: -3, nanosec: 999_999_999 }, cdr::Infinite).unwrap());
    match timestamp::decode_message(&bytes) {
        Ok(s) => assert_eq!(s, Stamp { sec: -3, nanosec: 999_999_999 }),
        Err(_) => panic!("time must decode"),
    }
}

#[test]
fn bad_encapsulation_is_a_cdr_error() {
    let bytes = vec![0u8, 9, 0, 0, 1, 2, 3, 4];
    assert!(matches!(timestamp::decode_message(&bytes), Err(timestamp::Error::Cdr(_))));
}

#[test]
fn nv12_image_decodes() {
    let msg = Image {
        header: header(4, 5),
        height: 6,
        width: 2,
        encoding: "nv12".to_string(),
        is_bigendian: 0,
        step: 2,
        data: (0..12).collect(),
    };
    match image::decode_message(&cdr::serialize::<_, _, cdr::CdrLe>(&msg, cdr::Infinite).unwrap()) {
        Ok(Some(m)) => {
            assert_eq!(m.stamp, Stamp { sec: 4, nanosec: 5 });
            assert_eq!(m.height, 6);
            assert_eq!(m.width, 2);
            assert_eq!(m.encoding, "nv12");
            assert_eq!(m.data, (0..12).collect::<Vec<u8>>());
        },
        _ => panic!("nv12 image must decode"),
    }
}

#[test]
fn other_image_encodings_are_passed_over() {
    let msg = Image {
        header: header(0, 0),
        height: 1,
        width: 1,
        encoding: "rgb8".to_string(),
        is_bigendian: 0,
        step: 3,
        data: vec![1, 2, 3],
    };
    assert!(matches!(image::decode_message(&cdr::serialize::<_, _, cdr::CdrLe>(&msg, cdr::Infinite).unwrap()), Ok(None)));
}

#[test]
fn nv12_layout_of_720_rows() {
    assert!(image::nv12_layout_fits(640, 720));
    let l = image::nv12_layout(640, 720);
    assert_eq!(l.rgb_height, 480);
    assert_eq!(l.uv_offset, 640 * 480);
    assert_eq!(l.rgb_len, 640 * 480 * 3);
    assert_eq!(l.src_stride, 640);
    assert_eq!(l.dst_stride, 1920);
    assert_eq!(l.rows, 480);
}

#[test]
fn nv12_layout_rounds_rows_down() {
    let l = image::nv12_layout(4, 7);
    assert_eq!(l.rgb_height, 4);
    assert_eq!(l.rgb_len, 48);
}

#[test]
fn nv12_layout_rejects_overflowing_stride() {
    assert!(!image::nv12_layout_fits(0x7fff_ffff, 3));
}

#[test]
fn compressed_image_decodes() {
    let msg = CompressedImage { header: header(9, 10), format: "jpeg".to_string(), data: vec![0xff, 0xd8, 0xff] };
    match compressed_image::decode_message(&zstd_bytes(&cdr::serialize::<_, _, cdr::CdrLe>(&msg, cdr::Infinite).unwrap())) {
        Ok(m) => {
            assert_eq!(m.stamp, Stamp { sec: 9, nanosec: 10 });
            assert_eq!(m.format, "jpeg");
            assert_eq!(m.data, vec![0xff, 0xd8, 0xff]);
        },
        Err(_) => panic!("compressed image must decode"),
    }
}

#[test]
fn time_layout_little_endian() {
    let bytes = [0u8, 1, 0, 0, 5, 0, 0, 0, 7, 0, 0, 0, 0xaa];
    match timestamp::decode_message(&bytes) {
        Ok(s) => assert_eq!(s, Stamp { sec: 5, nanosec: 7 }),
        Err(_) => panic!("time must decode"),
    }
}

#[test]
fn time_layout_big_endian() {
    let bytes = [0u8, 0, 0, 0, 0xff, 0xff, 0xff, 0xfd, 0, 0, 1, 2];
    match timestamp::decode_message(&bytes) {
        Ok(s) => assert_eq!(s, Stamp { sec: -3, nanosec: 258 }),
        Err(_) => panic!("time must decode"),
    }
    let bytes = [0u8, 2, 0, 0, 0, 0, 0, 9, 0, 0, 0, 1];
    match timestamp::decode_message(&bytes) {
        Ok(s) => assert_eq!(s, Stamp { sec: 9, nanosec: 1 }),
        Err(_) => panic!("time must decode"),
    }
}

#[test]
fn time_layout_too_short() {
    let bytes = [0u8, 1, 0, 0, 5, 0, 0, 0, 7, 0, 0];
    assert!(matches!(timestamp::decode_message(&bytes), Err(timestamp::Error::Cdr(_))));
    assert!(matches!(timestamp::decode_message(&[0u8, 1, 0, 0]), Err(timestamp::Error::Cdr(_))));
}

#[test]
fn nv12_source_length() {
    // 480 luma rows of 640 bytes, 240 chroma rows of 640 bytes
    assert_eq!(image::nv12_layout(640, 720).src_len, 640 * 480 + 640 * 240);
    // odd width: the last chroma row is read up to the next even byte
    let l = image::nv12_layout(3, 4);
    assert_eq!(l.rgb_height, 2);
    assert_eq!(l.src_len, 3 * 2 + 4);
    assert_eq!(image::nv12_layout(5, 1).src_len, 0);
}
