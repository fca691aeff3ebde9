use ros2_interfaces_humble::builtin_interfaces::msg::Time;
use ros2_interfaces_humble::sensor_msgs::msg::{PointCloud2, PointField as RosField};
use ros2_interfaces_humble::std_msgs::msg::Header;
use rerun_loader_mcap::messages::Stamp;
use rerun_loader_mcap::pointcloud::{
    decode_message, find_column, try_decode_message, FieldValue, PointCloud, PointField, FLOAT32, FLOAT64, INT16,
    INT32, INT8, UINT16, UINT32, UINT8,
};

fn field(name: &str, offset: u32, datatype: u8) -> PointField {
    PointField { name: name.to_string(), offset, datatype, count: 1 }
}

fn cloud(fields: Vec<PointField>, point_step: u32, row_step: u32, data: Vec<u8>) -> PointCloud {
    PointCloud { stamp: Stamp { sec: 1, nanosec: 2 }, height: 1, width: row_step, fields, point_step, row_step, data }
}

#[test]
fn decode_every_datatype() {
    // one point: i8, u8, i16, u16, i32, u32, f32, f64
    let mut data = vec![0xffu8, 0xfe];
    data.extend_from_slice(&(-2i16).to_le_bytes());
    data.extend_from_slice(&513u16.to_le_bytes());
    data.extend_from_slice(&(-70000i32).to_le_bytes());
    data.extend_from_slice(&4_000_000_000u32.to_le_bytes());
    data.extend_from_slice(&1.5f32.to_le_bytes());
    data.extend_from_slice(&(-0.25f64).to_le_bytes());
    let c = cloud(
        vec![
            field("a", 0, INT8),
            field("b", 1, UINT8),
            field("c", 2, INT16),
            field("d", 4, UINT16),
            field("e", 6, INT32),
            field("f", 10, UINT32),
            field("g", 14, FLOAT32),
            field("h", 18, FLOAT64),
        ],
        26,
        1,
        data,
    );
    assert!(c.is_decodable());
    let cols = c.decode();
    assert_eq!(cols.len(), 8);
    assert_eq!(cols[0].values, vec![FieldValue::I8(-1)]);
    assert_eq!(cols[1].values, vec![FieldValue::U8(0xfe)]);
    assert_eq!(cols[2].values, vec![FieldValue::I16(-2)]);
    assert_eq!(cols[3].values, vec![FieldValue::U16(513)]);
    assert_eq!(cols[4].values, vec![FieldValue::I32(-70000)]);
    assert_eq!(cols[5].values, vec![FieldValue::U32(4_000_000_000)]);
    assert_eq!(cols[6].values, vec![FieldValue::F32Bits(1.5f32.to_bits())]);
    assert_eq!(cols[7].values, vec![FieldValue::F64Bits((-0.25f64).to_bits())]);
    assert_eq!(cols[7].name, "h");
}

#[test]
fn decode_reads_point_step_apart() {
    let data: Vec<u8> = vec![10, 11, 20, 21, 30, 31];
    let c = cloud(vec![field("lo", 0, UINT8), field("hi", 1, UINT8)], 2, 3, data);
    let cols = c.decode();
    assert_eq!(cols[0].values, vec![FieldValue::U8(10), FieldValue::U8(20), FieldValue::U8(30)]);
    assert_eq!(cols[1].values, vec![FieldValue::U8(11), FieldValue::U8(21), FieldValue::U8(31)]);
}

#[test]
fn decode_no_points() {
    let c = cloud(vec![field("x", 0, FLOAT32)], 16, 0, vec![]);
    assert!(c.is_decodable());
    let cols = c.decode();
    assert_eq!(cols.len(), 1);
    assert!(cols[0].values.is_empty());
}

#[test]
fn undecodable_clouds() {
    // unknown datatype
    assert!(!cloud(vec![field("x", 0, 9)], 4, 1, vec![0; 4]).is_decodable());
    assert!(!cloud(vec![field("x", 0, 0)], 4, 1, vec![0; 4]).is_decodable());
    // data too short for the last point
    assert!(!cloud(vec![field("x", 0, FLOAT32)], 4, 2, vec![0; 7]).is_decodable());
    // several elements per point
    let mut f = field("x", 0, FLOAT32);
    f.count = 3;
    assert!(!cloud(vec![f], 12, 1, vec![0; 12]).is_decodable());
    // height * width overflows
    let mut c = cloud(vec![field("x", 0, UINT8)], 1, 1, vec![0]);
    c.height = 0x10000;
    c.width = 0x10000;
    assert!(!c.is_decodable());
}

#[test]
fn later_field_of_same_name_wins() {
    let c = cloud(vec![field("v", 0, UINT8), field("v", 1, UINT8)], 2, 1, vec![5, 6]);
    let cols = c.decode();
    assert_eq!(find_column(&cols, "v"), Some(1));
    assert_eq!(find_column(&cols, "w"), None);
}

fn ros_field(name: &str, offset: u32) -> RosField {
    RosField { name: name.to_string(), offset, datatype: 7, count: 1 }
}

fn xyzi_message(points: &[[f32; 4]], with_intensity: bool) -> Vec<u8> {
    let mut data = Vec::new();
    for p in points {
        for v in p {
            data.extend_from_slice(&v.to_le_bytes());
        }
    }
    let mut fields = vec![ros_field("x", 0), ros_field("y", 4), ros_field("z", 8)];
    if with_intensity {
        fields.push(ros_field("intensity", 12));
    }
    let msg = PointCloud2 {
        header: Header { stamp: Time { sec: 7, nanosec: 8 }, frame_id: "lidar".to_string() },
        height: 1,
        width: points.len() as u32,
        fields,
        is_bigendian: false,
        point_step: 16,
        row_step: points.len() as u32,
        data,
        is_dense: true,
    };
    cdr::serialize::<_, _, cdr::CdrLe>(&msg, cdr::Infinite).unwrap()
}

fn bits(v: &[FieldValue]) -> Vec<f32> {
    v.iter()
        .map(|x| match x {
            FieldValue::F32Bits(b) => f32::from_bits(*b),
            _ => panic!("float expected"),
        })
        .collect()
}

#[test]
fn point_cloud_message_decodes() {
    let bytes = xyzi_message(&[[1.0, 2.0, 3.0, 0.5], [-1.0, -2.0, -3.0, 0.25]], true);
    match decode_message(&bytes) {
        Ok(fr) => {
            assert_eq!(fr.stamp, Stamp { sec: 7, nanosec: 8 });
            assert_eq!(bits(&fr.x), vec![1.0, -1.0]);
            assert_eq!(bits(&fr.y), vec![2.0, -2.0]);
            assert_eq!(bits(&fr.z), vec![3.0, -3.0]);
            assert_eq!(bits(&fr.intensity), vec![0.5, 0.25]);
        },
        Err(_) => panic!("cloud must decode"),
    }
}

#[test]
fn point_cloud_message_compressed() {
    let bytes = zstd::stream::encode_all(&xyzi_message(&[[4.0, 5.0, 6.0, 1.0]], true)[..], 1).unwrap();
    match try_decode_message(&bytes) {
        Some(Ok(fr)) => assert_eq!(bits(&fr.x), vec![4.0]),
        _ => panic!("cloud must decode"),
    }
}

#[test]
fn point_cloud_without_intensity_is_not_defined() {
    let bytes = xyzi_message(&[[1.0, 2.0, 3.0, 0.0]], false);
    assert!(try_decode_message(&bytes).is_none());
}

#[test]
fn short_payload_is_not_defined() {
    assert!(try_decode_message(&[0, 1]).is_none());
}

#[test]
fn point_cloud_cdr_error() {
    assert!(matches!(try_decode_message(&[0, 7, 0, 0, 1]), Some(Err(rerun_loader_mcap::pointcloud::Error::CDR(_)))));
}
