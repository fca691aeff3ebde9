use rerun_loader_mcap::extension;
use rerun_loader_mcap::Topic;

#[test]
fn extension_of_plain_file() {
    assert_eq!(extension("recording.mcap"), "mcap");
}

#[test]
fn extension_is_lower_cased() {
    assert_eq!(extension("/data/Run_01.MCAP"), "mcap");
    assert_eq!(extension("a/b.McAp"), "mcap");
}

#[test]
fn extension_takes_last_dot() {
    assert_eq!(extension("dir/archive.tar.GZ"), "gz");
}

#[test]
fn extension_absent() {
    assert_eq!(extension("dir/README"), "");
    assert_eq!(extension(""), "");
    assert_eq!(extension("/"), "");
}

#[test]
fn extension_leading_dot_is_not_an_extension() {
    assert_eq!(extension("home/.bashrc"), "");
    assert_eq!(extension(".hidden.TXT"), "txt");
}

#[test]
fn extension_trailing_dot_gives_empty() {
    assert_eq!(extension("name."), "");
}

#[test]
fn extension_ignores_trailing_separators_and_current_dir() {
    assert_eq!(extension("x.mcap/"), "mcap");
    assert_eq!(extension("x.mcap/."), "mcap");
    assert_eq!(extension("x.mcap//./"), "mcap");
}

#[test]
fn extension_of_parent_or_current_dir_is_empty() {
    assert_eq!(extension("a.b/.."), "");
    assert_eq!(extension("."), "");
    assert_eq!(extension(".."), "");
}

#[test]
fn extension_only_of_last_component() {
    assert_eq!(extension("dir.mcap/file"), "");
}

#[test]
fn extension_keeps_non_ascii() {
    assert_eq!(extension("f.ÄB"), "Äb");
}

fn topic(id: u16, count: Option<u64>) -> Topic {
    Topic {
        id,
        name: "/camera/front".to_string(),
        format: "sensor_msgs/msg/Image".to_string(),
        description: "Encoding: ros2msg".to_string(),
        msg_count: count,
    }
}

#[test]
fn topic_line_with_count() {
    assert_eq!(
        topic(3, Some(120)).to_display_string(),
        "3, /camera/front, msgs: 120, sensor_msgs/msg/Image, Encoding: ros2msg"
    );
}

#[test]
fn topic_line_without_count() {
    assert_eq!(
        topic(65535, None).to_display_string(),
        "65535, /camera/front, msgs: Unknown, sensor_msgs/msg/Image, Encoding: ros2msg"
    );
}

#[test]
fn topic_line_zero_and_large_counts() {
    assert_eq!(topic(0, Some(0)).to_display_string(), "0, /camera/front, msgs: 0, sensor_msgs/msg/Image, Encoding: ros2msg");
    assert_eq!(
        topic(10, Some(u64::MAX)).to_display_string(),
        "10, /camera/front, msgs: 18446744073709551615, sensor_msgs/msg/Image, Encoding: ros2msg"
    );
}
