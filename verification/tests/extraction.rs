use rerun_loader_mcap::extraction::{next_step, parser_kind, ParserKind, ParserTable, Step};
use rerun_loader_mcap::Topic;

fn topic(id: u16, name: &str, format: &str) -> Topic {
    Topic { id, name: name.to_string(), format: format.to_string(), description: String::new(), msg_count: None }
}

#[test]
fn parser_kinds_by_format() {
    assert_eq!(parser_kind("builtin_interfaces/msg/Time"), Some(ParserKind::Timestamp));
    assert_eq!(parser_kind("sensor_msgs/msg/Image"), Some(ParserKind::Image));
    assert_eq!(parser_kind("sensor_msgs/msg/CompressedImage"), Some(ParserKind::CompressedImage));
    assert_eq!(parser_kind("sensor_msgs/msg/PointCloud2"), Some(ParserKind::PointCloud));
    assert_eq!(parser_kind("std_msgs/msg/String"), None);
    assert_eq!(parser_kind(""), None);
}

#[test]
fn table_routes_known_formats() {
    let topics = vec![
        topic(1, "/clock", "builtin_interfaces/msg/Time"),
        topic(2, "/log", "rcl_interfaces/msg/Log"),
        topic(3, "/points", "sensor_msgs/msg/PointCloud2"),
    ];
    let t = ParserTable::from_topics(&topics);
    assert_eq!(t.route("/clock"), Some(ParserKind::Timestamp));
    assert_eq!(t.route("/points"), Some(ParserKind::PointCloud));
    assert_eq!(t.route("/log"), None);
    assert_eq!(t.route("/missing"), None);
}

#[test]
fn later_topic_of_same_name_replaces_route() {
    let topics = vec![topic(1, "/cam", "sensor_msgs/msg/Image"), topic(2, "/cam", "sensor_msgs/msg/CompressedImage")];
    let t = ParserTable::from_topics(&topics);
    assert_eq!(t.route("/cam"), Some(ParserKind::CompressedImage));
}

#[test]
fn steps_in_window() {
    let t = ParserTable::from_topics(&vec![topic(1, "/clock", "builtin_interfaces/msg/Time")]);
    assert_eq!(next_step(&t, false, 50, 10, 100, "/clock"), Step::Handle(ParserKind::Timestamp));
    assert_eq!(next_step(&t, false, 50, 10, 100, "/other"), Step::Skip);
    assert_eq!(next_step(&t, false, 5, 10, 100, "/clock"), Step::Skip);
    assert_eq!(next_step(&t, false, 101, 10, 100, "/clock"), Step::Stop);
    assert_eq!(next_step(&t, true, 50, 10, 100, "/clock"), Step::Interrupted);
}

#[test]
fn trim_bounds_are_reinterpreted_as_unsigned() {
    let t = ParserTable::from_topics(&vec![topic(1, "/clock", "builtin_interfaces/msg/Time")]);
    // i64::MIN as u64 is 2^63: every earlier publish time lies before the window
    assert_eq!(next_step(&t, false, 1_000, i64::MIN, i64::MAX, "/clock"), Step::Skip);
    assert_eq!(next_step(&t, false, 1u64 << 63, i64::MIN, -1, "/clock"), Step::Handle(ParserKind::Timestamp));
    assert_eq!(next_step(&t, false, 1_000, 0, -1, "/clock"), Step::Handle(ParserKind::Timestamp));
}
