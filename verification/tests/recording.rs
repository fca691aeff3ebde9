use std::collections::BTreeMap;
use std::io::Cursor;

use mcap::records::MessageHeader;
use rerun_loader_mcap::recording::read_messages;

fn write_mcap(messages: &[(&str, u64, &[u8])]) -> Vec<u8> {
    let mut w = mcap::Writer::new(Cursor::new(Vec::new())).unwrap();
    let sid = w.add_schema("builtin_interfaces/msg/Time", "ros2msg", b"").unwrap();
    let mut channels = BTreeMap::new();
    for (i, (topic, t, data)) in messages.iter().enumerate() {
        let cid = *channels
            .entry(topic.to_string())
            .or_insert_with(|| w.add_channel(sid, topic, "cdr", &BTreeMap::new()).unwrap());
        let header = MessageHeader { channel_id: cid, sequence: i as u32, log_time: *t, publish_time: *t };
        w.write_to_known_channel(&header, data).unwrap();
    }
    w.finish().unwrap();
    w.into_inner().into_inner()
}

#[test]
fn messages_in_stored_order() {
    let f = write_mcap(&[("/a", 10, &[1, 2]), ("/b", 5, &[3]), ("/a", 20, &[4, 5, 6])]);
    let (records, err) = read_messages(&f);
    assert!(err.is_none());
    assert_eq!(records.len(), 3);
    assert_eq!(records[0].topic, "/a");
    assert_eq!(records[0].publish_time, 10);
    assert_eq!(records[0].data, vec![1, 2]);
    assert_eq!(records[1].topic, "/b");
    assert_eq!(records[1].publish_time, 5);
    assert_eq!(records[1].data, vec![3]);
    assert_eq!(records[2].publish_time, 20);
    assert_eq!(records[2].data, vec![4, 5, 6]);
}

#[test]
fn empty_recording_has_no_messages() {
    let f = write_mcap(&[]);
    let (records, err) = read_messages(&f);
    assert!(err.is_none());
    assert!(records.is_empty());
}

#[test]
fn garbage_is_an_error() {
    let (records, err) = read_messages(&[9u8; 32]);
    assert!(records.is_empty());
    assert!(err.is_some());
}
