use rerun_loader_mcap::args::parse_i64;
use rerun_loader_mcap::extraction::{next_step, ParserTable, Step};
use rerun_loader_mcap::Topic;

#[test]
fn printed_counts_read_back() {
    for n in [0u64, 7, 42, 1_000_000, i64::MAX as u64] {
        let t = Topic {
            id: 1,
            name: "/t".to_string(),
            format: "f".to_string(),
            description: "d".to_string(),
            msg_count: Some(n),
        };
        let line = t.to_display_string();
        let count = line.split(", ").nth(2).unwrap().strip_prefix("msgs: ").unwrap();
        assert_eq!(parse_i64(count), Some(n as i64));
    }
}

#[test]
fn stop_stays_stop_for_later_messages() {
    let t = ParserTable::from_topics(&vec![]);
    for t1 in [11u64, 50, 1 << 40] {
        assert_eq!(next_step(&t, false, t1, 0, 10, "/a"), Step::Stop);
        assert_eq!(next_step(&t, false, t1 + 1, 0, 10, "/b"), Step::Stop);
        assert_eq!(next_step(&t, false, u64::MAX, 0, 10, "/b"), Step::Stop);
    }
}

#[test]
fn interrupt_wins_over_everything() {
    let t = ParserTable::from_topics(&vec![]);
    assert_eq!(next_step(&t, true, 0, 5, 10, "/a"), Step::Interrupted);
    assert_eq!(next_step(&t, true, 100, 5, 10, "/a"), Step::Interrupted);
}

use rerun_loader_mcap::args::time_args;

#[test]
fn entries_without_equals_change_nothing() {
    let a = vec!["s=1".to_string(), "t=2".to_string()];
    let b = vec!["noise".to_string(), "s=1".to_string(), "".to_string(), "t=2".to_string(), "x".to_string()];
    let ra = time_args(&a).unwrap();
    let rb = time_args(&b).unwrap();
    assert_eq!(ra.len(), rb.len());
    for (x, y) in ra.iter().zip(rb.iter()) {
        assert_eq!(x.timeline, y.timeline);
        assert_eq!(x.value, y.value);
    }
    let c = vec!["junk".to_string(), "s=q".to_string()];
    assert_eq!(time_args(&c).err(), Some("q".to_string()));
}

#[test]
fn zstd_frame_is_transparent() {
    let d = vec![0u8, 1, 0, 0, 5, 0, 0, 0, 7, 0, 0, 0];
    let z = zstd::stream::encode_all(&d[..], 3).unwrap();
    let a = rerun_loader_mcap::timestamp::decode_message(&d).ok().unwrap();
    let b = rerun_loader_mcap::timestamp::decode_message(&z).ok().unwrap();
    assert_eq!(a, b);
    assert_eq!(a, rerun_loader_mcap::messages::Stamp { sec: 5, nanosec: 7 });
}
