use rerun_loader_mcap::args::{parse_i64, split_once, time_args};

#[test]
fn split_at_first_equals() {
    let (a, b) = split_once("sim_frame=42", '=').unwrap();
    assert_eq!(a, "sim_frame");
    assert_eq!(b, "42");
    let (a, b) = split_once("a=b=c", '=').unwrap();
    assert_eq!(a, "a");
    assert_eq!(b, "b=c");
    let (a, b) = split_once("=", '=').unwrap();
    assert_eq!(a, "");
    assert_eq!(b, "");
    assert!(split_once("novalue", '=').is_none());
}

#[test]
fn parse_matches_std() {
    let cases = [
        "0", "42", "-42", "+7", "", "-", "+", "1a", " 1", "9223372036854775807", "9223372036854775808",
        "-9223372036854775808", "-9223372036854775809", "00012", "99999999999999999999999", "--1", "1709203426123456789",
    ];
    for c in cases {
        assert_eq!(parse_i64(c), c.parse::<i64>().ok(), "input {:?}", c);
    }
}

#[test]
fn time_args_from_entries() {
    let entries = vec!["sim_frame=42".to_string(), "skipped".to_string(), "sim_time=1709203426123456789".to_string()];
    let args = time_args(&entries).unwrap();
    assert_eq!(args.len(), 2);
    assert_eq!(args[0].timeline, "sim_frame");
    assert_eq!(args[0].value, 42);
    assert_eq!(args[1].timeline, "sim_time");
    assert_eq!(args[1].value, 1709203426123456789);
}

#[test]
fn time_args_bad_value() {
    let entries = vec!["a=1".to_string(), "b=x2".to_string(), "c=3".to_string()];
    match time_args(&entries) {
        Err(v) => assert_eq!(v, "x2"),
        Ok(_) => panic!("expected error"),
    }
}

use rerun_loader_mcap::args::time_point_args;

#[test]
fn time_point_args_three_lists() {
    let s = vec!["frame=42".to_string(), "noise".to_string()];
    let d = vec!["sim_time=123".to_string()];
    let t = vec!["sim_time=1709203426123456789".to_string()];
    let r = time_point_args(&s, &d, &t).unwrap();
    assert_eq!(r.sequences.len(), 1);
    assert_eq!(r.sequences[0].timeline, "frame");
    assert_eq!(r.sequences[0].value, 42);
    assert_eq!(r.durations[0].value, 123);
    assert_eq!(r.timestamps[0].value, 1709203426123456789);
}

#[test]
fn time_point_args_first_error_in_list_order() {
    let s = vec!["a=1".to_string()];
    let d = vec!["b=x".to_string()];
    let t = vec!["c=y".to_string()];
    match time_point_args(&s, &d, &t) {
        Err(v) => assert_eq!(v, "x"),
        Ok(_) => panic!("expected error"),
    }
}
