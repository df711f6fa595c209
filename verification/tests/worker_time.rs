//! Parsing a job's elapsed time.

use blob_idx::worker::parse_time;

#[test]
fn parse_time_mins_secs() {
    let time = "1:30";
    let secs = parse_time(time).unwrap();
    assert_eq!(secs / 60, 1);
    assert_eq!(secs, 90);
}

#[test]
fn parse_time_hours() {
    let time = "1:30:30";
    let secs = parse_time(time).unwrap();
    assert_eq!(secs / 3600, 1);
    assert_eq!(secs / 60, 90);
    assert_eq!(secs, 5430);
}

#[test]
fn parse_time_rejects_garbage() {
    assert!(parse_time("").is_none());
    assert!(parse_time("90").is_none());
    assert!(parse_time("1:2:3:4").is_none());
    assert!(parse_time("a:b").is_none());
}
