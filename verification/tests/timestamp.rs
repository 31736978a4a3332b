//! The order of instants.
use chrono::{DateTime, Utc};
use mergemint_backend::timestamp::Timestamp;

fn plain(at: DateTime<Utc>) -> Timestamp {
    Timestamp { seconds: at.timestamp(), nanos: at.timestamp_subsec_nanos() }
}

#[test]
fn seconds_come_before_nanoseconds() {
    let early = Timestamp { seconds: -1, nanos: 999_999_999 };
    let late = Timestamp { seconds: 0, nanos: 0 };
    assert!(early < late);
    assert!(!(late < early));
    assert!(Timestamp { seconds: 0, nanos: 0 } < Timestamp { seconds: 0, nanos: 1 });
    assert!(!(late < late));
    assert_eq!(late, Timestamp { seconds: 0, nanos: 0 });
}

#[test]
fn timestamps_are_ordered_as_utc_instants_are() {
    let instants: Vec<DateTime<Utc>> = [
        "0001-01-01T00:00:00Z",
        "1969-12-31T23:59:59.999999999Z",
        "1970-01-01T00:00:00Z",
        "2016-12-31T23:59:59.5Z",
        "2016-12-31T23:59:60Z",
        "2016-12-31T23:59:60.25Z",
        "2017-01-01T00:00:00Z",
        "2024-02-29T12:00:00+02:00",
        "2024-02-29T12:00:00Z",
        "9999-12-31T23:59:59Z",
    ]
    .iter()
    .map(|text| text.parse().unwrap())
    .collect();
    for a in &instants {
        for b in &instants {
            assert_eq!(a < b, plain(*a) < plain(*b));
            assert_eq!(a == b, plain(*a) == plain(*b));
        }
        let back = DateTime::from_timestamp(plain(*a).seconds, plain(*a).nanos);
        assert_eq!(back, Some(*a));
    }
}
