use bytes::Bytes;
use mqtt5bytes::data::{Config, DataLog};
use mqtt5bytes::volatile::Log;
use std::sync::Arc;

fn rec(tag: u8) -> Bytes {
    Bytes::from(vec![tag; 6])
}

fn tags(records: &[Bytes]) -> Vec<u8> {
    records.iter().map(|r| r[0]).collect()
}

#[test]
fn log_rolls_over_and_drops_old_segments() {
    let mut log = Log::new(10, 2);
    assert_eq!(log.next_offset(), (0, 0));
    assert_eq!(log.append(rec(1)), (0, 0));
    assert_eq!(log.append(rec(2)), (0, 1));
    // segment 0 holds 12 bytes now: the next record opens segment 1
    assert_eq!(log.append(rec(3)), (1, 0));
    assert_eq!(log.append(rec(4)), (1, 1));
    // segment 2 makes three segments: segment 0 is dropped
    assert_eq!(log.append(rec(5)), (2, 0));
    assert_eq!(log.next_offset(), (2, 1));

    let (jump, segment, offset, data) = log.readv(0, 0);
    assert_eq!((jump, segment, offset, tags(&data)), (Some(1), 1, 0, vec![]));
    let (jump, segment, offset, data) = log.readv(1, 0);
    assert_eq!((jump, segment, offset, tags(&data)), (Some(2), 2, 0, vec![3, 4]));
    let (jump, segment, offset, data) = log.readv(1, 1);
    assert_eq!((jump, segment, offset, tags(&data)), (Some(2), 2, 0, vec![4]));
    let (jump, segment, offset, data) = log.readv(2, 0);
    assert_eq!((jump, segment, offset, tags(&data)), (None, 2, 1, vec![5]));
    let (jump, segment, offset, data) = log.readv(2, 1);
    assert_eq!((jump, segment, offset, tags(&data)), (None, 2, 1, vec![]));
    let (jump, segment, offset, data) = log.readv(7, 3);
    assert_eq!((jump, segment, offset, tags(&data)), (None, 7, 3, vec![]));
}

#[test]
fn appended_record_reads_back_from_its_offsets() {
    let mut log = Log::new(1, 3);
    for tag in 1..=5u8 {
        let (segment, offset) = log.append(rec(tag));
        let (jump, next_segment, next_offset, data) = log.readv(segment, offset);
        assert_eq!(jump, None);
        assert_eq!((next_segment, next_offset), (segment, offset + 1));
        assert_eq!(tags(&data), vec![tag]);
        assert_eq!(log.next_offset(), (segment, offset + 1));
    }
}

#[test]
fn empty_segment_limit_zero_keeps_one_segment() {
    let mut log = Log::new(0, 0);
    assert_eq!(log.append(rec(1)), (0, 0));
    assert_eq!(log.append(rec(2)), (1, 0));
    let (jump, segment, offset, data) = log.readv(0, 0);
    assert_eq!((jump, segment, offset, tags(&data)), (Some(1), 1, 0, vec![]));
}

fn data_log(id: usize) -> DataLog {
    DataLog::new(Arc::new(Config { max_segment_size: 10, max_segment_count: 2 }), id)
}

#[test]
fn data_log_creates_a_log_per_topic() {
    let mut d = data_log(1);
    assert_eq!(d.next_offset("a"), None);
    assert_eq!(d.append("a", rec(1)).unwrap(), (true, (0, 0)));
    assert_eq!(d.append("a", rec(2)).unwrap(), (false, (0, 1)));
    assert_eq!(d.append("b", rec(3)).unwrap(), (true, (0, 0)));
    assert_eq!(d.next_offset("a"), Some((0, 2)));
    assert_eq!(d.next_offset("b"), Some((0, 1)));
}

#[test]
fn data_log_readv() {
    let mut d = data_log(0);
    d.append("a", rec(1)).unwrap();
    d.append("a", rec(2)).unwrap();
    let (jump, segment, offset, data) = d.readv("a", 0, 0).unwrap().unwrap();
    assert_eq!((jump, segment, offset, tags(&data)), (None, 0, 2, vec![1, 2]));
    assert!(d.readv("b", 0, 0).unwrap().is_none());
}

#[test]
fn seek_offsets_to_end_sets_own_entry() {
    let mut d = data_log(1);
    d.append("a", rec(1)).unwrap();
    d.append("a", rec(2)).unwrap();
    let mut topics = vec![
        ("a".to_string(), 1u8, [(5, 5), (6, 6), (7, 7)]),
        ("missing".to_string(), 0u8, [(9, 9), (9, 9), (9, 9)]),
    ];
    d.seek_offsets_to_end(&mut topics);
    assert_eq!(topics[0], ("a".to_string(), 1u8, [(5, 5), (0, 2), (7, 7)]));
    assert_eq!(topics[1], ("missing".to_string(), 0u8, [(9, 9), (9, 9), (9, 9)]));
}

#[test]
fn appends_to_one_topic_leave_others() {
    let mut d = data_log(2);
    d.append("a", rec(1)).unwrap();
    d.append("b", rec(2)).unwrap();
    let before = d.next_offset("b");
    assert_eq!(d.append("a", rec(3)).unwrap(), (false, (0, 1)));
    assert_eq!(d.next_offset("b"), before);
    assert_eq!(d.next_offset("c"), None);
}
