use chola_controller::log_aggregator::{ChunkFate, LogAggregator};

#[test]
fn appends_in_order() {
    let mut agg = LogAggregator::new();
    let r = agg.append_chunk("job", 0, b"hello");
    assert_eq!(r.last_offset, 5);
    assert!(matches!(r.fate, ChunkFate::Stored));
    assert!(!r.restarted);
    let r = agg.append_chunk("job", 5, b" world");
    assert_eq!(r.last_offset, 11);
    assert_eq!(agg.get_log_data("job"), b"hello world".to_vec());
    assert_eq!(agg.get_log_string("job"), "hello world");
    assert_eq!(agg.last_offset("job"), 11);
}

#[test]
fn duplicate_chunk_changes_nothing() {
    let mut agg = LogAggregator::new();
    agg.append_chunk("job", 0, b"hello");
    let r = agg.append_chunk("job", 2, b"zz");
    assert!(matches!(r.fate, ChunkFate::Duplicate));
    assert_eq!(r.last_offset, 5);
    assert_eq!(agg.get_log_data("job"), b"hello".to_vec());
}

#[test]
fn gap_is_accepted() {
    let mut agg = LogAggregator::new();
    agg.append_chunk("job", 0, b"ab");
    let r = agg.append_chunk("job", 10, b"c");
    assert_eq!(r.last_offset, 11);
    assert_eq!(agg.get_log_data("job"), b"abc".to_vec());
}

#[test]
fn offset_zero_restarts_stream() {
    let mut agg = LogAggregator::new();
    agg.append_chunk("job", 0, b"first run");
    agg.finalize("job", 50);
    let r = agg.append_chunk("job", 0, b"new");
    assert!(r.restarted);
    assert_eq!(r.last_offset, 3);
    assert_eq!(agg.get_log_data("job"), b"new".to_vec());
    assert!(!agg.is_complete("job"));
}

#[test]
fn unknown_job_reads_empty() {
    let agg = LogAggregator::new();
    assert_eq!(agg.last_offset("nope"), 0);
    assert!(!agg.is_complete("nope"));
    assert!(agg.get_log_data("nope").is_empty());
    assert_eq!(agg.get_log_string("nope"), "");
    assert_eq!(agg.broadcast_capacity(), 256);
    assert!(agg.log_dir().is_none());
}

#[test]
fn invalid_utf8_is_replaced() {
    let mut agg = LogAggregator::new();
    agg.append_chunk("job", 0, &[b'a', 0xff, b'b']);
    assert_eq!(agg.get_log_string("job"), "a\u{FFFD}b");
}

#[test]
fn subscribe_replays_buffer_from_offset() {
    let mut agg = LogAggregator::with_log_dir("/var/log/ci".to_string());
    assert_eq!(agg.log_dir().map(|s| s.as_str()), Some("/var/log/ci"));
    agg.append_chunk("job", 0, b"abcdef");
    let (chunks, complete) = agg.subscribe("job", 2);
    assert!(!complete);
    assert_eq!(chunks.len(), 1);
    assert_eq!(chunks[0].offset, 2);
    assert_eq!(chunks[0].data, b"cdef".to_vec());
    let (chunks, _) = agg.subscribe("job", 100);
    assert!(chunks.is_empty());
}

#[test]
fn cleanup_drops_expired_finalized_streams() {
    let mut agg = LogAggregator::new();
    agg.append_chunk("old", 0, b"x");
    agg.append_chunk("live", 0, b"y");
    agg.finalize("old", 100);
    let removed = agg.cleanup_old_logs(200, 50);
    assert_eq!(removed, vec!["old".to_string()]);
    assert!(agg.get_log_data("old").is_empty());
    assert_eq!(agg.get_log_data("live"), b"y".to_vec());
    assert!(agg.cleanup_old_logs(200, 50).is_empty());
}
