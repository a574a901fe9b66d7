use demo2::batching::{retry_connect, TelemetryBatcher, WriterEvent, TELEMETRY_BATCH_SIZE};

#[test]
fn full_batches_are_written_when_their_last_row_arrives() {
    let mut batcher = TelemetryBatcher::new();
    for i in 0..TELEMETRY_BATCH_SIZE - 1 {
        assert!(batcher.push_row(i).is_none());
    }
    assert_eq!(batcher.pending_len(), TELEMETRY_BATCH_SIZE - 1);
    let batch = batcher.push_row(999).unwrap();
    assert_eq!(batch.len(), TELEMETRY_BATCH_SIZE);
    assert_eq!(batch[0], 0);
    assert_eq!(batch[TELEMETRY_BATCH_SIZE - 1], 999);
    assert_eq!(batcher.pending_len(), 0);
}

#[test]
fn events_and_ticks_flush_what_waits() {
    let mut batcher = TelemetryBatcher::new();
    assert!(batcher.handle(WriterEvent::Tick).is_none());
    assert!(batcher.handle(WriterEvent::Telemetry("a")).is_none());
    assert!(batcher.handle(WriterEvent::Telemetry("b")).is_none());
    assert_eq!(batcher.handle(WriterEvent::Event), Some(vec!["a", "b"]));
    assert!(batcher.handle(WriterEvent::Event).is_none());
    batcher.handle(WriterEvent::Telemetry("c"));
    assert_eq!(batcher.handle(WriterEvent::Tick), Some(vec!["c"]));
    batcher.handle(WriterEvent::Telemetry("d"));
    assert_eq!(batcher.take_pending(), Some(vec!["d"]));
    assert_eq!(batcher.take_pending(), None);
}

#[test]
fn every_row_comes_out_once_in_order() {
    let mut batcher = TelemetryBatcher::new();
    let mut out = Vec::new();
    for i in 0..1000u32 {
        let event = if i % 97 == 0 { WriterEvent::Tick } else { WriterEvent::Telemetry(i) };
        if let Some(batch) = batcher.handle(event) {
            assert!(batch.len() <= TELEMETRY_BATCH_SIZE);
            out.extend(batch);
        }
    }
    if let Some(batch) = batcher.take_pending() {
        out.extend(batch);
    }
    let expected: Vec<u32> = (0..1000u32).filter(|i| i % 97 != 0).collect();
    assert_eq!(out, expected);
}

#[test]
fn connecting_stops_after_the_last_attempt() {
    assert!(retry_connect(1, 3));
    assert!(retry_connect(2, 3));
    assert!(!retry_connect(3, 3));
    assert!(!retry_connect(1, 0));
}
