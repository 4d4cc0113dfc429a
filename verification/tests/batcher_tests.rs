use proddle::batcher::{ResultBatcher, FLUSH_COOLDOWN};

fn filled() -> ResultBatcher<String> {
    let mut batcher = ResultBatcher::new();
    batcher.push("first".to_string());
    batcher.push("second".to_string());
    batcher.push("third".to_string());
    batcher
}

#[test]
fn empty_batcher_never_flushes() {
    let batcher: ResultBatcher<String> = ResultBatcher::new();
    assert_eq!(batcher.len(), 0);
    assert!(!batcher.should_flush(1_700_000_000));
    assert!(!batcher.should_flush(i64::MAX));
}

#[test]
fn batch_is_the_whole_buffer_in_order() {
    let batcher = filled();
    assert!(batcher.should_flush(1_700_000_000));
    assert_eq!(
        batcher.batch(),
        &vec!["first".to_string(), "second".to_string(), "third".to_string()]
    );
}

#[test]
fn successful_flush_clears_the_buffer() {
    let mut batcher = filled();
    batcher.flushed(true, 1_700_000_000);
    assert_eq!(batcher.len(), 0);
    assert!(batcher.batch().is_empty());
    assert_eq!(batcher.retry_after(), 0);
    batcher.push("fourth".to_string());
    assert!(batcher.should_flush(1_700_000_001));
}

#[test]
fn failed_flush_leaves_the_buffer_and_starts_the_cooldown() {
    let mut batcher = filled();
    batcher.flushed(false, 1_700_000_000);
    assert_eq!(
        batcher.batch(),
        &vec!["first".to_string(), "second".to_string(), "third".to_string()]
    );
    assert_eq!(FLUSH_COOLDOWN, 600);
    assert_eq!(batcher.retry_after(), 1_700_000_600);
    assert!(!batcher.should_flush(1_700_000_001));
    assert!(!batcher.should_flush(1_700_000_600));
    assert!(batcher.should_flush(1_700_000_601));
}

#[test]
fn buffer_grows_during_the_cooldown() {
    let mut batcher = filled();
    batcher.flushed(false, 1_700_000_000);
    batcher.push("fourth".to_string());
    assert_eq!(batcher.len(), 4);
    assert!(!batcher.should_flush(1_700_000_300));
    assert!(batcher.should_flush(1_700_000_700));
    batcher.flushed(true, 1_700_000_700);
    assert_eq!(batcher.len(), 0);
}

#[test]
fn cooldown_stops_at_the_greatest_time() {
    let mut batcher = filled();
    batcher.flushed(false, i64::MAX - 5);
    assert_eq!(batcher.retry_after(), i64::MAX);
    assert!(!batcher.should_flush(i64::MAX));
}
