use hoshi::progress::{progress_events, DownloadProgress, ProgressAggregator, TransferState};

#[test]
fn chunks_give_cumulative_events() {
    let evs = progress_events(&vec![10, 20, 5], Some(35));
    let cur: Vec<u64> = evs.iter().map(|e| e.current_bytes).collect();
    assert_eq!(cur, vec![10, 30, 35, 35]);
    assert_eq!(evs.iter().filter(|e| e.done).count(), 1);
    assert!(evs[3].done);
    assert!(evs.iter().all(|e| e.total_bytes == Some(35)));
}

#[test]
fn empty_body_gives_single_done_event() {
    let evs = progress_events(&vec![], None);
    assert_eq!(evs, vec![DownloadProgress { current_bytes: 0, total_bytes: None, done: true }]);
}

#[test]
fn transfer_state_counts_bytes() {
    let mut st = TransferState::new(None);
    let a = st.on_chunk(7);
    let b = st.on_chunk(3);
    assert_eq!(a.current_bytes, 7);
    assert_eq!(b.current_bytes, 10);
    assert!(!b.done);
    assert_eq!(st.finish(), DownloadProgress { current_bytes: 10, total_bytes: None, done: true });
}

#[test]
fn aggregator_adopts_first_known_total() {
    let mut agg = ProgressAggregator::new(0);
    agg.observe(DownloadProgress { current_bytes: 5, total_bytes: None, done: false }, 10);
    assert_eq!(agg.total, None);
    agg.observe(DownloadProgress { current_bytes: 10, total_bytes: Some(100), done: false }, 20);
    assert_eq!(agg.total, Some(100));
    agg.observe(DownloadProgress { current_bytes: 20, total_bytes: Some(200), done: false }, 30);
    assert_eq!(agg.total, Some(100));
    assert_eq!(agg.current, 20);
}

#[test]
fn aggregator_rate_over_interval() {
    let mut agg = ProgressAggregator::new(0);
    agg.observe(DownloadProgress { current_bytes: 1000, total_bytes: None, done: false }, 50);
    assert_eq!(agg.bytes_per_sec, 0);
    agg.observe(DownloadProgress { current_bytes: 2000, total_bytes: None, done: false }, 200);
    assert_eq!(agg.bytes_per_sec, 10000);
    assert_eq!(agg.last_ms, 200);
    assert_eq!(agg.last_bytes, 2000);
}

#[test]
fn aggregator_stops_on_done() {
    let mut agg = ProgressAggregator::new(0);
    agg.observe(DownloadProgress { current_bytes: 35, total_bytes: Some(35), done: true }, 10);
    assert!(agg.finished);
}

#[test]
fn aggregator_follows_simulated_transfer() {
    let evs = progress_events(&vec![10, 20, 5], Some(35));
    let mut agg = ProgressAggregator::new(0);
    let mut seen = Vec::new();
    let mut finished = 0;
    for (t, ev) in evs.into_iter().enumerate() {
        if agg.finished {
            break;
        }
        agg.observe(ev, (t as u64) * 50);
        seen.push(agg.current);
        if agg.finished {
            finished += 1;
        }
    }
    assert_eq!(seen, vec![10, 30, 35, 35]);
    assert_eq!(finished, 1);
    assert_eq!(agg.total, Some(35));
}

#[test]
fn aggregator_keeps_first_known_total_even_zero() {
    let mut agg = ProgressAggregator::new(0);
    agg.observe(DownloadProgress { current_bytes: 0, total_bytes: Some(0), done: false }, 10);
    agg.observe(DownloadProgress { current_bytes: 3, total_bytes: Some(5), done: false }, 20);
    assert_eq!(agg.total, Some(0));
}
