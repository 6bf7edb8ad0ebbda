use exp::collector::{first_ready, Collector, Reaction, TopTable, Wake};

#[test]
fn shutdown_wins_over_a_ready_item() {
    assert_eq!(first_ready(true, Some(Wake::Item)), Some(Wake::Shutdown));
    assert_eq!(first_ready(false, Some(Wake::Item)), Some(Wake::Item));
    assert_eq!(first_ready(false, None), None);
}

#[test]
fn collector_reacts_and_never_writes_after_shutdown() {
    let mut c = Collector::new();
    assert_eq!(c.react(Wake::Item), Reaction::Append);
    assert_eq!(c.react(Wake::ItemError), Reaction::Skip);
    assert_eq!(c.react(Wake::Tick), Reaction::Poll);
    assert_eq!(c.react(Wake::Shutdown), Reaction::Stop);
    assert!(c.stopped);
    assert_eq!(c.react(Wake::Item), Reaction::Stop);
    assert_eq!(c.react(Wake::Tick), Reaction::Stop);
}

#[test]
fn exhausted_stream_stops_the_collector() {
    let mut c = Collector::new();
    assert_eq!(c.react(Wake::Exhausted), Reaction::Stop);
    assert_eq!(c.react(Wake::Item), Reaction::Stop);
}

#[test]
fn top_table_writes_its_header_once() {
    let mut t = TopTable::new();
    let titles = vec!["PID".to_string(), "CMD".to_string()];
    let procs = vec![vec!["1".to_string(), "nginx".to_string()]];
    let rows = t.rows_for_poll(&titles, &procs, &"100".to_string());
    assert_eq!(
        rows,
        vec![
            vec!["PID".to_string(), "CMD".to_string(), "timestamp_nanos".to_string()],
            vec!["1".to_string(), "nginx".to_string(), "100".to_string()],
        ]
    );
    let rows = t.rows_for_poll(&titles, &procs, &"200".to_string());
    assert_eq!(
        rows,
        vec![vec!["1".to_string(), "nginx".to_string(), "200".to_string()]]
    );
}
