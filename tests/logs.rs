use exp::layout::{
    completed_dirs, container_config_file, container_log_file, container_stats_file,
    container_top_file,
};
use exp::logs::{split_entry, Logs, LogsError};

#[test]
fn log_lines_read_back_in_order() {
    let lines = vec![
        "2023-01-02T03:04:05.000000006Z hello world".to_string(),
        "no-space-here".to_string(),
        "2023-01-02T03:04:06Z second".to_string(),
    ];
    let logs = match Logs::from_lines(&"container-web".to_string(), &lines) {
        Ok(l) => l,
        Err(_) => panic!("expected the log to read back"),
    };
    assert_eq!(logs.container_name, "web");
    assert_eq!(
        logs.lines,
        vec![
            (1672628645000000006, "hello world".to_string()),
            (1672628646000000000, "second".to_string()),
        ]
    );
    assert!(logs.lines[0].0 <= logs.lines[1].0);
}

#[test]
fn log_file_name_must_carry_the_prefix() {
    let r = Logs::from_lines(&"engine-web".to_string(), &Vec::new());
    assert!(matches!(r, Err(LogsError::BadFileName)));
    let r = Logs::from_lines(&"short".to_string(), &Vec::new());
    assert!(matches!(r, Err(LogsError::BadFileName)));
}

#[test]
fn bad_timestamp_is_reported() {
    let lines = vec!["yesterday something".to_string()];
    match Logs::from_lines(&"container-x".to_string(), &lines) {
        Err(LogsError::BadTimestamp { text }) => assert_eq!(text, "yesterday"),
        _ => panic!("expected a bad timestamp"),
    }
}

#[test]
fn entry_splits_at_the_first_space() {
    assert_eq!(
        split_entry(&"t a b".to_string()),
        Some(("t".to_string(), "a b".to_string()))
    );
    assert_eq!(split_entry(&"tab".to_string()), None);
    assert_eq!(
        split_entry(&"t ".to_string()),
        Some(("t".to_string(), "".to_string()))
    );
}

#[test]
fn container_file_names() {
    let n = "web".to_string();
    assert_eq!(container_log_file(&n), "container-web.log");
    assert_eq!(container_config_file(&n), "container-web.json");
    assert_eq!(container_stats_file(&n), "container-web.stats");
    assert_eq!(container_top_file(&n), "container-web.top");
}

#[test]
fn only_completed_directories_are_analysed() {
    let h = "a".repeat(64);
    let entries = vec![
        "environment.json".to_string(),
        format!("{}.running", h),
        h.clone(),
        format!("{}.failed", h),
        "B".repeat(64),
    ];
    assert_eq!(completed_dirs(&entries), vec![h]);
}
