use wombat::logs::{
    error_entry, file_trace_entry, filter_pattern, info_entry, log_file_name, log_group_prefix,
    search_limit, stored_entry, LogEntry, LogPage, LogSearch, LogStream, Notice, SearchAction,
    SearchStage, StreamScan,
};
use wombat::shared::Env;

fn stream(name: &str, first: Option<i64>, last: Option<i64>) -> LogStream {
    LogStream {
        name: Some(name.to_string()),
        first_event_timestamp: first,
        creation_time: None,
        last_event_timestamp: last,
        last_ingestion_time: None,
    }
}

fn entry(msg: &str) -> LogEntry {
    LogEntry { log_stream_name: "web/users/1".to_string(), timestamp: 1, ingestion_time: 2, message: msg.to_string() }
}

#[test]
fn scan_finds_overlapping_stream_of_app() {
    let apps = vec!["users".to_string()];
    let mut scan = StreamScan::new();
    let m = scan.scan_stream(&stream("web/users/abc", Some(1000), Some(2000)), &apps, 0, 5000);
    assert_eq!(m, Some("Searching for log streams, found 1 stream(s). Last: web/users/abc".to_string()));
    assert_eq!(scan.found, vec!["web/users/abc".to_string()]);
    assert!(scan.done.is_empty());
}

#[test]
fn scan_ignores_other_apps_and_marks_done() {
    let apps = vec!["users".to_string(), "orders".to_string()];
    let mut scan = StreamScan::new();
    let msgs = scan.scan_page(
        &vec![
            stream("web/other/1", Some(1000), Some(2000)),
            stream("web/orders/2", Some(0), Some(10)),
            stream("web/users/3", Some(150_000), Some(160_000)),
        ],
        &apps,
        100_000,
        200_000,
    );
    assert_eq!(scan.found, vec!["web/users/3".to_string()]);
    assert_eq!(scan.done, vec!["orders".to_string()]);
    assert_eq!(msgs, vec!["Searching for log streams, found 1 stream(s). Last: web/users/3".to_string()]);
    assert!(!scan.finished(&apps, &Some("t".to_string())));
    assert!(scan.finished(&apps, &None));
}

#[test]
fn scan_overlap_edges() {
    let apps = vec!["a".to_string()];
    let mut scan = StreamScan::new();
    // Ends (a minute after its last event) before the search starts: no overlap.
    scan.scan_stream(&stream("web/a/x", Some(0), Some(30_000)), &apps, 100_000, 200_000);
    assert!(scan.found.is_empty());
    assert_eq!(scan.done, vec!["a".to_string()]);
    // A stream without any time never overlaps.
    scan.scan_stream(&stream("web/a/z", None, None), &apps, 100_000, 200_000);
    assert!(scan.found.is_empty());
    // Starts exactly where the search ends: overlap.
    scan.scan_stream(&stream("web/a/y", Some(200_000), Some(300_000)), &apps, 100_000, 200_000);
    assert_eq!(scan.found.len(), 1);
}

#[test]
fn search_runs_to_done() {
    let (mut search, notices, action) = LogSearch::start(vec!["g1".to_string()], Some(10));
    assert!(matches!(&notices[0], Notice::Message(m) if m == "Search log streams in progress..."));
    assert!(matches!(action, SearchAction::FindStreams(ref g) if g == "g1"));
    let (notices, action) = search.on_streams(Ok(vec!["s1".to_string(), "s2".to_string()]));
    assert!(matches!(&notices[0], Notice::Message(m) if m == "Searching in 2 log stream(s)..."));
    match action {
        SearchAction::FetchLogs { group, streams, next_token } => {
            assert_eq!(group, "g1");
            assert_eq!(streams, vec!["s1".to_string(), "s2".to_string()]);
            assert_eq!(next_token, None);
        },
        other => panic!("unexpected {:?}", other),
    }
    let (notices, action) = search.on_page(Ok(LogPage { events: vec![entry("a"), entry("b"), entry("c")], next_token: None }));
    assert_eq!(notices.len(), 3);
    assert!(matches!(&notices[0], Notice::Found(es) if es.len() == 3));
    assert!(matches!(&notices[1], Notice::Message(m) if m == "Searching in 2 log stream(s), found 3 logs..."));
    assert!(matches!(&notices[2], Notice::Success(m) if m == "Search in 2 log stream(s) done. Found 3 logs."));
    assert!(matches!(action, SearchAction::Finish(Ok(3))));
    assert_eq!(search.stage, SearchStage::Done);
}

#[test]
fn search_stops_at_limit() {
    let (mut search, _, _) = LogSearch::start(vec!["g1".to_string()], Some(2));
    search.on_streams(Ok(vec!["s1".to_string(), "s2".to_string()]));
    let (notices, action) = search.on_page(Ok(LogPage { events: vec![entry("a"), entry("b"), entry("c")], next_token: Some("t".to_string()) }));
    let text = "Search in 2 log stream(s) aborted, found 3 logs. Reached limit of 2 logs.";
    assert!(matches!(&notices[2], Notice::Error(m) if m == text));
    match action {
        SearchAction::Finish(Err(e)) => {
            assert_eq!(e.message, text);
            assert_eq!(e.command, "find_logs");
        },
        other => panic!("unexpected {:?}", other),
    }
}

#[test]
fn search_follows_pages_and_groups() {
    let (mut search, _, _) = LogSearch::start(vec!["g1".to_string(), "g2".to_string()], None);
    search.on_streams(Ok(vec!["s1".to_string()]));
    let (_, action) = search.on_page(Ok(LogPage { events: vec![entry("a")], next_token: Some("t2".to_string()) }));
    assert!(matches!(action, SearchAction::FetchLogs { ref next_token, .. } if next_token.as_deref() == Some("t2")));
    let (notices, action) = search.on_page(Ok(LogPage { events: vec![entry("b")], next_token: None }));
    assert_eq!(notices.len(), 2);
    assert!(matches!(action, SearchAction::FindStreams(ref g) if g == "g2"));
    let (notices, action) = search.on_streams(Ok(vec![]));
    assert!(matches!(&notices[0], Notice::Success(m) if m == "No log streams found having logs in given timeframe."));
    assert!(matches!(action, SearchAction::Finish(Ok(0))));
    assert_eq!(search.log_count, 2);
}

#[test]
fn search_reads_first_hundred_streams() {
    let (mut search, _, _) = LogSearch::start(vec!["g".to_string()], None);
    let names: Vec<String> = (0..150).map(|i| format!("s{}", i)).collect();
    let (notices, action) = search.on_streams(Ok(names));
    assert!(matches!(&notices[0], Notice::Message(m) if m == "Searching in 150 log stream(s)..."));
    match action {
        SearchAction::FetchLogs { streams, .. } => {
            assert_eq!(streams.len(), 100);
            assert_eq!(streams[99], "s99");
        },
        other => panic!("unexpected {:?}", other),
    }
}

#[test]
fn search_errors() {
    let (mut search, _, _) = LogSearch::start(vec!["g".to_string()], None);
    let (notices, action) = search.on_streams(Err("Error: throttled".to_string()));
    assert!(matches!(&notices[0], Notice::Error(m) if m == "Error: throttled"));
    assert!(matches!(action, SearchAction::Finish(Ok(0))));

    let (mut search, _, _) = LogSearch::start(vec!["g".to_string()], None);
    search.on_streams(Ok(vec!["s".to_string()]));
    let (notices, action) = search.on_page(Err("boom".to_string()));
    assert!(matches!(&notices[0], Notice::Error(m) if m == "Error: boom"));
    assert!(matches!(action, SearchAction::Finish(Err(ref e)) if e.message == "boom" && e.command == "find_logs"));
}

#[test]
fn search_without_groups() {
    let (_, notices, action) = LogSearch::start(vec![], None);
    assert!(matches!(&notices[1], Notice::Success(m) if m == "Search in 0 log stream(s) done. Found 0 logs."));
    assert!(matches!(action, SearchAction::Finish(Ok(0))));
}

#[test]
fn file_entries() {
    let logs = vec![entry("a"), entry("b")];
    let e = stored_entry(&logs, 99).unwrap();
    assert_eq!(e.message, "INFO Stored 2 logs");
    assert_eq!(e.log_stream_name, "web/users/1");
    assert_eq!(e.ingestion_time, 2);
    assert_eq!(e.timestamp, 99);
    assert!(stored_entry(&vec![], 99).is_none());
    assert_eq!(file_trace_entry("/tmp/x.log", 5).message, "TRACE File: /tmp/x.log");
    assert_eq!(error_entry("bad", 5).message, "ERROR bad");
    let info = info_entry("hi", 5);
    assert_eq!(info.message, "INFO hi");
    assert_eq!(info.log_stream_name, "-");
    assert_eq!(info.ingestion_time, 5);
}

#[test]
fn search_settings() {
    assert_eq!(search_limit(false), Some(10000));
    assert_eq!(search_limit(true), None);
    assert_eq!(filter_pattern(String::new()), None);
    assert_eq!(filter_pattern("ERROR".to_string()), Some("ERROR".to_string()));
    assert_eq!(log_file_name("dump", 1700), "dump-1700.log");
    assert_eq!(log_group_prefix(Env::DEV), "dsi-dev-");
}

#[test]
fn search_single_group_to_limit() {
    let (mut search, _, action) = LogSearch::start(vec!["dsi-dev-web".to_string()], Some(2));
    assert!(matches!(action, SearchAction::FindStreams(ref g) if g == "dsi-dev-web"));
    let (_, action) = search.on_streams(Ok(vec!["web/billing/1".to_string()]));
    assert_eq!(search.stage, SearchStage::Logs(0));
    assert!(matches!(action, SearchAction::FetchLogs { ref group, .. } if group == "dsi-dev-web"));
    let (notices, action) = search.on_page(Ok(LogPage { events: vec![entry("a"), entry("b")], next_token: None }));
    assert_eq!(notices.len(), 3);
    assert!(matches!(&notices[0], Notice::Found(es) if es.len() == 2));
    assert!(matches!(&notices[2], Notice::Success(m) if m == "Search in 1 log stream(s) done. Found 2 logs."));
    assert!(matches!(action, SearchAction::Finish(Ok(2))));
}

#[test]
fn search_reads_each_group_once() {
    let (mut search, _, _) = LogSearch::start(vec!["g1".to_string(), "g2".to_string()], None);
    search.on_streams(Ok(vec!["s1".to_string()]));
    let (_, action) = search.on_page(Ok(LogPage { events: vec![entry("a")], next_token: None }));
    assert!(matches!(action, SearchAction::FindStreams(ref g) if g == "g2"));
    assert_eq!(search.stage, SearchStage::Streams(1));
    let (_, action) = search.on_streams(Ok(vec!["t1".to_string(), "t2".to_string()]));
    assert_eq!(search.stage, SearchStage::Logs(1));
    assert!(matches!(action, SearchAction::FetchLogs { ref group, ref next_token, .. } if group == "g2" && next_token.is_none()));
    let (_, action) = search.on_page(Ok(LogPage { events: vec![entry("b")], next_token: Some("n".to_string()) }));
    assert!(matches!(action, SearchAction::FetchLogs { ref group, ref streams, ref next_token } if group == "g2" && streams.len() == 2 && next_token.as_deref() == Some("n")));
    let (notices, action) = search.on_page(Ok(LogPage { events: vec![entry("c")], next_token: None }));
    assert!(matches!(&notices[2], Notice::Success(m) if m == "Search in 2 log stream(s) done. Found 3 logs."));
    assert!(matches!(action, SearchAction::Finish(Ok(3))));
    assert_eq!(search.stage, SearchStage::Done);
}
