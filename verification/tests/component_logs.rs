use realm_agent::keyed::StrMap;
use realm_agent::logs::{
    api_deploy_history, api_log_components, api_logs, format_timestamp, new_events_range,
    parse_after, push_log, split_once_str, stream_new_records,
};

fn logs_of(entries: &[(&str, &str, u64)]) -> StrMap<Vec<String>> {
    let mut logs: StrMap<Vec<String>> = StrMap::new();
    for (name, line, now) in entries {
        push_log(&mut logs, name, line, *now);
    }
    logs
}

#[test]
fn timestamps_in_iso8601() {
    assert_eq!(format_timestamp(0), "1970-01-01T00:00:00.000000000Z");
    assert_eq!(format_timestamp(1_700_000_000), "2023-11-14T22:13:20.000000000Z");
    // the time is read as a signed number of seconds
    assert_eq!(format_timestamp(u64::MAX), "1969-12-31T23:59:59.000000000Z");
    // beyond the representable range the epoch is shown
    assert_eq!(format_timestamp(i64::MAX as u64), "1970-01-01T00:00:00Z");
}

#[test]
fn lines_are_stored_with_their_time() {
    let logs = logs_of(&[("web", "started", 10)]);
    assert_eq!(logs.get("web").unwrap(), &vec!["10 | started".to_string()]);
    assert!(logs.get("db").is_none());
}

#[test]
fn buffer_keeps_the_newest_thousand() {
    let mut logs: StrMap<Vec<String>> = StrMap::new();
    for i in 0..1005u64 {
        push_log(&mut logs, "svc", &format!("line {}", i), i);
    }
    let buf = logs.get("svc").unwrap();
    assert_eq!(buf.len(), 1000);
    assert_eq!(buf[0], "5 | line 5");
    assert_eq!(buf[999], "1004 | line 1004");
}

#[test]
fn logs_view_of_one_component() {
    let logs = logs_of(&[("web", "a", 1), ("web", "b", 2), ("web", "c", 3), ("db", "x", 2)]);
    let view = api_logs(&logs, Some(2), Some("web"), 99);
    assert_eq!(view.len(), 2);
    assert_eq!(view[0].message, "b");
    assert_eq!(view[1].message, "c");
    assert_eq!(view[1].component, "web");
    assert_eq!(view[1].timestamp, "1970-01-01T00:00:03.000000000Z");
}

#[test]
fn logs_view_of_all_components_sorted_by_time() {
    let logs = logs_of(&[("web", "w1", 5), ("db", "d1", 1), ("web", "w2", 1), ("db", "d2", 7)]);
    let view = api_logs(&logs, None, None, 0);
    let seen: Vec<(String, String)> =
        view.iter().map(|l| (l.component.clone(), l.message.clone())).collect();
    assert_eq!(
        seen,
        vec![
            ("db".to_string(), "d1".to_string()),
            ("web".to_string(), "w2".to_string()),
            ("web".to_string(), "w1".to_string()),
            ("db".to_string(), "d2".to_string()),
        ]
    );
    let last_two = api_logs(&logs, Some(2), Some("__all__"), 0);
    assert_eq!(last_two.len(), 2);
    assert_eq!(last_two[0].message, "w1");
}

#[test]
fn logs_view_fallbacks() {
    let empty: StrMap<Vec<String>> = StrMap::new();
    let view = api_logs(&empty, None, None, 0);
    assert_eq!(view.len(), 1);
    assert_eq!(view[0].component, "system");
    assert_eq!(view[0].message, "No logs available yet");
    assert_eq!(view[0].timestamp, "1970-01-01T00:00:00.000000000Z");
    let logs = logs_of(&[("web", "a", 1)]);
    let view = api_logs(&logs, None, Some("db"), 0);
    assert_eq!(view[0].message, "No logs found for component 'db'");
}

#[test]
fn component_names_in_order() {
    let logs = logs_of(&[("web", "a", 1), ("api", "b", 2), ("db", "c", 3)]);
    assert_eq!(
        api_log_components(&logs),
        vec!["api".to_string(), "db".to_string(), "web".to_string()]
    );
}

#[test]
fn deploy_history_from_logs() {
    let logs = logs_of(&[
        ("agent", "component 'web' deployed", 10),
        ("agent", "nothing here", 11),
        ("agent", "deployed something", 12),
    ]);
    let history = api_deploy_history(&logs);
    assert_eq!(history.len(), 2);
    assert_eq!(history[0].component, "component");
    assert_eq!(history[0].timestamp, 12);
    assert_eq!(history[1].component, "web");
    assert_eq!(history[1].timestamp, 10);
    assert!(history[1].digest.is_none());
    assert_eq!(parse_after("x component 'api' y", "component '"), Some("api".to_string()));
    assert_eq!(parse_after("component 'api", "component '"), None);
    assert_eq!(split_once_str("1 | a | b", " | "), Some(("1", "a | b")));
}

#[test]
fn stream_sends_only_new_lines() {
    let mut logs = logs_of(&[("web", "a", 1), ("db", "x", 2)]);
    let mut marks: StrMap<usize> = StrMap::new();
    let first = stream_new_records(&logs, &mut marks);
    assert_eq!(first.len(), 2);
    assert_eq!(first[0], (2, "db".to_string(), "x".to_string()));
    assert_eq!(first[1], (1, "web".to_string(), "a".to_string()));
    assert!(stream_new_records(&logs, &mut marks).is_empty());
    push_log(&mut logs, "web", "b", 3);
    let second = stream_new_records(&logs, &mut marks);
    assert_eq!(second, vec![(3, "web".to_string(), "b".to_string())]);
    assert_eq!(marks.get("web"), Some(&2));
}

#[test]
fn event_ranges() {
    assert_eq!(new_events_range(5, 2), Some((2, 5)));
    assert_eq!(new_events_range(5, 5), None);
    assert_eq!(new_events_range(3, 7), None);
}
