use todo::codec::{decimal_string, parse_tasks, serialize_tasks};
use todo::task::Task;
use todo::Error;

fn chars(s: &str) -> Vec<char> {
    s.chars().collect()
}

fn text(cs: &Vec<char>) -> String {
    cs.iter().collect()
}

fn task(id: usize, name: &str, created_at: &str, completed_at: Option<&str>) -> Task {
    Task {
        id,
        name: name.to_string(),
        created_at: created_at.to_string(),
        completed_at: completed_at.map(|s| s.to_string()),
    }
}

#[test]
fn serialize_empty_store() {
    let tasks: Vec<Task> = Vec::new();
    assert_eq!(text(&serialize_tasks(&tasks)), "[]");
}

#[test]
fn serialize_one_task() {
    let tasks = vec![task(0, "buy milk", "2023-01-02T03:04:05+00:00", None)];
    assert_eq!(
        text(&serialize_tasks(&tasks)),
        r#"[{"id":0,"name":"buy milk","created_at":"2023-01-02T03:04:05+00:00","completed_at":null}]"#
    );
}

#[test]
fn serialize_two_tasks_with_completion() {
    let tasks = vec![
        task(1, "a", "t1", None),
        task(2, "b", "t2", Some("t3")),
    ];
    assert_eq!(
        text(&serialize_tasks(&tasks)),
        r#"[{"id":1,"name":"a","created_at":"t1","completed_at":null},{"id":2,"name":"b","created_at":"t2","completed_at":"t3"}]"#
    );
}

#[test]
fn serialize_escapes_quotes_and_backslashes() {
    let tasks = vec![task(7, "say \"hi\" \\ bye", "t", None)];
    assert_eq!(
        text(&serialize_tasks(&tasks)),
        r#"[{"id":7,"name":"say \"hi\" \\ bye","created_at":"t","completed_at":null}]"#
    );
}

#[test]
fn parse_empty_store() {
    let parsed = parse_tasks(&chars("[]")).unwrap();
    assert_eq!(parsed.len(), 0);
}

#[test]
fn parse_one_task() {
    let parsed = parse_tasks(&chars(
        r#"[{"id":12,"name":"water plants","created_at":"2023-05-06T07:08:09+00:00","completed_at":null}]"#,
    ))
    .unwrap();
    assert_eq!(parsed.len(), 1);
    assert_eq!(parsed[0].id, 12);
    assert_eq!(parsed[0].name, "water plants");
    assert_eq!(parsed[0].created_at, "2023-05-06T07:08:09+00:00");
    assert!(parsed[0].completed_at.is_none());
}

#[test]
fn parse_completed_task() {
    let parsed = parse_tasks(&chars(
        r#"[{"id":3,"name":"n","created_at":"c","completed_at":"d"}]"#,
    ))
    .unwrap();
    assert_eq!(parsed[0].completed_at.as_deref(), Some("d"));
}

#[test]
fn parse_unescapes_name() {
    let parsed = parse_tasks(&chars(
        r#"[{"id":0,"name":"say \"hi\" \\ bye","created_at":"t","completed_at":null}]"#,
    ))
    .unwrap();
    assert_eq!(parsed[0].name, "say \"hi\" \\ bye");
}

#[test]
fn round_trip_from_tasks() {
    let tasks = vec![
        task(0, "plain", "2023-01-01T00:00:00+00:00", None),
        task(1, "with \"quotes\"", "2023-01-02T00:00:00+00:00", Some("2023-01-03T00:00:00+00:00")),
        task(2, "back\\slash", "2023-01-04T00:00:00+00:00", None),
        task(usize::MAX, "big id", "t", None),
    ];
    let written = serialize_tasks(&tasks);
    let reread = parse_tasks(&written).unwrap();
    assert_eq!(reread.len(), tasks.len());
    for (a, b) in tasks.iter().zip(reread.iter()) {
        assert_eq!(a.id, b.id);
        assert_eq!(a.name, b.name);
        assert_eq!(a.created_at, b.created_at);
        assert_eq!(a.completed_at, b.completed_at);
    }
}

#[test]
fn round_trip_from_text() {
    let content =
        r#"[{"id":0,"name":"a","created_at":"t0","completed_at":null},{"id":1,"name":"b","created_at":"t1","completed_at":"t2"}]"#;
    let reread = parse_tasks(&chars(content)).unwrap();
    assert_eq!(text(&serialize_tasks(&reread)), content);
}

#[test]
fn parse_rejects_malformed_text() {
    for bad in [
        "",
        "[",
        "{}",
        "[]x",
        "[{}]",
        r#"[{"id":1,"name":"a","created_at":"t","completed_at":null}"#,
        r#"[{"id":01,"name":"a","created_at":"t","completed_at":null}]"#,
        r#"[{"id":,"name":"a","created_at":"t","completed_at":null}]"#,
        r#"[{"id":1,"name":"a,"created_at":"t","completed_at":null}]"#,
        r#"[{"id":1,"name":"a","created_at":"t","completed_at":none}]"#,
        r#"[{"id":99999999999999999999999999,"name":"a","created_at":"t","completed_at":null}]"#,
    ] {
        assert_eq!(parse_tasks(&chars(bad)).unwrap_err(), Error::ParseFailure, "{bad}");
    }
}

#[test]
fn written_text_is_valid_json() {
    let tasks = vec![
        task(0, "say \"hi\"", "2023-01-01T00:00:00+00:00", None),
        task(1, "b", "2023-01-02T00:00:00+00:00", Some("2023-01-03T00:00:00+00:00")),
    ];
    let written = text(&serialize_tasks(&tasks));
    let value: serde_json::Value = serde_json::from_str(&written).unwrap();
    let arr = value.as_array().unwrap();
    assert_eq!(arr.len(), 2);
    assert_eq!(arr[0]["id"], 0);
    assert_eq!(arr[0]["name"], "say \"hi\"");
    assert_eq!(arr[0]["created_at"], "2023-01-01T00:00:00+00:00");
    assert!(arr[0]["completed_at"].is_null());
    assert_eq!(arr[1]["completed_at"], "2023-01-03T00:00:00+00:00");
}

#[test]
fn decimal_strings() {
    assert_eq!(decimal_string(0), "0");
    assert_eq!(decimal_string(9), "9");
    assert_eq!(decimal_string(10), "10");
    assert_eq!(decimal_string(409), "409");
    assert_eq!(decimal_string(18446744073709551615), "18446744073709551615");
}
