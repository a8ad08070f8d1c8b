use materializer::actions::{CommandFeedback, CommandStatus};
use materializer::errors::AppError;
use materializer::feedback::{fold_feedback, format_feedback};

fn record(kind: &str, details: &str, status: CommandStatus, message: &str) -> CommandFeedback {
    CommandFeedback {
        command_type: String::from(kind),
        command_details: String::from(details),
        status,
        message: String::from(message),
    }
}

#[test]
fn empty_batch_formats_as_empty_array() {
    assert_eq!(format_feedback(vec![]).unwrap(), "[]");
}

#[test]
fn single_record_formats_exactly() {
    let fb = record("create_folder", "path: d", CommandStatus::Success, "Created folder: out/d");
    let s = format_feedback(vec![fb]).unwrap();
    assert_eq!(
        s,
        "[{\"command_type\":\"create_folder\",\"command_details\":\"path: d\",\
         \"status\":\"Success\",\"message\":\"Created folder: out/d\"}]"
    );
}

#[test]
fn output_is_valid_json_for_a_real_parser() {
    let fb = record(
        "execute_command",
        "cmd: echo \"hi\"\\there",
        CommandStatus::Failure,
        "line one\nline two\ttabbed",
    );
    let s = format_feedback(vec![fb]).unwrap();
    let v: serde_json::Value = serde_json::from_str(&s).unwrap();
    let arr = v.as_array().unwrap();
    assert_eq!(arr.len(), 1);
    assert_eq!(arr[0].get("command_type").unwrap().as_str().unwrap(), "execute_command");
    assert_eq!(
        arr[0].get("command_details").unwrap().as_str().unwrap(),
        "cmd: echo \"hi\"\\there"
    );
    assert_eq!(arr[0].get("status").unwrap().as_str().unwrap(), "Failure");
    assert_eq!(
        arr[0].get("message").unwrap().as_str().unwrap(),
        "line one\nline two\ttabbed"
    );
}

#[test]
fn two_records_round_trip_through_a_real_parser() {
    let s = format_feedback(vec![
        record("create_file", "path: a/b.txt", CommandStatus::Success, "Created file: a/b.txt"),
        record("execute_command", "false ", CommandStatus::Failure, "exit\u{1}\n"),
    ])
    .unwrap();
    let v: serde_json::Value = serde_json::from_str(&s).unwrap();
    let arr = v.as_array().unwrap();
    assert_eq!(arr.len(), 2);
    assert_eq!(arr[0].get("command_type").unwrap().as_str().unwrap(), "create_file");
    assert_eq!(arr[1].get("command_details").unwrap().as_str().unwrap(), "false ");
    assert_eq!(arr[1].get("message").unwrap().as_str().unwrap(), "exit\u{1}\n");
}

#[test]
fn control_characters_are_escaped() {
    let fb = record("t", "d", CommandStatus::Success, "a\u{1}b");
    let s = format_feedback(vec![fb]).unwrap();
    assert!(s.contains("a\\u0001b"));
}

#[test]
fn fold_feedback_takes_fresh_serialization() {
    let folded = fold_feedback(String::from("old"), Ok(String::from("new")));
    assert_eq!(folded, "new");
}

#[test]
fn fold_feedback_keeps_previous_on_failure() {
    let folded = fold_feedback(
        String::from("old"),
        Err(AppError::JsonParseError(String::from("bad"))),
    );
    assert_eq!(folded, "old");
}
