use materializer::actions::{
    command_outcome, feedbacks_for_created_files, file_feedback, folder_feedback, plan_command,
    run_feedback, split_command, CommandPlan, CommandStatus, FileWriteError, GeminiCommand,
};
use materializer::errors::AppError;

#[test]
fn split_command_separates_program_and_args() {
    let (program, args) = split_command("echo a  b").unwrap();
    assert_eq!(program, "echo");
    assert_eq!(args, vec![String::from("a"), String::from("b")]);
}

#[test]
fn split_command_single_word() {
    let (program, args) = split_command("false").unwrap();
    assert_eq!(program, "false");
    assert!(args.is_empty());
}

#[test]
fn split_command_refuses_empty() {
    match split_command("   ") {
        Err(AppError::CommandError(m)) => assert_eq!(m, "Empty command"),
        _ => panic!("expected an empty-command error"),
    }
}

#[test]
fn command_outcome_keeps_stdout_on_success() {
    assert_eq!(command_outcome(true, String::from("out\n"), String::new()).unwrap(), "out\n");
}

#[test]
fn command_outcome_reports_stderr_on_failure() {
    match command_outcome(false, String::new(), String::from("boom")) {
        Err(AppError::CommandError(m)) => assert_eq!(m, "boom"),
        _ => panic!("expected a command error"),
    }
}

#[test]
fn plan_folder_resolves_path() {
    let cmd = GeminiCommand::CreateFolder { path: String::from("proj/src") };
    match plan_command(&cmd, "out").unwrap() {
        CommandPlan::MakeDir { full_path } => assert_eq!(full_path, "out/proj/src"),
        _ => panic!("expected a directory plan"),
    }
}

#[test]
fn plan_folder_refuses_traversal() {
    let cmd = GeminiCommand::CreateFolder { path: String::from("../up") };
    assert!(matches!(plan_command(&cmd, "out"), Err(AppError::ResponseError(_))));
}

#[test]
fn plan_file_carries_content() {
    let cmd = GeminiCommand::CreateFile {
        path: String::from("a\\b.txt"),
        content: String::from("body"),
    };
    match plan_command(&cmd, "out").unwrap() {
        CommandPlan::WriteFile { full_path, content } => {
            assert_eq!(full_path, "out/a/b.txt");
            assert_eq!(content, "body");
        },
        _ => panic!("expected a file plan"),
    }
}

#[test]
fn plan_execute_splits_command_line() {
    let cmd = GeminiCommand::ExecuteCommand {
        command: String::from("git"),
        args: vec![String::from("status"), String::from("-s")],
    };
    match plan_command(&cmd, ".").unwrap() {
        CommandPlan::RunProcess { program, args } => {
            assert_eq!(program, "git");
            assert_eq!(args, vec![String::from("status"), String::from("-s")]);
        },
        _ => panic!("expected a process plan"),
    }
}

#[test]
fn plan_execute_empty_command_fails_immediately() {
    let cmd = GeminiCommand::ExecuteCommand { command: String::new(), args: vec![] };
    match plan_command(&cmd, ".").unwrap() {
        CommandPlan::Immediate { feedback } => {
            assert_eq!(feedback.command_type, "execute_command");
            assert_eq!(feedback.status, CommandStatus::Failure);
            assert_eq!(
                feedback.message,
                "Command execution failed: Command execution error: Empty command"
            );
        },
        _ => panic!("expected an immediate failure"),
    }
}

#[test]
fn failed_shell_command_yields_failure_feedback() {
    // The action ExecuteShellCommand{command: "false", args: []}: the `false`
    // program exits non-zero with empty standard error.
    let cmd = GeminiCommand::ExecuteCommand { command: String::from("false"), args: vec![] };
    let (program, args) = match plan_command(&cmd, ".").unwrap() {
        CommandPlan::RunProcess { program, args } => (program, args),
        _ => panic!("expected a process plan"),
    };
    assert_eq!(program, "false");
    assert!(args.is_empty());
    let outcome = command_outcome(false, String::new(), String::new());
    let feedback = run_feedback("false ", outcome);
    assert_eq!(feedback.status, CommandStatus::Failure);
    assert!(!feedback.message.is_empty());
    assert_eq!(feedback.message, "Command execution failed: Command execution error: ");
}

#[test]
fn successful_run_reports_output() {
    let feedback = run_feedback("echo hi", Ok(String::from("hi\n")));
    assert_eq!(feedback.status, CommandStatus::Success);
    assert_eq!(feedback.message, "Command executed successfully. Output: hi\n");
    assert_eq!(feedback.command_details, "echo hi");
}

#[test]
fn folder_feedback_messages() {
    let ok = folder_feedback("d", "out/d", None);
    assert_eq!(ok.command_type, "create_folder");
    assert_eq!(ok.command_details, "path: d");
    assert_eq!(ok.status, CommandStatus::Success);
    assert_eq!(ok.message, "Created folder: out/d");
    let bad = folder_feedback("d", "out/d", Some(String::from("denied")));
    assert_eq!(bad.status, CommandStatus::Failure);
    assert_eq!(bad.message, "Failed to create folder: denied");
}

#[test]
fn file_feedback_distinguishes_failures() {
    let parent = file_feedback("f", "out/f", Some(FileWriteError::ParentDir(String::from("x"))));
    assert_eq!(parent.message, "Failed to create parent directory: x");
    let write = file_feedback("f", "out/f", Some(FileWriteError::Write(String::from("y"))));
    assert_eq!(write.message, "Failed to write file: y");
    let ok = file_feedback("f", "out/f", None);
    assert_eq!(ok.message, "Created file: out/f");
    assert_eq!(ok.status, CommandStatus::Success);
}

#[test]
fn materialized_files_get_one_feedback_each() {
    let files = vec![String::from("out/a.txt"), String::from("out/b.txt")];
    let fbs = feedbacks_for_created_files(&files);
    assert_eq!(fbs.len(), 2);
    assert_eq!(fbs[0].command_type, "create_file");
    assert_eq!(fbs[0].command_details, "path: out/a.txt");
    assert_eq!(fbs[0].status, CommandStatus::Success);
    assert_eq!(fbs[1].message, "Created file: out/b.txt");
}
