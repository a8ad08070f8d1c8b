//! Structured actions and the feedback records their outcomes produce.
//!
//! An action is one instruction from the upstream model: create a folder,
//! create a file, or run a command. This module decides everything about an
//! action that is not an actual filesystem or process effect: how its path
//! is validated and resolved, how a command line is split into program and
//! arguments, and exactly which feedback record each outcome yields. The
//! thin shell around the library performs the effects and hands the
//! outcomes back.

use crate::errors::AppError;
use crate::paths::{is_suspicious, join_path, joined_path, normalize_seps};
use crate::text::{
    is_space_char, lemma_first_where, lemma_first_where_unique, first_where, scan_not_ws, scan_ws,
    spec_trim, str_chars, string_from_range,
};
use vstd::prelude::*;
use vstd::string::StringExecFns;

verus! {

/// One structured instruction from the upstream model.
pub enum GeminiCommand {
    CreateFolder { path: String },
    CreateFile { path: String, content: String },
    ExecuteCommand { command: String, args: Vec<String> },
}

/// Whether an action succeeded.
#[derive(Clone, Copy, Debug, PartialEq, Eq, Structural)]
pub enum CommandStatus {
    Success,
    Failure,
}

/// The record one executed action leaves behind: what was attempted, whether
/// it succeeded, and a message — the confirmation or the diagnostic.
#[derive(Clone, Debug)]
pub struct CommandFeedback {
    pub command_type: String,
    pub command_details: String,
    pub status: CommandStatus,
    pub message: String,
}

/// What executing an action requires of the outside world: one directory
/// creation, one file write, one process run — or nothing, when the action
/// already failed in validation that is not fatal to the batch.
pub enum CommandPlan {
    MakeDir { full_path: String },
    WriteFile { full_path: String, content: String },
    RunProcess { program: String, args: Vec<String> },
    Immediate { feedback: CommandFeedback },
}

/// How a file write can fail: creating the parent directories, or the write
/// itself.
pub enum FileWriteError {
    ParentDir(String),
    Write(String),
}

/// The views of a sequence of strings.
pub open spec fn strs_view(ss: Seq<String>) -> Seq<Seq<char>> {
    Seq::new(ss.len(), |i: int| ss[i]@)
}

// ---------------------------------------------------------------------------
// Splitting a command line
// ---------------------------------------------------------------------------

/// The whitespace-separated tokens of `s` from index `i` on.
pub open spec fn ws_split_from(s: Seq<char>, i: int) -> Seq<Seq<char>>
    decreases s.len() - i,
    via ws_split_dec
{
    if i < 0 || i >= s.len() {
        Seq::empty()
    } else if is_space_char(s[i]) {
        ws_split_from(s, i + 1)
    } else {
        let e = i + first_where(s.skip(i), |c: char| is_space_char(c));
        seq![s.subrange(i, e)] + ws_split_from(s, e)
    }
}

#[via_fn]
proof fn ws_split_dec(s: Seq<char>, i: int) {
    if 0 <= i < s.len() && !is_space_char(s[i]) {
        lemma_first_where(s.skip(i), |c: char| is_space_char(c));
        assert(s.skip(i)[0] == s[i]);
    }
}

/// Skipping whitespace does not change the tokens.
proof fn lemma_ws_split_skip(s: Seq<char>, i: int, j: int)
    requires
        0 <= i <= j <= s.len(),
        forall|k: int| i <= k < j ==> is_space_char(s[k]),
    ensures
        ws_split_from(s, i) == ws_split_from(s, j),
    decreases j - i,
{
    if i < j {
        lemma_ws_split_skip(s, i + 1, j);
    }
}

/// A maximal non-whitespace run starting at `j` is the next token.
proof fn lemma_ws_split_token(s: Seq<char>, j: int, e: int)
    requires
        0 <= j < s.len(),
        !is_space_char(s[j]),
        j <= e <= s.len(),
        forall|k: int| j <= k < e ==> !is_space_char(s[k]),
        e < s.len() ==> is_space_char(s[e]),
    ensures
        ws_split_from(s, j) == seq![s.subrange(j, e)] + ws_split_from(s, e),
{
    let tail = s.skip(j);
    let p = |c: char| is_space_char(c);
    assert forall|k: int| 0 <= k < e - j implies !p(tail[k]) by {
        assert(tail[k] == s[j + k]);
    }
    if e < s.len() {
        assert(tail[e - j] == s[e]);
    }
    lemma_first_where_unique(tail, p, e - j);
}

/// Splits a command line into its program and argument tokens, on
/// whitespace. An all-whitespace (or empty) command is refused.
pub fn split_command(command: &str) -> (r: Result<(String, Vec<String>), AppError>)
    ensures
        ({
            let parts = ws_split_from(command@, 0);
            match r {
                Ok(pa) => parts.len() > 0 && pa.0@ == parts[0] && strs_view(pa.1@)
                    == parts.drop_first(),
                Err(e) => parts.len() == 0 && (match e {
                    AppError::CommandError(m) => m@ == "Empty command"@,
                    _ => false,
                }),
            }
        }),
{
    let ghost s = command@;
    let chars = str_chars(command);
    let n = chars.len();
    let mut tokens: Vec<String> = Vec::new();
    let mut pos: usize = 0;
    proof {
        assert(strs_view(tokens@) =~= Seq::<Seq<char>>::empty());
        assert(strs_view(tokens@) + ws_split_from(s, 0) =~= ws_split_from(s, 0));
    }
    while pos < n
        invariant
            0 <= pos <= n,
            n == s.len(),
            chars@ == s,
            ws_split_from(s, 0) == strs_view(tokens@) + ws_split_from(s, pos as int),
        decreases n - pos,
    {
        let j = scan_not_ws(&chars, pos, n);
        proof {
            lemma_ws_split_skip(s, pos as int, j as int);
        }
        if j == n {
            pos = n;
        } else {
            let e = scan_ws(&chars, j, n);
            let tok = string_from_range(&chars, j, e);
            proof {
                lemma_ws_split_token(s, j as int, e as int);
                assert(strs_view(tokens@.push(tok)) =~= strs_view(tokens@) + seq![tok@]);
                assert(strs_view(tokens@) + (seq![s.subrange(j as int, e as int)] + ws_split_from(
                    s,
                    e as int,
                )) =~= (strs_view(tokens@) + seq![s.subrange(j as int, e as int)])
                    + ws_split_from(s, e as int));
            }
            tokens.push(tok);
            pos = e;
        }
    }
    proof {
        assert(strs_view(tokens@) + ws_split_from(s, n as int) =~= strs_view(tokens@));
    }
    if tokens.len() == 0 {
        Err(AppError::CommandError("Empty command".to_owned()))
    } else {
        let ghost toks0 = tokens@;
        let cmd = tokens.remove(0);
        proof {
            assert(strs_view(tokens@) =~= strs_view(toks0).drop_first());
        }
        Ok((cmd, tokens))
    }
}

/// Folds a finished process run into the command's result: its standard
/// output on success, its standard error as the failure on a non-zero exit.
pub fn command_outcome(success: bool, stdout: String, stderr: String) -> (r: Result<
    String,
    AppError,
>)
    ensures
        success ==> r == Ok::<String, AppError>(stdout),
        !success ==> r == Err::<String, AppError>(AppError::CommandError(stderr)),
{
    if success {
        Ok(stdout)
    } else {
        Err(AppError::CommandError(stderr))
    }
}

// ---------------------------------------------------------------------------
// Planning an action
// ---------------------------------------------------------------------------

/// The first `i` of the given strings joined with single spaces.
pub open spec fn join_upto(ss: Seq<Seq<char>>, i: int) -> Seq<char>
    decreases i,
{
    if i <= 0 {
        Seq::empty()
    } else if i == 1 {
        ss[0]
    } else {
        join_upto(ss, i - 1) + seq![' '] + ss[i - 1]
    }
}

/// The command line an execute action describes: the command, a space, and
/// the arguments joined with spaces.
pub open spec fn command_line(command: Seq<char>, args: Seq<Seq<char>>) -> Seq<char> {
    command + " "@ + join_upto(args, args.len() as int)
}

/// Decides what an action asks of the outside world. A suspicious path is
/// fatal to the whole batch; an empty command fails only this action, as an
/// immediate feedback record.
pub fn plan_command(cmd: &GeminiCommand, output_dir: &str) -> (r: Result<CommandPlan, AppError>)
    ensures
        ({
            match cmd {
                GeminiCommand::CreateFolder { path } => {
                    let t = spec_trim(path@);
                    match r {
                        Ok(CommandPlan::MakeDir { full_path }) => !is_suspicious(t) && full_path@
                            == joined_path(output_dir@, normalize_seps(t)),
                        Err(e) => is_suspicious(t) && (match e {
                            AppError::ResponseError(m) => m@ == "Suspicious file path: "@ + t,
                            _ => false,
                        }),
                        _ => false,
                    }
                },
                GeminiCommand::CreateFile { path, content } => {
                    let t = spec_trim(path@);
                    match r {
                        Ok(CommandPlan::WriteFile { full_path, content: c }) => !is_suspicious(t)
                            && full_path@ == joined_path(output_dir@, normalize_seps(t)) && c@
                            == content@,
                        Err(e) => is_suspicious(t) && (match e {
                            AppError::ResponseError(m) => m@ == "Suspicious file path: "@ + t,
                            _ => false,
                        }),
                        _ => false,
                    }
                },
                GeminiCommand::ExecuteCommand { command, args } => {
                    let line = command_line(command@, strs_view(args@));
                    let parts = ws_split_from(line, 0);
                    match r {
                        Ok(CommandPlan::RunProcess { program, args: pargs }) => parts.len() > 0
                            && program@ == parts[0] && strs_view(pargs@) == parts.drop_first(),
                        Ok(CommandPlan::Immediate { feedback }) => parts.len() == 0
                            && feedback.command_type@ == "execute_command"@
                            && feedback.command_details@ == line && feedback.status is Failure
                            && feedback.message@
                            == "Command execution failed: Command execution error: Empty command"@,
                        _ => false,
                    }
                },
            }
        }),
{
    match cmd {
        GeminiCommand::CreateFolder { path } => {
            match crate::paths::clean_and_validate_file_path(path.as_str()) {
                Ok(clean) => {
                    let full = join_path(output_dir, clean);
                    Ok(CommandPlan::MakeDir { full_path: full })
                },
                Err(e) => Err(e),
            }
        },
        GeminiCommand::CreateFile { path, content } => {
            match crate::paths::clean_and_validate_file_path(path.as_str()) {
                Ok(clean) => {
                    let full = join_path(output_dir, clean);
                    Ok(CommandPlan::WriteFile { full_path: full, content: content.clone() })
                },
                Err(e) => Err(e),
            }
        },
        GeminiCommand::ExecuteCommand { command, args } => {
            let ghost sv = strs_view(args@);
            let mut line = command.clone();
            line.append(" ");
            proof {
                assert(line@ =~= command@ + " "@ + join_upto(sv, 0));
            }
            let mut i: usize = 0;
            while i < args.len()
                invariant
                    0 <= i <= args@.len(),
                    sv == strs_view(args@),
                    line@ == command@ + " "@ + join_upto(sv, i as int),
                decreases args@.len() - i,
            {
                let ghost before = line@;
                if i > 0 {
                    line.append(" ");
                }
                line.append(args[i].as_str());
                proof {
                    reveal_strlit(" ");
                    assert(" "@ =~= seq![' ']);
                    assert(sv[i as int] == args@[i as int]@);
                    if i == 0 {
                        assert(join_upto(sv, 1) == sv[0]);
                        assert(line@ =~= command@ + " "@ + join_upto(sv, 1));
                    } else {
                        assert(join_upto(sv, i as int + 1) == join_upto(sv, i as int) + seq![' ']
                            + sv[i as int]);
                        assert(line@ =~= command@ + " "@ + join_upto(sv, i as int + 1));
                    }
                }
                i += 1;
            }
            match split_command(line.as_str()) {
                Ok((program, pargs)) => Ok(CommandPlan::RunProcess { program, args: pargs }),
                Err(_) => {
                    let feedback = CommandFeedback {
                        command_type: "execute_command".to_owned(),
                        command_details: line,
                        status: CommandStatus::Failure,
                        message:
                            "Command execution failed: Command execution error: Empty command".to_owned(),
                    };
                    Ok(CommandPlan::Immediate { feedback })
                },
            }
        },
    }
}

// ---------------------------------------------------------------------------
// Folding outcomes into feedback
// ---------------------------------------------------------------------------

/// The feedback a folder-creation attempt leaves: the action and its path,
/// and either the confirmation or the diagnostic.
pub fn folder_feedback(path: &str, full_path: &str, error: Option<String>) -> (r: CommandFeedback)
    ensures
        r.command_type@ == "create_folder"@,
        r.command_details@ == "path: "@ + path@,
        (match error {
            None => r.status is Success && r.message@ == "Created folder: "@ + full_path@,
            Some(e) => r.status is Failure && r.message@ == "Failed to create folder: "@ + e@,
        }),
{
    let mut details = "path: ".to_owned();
    details.append(path);
    match error {
        None => {
            let mut m = "Created folder: ".to_owned();
            m.append(full_path);
            CommandFeedback {
                command_type: "create_folder".to_owned(),
                command_details: details,
                status: CommandStatus::Success,
                message: m,
            }
        },
        Some(e) => {
            let mut m = "Failed to create folder: ".to_owned();
            m.append(e.as_str());
            CommandFeedback {
                command_type: "create_folder".to_owned(),
                command_details: details,
                status: CommandStatus::Failure,
                message: m,
            }
        },
    }
}

/// The feedback a file-creation attempt leaves; failing to make the parent
/// directories and failing to write are reported apart.
pub fn file_feedback(path: &str, full_path: &str, error: Option<FileWriteError>) -> (r:
    CommandFeedback)
    ensures
        r.command_type@ == "create_file"@,
        r.command_details@ == "path: "@ + path@,
        (match error {
            None => r.status is Success && r.message@ == "Created file: "@ + full_path@,
            Some(FileWriteError::ParentDir(e)) => r.status is Failure && r.message@
                == "Failed to create parent directory: "@ + e@,
            Some(FileWriteError::Write(e)) => r.status is Failure && r.message@
                == "Failed to write file: "@ + e@,
        }),
{
    let mut details = "path: ".to_owned();
    details.append(path);
    match error {
        None => {
            let mut m = "Created file: ".to_owned();
            m.append(full_path);
            CommandFeedback {
                command_type: "create_file".to_owned(),
                command_details: details,
                status: CommandStatus::Success,
                message: m,
            }
        },
        Some(FileWriteError::ParentDir(e)) => {
            let mut m = "Failed to create parent directory: ".to_owned();
            m.append(e.as_str());
            CommandFeedback {
                command_type: "create_file".to_owned(),
                command_details: details,
                status: CommandStatus::Failure,
                message: m,
            }
        },
        Some(FileWriteError::Write(e)) => {
            let mut m = "Failed to write file: ".to_owned();
            m.append(e.as_str());
            CommandFeedback {
                command_type: "create_file".to_owned(),
                command_details: details,
                status: CommandStatus::Failure,
                message: m,
            }
        },
    }
}

/// The feedback a command run leaves: `Success` exactly when the run
/// succeeded, with its output; otherwise `Failure`, with a message that is
/// never empty.
pub fn run_feedback(cmd_line: &str, outcome: Result<String, AppError>) -> (r: CommandFeedback)
    ensures
        r.command_type@ == "execute_command"@,
        r.command_details@ == cmd_line@,
        (match outcome {
            Ok(out) => r.status is Success && r.message@
                == "Command executed successfully. Output: "@ + out@,
            Err(e) => r.status is Failure && r.message@ == "Command execution failed: "@
                + e.spec_message(),
        }),
        r.message@.len() > 0,
{
    proof {
        reveal_strlit("Command executed successfully. Output: ");
        reveal_strlit("Command execution failed: ");
    }
    let details = cmd_line.to_owned();
    match outcome {
        Ok(out) => {
            let mut m = "Command executed successfully. Output: ".to_owned();
            m.append(out.as_str());
            CommandFeedback {
                command_type: "execute_command".to_owned(),
                command_details: details,
                status: CommandStatus::Success,
                message: m,
            }
        },
        Err(e) => {
            let mut m = "Command execution failed: ".to_owned();
            let rendered = e.message();
            m.append(rendered.as_str());
            CommandFeedback {
                command_type: "execute_command".to_owned(),
                command_details: details,
                status: CommandStatus::Failure,
                message: m,
            }
        },
    }
}

/// The feedback records for files already materialized from free-form text:
/// one `create_file` success per written path, in order.
pub fn feedbacks_for_created_files(files: &Vec<String>) -> (r: Vec<CommandFeedback>)
    ensures
        r@.len() == files@.len(),
        forall|i: int|
            0 <= i < r@.len() ==> {
                &&& (#[trigger] r@[i]).command_type@ == "create_file"@
                &&& r@[i].command_details@ == "path: "@ + files@[i]@
                &&& r@[i].status is Success
                &&& r@[i].message@ == "Created file: "@ + files@[i]@
            },
{
    let mut out: Vec<CommandFeedback> = Vec::new();
    let mut i: usize = 0;
    while i < files.len()
        invariant
            0 <= i <= files@.len(),
            out@.len() == i,
            forall|j: int|
                0 <= j < i ==> {
                    &&& (#[trigger] out@[j]).command_type@ == "create_file"@
                    &&& out@[j].command_details@ == "path: "@ + files@[j]@
                    &&& out@[j].status is Success
                    &&& out@[j].message@ == "Created file: "@ + files@[j]@
                },
        decreases files@.len() - i,
    {
        let mut details = "path: ".to_owned();
        details.append(files[i].as_str());
        let mut m = "Created file: ".to_owned();
        m.append(files[i].as_str());
        out.push(
            CommandFeedback {
                command_type: "create_file".to_owned(),
                command_details: details,
                status: CommandStatus::Success,
                message: m,
            },
        );
        i += 1;
    }
    out
}

} // verus!
